use vstd::prelude::*;

use crate::commands::{Color, DrawCommand, Shape, LINE_WIDTH};
use crate::grid::Grid;

verus! {

/// A value handed back by a user script, as far as the host reads it.
#[derive(Debug)]
pub enum ScriptValue {
    /// The script's `None`.
    Nothing,
    /// An integer; one beyond the range of `i128` is held as `i128::MAX`, which
    /// no coordinate reaches.
    Int(i128),
    /// A tuple, with its items.
    Tuple(Vec<ScriptValue>),
    /// Any other iterable value, with the items that iterating it gave.
    Sequence(Vec<ScriptValue>),
    /// Anything else, strings and bytes included.
    Other,
}

/// Why running a script failed. Each carries the diagnostic text to show.
#[derive(Debug)]
pub enum ScriptError {
    /// The script text does not parse.
    Compile(String),
    /// The script has no usable `find_path`, or it returned a value of the wrong shape.
    Schema(String),
    /// The script raised while running.
    Runtime(String),
}

impl ScriptError {
    pub open spec fn spec_message(&self) -> Seq<char> {
        match self {
            ScriptError::Compile(m) => m@,
            ScriptError::Schema(m) => m@,
            ScriptError::Runtime(m) => m@,
        }
    }

    /// The diagnostic text.
    pub fn message(&self) -> (r: String)
        ensures
            r@ == self.spec_message(),
    {
        match self {
            ScriptError::Compile(m) => m.clone(),
            ScriptError::Schema(m) => m.clone(),
            ScriptError::Runtime(m) => m.clone(),
        }
    }
}

/// What a script's namespace holds under the entry point's name after its top
/// level ran.
#[derive(Clone, Copy, Debug, PartialEq, Eq, Structural)]
pub enum EntryPoint {
    Missing,
    NotAFunction,
    Function,
}

/// A script can be called only where its entry point is a function; otherwise
/// it fails with a schema error.
pub fn check_entry_point(entry: EntryPoint) -> (r: Result<(), ScriptError>)
    ensures
        r is Ok <==> entry is Function,
        r is Err ==> r->Err_0 is Schema && r->Err_0.spec_message().len() > 0,
{
    proof {
        reveal_strlit("SchemaError: 'find_path' is not defined");
        reveal_strlit("SchemaError: Expected 'find_path' to be a function");
    }
    match entry {
        EntryPoint::Function => Ok(()),
        EntryPoint::Missing => Err(
            ScriptError::Schema("SchemaError: 'find_path' is not defined".to_owned()),
        ),
        EntryPoint::NotAFunction => Err(
            ScriptError::Schema("SchemaError: Expected 'find_path' to be a function".to_owned()),
        ),
    }
}

/// The coordinate that a script value stands for: a non-negative integer that
/// fits in `usize`.
pub open spec fn coord_of(v: ScriptValue) -> Option<usize> {
    match v {
        ScriptValue::Int(n) => if 0 <= n <= usize::MAX {
            Some(n as usize)
        } else {
            None
        },
        _ => None,
    }
}

/// The cell that a script value stands for: a tuple of two coordinates.
pub open spec fn cell_of(v: ScriptValue) -> Option<(usize, usize)> {
    match v {
        ScriptValue::Tuple(items) => if items@.len() == 2 && coord_of(items@[0]) is Some
            && coord_of(items@[1]) is Some {
            Some((coord_of(items@[0])->0, coord_of(items@[1])->0))
        } else {
            None
        },
        _ => None,
    }
}

/// The items of an iterable script value.
pub open spec fn items_of(v: ScriptValue) -> Option<Seq<ScriptValue>> {
    match v {
        ScriptValue::Tuple(items) => Some(items@),
        ScriptValue::Sequence(items) => Some(items@),
        _ => None,
    }
}

/// The path result that a returned value stands for: `Some(None)` for `None`,
/// `Some(Some(p))` for a non-empty iterable of cells, `None` for anything else.
pub open spec fn path_of(v: ScriptValue) -> Option<Option<Seq<(usize, usize)>>> {
    match v {
        ScriptValue::Nothing => Some(None),
        _ => match items_of(v) {
            Some(items) => if items.len() > 0 && forall|i: int|
                0 <= i < items.len() ==> (#[trigger] cell_of(items[i])) is Some {
                Some(Some(items.map_values(|item: ScriptValue| cell_of(item)->0)))
            } else {
                None
            },
            None => None,
        },
    }
}

fn coord(v: &ScriptValue) -> (r: Option<usize>)
    ensures
        r == coord_of(*v),
{
    match v {
        ScriptValue::Int(n) => {
            if *n >= 0 && (*n as u128) <= (usize::MAX as u128) {
                Some(*n as usize)
            } else {
                None
            }
        },
        _ => None,
    }
}

/// The cell that `v` stands for, if it is a tuple of two coordinates.
pub fn cell(v: &ScriptValue) -> (r: Option<(usize, usize)>)
    ensures
        r == cell_of(*v),
{
    match v {
        ScriptValue::Tuple(items) => {
            if items.len() == 2 {
                match (coord(&items[0]), coord(&items[1])) {
                    (Some(x), Some(y)) => Some((x, y)),
                    _ => None,
                }
            } else {
                None
            }
        },
        _ => None,
    }
}

fn schema_error() -> (r: ScriptError)
    ensures
        r is Schema,
        r.spec_message().len() > 0,
{
    proof {
        reveal_strlit(
            "SchemaError: find_path must return None or a non-empty sequence of (x, y) pairs of non-negative integers",
        );
    }
    ScriptError::Schema(
        "SchemaError: find_path must return None or a non-empty sequence of (x, y) pairs of non-negative integers".to_owned(),
    )
}

/// Reads a script's return value as a path result, or fails with a schema error
/// where it has any other shape.
pub fn extract_path(v: &ScriptValue) -> (r: Result<Option<Vec<(usize, usize)>>, ScriptError>)
    ensures
        match path_of(*v) {
            None => r is Err && r->Err_0 is Schema && r->Err_0.spec_message().len() > 0,
            Some(None) => r is Ok && r->Ok_0 is None,
            Some(Some(p)) => r is Ok && r->Ok_0 is Some && r->Ok_0->Some_0@ == p,
        },
{
    let items = match v {
        ScriptValue::Nothing => {
            return Ok(None);
        },
        ScriptValue::Tuple(items) => items,
        ScriptValue::Sequence(items) => items,
        _ => {
            return Err(schema_error());
        },
    };
    assert(items_of(*v) == Some(items@));
    if items.len() == 0 {
        assert(path_of(*v) is None);
        return Err(schema_error());
    }
    let mut path: Vec<(usize, usize)> = Vec::new();
    let mut i: usize = 0;
    while i < items.len()
        invariant
            items_of(*v) == Some(items@),
            !(*v is Nothing),
            i <= items@.len(),
            path@.len() == i,
            forall|k: int| 0 <= k < i ==> (#[trigger] cell_of(items@[k])) is Some,
            forall|k: int| 0 <= k < i ==> path@[k] == (#[trigger] cell_of(items@[k]))->0,
        decreases items@.len() - i,
    {
        match cell(&items[i]) {
            Some(c) => {
                path.push(c);
            },
            None => {
                assert(cell_of(items@[i as int]) is None);
                assert(!(forall|k: int|
                    0 <= k < items@.len() ==> (#[trigger] cell_of(items@[k])) is Some));
                assert(path_of(*v) is None);
                return Err(schema_error());
            },
        }
        i = i + 1;
    }
    assert(path@ =~= items@.map_values(|item: ScriptValue| cell_of(item)->0));
    Ok(Some(path))
}

/// The script's drawing primitive: records an explored edge from `from` to `to`
/// when both stand for cells, and reports whether it did.
pub fn record_draw_line(log: &mut Vec<DrawCommand>, from: &ScriptValue, to: &ScriptValue) -> (r:
    bool)
    ensures
        r == (cell_of(*from) is Some && cell_of(*to) is Some),
        r ==> final(log)@.len() == old(log)@.len() + 1 && final(log)@.drop_last() == old(log)@
            && match final(log)@.last() {
            DrawCommand::AddShape(Shape::Line { from: a, to: b, width, color }) => {
                &&& a == cell_of(*from)->0
                &&& b == cell_of(*to)->0
                &&& width == LINE_WIDTH
                &&& color == Color::DarkGreen
            },
            _ => false,
        },
        !r ==> final(log)@ == old(log)@,
{
    match (cell(from), cell(to)) {
        (Some(a), Some(b)) => {
            log.push(
                DrawCommand::AddShape(
                    Shape::Line { from: a, to: b, width: LINE_WIDTH, color: Color::DarkGreen },
                ),
            );
            assert(log@.drop_last() =~= old(log)@);
            true
        },
        _ => false,
    }
}

/// The grid as the script sees it: a list of columns, indexed `[x][y]`.
pub fn grid_columns(grid: &Grid) -> (r: Vec<Vec<bool>>)
    requires
        grid.wf(),
    ensures
        r@.len() == grid.spec_width(),
        forall|x: int| 0 <= x < r@.len() ==> (#[trigger] r@[x])@.len() == grid.spec_height(),
        forall|x: int, y: int| grid.valid(x, y) ==> #[trigger] r@[x]@[y] == grid.cell(x, y),
{
    proof {
        grid.lemma_dims();
    }
    let mut r: Vec<Vec<bool>> = Vec::new();
    let mut x: usize = 0;
    while x < grid.width()
        invariant
            grid.wf(),
            x <= grid.spec_width(),
            r@.len() == x,
            forall|a: int| 0 <= a < x ==> (#[trigger] r@[a])@.len() == grid.spec_height(),
            forall|a: int, b: int|
                0 <= a < x && 0 <= b < grid.spec_height() ==> #[trigger] r@[a]@[b] == grid.cell(
                    a,
                    b,
                ),
        decreases grid.spec_width() - x,
    {
        proof {
            grid.lemma_dims();
        }
        let mut column: Vec<bool> = Vec::new();
        let mut y: usize = 0;
        while y < grid.height()
            invariant
                grid.wf(),
                x < grid.spec_width(),
                y <= grid.spec_height(),
                column@.len() == y,
                forall|b: int| 0 <= b < y ==> #[trigger] column@[b] == grid.cell(x as int, b),
            decreases grid.spec_height() - y,
        {
            column.push(grid.get(x, y));
            y = y + 1;
        }
        r.push(column);
        x = x + 1;
    }
    r
}

/// Completes a script run: a failure passes through; a returned value is read
/// as a path result, its log handed back with it.
pub fn script_outcome(returned: Result<ScriptValue, ScriptError>, log: Vec<DrawCommand>) -> (r:
    Result<(Option<Vec<(usize, usize)>>, Vec<DrawCommand>), ScriptError>)
    ensures
        match returned {
            Err(e) => r == Err::<(Option<Vec<(usize, usize)>>, Vec<DrawCommand>), ScriptError>(e),
            Ok(v) => match path_of(v) {
                None => r is Err && r->Err_0 is Schema,
                Some(None) => r is Ok && r->Ok_0.0 is None && r->Ok_0.1@ == log@,
                Some(Some(p)) => r is Ok && r->Ok_0.0 is Some && r->Ok_0.0->Some_0@ == p
                    && r->Ok_0.1@ == log@,
            },
        },
{
    match returned {
        Err(e) => Err(e),
        Ok(v) => match extract_path(&v) {
            Ok(path) => Ok((path, log)),
            Err(e) => Err(e),
        },
    }
}

} // verus!
