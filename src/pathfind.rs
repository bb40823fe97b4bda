use vstd::prelude::*;

use crate::commands::{is_edge, is_path_shape, is_segmented, Color, DrawCommand, Shape, LINE_WIDTH};
use crate::grid::Grid;
use crate::script::ScriptError;
use crate::search::{builtin_search, connects, explored_edge, exploration_log, no_repeats, reachable};

verus! {

/// A path result as a sequence.
pub open spec fn path_view(p: Option<Vec<(usize, usize)>>) -> Option<Seq<(usize, usize)>> {
    match p {
        Some(v) => Some(v@),
        None => None,
    }
}

/// `r` is `log` followed, where a path was found, by a `Clear` and the path.
pub open spec fn rendered(log: Seq<DrawCommand>, path: Option<Seq<(usize, usize)>>, r: Seq<DrawCommand>) -> bool {
    match path {
        None => r == log,
        Some(p) => {
            &&& r.len() == log.len() + 2
            &&& r.subrange(0, log.len() as int) == log
            &&& r[log.len() as int] is Clear
            &&& is_path_shape(r[log.len() + 1int], p)
        },
    }
}

/// A log of explored edges, once rendered, ends in exactly one `Clear` followed by
/// exactly one path where a path was found, and holds neither where none was.
pub open spec fn well_terminated(r: Seq<DrawCommand>, found: bool) -> bool {
    if found {
        &&& r.len() >= 2
        &&& forall|i: int| 0 <= i < r.len() ==> ((#[trigger] r[i] is Clear) <==> i == r.len() - 2)
        &&& forall|i: int| 0 <= i < r.len() ==> (is_segmented(#[trigger] r[i]) <==> i == r.len() - 1)
    } else {
        forall|i: int| 0 <= i < r.len() ==> !(#[trigger] r[i] is Clear) && !is_segmented(r[i])
    }
}

/// A rendered log of explored edges is well terminated.
pub proof fn lemma_rendered_well_terminated(
    log: Seq<DrawCommand>,
    path: Option<Seq<(usize, usize)>>,
    r: Seq<DrawCommand>,
)
    requires
        forall|k: int| 0 <= k < log.len() ==> is_edge(#[trigger] log[k]),
        rendered(log, path, r),
    ensures
        well_terminated(r, path is Some),
{
    if path is Some {
        assert forall|i: int| 0 <= i < r.len() implies ((#[trigger] r[i] is Clear) <==> i == r.len()
            - 2) by {
            if i < log.len() {
                assert(r[i] == r.subrange(0, log.len() as int)[i]);
                assert(is_edge(log[i]));
            }
        }
        assert forall|i: int| 0 <= i < r.len() implies (is_segmented(#[trigger] r[i]) <==> i == r.len()
            - 1) by {
            if i < log.len() {
                assert(r[i] == r.subrange(0, log.len() as int)[i]);
                assert(is_edge(log[i]));
            }
        }
    } else {
        assert forall|i: int| 0 <= i < r.len() implies !(#[trigger] r[i] is Clear) && !is_segmented(
            r[i],
        ) by {
            assert(is_edge(log[i]));
        }
    }
}

/// Appends to `log`, where a path was found, a `Clear` and the path itself, so
/// that the animation hides the exploration and then shows the path at once.
pub fn render_path(log: Vec<DrawCommand>, maybe_path: Option<Vec<(usize, usize)>>) -> (r: Vec<
    DrawCommand,
>)
    ensures
        rendered(log@, path_view(maybe_path), r@),
        (forall|k: int| 0 <= k < log@.len() ==> is_edge(#[trigger] log@[k])) ==> well_terminated(
            r@,
            maybe_path is Some,
        ),
{
    let mut commands = log;
    match maybe_path {
        Some(points) => {
            commands.push(DrawCommand::Clear);
            commands.push(
                DrawCommand::AddShape(
                    Shape::SegmentedLine { points, width: LINE_WIDTH, color: Color::Lime },
                ),
            );
            assert(commands@.subrange(0, log@.len() as int) =~= log@);
        },
        None => {},
    }
    proof {
        if forall|k: int| 0 <= k < log@.len() ==> is_edge(#[trigger] log@[k]) {
            lemma_rendered_well_terminated(log@, path_view(maybe_path), commands@);
        }
    }
    commands
}

/// The log to animate for the outcome of a search: a failure passes through;
/// otherwise the log, followed by a `Clear` and the path where one was found.
pub fn find_and_render_path(found: Result<(Option<Vec<(usize, usize)>>, Vec<DrawCommand>), ScriptError>) -> (r:
    Result<Vec<DrawCommand>, ScriptError>)
    ensures
        match found {
            Err(e) => r == Err::<Vec<DrawCommand>, ScriptError>(e),
            Ok((path, log)) => {
                &&& r is Ok
                &&& rendered(log@, path_view(path), r->Ok_0@)
                &&& (forall|k: int| 0 <= k < log@.len() ==> is_edge(#[trigger] log@[k]))
                    ==> well_terminated(r->Ok_0@, path is Some)
            },
        },
{
    match found {
        Err(e) => Err(e),
        Ok((path, log)) => Ok(render_path(log, path)),
    }
}

/// Runs the builtin search and renders its outcome. Where a path is found
/// (`finish` can be reached, or is `start`), the log is the exploration followed
/// by exactly one `Clear` and exactly one path, a repeat-free walk from `start`
/// to `finish`; otherwise it is the exploration alone, with neither.
pub fn find_and_render_builtin(grid: &Grid, start: (usize, usize), finish: (usize, usize)) -> (r: Vec<
    DrawCommand,
>)
    requires
        grid.wf(),
        grid.valid(start.0 as int, start.1 as int),
        grid.valid(finish.0 as int, finish.1 as int),
    ensures
        well_terminated(r@, start == finish || reachable(*grid, start, finish)),
        (start == finish || reachable(*grid, start, finish)) ==> {
            &&& exploration_log(*grid, start, r@.subrange(0, r@.len() - 2))
            &&& exists|p: Seq<(usize, usize)>|
                #[trigger] is_path_shape(r@[r@.len() - 1], p) && p.len() >= 1 && p[0] == start
                    && p.last() == finish && no_repeats(p) && (start != finish ==> connects(
                    *grid,
                    p,
                    start,
                    finish,
                ))
        },
        !(start == finish || reachable(*grid, start, finish)) ==> exploration_log(*grid, start, r@),
{
    let (path, log) = builtin_search(grid, start, finish);
    proof {
        assert forall|k: int| 0 <= k < log@.len() implies is_edge(#[trigger] log@[k]) by {
            assert(explored_edge(*grid, start, log@, k));
        }
    }
    let ghost p = path_view(path);
    let r = render_path(log, path);
    proof {
        if p is Some {
            assert(r@.subrange(0, r@.len() - 2) == log@);
            let q = p->0;
            assert(is_path_shape(r@[r@.len() - 1], q));
            if start == finish {
                assert(q =~= seq![start]);
            }
        }
    }
    r
}

} // verus!
