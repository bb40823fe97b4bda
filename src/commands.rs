use vstd::prelude::*;

verus! {

/// The colours that the drawing commands use.
#[derive(Clone, Copy, Debug, PartialEq, Eq, Structural)]
pub enum Color {
    /// Edges explored by a search.
    DarkGreen,
    /// The path that a search found.
    Lime,
}

/// The stroke width, in pixels, of explored edges and of found paths.
pub const LINE_WIDTH: u32 = 5;

/// A shape on the board, in cell coordinates.
#[derive(Debug)]
pub enum Shape {
    Square { x: usize, y: usize, color: Color },
    Line { from: (usize, usize), to: (usize, usize), width: u32, color: Color },
    SegmentedLine { points: Vec<(usize, usize)>, width: u32, color: Color },
}

/// One entry of a command log. `Clear` is a segment boundary: once an animation
/// passes it, nothing before it is drawn again.
#[derive(Debug)]
pub enum DrawCommand {
    AddShape(Shape),
    Clear,
}

impl DrawCommand {
    pub fn is_clear(&self) -> (r: bool)
        ensures
            r == (*self is Clear),
    {
        match self {
            DrawCommand::Clear => true,
            DrawCommand::AddShape(_) => false,
        }
    }
}

/// The command draws an explored edge.
pub open spec fn is_edge(c: DrawCommand) -> bool {
    match c {
        DrawCommand::AddShape(Shape::Line { .. }) => true,
        _ => false,
    }
}

/// The command draws a path.
pub open spec fn is_segmented(c: DrawCommand) -> bool {
    match c {
        DrawCommand::AddShape(Shape::SegmentedLine { .. }) => true,
        _ => false,
    }
}

/// The command draws `p` as a found path.
pub open spec fn is_path_shape(c: DrawCommand, p: Seq<(usize, usize)>) -> bool {
    match c {
        DrawCommand::AddShape(Shape::SegmentedLine { points, width, color }) => {
            &&& points@ == p
            &&& width == LINE_WIDTH
            &&& color == Color::Lime
        },
        _ => false,
    }
}

/// The straight pieces of a path: each point with the next one.
pub fn segments(points: &Vec<(usize, usize)>) -> (r: Vec<((usize, usize), (usize, usize))>)
    ensures
        r@.len() == if points@.len() == 0 {
            0
        } else {
            points@.len() - 1
        },
        forall|i: int| 0 <= i < r@.len() ==> #[trigger] r@[i] == (points@[i], points@[i + 1]),
{
    let mut r: Vec<((usize, usize), (usize, usize))> = Vec::new();
    let mut i: usize = 1;
    while i < points.len()
        invariant
            1 <= i,
            i <= points@.len() || (points@.len() == 0 && i == 1),
            r@.len() == i - 1,
            forall|k: int| 0 <= k < r@.len() ==> #[trigger] r@[k] == (points@[k], points@[k + 1]),
        decreases points@.len() - i,
    {
        r.push((points[i - 1], points[i]));
        i = i + 1;
    }
    r
}

/// The number of commands shown after `steps` whole steps of animation.
pub open spec fn visible_end(log: Seq<DrawCommand>, steps: int) -> int {
    if steps < 0 {
        0
    } else if steps < log.len() {
        steps
    } else {
        log.len() as int
    }
}

/// One past the last `Clear` in `log[0..end)`, or 0 where there is none.
pub open spec fn segment_start(log: Seq<DrawCommand>, end: int) -> int
    decreases end,
{
    if end <= 0 {
        0
    } else if log[end - 1] is Clear {
        end
    } else {
        segment_start(log, end - 1)
    }
}

/// The commands `log[start..end)` are drawn after `steps` steps.
pub open spec fn visible_window(log: Seq<DrawCommand>, steps: int) -> (int, int) {
    let end = visible_end(log, steps);
    (segment_start(log, end), end)
}

pub proof fn lemma_segment_start_bounds(log: Seq<DrawCommand>, end: int)
    requires
        0 <= end <= log.len(),
    ensures
        0 <= segment_start(log, end) <= end,
        forall|i: int| segment_start(log, end) <= i < end ==> !(#[trigger] log[i] is Clear),
    decreases end,
{
    if end > 0 && !(log[end - 1] is Clear) {
        lemma_segment_start_bounds(log, end - 1);
    }
}

/// Once `end` has passed a `Clear` at index `k`, the drawn segment starts after it.
pub proof fn lemma_segment_start_after_clear(log: Seq<DrawCommand>, end: int, k: int)
    requires
        0 <= k < end <= log.len(),
        log[k] is Clear,
    ensures
        segment_start(log, end) >= k + 1,
    decreases end,
{
    if end - 1 != k && !(log[end - 1] is Clear) {
        lemma_segment_start_after_clear(log, end - 1, k);
    }
}

/// Once the animation has passed a `Clear` at index `k`, no command before it is
/// drawn again, however far the animation goes on.
pub proof fn lemma_clear_hides_earlier(log: Seq<DrawCommand>, k: int, steps: int)
    requires
        0 <= k < log.len(),
        log[k] is Clear,
        steps >= k + 1,
    ensures
        visible_window(log, steps).0 >= k + 1,
{
    lemma_segment_start_after_clear(log, visible_end(log, steps), k);
}

/// Rendering depends on the log and the progress alone: two renderings of the
/// same pair draw the same commands.
pub proof fn lemma_render_deterministic(
    log1: Seq<DrawCommand>,
    log2: Seq<DrawCommand>,
    steps1: int,
    steps2: int,
)
    requires
        log1 == log2,
        steps1 == steps2,
    ensures
        visible_window(log1, steps1) == visible_window(log2, steps2),
{
}

/// The window of `commands` drawn after `steps` whole steps: from one past the
/// last `Clear` before the end, up to `min(steps, len)`. Every command in it
/// adds a shape.
pub fn visible_range(commands: &Vec<DrawCommand>, steps: usize) -> (r: (usize, usize))
    ensures
        r.0 as int == visible_window(commands@, steps as int).0,
        r.1 as int == visible_window(commands@, steps as int).1,
        r.0 <= r.1 <= commands@.len(),
        forall|i: int| r.0 <= i < r.1 ==> #[trigger] commands@[i] is AddShape,
{
    let end: usize = if steps < commands.len() {
        steps
    } else {
        commands.len()
    };
    let mut i: usize = end;
    while i > 0 && !commands[i - 1].is_clear()
        invariant
            0 <= i <= end <= commands@.len(),
            end == visible_end(commands@, steps as int),
            segment_start(commands@, end as int) == segment_start(commands@, i as int),
        decreases i,
    {
        i = i - 1;
    }
    proof {
        lemma_segment_start_bounds(commands@, end as int);
    }
    (i, end)
}

} // verus!
