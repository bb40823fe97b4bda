use vstd::prelude::*;

use crate::commands::{visible_range, visible_window, DrawCommand};
use crate::grid::Grid;

verus! {

#[derive(Clone, Copy, Debug, PartialEq, Eq, Hash, Structural)]
pub enum MouseButton {
    Left,
    Right,
    Middle,
}

/// A pointer event, its position already turned into cell coordinates.
#[derive(Clone, Copy, Debug, PartialEq, Eq, Structural)]
pub enum Event {
    MouseDown { button: MouseButton, x: i64, y: i64 },
    MouseUp { button: MouseButton, x: i64, y: i64 },
    MouseMoved { x: i64, y: i64 },
}

/// The edit that pointer events currently perform.
#[derive(Clone, Copy, Debug, PartialEq, Eq, Structural)]
pub enum PointerMode {
    Idle,
    PaintWall,
    EraseWall,
    DragStart,
    DragFinish,
}

/// Animation speed, in commands per second.
pub const STEPS_PER_SECOND: u64 = 100;

/// Animation progress is counted in millionths of a command, so that a tick of
/// `e` microseconds advances it by `STEPS_PER_SECOND * e`.
pub const UNITS_PER_STEP: u64 = 1000000;

/// The board: the grid, the start and finish cells, the pointer state and the
/// command log of the last run with its animation progress (`None` until the
/// first tick after the log was set).
pub struct PathtfindScene {
    grid: Grid,
    start: (usize, usize),
    finish: (usize, usize),
    active_cell: Option<(usize, usize)>,
    pointer_mode: PointerMode,
    draw_commands: Vec<DrawCommand>,
    animation_progress: Option<u64>,
}

/// `(x, y)` names the cell `c`.
pub open spec fn is_cell(x: int, y: int, c: (usize, usize)) -> bool {
    x == c.0 && y == c.1
}

/// The mode that a left press at `(x, y)` selects.
pub open spec fn press_mode(s: PathtfindScene, x: int, y: int) -> PointerMode {
    if is_cell(x, y, s.spec_start()) {
        PointerMode::DragStart
    } else if is_cell(x, y, s.spec_finish()) {
        PointerMode::DragFinish
    } else if !s.spec_grid().valid(x, y) {
        PointerMode::Idle
    } else if s.spec_grid().cell(x, y) {
        PointerMode::EraseWall
    } else {
        PointerMode::PaintWall
    }
}

/// The occupancy of `(x, y)` after `mode` acts there.
pub open spec fn acted_cell(s: PathtfindScene, mode: PointerMode, x: int, y: int) -> bool {
    let special = is_cell(x, y, s.spec_start()) || is_cell(x, y, s.spec_finish());
    match mode {
        PointerMode::PaintWall => if special {
            s.spec_grid().cell(x, y)
        } else {
            true
        },
        PointerMode::EraseWall => false,
        _ => s.spec_grid().cell(x, y),
    }
}

/// The start cell after `mode` acts at `(x, y)`.
pub open spec fn acted_start(s: PathtfindScene, mode: PointerMode, x: int, y: int) -> (
    usize,
    usize,
) {
    if mode is DragStart && !is_cell(x, y, s.spec_finish()) && !s.spec_grid().cell(x, y) {
        (x as usize, y as usize)
    } else {
        s.spec_start()
    }
}

/// The finish cell after `mode` acts at `(x, y)`.
pub open spec fn acted_finish(s: PathtfindScene, mode: PointerMode, x: int, y: int) -> (
    usize,
    usize,
) {
    if mode is DragFinish && !is_cell(x, y, s.spec_start()) && !s.spec_grid().cell(x, y) {
        (x as usize, y as usize)
    } else {
        s.spec_finish()
    }
}

/// `t` is `s` after `mode` acted at the in-bounds cell `(x, y)`: only that cell,
/// the start and the finish may have changed.
pub open spec fn acted(s: PathtfindScene, t: PathtfindScene, mode: PointerMode, x: int, y: int) -> bool {
    &&& t.spec_grid().spec_width() == s.spec_grid().spec_width()
    &&& t.spec_grid().spec_height() == s.spec_grid().spec_height()
    &&& t.spec_grid().cell(x, y) == acted_cell(s, mode, x, y)
    &&& forall|a: int, b: int|
        #![trigger t.spec_grid().cell(a, b)]
        t.spec_grid().valid(a, b) && !(a == x && b == y) ==> t.spec_grid().cell(a, b)
            == s.spec_grid().cell(a, b)
    &&& t.spec_start() == acted_start(s, mode, x, y)
    &&& t.spec_finish() == acted_finish(s, mode, x, y)
}

/// `t` holds the same board as `s`: grid, start and finish.
pub open spec fn same_board(s: PathtfindScene, t: PathtfindScene) -> bool {
    &&& t.spec_grid().spec_width() == s.spec_grid().spec_width()
    &&& t.spec_grid().spec_height() == s.spec_grid().spec_height()
    &&& forall|a: int, b: int|
        #![trigger t.spec_grid().cell(a, b)]
        t.spec_grid().valid(a, b) ==> t.spec_grid().cell(a, b) == s.spec_grid().cell(a, b)
    &&& t.spec_start() == s.spec_start()
    &&& t.spec_finish() == s.spec_finish()
}

/// The progress after a tick of `elapsed` microseconds.
pub open spec fn ticked(progress: Option<u64>, len: nat, elapsed: u64) -> Option<u64> {
    match progress {
        None => Some(0),
        Some(p) => if p < len * UNITS_PER_STEP {
            let q = p + STEPS_PER_SECOND * elapsed;
            Some(
                if q > u64::MAX {
                    u64::MAX
                } else {
                    q as u64
                },
            )
        } else {
            Some(p)
        },
    }
}

/// Whole commands of progress; nothing is shown before the first tick.
pub open spec fn progress_steps(progress: Option<u64>) -> int {
    match progress {
        None => 0,
        Some(p) => (p / UNITS_PER_STEP) as int,
    }
}

fn same_cell(x: i64, y: i64, c: (usize, usize)) -> (r: bool)
    ensures
        r == is_cell(x as int, y as int, c),
{
    x as i128 == c.0 as i128 && y as i128 == c.1 as i128
}

impl PathtfindScene {
    pub closed spec fn spec_grid(&self) -> Grid {
        self.grid
    }

    pub closed spec fn spec_start(&self) -> (usize, usize) {
        self.start
    }

    pub closed spec fn spec_finish(&self) -> (usize, usize) {
        self.finish
    }

    pub closed spec fn spec_active(&self) -> Option<(usize, usize)> {
        self.active_cell
    }

    pub closed spec fn spec_mode(&self) -> PointerMode {
        self.pointer_mode
    }

    pub closed spec fn spec_commands(&self) -> Seq<DrawCommand> {
        self.draw_commands@
    }

    pub closed spec fn spec_progress(&self) -> Option<u64> {
        self.animation_progress
    }

    /// The grid is well formed and holds the start and the finish.
    pub open spec fn wf(&self) -> bool {
        &&& self.spec_grid().wf()
        &&& self.spec_grid().valid(self.spec_start().0 as int, self.spec_start().1 as int)
        &&& self.spec_grid().valid(self.spec_finish().0 as int, self.spec_finish().1 as int)
    }

    /// A board with no log, no hovered cell and no edit under way.
    pub fn new(grid: Grid, start: (usize, usize), finish: (usize, usize)) -> (r: Self)
        requires
            grid.wf(),
            grid.valid(start.0 as int, start.1 as int),
            grid.valid(finish.0 as int, finish.1 as int),
        ensures
            r.wf(),
            r.spec_grid() == grid,
            r.spec_start() == start,
            r.spec_finish() == finish,
            r.spec_active() is None,
            r.spec_mode() is Idle,
            r.spec_commands().len() == 0,
            r.spec_progress() is None,
    {
        PathtfindScene {
            grid,
            start,
            finish,
            active_cell: None,
            pointer_mode: PointerMode::Idle,
            draw_commands: Vec::new(),
            animation_progress: None,
        }
    }

    pub fn grid(&self) -> (r: &Grid)
        ensures
            *r == self.spec_grid(),
    {
        &self.grid
    }

    pub fn start(&self) -> (r: (usize, usize))
        ensures
            r == self.spec_start(),
    {
        self.start
    }

    pub fn finish(&self) -> (r: (usize, usize))
        ensures
            r == self.spec_finish(),
    {
        self.finish
    }

    pub fn active_cell(&self) -> (r: Option<(usize, usize)>)
        ensures
            r == self.spec_active(),
    {
        self.active_cell
    }

    pub fn pointer_mode(&self) -> (r: PointerMode)
        ensures
            r == self.spec_mode(),
    {
        self.pointer_mode
    }

    pub fn draw_commands(&self) -> (r: &Vec<DrawCommand>)
        ensures
            r@ == self.spec_commands(),
    {
        &self.draw_commands
    }

    /// Replaces the log and rewinds the animation to before its start. The board
    /// and the pointer state stay as they were.
    pub fn set_draw_commands(&mut self, commands: Vec<DrawCommand>)
        ensures
            final(self).spec_commands() == commands@,
            final(self).spec_progress() is None,
            final(self).spec_grid() == old(self).spec_grid(),
            final(self).spec_start() == old(self).spec_start(),
            final(self).spec_finish() == old(self).spec_finish(),
            final(self).spec_active() == old(self).spec_active(),
            final(self).spec_mode() == old(self).spec_mode(),
    {
        self.draw_commands = commands;
        self.animation_progress = None;
    }

    /// Advances the animation by a tick of `elapsed` microseconds: the first tick
    /// after a new log starts it at 0; later ticks advance it until it has
    /// passed the end of the log.
    pub fn update(&mut self, elapsed: u64)
        ensures
            final(self).spec_progress() == ticked(
                old(self).spec_progress(),
                old(self).spec_commands().len(),
                elapsed,
            ),
            final(self).spec_commands() == old(self).spec_commands(),
            final(self).spec_grid() == old(self).spec_grid(),
            final(self).spec_start() == old(self).spec_start(),
            final(self).spec_finish() == old(self).spec_finish(),
            final(self).spec_active() == old(self).spec_active(),
            final(self).spec_mode() == old(self).spec_mode(),
    {
        match self.animation_progress {
            None => {
                self.animation_progress = Some(0);
            },
            Some(p) => {
                let len: u128 = self.draw_commands.len() as u128;
                assert(len * (UNITS_PER_STEP as u128) <= u128::MAX) by (nonlinear_arith)
                    requires
                        len <= u64::MAX,
                ;
                assert((STEPS_PER_SECOND as u128) * (elapsed as u128) <= u64::MAX * 100) by (
                nonlinear_arith)
                    requires
                        elapsed <= u64::MAX,
                ;
                if (p as u128) < len * (UNITS_PER_STEP as u128) {
                    let q: u128 = p as u128 + (STEPS_PER_SECOND as u128) * (elapsed as u128);
                    let next: u64 = if q > u64::MAX as u128 {
                        u64::MAX
                    } else {
                        q as u64
                    };
                    self.animation_progress = Some(next);
                }
            },
        }
    }

    /// The window `[start, end)` of the log that is drawn now (see
    /// `visible_range`).
    pub fn visible_commands(&self) -> (r: (usize, usize))
        ensures
            r.0 as int == visible_window(
                self.spec_commands(),
                progress_steps(self.spec_progress()),
            ).0,
            r.1 as int == visible_window(
                self.spec_commands(),
                progress_steps(self.spec_progress()),
            ).1,
            r.0 <= r.1 <= self.spec_commands().len(),
            forall|i: int| r.0 <= i < r.1 ==> #[trigger] self.spec_commands()[i] is AddShape,
    {
        let len: usize = self.draw_commands.len();
        let steps: usize = match self.animation_progress {
            None => 0,
            Some(p) => {
                let q: u64 = p / UNITS_PER_STEP;
                if (q as u128) < (len as u128) {
                    q as usize
                } else {
                    len
                }
            },
        };
        visible_range(&self.draw_commands, steps)
    }

    /// The cell to highlight: the start while it is hovered or dragged, else the
    /// finish while it is hovered or dragged, else the hovered cell.
    pub fn highlighted_cell(&self) -> (r: Option<(usize, usize)>)
        ensures
            r == (if self.spec_active() == Some(self.spec_start()) || self.spec_mode() is DragStart {
                Some(self.spec_start())
            } else if self.spec_active() == Some(self.spec_finish())
                || self.spec_mode() is DragFinish {
                Some(self.spec_finish())
            } else {
                self.spec_active()
            }),
    {
        let on_start = match self.active_cell {
            Some(c) => c.0 == self.start.0 && c.1 == self.start.1,
            None => false,
        };
        let on_finish = match self.active_cell {
            Some(c) => c.0 == self.finish.0 && c.1 == self.finish.1,
            None => false,
        };
        if on_start || self.pointer_mode == PointerMode::DragStart {
            Some(self.start)
        } else if on_finish || self.pointer_mode == PointerMode::DragFinish {
            Some(self.finish)
        } else {
            self.active_cell
        }
    }

    /// The mode that a left press at `(x, y)` selects.
    pub fn mode_for_press(&self, x: i64, y: i64) -> (r: PointerMode)
        requires
            self.wf(),
        ensures
            r == press_mode(*self, x as int, y as int),
    {
        if same_cell(x, y, self.start) {
            PointerMode::DragStart
        } else if same_cell(x, y, self.finish) {
            PointerMode::DragFinish
        } else {
            match self.grid.try_get(x, y) {
                Some(true) => PointerMode::EraseWall,
                Some(false) => PointerMode::PaintWall,
                None => PointerMode::Idle,
            }
        }
    }

    /// Performs the current mode's edit at the in-bounds cell `(x, y)`: paint a
    /// wall unless the cell is the start or the finish; erase it; move the start
    /// (or the finish) there unless it is the other end or a wall; or nothing.
    pub fn apply_pointer_action(&mut self, x: usize, y: usize)
        requires
            old(self).wf(),
            old(self).spec_grid().valid(x as int, y as int),
        ensures
            final(self).wf(),
            acted(*old(self), *final(self), old(self).spec_mode(), x as int, y as int),
            old(self).spec_mode() is EraseWall ==> !final(self).spec_grid().cell(x as int, y as int),
            final(self).spec_mode() == old(self).spec_mode(),
            final(self).spec_active() == old(self).spec_active(),
            final(self).spec_commands() == old(self).spec_commands(),
            final(self).spec_progress() == old(self).spec_progress(),
    {
        let is_special = (x == self.start.0 && y == self.start.1) || (x == self.finish.0 && y
            == self.finish.1);
        let is_wall = self.grid.get(x, y);
        match self.pointer_mode {
            PointerMode::PaintWall => {
                if !is_special {
                    self.grid.set(x, y, true);
                }
            },
            PointerMode::EraseWall => {
                self.grid.set(x, y, false);
            },
            PointerMode::DragStart => {
                if !(x == self.finish.0 && y == self.finish.1) && !is_wall {
                    self.start = (x, y);
                }
            },
            PointerMode::DragFinish => {
                if !(x == self.start.0 && y == self.start.1) && !is_wall {
                    self.finish = (x, y);
                }
            },
            PointerMode::Idle => {},
        }
    }

    /// Feeds one pointer event to the editor. A left press picks the mode from
    /// the cell under it and acts there; a left release ends the edit; a move
    /// onto a cell of the grid hovers it and acts there. Neither the log nor the
    /// animation is touched. A start or a finish that is not a wall stays so.
    pub fn handle_event(&mut self, event: Event)
        requires
            old(self).wf(),
        ensures
            final(self).wf(),
            final(self).spec_commands() == old(self).spec_commands(),
            final(self).spec_progress() == old(self).spec_progress(),
            match event {
                Event::MouseDown { button: MouseButton::Left, x, y } => {
                    &&& final(self).spec_mode() == press_mode(*old(self), x as int, y as int)
                    &&& final(self).spec_active() == old(self).spec_active()
                    &&& if old(self).spec_grid().valid(x as int, y as int) {
                        acted(*old(self), *final(self), final(self).spec_mode(), x as int, y as int)
                    } else {
                        same_board(*old(self), *final(self))
                    }
                },
                Event::MouseUp { button: MouseButton::Left, .. } => {
                    &&& final(self).spec_mode() is Idle
                    &&& final(self).spec_active() == old(self).spec_active()
                    &&& same_board(*old(self), *final(self))
                },
                Event::MouseMoved { x, y } => {
                    &&& final(self).spec_mode() == old(self).spec_mode()
                    &&& if old(self).spec_grid().valid(x as int, y as int) {
                        &&& final(self).spec_active() == Some((x as usize, y as usize))
                        &&& acted(*old(self), *final(self), old(self).spec_mode(), x as int, y as int)
                    } else {
                        &&& final(self).spec_active() == old(self).spec_active()
                        &&& same_board(*old(self), *final(self))
                    }
                },
                _ => {
                    &&& final(self).spec_mode() == old(self).spec_mode()
                    &&& final(self).spec_active() == old(self).spec_active()
                    &&& same_board(*old(self), *final(self))
                },
            },
            !old(self).spec_grid().cell(old(self).spec_start().0 as int, old(self).spec_start().1 as int)
                ==> !final(self).spec_grid().cell(final(self).spec_start().0 as int, final(self).spec_start().1 as int),
            !old(self).spec_grid().cell(old(self).spec_finish().0 as int, old(self).spec_finish().1 as int)
                ==> !final(self).spec_grid().cell(final(self).spec_finish().0 as int, final(self).spec_finish().1 as int),
    {
        match event {
            Event::MouseDown { button: MouseButton::Left, x, y } => {
                self.pointer_mode = self.mode_for_press(x, y);
                if self.grid.are_coordinates_valid(x, y) {
                    let ux: usize = x as usize;
                    let uy: usize = y as usize;
                    proof {
                        self.grid.lemma_dims();
                    }
                    self.apply_pointer_action(ux, uy);
                }
            },
            Event::MouseUp { button: MouseButton::Left, .. } => {
                self.pointer_mode = PointerMode::Idle;
            },
            Event::MouseMoved { x, y } => {
                if self.grid.are_coordinates_valid(x, y) {
                    let ux: usize = x as usize;
                    let uy: usize = y as usize;
                    proof {
                        self.grid.lemma_dims();
                    }
                    self.active_cell = Some((ux, uy));
                    self.apply_pointer_action(ux, uy);
                }
            },
            _ => {},
        }
    }
}

} // verus!
