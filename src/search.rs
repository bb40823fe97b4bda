use vstd::prelude::*;

use crate::commands::{is_edge, Color, DrawCommand, Shape, LINE_WIDTH};
use crate::grid::{adjacent, Grid};

verus! {

/// `c` is a cell of the grid and not a wall.
pub open spec fn free(g: Grid, c: (usize, usize)) -> bool {
    g.valid(c.0 as int, c.1 as int) && !g.cell(c.0 as int, c.1 as int)
}

/// One move of a walk: to an adjacent cell of the grid that is not a wall.
pub open spec fn step(g: Grid, a: (usize, usize), b: (usize, usize)) -> bool {
    &&& adjacent((a.0 as int, a.1 as int), (b.0 as int, b.1 as int))
    &&& free(g, b)
}

/// `p` starts on a free cell and goes on by single steps onto free cells.
pub open spec fn is_walk(g: Grid, p: Seq<(usize, usize)>) -> bool {
    &&& p.len() >= 1
    &&& free(g, p[0])
    &&& forall|i: int| #![trigger p[i]] 0 <= i < p.len() - 1 ==> step(g, p[i], p[i + 1])
}

/// `p` is a walk from `s` to `f`.
pub open spec fn connects(g: Grid, p: Seq<(usize, usize)>, s: (usize, usize), f: (usize, usize)) -> bool {
    &&& is_walk(g, p)
    &&& p[0] == s
    &&& p.last() == f
}

/// Some wall-free walk leads from `s` to `f`.
pub open spec fn reachable(g: Grid, s: (usize, usize), f: (usize, usize)) -> bool {
    exists|p: Seq<(usize, usize)>| connects(g, p, s, f)
}

/// No cell occurs twice in `p`.
pub open spec fn no_repeats(p: Seq<(usize, usize)>) -> bool {
    forall|i: int, j: int| 0 <= i < j < p.len() ==> p[i] != p[j]
}

/// Where an edge command starts.
pub open spec fn edge_from(c: DrawCommand) -> (usize, usize) {
    match c {
        DrawCommand::AddShape(Shape::Line { from, .. }) => from,
        _ => (0, 0),
    }
}

/// Where an edge command ends.
pub open spec fn edge_to(c: DrawCommand) -> (usize, usize) {
    match c {
        DrawCommand::AddShape(Shape::Line { to, .. }) => to,
        _ => (0, 0),
    }
}

/// `c` is `start`, or the end of one of the edges in `log`.
pub open spec fn discovered(log: Seq<DrawCommand>, c: (usize, usize), start: (usize, usize)) -> bool {
    c == start || exists|m: int| 0 <= m < log.len() && edge_to(#[trigger] log[m]) == c
}

/// Entry `k` of `log` is an edge from `start` or from a cell discovered earlier,
/// to a free neighbour other than `start`.
pub open spec fn explored_edge(g: Grid, start: (usize, usize), log: Seq<DrawCommand>, k: int) -> bool {
    let c = log[k];
    &&& is_edge(c)
    &&& adjacent((edge_from(c).0 as int, edge_from(c).1 as int), (edge_to(c).0 as int, edge_to(c).1 as int))
    &&& free(g, edge_to(c))
    &&& edge_to(c) != start
    &&& discovered(log.subrange(0, k), edge_from(c), start)
}

/// A log of exploration: one edge per newly discovered cell, each discovered
/// cell reached once.
pub open spec fn exploration_log(g: Grid, start: (usize, usize), log: Seq<DrawCommand>) -> bool {
    &&& forall|k: int| 0 <= k < log.len() ==> #[trigger] explored_edge(g, start, log, k)
    &&& forall|k1: int, k2: int|
        0 <= k1 < k2 < log.len() ==> edge_to(#[trigger] log[k1]) != edge_to(#[trigger] log[k2])
}

/// Every cell of `p` is marked in `seen`.
pub open spec fn all_seen(seen: Grid, p: Seq<(usize, usize)>) -> bool {
    forall|k: int| 0 <= k < p.len() ==> seen.cell((#[trigger] p[k]).0 as int, p[k].1 as int)
}

/// The end of every edge of `log` is marked in `seen`.
pub open spec fn targets_seen(seen: Grid, log: Seq<DrawCommand>) -> bool {
    forall|k: int| 0 <= k < log.len() ==> seen.cell(edge_to(#[trigger] log[k]).0 as int, edge_to(log[k]).1 as int)
}

/// `new` marks every cell that `old` marks.
pub open spec fn grows(old: Grid, new: Grid) -> bool {
    &&& new.spec_width() == old.spec_width()
    &&& new.spec_height() == old.spec_height()
    &&& forall|a: int, b: int| #![trigger new.cell(a, b)] new.valid(a, b) && old.cell(a, b) ==> new.cell(a, b)
}

/// A frontier entry: a cell and a repeat-free walk to it over marked cells.
pub open spec fn entry_ok(
    g: Grid,
    start: (usize, usize),
    seen: Grid,
    log: Seq<DrawCommand>,
    e: ((usize, usize), Vec<(usize, usize)>),
) -> bool {
    &&& connects(g, e.1@, start, e.0)
    &&& no_repeats(e.1@)
    &&& all_seen(seen, e.1@)
    &&& discovered(log, e.0, start)
}

/// `c` is the cell of some entry of `stack`.
pub open spec fn on_stack(stack: Seq<((usize, usize), Vec<(usize, usize)>)>, c: (usize, usize)) -> bool {
    exists|j: int| 0 <= j < stack.len() && (#[trigger] stack[j]).0 == c
}

/// Every free neighbour of `(a, b)` is marked in `seen`.
pub open spec fn closed(g: Grid, seen: Grid, a: int, b: int) -> bool {
    forall|nx: int, ny: int|
        #![trigger seen.cell(nx, ny)]
        g.valid(nx, ny) && adjacent((a, b), (nx, ny)) && !g.cell(nx, ny) ==> seen.cell(nx, ny)
}

proof fn lemma_walk_free(g: Grid, p: Seq<(usize, usize)>, k: int)
    requires
        is_walk(g, p),
        0 <= k < p.len(),
    ensures
        free(g, p[k]),
{
    if k > 0 {
        assert(step(g, p[k - 1], p[k]));
    }
}

proof fn lemma_discovered_push(log: Seq<DrawCommand>, x: DrawCommand, c: (usize, usize), start: (usize, usize))
    requires
        discovered(log, c, start),
    ensures
        discovered(log.push(x), c, start),
{
    if c != start {
        let m = choose|m: int| 0 <= m < log.len() && edge_to(#[trigger] log[m]) == c;
        assert(log.push(x)[m] == log[m]);
    }
}

/// A frontier entry stays valid while marks are added and the log grows.
proof fn lemma_entry_kept(
    g: Grid,
    start: (usize, usize),
    old_seen: Grid,
    new_seen: Grid,
    log: Seq<DrawCommand>,
    x: DrawCommand,
    e: ((usize, usize), Vec<(usize, usize)>),
)
    requires
        entry_ok(g, start, old_seen, log, e),
        grows(old_seen, new_seen),
        new_seen.spec_width() == g.spec_width(),
        new_seen.spec_height() == g.spec_height(),
    ensures
        entry_ok(g, start, new_seen, log.push(x), e),
{
    lemma_discovered_push(log, x, e.0, start);
    assert forall|k: int| 0 <= k < e.1@.len() implies new_seen.cell(
        (#[trigger] e.1@[k]).0 as int,
        e.1@[k].1 as int,
    ) by {
        lemma_walk_free(g, e.1@, k);
    }
}

/// The targets of an exploration log stay marked while marks are added.
proof fn lemma_targets_kept(g: Grid, start: (usize, usize), old_seen: Grid, new_seen: Grid, log: Seq<DrawCommand>)
    requires
        exploration_log(g, start, log),
        targets_seen(old_seen, log),
        grows(old_seen, new_seen),
        new_seen.spec_width() == g.spec_width(),
        new_seen.spec_height() == g.spec_height(),
    ensures
        targets_seen(new_seen, log),
{
    assert forall|k: int| 0 <= k < log.len() implies new_seen.cell(
        edge_to(#[trigger] log[k]).0 as int,
        edge_to(log[k]).1 as int,
    ) by {
        assert(explored_edge(g, start, log, k));
    }
}

/// An edge to a cell that was not yet marked extends an exploration log.
proof fn lemma_log_push(g: Grid, start: (usize, usize), seen: Grid, log: Seq<DrawCommand>, x: DrawCommand)
    requires
        exploration_log(g, start, log),
        targets_seen(seen, log),
        is_edge(x),
        adjacent((edge_from(x).0 as int, edge_from(x).1 as int), (edge_to(x).0 as int, edge_to(x).1 as int)),
        free(g, edge_to(x)),
        edge_to(x) != start,
        discovered(log, edge_from(x), start),
        !seen.cell(edge_to(x).0 as int, edge_to(x).1 as int),
    ensures
        exploration_log(g, start, log.push(x)),
{
    let l2 = log.push(x);
    assert forall|k: int| 0 <= k < l2.len() implies #[trigger] explored_edge(g, start, l2, k) by {
        if k < log.len() {
            assert(explored_edge(g, start, log, k));
            assert(l2[k] == log[k]);
            assert(l2.subrange(0, k) =~= log.subrange(0, k));
        } else {
            assert(l2.subrange(0, k) =~= log);
        }
    }
    assert forall|k1: int, k2: int| 0 <= k1 < k2 < l2.len() implies edge_to(#[trigger] l2[k1]) != edge_to(
        #[trigger] l2[k2],
    ) by {
        assert(l2[k1] == log[k1]);
        if k2 < log.len() {
            assert(l2[k2] == log[k2]);
        } else {
            assert(seen.cell(edge_to(log[k1]).0 as int, edge_to(log[k1]).1 as int));
        }
    }
}

/// Appending a cell that is not yet marked keeps a walk of marked cells free of repeats.
proof fn lemma_no_repeats_push(seen: Grid, p: Seq<(usize, usize)>, n: (usize, usize))
    requires
        no_repeats(p),
        all_seen(seen, p),
        !seen.cell(n.0 as int, n.1 as int),
    ensures
        no_repeats(p.push(n)),
{
    let q = p.push(n);
    assert forall|i: int, j: int| 0 <= i < j < q.len() implies q[i] != q[j] by {
        assert(q[i] == p[i]);
        if j < p.len() {
            assert(q[j] == p[j]);
        } else {
            assert(seen.cell(p[i].0 as int, p[i].1 as int));
        }
    }
}

proof fn lemma_adjacent_listed(g: Grid, x: int, y: int, nx: int, ny: int)
    requires
        g.valid(nx, ny),
        adjacent((x, y), (nx, ny)),
    ensures
        g.neighbor_seq(x, y).contains((nx as usize, ny as usize, g.cell(nx, ny))),
{
    let e = (nx as usize, ny as usize, g.cell(nx, ny));
    let a = g.probe(x + 1, y);
    let b = g.probe(x, y + 1);
    let c = g.probe(x - 1, y);
    let d = g.probe(x, y - 1);
    let s = g.neighbor_seq(x, y);
    assert(s == a + b + c + d);
    if nx == x + 1 && ny == y {
        assert(s[0] == e);
    } else if nx == x && ny == y + 1 {
        assert(s[a.len() as int] == e);
    } else if nx == x - 1 && ny == y {
        assert(s[(a.len() + b.len()) as int] == e);
    } else {
        assert(s[(a.len() + b.len() + c.len()) as int] == e);
    }
}

proof fn lemma_walk_extend(g: Grid, p: Seq<(usize, usize)>, n: (usize, usize))
    requires
        is_walk(g, p),
        step(g, p.last(), n),
    ensures
        is_walk(g, p.push(n)),
        p.push(n).last() == n,
        p.push(n)[0] == p[0],
{
    let q = p.push(n);
    assert forall|i: int| #![trigger q[i]] 0 <= i < q.len() - 1 implies step(g, q[i], q[i + 1]) by {
        if i < p.len() - 1 {
            assert(q[i] == p[i] && q[i + 1] == p[i + 1]);
        }
    }
}

/// When every marked cell is closed, a walk from a marked cell stays on marked cells.
proof fn lemma_closed_covers(g: Grid, seen: Grid, p: Seq<(usize, usize)>, i: int)
    requires
        is_walk(g, p),
        0 <= i < p.len(),
        seen.cell(p[0].0 as int, p[0].1 as int),
        forall|a: int, b: int|
            #![trigger seen.cell(a, b)]
            g.valid(a, b) && seen.cell(a, b) ==> closed(g, seen, a, b),
    ensures
        seen.cell(p[i].0 as int, p[i].1 as int),
    decreases i,
{
    if i > 0 {
        lemma_closed_covers(g, seen, p, i - 1);
        assert(step(g, p[i - 1], p[i]));
        let k = i - 1;
        assert(0 <= k < p.len() - 1);
        assert(g.valid(p[0].0 as int, p[0].1 as int));
        if k > 0 {
            assert(step(g, p[k - 1], p[k]));
        }
        assert(g.valid(p[k].0 as int, p[k].1 as int));
        assert(closed(g, seen, p[k].0 as int, p[k].1 as int));
    }
}

/// `path` followed by `n`.
fn extend_path(path: &Vec<(usize, usize)>, n: (usize, usize)) -> (r: Vec<(usize, usize)>)
    ensures
        r@ == path@.push(n),
{
    let mut r: Vec<(usize, usize)> = Vec::new();
    let mut i: usize = 0;
    while i < path.len()
        invariant
            i <= path@.len(),
            r@ == path@.subrange(0, i as int),
        decreases path@.len() - i,
    {
        r.push(path[i]);
        i = i + 1;
        assert(r@ =~= path@.subrange(0, i as int));
    }
    assert(path@.subrange(0, path@.len() as int) =~= path@);
    r.push(n);
    r
}

/// Depth-first search over free cells from `start`, taking neighbours in the
/// grid's fixed order. Each newly discovered cell adds the edge to it to the
/// log. Where `start == finish` the result is that one cell, with an empty log,
/// and no search is made. Otherwise the result is a repeat-free wall-free walk
/// from `start` to `finish` when one exists and `None` when none does; a start
/// on a wall has none.
pub fn builtin_search(grid: &Grid, start: (usize, usize), finish: (usize, usize)) -> (r: (
    Option<Vec<(usize, usize)>>,
    Vec<DrawCommand>,
))
    requires
        grid.wf(),
        grid.valid(start.0 as int, start.1 as int),
        grid.valid(finish.0 as int, finish.1 as int),
    ensures
        start == finish ==> r.0 is Some && r.0->0@ == seq![start] && r.1@.len() == 0,
        start != finish ==> match r.0 {
            Some(p) => connects(*grid, p@, start, finish) && no_repeats(p@),
            None => !reachable(*grid, start, finish),
        },
        start != finish && !free(*grid, start) ==> r.0 is None && r.1@.len() == 0,
        exploration_log(*grid, start, r.1@),
{
    if start.0 == finish.0 && start.1 == finish.1 {
        let mut single: Vec<(usize, usize)> = Vec::new();
        single.push(start);
        assert(single@ =~= seq![start]);
        let empty: Vec<DrawCommand> = Vec::new();
        assert(exploration_log(*grid, start, empty@));
        return (Some(single), empty);
    }
    if grid.get(start.0, start.1) {
        let empty: Vec<DrawCommand> = Vec::new();
        assert(exploration_log(*grid, start, empty@));
        return (None, empty);
    }
    proof {
        grid.lemma_area();
        grid.lemma_dims();
    }
    let mut seen = Grid::new(grid.width(), grid.height());
    let ghost fresh = seen;
    seen.set(start.0, start.1, true);
    proof {
        assert forall|a: int, b: int|
            #![trigger seen.cell(a, b)]
            grid.valid(a, b) && seen.cell(a, b) implies a == start.0 && b == start.1 by {
            if !(a == start.0 && b == start.1) {
                assert(fresh.valid(a, b));
                assert(!fresh.cell(a, b));
            }
        }
    }
    let mut first: Vec<(usize, usize)> = Vec::new();
    first.push(start);
    let mut stack: Vec<((usize, usize), Vec<(usize, usize)>)> = Vec::new();
    stack.push((start, first));
    let mut found: Option<Vec<(usize, usize)>> = None;
    let mut log: Vec<DrawCommand> = Vec::new();
    let ghost area = grid.spec_width() * grid.spec_height();
    proof {
        seen.lemma_occupied_bound();
        assert(stack@[0].0 == start);
        assert(on_stack(stack@, start));
        assert(exploration_log(*grid, start, log@));
        assert(entry_ok(*grid, start, seen, log@, stack@[0]));
    }
    while found.is_none() && stack.len() > 0
        invariant
            grid.wf(),
            seen.wf(),
            grid.spec_width() <= usize::MAX,
            grid.spec_height() <= usize::MAX,
            seen.spec_width() == grid.spec_width(),
            seen.spec_height() == grid.spec_height(),
            area == grid.spec_width() * grid.spec_height(),
            seen.occupied() <= area,
            start != finish,
            free(*grid, start),
            grid.valid(finish.0 as int, finish.1 as int),
            seen.cell(start.0 as int, start.1 as int),
            forall|j: int|
                0 <= j < stack@.len() ==> entry_ok(*grid, start, seen, log@, #[trigger] stack@[j]),
            found is None ==> forall|a: int, b: int|
                #![trigger seen.cell(a, b)]
                grid.valid(a, b) && seen.cell(a, b) ==> on_stack(stack@, (a as usize, b as usize))
                    || closed(*grid, seen, a, b),
            match found {
                Some(p) => connects(*grid, p@, start, finish) && no_repeats(p@),
                None => !seen.cell(finish.0 as int, finish.1 as int),
            },
            exploration_log(*grid, start, log@),
            targets_seen(seen, log@),
        decreases 2 * (area - seen.occupied()) + stack@.len(),
    {
        let ghost measure = 2 * (area - seen.occupied()) + stack@.len();
        let ghost before = stack@;
        let (c, path) = stack.pop().unwrap();
        proof {
            assert(stack@ =~= before.drop_last());
            assert(before[before.len() - 1] == (c, path));
            assert(entry_ok(*grid, start, seen, log@, (c, path)));
            assert forall|a: int, b: int|
                #![trigger seen.cell(a, b)]
                grid.valid(a, b) && seen.cell(a, b) && !(a == c.0 && b == c.1) && on_stack(
                    before,
                    (a as usize, b as usize),
                ) implies on_stack(stack@, (a as usize, b as usize)) by {
                let j = choose|j: int| 0 <= j < before.len() && (#[trigger] before[j]).0 == (
                a as usize,
                b as usize,
                );
                assert(j != before.len() - 1);
                assert(stack@[j] == before[j]);
            }
            assert forall|j: int| 0 <= j < stack@.len() implies entry_ok(*grid, start, seen, log@, #[trigger] stack@[j]) by {
                assert(stack@[j] == before[j]);
            }
        }
        let nbrs = grid.neighbors(c.0, c.1);
        proof {
            grid.lemma_neighbors_in_bounds(c.0 as int, c.1 as int);
        }
        let mut i: usize = 0;
        while i < nbrs.len() && found.is_none()
            invariant
                grid.wf(),
                seen.wf(),
                grid.spec_width() <= usize::MAX,
                grid.spec_height() <= usize::MAX,
                seen.spec_width() == grid.spec_width(),
                seen.spec_height() == grid.spec_height(),
                area == grid.spec_width() * grid.spec_height(),
                seen.occupied() <= area,
                start != finish,
                free(*grid, start),
                grid.valid(finish.0 as int, finish.1 as int),
                seen.cell(start.0 as int, start.1 as int),
                i <= nbrs@.len(),
                nbrs@ == grid.neighbor_seq(c.0 as int, c.1 as int),
                forall|k: int|
                    0 <= k < nbrs@.len() ==> {
                        let n = #[trigger] grid.neighbor_seq(c.0 as int, c.1 as int)[k];
                        &&& grid.valid(n.0 as int, n.1 as int)
                        &&& n.2 == grid.cell(n.0 as int, n.1 as int)
                        &&& adjacent((c.0 as int, c.1 as int), (n.0 as int, n.1 as int))
                    },
                entry_ok(*grid, start, seen, log@, (c, path)),
                2 * (area - seen.occupied()) + stack@.len() < measure,
                forall|j: int|
                    0 <= j < stack@.len() ==> entry_ok(*grid, start, seen, log@, #[trigger] stack@[j]),
                found is None ==> forall|a: int, b: int|
                    #![trigger seen.cell(a, b)]
                    grid.valid(a, b) && seen.cell(a, b) && !(a == c.0 && b == c.1) ==> on_stack(
                        stack@,
                        (a as usize, b as usize),
                    ) || closed(*grid, seen, a, b),
                found is None ==> forall|k: int|
                    0 <= k < i ==> (#[trigger] nbrs@[k]).2 || seen.cell(
                        nbrs@[k].0 as int,
                        nbrs@[k].1 as int,
                    ),
                match found {
                    Some(p) => connects(*grid, p@, start, finish) && no_repeats(p@),
                    None => !seen.cell(finish.0 as int, finish.1 as int),
                },
                exploration_log(*grid, start, log@),
                targets_seen(seen, log@),
            decreases nbrs@.len() - i,
        {
            let (nx, ny, wall) = nbrs[i];
            assert(grid.neighbor_seq(c.0 as int, c.1 as int)[i as int] == nbrs@[i as int]);
            if !wall && !seen.get(nx, ny) {
                let ghost seen_before = seen;
                let ghost log_before = log@;
                let ghost stack_before = stack@;
                seen.set(nx, ny, true);
                proof {
                    seen.lemma_occupied_bound();
                    assert(step(*grid, path@.last(), (nx, ny)));
                    lemma_walk_extend(*grid, path@, (nx, ny));
                    assert forall|a: int, b: int|
                        #![trigger seen.cell(a, b)]
                        seen.valid(a, b) && seen_before.cell(a, b) implies seen.cell(a, b) by {
                        if !(a == nx && b == ny) {
                        }
                    }
                    assert(grows(seen_before, seen));
                    lemma_no_repeats_push(seen_before, path@, (nx, ny));
                }
                let next = extend_path(&path, (nx, ny));
                let edge = DrawCommand::AddShape(
                    Shape::Line { from: c, to: (nx, ny), width: LINE_WIDTH, color: Color::DarkGreen },
                );
                proof {
                    lemma_log_push(*grid, start, seen_before, log_before, edge);
                    lemma_targets_kept(*grid, start, seen_before, seen, log_before);
                    lemma_entry_kept(*grid, start, seen_before, seen, log_before, edge, (c, path));
                    assert forall|j: int| 0 <= j < stack@.len() implies entry_ok(
                        *grid,
                        start,
                        seen,
                        log_before.push(edge),
                        #[trigger] stack@[j],
                    ) by {
                        lemma_entry_kept(*grid, start, seen_before, seen, log_before, edge, stack@[j]);
                    }
                }
                log.push(edge);
                proof {
                    assert(log@ == log_before.push(edge));
                    assert(log@[log@.len() - 1] == edge);
                    assert forall|k: int| 0 <= k < log@.len() implies seen.cell(
                        edge_to(#[trigger] log@[k]).0 as int,
                        edge_to(log@[k]).1 as int,
                    ) by {
                        if k < log_before.len() {
                            assert(log@[k] == log_before[k]);
                        }
                    }
                    assert(all_seen(seen, next@)) by {
                        assert forall|k: int| 0 <= k < next@.len() implies seen.cell(
                            (#[trigger] next@[k]).0 as int,
                            next@[k].1 as int,
                        ) by {
                            if k < path@.len() {
                                assert(next@[k] == path@[k]);
                            }
                        }
                    }
                }
                if nx == finish.0 && ny == finish.1 {
                    found = Some(next);
                } else {
                    stack.push(((nx, ny), next));
                    proof {
                        assert(stack@[stack@.len() - 1].0 == (nx, ny));
                        assert(discovered(log@, (nx, ny), start));
                        assert forall|j: int| 0 <= j < stack@.len() implies entry_ok(
                            *grid,
                            start,
                            seen,
                            log@,
                            #[trigger] stack@[j],
                        ) by {
                            if j < stack_before.len() {
                                assert(stack@[j] == stack_before[j]);
                            }
                        }
                        assert forall|a: int, b: int|
                            #![trigger seen.cell(a, b)]
                            grid.valid(a, b) && seen.cell(a, b) && !(a == c.0 && b == c.1)
                                implies on_stack(stack@, (a as usize, b as usize)) || closed(
                                *grid,
                                seen,
                                a,
                                b,
                            ) by {
                            if a == nx && b == ny {
                                assert(stack@[stack@.len() - 1].0 == (a as usize, b as usize));
                            } else {
                                assert(seen_before.cell(a, b));
                                if on_stack(stack_before, (a as usize, b as usize)) {
                                    let j = choose|j: int|
                                        0 <= j < stack_before.len() && (#[trigger] stack_before[j]).0
                                            == (a as usize, b as usize);
                                    assert(stack@[j] == stack_before[j]);
                                } else {
                                    assert(closed(*grid, seen_before, a, b));
                                    assert forall|mx: int, my: int|
                                        #![trigger seen.cell(mx, my)]
                                        grid.valid(mx, my) && adjacent((a, b), (mx, my))
                                            && !grid.cell(mx, my) implies seen.cell(mx, my) by {
                                        assert(seen_before.cell(mx, my));
                                    }
                                }
                            }
                        }
                        assert forall|k: int| 0 <= k < i + 1 implies (#[trigger] nbrs@[k]).2
                            || seen.cell(nbrs@[k].0 as int, nbrs@[k].1 as int) by {
                            if k < i {
                                if !nbrs@[k].2 {
                                    assert(seen_before.cell(nbrs@[k].0 as int, nbrs@[k].1 as int));
                                }
                            }
                        }
                    }
                }
            }
            i = i + 1;
        }
        proof {
            if found is None {
                assert forall|nx: int, ny: int|
                    #![trigger seen.cell(nx, ny)]
                    grid.valid(nx, ny) && adjacent((c.0 as int, c.1 as int), (nx, ny)) && !grid.cell(
                        nx,
                        ny,
                    ) implies seen.cell(nx, ny) by {
                    lemma_adjacent_listed(*grid, c.0 as int, c.1 as int, nx, ny);
                    let e = (nx as usize, ny as usize, grid.cell(nx, ny));
                    let k = choose|k: int| 0 <= k < nbrs@.len() && nbrs@[k] == e;
                    assert(nbrs@[k] == e);
                }
                assert(closed(*grid, seen, c.0 as int, c.1 as int));
            }
        }
    }
    match found {
        Some(p) => (Some(p), log),
        None => {
            proof {
                assert forall|p: Seq<(usize, usize)>| !connects(*grid, p, start, finish) by {
                    if connects(*grid, p, start, finish) {
                        assert forall|a: int, b: int|
                            #![trigger seen.cell(a, b)]
                            grid.valid(a, b) && seen.cell(a, b) implies closed(*grid, seen, a, b) by {
                            if on_stack(stack@, (a as usize, b as usize)) {
                                let j = choose|j: int| 0 <= j < stack@.len() && (#[trigger] stack@[j]).0 == (a as usize, b as usize);
                            }
                        }
                        lemma_closed_covers(*grid, seen, p, p.len() - 1);
                    }
                }
            }
            (None, log)
        },
    }
}

} // verus!
