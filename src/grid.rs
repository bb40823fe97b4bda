use vstd::prelude::*;

verus! {

/// A fixed-size occupancy map addressed by `(x, y)`; `true` marks a wall.
pub struct Grid {
    width: usize,
    height: usize,
    values: Vec<bool>,
}

/// The offset of cell `(x, y)` in a row-by-row layout of rows `w` cells wide.
pub open spec fn flat_index(w: int, x: int, y: int) -> int {
    y * w + x
}

proof fn lemma_flat_index_bounds(w: int, h: int, x: int, y: int)
    requires
        0 <= x < w,
        0 <= y < h,
    ensures
        0 <= flat_index(w, x, y) < w * h,
{
    assert(0 <= y * w + x < w * h) by (nonlinear_arith)
        requires
            0 <= x < w,
            0 <= y < h,
    ;
}

/// The number of `true` entries of `s`.
pub open spec fn count_true(s: Seq<bool>) -> nat
    decreases s.len(),
{
    if s.len() == 0 {
        0
    } else {
        count_true(s.drop_last()) + if s.last() {
            1nat
        } else {
            0nat
        }
    }
}

proof fn lemma_count_true_bound(s: Seq<bool>)
    ensures
        count_true(s) <= s.len(),
    decreases s.len(),
{
    if s.len() > 0 {
        lemma_count_true_bound(s.drop_last());
    }
}

proof fn lemma_count_true_update(s: Seq<bool>, i: int)
    requires
        0 <= i < s.len(),
    ensures
        count_true(s.update(i, true)) == count_true(s) + if s[i] {
            0nat
        } else {
            1nat
        },
    decreases s.len(),
{
    let t = s.update(i, true);
    if i == s.len() - 1 {
        assert(t.drop_last() =~= s.drop_last());
    } else {
        assert(t.drop_last() =~= s.drop_last().update(i, true));
        lemma_count_true_update(s.drop_last(), i);
    }
}

/// `a` and `b` are one step apart along one axis.
pub open spec fn adjacent(a: (int, int), b: (int, int)) -> bool {
    ||| (b.0 == a.0 + 1 && b.1 == a.1)
    ||| (b.0 == a.0 && b.1 == a.1 + 1)
    ||| (b.0 == a.0 - 1 && b.1 == a.1)
    ||| (b.0 == a.0 && b.1 == a.1 - 1)
}

/// The position of cell `(x, y)` in a column-by-column listing of columns
/// `h` cells tall.
pub open spec fn key_index(h: int, x: int, y: int) -> int {
    x * h + y
}

proof fn lemma_key_index_step(h: int, x: int, a: int, b: int)
    requires
        0 <= a < x,
        0 <= b < h,
    ensures
        0 <= key_index(h, a, b) < x * h,
{
    assert(0 <= a * h + b < x * h) by (nonlinear_arith)
        requires
            0 <= a < x,
            0 <= b < h,
    ;
}

proof fn lemma_flat_index_injective(w: int, x1: int, y1: int, x2: int, y2: int)
    requires
        0 <= x1 < w,
        0 <= x2 < w,
        0 <= y1,
        0 <= y2,
        flat_index(w, x1, y1) == flat_index(w, x2, y2),
    ensures
        x1 == x2,
        y1 == y2,
{
    if y1 < y2 {
        assert(y1 * w + x1 < y2 * w + x2) by (nonlinear_arith)
            requires
                0 <= x1 < w,
                0 <= x2,
                0 <= y1 < y2,
        ;
    } else if y2 < y1 {
        assert(y2 * w + x2 < y1 * w + x1) by (nonlinear_arith)
            requires
                0 <= x2 < w,
                0 <= x1,
                0 <= y2 < y1,
        ;
    }
}

impl Grid {
    pub closed spec fn spec_width(&self) -> int {
        self.width as int
    }

    pub closed spec fn spec_height(&self) -> int {
        self.height as int
    }

    /// The stored cells are exactly `width * height`.
    pub closed spec fn wf(&self) -> bool {
        &&& self.values@.len() == self.width * self.height
        &&& self.width * self.height <= usize::MAX
    }

    /// The occupancy of `(x, y)`; meaningful only where `valid(x, y)`.
    pub closed spec fn cell(&self, x: int, y: int) -> bool {
        self.values@[flat_index(self.width as int, x, y)]
    }

    /// The number of occupied cells.
    pub closed spec fn occupied(&self) -> nat {
        count_true(self.values@)
    }

    pub proof fn lemma_occupied_bound(&self)
        requires
            self.wf(),
        ensures
            self.occupied() <= self.spec_width() * self.spec_height(),
    {
        lemma_count_true_bound(self.values@);
    }

    /// `(x, y)` lies in `[0, width) x [0, height)`.
    pub open spec fn valid(&self, x: int, y: int) -> bool {
        0 <= x < self.spec_width() && 0 <= y < self.spec_height()
    }

    /// The entry that probing `(x, y)` contributes to a neighbour list.
    pub open spec fn probe(&self, x: int, y: int) -> Seq<(usize, usize, bool)> {
        if self.valid(x, y) {
            seq![(x as usize, y as usize, self.cell(x, y))]
        } else {
            Seq::empty()
        }
    }

    /// The in-bounds neighbours of `(x, y)`, in the order +x, +y, -x, -y.
    pub open spec fn neighbor_seq(&self, x: int, y: int) -> Seq<(usize, usize, bool)> {
        self.probe(x + 1, y) + self.probe(x, y + 1) + self.probe(x - 1, y) + self.probe(x, y - 1)
    }

    pub proof fn lemma_area(&self)
        requires
            self.wf(),
        ensures
            self.spec_width() * self.spec_height() <= usize::MAX,
            self.spec_width() >= 0,
            self.spec_height() >= 0,
    {
    }

    pub proof fn lemma_dims(&self)
        ensures
            0 <= self.spec_width() <= usize::MAX,
            0 <= self.spec_height() <= usize::MAX,
    {
    }

    /// A grid of `width` by `height` cells, none of them a wall.
    pub fn new(width: usize, height: usize) -> (r: Grid)
        requires
            width * height <= usize::MAX,
        ensures
            r.wf(),
            r.spec_width() == width,
            r.spec_height() == height,
            forall|x: int, y: int| #[trigger] r.valid(x, y) ==> !r.cell(x, y),
    {
        let n: usize = width * height;
        let mut values: Vec<bool> = Vec::new();
        while values.len() < n
            invariant
                values.len() <= n,
                forall|i: int| 0 <= i < values.len() ==> !values@[i],
            decreases n - values.len(),
        {
            values.push(false);
        }
        let r = Grid { width, height, values };
        assert forall|x: int, y: int| #[trigger] r.valid(x, y) implies !r.cell(x, y) by {
            lemma_flat_index_bounds(width as int, height as int, x, y);
        }
        r
    }

    pub fn width(&self) -> (r: usize)
        ensures
            r == self.spec_width(),
    {
        self.width
    }

    pub fn height(&self) -> (r: usize)
        ensures
            r == self.spec_height(),
    {
        self.height
    }

    /// Sets the occupancy of an in-bounds cell, leaving every other cell as it was.
    pub fn set(&mut self, x: usize, y: usize, value: bool)
        requires
            old(self).wf(),
            old(self).valid(x as int, y as int),
        ensures
            final(self).wf(),
            final(self).spec_width() == old(self).spec_width(),
            final(self).spec_height() == old(self).spec_height(),
            final(self).cell(x as int, y as int) == value,
            forall|a: int, b: int|
                #![trigger final(self).cell(a, b)]
                final(self).valid(a, b) && !(a == x && b == y) ==> final(self).cell(a, b)
                    == old(self).cell(a, b),
            value ==> final(self).occupied() == old(self).occupied() + if old(self).cell(
                x as int,
                y as int,
            ) {
                0nat
            } else {
                1nat
            },
    {
        proof {
            lemma_flat_index_bounds(self.width as int, self.height as int, x as int, y as int);
        }
        let i: usize = y * self.width + x;
        proof {
            if value {
                lemma_count_true_update(self.values@, i as int);
            }
        }
        self.values.set(i, value);
        proof {
            assert forall|a: int, b: int|
                #![trigger self.cell(a, b)]
                self.valid(a, b) && !(a == x && b == y) implies self.cell(a, b) == old(
                self,
            ).cell(a, b) by {
                lemma_flat_index_bounds(self.width as int, self.height as int, a, b);
                if flat_index(self.width as int, a, b) == i {
                    lemma_flat_index_injective(self.width as int, a, b, x as int, y as int);
                }
            }
        }
    }

    /// The occupancy of an in-bounds cell.
    pub fn get(&self, x: usize, y: usize) -> (r: bool)
        requires
            self.wf(),
            self.valid(x as int, y as int),
        ensures
            r == self.cell(x as int, y as int),
    {
        proof {
            lemma_flat_index_bounds(self.width as int, self.height as int, x as int, y as int);
        }
        self.values[y * self.width + x]
    }

    /// The occupancy of `(x, y)`, or `None` outside the grid.
    pub fn try_get(&self, x: i64, y: i64) -> (r: Option<bool>)
        requires
            self.wf(),
        ensures
            r == (if self.valid(x as int, y as int) {
                Some(self.cell(x as int, y as int))
            } else {
                None
            }),
    {
        if self.are_coordinates_valid(x, y) {
            Some(self.get(x as usize, y as usize))
        } else {
            None
        }
    }

    /// Every cell as `(x, y)`, column by column: `(0, 0), (0, 1), ...`.
    pub fn keys(&self) -> (r: Vec<(usize, usize)>)
        requires
            self.wf(),
        ensures
            r@.len() == self.spec_width() * self.spec_height(),
            forall|x: int, y: int|
                #![trigger key_index(self.spec_height(), x, y)]
                self.valid(x, y) ==> r@[key_index(self.spec_height(), x, y)] == (
                x as usize,
                y as usize,
            ),
    {
        let w = self.width;
        let h = self.height;
        let mut r: Vec<(usize, usize)> = Vec::new();
        let mut x: usize = 0;
        while x < w
            invariant
                x <= w,
                w == self.spec_width(),
                h == self.spec_height(),
                r@.len() == x * h,
                forall|a: int, b: int|
                    #![trigger key_index(h as int, a, b)]
                    0 <= a < x && 0 <= b < h ==> r@[key_index(h as int, a, b)] == (
                    a as usize,
                    b as usize,
                ),
            decreases w - x,
        {
            let mut y: usize = 0;
            while y < h
                invariant
                    x < w,
                    y <= h,
                    r@.len() == x * h + y,
                    forall|a: int, b: int|
                        #![trigger key_index(h as int, a, b)]
                        0 <= a < x && 0 <= b < h ==> r@[key_index(h as int, a, b)] == (
                        a as usize,
                        b as usize,
                    ),
                    forall|b: int| 0 <= b < y ==> r@[key_index(h as int, x as int, b)] == (
                        x as usize,
                        b as usize,
                    ),
                decreases h - y,
            {
                proof {
                    assert forall|a: int, b: int|
                        #![trigger key_index(h as int, a, b)]
                        0 <= a < x && 0 <= b < h implies key_index(h as int, a, b) < r@.len() by {
                        lemma_key_index_step(h as int, x as int, a, b);
                    }
                }
                r.push((x, y));
                y = y + 1;
            }
            proof {
                assert((x + 1) * h == x * h + h) by (nonlinear_arith);
                assert forall|a: int, b: int|
                    #![trigger key_index(h as int, a, b)]
                    0 <= a < x + 1 && 0 <= b < h implies r@[key_index(h as int, a, b)] == (
                    a as usize,
                    b as usize,
                ) by {
                    if a < x {
                    } else {
                        assert(a == x);
                    }
                }
            }
            x = x + 1;
        }
        r
    }

    /// Every cell as `(x, y, occupancy)`, in the order of `keys`.
    pub fn iter(&self) -> (r: Vec<(usize, usize, bool)>)
        requires
            self.wf(),
        ensures
            r@.len() == self.spec_width() * self.spec_height(),
            forall|x: int, y: int|
                #![trigger key_index(self.spec_height(), x, y)]
                self.valid(x, y) ==> r@[key_index(self.spec_height(), x, y)] == (
                x as usize,
                y as usize,
                self.cell(x, y),
            ),
    {
        let keys = self.keys();
        let mut r: Vec<(usize, usize, bool)> = Vec::new();
        let mut i: usize = 0;
        while i < keys.len()
            invariant
                self.wf(),
                i <= keys@.len(),
                keys@.len() == self.spec_width() * self.spec_height(),
                forall|x: int, y: int|
                    #![trigger key_index(self.spec_height(), x, y)]
                    self.valid(x, y) ==> keys@[key_index(self.spec_height(), x, y)] == (
                    x as usize,
                    y as usize,
                ),
                r@.len() == i,
                forall|k: int|
                    #![trigger r@[k]]
                    0 <= k < i ==> r@[k] == (
                        keys@[k].0,
                        keys@[k].1,
                        self.cell(keys@[k].0 as int, keys@[k].1 as int),
                    ),
            decreases keys@.len() - i,
        {
            let (x, y) = keys[i];
            proof {
                self.lemma_key_valid(&keys, i as int);
            }
            r.push((x, y, self.get(x, y)));
            i = i + 1;
        }
        proof {
            assert forall|x: int, y: int|
                #![trigger key_index(self.spec_height(), x, y)]
                self.valid(x, y) implies r@[key_index(self.spec_height(), x, y)] == (
                x as usize,
                y as usize,
                self.cell(x, y),
            ) by {
                lemma_key_index_step(self.spec_height(), x + 1, x, y);
                assert((x + 1) * self.spec_height() <= self.spec_width() * self.spec_height())
                    by (nonlinear_arith)
                    requires
                        x + 1 <= self.spec_width(),
                        self.spec_height() >= 0,
                ;
                assert(0 <= key_index(self.spec_height(), x, y) < r@.len());
            }
        }
        r
    }

    /// Every entry of a listing of `keys` names a cell of the grid.
    proof fn lemma_key_valid(&self, keys: &Vec<(usize, usize)>, k: int)
        requires
            self.wf(),
            0 <= k < keys@.len(),
            keys@.len() == self.spec_width() * self.spec_height(),
            forall|x: int, y: int|
                #![trigger key_index(self.spec_height(), x, y)]
                self.valid(x, y) ==> keys@[key_index(self.spec_height(), x, y)] == (
                x as usize,
                y as usize,
            ),
        ensures
            self.valid(keys@[k].0 as int, keys@[k].1 as int),
    {
        let h = self.spec_height();
        let w = self.spec_width();
        assert(h > 0) by (nonlinear_arith)
            requires
                0 <= k < w * h,
                w >= 0,
        ;
        let x = k / h;
        let y = k % h;
        assert(k == x * h + y && 0 <= y < h && 0 <= x) by (nonlinear_arith)
            requires
                h > 0,
                k >= 0,
                x == k / h,
                y == k % h,
        ;
        assert(x < w) by (nonlinear_arith)
            requires
                k == x * h + y,
                0 <= y,
                k < w * h,
                h > 0,
        ;
        assert(key_index(h, x, y) == k);
    }

    /// The in-bounds neighbours of `(x, y)` with their occupancy, in the fixed
    /// order +x, +y, -x, -y.
    pub fn neighbors(&self, x: usize, y: usize) -> (r: Vec<(usize, usize, bool)>)
        requires
            self.wf(),
        ensures
            r@ == self.neighbor_seq(x as int, y as int),
    {
        let w = self.width;
        let h = self.height;
        let mut r: Vec<(usize, usize, bool)> = Vec::new();
        if x < w && x + 1 < w && y < h {
            r.push((x + 1, y, self.get(x + 1, y)));
        }
        assert(r@ =~= self.probe(x + 1, y as int));
        let ghost r1 = r@;
        if y < h && y + 1 < h && x < w {
            r.push((x, y + 1, self.get(x, y + 1)));
        }
        assert(r@ =~= r1 + self.probe(x as int, y + 1));
        let ghost r2 = r@;
        if x > 0 && x - 1 < w && y < h {
            r.push((x - 1, y, self.get(x - 1, y)));
        }
        assert(r@ =~= r2 + self.probe(x - 1, y as int));
        let ghost r3 = r@;
        if y > 0 && y - 1 < h && x < w {
            r.push((x, y - 1, self.get(x, y - 1)));
        }
        assert(r@ =~= r3 + self.probe(x as int, y - 1));
        r
    }

    /// Every entry of a neighbour list lies in the grid, is one step away from
    /// `(x, y)` and carries that cell's occupancy.
    pub proof fn lemma_neighbors_in_bounds(&self, x: int, y: int)
        ensures
            forall|k: int|
                0 <= k < self.neighbor_seq(x, y).len() ==> {
                    let n = #[trigger] self.neighbor_seq(x, y)[k];
                    &&& self.valid(n.0 as int, n.1 as int)
                    &&& n.2 == self.cell(n.0 as int, n.1 as int)
                    &&& adjacent((x, y), (n.0 as int, n.1 as int))
                },
    {
        self.lemma_dims();
    }

    /// Whether `(x, y)` lies in `[0, width) x [0, height)`.
    pub fn are_coordinates_valid(&self, x: i64, y: i64) -> (r: bool)
        ensures
            r == self.valid(x as int, y as int),
    {
        x >= 0 && (x as i128) < (self.width as i128) && y >= 0 && (y as i128) < (
        self.height as i128)
    }
}

} // verus!
