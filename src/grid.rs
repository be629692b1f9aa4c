use vstd::prelude::*;
use crate::types::Position;

verus! {

/// Whether `p` lies within a `width` by `height` rectangle anchored at the origin.
pub open spec fn in_rect(width: int, height: int, p: Position) -> bool {
    0 <= p.x < width && 0 <= p.y < height
}

/// Row-major offset of `p` in a rectangle of the given width.
pub open spec fn cell_offset(width: int, p: Position) -> int {
    p.y * width + p.x
}

proof fn lemma_offset_bounds(width: int, height: int, p: Position)
    requires
        in_rect(width, height, p),
    ensures
        0 <= cell_offset(width, p) < width * height,
{
    assert(0 <= p.y * width) by (nonlinear_arith)
        requires
            0 <= p.y,
            0 < width,
    ;
    assert(p.y * width + p.x < width * height) by (nonlinear_arith)
        requires
            0 <= p.x < width,
            0 <= p.y < height,
    ;
}

proof fn lemma_offset_injective(width: int, height: int, p: Position, q: Position)
    requires
        in_rect(width, height, p),
        in_rect(width, height, q),
        p != q,
    ensures
        cell_offset(width, p) != cell_offset(width, q),
{
    if p.y == q.y {
        assert(p.x != q.x);
    } else if p.y < q.y {
        assert(p.y * width + p.x < q.y * width + q.x) by (nonlinear_arith)
            requires
                0 <= p.x < width,
                0 <= q.x < width,
                p.y < q.y,
        ;
    } else {
        assert(q.y * width + q.x < p.y * width + p.x) by (nonlinear_arith)
            requires
                0 <= p.x < width,
                0 <= q.x < width,
                q.y < p.y,
        ;
    }
}

/// How many elements of `s` satisfy `f`.
pub open spec fn count_in<T>(s: Seq<T>, f: spec_fn(T) -> bool) -> nat
    decreases s.len(),
{
    if s.len() == 0 {
        0
    } else {
        count_in(s.drop_last(), f) + if f(s.last()) {
            1nat
        } else {
            0nat
        }
    }
}

proof fn lemma_count_le_len<T>(s: Seq<T>, f: spec_fn(T) -> bool)
    ensures
        count_in(s, f) <= s.len(),
    decreases s.len(),
{
    if s.len() > 0 {
        lemma_count_le_len(s.drop_last(), f);
    }
}

proof fn lemma_count_update<T>(s: Seq<T>, i: int, v: T, f: spec_fn(T) -> bool)
    requires
        0 <= i < s.len(),
        !f(s[i]),
        f(v),
    ensures
        count_in(s.update(i, v), f) == count_in(s, f) + 1,
    decreases s.len(),
{
    let t = s.update(i, v);
    if i == s.len() - 1 {
        assert(t.drop_last() =~= s.drop_last());
    } else {
        assert(t.drop_last() =~= s.drop_last().update(i, v));
        lemma_count_update(s.drop_last(), i, v, f);
    }
}

/// A rectangular grid of cells, one value per position.
pub struct Grid<T> {
    width: usize,
    height: usize,
    cells: Vec<T>,
}

impl<T> Grid<T> {
    pub closed spec fn spec_width(&self) -> int {
        self.width as int
    }

    pub closed spec fn spec_height(&self) -> int {
        self.height as int
    }

    pub closed spec fn wf(&self) -> bool {
        &&& self.width <= i32::MAX
        &&& self.height <= i32::MAX
        &&& self.width * self.height <= usize::MAX
        &&& self.cells@.len() == self.width * self.height
    }

    /// The value at each position of the rectangle.
    pub closed spec fn view(&self) -> Map<Position, T> {
        Map::new(
            |p: Position| in_rect(self.width as int, self.height as int, p),
            |p: Position| self.cells@[cell_offset(self.width as int, p)],
        )
    }

    /// How many cells hold a value that satisfies `f`.
    pub closed spec fn count(&self, f: spec_fn(T) -> bool) -> nat {
        count_in(self.cells@, f)
    }

    pub proof fn lemma_count_bound(&self, f: spec_fn(T) -> bool)
        requires
            self.wf(),
        ensures
            self.count(f) <= self.spec_width() * self.spec_height(),
    {
        lemma_count_le_len(self.cells@, f);
    }

    pub proof fn lemma_dims(&self)
        requires
            self.wf(),
        ensures
            0 <= self.spec_width() <= i32::MAX,
            0 <= self.spec_height() <= i32::MAX,
            self.spec_width() * self.spec_height() <= usize::MAX,
    {
    }

    pub fn width(&self) -> (r: usize)
        ensures
            r == self.spec_width(),
    {
        self.width
    }

    pub fn height(&self) -> (r: usize)
        ensures
            r == self.spec_height(),
    {
        self.height
    }

    pub proof fn lemma_dom(&self)
        ensures
            forall|p: Position| #[trigger]
                self@.contains_key(p) <==> in_rect(self.spec_width(), self.spec_height(), p),
    {
    }

    /// The grid of the given size with every cell set to `fill`.
    pub fn filled(width: usize, height: usize, fill: T) -> (r: Self)
        where
            T: Copy,
        requires
            width <= i32::MAX,
            height <= i32::MAX,
            width * height <= usize::MAX,
        ensures
            r.wf(),
            r.spec_width() == width,
            r.spec_height() == height,
            forall|p: Position| #[trigger]
                r@.contains_key(p) <==> in_rect(width as int, height as int, p),
            forall|p: Position| r@.contains_key(p) ==> #[trigger] r@[p] == fill,
    {
        let n: usize = width * height;
        let mut cells: Vec<T> = Vec::new();
        let mut i: usize = 0;
        while i < n
            invariant
                i <= n,
                cells@.len() == i,
                forall|j: int| 0 <= j < i ==> #[trigger] cells@[j] == fill,
            decreases n - i,
        {
            cells.push(fill);
            i = i + 1;
        }
        let r = Grid { width, height, cells };
        assert forall|p: Position| r@.contains_key(p) implies #[trigger] r@[p] == fill by {
            lemma_offset_bounds(width as int, height as int, p);
        }
        r
    }

    /// Whether `p` lies on the grid.
    pub fn contains(&self, p: Position) -> (r: bool)
        requires
            self.wf(),
        ensures
            r == self@.contains_key(p),
    {
        p.x >= 0 && p.y >= 0 && (p.x as usize) < self.width && (p.y as usize) < self.height
    }

    fn offset(&self, p: Position) -> (r: usize)
        requires
            self.wf(),
            self@.contains_key(p),
        ensures
            r == cell_offset(self.width as int, p),
            r < self.cells@.len(),
    {
        proof {
            lemma_offset_bounds(self.width as int, self.height as int, p);
        }
        let y = p.y as usize;
        let x = p.x as usize;
        assert(y * self.width <= y * self.width + x);
        let row = y * self.width;
        row + x
    }

    /// The value at `p`, if `p` lies on the grid.
    pub fn get(&self, p: Position) -> (r: Option<&T>)
        requires
            self.wf(),
        ensures
            r == (if self@.contains_key(p) {
                Some(&self@[p])
            } else {
                None
            }),
    {
        if self.contains(p) {
            let i = self.offset(p);
            Some(&self.cells[i])
        } else {
            None
        }
    }

    /// Replaces the value at `p`.
    pub fn set(&mut self, p: Position, v: T)
        requires
            old(self).wf(),
            old(self)@.contains_key(p),
        ensures
            final(self).wf(),
            final(self)@ == old(self)@.insert(p, v),
            final(self).spec_width() == old(self).spec_width(),
            final(self).spec_height() == old(self).spec_height(),
            forall|f: spec_fn(T) -> bool|
                !f(old(self)@[p]) && f(v) ==> #[trigger] final(self).count(f) == old(self).count(f)
                    + 1,
    {
        let i = self.offset(p);
        self.cells.set(i, v);
        proof {
            assert forall|f: spec_fn(T) -> bool|
                !f(old(self)@[p]) && f(v) implies #[trigger] self.count(f) == old(self).count(f)
                + 1 by {
                lemma_count_update(old(self).cells@, i as int, v, f);
            }
            let w = self.width as int;
            let h = self.height as int;
            assert forall|q: Position| #[trigger] self@.contains_key(q) && q != p implies self@[q]
                == old(self)@[q] by {
                lemma_offset_injective(w, h, p, q);
                lemma_offset_bounds(w, h, q);
            }
            assert(self@ =~= old(self)@.insert(p, v));
        }
    }
}

} // verus!
