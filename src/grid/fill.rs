use crate::geometry::{Point, Size};
use crate::grid::Cell;
use vstd::prelude::*;

verus! {

/// `p` is joined to `start` through at most `k` steps between 4-neighbours,
/// every cell on the way (both ends too) being equal to `first`.
pub open spec fn reach(
    size: Size,
    cells: Seq<Cell>,
    first: Cell,
    start: (int, int),
    p: (int, int),
    k: nat,
) -> bool
    decreases k,
{
    size.holds(p) && cells[size.index(p)] == first && (p == start || (k > 0 && (reach(
        size,
        cells,
        first,
        start,
        (p.0 - 1, p.1),
        (k - 1) as nat,
    ) || reach(size, cells, first, start, (p.0 + 1, p.1), (k - 1) as nat) || reach(
        size,
        cells,
        first,
        start,
        (p.0, p.1 - 1),
        (k - 1) as nat,
    ) || reach(size, cells, first, start, (p.0, p.1 + 1), (k - 1) as nat))))
}

/// `p` belongs to the 4-connected region of cells equal to `first` that holds `start`.
pub open spec fn reachable(
    size: Size,
    cells: Seq<Cell>,
    first: Cell,
    start: (int, int),
    p: (int, int),
) -> bool {
    exists|k: nat| reach(size, cells, first, start, p, k)
}

/// The cells after a flood fill from `start`: every cell of the region of
/// `first` around `start` becomes `fill`, and every other cell is kept.
pub open spec fn flooded(
    size: Size,
    cells: Seq<Cell>,
    start: (int, int),
    first: Cell,
    fill: Cell,
) -> Seq<Cell> {
    Seq::new(
        cells.len(),
        |i: int|
            if reachable(size, cells, first, start, size.point_at(i)) {
                fill
            } else {
                cells[i]
            },
    )
}

/// The number of cells equal to `v`.
pub open spec fn count_of(s: Seq<Cell>, v: Cell) -> nat
    decreases s.len(),
{
    if s.len() == 0 {
        0
    } else {
        count_of(s.drop_last(), v) + if s.last() == v {
            1nat
        } else {
            0nat
        }
    }
}

proof fn lemma_count_update(s: Seq<Cell>, i: int, v: Cell, w: Cell)
    requires
        0 <= i < s.len(),
        s[i] == v,
        w != v,
    ensures
        count_of(s.update(i, w), v) + 1 == count_of(s, v),
    decreases s.len(),
{
    if i < s.len() - 1 {
        assert(s.update(i, w).drop_last() =~= s.drop_last().update(i, w));
        lemma_count_update(s.drop_last(), i, v, w);
    } else {
        assert(s.update(i, w).drop_last() =~= s.drop_last());
    }
}

/// Whatever is reached lies on the cells of `first`, and so does `start` itself.
proof fn lemma_reach_from_start(
    size: Size,
    cells: Seq<Cell>,
    first: Cell,
    start: (int, int),
    p: (int, int),
    k: nat,
)
    requires
        reach(size, cells, first, start, p, k),
    ensures
        size.holds(start),
        cells[size.index(start)] == first,
    decreases k,
{
    if p != start {
        let k1 = (k - 1) as nat;
        if reach(size, cells, first, start, (p.0 - 1, p.1), k1) {
            lemma_reach_from_start(size, cells, first, start, (p.0 - 1, p.1), k1);
        } else if reach(size, cells, first, start, (p.0 + 1, p.1), k1) {
            lemma_reach_from_start(size, cells, first, start, (p.0 + 1, p.1), k1);
        } else if reach(size, cells, first, start, (p.0, p.1 - 1), k1) {
            lemma_reach_from_start(size, cells, first, start, (p.0, p.1 - 1), k1);
        } else {
            lemma_reach_from_start(size, cells, first, start, (p.0, p.1 + 1), k1);
        }
    }
}

/// A fill from a cell that is not `first`, or with `fill == first`, changes nothing.
pub proof fn lemma_flooded_unchanged(
    size: Size,
    cells: Seq<Cell>,
    start: (int, int),
    first: Cell,
    fill: Cell,
)
    requires
        size.width > 0,
        cells.len() == size.area(),
        first == fill || !size.holds(start) || cells[size.index(start)] != first,
    ensures
        flooded(size, cells, start, first, fill) == cells,
{
    assert forall|i: int| 0 <= i < cells.len() implies flooded(
        size,
        cells,
        start,
        first,
        fill,
    )[i] == cells[i] by {
        let p = size.point_at(i);
        crate::geometry::lemma_point_index(size, i);
        if reachable(size, cells, first, start, p) {
            let k = choose|k: nat| reach(size, cells, first, start, p, k);
            lemma_reach_from_start(size, cells, first, start, p, k);
        }
    }
    assert(flooded(size, cells, start, first, fill) =~= cells);
}

/// `p` has been filled while working: it held `first` and now holds `fill`.
spec fn changed(size: Size, o: Seq<Cell>, c: Seq<Cell>, first: Cell, fill: Cell, p: (int, int)) -> bool {
    size.holds(p) && o[size.index(p)] == first && c[size.index(p)] == fill
}

/// If the point `q` held `first`, it has been filled.
spec fn covers(size: Size, o: Seq<Cell>, c: Seq<Cell>, first: Cell, fill: Cell, q: (int, int)) -> bool {
    size.holds(q) && o[size.index(q)] == first ==> c[size.index(q)] == fill
}

/// Every 4-neighbour of `p` that held `first` has been filled.
spec fn closed_at(size: Size, o: Seq<Cell>, c: Seq<Cell>, first: Cell, fill: Cell, p: (int, int)) -> bool {
    &&& covers(size, o, c, first, fill, (p.0 - 1, p.1))
    &&& covers(size, o, c, first, fill, (p.0 + 1, p.1))
    &&& covers(size, o, c, first, fill, (p.0, p.1 - 1))
    &&& covers(size, o, c, first, fill, (p.0, p.1 + 1))
}

proof fn lemma_covers_update(
    size: Size,
    o: Seq<Cell>,
    c: Seq<Cell>,
    i: int,
    first: Cell,
    fill: Cell,
    r: (int, int),
)
    requires
        c.len() == size.area(),
        0 <= i < c.len(),
        covers(size, o, c, first, fill, r),
    ensures
        covers(size, o, c.update(i, fill), first, fill, r),
{
    if size.holds(r) {
        crate::geometry::lemma_index_in_range(size, r);
    }
}

proof fn lemma_closed_update(
    size: Size,
    o: Seq<Cell>,
    c: Seq<Cell>,
    i: int,
    first: Cell,
    fill: Cell,
    p: (int, int),
)
    requires
        c.len() == size.area(),
        0 <= i < c.len(),
        closed_at(size, o, c, first, fill, p),
    ensures
        closed_at(size, o, c.update(i, fill), first, fill, p),
{
    lemma_covers_update(size, o, c, i, first, fill, (p.0 - 1, p.1));
    lemma_covers_update(size, o, c, i, first, fill, (p.0 + 1, p.1));
    lemma_covers_update(size, o, c, i, first, fill, (p.0, p.1 - 1));
    lemma_covers_update(size, o, c, i, first, fill, (p.0, p.1 + 1));
}

spec fn points(s: Seq<Point>) -> Seq<(int, int)> {
    s.map_values(|q: Point| q@)
}

/// The state of a fill in progress: `ps` holds the points still to be
/// expanded and `cur` the one being expanded now.
spec fn fill_inv(
    size: Size,
    o: Seq<Cell>,
    c: Seq<Cell>,
    first: Cell,
    fill: Cell,
    start: (int, int),
    ps: Seq<(int, int)>,
    cur: Option<(int, int)>,
) -> bool {
    &&& first != fill
    &&& size.width > 0
    &&& c.len() == o.len() == size.area()
    &&& changed(size, o, c, first, fill, start)
    &&& forall|i: int| 0 <= i < c.len() ==> c[i] == o[i] || (o[i] == first && c[i] == fill)
    &&& forall|k: int| 0 <= k < ps.len() ==> changed(size, o, c, first, fill, #[trigger] ps[k])
    &&& forall|p: (int, int)| #[trigger]
        changed(size, o, c, first, fill, p) ==> reachable(size, o, first, start, p)
    &&& forall|p: (int, int)| #[trigger]
        changed(size, o, c, first, fill, p) ==> ps.contains(p) || cur == Some(p) || closed_at(
            size,
            o,
            c,
            first,
            fill,
            p,
        )
    &&& cur matches Some(q) ==> changed(size, o, c, first, fill, q)
}

/// Once no point waits, the filled cells are exactly the region of `start`.
proof fn lemma_closed_region(
    size: Size,
    o: Seq<Cell>,
    c: Seq<Cell>,
    first: Cell,
    fill: Cell,
    start: (int, int),
    p: (int, int),
    k: nat,
)
    requires
        fill_inv(size, o, c, first, fill, start, seq![], None),
        reach(size, o, first, start, p, k),
    ensures
        c[size.index(p)] == fill,
    decreases k,
{
    if p != start {
        let k1 = (k - 1) as nat;
        let q = if reach(size, o, first, start, (p.0 - 1, p.1), k1) {
            (p.0 - 1, p.1)
        } else if reach(size, o, first, start, (p.0 + 1, p.1), k1) {
            (p.0 + 1, p.1)
        } else if reach(size, o, first, start, (p.0, p.1 - 1), k1) {
            (p.0, p.1 - 1)
        } else {
            (p.0, p.1 + 1)
        };
        lemma_closed_region(size, o, c, first, fill, start, q, k1);
        assert(changed(size, o, c, first, fill, q));
        assert(closed_at(size, o, c, first, fill, q));
    }
}

/// Fills the neighbour `q` of the point being expanded, if it still holds `first`.
fn visit(
    cells: &mut Vec<Cell>,
    stack: &mut Vec<Point>,
    size: Size,
    q: Point,
    first: Cell,
    fill: Cell,
    Ghost(o): Ghost<Seq<Cell>>,
    Ghost(start): Ghost<(int, int)>,
    Ghost(cur): Ghost<(int, int)>,
)
    requires
        fill_inv(size, o, old(cells)@, first, fill, start, points(old(stack)@), Some(cur)),
        size.holds(q@),
        q@ == (cur.0 - 1, cur.1) || q@ == (cur.0 + 1, cur.1) || q@ == (cur.0, cur.1 - 1) || q@
            == (cur.0, cur.1 + 1),
    ensures
        fill_inv(size, o, final(cells)@, first, fill, start, points(final(stack)@), Some(cur)),
        covers(size, o, final(cells)@, first, fill, q@),
        forall|r: (int, int)|
            covers(size, o, old(cells)@, first, fill, r) ==> #[trigger] covers(
                size,
                o,
                final(cells)@,
                first,
                fill,
                r,
            ),
        (count_of(final(cells)@, first) == count_of(old(cells)@, first) && final(stack)@.len()
            == old(stack)@.len()) || count_of(final(cells)@, first) < count_of(
            old(cells)@,
            first,
        ),
{
    proof {
        crate::geometry::lemma_index_in_range(size, q@);
    }
    let i = size.cell_index(q);
    if cells[i] == first {
        let ghost c0 = cells@;
        let ghost ps0 = points(stack@);
        cells.set(i, fill);
        stack.push(q);
        proof {
            let c = cells@;
            let ps = points(stack@);
            assert(ps =~= ps0.push(q@));
            lemma_count_update(c0, i as int, first, fill);
            assert(o[i as int] == first);
            crate::geometry::lemma_index_in_range(size, start);
            crate::geometry::lemma_index_in_range(size, cur);
            assert(changed(size, o, c, first, fill, start));
            assert(changed(size, o, c, first, fill, cur));
            assert forall|j: int| 0 <= j < c.len() implies c[j] == o[j] || (o[j] == first && c[j]
                == fill) by {
                if j != i {
                    assert(c[j] == c0[j]);
                }
            }
            let k = choose|k: nat| reach(size, o, first, start, cur, k);
            assert(reach(size, o, first, start, q@, k + 1));
            assert forall|p: (int, int)| #[trigger] changed(size, o, c, first, fill, p) implies (
            reachable(size, o, first, start, p) && (ps.contains(p) || Some(cur) == Some(p)
                || closed_at(size, o, c, first, fill, p))) by {
                if p == q@ {
                    assert(ps[ps.len() - 1] == p);
                } else {
                    crate::geometry::lemma_index_injective(size, p, q@);
                    crate::geometry::lemma_index_in_range(size, p);
                    assert(c[size.index(p)] == c0[size.index(p)]);
                    assert(changed(size, o, c0, first, fill, p));
                    if closed_at(size, o, c0, first, fill, p) {
                        lemma_closed_update(size, o, c0, i as int, first, fill, p);
                    }
                    if ps0.contains(p) {
                        let j = choose|j: int| 0 <= j < ps0.len() && ps0[j] == p;
                        assert(ps[j] == p);
                    }
                }
            }
            assert forall|r: (int, int)| covers(size, o, c0, first, fill, r) implies #[trigger] covers(
                size,
                o,
                c,
                first,
                fill,
                r,
            ) by {
                lemma_covers_update(size, o, c0, i as int, first, fill, r);
            }
            assert forall|k: int| 0 <= k < ps.len() implies changed(
                size,
                o,
                c,
                first,
                fill,
                #[trigger] ps[k],
            ) by {
                if k < ps0.len() {
                    assert(ps[k] == ps0[k]);
                    assert(changed(size, o, c0, first, fill, ps0[k]));
                    crate::geometry::lemma_index_in_range(size, ps0[k]);
                }
            }
        }
    } else {
        proof {
            crate::geometry::lemma_index_in_range(size, q@);
        }
    }
}

/// Flood-fills the 4-connected region of cells equal to `first` around
/// `start` with `fill`, in a row-major cell array.
pub fn flood_fill(cells: &mut Vec<Cell>, size: Size, start: Point, first: Cell, fill: Cell)
    requires
        old(cells)@.len() == size.area(),
        size.holds(start@),
    ensures
        final(cells)@ == flooded(size, old(cells)@, start@, first, fill),
{
    let ghost o = cells@;
    let i0 = size.cell_index(start);
    if first == fill || cells[i0] != first {
        proof {
            lemma_flooded_unchanged(size, o, start@, first, fill);
        }
        return;
    }
    cells.set(i0, fill);
    let mut stack: Vec<Point> = Vec::new();
    stack.push(start);
    proof {
        let c = cells@;
        let ps = points(stack@);
        assert(ps[0] == start@);
        assert(reach(size, o, first, start@, start@, 0));
        assert forall|p: (int, int)| #[trigger] changed(size, o, c, first, fill, p) implies (
        reachable(size, o, first, start@, p) && ps.contains(p)) by {
            if p != start@ {
                crate::geometry::lemma_index_injective(size, p, start@);
                crate::geometry::lemma_index_in_range(size, p);
                assert(c[size.index(p)] == o[size.index(p)]);
            } else {
                assert(ps[0] == p);
            }
        }
    }
    while stack.len() > 0
        invariant
            fill_inv(size, o, cells@, first, fill, start@, points(stack@), None),
        decreases count_of(cells@, first), stack@.len(),
    {
        let ghost ps0 = points(stack@);
        let ghost c0 = cells@;
        let p = stack.pop().unwrap();
        proof {
            let ps = points(stack@);
            assert(ps =~= ps0.drop_last());
            assert(ps0[ps0.len() - 1] == p@);
            assert forall|q: (int, int)| #[trigger] changed(size, o, c0, first, fill, q) implies (
            ps.contains(q) || Some(p@) == Some(q) || closed_at(size, o, c0, first, fill, q)) by {
                if ps0.contains(q) && q != p@ {
                    let j = choose|j: int| 0 <= j < ps0.len() && ps0[j] == q;
                    assert(ps[j] == q);
                }
            }
            assert forall|k: int| 0 <= k < ps.len() implies changed(
                size,
                o,
                c0,
                first,
                fill,
                #[trigger] ps[k],
            ) by {
                assert(ps[k] == ps0[k]);
            }
        }
        let ghost c1 = cells@;
        if p.x > 0 {
            visit(
                cells,
                &mut stack,
                size,
                Point { x: p.x - 1, y: p.y },
                first,
                fill,
                Ghost(o),
                Ghost(start@),
                Ghost(p@),
            );
        }
        let ghost c2 = cells@;
        if p.x + 1 < size.width {
            visit(
                cells,
                &mut stack,
                size,
                Point { x: p.x + 1, y: p.y },
                first,
                fill,
                Ghost(o),
                Ghost(start@),
                Ghost(p@),
            );
        }
        let ghost c3 = cells@;
        if p.y > 0 {
            visit(
                cells,
                &mut stack,
                size,
                Point { x: p.x, y: p.y - 1 },
                first,
                fill,
                Ghost(o),
                Ghost(start@),
                Ghost(p@),
            );
        }
        let ghost c4 = cells@;
        if p.y + 1 < size.height {
            visit(
                cells,
                &mut stack,
                size,
                Point { x: p.x, y: p.y + 1 },
                first,
                fill,
                Ghost(o),
                Ghost(start@),
                Ghost(p@),
            );
        }
        proof {
            let c = cells@;
            let ps = points(stack@);
            assert(closed_at(size, o, c, first, fill, p@));
            assert forall|q: (int, int)| #[trigger] changed(size, o, c, first, fill, q) implies (
            ps.contains(q) || closed_at(size, o, c, first, fill, q)) by {
                assert(ps.contains(q) || Some(p@) == Some(q) || closed_at(size, o, c, first, fill, q));
            }
        }
    }
    proof {
        let c = cells@;
        assert(points(stack@) =~= seq![]);
        assert forall|i: int| 0 <= i < c.len() implies c[i] == flooded(size, o, start@, first, fill)[i] by {
            let p = size.point_at(i);
            crate::geometry::lemma_point_index(size, i);
            if reachable(size, o, first, start@, p) {
                let k = choose|k: nat| reach(size, o, first, start@, p, k);
                lemma_closed_region(size, o, c, first, fill, start@, p, k);
            } else if c[i] != o[i] {
                assert(changed(size, o, c, first, fill, p));
            }
        }
        assert(c =~= flooded(size, o, start@, first, fill));
    }
}

} // verus!
