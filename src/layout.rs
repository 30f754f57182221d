use crate::blocks::OcrBlock;
use vstd::prelude::*;

verus! {

/// Two top edges closer than this many pixels belong to the same row.
pub const ROW_TOLERANCE: u32 = 12;

/// Top-left corner of a block as (y, x); blocks without a box sit at the origin.
pub open spec fn top_left(b: OcrBlock) -> (int, int) {
    match b.bbox {
        Some(bb) => (bb.y as int, bb.x as int),
        None => (0, 0),
    }
}

/// `a` is read before `b`: in the same row (top edges at most `tol` apart) by
/// left edge, otherwise by top edge.
pub open spec fn reads_before(a: OcrBlock, b: OcrBlock, tol: int) -> bool {
    let (ay, ax) = top_left(a);
    let (by, bx) = top_left(b);
    if (ay - by <= tol && by - ay <= tol) {
        ax < bx
    } else {
        ay < by
    }
}

/// Inserts `x` into `t` behind the last block that `x` is not read before.
pub open spec fn insert_in_order(t: Seq<OcrBlock>, x: OcrBlock, tol: int) -> Seq<OcrBlock>
    decreases t.len(),
{
    if t.len() == 0 || !reads_before(x, t.last(), tol) {
        t.push(x)
    } else {
        insert_in_order(t.drop_last(), x, tol).push(t.last())
    }
}

/// Stable insertion sort of `s` by reading order.
pub open spec fn reading_order(s: Seq<OcrBlock>, tol: int) -> Seq<OcrBlock>
    decreases s.len(),
{
    if s.len() == 0 {
        s
    } else {
        insert_in_order(reading_order(s.drop_last(), tol), s.last(), tol)
    }
}

/// No block of `s` is read before the block just ahead of it.
pub open spec fn no_adjacent_inversion(s: Seq<OcrBlock>, tol: int) -> bool {
    forall|i: int| 0 <= i < s.len() - 1 ==> !reads_before(#[trigger] s[i + 1], s[i], tol)
}

proof fn lemma_reads_before_asymmetric(a: OcrBlock, b: OcrBlock, tol: int)
    requires
        reads_before(a, b, tol),
    ensures
        !reads_before(b, a, tol),
{
}

proof fn lemma_insert_in_order(t: Seq<OcrBlock>, x: OcrBlock, tol: int)
    requires
        no_adjacent_inversion(t, tol),
    ensures
        no_adjacent_inversion(insert_in_order(t, x, tol), tol),
        insert_in_order(t, x, tol).to_multiset() == t.to_multiset().insert(x),
        insert_in_order(t, x, tol).last() == x || (t.len() > 0 && insert_in_order(t, x, tol).last() == t.last()),
    decreases t.len(),
{
    broadcast use vstd::seq_lib::group_to_multiset_ensures;
    if t.len() == 0 || !reads_before(x, t.last(), tol) {
        let r = t.push(x);
        assert forall|i: int| 0 <= i < r.len() - 1 implies !reads_before(#[trigger] r[i + 1], r[i], tol) by {
            if i < t.len() - 1 {
                assert(r[i + 1] == t[i + 1] && r[i] == t[i]);
            }
        }
    } else {
        let u = t.drop_last();
        assert(no_adjacent_inversion(u, tol)) by {
            assert forall|i: int| 0 <= i < u.len() - 1 implies !reads_before(#[trigger] u[i + 1], u[i], tol) by {
                assert(u[i + 1] == t[i + 1] && u[i] == t[i]);
            }
        }
        lemma_insert_in_order(u, x, tol);
        let v = insert_in_order(u, x, tol);
        let r = v.push(t.last());
        assert(!reads_before(t.last(), v.last(), tol)) by {
            if v.last() == x {
                lemma_reads_before_asymmetric(x, t.last(), tol);
            } else {
                assert(u.len() > 0 && v.last() == u.last());
                assert(u.last() == t[t.len() - 2]);
                let k = t.len() - 2;
                assert(!reads_before(t[k + 1], t[k], tol));
                assert(t[k + 1] == t.last());
            }
        }
        assert forall|i: int| 0 <= i < r.len() - 1 implies !reads_before(#[trigger] r[i + 1], r[i], tol) by {
            if i < v.len() - 1 {
                assert(r[i + 1] == v[i + 1] && r[i] == v[i]);
            } else {
                assert(r[i + 1] == t.last() && r[i] == v.last());
            }
        }
        assert(t == u.push(t.last()));
        assert(r.to_multiset() =~= t.to_multiset().insert(x));
    }
}

/// Reading order is a rearrangement of the blocks in which no block is read
/// before the block just ahead of it.
pub proof fn lemma_reading_order_arranges(s: Seq<OcrBlock>, tol: int)
    ensures
        reading_order(s, tol).to_multiset() == s.to_multiset(),
        no_adjacent_inversion(reading_order(s, tol), tol),
    decreases s.len(),
{
    broadcast use vstd::seq_lib::group_to_multiset_ensures;
    if s.len() > 0 {
        lemma_reading_order_arranges(s.drop_last(), tol);
        lemma_insert_in_order(reading_order(s.drop_last(), tol), s.last(), tol);
        assert(s == s.drop_last().push(s.last()));
    }
}

/// The top edges of `s` fall into rows: blocks at most `tol` apart vertically
/// belong to one row, so that being within `tol` of each other is transitive.
pub open spec fn rows_separated(s: Seq<OcrBlock>, tol: int) -> bool {
    forall|i: int, j: int, k: int|
        0 <= i < s.len() && 0 <= j < s.len() && 0 <= k < s.len() && same_row(#[trigger] s[i], #[trigger] s[j], tol)
            && same_row(s[j], #[trigger] s[k], tol) ==> same_row(s[i], s[k], tol)
}

/// The top edges of `a` and `b` are at most `tol` apart.
pub open spec fn same_row(a: OcrBlock, b: OcrBlock, tol: int) -> bool {
    let (ay, ax) = top_left(a);
    let (by, bx) = top_left(b);
    ay - by <= tol && by - ay <= tol
}

/// `a` comes no later than `b` in reading order: left to right within a row,
/// rows top to bottom.
pub open spec fn row_ordered(a: OcrBlock, b: OcrBlock, tol: int) -> bool {
    let (ay, ax) = top_left(a);
    let (by, bx) = top_left(b);
    if same_row(a, b, tol) {
        ax <= bx
    } else {
        ay < by
    }
}

proof fn lemma_row_ordered_trans(a: OcrBlock, b: OcrBlock, c: OcrBlock, tol: int)
    requires
        tol >= 0,
        row_ordered(a, b, tol),
        row_ordered(b, c, tol),
        same_row(a, b, tol) && same_row(b, c, tol) ==> same_row(a, c, tol),
        same_row(a, c, tol) && same_row(c, b, tol) ==> same_row(a, b, tol),
        same_row(b, a, tol) && same_row(a, c, tol) ==> same_row(b, c, tol),
    ensures
        row_ordered(a, c, tol),
{
}

proof fn lemma_sorted_rows(r: Seq<OcrBlock>, tol: int, j: int)
    requires
        tol >= 0,
        no_adjacent_inversion(r, tol),
        rows_separated(r, tol),
        0 <= j < r.len(),
    ensures
        forall|i: int| 0 <= i < j ==> row_ordered(#[trigger] r[i], r[j], tol),
    decreases j,
{
    if j > 0 {
        lemma_sorted_rows(r, tol, j - 1);
        let p = j - 1;
        assert(!reads_before(r[p + 1], r[p], tol));
        assert forall|i: int| 0 <= i < j implies row_ordered(#[trigger] r[i], r[j], tol) by {
            if i < p {
                assert(row_ordered(r[i], r[p], tol));
                assert(same_row(r[i], r[p], tol) && same_row(r[p], r[j], tol) ==> same_row(r[i], r[j], tol));
                assert(same_row(r[i], r[j], tol) && same_row(r[j], r[p], tol) ==> same_row(r[i], r[p], tol));
                assert(same_row(r[p], r[i], tol) && same_row(r[i], r[j], tol) ==> same_row(r[p], r[j], tol));
                lemma_row_ordered_trans(r[i], r[p], r[j], tol);
            }
        }
    }
}

/// When the blocks fall into rows, reading order puts them row by row, top to
/// bottom, and left to right within each row: every block comes no later than
/// every block behind it.
pub proof fn lemma_reading_order_rows(s: Seq<OcrBlock>, tol: int)
    requires
        tol >= 0,
        rows_separated(s, tol),
    ensures
        forall|i: int, j: int| 0 <= i < j < s.len() ==> row_ordered(
            #[trigger] reading_order(s, tol)[i],
            #[trigger] reading_order(s, tol)[j],
            tol,
        ),
{
    broadcast use vstd::seq_lib::group_to_multiset_ensures;
    let r = reading_order(s, tol);
    lemma_reading_order_arranges(s, tol);
    assert(r.len() == r.to_multiset().len());
    assert(s.len() == s.to_multiset().len());
    assert(r.len() == s.len());
    assert forall|i: int| 0 <= i < r.len() implies exists|k: int| 0 <= k < s.len() && s[k] == #[trigger] r[i] by {
        assert(r.to_multiset().count(r[i]) > 0);
        assert(s.contains(r[i]));
    }
    assert(rows_separated(r, tol)) by {
        assert forall|i: int, j: int, k: int|
            0 <= i < r.len() && 0 <= j < r.len() && 0 <= k < r.len() && same_row(#[trigger] r[i], #[trigger] r[j], tol)
                && same_row(r[j], #[trigger] r[k], tol) implies same_row(r[i], r[k], tol) by {
            let a = choose|a: int| 0 <= a < s.len() && s[a] == r[i];
            let b = choose|b: int| 0 <= b < s.len() && s[b] == r[j];
            let c = choose|c: int| 0 <= c < s.len() && s[c] == r[k];
            assert(same_row(s[a], s[b], tol) && same_row(s[b], s[c], tol));
        }
    }
    assert forall|i: int, j: int| 0 <= i < j < s.len() implies row_ordered(
        #[trigger] reading_order(s, tol)[i],
        #[trigger] reading_order(s, tol)[j],
        tol,
    ) by {
        lemma_sorted_rows(r, tol, j);
    }
}

fn top_left_of(b: &OcrBlock) -> (r: (u32, u32))
    ensures
        (r.0 as int, r.1 as int) == top_left(*b),
{
    match &b.bbox {
        Some(bb) => (bb.y, bb.x),
        None => (0, 0),
    }
}

fn is_read_before(a: &OcrBlock, b: &OcrBlock, tol: u32) -> (r: bool)
    ensures
        r == reads_before(*a, *b, tol as int),
{
    let (ay, ax) = top_left_of(a);
    let (by, bx) = top_left_of(b);
    let dy = if ay >= by { ay - by } else { by - ay };
    if dy <= tol {
        ax < bx
    } else {
        ay < by
    }
}

/// Sorts blocks into reading order, rows `tolerance` pixels tall, keeping the
/// recognition order of blocks that compare equal.
pub fn sort_by_reading_order_with(blocks: &mut Vec<OcrBlock>, tolerance: u32)
    ensures
        final(blocks)@ == reading_order(old(blocks)@, tolerance as int),
{
    let ghost orig = old(blocks)@;
    let tol = Ghost(tolerance as int);
    let n = blocks.len();
    let mut rest: Vec<OcrBlock> = Vec::new();
    std::mem::swap(&mut rest, blocks);
    let mut k: usize = 0;
    while rest.len() > 0
        invariant
            n == orig.len(),
            0 <= k <= n,
            rest@ == orig.subrange(k as int, n as int),
            blocks@ == reading_order(orig.subrange(0, k as int), tol@),
            tol@ == tolerance as int,
        decreases rest@.len(),
    {
        let x = rest.remove(0);
        let ghost t = blocks@;
        let mut j: usize = blocks.len();
        assert(t.subrange(0, j as int) =~= t);
        assert(t.subrange(j as int, t.len() as int) =~= Seq::<OcrBlock>::empty());
        assert(insert_in_order(t, x, tol@) + Seq::<OcrBlock>::empty() =~= insert_in_order(t, x, tol@));
        while j > 0 && is_read_before(&x, &blocks[j - 1], tolerance)
            invariant
                blocks@ == t,
                0 <= j <= t.len(),
                insert_in_order(t, x, tol@) == insert_in_order(t.subrange(0, j as int), x, tol@) + t.subrange(j as int, t.len() as int),
                tol@ == tolerance as int,
            decreases j,
        {
            proof {
                let p = t.subrange(0, j as int);
                assert(p.drop_last() == t.subrange(0, j - 1));
                assert(p.last() == t[j - 1]);
                assert(insert_in_order(t.subrange(0, j - 1), x, tol@).push(t[j - 1]) + t.subrange(j as int, t.len() as int)
                    =~= insert_in_order(t.subrange(0, j - 1), x, tol@) + t.subrange(j - 1, t.len() as int));
            }
            j = j - 1;
        }
        proof {
            let p = t.subrange(0, j as int);
            if j > 0 {
                assert(p.last() == t[j - 1]);
            }
            assert(insert_in_order(p, x, tol@) == p.push(x));
            assert(t.insert(j as int, x) =~= p.push(x) + t.subrange(j as int, t.len() as int));
            assert(orig.subrange(0, k + 1).drop_last() =~= orig.subrange(0, k as int));
            assert(orig.subrange(0, k + 1).last() == orig[k as int]);
            assert(x == orig[k as int]);
        }
        blocks.insert(j, x);
        k = k + 1;
        assert(rest@ =~= orig.subrange(k as int, n as int));
    }
    assert(orig.subrange(0, n as int) =~= orig);
}

/// Sorts blocks into reading order: top to bottom by rows of `ROW_TOLERANCE`
/// pixels, left to right within a row, blocks without a box first.
pub fn sort_by_reading_order(blocks: &mut Vec<OcrBlock>)
    ensures
        final(blocks)@ == reading_order(old(blocks)@, ROW_TOLERANCE as int),
{
    sort_by_reading_order_with(blocks, ROW_TOLERANCE);
}

} // verus!
