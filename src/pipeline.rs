use crate::blocks::{BlockType, BoundingBox, OcrBlock, OcrPage, FULL_CONFIDENCE_BITS};
use crate::layout::{reading_order, sort_by_reading_order, ROW_TOLERANCE};
use crate::math::{wrap_formula, wrapped_formula};
use crate::text::{opt_chars, opt_str_chars};
use vstd::prelude::*;
use vstd::string::*;

verus! {

/// The block a whole-page text backend yields: the page text, full confidence,
/// no box, typed text, tagged with the detected language or else the hint.
pub fn whole_page_block(text: String, detected_language: Option<String>, hint: &str) -> (r: OcrBlock)
    ensures
        r.text@ == text@,
        r.confidence_bits == FULL_CONFIDENCE_BITS,
        r.bbox is None,
        r.block_type == BlockType::Text,
        detected_language is Some ==> opt_chars(r.language) == opt_chars(detected_language),
        detected_language is None ==> opt_chars(r.language) == Some(hint@),
{
    let language = match detected_language {
        Some(l) => Some(l),
        None => Some(String::from_str(hint)),
    };
    OcrBlock { text, confidence_bits: FULL_CONFIDENCE_BITS, bbox: None, block_type: BlockType::Text, language }
}

/// `m` is the least first coordinate among `points`.
pub open spec fn is_min_x(points: Seq<(u32, u32)>, m: u32) -> bool {
    (exists|i: int| 0 <= i < points.len() && points[i].0 == m) && forall|i: int| 0 <= i < points.len() ==> m <= #[trigger] points[i].0
}

/// `m` is the greatest first coordinate among `points`.
pub open spec fn is_max_x(points: Seq<(u32, u32)>, m: u32) -> bool {
    (exists|i: int| 0 <= i < points.len() && points[i].0 == m) && forall|i: int| 0 <= i < points.len() ==> m >= #[trigger] points[i].0
}

/// `m` is the least second coordinate among `points`.
pub open spec fn is_min_y(points: Seq<(u32, u32)>, m: u32) -> bool {
    (exists|i: int| 0 <= i < points.len() && points[i].1 == m) && forall|i: int| 0 <= i < points.len() ==> m <= #[trigger] points[i].1
}

/// `m` is the greatest second coordinate among `points`.
pub open spec fn is_max_y(points: Seq<(u32, u32)>, m: u32) -> bool {
    (exists|i: int| 0 <= i < points.len() && points[i].1 == m) && forall|i: int| 0 <= i < points.len() ==> m >= #[trigger] points[i].1
}

/// The smallest box that holds a polygon's corner points (x, y); `None` for no points.
pub fn points_to_bbox(points: &Vec<(u32, u32)>) -> (r: Option<BoundingBox>)
    ensures
        r is None <==> points@.len() == 0,
        r matches Some(b) ==> exists|x1: u32, y1: u32| {
            &&& is_min_x(points@, b.x)
            &&& is_min_y(points@, b.y)
            &&& is_max_x(points@, x1)
            &&& is_max_y(points@, y1)
            &&& b.width == x1 - b.x
            &&& b.height == y1 - b.y
        },
{
    if points.len() == 0 {
        return None;
    }
    let mut x0 = points[0].0;
    let mut x1 = points[0].0;
    let mut y0 = points[0].1;
    let mut y1 = points[0].1;
    let mut k: usize = 1;
    assert(points@.subrange(0, 1)[0] == points@[0]);
    while k < points.len()
        invariant
            1 <= k <= points@.len(),
            is_min_x(points@.subrange(0, k as int), x0),
            is_max_x(points@.subrange(0, k as int), x1),
            is_min_y(points@.subrange(0, k as int), y0),
            is_max_y(points@.subrange(0, k as int), y1),
        decreases points@.len() - k,
    {
        let (px, py) = points[k];
        let ghost old_sub = points@.subrange(0, k as int);
        let ghost sub = points@.subrange(0, k + 1);
        assert(forall|i: int| 0 <= i < k ==> sub[i] == old_sub[i]);
        assert(sub[k as int] == (px, py));
        if px < x0 {
            x0 = px;
        }
        if px > x1 {
            x1 = px;
        }
        if py < y0 {
            y0 = py;
        }
        if py > y1 {
            y1 = py;
        }
        proof {
            assert(is_min_x(sub, x0)) by {
                if x0 == px {
                    assert(sub[k as int].0 == x0);
                } else {
                    let i = choose|i: int| 0 <= i < old_sub.len() && old_sub[i].0 == x0;
                    assert(sub[i].0 == x0);
                }
            }
            assert(is_max_x(sub, x1)) by {
                if x1 == px {
                    assert(sub[k as int].0 == x1);
                } else {
                    let i = choose|i: int| 0 <= i < old_sub.len() && old_sub[i].0 == x1;
                    assert(sub[i].0 == x1);
                }
            }
            assert(is_min_y(sub, y0)) by {
                if y0 == py {
                    assert(sub[k as int].1 == y0);
                } else {
                    let i = choose|i: int| 0 <= i < old_sub.len() && old_sub[i].1 == y0;
                    assert(sub[i].1 == y0);
                }
            }
            assert(is_max_y(sub, y1)) by {
                if y1 == py {
                    assert(sub[k as int].1 == y1);
                } else {
                    let i = choose|i: int| 0 <= i < old_sub.len() && old_sub[i].1 == y1;
                    assert(sub[i].1 == y1);
                }
            }
        }
        k = k + 1;
    }
    assert(points@.subrange(0, points@.len() as int) =~= points@);
    Some(BoundingBox { x: x0, y: y0, width: x1 - x0, height: y1 - y0 })
}

/// A block of the structured backend: its text and confidence, the box of its
/// polygon, typed text, no language tag.
pub fn detected_block(text: String, confidence_bits: u32, points: &Vec<(u32, u32)>) -> (r: OcrBlock)
    ensures
        r.text@ == text@,
        r.confidence_bits == confidence_bits,
        r.bbox is None <==> points@.len() == 0,
        r.bbox matches Some(b) ==> exists|x1: u32, y1: u32| {
            &&& is_min_x(points@, b.x)
            &&& is_min_y(points@, b.y)
            &&& is_max_x(points@, x1)
            &&& is_max_y(points@, y1)
            &&& b.width == x1 - b.x
            &&& b.height == y1 - b.y
        },
        r.block_type == BlockType::Text,
        r.language is None,
{
    OcrBlock { text, confidence_bits, bbox: points_to_bbox(points), block_type: BlockType::Text, language: None }
}

/// `a - b`, or 0 when `b > a`.
pub open spec fn sat_sub(a: int, b: int) -> int {
    if a >= b { a - b } else { 0 }
}

/// The part of `bbox` that lies in an image of `width` x `height`: the corner
/// is clamped to the last row and column, the size to what is left of the image.
pub open spec fn clamped_box(bbox: BoundingBox, width: int, height: int) -> (int, int, int, int) {
    let x = if bbox.x <= sat_sub(width, 1) { bbox.x as int } else { sat_sub(width, 1) };
    let y = if bbox.y <= sat_sub(height, 1) { bbox.y as int } else { sat_sub(height, 1) };
    let w = if bbox.width <= sat_sub(width, x) { bbox.width as int } else { sat_sub(width, x) };
    let h = if bbox.height <= sat_sub(height, y) { bbox.height as int } else { sat_sub(height, y) };
    (x, y, w, h)
}

/// The region to crop from an image of `width` x `height` for a block's box.
pub fn crop_region(bbox: &BoundingBox, width: u32, height: u32) -> (r: BoundingBox)
    ensures
        (r.x as int, r.y as int, r.width as int, r.height as int) == clamped_box(*bbox, width as int, height as int),
        r.x as int + r.width as int <= width || width == 0,
        r.y as int + r.height as int <= height || height == 0,
{
    let x = if bbox.x <= width.saturating_sub(1) { bbox.x } else { width.saturating_sub(1) };
    let y = if bbox.y <= height.saturating_sub(1) { bbox.y } else { height.saturating_sub(1) };
    let w = if bbox.width <= width.saturating_sub(x) { bbox.width } else { width.saturating_sub(x) };
    let h = if bbox.height <= height.saturating_sub(y) { bbox.height } else { height.saturating_sub(y) };
    BoundingBox { x, y, width: w, height: h }
}

/// Language hint for recognising a formula region: the math pack and the two
/// most common natural languages.
pub const FORMULA_LANGUAGES: &'static str = "equ+eng+chi_sim";

/// Marks a formula candidate. With the text recognised again from its region,
/// the block's text becomes that text in display-math form; a block without a
/// region keeps its text. Either way it becomes a formula block.
pub fn refine_formula_block(block: &mut OcrBlock, refined: Option<&str>)
    ensures
        final(block).block_type == BlockType::Formula,
        refined is Some ==> final(block).text@ == wrapped_formula(refined.unwrap()@),
        refined is None ==> final(block).text@ == old(block).text@,
        final(block).bbox == old(block).bbox,
        final(block).confidence_bits == old(block).confidence_bits,
        opt_chars(final(block).language) == opt_chars(old(block).language),
{
    if let Some(t) = refined {
        block.text = wrap_formula(t);
    }
    block.block_type = BlockType::Formula;
}

/// Outcome of one page: its number, the recognised page and the dimensions of
/// the image recognition ran on.
#[derive(Clone, Debug)]
pub struct PageResult {
    pub page_num: usize,
    pub page: OcrPage,
    pub image_width: u32,
    pub image_height: u32,
}

/// Inserts `x` into `t` behind the last result whose page number is not larger.
pub open spec fn insert_by_page(t: Seq<PageResult>, x: PageResult) -> Seq<PageResult>
    decreases t.len(),
{
    if t.len() == 0 || t.last().page_num <= x.page_num {
        t.push(x)
    } else {
        insert_by_page(t.drop_last(), x).push(t.last())
    }
}

/// Stable insertion sort of results by page number.
pub open spec fn by_page_number(s: Seq<PageResult>) -> Seq<PageResult>
    decreases s.len(),
{
    if s.len() == 0 {
        s
    } else {
        insert_by_page(by_page_number(s.drop_last()), s.last())
    }
}

/// Page numbers never decrease along `s`.
pub open spec fn sorted_by_page(s: Seq<PageResult>) -> bool {
    forall|i: int, j: int| 0 <= i < j < s.len() ==> s[i].page_num <= s[j].page_num
}

/// Sorts page results by page number, keeping the order of equal numbers.
pub fn sort_by_page_number(results: &mut Vec<PageResult>)
    ensures
        final(results)@ == by_page_number(old(results)@),
{
    let ghost orig = old(results)@;
    let n = results.len();
    let mut rest: Vec<PageResult> = Vec::new();
    std::mem::swap(&mut rest, results);
    let mut k: usize = 0;
    while rest.len() > 0
        invariant
            n == orig.len(),
            0 <= k <= n,
            rest@ == orig.subrange(k as int, n as int),
            results@ == by_page_number(orig.subrange(0, k as int)),
        decreases rest@.len(),
    {
        let x = rest.remove(0);
        let ghost t = results@;
        let mut j: usize = results.len();
        assert(t.subrange(0, j as int) =~= t);
        assert(t.subrange(j as int, t.len() as int) =~= Seq::<PageResult>::empty());
        assert(insert_by_page(t, x) + Seq::<PageResult>::empty() =~= insert_by_page(t, x));
        while j > 0 && results[j - 1].page_num > x.page_num
            invariant
                results@ == t,
                0 <= j <= t.len(),
                insert_by_page(t, x) == insert_by_page(t.subrange(0, j as int), x) + t.subrange(j as int, t.len() as int),
            decreases j,
        {
            proof {
                let p = t.subrange(0, j as int);
                assert(p.drop_last() == t.subrange(0, j - 1));
                assert(p.last() == t[j - 1]);
                assert(insert_by_page(t.subrange(0, j - 1), x).push(t[j - 1]) + t.subrange(j as int, t.len() as int)
                    =~= insert_by_page(t.subrange(0, j - 1), x) + t.subrange(j - 1, t.len() as int));
            }
            j = j - 1;
        }
        proof {
            let p = t.subrange(0, j as int);
            if j > 0 {
                assert(p.last() == t[j - 1]);
            }
            assert(insert_by_page(p, x) == p.push(x));
            assert(t.insert(j as int, x) =~= p.push(x) + t.subrange(j as int, t.len() as int));
            assert(orig.subrange(0, k + 1).drop_last() =~= orig.subrange(0, k as int));
            assert(orig.subrange(0, k + 1).last() == orig[k as int]);
        }
        results.insert(j, x);
        k = k + 1;
        assert(rest@ =~= orig.subrange(k as int, n as int));
    }
    assert(orig.subrange(0, n as int) =~= orig);
}

proof fn lemma_insert_by_page(t: Seq<PageResult>, x: PageResult)
    requires
        sorted_by_page(t),
    ensures
        sorted_by_page(insert_by_page(t, x)),
        insert_by_page(t, x).len() == t.len() + 1,
        forall|i: int| 0 <= i < insert_by_page(t, x).len() ==>
            #[trigger] insert_by_page(t, x)[i] == x || exists|j: int| 0 <= j < t.len() && t[j] == insert_by_page(t, x)[i],
        forall|i: int| 0 <= i < insert_by_page(t, x).len() ==>
            (#[trigger] insert_by_page(t, x)[i]).page_num >= x.page_num || exists|j: int| 0 <= j < t.len() && t[j] == insert_by_page(t, x)[i],
    decreases t.len(),
{
    if t.len() == 0 || t.last().page_num <= x.page_num {
        let r = t.push(x);
        assert forall|i: int| 0 <= i < r.len() implies #[trigger] r[i] == x || exists|j: int| 0 <= j < t.len() && t[j] == r[i] by {
            if i < t.len() {
                assert(t[i] == r[i]);
            }
        }
    } else {
        let u = t.drop_last();
        lemma_insert_by_page(u, x);
        let v = insert_by_page(u, x);
        let r = v.push(t.last());
        assert forall|i: int| 0 <= i < v.len() implies v[i].page_num <= t.last().page_num by {
            if v[i] != x {
                let j = choose|j: int| 0 <= j < u.len() && u[j] == v[i];
                assert(u[j] == t[j]);
            }
        }
        assert forall|i: int| 0 <= i < r.len() implies #[trigger] r[i] == x || exists|j: int| 0 <= j < t.len() && t[j] == r[i] by {
            if i < v.len() {
                assert(r[i] == v[i]);
                if v[i] != x {
                    let j = choose|j: int| 0 <= j < u.len() && u[j] == v[i];
                    assert(t[j] == r[i]);
                }
            } else {
                assert(t[t.len() - 1] == r[i]);
            }
        }
        assert forall|i: int| 0 <= i < r.len() implies (#[trigger] r[i]).page_num >= x.page_num || exists|j: int| 0 <= j < t.len() && t[j] == r[i] by {
            if i < v.len() {
                assert(r[i] == v[i]);
                if v[i] != x {
                    let j = choose|j: int| 0 <= j < u.len() && u[j] == v[i];
                    assert(t[j] == r[i]);
                }
            } else {
                assert(t[t.len() - 1] == r[i]);
            }
        }
    }
}

/// The results of a run come out ordered by page number, whatever order the
/// pages finished in.
pub proof fn lemma_by_page_number_sorted(s: Seq<PageResult>)
    ensures
        sorted_by_page(by_page_number(s)),
        by_page_number(s).len() == s.len(),
    decreases s.len(),
{
    if s.len() > 0 {
        lemma_by_page_number_sorted(s.drop_last());
        lemma_insert_by_page(by_page_number(s.drop_last()), s.last());
    }
}


/// Puts the blocks of a page into reading order when layout ordering is on,
/// and leaves them in recognition order otherwise.
pub fn order_blocks(blocks: &mut Vec<OcrBlock>, layout: bool)
    ensures
        layout ==> final(blocks)@ == reading_order(old(blocks)@, ROW_TOLERANCE as int),
        !layout ==> final(blocks)@ == old(blocks)@,
{
    if layout {
        sort_by_reading_order(blocks);
    }
}

/// How the work on one page ended.
#[derive(Clone, Debug)]
pub enum PageOutcome {
    /// The page was recognised.
    Done(PageResult),
    /// The page failed at some step: its number and the error's description.
    Failed(usize, String),
}

/// What a run yields: the recognised pages by page number, and the failed
/// pages with their errors in the order they were recorded.
#[derive(Clone, Debug)]
pub struct RunSummary {
    pub pages: Vec<PageResult>,
    pub failures: Vec<(usize, String)>,
}

/// The recognised pages among `s`, in order.
pub open spec fn successes(s: Seq<PageOutcome>) -> Seq<PageResult>
    decreases s.len(),
{
    if s.len() == 0 {
        Seq::empty()
    } else {
        match s.last() {
            PageOutcome::Done(r) => successes(s.drop_last()).push(r),
            PageOutcome::Failed(_, _) => successes(s.drop_last()),
        }
    }
}

/// The failed pages among `s` with their error descriptions, in order.
pub open spec fn failures(s: Seq<PageOutcome>) -> Seq<(usize, Seq<char>)>
    decreases s.len(),
{
    if s.len() == 0 {
        Seq::empty()
    } else {
        match s.last() {
            PageOutcome::Done(_) => failures(s.drop_last()),
            PageOutcome::Failed(p, m) => failures(s.drop_last()).push((p, m@)),
        }
    }
}

/// Page numbers and error descriptions of recorded failures.
pub open spec fn failure_view(f: Seq<(usize, String)>) -> Seq<(usize, Seq<char>)> {
    Seq::new(f.len(), |i: int| (f[i].0, f[i].1@))
}

/// Gathers the outcomes of a run's pages: every recognised page, sorted by page
/// number, and every failure; a failed page never stops the others.
pub fn collect_outcomes(outcomes: Vec<PageOutcome>) -> (r: RunSummary)
    ensures
        r.pages@ == by_page_number(successes(outcomes@)),
        failure_view(r.failures@) == failures(outcomes@),
{
    let ghost orig = outcomes@;
    let n = outcomes.len();
    let mut rest = outcomes;
    let mut pages: Vec<PageResult> = Vec::new();
    let mut failed: Vec<(usize, String)> = Vec::new();
    let mut k: usize = 0;
    while rest.len() > 0
        invariant
            n == orig.len(),
            0 <= k <= n,
            rest@ == orig.subrange(k as int, n as int),
            pages@ == successes(orig.subrange(0, k as int)),
            failure_view(failed@) == failures(orig.subrange(0, k as int)),
        decreases rest@.len(),
    {
        let o = rest.remove(0);
        proof {
            assert(orig.subrange(0, k + 1).drop_last() =~= orig.subrange(0, k as int));
            assert(orig.subrange(0, k + 1).last() == o);
        }
        match o {
            PageOutcome::Done(p) => {
                pages.push(p);
            },
            PageOutcome::Failed(num, msg) => {
                let ghost before = failed@;
                failed.push((num, msg));
                assert(failure_view(failed@) =~= failure_view(before).push((num, msg@)));
            },
        }
        k = k + 1;
        assert(rest@ =~= orig.subrange(k as int, n as int));
    }
    assert(orig.subrange(0, n as int) =~= orig);
    sort_by_page_number(&mut pages);
    RunSummary { pages, failures: failed }
}

} // verus!
