use vstd::prelude::*;

verus! {

/// Number of grey levels of a single-channel image.
pub const LEVELS: usize = 256;

/// Largest number of pixels an image may have, so that the threshold scores fit in 128 bits.
pub const MAX_PIXELS: u64 = 0x1000_0000;

/// Sum of the first `t` bins of a histogram.
pub open spec fn hist_weight(h: Seq<u64>, t: int) -> int
    decreases t,
{
    if t <= 0 {
        0
    } else {
        hist_weight(h, t - 1) + h[t - 1] as int
    }
}

/// Sum of `level * count` over the first `t` bins of a histogram.
pub open spec fn hist_moment(h: Seq<u64>, t: int) -> int
    decreases t,
{
    if t <= 0 {
        0
    } else {
        hist_moment(h, t - 1) + (t - 1) * h[t - 1] as int
    }
}

/// Numerator of the between-class variance of the split of a histogram into
/// the levels below `t` and the levels at or above `t`. With
/// `d = moment_below * n - total_moment * weight_below`, the variance
/// `w_b * w_f * (mean_b - mean_f)^2` equals `d * d / (w_b * w_f)`; it is 0
/// when a class is empty.
pub open spec fn otsu_num(h: Seq<u64>, t: int) -> int {
    let n = hist_weight(h, 256);
    let s = hist_moment(h, 256);
    let wb = hist_weight(h, t);
    let sb = hist_moment(h, t);
    if wb == 0 || wb == n {
        0
    } else {
        let d = sb * n - s * wb;
        d * d
    }
}

/// Denominator of the between-class variance: `w_b * w_f`, or 1 when a class is empty.
pub open spec fn otsu_den(h: Seq<u64>, t: int) -> int {
    let n = hist_weight(h, 256);
    let wb = hist_weight(h, t);
    if wb == 0 || wb == n {
        1
    } else {
        wb * (n - wb)
    }
}

/// The split at `u` has a between-class variance at most that of the split at `t`.
pub open spec fn variance_le(h: Seq<u64>, u: int, t: int) -> bool {
    otsu_num(h, u) * otsu_den(h, t) <= otsu_num(h, t) * otsu_den(h, u)
}

/// `t` is the smallest level whose split has the largest between-class variance.
pub open spec fn is_otsu_threshold(h: Seq<u64>, t: int) -> bool {
    &&& 0 <= t < 256
    &&& forall|u: int| 0 <= u < 256 ==> variance_le(h, u, t)
    &&& forall|u: int| 0 <= u < t ==> !variance_le(h, t, u)
}

proof fn lemma_weight_mono(h: Seq<u64>, t: int, u: int)
    requires
        0 <= t <= u,
    ensures
        hist_weight(h, t) <= hist_weight(h, u),
        hist_moment(h, t) <= hist_moment(h, u),
    decreases u - t,
{
    if t < u {
        lemma_weight_mono(h, t, u - 1);
        assert((u - 1) * h[u - 1] as int >= 0) by (nonlinear_arith)
            requires u - 1 >= 0, h[u - 1] >= 0;
    }
}

proof fn lemma_moment_bound(h: Seq<u64>, t: int)
    requires
        0 <= t <= 256,
    ensures
        hist_moment(h, t) <= 255 * hist_weight(h, t),
    decreases t,
{
    if t > 0 {
        lemma_moment_bound(h, t - 1);
        assert((t - 1) * h[t - 1] as int <= 255 * h[t - 1] as int) by (nonlinear_arith)
            requires t - 1 <= 255, h[t - 1] >= 0;
    }
}

/// Comparing `(qa * da + ra) / da` with `(qb * db + rb) / db` by quotients,
/// then by cross-multiplied remainders.
proof fn lemma_fraction_cmp(qa: int, ra: int, da: int, qb: int, rb: int, db: int)
    requires
        da > 0,
        db > 0,
        0 <= ra < da,
        0 <= rb < db,
        qa >= 0,
        qb >= 0,
    ensures
        ((qa * da + ra) * db > (qb * db + rb) * da) == (qa > qb || (qa == qb && ra * db > rb * da)),
{
    if qa > qb {
        assert((qa * da + ra) * db > (qb * db + rb) * da) by (nonlinear_arith)
            requires da > 0, db > 0, 0 <= ra < da, 0 <= rb < db, qa >= qb + 1;
    } else if qa < qb {
        assert((qa * da + ra) * db < (qb * db + rb) * da) by (nonlinear_arith)
            requires da > 0, db > 0, 0 <= ra < da, 0 <= rb < db, qb >= qa + 1;
    } else {
        assert((qa * da + ra) * db - (qb * db + rb) * da == ra * db - rb * da) by (nonlinear_arith)
            requires qa == qb;
    }
}

proof fn lemma_den_pos(h: Seq<u64>, u: int)
    requires
        0 <= u <= 256,
    ensures
        otsu_den(h, u) > 0,
{
    lemma_weight_mono(h, u, 256);
    lemma_weight_mono(h, 0, u);
    let n = hist_weight(h, 256);
    let wb = hist_weight(h, u);
    if !(wb == 0 || wb == n) {
        assert(wb * (n - wb) > 0) by (nonlinear_arith)
            requires 0 < wb < n;
    }
}

proof fn lemma_ratio_trans(a: int, da: int, b: int, db: int, c: int, dc: int)
    requires
        da > 0,
        db > 0,
        dc > 0,
        a * db <= b * da,
        b * dc < c * db,
    ensures
        a * dc < c * da,
{
    assert(a * db * dc <= b * da * dc) by (nonlinear_arith)
        requires a * db <= b * da, dc > 0;
    assert(b * dc * da < c * db * da) by (nonlinear_arith)
        requires b * dc < c * db, da > 0;
    assert(a * dc * db < c * da * db) by (nonlinear_arith)
        requires a * db * dc <= b * da * dc, b * dc * da < c * db * da;
    assert(a * dc < c * da) by (nonlinear_arith)
        requires a * dc * db < c * da * db, db > 0;
}

/// Exact between-class variance of the split at `t`, as quotient, remainder and denominator.
fn split_variance(n: u64, s: u64, wb: u64, sb: u64, h: Ghost<Seq<u64>>, t: Ghost<int>) -> (r: (u128, u128, u128))
    requires
        n == hist_weight(h@, 256),
        s == hist_moment(h@, 256),
        wb == hist_weight(h@, t@),
        sb == hist_moment(h@, t@),
        n <= MAX_PIXELS,
        s <= 255 * n,
        wb <= n,
        sb <= 255 * wb,
    ensures
        r.2 > 0,
        r.2 == otsu_den(h@, t@),
        r.2 <= 0x40_0000_0000_0000,
        r.0 * r.2 + r.1 == otsu_num(h@, t@),
        r.1 < r.2,
{
    if wb == 0 || wb == n {
        return (0, 0, 1);
    }
    proof {
        assert((sb as int) * (n as int) <= 255 * 0x1000_0000 * 0x1000_0000) by (nonlinear_arith)
            requires sb <= 255 * wb, wb <= n, n <= 0x1000_0000;
        assert((s as int) * (wb as int) <= 255 * 0x1000_0000 * 0x1000_0000) by (nonlinear_arith)
            requires s <= 255 * n, wb <= n, n <= 0x1000_0000;
        assert((wb as int) * ((n - wb) as int) <= 0x40_0000_0000_0000) by (nonlinear_arith)
            requires 0 < wb < n, n <= 0x1000_0000;
        assert((wb as int) * ((n - wb) as int) > 0) by (nonlinear_arith)
            requires 0 < wb < n;
    }
    let a: u128 = (sb as u128) * (n as u128);
    let b: u128 = (s as u128) * (wb as u128);
    let d: u128 = if a >= b { a - b } else { b - a };
    proof {
        assert(d * d <= 0xffff_ffff_ffff_ffff_ffff_ffff_ffff_ffffu128) by (nonlinear_arith)
            requires d <= 255 * 0x1000_0000 * 0x1000_0000;
        let di = sb * n - s * wb;
        assert(d * d == di * di) by (nonlinear_arith)
            requires d == a - b || d == b - a, a - b == di;
    }
    let den: u128 = (wb as u128) * ((n - wb) as u128);
    let num: u128 = d * d;
    proof {
        vstd::arithmetic::div_mod::lemma_fundamental_div_mod(num as int, den as int);
        let q = num as int / den as int;
        assert(den * q == q * den) by (nonlinear_arith);
        assert(num == otsu_num(h@, t@));
    }
    (num / den, num % den, den)
}

/// Otsu's threshold of a 256-bin histogram, over the exact between-class variance.
pub fn otsu_threshold(histogram: &Vec<u64>) -> (r: u8)
    requires
        histogram@.len() == LEVELS,
        hist_weight(histogram@, 256) <= MAX_PIXELS,
    ensures
        is_otsu_threshold(histogram@, r as int),
{
    let ghost h = histogram@;
    let mut n: u64 = 0;
    let mut s: u64 = 0;
    let mut i: usize = 0;
    while i < LEVELS
        invariant
            h == histogram@,
            h.len() == LEVELS,
            hist_weight(h, 256) <= MAX_PIXELS,
            0 <= i <= LEVELS,
            n == hist_weight(h, i as int),
            s == hist_moment(h, i as int),
        decreases LEVELS - i,
    {
        proof {
            lemma_weight_mono(h, i as int + 1, 256);
            lemma_moment_bound(h, 256);
        }
        n = n + histogram[i];
        s = s + (i as u64) * histogram[i];
        i = i + 1;
    }
    proof {
        lemma_moment_bound(h, 256);
    }
    let mut wb: u64 = 0;
    let mut sb: u64 = 0;
    let mut best: u8 = 0;
    let (mut bq, mut br, mut bd) = split_variance(n, s, wb, sb, Ghost(h), Ghost(0));
    let mut t: usize = 0;
    while t < LEVELS
        invariant
            h == histogram@,
            h.len() == LEVELS,
            n == hist_weight(h, 256),
            s == hist_moment(h, 256),
            n <= MAX_PIXELS,
            s <= 255 * n,
            0 <= t <= LEVELS,
            wb == hist_weight(h, t as int),
            sb == hist_moment(h, t as int),
            best < 256,
            best as int <= t,
            t > 0 ==> best < t,
            bd > 0,
            bd <= 0x40_0000_0000_0000,
            br < bd,
            bd == otsu_den(h, best as int),
            bq * bd + br == otsu_num(h, best as int),
            forall|u: int| 0 <= u < t ==> variance_le(h, u, best as int),
            forall|u: int| 0 <= u < best ==> !variance_le(h, best as int, u),
        decreases LEVELS - t,
    {
        proof {
            lemma_weight_mono(h, t as int, 256);
            lemma_moment_bound(h, t as int);
            lemma_weight_mono(h, t as int + 1, 256);
        }
        let (q, r, d) = split_variance(n, s, wb, sb, Ghost(h), Ghost(t as int));
        proof {
            assert((r as int) * (bd as int) <= 0x40_0000_0000_0000 * 0x40_0000_0000_0000) by (nonlinear_arith)
                requires r < d, d <= 0x40_0000_0000_0000, bd <= 0x40_0000_0000_0000;
            assert((br as int) * (d as int) <= 0x40_0000_0000_0000 * 0x40_0000_0000_0000) by (nonlinear_arith)
                requires br < bd, d <= 0x40_0000_0000_0000, bd <= 0x40_0000_0000_0000;
            lemma_fraction_cmp(q as int, r as int, d as int, bq as int, br as int, bd as int);
        }
        let better = q > bq || (q == bq && r * bd > br * d);
        proof {
            let tt = t as int;
            let bb = best as int;
            assert(better == !variance_le(h, tt, bb));
        }
        if better {
            proof {
                let tt = t as int;
                let bb = best as int;
                assert forall|u: int| 0 <= u < t + 1 implies variance_le(h, u, tt) by {
                    if u != tt {
                        lemma_den_pos(h, u);
                        lemma_den_pos(h, bb);
                        lemma_den_pos(h, tt);
                        assert(variance_le(h, u, bb));
                        assert(!variance_le(h, tt, bb));
                        lemma_ratio_trans(otsu_num(h, u), otsu_den(h, u), otsu_num(h, bb), otsu_den(h, bb), otsu_num(h, tt), otsu_den(h, tt));
                    }
                }
                assert forall|u: int| 0 <= u < tt implies !variance_le(h, tt, u) by {
                    lemma_den_pos(h, u);
                    lemma_den_pos(h, bb);
                    lemma_den_pos(h, tt);
                    assert(variance_le(h, u, bb));
                    assert(!variance_le(h, tt, bb));
                    lemma_ratio_trans(otsu_num(h, u), otsu_den(h, u), otsu_num(h, bb), otsu_den(h, bb), otsu_num(h, tt), otsu_den(h, tt));
                }
            }
            best = t as u8;
            bq = q;
            br = r;
            bd = d;
        }
        wb = wb + histogram[t];
        sb = sb + (t as u64) * histogram[t];
        t = t + 1;
    }
    best
}

proof fn lemma_two_bins(h: Seq<u64>, a: int, b: int, t: int)
    requires
        h.len() == 256,
        0 <= a < b < 256,
        forall|v: int| 0 <= v < 256 && v != a && v != b ==> h[v] == 0,
        0 <= t <= 256,
    ensures
        hist_weight(h, t) == (if t > a { h[a] as int } else { 0 }) + (if t > b { h[b] as int } else { 0 }),
        hist_moment(h, t) == (if t > a { a * h[a] } else { 0 }) + (if t > b { b * h[b] } else { 0 }),
    decreases t,
{
    if t > 0 {
        lemma_two_bins(h, a, b, t - 1);
        assert(h[t - 1] == 0 || t - 1 == a || t - 1 == b);
    }
}

/// An image of two levels `a` and `b`, with at least one level between them,
/// has Otsu threshold `a + 1`: the threshold lies strictly between the two
/// clusters, and binarisation sends exactly the pixels of level `a` to black.
pub proof fn lemma_otsu_two_levels(h: Seq<u64>, a: int, b: int)
    requires
        h.len() == 256,
        0 <= a,
        a + 1 < b < 256,
        h[a] > 0,
        h[b] > 0,
        forall|v: int| 0 <= v < 256 && v != a && v != b ==> h[v] == 0,
    ensures
        is_otsu_threshold(h, a + 1),
        a < a + 1 < b,
{
    let ca = h[a] as int;
    let cb = h[b] as int;
    lemma_two_bins(h, a, b, 256);
    lemma_two_bins(h, a, b, a + 1);
    let n = ca + cb;
    let st = a * ca + b * cb;
    let d = (a * ca) * n - st * ca;
    assert(d == ca * cb * (a - b)) by (nonlinear_arith)
        requires d == (a * ca) * n - st * ca, n == ca + cb, st == a * ca + b * cb;
    assert(ca * cb > 0) by (nonlinear_arith)
        requires ca > 0, cb > 0;
    assert(d != 0) by (nonlinear_arith)
        requires d == ca * cb * (a - b), ca * cb > 0, a < b;
    assert(d * d > 0) by (nonlinear_arith)
        requires d != 0;
    let top = otsu_num(h, a + 1);
    let bottom = otsu_den(h, a + 1);
    assert(top == d * d);
    assert(bottom == ca * (n - ca));
    assert(bottom > 0) by (nonlinear_arith)
        requires bottom == ca * (n - ca), ca > 0, n - ca == cb, cb > 0;
    let t = a + 1;
    assert forall|u: int| 0 <= u < 256 implies #[trigger] variance_le(h, u, t) by {
        lemma_two_bins(h, a, b, u);
        lemma_den_pos(h, u);
        if a < u <= b {
            assert(otsu_num(h, u) == top);
            assert(otsu_den(h, u) == bottom);
        } else {
            assert(otsu_num(h, u) == 0);
            assert(top * otsu_den(h, u) >= 0) by (nonlinear_arith)
                requires top > 0, otsu_den(h, u) > 0;
        }
    }
    assert forall|u: int| 0 <= u < t implies !#[trigger] variance_le(h, t, u) by {
        lemma_two_bins(h, a, b, u);
        assert(otsu_num(h, u) == 0);
        assert(otsu_den(h, u) == 1);
    }
}

/// A single-channel 8-bit image stored row by row.
pub struct GrayImage {
    pub width: u32,
    pub height: u32,
    pub pixels: Vec<u8>,
}

impl GrayImage {
    /// One byte per pixel, and few enough pixels for the threshold arithmetic.
    pub open spec fn wf(&self) -> bool {
        &&& self.pixels@.len() == self.width as int * self.height as int
        &&& self.pixels@.len() <= MAX_PIXELS
    }
}

/// Number of occurrences of level `v` in `s`.
pub open spec fn count_level(s: Seq<u8>, v: int) -> nat
    decreases s.len(),
{
    if s.len() == 0 {
        0
    } else {
        count_level(s.drop_last(), v) + if s.last() as int == v { 1nat } else { 0nat }
    }
}

proof fn lemma_weight_bump(h: Seq<u64>, p: int, t: int)
    requires
        0 <= p < h.len(),
        0 <= t <= h.len(),
        h[p] < u64::MAX,
    ensures
        hist_weight(h.update(p, (h[p] + 1) as u64), t) == hist_weight(h, t) + if p < t { 1int } else { 0int },
    decreases t,
{
    if t > 0 {
        lemma_weight_bump(h, p, t - 1);
    }
}

/// Histogram of the levels of a pixel buffer: bin `v` counts the pixels of level `v`.
pub fn histogram(pixels: &Vec<u8>) -> (h: Vec<u64>)
    requires
        pixels@.len() <= MAX_PIXELS,
    ensures
        h@.len() == LEVELS,
        forall|v: int| 0 <= v < 256 ==> #[trigger] h@[v] == count_level(pixels@, v),
        hist_weight(h@, 256) == pixels@.len(),
{
    let mut h: Vec<u64> = Vec::new();
    let mut k: usize = 0;
    while k < LEVELS
        invariant
            0 <= k <= LEVELS,
            h@.len() == k,
            forall|v: int| 0 <= v < k ==> #[trigger] h@[v] == 0,
        decreases LEVELS - k,
    {
        h.push(0);
        k = k + 1;
    }
    proof {
        assert forall|t: int| 0 <= t <= 256 implies hist_weight(h@, t) == 0 by {
            lemma_zero_weight(h@, t);
        }
    }
    let mut i: usize = 0;
    while i < pixels.len()
        invariant
            0 <= i <= pixels@.len(),
            pixels@.len() <= MAX_PIXELS,
            h@.len() == LEVELS,
            forall|v: int| 0 <= v < 256 ==> #[trigger] h@[v] == count_level(pixels@.subrange(0, i as int), v),
            hist_weight(h@, 256) == i,
        decreases pixels@.len() - i,
    {
        let p = pixels[i] as usize;
        let ghost before = h@;
        proof {
            let grown = pixels@.subrange(0, i as int + 1);
            assert(grown.drop_last() == pixels@.subrange(0, i as int));
            assert(h@[p as int] <= i) by {
                lemma_bin_le_weight(h@, p as int, 256);
            }
            lemma_weight_bump(h@, p as int, 256);
        }
        let c = h[p];
        h.set(p, c + 1);
        proof {
            let grown = pixels@.subrange(0, i as int + 1);
            assert(grown.drop_last() == pixels@.subrange(0, i as int));
            assert forall|v: int| 0 <= v < 256 implies #[trigger] h@[v] == count_level(grown, v) by {
                assert(count_level(grown, v) == count_level(pixels@.subrange(0, i as int), v) + if pixels@[i as int] as int == v { 1nat } else { 0nat });
            }
        }
        i = i + 1;
    }
    assert(pixels@.subrange(0, pixels@.len() as int) == pixels@);
    h
}

proof fn lemma_zero_weight(h: Seq<u64>, t: int)
    requires
        0 <= t <= h.len(),
        forall|v: int| 0 <= v < h.len() ==> #[trigger] h[v] == 0,
    ensures
        hist_weight(h, t) == 0,
    decreases t,
{
    if t > 0 {
        lemma_zero_weight(h, t - 1);
    }
}

proof fn lemma_bin_le_weight(h: Seq<u64>, p: int, t: int)
    requires
        0 <= p < t <= h.len(),
    ensures
        h[p] <= hist_weight(h, t),
    decreases t,
{
    if p < t - 1 {
        lemma_bin_le_weight(h, p, t - 1);
    }
    lemma_weight_mono(h, 0, t - 1);
}

/// Level of a pixel after binarisation at threshold `t`.
pub open spec fn binarized(p: u8, t: u8) -> u8 {
    if p < t { 0 } else { 255 }
}

/// Maps every pixel below `t` to 0 and every pixel at or above it to 255.
pub fn binarize(pixels: &Vec<u8>, t: u8) -> (r: Vec<u8>)
    ensures
        r@.len() == pixels@.len(),
        forall|i: int| 0 <= i < r@.len() ==> #[trigger] r@[i] == binarized(pixels@[i], t),
{
    let mut r: Vec<u8> = Vec::with_capacity(pixels.len());
    let mut i: usize = 0;
    while i < pixels.len()
        invariant
            0 <= i <= pixels@.len(),
            r@.len() == i,
            forall|j: int| 0 <= j < i ==> #[trigger] r@[j] == binarized(pixels@[j], t),
        decreases pixels@.len() - i,
    {
        if pixels[i] < t {
            r.push(0);
        } else {
            r.push(255);
        }
        i = i + 1;
    }
    r
}


/// Number of elements of `s` at or below level `v`.
pub open spec fn count_le(s: Seq<u8>, v: int) -> nat
    decreases s.len(),
{
    if s.len() == 0 {
        0
    } else {
        count_le(s.drop_last(), v) + if s.last() as int <= v { 1nat } else { 0nat }
    }
}

/// Number of elements of `s` strictly below level `v`.
pub open spec fn count_lt(s: Seq<u8>, v: int) -> nat
    decreases s.len(),
{
    if s.len() == 0 {
        0
    } else {
        count_lt(s.drop_last(), v) + if (s.last() as int) < v { 1nat } else { 0nat }
    }
}

/// `m` is a median of `s`: at most half of `s` lies below it and more than half at or below it.
pub open spec fn is_median(s: Seq<u8>, m: int) -> bool {
    &&& count_lt(s, m) <= s.len() / 2
    &&& count_le(s, m) > s.len() / 2
}

/// The smallest level from `v` upwards at or below which more than half of `s` lies.
pub open spec fn least_reaching(s: Seq<u8>, v: int) -> int
    decreases 255 - v,
{
    if v >= 255 || count_le(s, v) > s.len() / 2 {
        v
    } else {
        least_reaching(s, v + 1)
    }
}

/// The median level of `s`.
pub open spec fn median_level(s: Seq<u8>) -> int {
    least_reaching(s, 0)
}

proof fn lemma_count_le_all(s: Seq<u8>)
    ensures
        count_le(s, 255) == s.len(),
    decreases s.len(),
{
    if s.len() > 0 {
        lemma_count_le_all(s.drop_last());
    }
}

proof fn lemma_count_lt_zero(s: Seq<u8>)
    ensures
        count_lt(s, 0) == 0,
    decreases s.len(),
{
    if s.len() > 0 {
        lemma_count_lt_zero(s.drop_last());
    }
}

proof fn lemma_count_lt_le(s: Seq<u8>, v: int)
    ensures
        count_lt(s, v) == count_le(s, v - 1),
    decreases s.len(),
{
    if s.len() > 0 {
        lemma_count_lt_le(s.drop_last(), v);
    }
}

proof fn lemma_count_le_lt_mono(s: Seq<u8>, u: int, v: int)
    requires
        u < v,
    ensures
        count_le(s, u) <= count_lt(s, v),
    decreases s.len(),
{
    if s.len() > 0 {
        lemma_count_le_lt_mono(s.drop_last(), u, v);
    }
}

proof fn lemma_level_present(s: Seq<u8>, v: int)
    requires
        count_le(s, v) > count_lt(s, v),
    ensures
        exists|i: int| 0 <= i < s.len() && s[i] as int == v,
    decreases s.len(),
{
    if s.last() as int != v {
        lemma_level_present(s.drop_last(), v);
        let i = choose|i: int| 0 <= i < s.drop_last().len() && s.drop_last()[i] as int == v;
        assert(s[i] as int == v);
    } else {
        assert(s[s.len() - 1] as int == v);
    }
}

proof fn lemma_least_reaching(s: Seq<u8>, v: int)
    requires
        0 <= v <= 255,
        s.len() > 0,
    ensures
        v <= least_reaching(s, v) <= 255,
        count_le(s, least_reaching(s, v)) > s.len() / 2,
        forall|u: int| v <= u < least_reaching(s, v) ==> count_le(s, u) <= s.len() / 2,
    decreases 255 - v,
{
    if v >= 255 {
        lemma_count_le_all(s);
    } else if count_le(s, v) <= s.len() / 2 {
        lemma_least_reaching(s, v + 1);
    }
}

/// The median level of a non-empty sequence is a median of it, and it occurs in it.
pub proof fn lemma_median_level(s: Seq<u8>)
    requires
        s.len() > 0,
    ensures
        is_median(s, median_level(s)),
        exists|i: int| 0 <= i < s.len() && s[i] as int == median_level(s),
{
    let r = median_level(s);
    lemma_least_reaching(s, 0);
    if r == 0 {
        lemma_count_lt_zero(s);
    } else {
        lemma_count_lt_le(s, r);
    }
    lemma_level_present(s, r);
}

/// A sequence has at most one median level.
pub proof fn lemma_median_unique(s: Seq<u8>, m1: int, m2: int)
    requires
        is_median(s, m1),
        is_median(s, m2),
    ensures
        m1 == m2,
{
    if m1 < m2 {
        lemma_count_le_lt_mono(s, m1, m2);
    } else if m2 < m1 {
        lemma_count_le_lt_mono(s, m2, m1);
    }
}

/// The median of a window in which all but one value equal `v` is `v`:
/// a single outlier is removed by the median filter.
pub proof fn lemma_outlier_removed(s: Seq<u8>, k: int, v: u8)
    requires
        s.len() == 9,
        0 <= k < 9,
        forall|i: int| 0 <= i < 9 && i != k ==> s[i] == v,
    ensures
        median_level(s) == v as int,
{
    lemma_outlier_counts(s, k, v);
    lemma_median_level(s);
    lemma_median_unique(s, median_level(s), v as int);
}

proof fn lemma_outlier_counts(s: Seq<u8>, k: int, v: u8)
    requires
        0 <= k < s.len(),
        forall|i: int| 0 <= i < s.len() && i != k ==> s[i] == v,
    ensures
        count_le(s, v as int) + 1 >= s.len(),
        count_lt(s, v as int) <= 1,
    decreases s.len(),
{
    if k < s.len() - 1 {
        lemma_outlier_counts(s.drop_last(), k, v);
    } else {
        lemma_uniform_counts(s.drop_last(), v);
    }
}

proof fn lemma_uniform_counts(s: Seq<u8>, v: u8)
    requires
        forall|i: int| 0 <= i < s.len() ==> s[i] == v,
    ensures
        count_le(s, v as int) == s.len(),
        count_lt(s, v as int) == 0,
    decreases s.len(),
{
    if s.len() > 0 {
        lemma_uniform_counts(s.drop_last(), v);
    }
}

fn count_below(w: &Vec<u8>, c: u8) -> (r: (usize, usize))
    ensures
        r.0 == count_lt(w@, c as int),
        r.1 == count_le(w@, c as int),
{
    let mut lt: usize = 0;
    let mut le: usize = 0;
    let mut j: usize = 0;
    while j < w.len()
        invariant
            0 <= j <= w@.len(),
            lt == count_lt(w@.subrange(0, j as int), c as int),
            le == count_le(w@.subrange(0, j as int), c as int),
            lt <= j,
            le <= j,
        decreases w@.len() - j,
    {
        assert(w@.subrange(0, j as int + 1).drop_last() == w@.subrange(0, j as int));
        if w[j] < c {
            lt = lt + 1;
        }
        if w[j] <= c {
            le = le + 1;
        }
        j = j + 1;
    }
    assert(w@.subrange(0, w@.len() as int) == w@);
    (lt, le)
}

/// Median of a non-empty list of levels.
pub fn median(w: &Vec<u8>) -> (r: u8)
    requires
        w@.len() > 0,
    ensures
        r as int == median_level(w@),
{
    proof {
        lemma_median_level(w@);
    }
    let half = w.len() / 2;
    let mut k: usize = 0;
    while k < w.len()
        invariant
            0 <= k <= w@.len(),
            half == w@.len() / 2,
            forall|j: int| 0 <= j < k ==> !is_median(w@, #[trigger] w@[j] as int),
        decreases w@.len() - k,
    {
        let c = w[k];
        let (lt, le) = count_below(w, c);
        if lt <= half && le > half {
            proof {
                lemma_median_level(w@);
                lemma_median_unique(w@, c as int, median_level(w@));
            }
            return c;
        }
        k = k + 1;
    }
    proof {
        lemma_median_level(w@);
        let i = choose|i: int| 0 <= i < w@.len() && w@[i] as int == median_level(w@);
        assert(!is_median(w@, w@[i] as int));
    }
    0
}

/// The 3x3 neighbourhood, row by row, of the pixel at flat index `i` of an image of width `w`.
pub open spec fn window(px: Seq<u8>, w: int, i: int) -> Seq<u8> {
    seq![
        px[i - w - 1], px[i - w], px[i - w + 1],
        px[i - 1], px[i], px[i + 1],
        px[i + w - 1], px[i + w], px[i + w + 1],
    ]
}

/// The pixel at flat index `i` lies in the first or last row or column.
pub open spec fn on_border(w: int, h: int, i: int) -> bool {
    let x = i % w;
    let y = i / w;
    x == 0 || y == 0 || x == w - 1 || y == h - 1
}

/// Level of pixel `i` after the median filter: border pixels are kept,
/// the others take the median of their 3x3 neighbourhood.
pub open spec fn denoised_level(px: Seq<u8>, w: int, h: int, i: int) -> int {
    if on_border(w, h, i) {
        px[i] as int
    } else {
        median_level(window(px, w, i))
    }
}

/// 3x3 median filter that copies the border pixels unchanged.
pub fn denoise(pixels: &Vec<u8>, width: u32, height: u32) -> (r: Vec<u8>)
    requires
        pixels@.len() == width as int * height as int,
    ensures
        r@.len() == pixels@.len(),
        forall|i: int| 0 <= i < r@.len() ==> #[trigger] r@[i] as int == denoised_level(pixels@, width as int, height as int, i),
{
    let n = pixels.len();
    let w = width as usize;
    let h = height as usize;
    let mut r: Vec<u8> = Vec::with_capacity(n);
    let mut i: usize = 0;
    let mut x: usize = 0;
    let mut y: usize = 0;
    proof {
        if n > 0 {
            assert(w > 0 && h > 0) by (nonlinear_arith)
                requires n == w * h, n > 0;
        }
    }
    while i < n
        invariant
            n == pixels@.len(),
            n == w * h,
            w == width,
            h == height,
            0 <= i <= n,
            r@.len() == i,
            i == y * w + x,
            i < n ==> x < w && y < h,
            forall|j: int| 0 <= j < i ==> #[trigger] r@[j] as int == denoised_level(pixels@, w as int, h as int, j),
        decreases n - i,
    {
        proof {
            vstd::arithmetic::div_mod::lemma_fundamental_div_mod_converse(i as int, w as int, y as int, x as int);
        }
        if x == 0 || y == 0 || x + 1 == w || y + 1 == h {
            r.push(pixels[i]);
        } else {
            proof {
                assert(i >= w + 1) by (nonlinear_arith)
                    requires i == y * w + x, y >= 1, x >= 1;
                assert(i + w + 1 < n) by (nonlinear_arith)
                    requires i == y * w + x, y + 2 <= h, x + 2 <= w, n == w * h;
            }
            let mut win: Vec<u8> = Vec::with_capacity(9);
            win.push(pixels[i - w - 1]);
            win.push(pixels[i - w]);
            win.push(pixels[i - w + 1]);
            win.push(pixels[i - 1]);
            win.push(pixels[i]);
            win.push(pixels[i + 1]);
            win.push(pixels[i + w - 1]);
            win.push(pixels[i + w]);
            win.push(pixels[i + w + 1]);
            assert(win@ == window(pixels@, w as int, i as int));
            let m = median(&win);
            r.push(m);
        }
        i = i + 1;
        if x + 1 == w {
            x = 0;
            y = y + 1;
            proof {
                assert(i == y * w) by (nonlinear_arith)
                    requires i == (y - 1) * w + (w - 1) + 1;
                if i < n {
                    assert(y < h) by (nonlinear_arith)
                        requires i == y * w, i < n, n == w * h;
                }
            }
        } else {
            x = x + 1;
            proof {
                if i < n {
                    assert(y < h) by (nonlinear_arith)
                        requires i == y * w + x, i < n, n == w * h, x < w;
                }
            }
        }
    }
    r
}


/// A pixel whose eight neighbours all have level `v` comes out of the median
/// filter with level `v`, whatever its own level was.
pub proof fn lemma_denoise_isolated_outlier(px: Seq<u8>, w: int, h: int, i: int, v: u8)
    requires
        0 <= i < px.len(),
        px.len() == w * h,
        !on_border(w, h, i),
        forall|k: int| 0 <= k < 9 && k != 4 ==> #[trigger] window(px, w, i)[k] == v,
    ensures
        denoised_level(px, w, h, i) == v as int,
{
    lemma_outlier_removed(window(px, w, i), 4, v);
}

/// An RGBA image as produced by a rasteriser: four bytes per pixel, row by row.
pub struct RawImage {
    pub width: u32,
    pub height: u32,
    pub rgba: Vec<u8>,
}

impl RawImage {
    /// Four bytes per pixel, and few enough pixels for the threshold arithmetic.
    pub open spec fn wf(&self) -> bool {
        &&& self.rgba@.len() == 4 * (self.width as int * self.height as int)
        &&& self.width as int * self.height as int <= MAX_PIXELS
    }
}

/// Luminance of an RGBA pixel buffer, one level per pixel, as the `image` crate computes it.
pub uninterp spec fn luma_of(rgba: Seq<u8>) -> Seq<u8>;

/// Relies on `image::DynamicImage::to_luma8`: converts the RGBA buffer of a
/// `width` x `height` image into its luminance buffer of `width * height` levels.
#[verifier::external_body]
fn rgba_to_luma(width: u32, height: u32, rgba: &Vec<u8>) -> (r: Vec<u8>)
    requires
        rgba@.len() == 4 * (width as int * height as int),
    ensures
        r@ == luma_of(rgba@),
        r@.len() == width as int * height as int,
{
    let buffer = image::RgbaImage::from_raw(width, height, rgba.clone()).unwrap();
    image::DynamicImage::ImageRgba8(buffer).to_luma8().into_raw()
}

/// Byte `i` of a BGRA buffer reordered to RGBA: blue and red of each pixel
/// swap places; an incomplete last pixel is dropped.
pub open spec fn rgba_from_bgra(b: Seq<u8>) -> Seq<u8> {
    Seq::new(
        (b.len() / 4 * 4) as nat,
        |i: int|
            {
                let q = i - i % 4;
                if i % 4 == 0 {
                    b[q + 2]
                } else if i % 4 == 2 {
                    b[q]
                } else {
                    b[i]
                }
            },
    )
}

/// Reorders a rasteriser's BGRA pixel buffer into RGBA.
pub fn bgra_to_rgba(bgra: &Vec<u8>) -> (r: Vec<u8>)
    ensures
        r@ == rgba_from_bgra(bgra@),
{
    let len = bgra.len();
    let n = len / 4;
    let mut r: Vec<u8> = Vec::with_capacity(len);
    let mut p: usize = 0;
    while p < n
        invariant
            len == bgra@.len(),
            n == bgra@.len() / 4,
            4 * n <= bgra@.len(),
            0 <= p <= n,
            r@.len() == 4 * p,
            forall|i: int| 0 <= i < r@.len() ==> #[trigger] r@[i] == rgba_from_bgra(bgra@)[i],
        decreases n - p,
    {
        let q = 4 * p;
        r.push(bgra[q + 2]);
        r.push(bgra[q + 1]);
        r.push(bgra[q]);
        r.push(bgra[q + 3]);
        proof {
            vstd::arithmetic::div_mod::lemma_fundamental_div_mod_converse(q as int, 4, p as int, 0);
            vstd::arithmetic::div_mod::lemma_fundamental_div_mod_converse(q + 1, 4, p as int, 1);
            vstd::arithmetic::div_mod::lemma_fundamental_div_mod_converse(q + 2, 4, p as int, 2);
            vstd::arithmetic::div_mod::lemma_fundamental_div_mod_converse(q + 3, 4, p as int, 3);
            assert(q + 4 <= (bgra@.len() / 4 * 4));
        }
        p = p + 1;
    }
    assert(r@ =~= rgba_from_bgra(bgra@));
    r
}

/// The histogram of `s` as a sequence of 256 bins.
pub open spec fn level_histogram(s: Seq<u8>) -> Seq<u64> {
    Seq::new(256, |v: int| count_level(s, v) as u64)
}

/// Otsu's threshold of the levels of `s`.
pub open spec fn otsu_level(s: Seq<u8>) -> int {
    choose|t: int| is_otsu_threshold(level_histogram(s), t)
}

/// `s` binarised at threshold `t`.
pub open spec fn binarized_seq(s: Seq<u8>, t: u8) -> Seq<u8> {
    Seq::new(s.len(), |i: int| binarized(s[i], t))
}

/// `s` median-filtered as an image of the given dimensions.
pub open spec fn denoised_seq(s: Seq<u8>, w: int, h: int) -> Seq<u8> {
    Seq::new(s.len(), |i: int| denoised_level(s, w, h, i) as u8)
}

/// The normalised form of a luminance buffer: binarised at its Otsu threshold, then median-filtered.
pub open spec fn normalized(g: Seq<u8>, w: int, h: int) -> Seq<u8> {
    denoised_seq(binarized_seq(g, otsu_level(g) as u8), w, h)
}

/// A histogram has at most one Otsu threshold.
pub proof fn lemma_otsu_unique(h: Seq<u64>, t1: int, t2: int)
    requires
        is_otsu_threshold(h, t1),
        is_otsu_threshold(h, t2),
    ensures
        t1 == t2,
{
    if t1 < t2 {
        assert(!variance_le(h, t2, t1));
        assert(variance_le(h, t2, t1));
    } else if t2 < t1 {
        assert(!variance_le(h, t1, t2));
        assert(variance_le(h, t1, t2));
    }
}

/// Otsu's threshold of the levels of a luminance buffer.
pub fn image_threshold(levels: &Vec<u8>) -> (t: u8)
    requires
        levels@.len() <= MAX_PIXELS,
    ensures
        t as int == otsu_level(levels@),
        is_otsu_threshold(level_histogram(levels@), t as int),
{
    let h = histogram(levels);
    assert(h@ =~= level_histogram(levels@));
    let t = otsu_threshold(&h);
    proof {
        lemma_otsu_unique(h@, t as int, otsu_level(levels@));
    }
    t
}

/// Normalises a rendered page for recognition: luminance, Otsu binarisation, 3x3 median filter.
pub fn preprocess_image(image: &RawImage) -> (r: GrayImage)
    requires
        image.wf(),
    ensures
        r.wf(),
        r.width == image.width,
        r.height == image.height,
        r.pixels@ == normalized(luma_of(image.rgba@), image.width as int, image.height as int),
{
    let gray = rgba_to_luma(image.width, image.height, &image.rgba);
    let t = image_threshold(&gray);
    let bin = binarize(&gray, t);
    assert(bin@ =~= binarized_seq(gray@, t));
    let out = denoise(&bin, image.width, image.height);
    assert(out@ =~= denoised_seq(bin@, image.width as int, image.height as int));
    GrayImage { width: image.width, height: image.height, pixels: out }
}

} // verus!
