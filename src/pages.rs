use crate::text::chars_of;
use vstd::prelude::*;

verus! {

/// Why a page selection was refused.
#[derive(Clone, Copy, Debug, PartialEq, Eq, Structural)]
pub enum PageRangeError {
    /// A page number is not a decimal number that fits in `usize`.
    Parse,
    /// A single page lies outside `1..=total`.
    OutOfRange,
    /// A range is empty, starts at 0 or ends past the last page.
    InvalidRange,
    /// More than one `-`.
    InvalidFormat,
}

/// All characters of `s` are ASCII digits, and there is at least one.
pub open spec fn is_digits(s: Seq<char>) -> bool {
    s.len() > 0 && forall|i: int| 0 <= i < s.len() ==> '0' <= #[trigger] s[i] && s[i] <= '9'
}

/// Value of a string of decimal digits.
pub open spec fn digits_value(s: Seq<char>) -> nat
    decreases s.len(),
{
    if s.len() == 0 {
        0
    } else {
        digits_value(s.drop_last()) * 10 + (s.last() as nat - '0' as nat) as nat
    }
}

/// A `usize` written in decimal, with an optional leading `+`, as `str::parse` reads it.
pub open spec fn parsed_usize(s: Seq<char>) -> Option<nat> {
    let d = if s.len() > 0 && s[0] == '+' { s.drop_first() } else { s };
    if is_digits(d) && digits_value(d) <= usize::MAX {
        Some(digits_value(d))
    } else {
        None
    }
}

/// Number of `-` in `s`.
pub open spec fn dash_count(s: Seq<char>) -> nat
    decreases s.len(),
{
    if s.len() == 0 {
        0
    } else {
        dash_count(s.drop_last()) + if s.last() == '-' { 1nat } else { 0nat }
    }
}

/// The pages `a..=b`.
pub open spec fn page_span(a: nat, b: nat) -> Seq<usize> {
    Seq::new((b + 1 - a) as nat, |i: int| (a + i) as usize)
}

/// The pages a selection names among `total` pages: `all`, one page `N`, or a
/// range `A-B`.
pub open spec fn page_selection(s: Seq<char>, total: nat) -> Result<Seq<usize>, PageRangeError> {
    if s == seq!['a', 'l', 'l'] {
        Ok(page_span(1, total))
    } else if dash_count(s) == 0 {
        match parsed_usize(s) {
            None => Err(PageRangeError::Parse),
            Some(p) => if p < 1 || p > total {
                Err(PageRangeError::OutOfRange)
            } else {
                Ok(seq![p as usize])
            },
        }
    } else if dash_count(s) == 1 {
        let i = choose|i: int| 0 <= i < s.len() && s[i] == '-';
        match (parsed_usize(s.subrange(0, i)), parsed_usize(s.subrange(i + 1, s.len() as int))) {
            (Some(a), Some(b)) => if a < 1 || b > total || a > b {
                Err(PageRangeError::InvalidRange)
            } else {
                Ok(page_span(a, b))
            },
            _ => Err(PageRangeError::Parse),
        }
    } else {
        Err(PageRangeError::InvalidFormat)
    }
}

proof fn lemma_prefix_value_le(s: Seq<char>, k: int)
    requires
        0 <= k <= s.len(),
    ensures
        digits_value(s.subrange(0, k)) <= digits_value(s),
    decreases s.len() - k,
{
    if k < s.len() {
        lemma_prefix_value_le(s, k + 1);
        assert(s.subrange(0, k + 1).drop_last() =~= s.subrange(0, k));
    } else {
        assert(s.subrange(0, k) =~= s);
    }
}

fn parse_digits(s: &Vec<char>, from: usize, to: usize) -> (r: Option<usize>)
    requires
        from <= to <= s@.len(),
    ensures
        r is Some <==> parsed_usize(s@.subrange(from as int, to as int)) is Some,
        r matches Some(v) ==> parsed_usize(s@.subrange(from as int, to as int)) == Some(v as nat),
{
    let ghost whole = s@.subrange(from as int, to as int);
    let mut start = from;
    if from < to && s[from] == '+' {
        start = from + 1;
        assert(whole.drop_first() =~= s@.subrange(start as int, to as int));
    } else {
        assert(whole =~= s@.subrange(start as int, to as int));
    }
    let ghost d = s@.subrange(start as int, to as int);
    assert(parsed_usize(whole) == if is_digits(d) && digits_value(d) <= usize::MAX {
        Some(digits_value(d))
    } else {
        None::<nat>
    });
    if start == to {
        return None;
    }
    let mut v: usize = 0;
    let mut k: usize = start;
    assert(d.subrange(0, 0) =~= Seq::<char>::empty());
    while k < to
        invariant
            start <= k <= to <= s@.len(),
            d == s@.subrange(start as int, to as int),
            whole == s@.subrange(from as int, to as int),
            parsed_usize(whole) == if is_digits(d) && digits_value(d) <= usize::MAX {
                Some(digits_value(d))
            } else {
                None::<nat>
            },
            v == digits_value(d.subrange(0, k - start)),
            forall|i: int| 0 <= i < k - start ==> '0' <= #[trigger] d[i] && d[i] <= '9',
        decreases to - k,
    {
        let c = s[k];
        assert(d[k - start] == c);
        if c < '0' || c > '9' {
            assert(!is_digits(d));
            return None;
        }
        let digit = (c as u32 - '0' as u32) as usize;
        assert(d.subrange(0, k + 1 - start).drop_last() =~= d.subrange(0, k - start));
        assert(d.subrange(0, k + 1 - start).last() == c);
        assert(digits_value(d.subrange(0, k + 1 - start)) == v * 10 + digit);
        match v.checked_mul(10) {
            None => {
                proof {
                    lemma_prefix_value_le(d, k + 1 - start);
                }
                return None;
            },
            Some(t) => match t.checked_add(digit) {
                None => {
                    proof {
                        lemma_prefix_value_le(d, k + 1 - start);
                    }
                    return None;
                },
                Some(u) => {
                    v = u;
                },
            },
        }
        k = k + 1;
    }
    assert(d.subrange(0, to - start) =~= d);
    Some(v)
}

fn count_dashes(s: &Vec<char>) -> (r: (usize, usize))
    ensures
        r.0 == dash_count(s@) || (r.0 == 2 && dash_count(s@) >= 2),
        r.0 == 1 ==> r.1 < s@.len() && s@[r.1 as int] == '-',
{
    let mut count: usize = 0;
    let mut pos: usize = 0;
    let mut k: usize = 0;
    while k < s.len()
        invariant
            0 <= k <= s@.len(),
            count <= 2,
            count == dash_count(s@.subrange(0, k as int)) || (count == 2 && dash_count(s@.subrange(0, k as int)) >= 2),
            count == 1 ==> pos < k && s@[pos as int] == '-',
        decreases s@.len() - k,
    {
        assert(s@.subrange(0, k + 1).drop_last() =~= s@.subrange(0, k as int));
        if s[k] == '-' {
            if count == 0 {
                pos = k;
            }
            if count < 2 {
                count = count + 1;
            }
        }
        k = k + 1;
    }
    assert(s@.subrange(0, s@.len() as int) =~= s@);
    (count, pos)
}

proof fn lemma_single_dash(s: Seq<char>, i: int, j: int)
    requires
        dash_count(s) == 1,
        0 <= i < s.len(),
        0 <= j < s.len(),
        s[i] == '-',
        s[j] == '-',
    ensures
        i == j,
    decreases s.len(),
{
    if i != j {
        lemma_two_dashes(s, i, j);
    }
}

proof fn lemma_two_dashes(s: Seq<char>, i: int, j: int)
    requires
        0 <= i < s.len(),
        0 <= j < s.len(),
        i != j,
        s[i] == '-',
        s[j] == '-',
    ensures
        dash_count(s) >= 2,
    decreases s.len(),
{
    let u = s.drop_last();
    if i == s.len() - 1 {
        lemma_one_dash(u, j);
    } else if j == s.len() - 1 {
        lemma_one_dash(u, i);
    } else {
        lemma_two_dashes(u, i, j);
    }
}

proof fn lemma_one_dash(s: Seq<char>, i: int)
    requires
        0 <= i < s.len(),
        s[i] == '-',
    ensures
        dash_count(s) >= 1,
    decreases s.len(),
{
    if i < s.len() - 1 {
        lemma_one_dash(s.drop_last(), i);
    }
}

fn span(a: usize, b: usize) -> (r: Vec<usize>)
    requires
        1 <= a <= b + 1,
    ensures
        r@ == page_span(a as nat, b as nat),
{
    let mut r: Vec<usize> = Vec::new();
    if a > b {
        assert(r@ =~= page_span(a as nat, b as nat));
        return r;
    }
    let mut p: usize = a;
    loop
        invariant_except_break
            r@.len() == p - a,
        invariant
            a <= p <= b,
            forall|i: int| 0 <= i < r@.len() ==> #[trigger] r@[i] == a + i,
        ensures
            r@.len() == b + 1 - a,
        decreases b - p,
    {
        r.push(p);
        if p == b {
            break;
        }
        p = p + 1;
    }
    assert(r@ =~= page_span(a as nat, b as nat));
    r
}

/// The pages that a selection names among `total_pages` pages: `all`, a
/// single page `N`, or a range `A-B`, in increasing order.
pub fn parse_page_range(range_str: &str, total_pages: usize) -> (r: Result<Vec<usize>, PageRangeError>)
    ensures
        r matches Ok(v) ==> page_selection(range_str@, total_pages as nat) == Ok::<Seq<usize>, PageRangeError>(v@),
        r matches Err(e) ==> page_selection(range_str@, total_pages as nat) == Err::<Seq<usize>, PageRangeError>(e),
{
    let s = chars_of(range_str);
    let all = vec!['a', 'l', 'l'];
    let mut is_all = s.len() == 3;
    if is_all {
        is_all = s[0] == 'a' && s[1] == 'l' && s[2] == 'l';
    }
    if is_all {
        assert(s@ =~= seq!['a', 'l', 'l']);
        return Ok(span(1, total_pages));
    }
    assert(s@ != seq!['a', 'l', 'l']) by {
        if s@ == seq!['a', 'l', 'l'] {
            assert(s@[0] == 'a' && s@[1] == 'l' && s@[2] == 'l');
        }
    }
    let (dashes, pos) = count_dashes(&s);
    if dashes == 0 {
        assert(s@.subrange(0, s@.len() as int) =~= s@);
        match parse_digits(&s, 0, s.len()) {
            None => Err(PageRangeError::Parse),
            Some(p) => if p < 1 || p > total_pages {
                Err(PageRangeError::OutOfRange)
            } else {
                let mut v: Vec<usize> = Vec::new();
                v.push(p);
                Ok(v)
            },
        }
    } else if dashes == 1 {
        proof {
            let i = choose|i: int| 0 <= i < s@.len() && s@[i] == '-';
            lemma_single_dash(s@, i, pos as int);
        }
        let first = parse_digits(&s, 0, pos);
        let second = parse_digits(&s, pos + 1, s.len());
        match (first, second) {
            (Some(a), Some(b)) => if a < 1 || b > total_pages || a > b {
                Err(PageRangeError::InvalidRange)
            } else {
                Ok(span(a, b))
            },
            _ => Err(PageRangeError::Parse),
        }
    } else {
        Err(PageRangeError::InvalidFormat)
    }
}

} // verus!
