use crate::blocks::OcrBlock;
use crate::text::{chars_of, contains_chars, contains_seq, trim, trim_bounds, trimmed};
use vstd::prelude::*;
use vstd::string::*;

verus! {

/// Operators, comparison signs, Greek letters, math symbols and markup characters.
pub open spec fn is_math_symbol(c: char) -> bool {
    ||| c == '+' ||| c == '-' ||| c == '=' ||| c == '/' ||| c == '*' ||| c == '^'
    ||| c == '_' ||| c == '%' ||| c == '∞' ||| c == '∑' ||| c == '∫' ||| c == '≈'
    ||| c == '≠' ||| c == '∂' ||| c == '√' ||| c == 'π' ||| c == 'λ' ||| c == 'θ'
    ||| c == 'β' ||| c == 'α' ||| c == 'γ' ||| c == '\\' ||| c == '{' ||| c == '}'
    ||| c == '[' ||| c == ']' ||| c == '≤' ||| c == '≥'
}

fn math_symbol(c: char) -> (r: bool)
    ensures
        r == is_math_symbol(c),
{
    c == '+' || c == '-' || c == '=' || c == '/' || c == '*' || c == '^' || c == '_' || c == '%'
        || c == '∞' || c == '∑' || c == '∫' || c == '≈' || c == '≠' || c == '∂' || c == '√'
        || c == 'π' || c == 'λ' || c == 'θ' || c == 'β' || c == 'α' || c == 'γ' || c == '\\'
        || c == '{' || c == '}' || c == '[' || c == ']' || c == '≤' || c == '≥'
}

/// Number of math symbols in `s`.
pub open spec fn math_count(s: Seq<char>) -> nat
    decreases s.len(),
{
    if s.len() == 0 {
        0
    } else {
        math_count(s.drop_last()) + if is_math_symbol(s.last()) { 1nat } else { 0nat }
    }
}

/// The markup commands for a fraction, a sum and an integral.
pub open spec fn frac_command() -> Seq<char> {
    seq!['\\', 'f', 'r', 'a', 'c']
}

pub open spec fn sum_command() -> Seq<char> {
    seq!['\\', 's', 'u', 'm']
}

pub open spec fn int_command() -> Seq<char> {
    seq!['\\', 'i', 'n', 't']
}

/// A text looks like a formula when, once trimmed, it is non-empty and either
/// more than a quarter of its characters are math symbols or it holds a
/// fraction, sum or integral command.
pub open spec fn is_formula_text(s: Seq<char>) -> bool {
    let t = trimmed(s);
    &&& t.len() > 0
    &&& {
        ||| 4 * math_count(t) > t.len()
        ||| contains_seq(t, frac_command())
        ||| contains_seq(t, sum_command())
        ||| contains_seq(t, int_command())
    }
}

/// Positions, in increasing order, of the blocks whose text looks like a formula.
pub open spec fn formula_indices(blocks: Seq<OcrBlock>) -> Seq<usize>
    decreases blocks.len(),
{
    if blocks.len() == 0 {
        Seq::empty()
    } else {
        let rest = formula_indices(blocks.drop_last());
        if is_formula_text(blocks.last().text@) {
            rest.push((blocks.len() - 1) as usize)
        } else {
            rest
        }
    }
}

fn count_math(s: &Vec<char>, from: usize, to: usize) -> (r: usize)
    requires
        from <= to <= s@.len(),
    ensures
        r == math_count(s@.subrange(from as int, to as int)),
{
    let mut r: usize = 0;
    let mut k: usize = from;
    assert(s@.subrange(from as int, from as int) =~= Seq::<char>::empty());
    while k < to
        invariant
            from <= k <= to <= s@.len(),
            r == math_count(s@.subrange(from as int, k as int)),
            r <= k - from,
        decreases to - k,
    {
        assert(s@.subrange(from as int, k + 1).drop_last() =~= s@.subrange(from as int, k as int));
        if math_symbol(s[k]) {
            r = r + 1;
        }
        k = k + 1;
    }
    r
}

/// Whether a text looks like a formula.
pub fn looks_like_formula(text: &str) -> (r: bool)
    ensures
        r == is_formula_text(text@),
{
    let cs = chars_of(text);
    let (i, j) = trim_bounds(&cs);
    if i == j {
        return false;
    }
    let count = count_math(&cs, i, j);
    if count > (j - i) / 4 {
        return true;
    }
    let t = chars_of(trim(text));
    let frac = vec!['\\', 'f', 'r', 'a', 'c'];
    let sum = vec!['\\', 's', 'u', 'm'];
    let integral = vec!['\\', 'i', 'n', 't'];
    assert(frac@ == frac_command());
    assert(sum@ == sum_command());
    assert(integral@ == int_command());
    contains_chars(&t, &frac) || contains_chars(&t, &sum) || contains_chars(&t, &integral)
}

/// Positions of the blocks whose text looks like a formula, in increasing order.
pub fn detect_formula_candidates(blocks: &[OcrBlock]) -> (r: Vec<usize>)
    ensures
        r@ == formula_indices(blocks@),
{
    let mut r: Vec<usize> = Vec::new();
    let mut k: usize = 0;
    while k < blocks.len()
        invariant
            0 <= k <= blocks@.len(),
            r@ == formula_indices(blocks@.subrange(0, k as int)),
        decreases blocks@.len() - k,
    {
        assert(blocks@.subrange(0, k + 1).drop_last() =~= blocks@.subrange(0, k as int));
        if looks_like_formula(blocks[k].text.as_str()) {
            r.push(k);
        }
        k = k + 1;
    }
    assert(blocks@.subrange(0, blocks@.len() as int) =~= blocks@);
    r
}

/// The display-math form of a recognised formula: the trimmed text between
/// `$$` lines.
pub open spec fn wrapped_formula(text: Seq<char>) -> Seq<char> {
    seq!['$', '$', '\n'] + trimmed(text) + seq!['\n', '$', '$']
}

/// Wraps a recognised formula in display-math delimiters.
pub fn wrap_formula(text: &str) -> (r: String)
    ensures
        r@ == wrapped_formula(text@),
{
    let mut r = String::from_str("$$\n");
    r.append(trim(text));
    r.append("\n$$");
    proof {
        reveal_strlit("$$\n");
        reveal_strlit("\n$$");
    }
    assert(r@ =~= wrapped_formula(text@));
    r
}

} // verus!
