use crate::text::{chars_of, occurs_at, opt_chars, opt_str_chars};
use vstd::prelude::*;
use vstd::string::*;

verus! {

/// Number of leading characters of a recognised text that language detection looks at.
pub const SAMPLE_CHARS: usize = 400;

/// `d` is one of the `+`-separated tokens of `hint`, found at position `i`.
pub open spec fn token_at(hint: Seq<char>, d: Seq<char>, i: int) -> bool {
    &&& occurs_at(hint, d, i)
    &&& (i == 0 || hint[i - 1] == '+')
    &&& (i + d.len() == hint.len() || hint[i + d.len()] == '+')
    &&& forall|k: int| 0 <= k < d.len() ==> d[k] != '+'
}

/// `d` is one of the `+`-separated tokens of `hint`.
pub open spec fn has_token(hint: Seq<char>, d: Seq<char>) -> bool {
    exists|i: int| token_at(hint, d, i)
}

/// The hint with a detected language code merged in: unchanged when the code
/// is already one of its tokens, otherwise the code, `+`, and the hint.
pub open spec fn merged_hint(hint: Seq<char>, d: Seq<char>) -> Seq<char> {
    if has_token(hint, d) {
        hint
    } else {
        d + seq!['+'] + hint
    }
}

fn same_chars(a: &Vec<char>, b: &Vec<char>) -> (r: bool)
    ensures
        r == (a@ == b@),
{
    if a.len() != b.len() {
        return false;
    }
    let mut k: usize = 0;
    while k < a.len()
        invariant
            a@.len() == b@.len(),
            0 <= k <= a@.len(),
            forall|m: int| 0 <= m < k ==> a@[m] == b@[m],
        decreases a@.len() - k,
    {
        if a[k] != b[k] {
            return false;
        }
        k = k + 1;
    }
    assert(a@ =~= b@);
    true
}

fn no_plus(d: &Vec<char>) -> (r: bool)
    ensures
        r == forall|k: int| 0 <= k < d@.len() ==> d@[k] != '+',
{
    let mut k: usize = 0;
    while k < d.len()
        invariant
            0 <= k <= d@.len(),
            forall|m: int| 0 <= m < k ==> d@[m] != '+',
        decreases d@.len() - k,
    {
        if d[k] == '+' {
            return false;
        }
        k = k + 1;
    }
    true
}

fn matches_here(h: &Vec<char>, d: &Vec<char>, i: usize) -> (r: bool)
    requires
        i + d@.len() <= h@.len(),
    ensures
        r == occurs_at(h@, d@, i as int),
{
    let n = h.len();
    let mut k: usize = 0;
    while k < d.len()
        invariant
            n == h@.len(),
            i + d@.len() <= h@.len(),
            0 <= k <= d@.len(),
            forall|m: int| 0 <= m < k ==> h@[i + m] == d@[m],
        decreases d@.len() - k,
    {
        if h[i + k] != d[k] {
            assert(h@.subrange(i as int, i + d@.len())[k as int] != d@[k as int]);
            return false;
        }
        k = k + 1;
    }
    assert(h@.subrange(i as int, i + d@.len()) =~= d@);
    true
}

fn has_token_chars(h: &Vec<char>, d: &Vec<char>) -> (r: bool)
    ensures
        r == has_token(h@, d@),
{
    if !no_plus(d) || d.len() > h.len() {
        return false;
    }
    let n = h.len();
    let last = h.len() - d.len();
    let mut i: usize = 0;
    while i <= last
        invariant
            n == h@.len(),
            last + d@.len() == h@.len(),
            forall|k: int| 0 <= k < d@.len() ==> d@[k] != '+',
            0 <= i <= last + 1,
            forall|m: int| 0 <= m < i ==> !token_at(h@, d@, m),
        decreases last + 1 - i,
    {
        let before_ok = i == 0 || h[i - 1] == '+';
        let after_ok = i == last || h[i + d.len()] == '+';
        if before_ok && after_ok && matches_here(h, d, i) {
            assert(token_at(h@, d@, i as int));
            return true;
        }
        if i == last {
            return false;
        }
        i = i + 1;
    }
    false
}

/// ISO 639-3 code of the language that `whatlang` detects in a text, if any.
pub uninterp spec fn detected_iso_code(text: Seq<char>) -> Option<Seq<char>>;

/// Relies on `whatlang::detect` and `whatlang::Lang::code`: the ISO 639-3 code
/// of the dominant language of `text`, or `None` when none is detected.
#[verifier::external_body]
fn detect_iso_code(text: &str) -> (r: Option<String>)
    ensures
        opt_chars(r) == detected_iso_code(text@),
{
    whatlang::detect(text).map(|info| info.lang().code().to_string())
}

/// Recognition language code for an ISO 639-3 language code, for the languages
/// the recognition backends know.
pub open spec fn ocr_code_for(iso: Seq<char>) -> Option<Seq<char>> {
    if iso == seq!['e', 'n', 'g'] {
        Some(seq!['e', 'n', 'g'])
    } else if iso == seq!['c', 'm', 'n'] {
        Some(seq!['c', 'h', 'i', '_', 's', 'i', 'm'])
    } else if iso == seq!['j', 'p', 'n'] {
        Some(seq!['j', 'p', 'n'])
    } else if iso == seq!['k', 'o', 'r'] {
        Some(seq!['k', 'o', 'r'])
    } else if iso == seq!['s', 'p', 'a'] {
        Some(seq!['s', 'p', 'a'])
    } else if iso == seq!['f', 'r', 'a'] {
        Some(seq!['f', 'r', 'a'])
    } else {
        None
    }
}

/// Recognition language code of the language detected in `text`, if it is one the backends know.
pub open spec fn detected_ocr_code(text: Seq<char>) -> Option<Seq<char>> {
    match detected_iso_code(text) {
        Some(iso) => ocr_code_for(iso),
        None => None,
    }
}

/// The first `SAMPLE_CHARS` characters of `s`, or all of them when it is shorter.
pub open spec fn sample_of(s: Seq<char>) -> Seq<char> {
    if s.len() <= SAMPLE_CHARS {
        s
    } else {
        s.subrange(0, SAMPLE_CHARS as int)
    }
}

/// Maps detected languages to the codes of the recognition backends.
pub struct LanguageDetector {}

impl LanguageDetector {
    pub fn new() -> (r: LanguageDetector) {
        LanguageDetector {  }
    }

    /// Recognition language code for an ISO 639-3 code.
    pub fn code_for_iso(&self, iso: &str) -> (r: Option<&'static str>)
        ensures
            opt_str_chars(r) == ocr_code_for(iso@),
    {
        let cs = chars_of(iso);
        proof {
            reveal_strlit("eng");
            reveal_strlit("chi_sim");
            reveal_strlit("jpn");
            reveal_strlit("kor");
            reveal_strlit("spa");
            reveal_strlit("fra");
        }
        if same_chars(&cs, &vec!['e', 'n', 'g']) {
            Some("eng")
        } else if same_chars(&cs, &vec!['c', 'm', 'n']) {
            Some("chi_sim")
        } else if same_chars(&cs, &vec!['j', 'p', 'n']) {
            Some("jpn")
        } else if same_chars(&cs, &vec!['k', 'o', 'r']) {
            Some("kor")
        } else if same_chars(&cs, &vec!['s', 'p', 'a']) {
            Some("spa")
        } else if same_chars(&cs, &vec!['f', 'r', 'a']) {
            Some("fra")
        } else {
            None
        }
    }

    /// Recognition language code of the dominant language of `text`, if it is
    /// one the backends know.
    pub fn detect(&self, text: &str) -> (r: Option<&'static str>)
        ensures
            opt_str_chars(r) == detected_ocr_code(text@),
    {
        match detect_iso_code(text) {
            Some(iso) => self.code_for_iso(iso.as_str()),
            None => None,
        }
    }

    /// Merges a detected language code into a `+`-separated hint such as `eng+chi_sim`.
    pub fn merge_with_hint(&self, existing: &str, detected: &str) -> (r: String)
        ensures
            r@ == merged_hint(existing@, detected@),
    {
        let h = chars_of(existing);
        let d = chars_of(detected);
        if has_token_chars(&h, &d) {
            String::from_str(existing)
        } else {
            let mut r = String::from_str(detected);
            r.append("+");
            r.append(existing);
            proof {
                reveal_strlit("+");
            }
            assert(r@ =~= merged_hint(existing@, detected@));
            r
        }
    }
}

/// The leading characters of a recognised text that language detection looks at.
pub fn language_sample(text: &str) -> (r: &str)
    ensures
        r@ == sample_of(text@),
{
    let n = text.unicode_len();
    if n <= SAMPLE_CHARS {
        assert(text@.subrange(0, n as int) =~= text@);
        text.substring_char(0, n)
    } else {
        text.substring_char(0, SAMPLE_CHARS)
    }
}

/// The hint to recognise with and the detected language, once a detection
/// outcome is known: the configured hint and nothing when no language was
/// detected, else the hint with the code merged in and the code.
pub open spec fn hint_after(configured: Seq<char>, detected: Option<Seq<char>>) -> (Seq<char>, Option<Seq<char>>) {
    match detected {
        Some(code) => (merged_hint(configured, code), Some(code)),
        None => (configured, None),
    }
}

/// Applies a detection outcome to the configured hint.
pub fn apply_detected_language(configured: &str, detected: Option<&str>) -> (r: (String, Option<String>))
    ensures
        (r.0@, opt_chars(r.1)) == hint_after(configured@, opt_str_chars(detected)),
{
    match detected {
        Some(code) => {
            let d = LanguageDetector::new();
            (d.merge_with_hint(configured, code), Some(String::from_str(code)))
        },
        None => (String::from_str(configured), None),
    }
}

/// The effective hint and detected language for a page. With detection off,
/// or when the quick recognition pass failed (`sample` is `None`), the
/// configured hint is kept; otherwise the language of the sample's leading
/// characters, when the backends know it, is merged in.
pub fn resolve_language_hint(configured: &str, detect_enabled: bool, sample: Option<&str>) -> (r: (String, Option<String>))
    ensures
        !detect_enabled || sample is None ==> r.0@ == configured@ && r.1 is None,
        detect_enabled && sample is Some ==> (r.0@, opt_chars(r.1)) == hint_after(
            configured@,
            detected_ocr_code(sample_of(sample.unwrap()@)),
        ),
{
    if !detect_enabled {
        return (String::from_str(configured), None);
    }
    match sample {
        None => (String::from_str(configured), None),
        Some(text) => {
            let d = LanguageDetector::new();
            let code = d.detect(language_sample(text));
            apply_detected_language(configured, code)
        },
    }
}

} // verus!
