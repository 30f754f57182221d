use crate::cache::CacheConfig;
use vstd::prelude::*;
use vstd::string::*;

verus! {

/// The recognition backend used for the main pass of every page.
#[derive(Clone, Copy, Debug, PartialEq, Eq, Structural)]
pub enum EngineKind {
    /// Whole-page text backend.
    Tesseract,
    /// Structured detector and recogniser backend.
    Paddle,
}

/// Settings of a run, resolved once at start-up and passed to every component.
#[derive(Clone, Debug)]
pub struct Config {
    /// DPI for rendering pages.
    pub dpi: u32,
    /// Recognition languages, `+`-separated (e.g. `eng+chi_sim+equ`).
    pub languages: String,
    /// Whether the dominant language of each page is detected and merged into the hint.
    pub detect_language: bool,
    /// Whether rendered pages are normalised before recognition.
    pub preprocess: bool,
    /// Number of worker threads.
    pub threads: usize,
    /// Recognition backend.
    pub engine: EngineKind,
    /// Whether blocks are put into reading order.
    pub layout: bool,
    /// Whether formula regions are recognised again with a math hint.
    pub math_ocr: bool,
    /// Directory of the structured backend's model files.
    pub paddle_model_dir: Option<String>,
    /// Directory of a math recognition model.
    pub math_model_dir: Option<String>,
    /// Cache settings.
    pub cache: CacheConfig,
    /// Whether GPU acceleration is preferred where available.
    pub use_gpu: bool,
    /// Whether settings are tuned from document heuristics.
    pub auto_config: bool,
}

/// Relies on `num_cpus::get`: the number of logical CPUs, at least 1.
#[verifier::external_body]
fn available_cpus() -> (r: usize)
    ensures
        r >= 1,
{
    num_cpus::get()
}

impl Default for Config {
    fn default() -> (r: Config)
        ensures
            r.dpi == 300,
            r.languages@ == seq!['e', 'n', 'g', '+', 'c', 'h', 'i', '_', 's', 'i', 'm', '+', 'e', 'q', 'u'],
            r.detect_language,
            r.preprocess,
            r.threads >= 1,
            r.engine == EngineKind::Paddle,
            r.layout,
            r.math_ocr,
            r.paddle_model_dir is None,
            r.math_model_dir is None,
            r.cache.enabled,
            r.cache.preprocess,
            r.cache.ocr,
            r.cache.dir@ == DEFAULT_CACHE_DIR@,
            !r.use_gpu,
            r.auto_config,
    {
        proof {
            reveal_strlit("eng+chi_sim+equ");
        }
        Config {
            dpi: 300,
            languages: String::from_str("eng+chi_sim+equ"),
            detect_language: true,
            preprocess: true,
            threads: available_cpus(),
            engine: EngineKind::Paddle,
            layout: true,
            math_ocr: true,
            paddle_model_dir: None,
            math_model_dir: None,
            cache: CacheConfig {
                enabled: true,
                dir: String::from_str(DEFAULT_CACHE_DIR),
                preprocess: true,
                ocr: true,
            },
            use_gpu: false,
            auto_config: true,
        }
    }
}

/// Default directory of the on-disk cache.
pub const DEFAULT_CACHE_DIR: &'static str = ".cache/rust-ocr2md";

/// Decimal digits.
pub open spec fn decimal_digits() -> Seq<char> {
    seq!['0', '1', '2', '3', '4', '5', '6', '7', '8', '9']
}

/// Decimal notation of `n`, without leading zeros.
pub open spec fn decimal_of(n: nat) -> Seq<char>
    decreases n,
{
    if n < 10 {
        seq![decimal_digits()[n as int]]
    } else {
        decimal_of(n / 10).push(decimal_digits()[(n % 10) as int])
    }
}

fn digit_str(d: u64) -> (r: &'static str)
    requires
        d < 10,
    ensures
        r@ == seq![decimal_digits()[d as int]],
{
    proof {
        reveal_strlit("0123456789");
    }
    let r = "0123456789".substring_char(d as usize, d as usize + 1);
    assert(r@ =~= seq![decimal_digits()[d as int]]);
    r
}

/// Appends the decimal notation of `n` to `out`.
pub fn push_decimal(out: &mut String, n: u64)
    ensures
        final(out)@ == old(out)@ + decimal_of(n as nat),
    decreases n,
{
    if n >= 10 {
        push_decimal(out, n / 10);
    }
    out.append(digit_str(n % 10));
    assert(final(out)@ =~= old(out)@ + decimal_of(n as nat));
}

/// `1` for true, `0` for false.
pub open spec fn flag_char(b: bool) -> Seq<char> {
    if b { seq!['1'] } else { seq!['0'] }
}

/// Name of a backend in a fingerprint.
pub open spec fn engine_name(e: EngineKind) -> Seq<char> {
    match e {
        EngineKind::Tesseract => seq!['t', 'e', 's', 's', 'e', 'r', 'a', 'c', 't'],
        EngineKind::Paddle => seq!['p', 'a', 'd', 'd', 'l', 'e'],
    }
}

/// The settings that decide pixel or text output, as one string:
/// `dpi=D;lang=L;pre=P;engine=E;layout=Y;math=M;detect=T`.
pub open spec fn fingerprint_of(c: Config) -> Seq<char> {
    seq!['d', 'p', 'i', '='] + decimal_of(c.dpi as nat)
        + seq![';', 'l', 'a', 'n', 'g', '='] + c.languages@
        + seq![';', 'p', 'r', 'e', '='] + flag_char(c.preprocess)
        + seq![';', 'e', 'n', 'g', 'i', 'n', 'e', '='] + engine_name(c.engine)
        + seq![';', 'l', 'a', 'y', 'o', 'u', 't', '='] + flag_char(c.layout)
        + seq![';', 'm', 'a', 't', 'h', '='] + flag_char(c.math_ocr)
        + seq![';', 'd', 'e', 't', 'e', 'c', 't', '='] + flag_char(c.detect_language)
}

fn flag_str(b: bool) -> (r: &'static str)
    ensures
        r@ == flag_char(b),
{
    proof {
        reveal_strlit("1");
        reveal_strlit("0");
    }
    if b { "1" } else { "0" }
}

impl Config {
    /// Whether the whole-page text backend must be available before any page
    /// is processed: it runs the main pass, the formula pass and the language
    /// sampling pass.
    pub fn needs_whole_page_backend(&self) -> (r: bool)
        ensures
            r == (self.engine == EngineKind::Tesseract || self.math_ocr || self.detect_language),
    {
        self.engine == EngineKind::Tesseract || self.math_ocr || self.detect_language
    }

    /// Whether the structured backend must be loaded before any page is processed.
    pub fn needs_structured_backend(&self) -> (r: bool)
        ensures
            r == (self.engine == EngineKind::Paddle),
    {
        self.engine == EngineKind::Paddle
    }

    /// Fingerprint of the settings that decide pixel or text output; any change
    /// of DPI, language hint, preprocessing, backend, layout, math or language
    /// detection setting changes it.
    #[verifier::rlimit(50)]
    pub fn fingerprint(&self) -> (r: String)
        ensures
            r@ == fingerprint_of(*self),
    {
        let mut r = String::from_str("dpi=");
        push_decimal(&mut r, self.dpi as u64);
        r.append(";lang=");
        r.append(self.languages.as_str());
        r.append(";pre=");
        r.append(flag_str(self.preprocess));
        r.append(";engine=");
        proof {
            reveal_strlit("dpi=");
            reveal_strlit(";lang=");
            reveal_strlit(";pre=");
            reveal_strlit(";engine=");
            reveal_strlit("tesseract");
            reveal_strlit("paddle");
            reveal_strlit(";layout=");
            reveal_strlit(";math=");
        }
        match self.engine {
            EngineKind::Tesseract => r.append("tesseract"),
            EngineKind::Paddle => r.append("paddle"),
        }
        r.append(";layout=");
        r.append(flag_str(self.layout));
        r.append(";math=");
        r.append(flag_str(self.math_ocr));
        r.append(";detect=");
        r.append(flag_str(self.detect_language));
        proof {
            reveal_strlit(";detect=");
        }
        assert(r@ =~= fingerprint_of(*self));
        r
    }
}


proof fn lemma_decimal_len(n: nat)
    ensures
        decimal_of(n).len() >= 1,
        n >= 10 ==> decimal_of(n).len() >= 2,
    decreases n,
{
    if n >= 10 {
        lemma_decimal_len(n / 10);
    }
}

proof fn lemma_digit_code(i: int)
    requires
        0 <= i < 10,
    ensures
        decimal_digits()[i] as u32 == 48 + i,
{
    if i == 0 {
        assert(decimal_digits()[0] == '0');
    } else if i == 1 {
        assert(decimal_digits()[1] == '1');
    } else if i == 2 {
        assert(decimal_digits()[2] == '2');
    } else if i == 3 {
        assert(decimal_digits()[3] == '3');
    } else if i == 4 {
        assert(decimal_digits()[4] == '4');
    } else if i == 5 {
        assert(decimal_digits()[5] == '5');
    } else if i == 6 {
        assert(decimal_digits()[6] == '6');
    } else if i == 7 {
        assert(decimal_digits()[7] == '7');
    } else if i == 8 {
        assert(decimal_digits()[8] == '8');
    } else {
        assert(decimal_digits()[9] == '9');
    }
}

proof fn lemma_decimal_injective(n: nat, m: nat)
    requires
        decimal_of(n) == decimal_of(m),
    ensures
        n == m,
    decreases n,
{
    lemma_decimal_len(n);
    lemma_decimal_len(m);
    let a = decimal_of(n);
    let b = decimal_of(m);
    if n >= 10 && m >= 10 {
        assert(a.drop_last() == decimal_of(n / 10));
        assert(b.drop_last() == decimal_of(m / 10));
        lemma_decimal_injective(n / 10, m / 10);
        assert(a.last() == decimal_digits()[(n % 10) as int]);
        assert(b.last() == decimal_digits()[(m % 10) as int]);
        lemma_digit_code((n % 10) as int);
        lemma_digit_code((m % 10) as int);
    } else if n < 10 && m < 10 {
        assert(a[0] == decimal_digits()[n as int]);
        assert(b[0] == decimal_digits()[m as int]);
        lemma_digit_code(n as int);
        lemma_digit_code(m as int);
    }
}

proof fn lemma_middle_differs(a: Seq<char>, x: Seq<char>, y: Seq<char>, b: Seq<char>)
    requires
        a + x + b == a + y + b,
    ensures
        x == y,
{
    let l = a + x + b;
    let r = a + y + b;
    assert(l.len() == r.len());
    assert(x =~= l.subrange(a.len() as int, (a.len() + x.len()) as int));
    assert(y =~= r.subrange(a.len() as int, (a.len() + y.len()) as int));
}

/// The pieces of `ps` joined in order.
pub open spec fn join_parts(ps: Seq<Seq<char>>) -> Seq<char>
    decreases ps.len(),
{
    if ps.len() == 0 {
        Seq::empty()
    } else {
        join_parts(ps.drop_last()) + ps.last()
    }
}

proof fn lemma_join_split(ps: Seq<Seq<char>>, i: int)
    requires
        0 <= i < ps.len(),
    ensures
        join_parts(ps) == join_parts(ps.subrange(0, i)) + ps[i] + join_parts(ps.subrange(i + 1, ps.len() as int)),
    decreases ps.len(),
{
    if i == ps.len() - 1 {
        assert(ps.subrange(0, i) =~= ps.drop_last());
        assert(ps.subrange(i + 1, ps.len() as int) =~= Seq::<Seq<char>>::empty());
        assert(join_parts(ps) =~= join_parts(ps.subrange(0, i)) + ps[i] + Seq::<char>::empty());
    } else {
        let u = ps.drop_last();
        lemma_join_split(u, i);
        assert(u.subrange(0, i) =~= ps.subrange(0, i));
        let tail = ps.subrange(i + 1, ps.len() as int);
        assert(tail.drop_last() =~= u.subrange(i + 1, u.len() as int));
        assert(tail.last() == ps.last());
        assert(join_parts(ps) =~= join_parts(ps.subrange(0, i)) + ps[i] + join_parts(tail));
    }
}

/// The pieces of a fingerprint: labels and setting values, alternating.
pub open spec fn fingerprint_parts(c: Config) -> Seq<Seq<char>> {
    seq![
        seq!['d', 'p', 'i', '='], decimal_of(c.dpi as nat),
        seq![';', 'l', 'a', 'n', 'g', '='], c.languages@,
        seq![';', 'p', 'r', 'e', '='], flag_char(c.preprocess),
        seq![';', 'e', 'n', 'g', 'i', 'n', 'e', '='], engine_name(c.engine),
        seq![';', 'l', 'a', 'y', 'o', 'u', 't', '='], flag_char(c.layout),
        seq![';', 'm', 'a', 't', 'h', '='], flag_char(c.math_ocr),
        seq![';', 'd', 'e', 't', 'e', 'c', 't', '='], flag_char(c.detect_language),
    ]
}

proof fn lemma_fingerprint_join(c: Config)
    ensures
        fingerprint_of(c) == join_parts(fingerprint_parts(c)),
{
    reveal_with_fuel(join_parts, 15);
    assert(fingerprint_of(c) =~= join_parts(fingerprint_parts(c)));
}

/// Two configurations that differ in exactly one of DPI, language hint,
/// preprocessing, backend, layout, math or language detection setting have
/// different fingerprints, so a cache entry made under one is never found
/// under the other.
pub proof fn lemma_fingerprint_distinguishes(c: Config, d: Config)
    requires
        (c.dpi != d.dpi && c.languages@ == d.languages@ && c.preprocess == d.preprocess && c.engine == d.engine
            && c.layout == d.layout && c.math_ocr == d.math_ocr && c.detect_language == d.detect_language)
        || (c.dpi == d.dpi && c.languages@ != d.languages@ && c.preprocess == d.preprocess && c.engine == d.engine
            && c.layout == d.layout && c.math_ocr == d.math_ocr && c.detect_language == d.detect_language)
        || (c.dpi == d.dpi && c.languages@ == d.languages@ && c.preprocess != d.preprocess && c.engine == d.engine
            && c.layout == d.layout && c.math_ocr == d.math_ocr && c.detect_language == d.detect_language)
        || (c.dpi == d.dpi && c.languages@ == d.languages@ && c.preprocess == d.preprocess && c.engine != d.engine
            && c.layout == d.layout && c.math_ocr == d.math_ocr && c.detect_language == d.detect_language)
        || (c.dpi == d.dpi && c.languages@ == d.languages@ && c.preprocess == d.preprocess && c.engine == d.engine
            && c.layout != d.layout && c.math_ocr == d.math_ocr && c.detect_language == d.detect_language)
        || (c.dpi == d.dpi && c.languages@ == d.languages@ && c.preprocess == d.preprocess && c.engine == d.engine
            && c.layout == d.layout && c.math_ocr != d.math_ocr && c.detect_language == d.detect_language)
        || (c.dpi == d.dpi && c.languages@ == d.languages@ && c.preprocess == d.preprocess && c.engine == d.engine
            && c.layout == d.layout && c.math_ocr == d.math_ocr && c.detect_language != d.detect_language),
    ensures
        fingerprint_of(c) != fingerprint_of(d),
{
    let pc = fingerprint_parts(c);
    let pd = fingerprint_parts(d);
    if fingerprint_of(c) == fingerprint_of(d) {
        let i: int = if c.dpi != d.dpi {
            1
        } else if c.languages@ != d.languages@ {
            3
        } else if c.preprocess != d.preprocess {
            5
        } else if c.engine != d.engine {
            7
        } else if c.layout != d.layout {
            9
        } else if c.math_ocr != d.math_ocr {
            11
        } else {
            13
        };
        lemma_fingerprint_join(c);
        lemma_fingerprint_join(d);
        lemma_join_split(pc, i);
        lemma_join_split(pd, i);
        assert(pc.subrange(0, i) =~= pd.subrange(0, i));
        assert(pc.subrange(i + 1, 14) =~= pd.subrange(i + 1, 14));
        lemma_middle_differs(join_parts(pc.subrange(0, i)), pc[i], pd[i], join_parts(pc.subrange(i + 1, 14)));
        if i == 1 {
            lemma_decimal_injective(c.dpi as nat, d.dpi as nat);
        } else if i == 7 {
            assert(pc[i].len() != pd[i].len());
        } else if i != 3 {
            assert(pc[i][0] != pd[i][0]);
        }
    }
}

} // verus!
