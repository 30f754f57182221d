use vstd::prelude::*;
use vstd::string::*;

verus! {

/// Settings of the on-disk cache.
#[derive(Clone, Debug)]
pub struct CacheConfig {
    /// Whether the cache is used at all.
    pub enabled: bool,
    /// Directory that holds the cache namespaces.
    pub dir: String,
    /// Whether normalised images are cached.
    pub preprocess: bool,
    /// Whether recognition results are cached.
    pub ocr: bool,
}

/// Namespace (subdirectory) of cached recognition results.
pub const OCR_NAMESPACE: &'static str = "ocr";

/// Namespace (subdirectory) of cached normalised images.
pub const PREPROCESS_NAMESPACE: &'static str = "preprocess";

/// The `n` little-endian bytes of `v`.
pub open spec fn le_bytes(v: nat, n: nat) -> Seq<u8>
    decreases n,
{
    if n == 0 {
        Seq::empty()
    } else {
        seq![(v % 256) as u8] + le_bytes(v / 256, (n - 1) as nat)
    }
}

/// The bytes a cache key digests: the length of the source identity as 8
/// little-endian bytes and the identity, the page number as 8 little-endian
/// bytes, the DPI as 4 little-endian bytes, the length of the configuration
/// fingerprint as 8 little-endian bytes and the fingerprint, then the payload.
/// The lengths frame the variable fields, so the fields can be read back.
pub open spec fn key_message(source: Seq<u8>, page: nat, dpi: nat, fingerprint: Seq<u8>, payload: Seq<u8>) -> Seq<u8> {
    le_bytes(source.len(), 8) + (source + (le_bytes(page, 8) + (le_bytes(dpi, 4) + (le_bytes(
        fingerprint.len(),
        8,
    ) + (fingerprint + payload)))))
}

/// SHA-256 digest of a byte sequence.
pub uninterp spec fn sha256_of(data: Seq<u8>) -> Seq<u8>;

/// Lower-case hexadecimal digits.
pub open spec fn hex_digits() -> Seq<char> {
    seq!['0', '1', '2', '3', '4', '5', '6', '7', '8', '9', 'a', 'b', 'c', 'd', 'e', 'f']
}

/// Two lower-case hexadecimal digits per byte, most significant first.
pub open spec fn hex_of(b: Seq<u8>) -> Seq<char>
    decreases b.len(),
{
    if b.len() == 0 {
        Seq::empty()
    } else {
        hex_of(b.drop_last()) + seq![hex_digits()[b.last() as int / 16], hex_digits()[b.last() as int % 16]]
    }
}

/// The cache key of an entry: the hex form of the SHA-256 digest of its key message.
pub open spec fn cache_key(source: Seq<u8>, page: nat, dpi: nat, fingerprint: Seq<u8>, payload: Seq<u8>) -> Seq<char> {
    hex_of(sha256_of(key_message(source, page, dpi, fingerprint, payload)))
}

/// Relies on `sha2::Sha256::digest`: the SHA-256 digest of `data`, 32 bytes.
#[verifier::external_body]
fn sha256(data: &Vec<u8>) -> (r: Vec<u8>)
    ensures
        r@ == sha256_of(data@),
        r@.len() == 32,
{
    <sha2::Sha256 as sha2::Digest>::digest(data.as_slice()).to_vec()
}

/// Relies on `hex::encode`: two lower-case hexadecimal digits per byte.
#[verifier::external_body]
fn to_hex(data: &Vec<u8>) -> (r: String)
    ensures
        r@ == hex_of(data@),
{
    hex::encode(data)
}

/// Appends the `n` little-endian bytes of `v` to `out`.
fn push_le_bytes(out: &mut Vec<u8>, v: u64, n: usize)
    requires
        n <= 8,
    ensures
        final(out)@ == old(out)@ + le_bytes(v as nat, n as nat),
{
    let ghost start = old(out)@;
    let mut rest: u64 = v;
    let mut k: usize = 0;
    while k < n
        invariant
            k <= n <= 8,
            start + le_bytes(v as nat, n as nat) == out@ + le_bytes(rest as nat, (n - k) as nat),
        decreases n - k,
    {
        let ghost before = out@;
        out.push((rest % 256) as u8);
        proof {
            assert(le_bytes(rest as nat, (n - k) as nat) == seq![(rest % 256) as u8] + le_bytes((rest / 256) as nat, (n - k - 1) as nat));
            assert(before + le_bytes(rest as nat, (n - k) as nat) =~= out@ + le_bytes((rest / 256) as nat, (n - k - 1) as nat));
        }
        rest = rest / 256;
        k = k + 1;
    }
    assert(out@ + le_bytes(rest as nat, 0) =~= out@);
}

fn push_bytes(out: &mut Vec<u8>, data: &[u8])
    ensures
        final(out)@ == old(out)@ + data@,
{
    let ghost start = old(out)@;
    let mut k: usize = 0;
    while k < data.len()
        invariant
            0 <= k <= data@.len(),
            out@ == start + data@.subrange(0, k as int),
        decreases data@.len() - k,
    {
        out.push(data[k]);
        k = k + 1;
        assert(out@ =~= start + data@.subrange(0, k as int));
    }
    assert(data@.subrange(0, data@.len() as int) =~= data@);
}

/// The bytes a cache key digests, in the layout of `key_message`.
pub fn build_key_message(source_id: &str, page_num: usize, dpi: u32, config_fingerprint: &str, payload: &[u8]) -> (r: Vec<u8>)
    ensures
        r@ == key_message(source_id.spec_bytes(), page_num as nat, dpi as nat, config_fingerprint.spec_bytes(), payload@),
{
    let src = source_id.as_bytes();
    let fp = config_fingerprint.as_bytes();
    let mut m: Vec<u8> = Vec::new();
    push_le_bytes(&mut m, src.len() as u64, 8);
    push_bytes(&mut m, src);
    push_le_bytes(&mut m, page_num as u64, 8);
    push_le_bytes(&mut m, dpi as u64, 4);
    push_le_bytes(&mut m, fp.len() as u64, 8);
    push_bytes(&mut m, fp);
    push_bytes(&mut m, payload);
    assert(m@ =~= key_message(source_id.spec_bytes(), page_num as nat, dpi as nat, config_fingerprint.spec_bytes(), payload@));
    m
}

/// Content-addressed store of normalised images and recognition results.
/// The store itself lives on disk; this type decides keys, entry names and
/// whether a namespace is in use.
pub struct CacheManager {
    config: CacheConfig,
}

impl CacheManager {
    /// The settings this cache was made with.
    pub closed spec fn settings(&self) -> CacheConfig {
        self.config
    }

    pub fn new(config: &CacheConfig) -> (r: CacheManager)
        ensures
            r.settings().enabled == config.enabled,
            r.settings().preprocess == config.preprocess,
            r.settings().ocr == config.ocr,
            r.settings().dir@ == config.dir@,
    {
        CacheManager {
            config: CacheConfig {
                enabled: config.enabled,
                dir: config.dir.clone(),
                preprocess: config.preprocess,
                ocr: config.ocr,
            },
        }
    }

    /// Whether the cache is used at all.
    pub fn enabled(&self) -> (r: bool)
        ensures
            r == self.settings().enabled,
    {
        self.config.enabled
    }

    /// Directory that holds the cache namespaces.
    pub fn dir(&self) -> (r: &str)
        ensures
            r@ == self.settings().dir@,
    {
        self.config.dir.as_str()
    }

    /// Whether recognition results are read from and written to the cache.
    pub open spec fn spec_recognition_active(&self) -> bool {
        self.settings().enabled && self.settings().ocr
    }

    /// Whether normalised images are read from and written to the cache.
    pub open spec fn spec_preprocessed_active(&self) -> bool {
        self.settings().enabled && self.settings().preprocess
    }

    /// Key of a cache entry: the hex SHA-256 digest of the source identity,
    /// page number, DPI, configuration fingerprint and payload bytes.
    pub fn make_hash(&self, source_id: &str, page_num: usize, dpi: u32, config_fingerprint: &str, payload: &[u8]) -> (r: String)
        ensures
            r@ == cache_key(source_id.spec_bytes(), page_num as nat, dpi as nat, config_fingerprint.spec_bytes(), payload@),
            r@.len() == 64,
            forall|i: int| 0 <= i < r@.len() ==> hex_digits().contains(#[trigger] r@[i]),
    {
        let m = build_key_message(source_id, page_num, dpi, config_fingerprint, payload);
        let d = sha256(&m);
        proof {
            lemma_hex_shape(d@);
        }
        to_hex(&d)
    }

    /// File name, within the recognition namespace, of the entry under `key`;
    /// `None` when recognition results are not cached, so that loads miss and
    /// stores do nothing.
    pub fn recognition_entry(&self, key: &str) -> (r: Option<String>)
        ensures
            r is Some <==> self.spec_recognition_active(),
            r matches Some(name) ==> name@ == key@ + seq!['.', 'j', 's', 'o', 'n'],
    {
        if self.config.enabled && self.config.ocr {
            let mut name = String::from_str(key);
            name.append(".json");
            proof {
                reveal_strlit(".json");
            }
            Some(name)
        } else {
            None
        }
    }

    /// File name, within the preprocessed-image namespace, of the entry under
    /// `key`; `None` when normalised images are not cached, so that loads miss
    /// and stores do nothing.
    pub fn preprocessed_entry(&self, key: &str) -> (r: Option<String>)
        ensures
            r is Some <==> self.spec_preprocessed_active(),
            r matches Some(name) ==> name@ == key@ + seq!['.', 'p', 'n', 'g'],
    {
        if self.config.enabled && self.config.preprocess {
            let mut name = String::from_str(key);
            name.append(".png");
            proof {
                reveal_strlit(".png");
            }
            Some(name)
        } else {
            None
        }
    }
}

proof fn lemma_le_bytes_len(v: nat, n: nat)
    ensures
        le_bytes(v, n).len() == n,
    decreases n,
{
    if n > 0 {
        lemma_le_bytes_len(v / 256, (n - 1) as nat);
    }
}

proof fn lemma_le_bytes_injective(u: nat, v: nat, n: nat)
    requires
        u < pow256(n),
        v < pow256(n),
        le_bytes(u, n) == le_bytes(v, n),
    ensures
        u == v,
    decreases n,
{
    if n > 0 {
        let a = le_bytes(u, n);
        let b = le_bytes(v, n);
        lemma_le_bytes_len(u / 256, (n - 1) as nat);
        lemma_le_bytes_len(v / 256, (n - 1) as nat);
        assert(a[0] == b[0]);
        assert(a.subrange(1, a.len() as int) =~= le_bytes(u / 256, (n - 1) as nat));
        assert(b.subrange(1, b.len() as int) =~= le_bytes(v / 256, (n - 1) as nat));
        assert(u / 256 < pow256((n - 1) as nat)) by {
            vstd::arithmetic::div_mod::lemma_div_by_multiple_is_strongly_ordered(u as int, pow256(n) as int, pow256((n - 1) as nat) as int, 256);
        }
        assert(v / 256 < pow256((n - 1) as nat)) by {
            vstd::arithmetic::div_mod::lemma_div_by_multiple_is_strongly_ordered(v as int, pow256(n) as int, pow256((n - 1) as nat) as int, 256);
        }
        lemma_le_bytes_injective(u / 256, v / 256, (n - 1) as nat);
        assert(u == 256 * (u / 256) + u % 256) by {
            vstd::arithmetic::div_mod::lemma_fundamental_div_mod(u as int, 256);
        }
        assert(v == 256 * (v / 256) + v % 256) by {
            vstd::arithmetic::div_mod::lemma_fundamental_div_mod(v as int, 256);
        }
    }
}

/// `256` to the power `n`.
pub open spec fn pow256(n: nat) -> nat
    decreases n,
{
    if n == 0 {
        1
    } else {
        256 * pow256((n - 1) as nat)
    }
}

/// Two lower-case hexadecimal digits for every byte.
pub proof fn lemma_hex_shape(b: Seq<u8>)
    ensures
        hex_of(b).len() == 2 * b.len(),
        forall|i: int| 0 <= i < hex_of(b).len() ==> hex_digits().contains(#[trigger] hex_of(b)[i]),
    decreases b.len(),
{
    if b.len() > 0 {
        let u = b.drop_last();
        lemma_hex_shape(u);
        let hi = (b.last() as int / 16);
        let lo = (b.last() as int % 16);
        assert(hex_digits().contains(hex_digits()[hi]));
        assert(hex_digits().contains(hex_digits()[lo]));
        let h = hex_of(b);
        assert forall|i: int| 0 <= i < h.len() implies hex_digits().contains(#[trigger] h[i]) by {
            if i < hex_of(u).len() {
                assert(h[i] == hex_of(u)[i]);
            } else if i == hex_of(u).len() {
                assert(h[i] == hex_digits()[hi]);
            } else {
                assert(h[i] == hex_digits()[lo]);
            }
        }
    }
}

proof fn lemma_split_eq(x1: Seq<u8>, y1: Seq<u8>, x2: Seq<u8>, y2: Seq<u8>)
    requires
        x1 + y1 == x2 + y2,
        x1.len() == x2.len(),
    ensures
        x1 == x2,
        y1 == y2,
{
    assert(x1 =~= (x1 + y1).subrange(0, x1.len() as int));
    assert(x2 =~= (x2 + y2).subrange(0, x2.len() as int));
    assert(y1 =~= (x1 + y1).subrange(x1.len() as int, (x1 + y1).len() as int));
    assert(y2 =~= (x2 + y2).subrange(x2.len() as int, (x2 + y2).len() as int));
}

/// Key messages determine their fields: two cache entries whose key messages
/// are equal have equal source bytes, page numbers, DPIs, fingerprint bytes and
/// payloads. So entries that differ in anything have different key messages,
/// and different keys unless SHA-256 collides.
pub proof fn lemma_key_message_injective(
    src_a: Seq<u8>, page_a: u64, dpi_a: u32, fp_a: Seq<u8>, body_a: Seq<u8>,
    src_b: Seq<u8>, page_b: u64, dpi_b: u32, fp_b: Seq<u8>, body_b: Seq<u8>,
)
    requires
        src_a.len() <= u64::MAX,
        src_b.len() <= u64::MAX,
        fp_a.len() <= u64::MAX,
        fp_b.len() <= u64::MAX,
        key_message(src_a, page_a as nat, dpi_a as nat, fp_a, body_a) == key_message(src_b, page_b as nat, dpi_b as nat, fp_b, body_b),
    ensures
        src_a == src_b,
        page_a == page_b,
        dpi_a == dpi_b,
        fp_a == fp_b,
        body_a == body_b,
{
    assert(pow256(8) == 0x1_0000_0000_0000_0000) by {
        reveal_with_fuel(pow256, 9);
    }
    assert(pow256(4) == 0x1_0000_0000) by {
        reveal_with_fuel(pow256, 5);
    }
    lemma_le_bytes_len(src_a.len(), 8);
    lemma_le_bytes_len(src_b.len(), 8);
    lemma_le_bytes_len(page_a as nat, 8);
    lemma_le_bytes_len(page_b as nat, 8);
    lemma_le_bytes_len(dpi_a as nat, 4);
    lemma_le_bytes_len(dpi_b as nat, 4);
    lemma_le_bytes_len(fp_a.len(), 8);
    lemma_le_bytes_len(fp_b.len(), 8);
    let t5a = fp_a + body_a;
    let t5b = fp_b + body_b;
    let t4a = le_bytes(fp_a.len(), 8) + t5a;
    let t4b = le_bytes(fp_b.len(), 8) + t5b;
    let t3a = le_bytes(dpi_a as nat, 4) + t4a;
    let t3b = le_bytes(dpi_b as nat, 4) + t4b;
    let t2a = le_bytes(page_a as nat, 8) + t3a;
    let t2b = le_bytes(page_b as nat, 8) + t3b;
    let t1a = src_a + t2a;
    let t1b = src_b + t2b;
    lemma_split_eq(le_bytes(src_a.len(), 8), t1a, le_bytes(src_b.len(), 8), t1b);
    lemma_le_bytes_injective(src_a.len(), src_b.len(), 8);
    lemma_split_eq(src_a, t2a, src_b, t2b);
    lemma_split_eq(le_bytes(page_a as nat, 8), t3a, le_bytes(page_b as nat, 8), t3b);
    lemma_le_bytes_injective(page_a as nat, page_b as nat, 8);
    lemma_split_eq(le_bytes(dpi_a as nat, 4), t4a, le_bytes(dpi_b as nat, 4), t4b);
    lemma_le_bytes_injective(dpi_a as nat, dpi_b as nat, 4);
    lemma_split_eq(le_bytes(fp_a.len(), 8), t5a, le_bytes(fp_b.len(), 8), t5b);
    lemma_le_bytes_injective(fp_a.len(), fp_b.len(), 8);
    lemma_split_eq(fp_a, body_a, fp_b, body_b);
}

} // verus!
