use ocr2md::cache::{build_key_message, CacheConfig, CacheManager};
use ocr2md::config::{Config, EngineKind};
use ocr2md::error::OcrError;

fn manager(enabled: bool, preprocess: bool, ocr: bool) -> CacheManager {
    CacheManager::new(&CacheConfig { enabled, dir: ".cache/test".to_string(), preprocess, ocr })
}

#[test]
fn make_hash_is_sha256_hex_of_key_message() {
    let c = manager(true, true, true);
    let k = c.make_hash("doc.pdf", 3, 300, "fp", &[1, 2, 3]);
    assert_eq!(k, "8dc93a2da174ab810c92bc4fb2413b342eb5d04ff7663508cc713f27a8008ed7");
}

#[test]
fn make_hash_is_deterministic() {
    let c = manager(true, true, true);
    let a = c.make_hash("a.pdf", 1, 300, "fp", &[9, 9]);
    let b = c.make_hash("a.pdf", 1, 300, "fp", &[9, 9]);
    assert_eq!(a, b);
    assert_eq!(a.len(), 64);
}

#[test]
fn make_hash_changes_with_each_argument() {
    let c = manager(true, true, true);
    let base = c.make_hash("a.pdf", 1, 300, "fp", &[9, 9]);
    assert_ne!(base, c.make_hash("b.pdf", 1, 300, "fp", &[9, 9]));
    assert_ne!(base, c.make_hash("a.pdf", 2, 300, "fp", &[9, 9]));
    assert_ne!(base, c.make_hash("a.pdf", 1, 301, "fp", &[9, 9]));
    assert_ne!(base, c.make_hash("a.pdf", 1, 300, "fq", &[9, 9]));
    assert_ne!(base, c.make_hash("a.pdf", 1, 300, "fp", &[9, 8]));
}

#[test]
fn key_message_layout() {
    let m = build_key_message("ab", 1, 2, "c", &[7]);
    assert_eq!(
        m,
        vec![2, 0, 0, 0, 0, 0, 0, 0, b'a', b'b', 1, 0, 0, 0, 0, 0, 0, 0, 2, 0, 0, 0, 1, 0, 0, 0, 0, 0, 0, 0, b'c', 7]
    );
}

#[test]
fn framed_fields_do_not_run_together() {
    let c = manager(true, true, true);
    assert_ne!(c.make_hash("p", 1, 300, "ab", &[]), c.make_hash("p", 1, 300, "a", &[b'b']));
    assert_ne!(c.make_hash("ab", 1, 300, "", &[]), c.make_hash("a", 1, 300, "b", &[]));
}

#[test]
fn disabled_cache_has_no_entries() {
    let c = manager(false, true, true);
    assert!(!c.enabled());
    assert_eq!(c.recognition_entry("k"), None);
    assert_eq!(c.preprocessed_entry("k"), None);
}

#[test]
fn enabled_cache_names_entries() {
    let c = manager(true, true, true);
    assert!(c.enabled());
    assert_eq!(c.dir(), ".cache/test");
    assert_eq!(c.recognition_entry("abc"), Some("abc.json".to_string()));
    assert_eq!(c.preprocessed_entry("abc"), Some("abc.png".to_string()));
}

#[test]
fn namespace_switches_are_separate() {
    let c = manager(true, false, true);
    assert_eq!(c.preprocessed_entry("k"), None);
    assert_eq!(c.recognition_entry("k"), Some("k.json".to_string()));
    let c = manager(true, true, false);
    assert_eq!(c.recognition_entry("k"), None);
    assert_eq!(c.preprocessed_entry("k"), Some("k.png".to_string()));
}

#[test]
fn default_config() {
    let c = Config::default();
    assert_eq!(c.dpi, 300);
    assert_eq!(c.languages, "eng+chi_sim+equ");
    assert!(c.threads >= 1);
    assert_eq!(c.engine, EngineKind::Paddle);
    assert!(c.cache.enabled);
}

#[test]
fn fingerprint_lists_output_settings() {
    let mut c = Config::default();
    assert_eq!(c.fingerprint(), "dpi=300;lang=eng+chi_sim+equ;pre=1;engine=paddle;layout=1;math=1;detect=1");
    c.engine = EngineKind::Tesseract;
    c.math_ocr = false;
    c.dpi = 72;
    assert_eq!(c.fingerprint(), "dpi=72;lang=eng+chi_sim+equ;pre=1;engine=tesseract;layout=1;math=0;detect=1");
}

#[test]
fn backends_needed_before_the_run() {
    let mut c = Config::default();
    assert!(c.needs_structured_backend());
    assert!(c.needs_whole_page_backend());
    c.math_ocr = false;
    c.detect_language = false;
    assert!(!c.needs_whole_page_backend());
    c.engine = EngineKind::Tesseract;
    assert!(c.needs_whole_page_backend());
    assert!(!c.needs_structured_backend());
}

#[test]
fn error_messages_name_their_kind() {
    assert_eq!(OcrError::PdfError("bad page".to_string()).message(), "PDF processing error: bad page");
    assert_eq!(OcrError::ConfigError("no models".to_string()).message(), "Invalid configuration: no models");
    assert_eq!(OcrError::OcrEngineError("x".to_string()).message(), "OCR engine error: x");
}
