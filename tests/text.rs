use ocr2md::blocks::{BlockType, BoundingBox, OcrBlock, OcrPage, FULL_CONFIDENCE_BITS};
use ocr2md::language::{apply_detected_language, language_sample, resolve_language_hint, LanguageDetector};
use ocr2md::layout::{sort_by_reading_order, sort_by_reading_order_with};
use ocr2md::markdown::MarkdownBuilder;
use ocr2md::math::{detect_formula_candidates, looks_like_formula, wrap_formula};
use ocr2md::pages::{parse_page_range, PageRangeError};
use ocr2md::pipeline::{
    collect_outcomes, crop_region, detected_block, order_blocks, points_to_bbox, refine_formula_block,
    whole_page_block, PageOutcome, PageResult,
};
use ocr2md::text::trim;

fn block(text: &str, at: Option<(u32, u32)>) -> OcrBlock {
    OcrBlock {
        text: text.to_string(),
        confidence_bits: 0.5f32.to_bits(),
        bbox: at.map(|(x, y)| BoundingBox { x, y, width: 10, height: 10 }),
        block_type: BlockType::Text,
        language: None,
    }
}

fn page(num: usize, texts: &[&str]) -> PageResult {
    PageResult {
        page_num: num,
        page: OcrPage { blocks: texts.iter().map(|t| block(t, None)).collect(), detected_language: None },
        image_width: 10,
        image_height: 20,
    }
}

#[test]
fn reading_order_groups_rows() {
    let mut bs = vec![block("a", Some((50, 100))), block("b", Some((10, 105))), block("c", Some((0, 300)))];
    sort_by_reading_order(&mut bs);
    let order: Vec<&str> = bs.iter().map(|b| b.text.as_str()).collect();
    assert_eq!(order, vec!["b", "a", "c"]);
}

#[test]
fn reading_order_puts_unboxed_first_and_is_stable() {
    let mut bs = vec![block("x", Some((5, 40))), block("n1", None), block("n2", None), block("y", Some((0, 10)))];
    sort_by_reading_order(&mut bs);
    let order: Vec<&str> = bs.iter().map(|b| b.text.as_str()).collect();
    assert_eq!(order, vec!["n1", "n2", "y", "x"]);
}

#[test]
fn reading_order_with_zero_tolerance() {
    let mut bs = vec![block("a", Some((50, 100))), block("b", Some((10, 105)))];
    sort_by_reading_order_with(&mut bs, 0);
    assert_eq!(bs[0].text, "a");
    let mut bs = vec![block("a", Some((50, 100))), block("b", Some((10, 105)))];
    order_blocks(&mut bs, false);
    assert_eq!(bs[0].text, "a");
}

#[test]
fn formula_detection() {
    assert!(looks_like_formula("\\frac{1}{2}+\\sum_i x_i"));
    assert!(!looks_like_formula("Hello world, this is page one."));
    assert!(looks_like_formula("a+b=c"));
    assert!(!looks_like_formula("   "));
    assert!(looks_like_formula("see \\int here and there"));
    let bs = vec![block("Hello", None), block("x^2+y^2=z^2", None), block("", None), block("\\sum", None)];
    assert_eq!(detect_formula_candidates(&bs), vec![1, 3]);
}

#[test]
fn wrap_formula_trims() {
    assert_eq!(wrap_formula("  x^2 \n"), "$$\nx^2\n$$");
    assert_eq!(trim("\t a b \r\n"), "a b");
}

#[test]
fn refine_formula_block_rewrites_text() {
    let mut b = block("x+y", Some((1, 2)));
    refine_formula_block(&mut b, Some(" x + y "));
    assert_eq!(b.text, "$$\nx + y\n$$");
    assert_eq!(b.block_type, BlockType::Formula);
    let mut b = block("x+y", None);
    refine_formula_block(&mut b, None);
    assert_eq!(b.text, "x+y");
    assert_eq!(b.block_type, BlockType::Formula);
}

#[test]
fn merge_language_hint() {
    let d = LanguageDetector::new();
    assert_eq!(d.merge_with_hint("eng+chi_sim", "chi_sim"), "eng+chi_sim");
    assert_eq!(d.merge_with_hint("eng", "fra"), "fra+eng");
    assert_eq!(d.merge_with_hint("engx", "eng"), "eng+engx");
    assert_eq!(d.merge_with_hint("a+eng+b", "eng"), "a+eng+b");
}

#[test]
fn language_codes() {
    let d = LanguageDetector::new();
    assert_eq!(d.code_for_iso("cmn"), Some("chi_sim"));
    assert_eq!(d.code_for_iso("eng"), Some("eng"));
    assert_eq!(d.code_for_iso("deu"), None);
    assert_eq!(
        d.detect("This is a fairly long English sentence written to make the language obvious to the detector."),
        Some("eng")
    );
}

#[test]
fn resolve_hint() {
    assert_eq!(resolve_language_hint("eng", false, Some("whatever")), ("eng".to_string(), None));
    assert_eq!(resolve_language_hint("eng", true, None), ("eng".to_string(), None));
    let (hint, lang) = resolve_language_hint(
        "chi_sim",
        true,
        Some("This is a fairly long English sentence written to make the language obvious to the detector."),
    );
    assert_eq!(hint, "eng+chi_sim");
    assert_eq!(lang, Some("eng".to_string()));
    assert_eq!(apply_detected_language("eng", Some("fra")), ("fra+eng".to_string(), Some("fra".to_string())));
    let long: String = "a".repeat(500);
    assert_eq!(language_sample(&long).len(), 400);
    assert_eq!(language_sample("abc"), "abc");
}

#[test]
fn backend_blocks() {
    let b = whole_page_block("text".to_string(), None, "eng+fra");
    assert_eq!(b.language, Some("eng+fra".to_string()));
    assert_eq!(b.confidence_bits, FULL_CONFIDENCE_BITS);
    assert_eq!(f32::from_bits(b.confidence_bits), 1.0);
    assert!(b.bbox.is_none());
    let b = whole_page_block("text".to_string(), Some("fra".to_string()), "eng");
    assert_eq!(b.language, Some("fra".to_string()));
    let b = detected_block("t".to_string(), 0.75f32.to_bits(), &vec![(10, 5), (30, 7), (12, 40)]);
    assert_eq!(b.bbox, Some(BoundingBox { x: 10, y: 5, width: 20, height: 35 }));
    assert_eq!(points_to_bbox(&vec![]), None);
}

#[test]
fn crop_region_clamps() {
    let r = crop_region(&BoundingBox { x: 90, y: 10, width: 50, height: 5 }, 100, 50);
    assert_eq!(r, BoundingBox { x: 90, y: 10, width: 10, height: 5 });
    let r = crop_region(&BoundingBox { x: 200, y: 80, width: 5, height: 5 }, 100, 50);
    assert_eq!(r, BoundingBox { x: 99, y: 49, width: 1, height: 1 });
}

#[test]
fn failed_page_does_not_stop_the_run() {
    let outcomes = vec![PageOutcome::Done(page(1, &["hello"])), PageOutcome::Failed(2, "render failed".to_string())];
    let s = collect_outcomes(outcomes);
    assert_eq!(s.pages.len(), 1);
    assert_eq!(s.pages[0].page_num, 1);
    assert_eq!(s.failures, vec![(2, "render failed".to_string())]);
}

#[test]
fn outcomes_sorted_by_page() {
    let outcomes = vec![
        PageOutcome::Done(page(3, &[])),
        PageOutcome::Done(page(1, &[])),
        PageOutcome::Failed(4, "x".to_string()),
        PageOutcome::Done(page(2, &[])),
    ];
    let s = collect_outcomes(outcomes);
    let nums: Vec<usize> = s.pages.iter().map(|p| p.page_num).collect();
    assert_eq!(nums, vec![1, 2, 3]);
}

#[test]
fn page_ranges() {
    assert_eq!(parse_page_range("all", 3), Ok(vec![1, 2, 3]));
    assert_eq!(parse_page_range("2", 3), Ok(vec![2]));
    assert_eq!(parse_page_range("+2", 3), Ok(vec![2]));
    assert_eq!(parse_page_range("2-3", 5), Ok(vec![2, 3]));
    assert_eq!(parse_page_range("0", 3), Err(PageRangeError::OutOfRange));
    assert_eq!(parse_page_range("4", 3), Err(PageRangeError::OutOfRange));
    assert_eq!(parse_page_range("x", 3), Err(PageRangeError::Parse));
    assert_eq!(parse_page_range("", 3), Err(PageRangeError::Parse));
    assert_eq!(parse_page_range("3-2", 5), Err(PageRangeError::InvalidRange));
    assert_eq!(parse_page_range("1-9", 5), Err(PageRangeError::InvalidRange));
    assert_eq!(parse_page_range("1-", 5), Err(PageRangeError::Parse));
    assert_eq!(parse_page_range("1-2-3", 5), Err(PageRangeError::InvalidFormat));
    assert_eq!(parse_page_range("99999999999999999999999", 5), Err(PageRangeError::Parse));
}

#[test]
fn clean_text_and_markdown() {
    let m = MarkdownBuilder::new();
    assert_eq!(m.clean_ocr_text("  a  \n\n b\r\n   \nc"), "a\nb\nc");
    assert_eq!(m.clean_ocr_text(""), "");
    let doc = m.build(&vec![page(1, &["x ", "y"]), page(12, &[])], "doc.pdf", "2024-01-01 00:00:00");
    assert_eq!(
        doc,
        "# Document OCR Result\n\n- **Source**: doc.pdf\n- **Processed**: 2024-01-01 00:00:00\n- **Total Pages**: 2\n- **Tool**: RustOCR2md\n\n---\n\n## Page 1\n\nx\n\ny\n\n## Page 12\n\n"
    );
}
