use ocr2md::blocks::{BlockType, OcrBlock, OcrPage};
use ocr2md::cache::{CacheConfig, CacheManager};
use ocr2md::config::Config;
use ocr2md::coordinator::{page_step, PageAction, PageEvent, PageImage, PageState};
use ocr2md::error::OcrError;
use ocr2md::normalize::{GrayImage, RawImage};
use ocr2md::pipeline::{collect_outcomes, PageOutcome};

fn cache() -> CacheManager {
    CacheManager::new(&CacheConfig { enabled: true, dir: ".cache/t".to_string(), preprocess: true, ocr: true })
}

fn raw() -> RawImage {
    RawImage { width: 2, height: 1, rgba: vec![0, 0, 0, 255, 255, 255, 255, 255] }
}

fn text_page(t: &str) -> OcrPage {
    OcrPage {
        blocks: vec![OcrBlock {
            text: t.to_string(),
            confidence_bits: 1.0f32.to_bits(),
            bbox: None,
            block_type: BlockType::Text,
            language: None,
        }],
        detected_language: None,
    }
}

/// Drives one page through the steps, answering each action from the given outcomes.
fn run_page(
    config: &Config,
    page_num: usize,
    rendered: Result<RawImage, OcrError>,
    cached_page: Option<OcrPage>,
    recognized: Result<OcrPage, OcrError>,
) -> PageOutcome {
    let c = cache();
    let mut state = PageState::Rendering;
    let mut event = PageEvent::Rendered(rendered);
    let mut cached_page = cached_page;
    let mut recognized = Some(recognized);
    loop {
        let (next, action) = page_step(config, &c, "doc.pdf", page_num, state, event);
        state = next;
        event = match action {
            PageAction::LoadImage(_) => PageEvent::ImageLoaded(None),
            PageAction::StoreImage(_, g) => PageEvent::ImageStored(g),
            PageAction::LoadPage(_) => PageEvent::PageLoaded(cached_page.take()),
            PageAction::Recognize(_) => PageEvent::Recognized(recognized.take().unwrap()),
            PageAction::StorePage(_, p) => PageEvent::PageStored(p),
            PageAction::Finish(o) => return o,
        };
    }
}

#[test]
fn render_failure_is_recorded_and_other_pages_go_on() {
    let config = Config::default();
    let first = run_page(&config, 1, Ok(raw()), None, Ok(text_page("hello")));
    let second = run_page(&config, 2, Err(OcrError::PdfError("cannot render".to_string())), None, Ok(text_page("x")));
    let s = collect_outcomes(vec![first, second]);
    assert_eq!(s.pages.len(), 1);
    assert_eq!(s.pages[0].page_num, 1);
    assert_eq!(s.pages[0].page.blocks[0].text, "hello");
    assert_eq!((s.pages[0].image_width, s.pages[0].image_height), (2, 1));
    assert_eq!(s.failures, vec![(2, "PDF processing error: cannot render".to_string())]);
}

#[test]
fn recognition_failure_fails_the_page() {
    let config = Config::default();
    let o = run_page(&config, 3, Ok(raw()), None, Err(OcrError::OcrEngineError("boom".to_string())));
    assert!(matches!(o, PageOutcome::Failed(3, ref m) if m == "OCR engine error: boom"));
}

#[test]
fn cached_page_skips_recognition() {
    let config = Config::default();
    let o = run_page(&config, 1, Ok(raw()), Some(text_page("cached")), Err(OcrError::OcrEngineError("unused".to_string())));
    match o {
        PageOutcome::Done(r) => assert_eq!(r.page.blocks[0].text, "cached"),
        PageOutcome::Failed(_, m) => panic!("page failed: {}", m),
    }
}

#[test]
fn image_key_is_over_rendered_bytes_when_preprocessing() {
    let config = Config::default();
    let c = cache();
    let r = raw();
    let expected = c.make_hash("doc.pdf", 4, config.dpi, &config.fingerprint(), &r.rgba);
    let (state, action) = page_step(&config, &c, "doc.pdf", 4, PageState::Rendering, PageEvent::Rendered(Ok(r)));
    assert!(matches!(state, PageState::LoadingImage { .. }));
    assert!(matches!(action, PageAction::LoadImage(ref k) if *k == expected));
}

#[test]
fn cached_image_goes_to_page_lookup_and_miss_normalises() {
    let config = Config::default();
    let c = cache();
    let (state, _) = page_step(&config, &c, "doc.pdf", 1, PageState::Rendering, PageEvent::Rendered(Ok(raw())));
    let g = GrayImage { width: 2, height: 1, pixels: vec![0, 255] };
    let expected = c.make_hash("doc.pdf", 1, config.dpi, &config.fingerprint(), &g.pixels);
    let (_, action) = page_step(&config, &c, "doc.pdf", 1, state, PageEvent::ImageLoaded(Some(g)));
    assert!(matches!(action, PageAction::LoadPage(ref k) if *k == expected));

    let (state, _) = page_step(&config, &c, "doc.pdf", 1, PageState::Rendering, PageEvent::Rendered(Ok(raw())));
    let (state, action) = page_step(&config, &c, "doc.pdf", 1, state, PageEvent::ImageLoaded(None));
    assert!(matches!(state, PageState::StoringImage));
    match action {
        PageAction::StoreImage(_, g) => assert_eq!(g.pixels, vec![0, 255]),
        _ => panic!("expected the normalised image to be stored"),
    }
}

#[test]
fn without_preprocessing_page_key_is_over_rendered_bytes() {
    let mut config = Config::default();
    config.preprocess = false;
    let c = cache();
    let r = raw();
    let expected = c.make_hash("doc.pdf", 1, config.dpi, &config.fingerprint(), &r.rgba);
    let (state, action) = page_step(&config, &c, "doc.pdf", 1, PageState::Rendering, PageEvent::Rendered(Ok(r)));
    assert!(matches!(state, PageState::LoadingPage { image: PageImage::Color(_), .. }));
    assert!(matches!(action, PageAction::LoadPage(ref k) if *k == expected));
}

#[test]
fn unexpected_event_fails_the_page() {
    let config = Config::default();
    let (_, action) = page_step(&config, &cache(), "doc.pdf", 5, PageState::Rendering, PageEvent::PageLoaded(None));
    assert!(matches!(action, PageAction::Finish(PageOutcome::Failed(5, _))));
}
