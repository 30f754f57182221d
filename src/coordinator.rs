use crate::blocks::OcrPage;
use crate::cache::{cache_key, CacheManager};
use crate::config::{fingerprint_of, Config};
use crate::error::{error_message, OcrError};
use crate::normalize::{luma_of, normalized, preprocess_image, GrayImage, RawImage, MAX_PIXELS};
use crate::pipeline::{PageOutcome, PageResult};
use vstd::prelude::*;
use vstd::string::*;
use vstd::utf8::encode_utf8;

verus! {

/// The image a page is recognised from: normalised, or as rendered when
/// preprocessing is off.
pub enum PageImage {
    Gray(GrayImage),
    Color(RawImage),
}

/// The bytes of a page image, as the recognition cache key digests them.
pub open spec fn image_bytes(i: PageImage) -> Seq<u8> {
    match i {
        PageImage::Gray(g) => g.pixels@,
        PageImage::Color(r) => r.rgba@,
    }
}

/// Width of a page image.
pub open spec fn image_width(i: PageImage) -> u32 {
    match i {
        PageImage::Gray(g) => g.width,
        PageImage::Color(r) => r.width,
    }
}

/// Height of a page image.
pub open spec fn image_height(i: PageImage) -> u32 {
    match i {
        PageImage::Gray(g) => g.height,
        PageImage::Color(r) => r.height,
    }
}

/// Where the work on one page stands.
pub enum PageState {
    /// Waiting for the rendered page.
    Rendering,
    /// Waiting for the normalised image cached under `key`.
    LoadingImage { raw: RawImage, key: String },
    /// Waiting for a newly normalised image to be written to the cache.
    StoringImage,
    /// Waiting for the recognised page cached under `key`.
    LoadingPage { image: PageImage, key: String },
    /// Waiting for the backend; the result will be cached under `key`.
    Recognizing { width: u32, height: u32, key: String },
    /// Waiting for a newly recognised page to be written to the cache.
    StoringPage { width: u32, height: u32 },
    /// Done or failed.
    Finished,
}

/// What the outside work on a page reports back.
pub enum PageEvent {
    /// The rasteriser's result.
    Rendered(Result<RawImage, OcrError>),
    /// The cached normalised image, or `None` on a miss or a read error.
    ImageLoaded(Option<GrayImage>),
    /// The image handed over for storing, back after a store that may have failed.
    ImageStored(GrayImage),
    /// The cached recognised page, or `None` on a miss or a read error.
    PageLoaded(Option<OcrPage>),
    /// The recognition backend's result.
    Recognized(Result<OcrPage, OcrError>),
    /// The page handed over for storing, back after a store that may have failed.
    PageStored(OcrPage),
}

/// The outside work to do next on a page.
pub enum PageAction {
    /// Read the normalised image cached under the key.
    LoadImage(String),
    /// Write the normalised image under the key, then hand it back.
    StoreImage(String, GrayImage),
    /// Read the recognised page cached under the key.
    LoadPage(String),
    /// Run recognition on the image.
    Recognize(PageImage),
    /// Write the recognised page under the key, then hand it back.
    StorePage(String, OcrPage),
    /// The page is finished.
    Finish(PageOutcome),
}

/// Cache key of a page's entry over `bytes`, under the run's settings.
pub open spec fn page_key(cfg: Config, source: Seq<char>, page_num: usize, bytes: Seq<u8>) -> Seq<char> {
    cache_key(encode_utf8(source), page_num as nat, cfg.dpi as nat, encode_utf8(fingerprint_of(cfg)), bytes)
}

/// The step looks up the recognised page of `image`.
pub open spec fn looks_up_page(cfg: Config, source: Seq<char>, page_num: usize, image: PageImage, rs: PageState, ra: PageAction) -> bool {
    match (rs, ra) {
        (PageState::LoadingPage { image: i, key }, PageAction::LoadPage(k)) => {
            &&& i == image
            &&& key@ == page_key(cfg, source, page_num, image_bytes(image))
            &&& k@ == key@
        },
        _ => false,
    }
}

/// The step finishes the page with a failure described by `msg`.
pub open spec fn fails_with(page_num: usize, msg: Seq<char>, rs: PageState, ra: PageAction) -> bool {
    &&& rs is Finished
    &&& match ra {
        PageAction::Finish(PageOutcome::Failed(n, m)) => n == page_num && m@ == msg,
        _ => false,
    }
}

/// The step finishes the page with `page` recognised on an image of `width` x `height`.
pub open spec fn finishes_with(page_num: usize, page: OcrPage, width: u32, height: u32, rs: PageState, ra: PageAction) -> bool {
    &&& rs is Finished
    &&& ra == PageAction::Finish(
        PageOutcome::Done(PageResult { page_num, page, image_width: width, image_height: height }),
    )
}

/// Description of an image that cannot be normalised.
pub open spec fn unusable_image_message() -> Seq<char> {
    "Image processing error: "@ + "rendered image does not match its size"@
}

/// One step of the page pipeline: from where the page stands and what the
/// outside work reported, where it stands next and what to do.
/// - A rendering error fails the page. A rendered page is looked up in the
///   image cache, under the key of its RGBA bytes, when preprocessing is on,
///   and in the recognition cache, under the key of those bytes, when it is off.
/// - A cached image goes straight to the recognition cache lookup; a miss
///   normalises the rendered image and stores it.
/// - The recognition key is taken over the bytes of the image recognition runs on.
/// - A cached page finishes the page; a miss runs recognition, whose error
///   fails the page and whose result is stored and then finishes the page.
/// - Stores report no failure, so a failed store never fails the page.
pub open spec fn page_step_spec(
    cfg: Config,
    source: Seq<char>,
    page_num: usize,
    state: PageState,
    event: PageEvent,
    rs: PageState,
    ra: PageAction,
) -> bool {
    match (state, event) {
        (PageState::Rendering, PageEvent::Rendered(Err(e))) => fails_with(page_num, error_message(e), rs, ra),
        (PageState::Rendering, PageEvent::Rendered(Ok(raw))) => if cfg.preprocess {
            match (rs, ra) {
                (PageState::LoadingImage { raw: r, key }, PageAction::LoadImage(k)) => {
                    &&& r == raw
                    &&& key@ == page_key(cfg, source, page_num, raw.rgba@)
                    &&& k@ == key@
                },
                _ => false,
            }
        } else {
            looks_up_page(cfg, source, page_num, PageImage::Color(raw), rs, ra)
        },
        (PageState::LoadingImage { raw, key }, PageEvent::ImageLoaded(Some(g))) => looks_up_page(
            cfg,
            source,
            page_num,
            PageImage::Gray(g),
            rs,
            ra,
        ),
        (PageState::LoadingImage { raw, key }, PageEvent::ImageLoaded(None)) => if raw.wf() {
            &&& rs is StoringImage
            &&& match ra {
                PageAction::StoreImage(k, g) => {
                    &&& k@ == key@
                    &&& g.width == raw.width
                    &&& g.height == raw.height
                    &&& g.pixels@ == normalized(luma_of(raw.rgba@), raw.width as int, raw.height as int)
                },
                _ => false,
            }
        } else {
            fails_with(page_num, unusable_image_message(), rs, ra)
        },
        (PageState::StoringImage, PageEvent::ImageStored(g)) => looks_up_page(cfg, source, page_num, PageImage::Gray(g), rs, ra),
        (PageState::LoadingPage { image, key }, PageEvent::PageLoaded(Some(p))) => finishes_with(
            page_num,
            p,
            image_width(image),
            image_height(image),
            rs,
            ra,
        ),
        (PageState::LoadingPage { image, key }, PageEvent::PageLoaded(None)) => {
            &&& ra == PageAction::Recognize(image)
            &&& match rs {
                PageState::Recognizing { width, height, key: k } => width == image_width(image) && height == image_height(image)
                    && k@ == key@,
                _ => false,
            }
        },
        (PageState::Recognizing { width, height, key }, PageEvent::Recognized(Ok(p))) => {
            &&& rs == (PageState::StoringPage { width, height })
            &&& match ra {
                PageAction::StorePage(k, q) => k@ == key@ && q == p,
                _ => false,
            }
        },
        (PageState::Recognizing { width, height, key }, PageEvent::Recognized(Err(e))) => fails_with(
            page_num,
            error_message(e),
            rs,
            ra,
        ),
        (PageState::StoringPage { width, height }, PageEvent::PageStored(p)) => finishes_with(
            page_num,
            p,
            width,
            height,
            rs,
            ra,
        ),
        _ => {
            &&& rs is Finished
            &&& ra matches PageAction::Finish(PageOutcome::Failed(n, _)) && n == page_num
        },
    }
}

fn raw_is_usable(raw: &RawImage) -> (r: bool)
    ensures
        r == raw.wf(),
{
    proof {
        assert((raw.width as int) * (raw.height as int) <= 0xffff_ffff * 0xffff_ffff) by (nonlinear_arith)
            requires raw.width <= 0xffff_ffff, raw.height <= 0xffff_ffff;
    }
    let pixels: u128 = (raw.width as u128) * (raw.height as u128);
    (raw.rgba.len() as u128) == 4 * pixels && pixels <= MAX_PIXELS as u128
}

fn look_up_page(config: &Config, cache: &CacheManager, source: &str, page_num: usize, image: PageImage) -> (r: (
    PageState,
    PageAction,
))
    ensures
        looks_up_page(*config, source@, page_num, image, r.0, r.1),
{
    let fp = config.fingerprint();
    let key = match &image {
        PageImage::Gray(g) => cache.make_hash(source, page_num, config.dpi, fp.as_str(), g.pixels.as_slice()),
        PageImage::Color(c) => cache.make_hash(source, page_num, config.dpi, fp.as_str(), c.rgba.as_slice()),
    };
    let k = key.clone();
    (PageState::LoadingPage { image, key }, PageAction::LoadPage(k))
}

fn fail(page_num: usize, e: OcrError) -> (r: (PageState, PageAction))
    ensures
        fails_with(page_num, error_message(e), r.0, r.1),
{
    (PageState::Finished, PageAction::Finish(PageOutcome::Failed(page_num, e.message())))
}

/// One step of the page pipeline; see `page_step_spec`.
pub fn page_step(
    config: &Config,
    cache: &CacheManager,
    source: &str,
    page_num: usize,
    state: PageState,
    event: PageEvent,
) -> (r: (PageState, PageAction))
    ensures
        page_step_spec(*config, source@, page_num, state, event, r.0, r.1),
{
    match (state, event) {
        (PageState::Rendering, PageEvent::Rendered(Err(e))) => fail(page_num, e),
        (PageState::Rendering, PageEvent::Rendered(Ok(raw))) => {
            if config.preprocess {
                let fp = config.fingerprint();
                let key = cache.make_hash(source, page_num, config.dpi, fp.as_str(), raw.rgba.as_slice());
                let k = key.clone();
                (PageState::LoadingImage { raw, key }, PageAction::LoadImage(k))
            } else {
                look_up_page(config, cache, source, page_num, PageImage::Color(raw))
            }
        },
        (PageState::LoadingImage { raw, key }, PageEvent::ImageLoaded(Some(g))) => look_up_page(
            config,
            cache,
            source,
            page_num,
            PageImage::Gray(g),
        ),
        (PageState::LoadingImage { raw, key }, PageEvent::ImageLoaded(None)) => {
            if raw_is_usable(&raw) {
                let g = preprocess_image(&raw);
                (PageState::StoringImage, PageAction::StoreImage(key, g))
            } else {
                let r = fail(page_num, OcrError::ImageError(String::from_str("rendered image does not match its size")));
                proof {
                    reveal_strlit("rendered image does not match its size");
                }
                r
            }
        },
        (PageState::StoringImage, PageEvent::ImageStored(g)) => look_up_page(
            config,
            cache,
            source,
            page_num,
            PageImage::Gray(g),
        ),
        (PageState::LoadingPage { image, key }, PageEvent::PageLoaded(Some(p))) => {
            let (width, height) = match &image {
                PageImage::Gray(g) => (g.width, g.height),
                PageImage::Color(c) => (c.width, c.height),
            };
            (
                PageState::Finished,
                PageAction::Finish(
                    PageOutcome::Done(PageResult { page_num, page: p, image_width: width, image_height: height }),
                ),
            )
        },
        (PageState::LoadingPage { image, key }, PageEvent::PageLoaded(None)) => {
            let (width, height) = match &image {
                PageImage::Gray(g) => (g.width, g.height),
                PageImage::Color(c) => (c.width, c.height),
            };
            (PageState::Recognizing { width, height, key }, PageAction::Recognize(image))
        },
        (PageState::Recognizing { width, height, key }, PageEvent::Recognized(Ok(p))) => (
            PageState::StoringPage { width, height },
            PageAction::StorePage(key, p),
        ),
        (PageState::Recognizing { width, height, key }, PageEvent::Recognized(Err(e))) => fail(page_num, e),
        (PageState::StoringPage { width, height }, PageEvent::PageStored(p)) => (
            PageState::Finished,
            PageAction::Finish(
                PageOutcome::Done(PageResult { page_num, page: p, image_width: width, image_height: height }),
            ),
        ),
        _ => (
            PageState::Finished,
            PageAction::Finish(PageOutcome::Failed(page_num, String::from_str("unexpected page event"))),
        ),
    }
}

} // verus!
