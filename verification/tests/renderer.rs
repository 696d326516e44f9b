use hayro::hayro_interpret::{InterpreterSettings, TransformExt};
use hayro::hayro_syntax::Pdf;
use hayro::vello_cpu::color::palette::css::WHITE;
use hayro::vello_cpu::{Pixmap, RasterizerSettings, RenderContext, Resources, TargetInit};
use hayro::{RenderCache, RenderSettings};
use kurbo::Affine;
use viewer_core::number::Single;
use viewer_core::pdf::LoadFailure;
use viewer_core::raster::{bgra_from_rgba, Raster};
use viewer_core::renderer::{
    check_pages, load_document, load_error, LoadError, PageSize, RenderError, RenderJob, RenderKey,
    RenderOutcome, RenderQueue, RenderedPage, Renderer, WakeOutcome, MAX_PENDING_PAGES,
    PAGES_PER_CACHE,
};
use viewer_core::sample::{test_pdf, test_pdf_with_attributes};

fn single(x: f32) -> Single {
    Single { bits: x.to_bits() }
}

fn number(x: Single) -> f32 {
    f32::from_bits(x.bits)
}

fn scaled_key(page: usize, width: f32, height: f32, scale: f32) -> RenderKey {
    let scale = scale
        .min(8192. / width.max(height))
        .min((8_000_000. / (width * height)).sqrt());
    RenderKey::new(
        page,
        (width * scale).ceil() as u32,
        (height * scale).ceil() as u32,
    )
}

fn pixels(document: &Pdf, key: RenderKey) -> Vec<u8> {
    let page = &document.pages()[key.page];
    let (width, height) = page.render_dimensions();
    let mut context = RenderContext::new(key.width, key.height);
    let transform = Affine::scale_non_uniform(
        f64::from(key.width) / f64::from(width),
        f64::from(key.height) / f64::from(height),
    ) * page.initial_transform(true).to_kurbo();
    hayro::render_into(
        page,
        &RenderCache::new(),
        &InterpreterSettings::default(),
        &RenderSettings::default(),
        &mut context,
        transform,
    );
    context.flush();
    let mut pixmap = Pixmap::new(key.width, key.height);
    context.render_with(
        &mut pixmap,
        &mut Resources::default(),
        RasterizerSettings {
            target_init: TargetInit::Clear(WHITE),
            ..Default::default()
        },
    );
    pixmap.data_as_u8_slice().to_vec()
}

fn render(renderer: &mut Renderer, document: &Pdf, key: RenderKey) -> Raster {
    assert!(renderer.request(key));
    renderer.wake_attempted(WakeOutcome::Sent);
    let job = renderer.next_job().expect("a page should wait");
    assert_eq!(job.key, key);
    let page = RenderedPage::new(key, RenderOutcome::Pixels(pixels(document, key)));
    assert!(!renderer.page_rendered(page.result.is_err()));
    assert!(renderer.page_delivered(true));
    assert_eq!(page.key, key);
    page.result.ok().expect("page should render")
}

fn key(page: usize) -> RenderKey {
    RenderKey {
        page,
        width: 10,
        height: 20,
    }
}

#[test]
fn renders_multiple_pages_in_bgra() {
    let (mut renderer, document) = Renderer::new(test_pdf(&[(100, 200, "1 0 0"), (200, 100, "0 0 1")]))
        .ok()
        .expect("PDF should load");
    assert_eq!(renderer.sizes.len(), 2);
    for (page, expected) in [(0, [0, 0, 255, 255]), (1, [255, 0, 0, 255])] {
        let size = renderer.sizes[page];
        let key = scaled_key(page, number(size.width), number(size.height), 2.);
        let image = render(&mut renderer, &document, key);
        assert_eq!(
            image.bytes.len(),
            usize::from(key.width) * usize::from(key.height) * 4
        );
        assert!(image.bytes.chunks_exact(4).all(|pixel| pixel == expected));
    }
}

#[test]
fn invalid_pdf_reports_an_error() {
    let result = Renderer::new(b"not a PDF".to_vec());
    assert!(result
        .err()
        .expect("invalid PDF should fail")
        .message()
        .contains("not a valid PDF"));
}

#[test]
fn renders_standard_fonts_and_rotated_crop_boxes() {
    let (mut renderer, document) = Renderer::new(test_pdf_with_attributes(
        &[(300, 200, "1 1 1")],
        "/CropBox [0 0 250 100] /Rotate 90",
        true,
    ))
    .ok()
    .expect("PDF should load");
    assert_eq!(number(renderer.sizes[0].width), 100.);
    assert_eq!(number(renderer.sizes[0].height), 250.);
    let key = scaled_key(0, 100., 250., 1.);
    let image = render(&mut renderer, &document, key);
    assert!(image.bytes.chunks_exact(4).all(|pixel| pixel[3] == 255));
    assert!(
        image.bytes.chunks_exact(4).filter(|pixel| pixel[0] < 128).count() > 100,
        "the standard font should produce visible text on the white page"
    );
}

#[test]
fn raster_dimensions_are_bounded() {
    for (width, height) in [(612., 792.), (100_000., 50.)] {
        let key = scaled_key(0, width, height, 1000.);
        assert!(key.width <= 8192 && key.height <= 8192);
        assert!(u32::from(key.width) * u32::from(key.height) <= 8_010_000);
    }
}

#[test]
fn dimensions_are_clamped() {
    let key = RenderKey::new(3, 0, 100_000);
    assert_eq!((key.page, key.width, key.height), (3, 1, 8192));
    let key = RenderKey::new(0, 8192, 7);
    assert_eq!((key.width, key.height), (8192, 7));
}

#[test]
fn load_errors_have_messages() {
    assert_eq!(
        load_error(LoadFailure::Decryption).message(),
        "This PDF is encrypted or requires a password. Open it in an external PDF viewer."
    );
    assert_eq!(
        load_error(LoadFailure::Invalid).message(),
        "This file is not a valid PDF or is still being written"
    );
    assert_eq!(
        check_pages(&Vec::new()).err().map(|error| error.message()),
        Some("This PDF has no pages")
    );
    let good = (100f32.to_bits(), 200f32.to_bits());
    for bad in [0f32, -1., f32::NAN, f32::INFINITY] {
        assert_eq!(
            check_pages(&vec![good, (100f32.to_bits(), bad.to_bits())]).err(),
            Some(LoadError::InvalidPageSize)
        );
        assert_eq!(
            check_pages(&vec![(bad.to_bits(), 5f32.to_bits())]).err(),
            Some(LoadError::InvalidPageSize)
        );
    }
    assert_eq!(
        LoadError::InvalidPageSize.message(),
        "This PDF contains an invalid page size"
    );
    let sizes = check_pages(&vec![good]).expect("valid sizes");
    assert_eq!(
        sizes,
        vec![PageSize {
            width: single(100.),
            height: single(200.)
        }]
    );
}

#[test]
fn encrypted_files_are_refused() {
    let file = String::from_utf8(test_pdf(&[(100, 200, "1 0 0")])).expect("plain text");
    let encrypted = file.replace(
        "/Root 1 0 R",
        "/Root 1 0 R /ID [(a) (a)] /Encrypt << /Filter /Unknown >>",
    );
    assert_eq!(
        load_document(encrypted.into_bytes()).err(),
        Some(LoadError::Encrypted)
    );
}

#[test]
fn damaged_tables_are_repaired() {
    let file = String::from_utf8(test_pdf(&[(100, 200, "1 0 0")])).expect("plain text");
    let damaged = file.replace("startxref\n", "startxref\n9");
    let (_, sizes) = load_document(damaged.into_bytes()).ok().expect("PDF should load");
    assert_eq!(sizes.len(), 1);
    assert_eq!(number(sizes[0].height), 200.);
}

#[test]
fn documents_without_pages_are_refused() {
    assert_eq!(
        load_document(test_pdf(&[])).err(),
        Some(LoadError::NoPages)
    );
}

#[test]
fn loaded_sizes_are_those_of_the_pages() {
    let (document, sizes) = load_document(test_pdf(&[(100, 200, "1 0 0"), (30, 40, "0 1 0")]))
        .ok()
        .expect("PDF should load");
    assert_eq!(document.pages().len(), 2);
    let sizes: Vec<(f32, f32)> = sizes
        .iter()
        .map(|size| (number(size.width), number(size.height)))
        .collect();
    assert_eq!(sizes, vec![(100., 200.), (30., 40.)]);
}

#[test]
fn latest_request_comes_first_and_old_ones_go() {
    let mut queue = RenderQueue::new();
    for page in 0..20 {
        assert!(queue.request(key(page)));
    }
    let mut order = Vec::new();
    while let Some(key) = queue.start_next() {
        order.push(key.page);
        queue.finish();
    }
    assert_eq!(order, (4..20).rev().collect::<Vec<_>>());
    assert_eq!(order.len(), MAX_PENDING_PAGES);
}

#[test]
fn repeated_requests_change_nothing() {
    let mut queue = RenderQueue::new();
    queue.request(key(1));
    queue.request(key(2));
    queue.request(key(1));
    queue.request(key(1));
    assert_eq!(queue.start_next(), Some(key(1)));
    assert!(!queue.request(key(1)), "the page is being rendered");
    assert_eq!(queue.start_next(), Some(key(2)));
    assert_eq!(queue.start_next(), None);
    assert!(queue.request(key(1)));
}

#[test]
fn nothing_waits_without_a_worker() {
    let mut queue = RenderQueue::new();
    queue.request(key(1));
    queue.wake_attempted(WakeOutcome::AlreadyAwake);
    queue.wake_attempted(WakeOutcome::Closed);
    assert_eq!(queue.start_next(), None);
}

#[test]
fn resources_are_released_in_time() {
    let (mut renderer, _) = Renderer::new(test_pdf(&[(10, 10, "1 0 0")]))
        .ok()
        .expect("PDF should load");
    assert_eq!(renderer.next_job(), None);
    for count in 0..70u32 {
        renderer.request(key(0));
        assert_eq!(
            renderer.next_job(),
            Some(RenderJob {
                key: key(0),
                fresh_cache: count > 0 && count % PAGES_PER_CACHE == 0,
            })
        );
        assert!(!renderer.request(key(0)));
        assert_eq!(renderer.page_rendered(count == 3), count == 3);
        assert!(renderer.page_delivered(true));
    }
}

#[test]
fn worker_stops_when_nobody_listens() {
    let (mut renderer, _) = Renderer::new(test_pdf(&[(10, 10, "1 0 0")]))
        .ok()
        .expect("PDF should load");
    renderer.request(key(0));
    renderer.next_job();
    renderer.page_rendered(false);
    assert!(!renderer.page_delivered(false));
    assert!(!renderer.request(key(0)), "the page is never given back");
}

#[test]
fn render_outcomes_become_answers() {
    let wanted = RenderKey {
        page: 0,
        width: 2,
        height: 1,
    };
    let outcome = |outcome| RenderedPage::new(wanted, outcome).result;
    assert_eq!(
        outcome(RenderOutcome::NoSuchPage).err().map(RenderError::message),
        Some("PDF page no longer exists")
    );
    assert_eq!(
        outcome(RenderOutcome::Aborted).err().map(RenderError::message),
        Some("The PDF renderer could not render this page")
    );
    assert_eq!(
        outcome(RenderOutcome::Pixels(vec![0; 7])).err().map(RenderError::message),
        Some("PDF renderer returned an invalid pixel buffer")
    );
    let image = outcome(RenderOutcome::Pixels(vec![1, 2, 3, 4, 5, 6, 7, 8]))
        .ok()
        .expect("pixels fill the image");
    assert_eq!((image.width, image.height), (2, 1));
    assert_eq!(image.bytes, vec![3, 2, 1, 4, 7, 6, 5, 8]);
}

#[test]
fn red_and_blue_change_places() {
    assert_eq!(bgra_from_rgba(vec![1, 2, 3, 4, 5, 6]), vec![3, 2, 1, 4, 5, 6]);
    let pixels = vec![9, 8, 7, 6, 5, 4, 3, 2, 1];
    assert_eq!(bgra_from_rgba(bgra_from_rgba(pixels.clone())), pixels);
    assert_eq!(bgra_from_rgba(Vec::new()), Vec::<u8>::new());
}

#[test]
fn images_need_enough_bytes() {
    assert!(Raster::new(2, 2, vec![0; 15]).is_none());
    let image = Raster::new(2, 2, (0..17).collect()).expect("enough bytes");
    assert_eq!((image.width, image.height), (2, 2));
    assert_eq!(image.bytes, (0..17).collect::<Vec<u8>>());
    assert!(Raster::new(0, 9, Vec::new()).is_some());
}
