use viewer_core::cache::CachedPage;
use viewer_core::document::{PdfDocument, ProjectPath, ReloadAction, ReloadTask};
use viewer_core::number::{Double, Single};
use viewer_core::pdf_viewer::{
    ItemEvent, PageDisplay, PdfView, PdfViewEvent, Performed, Position, SavedState, SavedView,
    ToolbarPart, ViewCommand, INITIAL_WIDTH, MAX_ZOOM, MIN_ZOOM,
};
use viewer_core::renderer::{PageSize, RenderKey};

fn single(x: f32) -> Single {
    Single { bits: x.to_bits() }
}

fn position(page: usize, fraction: f32) -> Position {
    Position {
        page,
        fraction: single(fraction),
    }
}

fn document(widths: &[f32]) -> PdfDocument {
    let path = ProjectPath {
        worktree_id: 1,
        path: "document.pdf".to_owned(),
    };
    let (mut document, _, _) = PdfDocument::new(path, Some(10));
    let sizes = widths
        .iter()
        .map(|width| PageSize {
            width: single(*width),
            height: single(10.),
        })
        .collect();
    document.install_renderer(sizes);
    document
}

fn shown(parts: &[ToolbarPart]) -> Vec<String> {
    parts
        .iter()
        .map(|part| match part {
            ToolbarPart::Button {
                id,
                label,
                disabled,
                command,
            } => format!("{id}|{label}|{disabled}|{command:?}"),
            ToolbarPart::Label(label) => label.clone(),
            ToolbarPart::Space => String::new(),
        })
        .collect()
}

#[test]
fn constants_are_the_numbers_they_stand_for() {
    assert_eq!(f32::from_bits(MIN_ZOOM), 0.1);
    assert_eq!(f32::from_bits(MAX_ZOOM), 8.0);
    assert_eq!(f32::from_bits(INITIAL_WIDTH), 800.);
}

#[test]
fn fresh_views_start_at_the_top() {
    let view = PdfView::new(&document(&[100., 200.]));
    assert_eq!(view.zoom, None);
    assert_eq!(view.viewport_width, single(800.));
    assert_eq!((view.generation, view.sizes.len(), view.current_page), (1, 2, 0));
    assert_eq!(view.path.path, "document.pdf");
    assert_eq!(view.restored_position, None);
}

#[test]
fn positions_are_moved_into_the_document() {
    let mut view = PdfView::new(&document(&[100., 200.]));
    assert_eq!(view.restore_position(position(5, 2.)), position(1, 1.));
    assert_eq!(view.current_page, 1);
    assert_eq!(view.restore_position(position(0, -1.)), position(0, 0.));
    assert_eq!(view.restore_position(position(1, 0.25)), position(1, 0.25));
    let mut empty = PdfView::new(&document(&[]));
    assert_eq!(empty.restore_position(position(3, 0.5)), position(0, 0.5));
    assert_eq!(PdfView::position(9, single(1.5)), position(9, 1.));
}

#[test]
fn zoom_stays_within_its_limits() {
    let mut view = PdfView::new(&document(&[100.]));
    view.set_zoom(Some(single(100.)));
    assert_eq!(view.zoom, Some(single(8.)));
    view.set_zoom(Some(single(0.001)));
    assert_eq!(view.zoom, Some(single(0.1)));
    view.set_zoom(Some(single(2.5)));
    assert_eq!(view.zoom, Some(single(2.5)));
    assert_eq!(view.scale(single(3.)), single(2.5));
    view.reset_zoom();
    assert_eq!(view.zoom, Some(single(1.)));
    view.fit_width();
    assert_eq!(view.zoom, None);
    assert_eq!(view.scale(single(3.)), single(3.));
    assert_eq!(view.scale(single(30.)), single(8.));
    assert_eq!(view.scale(single(-1.)), single(0.1));
}

#[test]
fn widest_page_is_found() {
    assert_eq!(PdfView::new(&document(&[100., 300., 200.])).widest(), single(300.));
    assert_eq!(PdfView::new(&document(&[0.5])).widest(), single(1.));
    assert_eq!(PdfView::new(&document(&[])).widest(), single(1.));
}

#[test]
fn pages_are_turned() {
    let mut view = PdfView::new(&document(&[1., 1., 1.]));
    assert_eq!(view.next_page(), position(1, 0.));
    assert_eq!(view.next_page(), position(2, 0.));
    assert_eq!(view.next_page(), position(2, 0.));
    assert_eq!(view.previous_page(), position(1, 0.));
    assert_eq!(view.first_page(), position(0, 0.));
    assert_eq!(view.previous_page(), position(0, 0.));
    assert_eq!(view.last_page(), position(2, 0.));
    assert_eq!(view.go_to_page(1), position(1, 0.));
    view.scrolled(usize::MAX);
    assert_eq!(view.current_page, usize::MAX);
    assert_eq!(view.next_page(), position(2, 0.));
    let mut empty = PdfView::new(&document(&[]));
    assert_eq!(empty.next_page(), position(0, 0.));
    assert_eq!(empty.last_page(), position(0, 0.));
}

#[test]
fn document_changes_are_taken_over() {
    let mut document = document(&[1., 1., 1.]);
    let mut view = PdfView::new(&document);
    let change = view.document_changed(&document, position(2, 0.5));
    assert_eq!((change.scroll_to, change.event), (None, None));
    document.path.path = "renamed.pdf".to_owned();
    let change = view.document_changed(&document, position(2, 0.5));
    assert_eq!((change.scroll_to, change.event), (None, Some(PdfViewEvent)));
    assert_eq!(view.path.path, "renamed.pdf");
    let size = document.sizes[0];
    document.install_renderer(vec![size, size]);
    let change = view.document_changed(&document, position(2, 0.5));
    assert_eq!(change.scroll_to, Some(position(1, 0.5)));
    assert_eq!((view.generation, view.sizes.len(), view.current_page), (2, 2, 1));
}

#[test]
fn restored_places_wait_for_the_pages() {
    let mut document = document(&[]);
    let mut view = PdfView::new(&document);
    let saved = SavedView {
        page: 1,
        fraction: single(0.25),
        zoom: Some(single(20.)),
    };
    assert_eq!(view.resume(saved), None);
    assert_eq!(view.restored_position, Some(position(1, 0.25)));
    assert_eq!(view.zoom, Some(single(8.)));
    assert_eq!(view.saved(position(0, 0.)).page, 1);
    let size = PageSize {
        width: single(1.),
        height: single(1.),
    };
    document.install_renderer(vec![size, size]);
    let change = view.document_changed(&document, position(0, 0.));
    assert_eq!(change.scroll_to, Some(position(1, 0.25)));
    assert_eq!(view.restored_position, None);
    assert_eq!(view.saved(position(0, 0.75)).fraction, single(0.75));
}

#[test]
fn nonsense_is_not_restored() {
    let narrow = |x: Double| single(f64::from_bits(x.bits) as f32);
    let double = |x: f64| Double { bits: x.to_bits() };
    let checked = SavedState {
        page: -4,
        fraction: double(f64::NAN),
        zoom: Some(double(f64::INFINITY)),
    }
    .checked(narrow);
    assert_eq!(
        checked,
        SavedView {
            page: -4,
            fraction: single(0.),
            zoom: None
        }
    );
    let mut view = PdfView::new(&document(&[1., 1.]));
    assert_eq!(view.resume(checked), Some(position(0, 0.)));
    let checked = SavedState {
        page: 1,
        fraction: double(0.5),
        zoom: Some(double(2.)),
    }
    .checked(narrow);
    assert_eq!((checked.fraction, checked.zoom), (single(0.5), Some(single(2.))));
}

#[test]
fn tool_bar_follows_the_page() {
    let mut view = PdfView::new(&document(&[1., 1.]));
    assert_eq!(
        shown(&view.toolbar(false, "150%".to_owned())),
        vec![
            "previous-page|Previous|true|PreviousPage",
            "1 / 2",
            "next-page|Next|false|NextPage",
            "",
            "zoom-out|−|false|ZoomOut",
            "reset-zoom|150%|false|ResetZoom",
            "zoom-in|+|false|ZoomIn",
            "fit-width|Fit width|false|FitWidth",
            "reload|Reload|false|Reload",
        ]
    );
    view.last_page();
    let parts = shown(&view.toolbar(true, String::new()));
    assert_eq!(parts[0], "previous-page|Previous|false|PreviousPage");
    assert_eq!(parts[1], "2 / 2");
    assert_eq!(parts[2], "next-page|Next|true|NextPage");
    assert_eq!(parts[8], "reload|Reload|true|Reload");
    let empty = PdfView::new(&document(&[]));
    let parts = shown(&empty.toolbar(false, String::new()));
    assert_eq!(parts[1], "0 / 0");
    assert!(parts[0].contains("true") && parts[2].contains("true"));
}

#[test]
fn notices_tell_what_is_wrong() {
    let mut document = document(&[1.]);
    assert_eq!(PdfView::notices(&document), (None, None));
    assert_eq!(PdfView::reload(&mut document).1, ReloadAction::Load);
    document.renderer_stopped();
    let (loading, error) = PdfView::notices(&document);
    assert_eq!(loading, Some("Loading PDF…"));
    assert_eq!(error.as_deref(), Some("The PDF renderer stopped. Reload to try again."));
}

#[test]
fn pages_are_shown() {
    let mut document = document(&[1.]);
    let view = PdfView::new(&document);
    assert!(view.page_size(0).is_some() && view.page_size(1).is_none());
    let key = RenderKey::new(0, 10, 10);
    let (display, request) = PdfView::render_page(&mut document, key);
    assert!(matches!(display, PageDisplay::Rendering) && request);
    document.cache_page(CachedPage { key, result: Ok(3) });
    let (display, request) = PdfView::render_page(&mut document, key);
    assert!(matches!(display, PageDisplay::Image(3)) && !request);
    document.cache_page(CachedPage {
        key,
        result: Err("broken".to_owned()),
    });
    let (display, request) = PdfView::render_page(&mut document, key);
    assert!(matches!(display, PageDisplay::Error(message) if message == "broken") && !request);
}

#[test]
fn width_is_measured() {
    let mut view = PdfView::new(&document(&[1.]));
    assert!(!view.viewport_measured(single(0.), true));
    assert!(!view.viewport_measured(single(900.), false));
    assert_eq!(view.viewport_width, single(800.));
    assert!(view.viewport_measured(single(900.), true));
    assert_eq!(view.viewport_width, single(900.));
}

#[test]
fn commands_are_performed() {
    let mut document = document(&[1., 1., 1.]);
    let mut view = PdfView::new(&document);
    let mut perform = |command| view.perform(&mut document, command, single(1.2));
    assert_eq!(perform(ViewCommand::LastPage), Performed::ScrollTo(position(2, 0.)));
    assert_eq!(perform(ViewCommand::PreviousPage), Performed::ScrollTo(position(1, 0.)));
    assert_eq!(perform(ViewCommand::FirstPage), Performed::ScrollTo(position(0, 0.)));
    assert_eq!(perform(ViewCommand::NextPage), Performed::ScrollTo(position(1, 0.)));
    assert_eq!(
        perform(ViewCommand::Reload),
        Performed::Reload(ReloadTask { failures: 0 }, ReloadAction::Load)
    );
    assert_eq!(perform(ViewCommand::ZoomIn), Performed::Zoomed);
    assert_eq!(view.zoom, Some(single(1.2)));
    view.perform(&mut document, ViewCommand::ZoomOut, single(0.01));
    assert_eq!(view.zoom, Some(single(0.1)));
    view.perform(&mut document, ViewCommand::ResetZoom, single(5.));
    assert_eq!(view.zoom, Some(single(1.)));
    view.perform(&mut document, ViewCommand::FitWidth, single(5.));
    assert_eq!(view.zoom, None);
    assert!(document.loading);
}

#[test]
fn tabs_have_titles() {
    assert_eq!(PdfView::tab_content_text(None), "PDF");
    assert_eq!(PdfView::to_item_events(PdfViewEvent), vec![ItemEvent::UpdateTab]);
}
