use viewer_core::cache::CachedPage;
use viewer_core::document::{
    DocumentStatus, Documents, EntryChange, OpenDecision, OpenError, OpenedDocument, PdfDocument,
    ProjectPath, ReloadAction, ReloadEvent, ReloadTask, WorktreeEntry,
};
use viewer_core::number::{Double, Single};
use viewer_core::pdf_viewer::{PdfView, Position, SavedState};
use viewer_core::renderer::{load_document, PageSize, RenderKey};
use viewer_core::sample::test_pdf;

fn single(x: f32) -> Single {
    Single { bits: x.to_bits() }
}

fn path(path: &str) -> ProjectPath {
    ProjectPath {
        worktree_id: 1,
        path: path.to_owned(),
    }
}

fn sizes_of(content: Vec<u8>) -> Result<Vec<PageSize>, String> {
    match load_document(content) {
        Ok((_, sizes)) => Ok(sizes),
        Err(error) => Err(error.message().to_owned()),
    }
}

fn event(entry_id: u64, content: Vec<u8>) -> ReloadEvent {
    match sizes_of(content) {
        Ok(sizes) => ReloadEvent::Loaded {
            entry_id: Some(entry_id),
            sizes,
        },
        Err(message) => ReloadEvent::Failed(message),
    }
}

fn run_reload(
    document: &mut PdfDocument,
    mut task: ReloadTask,
    mut action: ReloadAction,
    entry_id: u64,
    content: &[u8],
) -> usize {
    let mut loads = 0;
    loop {
        let event = match action {
            ReloadAction::Sleep => ReloadEvent::Slept,
            ReloadAction::Load => {
                loads += 1;
                event(entry_id, content.to_vec())
            }
            ReloadAction::Stop => return loads,
        };
        let (next_task, next_action, _) = document.reload_step(task, event);
        task = next_task;
        action = next_action;
    }
}

fn open_document() -> PdfDocument {
    let (mut document, task, action) = PdfDocument::new(path("document.pdf"), Some(10));
    assert!(document.loading && document.sizes.is_empty() && document.generation == 0);
    let content = test_pdf(&[(100, 200, "1 0 0"), (200, 100, "0 0 1")]);
    assert_eq!(run_reload(&mut document, task, action, 10, &content), 1);
    assert!(document.error.is_none() && !document.loading);
    document
}

fn status(path: Option<ProjectPath>) -> DocumentStatus {
    DocumentStatus {
        project_open: true,
        path,
    }
}

#[test]
fn reload_preserves_document_on_failure_and_recovers() {
    let mut document = open_document();
    let generation = document.generation;
    let (task, action) = document.reload(true);
    assert!(document.loading);
    assert_eq!(action, ReloadAction::Sleep);
    let loads = run_reload(&mut document, task, action, 10, b"partial write");
    assert_eq!(loads, 3);
    assert!(document.error.is_some() && !document.loading);
    assert_eq!(document.generation, generation);
    assert_eq!(document.sizes.len(), 2);
    let (task, action) = document.reload(true);
    let content = test_pdf(&[(300, 400, "0 1 0")]);
    run_reload(&mut document, task, action, 10, &content);
    assert!(document.generation > generation);
    assert!(document.error.is_none());
    assert_eq!(document.sizes.len(), 1);
    assert_eq!(f32::from_bits(document.sizes[0].width.bits), 300.);
}

#[test]
fn split_shares_document_and_reload_preserves_fraction() {
    let mut document = open_document();
    let generation = document.generation;
    let (task, action) = document.reload(true);
    let content = test_pdf(&[(100, 1000, "1 0 0"), (200, 4000, "0 0 1")]);
    run_reload(&mut document, task, action, 10, &content);
    assert!(document.generation > generation);

    let mut documents = Documents::new();
    documents.register(&Vec::new(), 5, 77);
    let same = documents.decide(
        &vec![status(Some(document.path.clone()))],
        5,
        &document.path,
        true,
    );
    assert_eq!(same, Ok(OpenDecision::Existing(77)));

    let mut view = PdfView::new(&document);
    view.set_zoom(Some(single(1.)));
    let half = Position {
        page: 1,
        fraction: single(0.5),
    };
    assert_eq!(view.restore_position(half), half);
    let (mut split, target) = view.clone_on_split(&document, half);
    assert_eq!(target, half);
    assert_eq!(split.zoom, Some(single(1.)));
    assert_eq!(split.generation, view.generation);

    let (task, action) = document.reload(true);
    let content = test_pdf(&[(100, 1000, "1 0 0"), (200, 6000, "0 1 0")]);
    run_reload(&mut document, task, action, 10, &content);
    for view in [&mut view, &mut split] {
        let change = view.document_changed(&document, half);
        assert_eq!(change.scroll_to, Some(half));
        assert!(change.event.is_some());
        assert_eq!(view.current_page, 1);
    }
}

#[test]
fn opens_a_pdf_rooted_at_a_single_file() {
    assert_eq!(PdfDocument::try_open(Some("pdf"), true), Some(Ok(())));
    assert_eq!(PdfView::tab_content_text(Some("document.pdf")), "document.pdf");
}

#[test]
fn atomic_replacement_and_rename_keep_the_same_document() {
    let mut document = open_document();
    let generation = document.generation;
    let replaced = document.entries_updated(
        &vec![EntryChange {
            path: "document.pdf".to_owned(),
            id: 11,
        }],
        None,
        Some(WorktreeEntry {
            id: 11,
            path: "document.pdf".to_owned(),
        }),
    );
    let (task, action) = replaced.expect("the change concerns the document");
    assert_eq!(document.entry_id(), Some(11));
    let content = test_pdf(&[(300, 400, "0 1 0")]);
    run_reload(&mut document, task, action, 11, &content);
    assert!(document.generation > generation);
    assert_eq!(document.sizes.len(), 1);

    let renamed = document.entries_updated(
        &vec![EntryChange {
            path: "renamed.PDF".to_owned(),
            id: 11,
        }],
        Some(WorktreeEntry {
            id: 11,
            path: "renamed.PDF".to_owned(),
        }),
        None,
    );
    assert!(renamed.is_some());
    assert_eq!(document.path.path, "renamed.PDF");
    assert!(!document.deleted);
    assert_eq!(PdfDocument::try_open(Some("PDF"), true), Some(Ok(())));
    let mut documents = Documents::new();
    documents.register(&Vec::new(), 5, 77);
    let reopened = documents.decide(
        &vec![status(Some(document.project_path()))],
        5,
        &path("renamed.PDF"),
        true,
    );
    assert_eq!(reopened, Ok(OpenDecision::Existing(77)));
}

#[test]
fn saved_state_round_trips() {
    let saved = SavedState {
        page: 7,
        fraction: Double { bits: 0.4f64.to_bits() },
        zoom: Some(Double { bits: 1.5f64.to_bits() }),
    };
    let narrow = |x: Double| single(f64::from_bits(x.bits) as f32);
    let mut document = open_document();
    document.sizes = vec![document.sizes[0]; 10];
    let mut view = PdfView::new(&document);
    let target = view.resume(saved.checked(narrow)).expect("the document is read");
    assert_eq!((target.page, target.fraction), (7, single(0.4)));
    let again = view.saved(target);
    assert_eq!(again.page, 7);
    assert_eq!(f32::from_bits(again.fraction.bits), 0.4);
    assert_eq!(again.zoom, Some(single(1.5)));
}

#[test]
fn failures_are_retried() {
    let (mut document, task, action) = PdfDocument::new(path("a.pdf"), None);
    assert_eq!(action, ReloadAction::Load);
    let (task, action, dropped) = document.reload_step(task, ReloadEvent::Failed("one".to_owned()));
    assert_eq!((task.failures, action), (1, ReloadAction::Sleep));
    assert!(dropped.is_empty() && document.loading && document.error.is_none());
    let (task, action, _) = document.reload_step(task, ReloadEvent::Slept);
    assert_eq!(action, ReloadAction::Load);
    let (task, action, _) = document.reload_step(task, ReloadEvent::Failed("two".to_owned()));
    assert_eq!((task.failures, action), (2, ReloadAction::Sleep));
    let (task, action, _) = document.reload_step(task, ReloadEvent::Failed("three".to_owned()));
    assert_eq!((task.failures, action), (2, ReloadAction::Stop));
    assert_eq!(document.error.as_deref(), Some("three"));
    assert!(!document.loading);
}

#[test]
fn closed_documents_are_not_read() {
    let (mut document, task, _) = PdfDocument::new(path("a.pdf"), None);
    let (_, action, dropped) = document.reload_step(task, ReloadEvent::Closed);
    assert_eq!(action, ReloadAction::Stop);
    assert!(dropped.is_empty());
}

#[test]
fn new_pages_replace_the_images() {
    let mut document = open_document();
    let key = RenderKey::new(0, 10, 10);
    document.cache_page(CachedPage { key, result: Ok(4) });
    let (task, _) = document.reload(false);
    let sizes = document.sizes.clone();
    let (_, _, dropped) = document.reload_step(
        task,
        ReloadEvent::Loaded {
            entry_id: Some(12),
            sizes,
        },
    );
    assert_eq!(dropped, vec![4]);
    assert_eq!(document.entry_id(), Some(12));
    assert_eq!(document.cache.len(), 0);
}

#[test]
fn stopped_renderers_are_reported() {
    let mut document = open_document();
    document.renderer_stopped();
    assert_eq!(
        document.error.as_deref(),
        Some("The PDF renderer stopped. Reload to try again.")
    );
    assert_eq!(document.sizes.len(), 2);
}

#[test]
fn unrelated_changes_are_ignored() {
    let mut document = open_document();
    let changes = vec![EntryChange {
        path: "other.pdf".to_owned(),
        id: 99,
    }];
    assert!(document.entries_updated(&changes, None, None).is_none());
    assert!(!document.loading && !document.deleted);
}

#[test]
fn deleted_files_are_noticed() {
    let mut document = open_document();
    let changes = vec![EntryChange {
        path: "elsewhere.pdf".to_owned(),
        id: 10,
    }];
    let (task, action) = document
        .entries_updated(&changes, None, None)
        .expect("the change concerns the document");
    assert_eq!((task.failures, action), (0, ReloadAction::Sleep));
    assert!(document.deleted && document.loading);
    assert_eq!(document.path.path, "document.pdf");
    assert!(PdfView::has_deleted_file(&document));
}

#[test]
fn pages_are_looked_up() {
    let mut document = open_document();
    let small = RenderKey::new(0, 10, 10);
    let large = RenderKey::new(0, 20, 20);
    let answer = document.page(small);
    assert_eq!((answer.result, answer.request), (Ok(None), true));
    document.cache_page(CachedPage {
        key: small,
        result: Ok(4),
    });
    let answer = document.page(small);
    assert_eq!((answer.result, answer.request), (Ok(Some(4)), false));
    let answer = document.page(large);
    assert_eq!((answer.result, answer.request), (Ok(Some(4)), true));
    document.cache_page(CachedPage {
        key: large,
        result: Err("broken".to_owned()),
    });
    let answer = document.page(large);
    assert_eq!((answer.result, answer.request), (Err("broken".to_owned()), false));
    assert_eq!(document.clear_cache(), vec![4]);
}

#[test]
fn nothing_is_requested_without_a_renderer() {
    let (mut document, _, _) = PdfDocument::new(path("a.pdf"), None);
    let answer = document.page(RenderKey::new(0, 1, 1));
    assert_eq!((answer.result, answer.request), (Ok(None), false));
    assert!(!document.is_dirty());
    assert_eq!(document.project_path().path, "a.pdf");
}

#[test]
fn documents_are_registered() {
    let mut documents = Documents::new();
    let a = path("a.pdf");
    assert_eq!(
        documents.decide(&Vec::new(), 1, &a, false),
        Err(OpenError::WorktreeMissing)
    );
    assert_eq!(documents.decide(&Vec::new(), 1, &a, true), Ok(OpenDecision::New));
    documents.register(&Vec::new(), 1, 100);
    let open = || vec![status(Some(path("a.pdf")))];
    assert_eq!(documents.decide(&open(), 1, &a, false), Ok(OpenDecision::Existing(100)));
    assert_eq!(documents.decide(&open(), 2, &a, true), Ok(OpenDecision::New));
    assert_eq!(documents.decide(&vec![status(None)], 1, &a, true), Ok(OpenDecision::New));
    let elsewhere = ProjectPath {
        worktree_id: 2,
        path: "a.pdf".to_owned(),
    };
    assert_eq!(documents.decide(&open(), 1, &elsewhere, true), Ok(OpenDecision::New));
    documents.register(&open(), 2, 200);
    assert_eq!(documents.entries.len(), 2);
    let closed = DocumentStatus {
        project_open: false,
        path: Some(path("a.pdf")),
    };
    documents.register(&vec![closed, status(Some(path("b.pdf")))], 2, 300);
    let numbers: Vec<u64> = documents.entries.iter().map(|entry| entry.document).collect();
    assert_eq!(numbers, vec![200, 300]);
}

#[test]
fn documents_are_opened_once() {
    let mut documents = Documents::new();
    let a = path("a.pdf");
    let none = Vec::new();
    assert!(matches!(
        PdfDocument::open(&mut documents, &none, 1, &a, false, None, 100),
        Err(OpenError::WorktreeMissing)
    ));
    assert!(documents.entries.is_empty());
    match PdfDocument::open(&mut documents, &none, 1, &a, true, Some(4), 100) {
        Ok(OpenedDocument::New {
            document,
            task,
            action,
        }) => {
            assert_eq!(document.entry_id(), Some(4));
            assert_eq!(document.path.path, "a.pdf");
            assert_eq!((task.failures, action), (0, ReloadAction::Load));
        }
        _ => panic!("the document is new"),
    }
    assert_eq!(documents.entries.len(), 1);
    let open = vec![status(Some(path("a.pdf")))];
    assert!(matches!(
        PdfDocument::open(&mut documents, &open, 1, &a, true, Some(4), 101),
        Ok(OpenedDocument::Existing(100))
    ));
    assert_eq!(documents.entries.len(), 1);
}

#[test]
fn open_errors_have_messages() {
    assert_eq!(OpenError::WorktreeMissing.message(), "PDF worktree no longer exists");
    assert_eq!(
        PdfDocument::try_open(Some("pDf"), false),
        Some(Err(OpenError::RemoteProject))
    );
    assert_eq!(
        OpenError::RemoteProject.message(),
        "PDF viewing is currently available only for local projects"
    );
    assert_eq!(PdfDocument::try_open(Some("txt"), true), None);
    assert_eq!(PdfDocument::try_open(None, true), None);
}
