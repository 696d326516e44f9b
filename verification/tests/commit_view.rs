use image::GenericImageView;
use viewer_core::commit_toolbar::{CommitViewToolbar, ToolbarItemLocation};
use viewer_core::commit_view::{
    commit_time, offers_file_at_head, CommitView, EditorEvent, EditorSetup, UnshallowState,
    ViewType, FIRST_TIMESTAMP, LAST_TIMESTAMP,
};
use viewer_core::diff_loader::{
    excerpt_ranges, is_image_path, plan_file, working_file_checked, DiffBase, DiffFailure,
    DiffLoader, DiffScope, FilePlan, LoadAction, LoadEvent, Point, PointRange, Stage,
};
use viewer_core::document::ProjectPath;
use viewer_core::historical::{
    can_edit_historical_buffer, gutter_range, BufferEvent, BufferState, DecodedImage, FileState,
    HistoricalEditing, HistoricalImage, HistoricalImageDiff, ImageBody, ImageMetadata, LineEnding,
};
use viewer_core::open_commit::{
    filter_files, open_outcome, plan_in_pane, CommitIdentity, OpenOutcome, PanePlan, Reply,
};
use viewer_core::repository::{
    file_at_head, remote_url, stash_matches_index, worktree_id_for_repo_path, CommitDetails,
    CommitDiff, CommitFile, DiskState, GitBlob, GitRemote, RepoPath, StatusCode,
};
use viewer_core::stash::{step as stash_step, StashAction, StashEvent, StashStage, StashStep};

const SHA: &str = "1111111111111111111111111111111111111111";

fn repo_path(path: &str) -> RepoPath {
    RepoPath {
        unix: path.to_owned(),
        file_name: path.rsplit('/').next().map(str::to_owned),
        display: path.to_owned(),
    }
}

fn details(message: &str) -> CommitDetails {
    CommitDetails {
        sha: SHA.to_owned(),
        message: message.to_owned(),
        commit_timestamp: 0,
        author_email: "author@example.com".to_owned(),
        author_name: "Author".to_owned(),
    }
}

fn text_file(path: &str, old: Option<&str>, new: Option<&str>) -> CommitFile {
    CommitFile {
        path: repo_path(path),
        old_text: old.map(str::to_owned),
        new_text: new.map(str::to_owned),
        is_binary: false,
        old_binary: None,
        new_binary: None,
    }
}

fn view_of(files: Vec<CommitFile>, filter: Option<&str>) -> (CommitView, EditorSetup, DiffLoader, LoadAction) {
    CommitView::new(
        details("Change text"),
        CommitDiff {
            files,
            is_shallow_boundary: false,
        },
        1,
        None,
        None,
        filter.map(repo_path),
    )
}

fn plain_view() -> CommitView {
    view_of(Vec::new(), None).0
}

fn buffer(text: &str, line_ending: LineEnding) -> BufferState {
    BufferState {
        is_writable: true,
        is_dirty: false,
        has_conflict: false,
        file: Some(FileState {
            is_local: true,
            on_disk: true,
            is_plain_entry: true,
        }),
        line_ending,
        text: text.to_owned(),
    }
}

fn normalized(text: &str) -> (LineEnding, String) {
    if text.contains("\r\n") {
        (LineEnding::Windows, text.replace("\r\n", "\n"))
    } else {
        (LineEnding::Unix, text.to_owned())
    }
}

/// Does all the work that a loader asks for. The number of a buffer or a comparison tells when it
/// was made; `working` is the working file.
fn run(
    view: &mut CommitView,
    loader: &mut DiffLoader,
    mut action: LoadAction,
    working: Option<&BufferState>,
    hunks: usize,
) -> Vec<String> {
    let mut log = Vec::new();
    let mut made = 0;
    loop {
        let event = match action {
            LoadAction::LoadImages => {
                let plan = loader.current_image().expect("an image is loaded");
                view.show_images(HistoricalImageDiff {
                    before: HistoricalImage::load(plan.old_bytes.clone(), plan.old_present, decode),
                    after: HistoricalImage::load(plan.new_bytes.clone(), plan.new_present, decode),
                });
                LoadEvent::ImagesLoaded
            }
            LoadAction::FindWorktree => LoadEvent::Worktree(Some(5)),
            LoadAction::BuildBuffer { worktree } => {
                let plan = loader.current_text().expect("a text is loaded");
                let blob = plan.blob(&view.commit.sha, worktree);
                log.push(format!("{}: {:?}", blob.file_name(), plan.new_text));
                made += 1;
                LoadEvent::Built(Some(made))
            }
            LoadAction::BuildDiff { buffer, base } => {
                let plan = loader.current_text().expect("a text is loaded");
                log.push(format!("diff {buffer} {:?}", plan.base_text(base)));
                made += 1;
                LoadEvent::Built(Some(made))
            }
            LoadAction::OpenWorkingFile => LoadEvent::Opened(working.map(|_| 1000)),
            LoadAction::CheckWorkingFile { candidate } => {
                assert_eq!(candidate, 1000);
                let plan = loader.current_text().expect("a text is loaded");
                let (line_ending, text) = normalized(&plan.new_text);
                let state = working.expect("the working file was opened");
                working_file_checked(state, line_ending, &text)
            }
            LoadAction::Attach {
                candidate,
                diff,
                edits_diff,
            } => {
                let plan = loader.current_text().expect("a text is loaded");
                view.attach_editing(plan.editing(candidate, diff, edits_diff));
                LoadEvent::Attached
            }
            LoadAction::Identify { buffer } => LoadEvent::Identified(buffer),
            LoadAction::Measure { whole, .. } => {
                let hunk = PointRange {
                    start: Point { row: 1, column: 0 },
                    end: Point { row: 2, column: 0 },
                };
                let end = Point { row: 9, column: 0 };
                LoadEvent::Measured(excerpt_ranges(whole, vec![hunk; hunks], end).len())
            }
            LoadAction::ShowExcerpts {
                buffer,
                count,
                first,
                ..
            } => {
                log.push(format!("show {buffer} {count} {first}"));
                LoadEvent::Shown
            }
            LoadAction::Yield => LoadEvent::Resumed,
            LoadAction::Finish { fold_binaries } => {
                log.push(format!("finish {fold_binaries}"));
                LoadEvent::Finished
            }
            LoadAction::Stop => return log,
            LoadAction::Fail(failure) => {
                log.push(format!("fail {failure:?}"));
                return log;
            }
            LoadAction::Wait => panic!("nothing to do"),
        };
        action = loader.step(event);
    }
}

fn decode(bytes: Vec<u8>) -> Result<DecodedImage, String> {
    match image::load_from_memory(&bytes) {
        Ok(image) => Ok(DecodedImage {
            image: u64::from(image.get_pixel(0, 0).0[0]),
            metadata: ImageMetadata {
                width: image.width(),
                height: image.height(),
                file_size: bytes.len() as u64,
            },
        }),
        Err(error) => Err(error.to_string()),
    }
}

#[test]
fn test_conservative_historical_editing() {
    for (working_text, commit_text, unsaved, editable) in [
        (Some("committed\n"), Some("committed\n"), false, true),
        (Some("newer\n"), Some("committed\n"), false, false),
        (Some("disk\n"), Some("committed\n"), true, false),
        (None, Some("committed\n"), false, false),
        (Some("committed\n"), None, false, false),
        (Some("committed\r\n"), Some("committed\n"), false, false),
    ] {
        let files = vec![text_file("file.txt", Some("parent\n"), commit_text)];
        let (mut view, _, mut loader, action) = view_of(files, Some("file.txt"));
        let working = working_text.map(|text| {
            let (line_ending, text) = normalized(text);
            let mut state = buffer(&text, line_ending);
            if unsaved {
                state.text = commit_text.expect("commit text").to_owned();
                state.is_dirty = true;
            }
            state
        });
        run(&mut view, &mut loader, action, working.as_ref(), 1);
        assert_eq!(
            view.editing.is_some(),
            editable,
            "working={working_text:?}, unsaved={unsaved}"
        );
        assert_eq!(!view.is_read_only, editable);
        assert_eq!(view.on_editor_event(EditorEvent::BufferEdited, true), editable);
        assert_eq!(view.is_dirty(true), editable);
        assert_eq!(view.can_save(true), editable);
        assert_eq!(view.save(), editable);
        if let Some(editing) = &view.editing {
            assert_eq!(editing.buffer, 1000);
            assert_eq!(editing.parent_text.as_deref(), Some("parent\n"));
            assert_eq!(editing.commit_text, "committed\n");
            assert!(!view.on_editor_event(EditorEvent::BufferEdited, false));
            assert!(!view.is_dirty(false));
        }
    }
}

#[test]
fn test_historical_image_diff() {
    let red = b"P6\n1 1\n255\n\xff\0\0".to_vec();
    let blue = b"P6\n1 1\n255\n\0\0\xff".to_vec();
    for (before, after) in [
        (Some(red.clone()), Some(blue.clone())),
        (None, Some(red.clone())),
        (Some(blue), None),
    ] {
        let file = CommitFile {
            path: repo_path("image.ppm"),
            old_text: before.as_ref().map(|_| String::new()),
            new_text: after.as_ref().map(|_| String::new()),
            is_binary: true,
            old_binary: before.clone(),
            new_binary: after.clone(),
        };
        let (mut view, _, mut loader, action) = view_of(vec![file], Some("image.ppm"));
        assert_eq!(action, LoadAction::LoadImages);
        let log = run(&mut view, &mut loader, action, None, 0);
        assert_eq!(log, vec!["finish false"]);
        assert!(view.editing.is_none());
        assert!(!view.can_save(true));
        let images = view.image_diff.as_ref().expect("image diff");
        for (image, there) in [
            (&images.before, before.is_some()),
            (&images.after, after.is_some()),
        ] {
            match image {
                HistoricalImage::Loaded { metadata, .. } => {
                    assert!(there);
                    assert_eq!((metadata.width, metadata.height), (1, 1));
                }
                HistoricalImage::Missing => assert!(!there),
                HistoricalImage::Error(error) => panic!("unexpected image error: {error}"),
            }
        }
        for (label, image, there) in [
            ("Before", &images.before, before.is_some()),
            ("After", &images.after, after.is_some()),
        ] {
            let fitted = image.render(label, false);
            assert_eq!(matches!(fitted.body, ImageBody::Image { size: None, .. }), there);
            let actual = image.render(label, true);
            assert_eq!(
                matches!(actual.body, ImageBody::Image { size: Some((1, 1)), .. }),
                there
            );
        }
    }
    assert!(matches!(
        HistoricalImage::load(Some(b"broken image".to_vec()), true, decode),
        HistoricalImage::Error(_)
    ));
    assert!(matches!(
        HistoricalImage::load(None, true, decode),
        HistoricalImage::Error(_)
    ));
}

#[test]
fn test_history_file_full_context_and_working_file() {
    for first_change_row in [0, 100] {
        let old_text: String = (0..200).map(|line| format!("line {line}\n")).collect();
        let new_text = old_text
            .replace(&format!("line {first_change_row}\n"), "modified line\n")
            .replace("line 170\n", "another change\n");
        let files = vec![text_file("file.txt", Some(&old_text), Some(&new_text))];
        let (mut view, setup, mut loader, action) = view_of(files, Some("file.txt"));
        assert!(!setup.show_headers && setup.show_scrollbar_markers && setup.is_writable);
        assert_eq!(loader.current_text().map(|plan| plan.new_text.as_str()), Some(new_text.as_str()));
        let working = buffer("working file\n", LineEnding::Unix);
        let log = run(&mut view, &mut loader, action, Some(&working), 2);
        assert_eq!(log[0], format!("1111111 - file.txt: {new_text:?}"));
        assert_eq!(log[1], format!("diff 1 {:?}", Some(&old_text)));
        assert_eq!(log[2..], ["show 1 1 true", "finish false"]);
        let shown = |first| LoadAction::ShowExcerpts {
            buffer: 1,
            diff: 2,
            count: 1,
            first,
        };
        let rows = vec![first_change_row, 170];
        let caret = loader.caret(shown(true), &rows);
        assert_eq!(caret, Some(Point { row: first_change_row, column: 0 }));
        assert_eq!(loader.caret(shown(false), &rows), None);
        assert_eq!(loader.caret(shown(true), &Vec::new()), None);
        assert_eq!(loader.caret(LoadAction::Yield, &rows), None);
        assert!(view.is_read_only);
        let path = ProjectPath {
            worktree_id: 5,
            path: "file.txt".to_owned(),
        };
        assert_eq!(
            view.working_repo_path(None).map(|path| path.unix),
            Some("file.txt".to_owned())
        );
        assert!(CommitView::working_file_path(Some(path.clone()), true).is_some());
        assert!(CommitView::working_file_path(Some(path), false).is_none());
        assert!(CommitView::working_file_path(None, true).is_none());
        assert_eq!(view.tab_content_text("Change a line"), "file.txt — 1111111");
    }
}

#[test]
fn test_history_file_preview_identity_and_pinning() {
    let identity = |path: Option<&str>| CommitIdentity {
        sha: SHA.to_owned(),
        repository: 1,
        stash: None,
        file_filter: path.map(repo_path),
        is_shallow_boundary: false,
    };
    let mut items: Vec<Option<CommitIdentity>> = Vec::new();
    let mut preview_item: Option<usize> = None;
    let mut open = |request_preview: bool, path: Option<&str>| {
        let request = if path.is_some() {
            CommitView::open_preview(SHA.to_owned(), path.map(repo_path), request_preview)
        } else {
            CommitView::open(SHA.to_owned(), None, None)
        };
        let new = identity(request.file_filter.as_ref().map(|path| path.unix.as_str()));
        let active = match plan_in_pane(&items, &new, request.preview, true) {
            PanePlan::Activate {
                index, unpreview, ..
            } => {
                if unpreview && preview_item == Some(index) {
                    preview_item = None;
                }
                index
            }
            PanePlan::Add {
                remove,
                replace_preview,
                focus,
            } => {
                assert_eq!(focus, !request.preview);
                assert_eq!(remove, None);
                if let (true, Some(index)) = (replace_preview, preview_item) {
                    items.remove(index);
                }
                items.push(Some(new));
                if replace_preview {
                    preview_item = Some(items.len() - 1);
                }
                items.len() - 1
            }
        };
        (items.len(), active == items.len() - 1, preview_item == Some(active))
    };
    for (path, preview, expected_count) in [
        ("a.txt", true, 1),
        ("b.txt", true, 1),
        ("b.txt", false, 1),
        ("a.txt", true, 2),
    ] {
        let (count, last, is_preview) = open(preview, Some(path));
        assert_eq!(count, expected_count);
        assert!(last);
        assert_eq!(is_preview, preview);
    }
    let (count, last, is_preview) = open(false, None);
    assert_eq!((count, last, is_preview), (3, true, false));
}

#[test]
fn identities_are_told_apart() {
    let mut view = plain_view();
    let items = vec![None, Some(view.identity())];
    assert_eq!(
        plan_in_pane(&items, &view.identity(), false, true),
        PanePlan::Activate {
            index: 1,
            unpreview: true,
            focus: true
        }
    );
    assert_eq!(
        plan_in_pane(&items, &view.identity(), true, true),
        PanePlan::Activate {
            index: 1,
            unpreview: false,
            focus: false
        }
    );
    view.is_shallow_boundary = true;
    assert_eq!(
        plan_in_pane(&items, &view.identity(), true, false),
        PanePlan::Add {
            remove: Some(1),
            replace_preview: false,
            focus: false
        }
    );
    let added = PanePlan::Add {
        remove: None,
        replace_preview: false,
        focus: true,
    };
    let mut other = plain_view();
    other.repository = 2;
    assert_eq!(plan_in_pane(&items, &other.identity(), false, true), added);
    let mut other = plain_view();
    other.stash = Some(0);
    assert_eq!(plan_in_pane(&items, &other.identity(), false, true), added);
    let mut other = plain_view();
    other.commit.sha = "2".to_owned();
    assert_eq!(plan_in_pane(&items, &other.identity(), false, true), added);
    let mut other = plain_view();
    other.file_filter = Some(repo_path("a"));
    assert_eq!(plan_in_pane(&items, &other.identity(), false, true), added);
}

#[test]
fn files_are_filtered() {
    let files = || {
        vec![
            text_file("a", None, Some("1")),
            text_file("b", None, Some("2")),
            text_file("a", None, Some("3")),
        ]
    };
    let texts = |files: Vec<CommitFile>| -> Vec<String> {
        files.into_iter().filter_map(|file| file.new_text).collect()
    };
    assert_eq!(texts(filter_files(files(), &Some(repo_path("a")))), vec!["1", "3"]);
    assert_eq!(texts(filter_files(files(), &Some(repo_path("c")))), Vec::<String>::new());
    assert_eq!(texts(filter_files(files(), &None)), vec!["1", "2", "3"]);
}

#[test]
fn requests_have_outcomes() {
    let request = CommitView::open(SHA.to_owned(), Some(3), Some(repo_path("a")));
    assert_eq!((request.stash, request.preview), (Some(3), false));
    assert!(!request.ignore_shallow_boundary);
    let diff = || {
        Reply::Ready(CommitDiff {
            files: vec![text_file("a", None, Some("1")), text_file("b", None, Some("2"))],
            is_shallow_boundary: true,
        })
    };
    let commit = || Reply::Ready(details("Subject"));
    let message = |outcome| match outcome {
        OpenOutcome::Refused(message) => Some(message),
        _ => None,
    };
    match open_outcome(&request, Some(diff()), Some(commit()), true) {
        OpenOutcome::Ready { diff, details } => {
            assert_eq!(diff.files.len(), 1);
            assert!(diff.is_shallow_boundary);
            assert_eq!(details.message, "Subject");
        }
        other => panic!("unexpected outcome {other:?}"),
    }
    assert!(matches!(
        open_outcome(&request, Some(diff()), Some(commit()), false),
        OpenOutcome::Abandoned
    ));
    assert!(matches!(open_outcome(&request, None, Some(commit()), true), OpenOutcome::Abandoned));
    assert!(matches!(open_outcome(&request, Some(diff()), None, true), OpenOutcome::Abandoned));
    assert_eq!(
        message(open_outcome(&request, Some(Reply::Cancelled), Some(Reply::Cancelled), true)),
        Some("Commit diff request was cancelled".to_owned())
    );
    assert_eq!(
        message(open_outcome(&request, Some(diff()), Some(Reply::Cancelled), true)),
        Some("Commit details request was cancelled".to_owned())
    );
    assert_eq!(
        message(open_outcome(&request, Some(diff()), Some(Reply::Failed("gone".to_owned())), false)),
        Some("gone".to_owned())
    );
}

#[test]
fn images_are_known_by_their_extension() {
    for path in ["a.PNG", "b/c.jpeg", "x.tiff", "png", "y.pbm", "z.WebP", "i.ico"] {
        assert!(is_image_path(path), "{path}");
    }
    for path in ["a.png.txt", "b.svg", "", "jpg/file", "a.png "] {
        assert!(!is_image_path(path), "{path}");
    }
}

#[test]
fn files_are_planned() {
    let scope = DiffScope {
        showing_full_file: true,
        is_stash: false,
        is_shallow_boundary: false,
    };
    let plan = |file, scope| match plan_file(file, scope) {
        FilePlan::Text(plan) => plan,
        FilePlan::Image(_) => panic!("not an image"),
    };
    let modified = || text_file("a", Some("old"), Some("new"));
    let text = plan(modified(), scope);
    assert_eq!((text.status, text.is_deleted, text.may_edit), (StatusCode::Modified, false, true));
    assert_eq!((text.new_text.as_str(), text.old_text.as_deref()), ("new", Some("old")));
    let text = plan(text_file("a", None, Some("new")), scope);
    assert_eq!((text.status, text.may_edit), (StatusCode::Added, true));
    let text = plan(text_file("a", Some("old"), None), scope);
    assert_eq!((text.status, text.is_deleted, text.may_edit), (StatusCode::Deleted, true, false));
    assert_eq!(text.new_text, "");
    let text = plan(text_file("a", None, None), scope);
    assert_eq!((text.status, text.is_deleted), (StatusCode::Added, true));
    for other in [
        DiffScope { showing_full_file: false, ..scope },
        DiffScope { is_stash: true, ..scope },
        DiffScope { is_shallow_boundary: true, ..scope },
    ] {
        assert!(!plan(modified(), other).may_edit);
    }
    let mut binary = text_file("a.bin", Some(""), Some(""));
    binary.is_binary = true;
    let text = plan(binary, scope);
    assert_eq!((text.is_binary, text.may_edit), (true, false));
    assert_eq!((text.new_text.as_str(), text.old_text), ("(binary file not shown)", None));
    let mut picture = text_file("a.png", Some(""), Some(""));
    picture.is_binary = true;
    assert!(plan(picture, DiffScope { showing_full_file: false, ..scope }).is_binary);
}

#[test]
fn whole_commits_are_loaded() {
    let mut binary = text_file("b.bin", Some(""), Some(""));
    binary.is_binary = true;
    let files = vec![
        text_file("dir/a.txt", Some("old"), Some("new")),
        binary,
        text_file("c.txt", Some("old"), None),
    ];
    let (mut view, setup, mut loader, action) = view_of(files, None);
    assert!(setup.show_headers && !setup.is_writable && setup.is_read_only);
    assert_eq!(action, LoadAction::FindWorktree);
    let log = run(&mut view, &mut loader, action, None, 23);
    assert_eq!(
        log,
        vec![
            "1111111 - a.txt: \"new\"",
            "diff 1 Some(\"old\")",
            "show 1 10 true",
            "show 1 20 false",
            "show 1 23 false",
            "1111111 - b.bin: \"(binary file not shown)\"",
            "diff 3 None",
            "show 3 1 true",
            "1111111 - c.txt: \"\"",
            "diff 5 Some(\"old\")",
            "show 5 10 true",
            "show 5 20 false",
            "show 5 23 false",
            "finish true",
        ]
    );
    assert_eq!(loader.status_of(1), Some(StatusCode::Modified));
    assert_eq!(loader.status_of(5), Some(StatusCode::Deleted));
    assert_eq!(loader.status_of(2), None);
    assert!(loader.binaries.contains(&3) && loader.binaries.len() == 1);
    assert_eq!(loader.stage, Stage::Done);
    assert_eq!(loader.step(LoadEvent::Shown), LoadAction::Wait);
}

#[test]
fn loading_can_fail() {
    let start = || view_of(vec![text_file("a", None, Some("new"))], Some("a")).2;
    let mut loader = start();
    assert_eq!(
        loader.step(LoadEvent::Worktree(None)),
        LoadAction::Fail(DiffFailure::NoWorktree)
    );
    assert_eq!(DiffFailure::NoWorktree.message(), Some("project has no worktrees"));
    assert_eq!(DiffFailure::Diff.message(), None);
    assert_eq!(loader.step(LoadEvent::Worktree(Some(1))), LoadAction::Wait);
    let mut loader = start();
    assert_eq!(loader.step(LoadEvent::Identified(1)), LoadAction::Wait);
    loader.step(LoadEvent::Worktree(Some(1)));
    assert_eq!(loader.step(LoadEvent::Built(None)), LoadAction::Fail(DiffFailure::Buffer));
    let mut loader = start();
    loader.step(LoadEvent::Worktree(Some(1)));
    loader.step(LoadEvent::Built(Some(1)));
    assert_eq!(loader.step(LoadEvent::Built(None)), LoadAction::Fail(DiffFailure::Diff));
    let mut loader = start();
    assert_eq!(
        loader.step(LoadEvent::ViewClosed),
        LoadAction::Fail(DiffFailure::ViewClosed)
    );
}

#[test]
fn working_file_is_checked_twice() {
    let (_, _, mut loader, _) = view_of(vec![text_file("a", None, Some("new"))], Some("a"));
    loader.step(LoadEvent::Worktree(Some(1)));
    loader.step(LoadEvent::Built(Some(10)));
    assert_eq!(loader.step(LoadEvent::Built(Some(11))), LoadAction::OpenWorkingFile);
    assert_eq!(
        loader.step(LoadEvent::Opened(Some(20))),
        LoadAction::CheckWorkingFile { candidate: 20 }
    );
    assert_eq!(
        loader.step(LoadEvent::Checked(true)),
        LoadAction::BuildDiff {
            buffer: 20,
            base: DiffBase::Parent
        }
    );
    assert_eq!(
        loader.step(LoadEvent::Built(Some(21))),
        LoadAction::BuildDiff {
            buffer: 20,
            base: DiffBase::Commit
        }
    );
    assert_eq!(
        loader.step(LoadEvent::Built(Some(22))),
        LoadAction::CheckWorkingFile { candidate: 20 }
    );
    assert_eq!(
        loader.step(LoadEvent::Checked(false)),
        LoadAction::Identify { buffer: 10 }
    );
}

#[test]
fn unchanged_files_are_shown_whole() {
    let end = Point { row: 4, column: 2 };
    let all = PointRange {
        start: Point { row: 0, column: 0 },
        end,
    };
    let hunk = PointRange {
        start: Point { row: 1, column: 0 },
        end,
    };
    assert_eq!(excerpt_ranges(false, Vec::new(), end), vec![all]);
    assert_eq!(excerpt_ranges(true, vec![hunk], end), vec![all]);
    assert_eq!(excerpt_ranges(false, vec![hunk, hunk], end), vec![hunk, hunk]);
}

#[test]
fn every_doubt_forbids_editing() {
    let unix = LineEnding::Unix;
    let good = || buffer("text\n", unix);
    let can_edit = |state: BufferState| can_edit_historical_buffer(&state, unix, "text\n");
    assert!(can_edit(good()));
    assert!(!can_edit(BufferState { is_writable: false, ..good() }));
    assert!(!can_edit(BufferState { is_dirty: true, ..good() }));
    assert!(!can_edit(BufferState { has_conflict: true, ..good() }));
    assert!(!can_edit(BufferState { file: None, ..good() }));
    let file = FileState {
        is_local: true,
        on_disk: true,
        is_plain_entry: true,
    };
    for file in [
        FileState { is_local: false, ..file },
        FileState { on_disk: false, ..file },
        FileState { is_plain_entry: false, ..file },
    ] {
        assert!(!can_edit(BufferState { file: Some(file), ..good() }));
    }
    assert!(!can_edit(BufferState { line_ending: LineEnding::Windows, ..good() }));
    assert!(!can_edit(BufferState { text: "other".to_owned(), ..good() }));
}

#[test]
fn comparisons_are_made_again() {
    let editing = HistoricalEditing {
        buffer: 1,
        diff: 2,
        edits_diff: 3,
        parent_text: Some("parent".to_owned()),
        commit_text: "commit".to_owned(),
    };
    let (first, second) = editing.refresh();
    assert_eq!((first.diff, first.base.as_deref()), (2, Some("parent")));
    assert_eq!((second.diff, second.base.as_deref()), (3, Some("commit")));
    assert!(HistoricalEditing::needs_refresh(BufferEvent::Edited));
    assert!(HistoricalEditing::needs_refresh(BufferEvent::Reloaded));
    assert!(!HistoricalEditing::needs_refresh(BufferEvent::Other));
    assert_eq!(gutter_range(3, 3), (3, 3));
    assert_eq!(gutter_range(3, 7), (3, 6));
}

#[test]
fn images_are_described() {
    let loaded = HistoricalImage::load(Some(b"P6\n1 1\n255\n\xff\0\0".to_vec()), true, decode);
    let pane = loaded.render("After", false);
    assert_eq!(pane.label, "After");
    assert_eq!(pane.dimensions.as_deref(), Some("1 × 1 · 14 bytes"));
    assert!(matches!(pane.body, ImageBody::Image { image: 255, size: None }));
    let pane = HistoricalImage::load(None, false, decode).render("Before", true);
    assert_eq!(pane.dimensions, None);
    assert!(matches!(pane.body, ImageBody::Note("Not present in this revision")));
    let pane = HistoricalImage::load(None, true, decode).render("Before", true);
    assert!(matches!(
        pane.body,
        ImageBody::Warning(text) if text == "Image data is unavailable from this repository"
    ));
    let failing = |_: Vec<u8>| -> Result<DecodedImage, String> { Err("no format".to_owned()) };
    let pane = HistoricalImage::load(Some(Vec::new()), true, failing).render("Before", true);
    assert!(matches!(
        pane.body,
        ImageBody::Warning(text) if text == "Cannot preview image: no format"
    ));
}

#[test]
fn blobs_are_files_of_the_past() {
    let blob = GitBlob::new(&repo_path("dir/a.txt"), SHA, 4, true, false);
    assert_eq!(blob.file_name(), "1111111 - a.txt");
    assert_eq!(blob.path().unix, "dir/a.txt");
    assert_eq!(blob.worktree_id(), 4);
    assert_eq!(blob.disk_state(), DiskState::Historic { was_deleted: true });
    assert!(blob.can_open() && !blob.is_private());
    let nameless = RepoPath {
        unix: String::new(),
        file_name: None,
        display: "root".to_owned(),
    };
    let blob = GitBlob::new(&nameless, "12", 4, false, true);
    assert_eq!(blob.file_name(), "12 - root");
    assert!(!blob.can_open());
    let found = ProjectPath {
        worktree_id: 9,
        path: "x".to_owned(),
    };
    assert_eq!(file_at_head(Some(found), &blob).worktree_id, 9);
    let blob = GitBlob::new(&repo_path("dir/a.txt"), SHA, 4, true, false);
    let fallback = file_at_head(None, &blob);
    assert_eq!((fallback.worktree_id, fallback.path.as_str()), (4, "dir/a.txt"));
}

#[test]
fn worktrees_and_remotes_have_an_order() {
    assert_eq!(worktree_id_for_repo_path(Some(1), Some(2), Some(3)), Some(1));
    assert_eq!(worktree_id_for_repo_path(None, Some(2), Some(3)), Some(2));
    assert_eq!(worktree_id_for_repo_path(None, None, Some(3)), Some(3));
    assert_eq!(worktree_id_for_repo_path(None, None, None), None);
    assert_eq!(remote_url(Some("up"), Some("origin")), Some("up"));
    assert_eq!(remote_url(None, Some("origin")), Some("origin"));
    assert_eq!(remote_url(None, None), None);
}

#[test]
fn stash_entries_are_compared() {
    let entries = vec!["a".to_owned(), "b".to_owned()];
    assert!(stash_matches_index("b", 1, &entries));
    assert!(!stash_matches_index("b", 0, &entries));
    assert!(!stash_matches_index("b", 2, &entries));
}

#[test]
fn stash_actions_ask_first() {
    assert_eq!(StashAction::Apply.prompt(0), "Apply stash@{0}?");
    assert_eq!(StashAction::Pop.prompt(12), "Pop stash@{12}?");
    assert_eq!(StashAction::Drop.answers(), ("Drop", "Cancel"));
    assert_eq!(StashAction::Apply.changed_message(), "Stash has changed, not applying");
    assert_eq!(StashAction::Pop.changed_message(), "Stash has changed, pop aborted");
    assert_eq!(StashAction::Drop.changed_message(), "Stash has changed, drop aborted");
    for answer in [None, Some(1)] {
        assert_eq!(
            stash_step(StashStage::Asked, StashEvent::Answered(answer)),
            (StashStage::Done, StashStep::Stop)
        );
    }
}

#[test]
fn stash_actions_are_done() {
    let mut stage = StashStage::Asked;
    let mut go = |event| {
        let (next, step) = stash_step(stage, event);
        stage = next;
        step
    };
    assert_eq!(go(StashEvent::Answered(Some(0))), StashStep::FindRepository);
    assert_eq!(go(StashEvent::Ran(true)), StashStep::Wait);
    assert_eq!(go(StashEvent::Found(true)), StashStep::Compare);
    assert_eq!(go(StashEvent::Compared(true)), StashStep::Run);
    assert_eq!(go(StashEvent::Ran(true)), StashStep::CloseView);
    assert_eq!(go(StashEvent::Closed(true)), StashStep::Stop);
    assert_eq!(stage, StashStage::Done);
}

#[test]
fn stash_actions_can_fail() {
    assert_eq!(
        stash_step(StashStage::Finding, StashEvent::Found(false)),
        (StashStage::Done, StashStep::Stop)
    );
    assert_eq!(
        stash_step(StashStage::Running, StashEvent::Ran(false)),
        (StashStage::Done, StashStep::ReportFailure)
    );
    let (changed, step) = stash_step(StashStage::Comparing, StashEvent::Compared(false));
    assert_eq!(step, StashStep::CloseView);
    assert_eq!(stash_step(changed, StashEvent::Closed(true)).1, StashStep::ReportChanged);
    assert_eq!(stash_step(changed, StashEvent::Closed(false)).1, StashStep::ReportFailure);
}

#[test]
fn headers_tell_of_the_commit() {
    let mut view = plain_view();
    view.commit.commit_timestamp = 86_400;
    let header = view.render_header(Some(" 1111111111111111111111111111111111111111\n"), 7);
    assert_eq!((header.author_name.as_str(), header.timestamp), ("Author", 86_400));
    assert_eq!(header.author_email, "author@example.com");
    assert!(header.disclosure.is_none());
    assert_eq!(header.message_collapsed, Some(false));
    let button = header.sha_button.expect("commits can be copied");
    assert!(button.is_copied && button.sha == SHA);
    view.commit.message = "\nSubject\n\nBody\n".to_owned();
    view.stash = Some(0);
    let header = view.render_header(None, 7);
    assert!(header.sha_button.is_none());
    assert_eq!(header.message_collapsed, Some(true));
    let disclosure = header.disclosure.expect("there is more to read");
    assert_eq!((disclosure.is_open, disclosure.tooltip), (false, "Expand Commit Description"));
    view.toggle_message();
    let header = view.render_header(None, 7);
    assert_eq!(header.message_collapsed, Some(false));
    assert_eq!(header.disclosure.map(|d| d.tooltip), Some("Fold Commit Description"));
    view.commit.message = " \n ".to_owned();
    assert_eq!(view.render_header(None, 7).message_collapsed, None);
}

#[test]
fn times_outside_the_calendar_are_replaced() {
    assert_eq!(commit_time(1_700_000_000, 5), 1_700_000_000);
    assert_eq!(commit_time(-1, 5), -1);
    assert_eq!(commit_time(FIRST_TIMESTAMP, 5), FIRST_TIMESTAMP);
    assert_eq!(commit_time(FIRST_TIMESTAMP - 1, 5), 5);
    assert_eq!(commit_time(LAST_TIMESTAMP, 5), LAST_TIMESTAMP);
    assert_eq!(commit_time(LAST_TIMESTAMP + 1, 5), 5);
    assert_eq!(commit_time(i64::MAX, 5), 5);
}

#[test]
fn shallow_commits_have_a_notice() {
    let mut view = plain_view();
    let notice = view.render_shallow_boundary_notice(UnshallowState::Idle, false);
    assert_eq!(notice.lines.0, "This commit is at the boundary of a shallow clone.");
    let fetch = notice.fetch.expect("history can be fetched");
    assert_eq!((fetch.label, fetch.disabled), ("Fetch Missing History", false));
    assert!(!fetch.opens.ignore_shallow_boundary);
    assert_eq!(notice.snapshot.label, "Load Full Snapshot");
    assert!(notice.snapshot.opens.ignore_shallow_boundary);
    assert_eq!(notice.snapshot.opens.commit_sha, SHA);
    view.file_filter = Some(repo_path("a"));
    view.stash = Some(2);
    let notice = view.render_shallow_boundary_notice(UnshallowState::InProgress, false);
    let fetch = notice.fetch.expect("history is being fetched");
    assert_eq!((fetch.label, fetch.disabled), ("Fetching…", true));
    assert_eq!(notice.snapshot.label, "Load File Snapshot");
    assert_eq!(notice.snapshot.opens.stash, Some(2));
    assert_eq!(notice.snapshot.opens.file_filter.map(|path| path.unix), Some("a".to_owned()));
    assert!(view
        .render_shallow_boundary_notice(UnshallowState::Unshallowed, false)
        .fetch
        .is_none());
    assert!(view
        .render_shallow_boundary_notice(UnshallowState::Idle, true)
        .fetch
        .is_none());
}

#[test]
fn layouts_follow_the_state() {
    let mut view = plain_view();
    let layout = view.render(false);
    assert_eq!(layout.key_context, "CommitDiff");
    assert!(layout.header && layout.editor && !layout.tracks_focus && !layout.shallow_notice);
    assert!(layout.status_line.is_none() && layout.image_button.is_none());
    assert!(!view.render(true).editor);
    view.file_filter = Some(repo_path("a"));
    view.stash = Some(1);
    let layout = view.render(false);
    assert_eq!(layout.key_context, "StashDiff");
    assert!(!layout.header);
    assert_eq!(
        layout.status_line.map(|line| (line.text, line.is_warning)),
        Some(("Read-only snapshot · editing requires a matching, saved working file", false))
    );
    view.attach_editing(HistoricalEditing {
        buffer: 1,
        diff: 2,
        edits_diff: 3,
        parent_text: None,
        commit_text: String::new(),
    });
    assert_eq!(
        view.render(false).status_line.map(|line| (line.text, line.is_warning)),
        Some(("Working file · changes since this commit are marked in orange", true))
    );
    view.is_shallow_boundary = true;
    let layout = view.render(false);
    assert!(layout.status_line.is_none() && layout.shallow_notice);
    view.show_images(HistoricalImageDiff {
        before: HistoricalImage::Missing,
        after: HistoricalImage::Missing,
    });
    let layout = view.render(false);
    assert!(layout.tracks_focus && !layout.editor);
    assert_eq!(layout.image_button, Some("Actual Size"));
    view.toggle_image_size();
    assert_eq!(view.render(false).image_button, Some("Fit Images"));
}

#[test]
fn tabs_name_the_commit() {
    let mut view = plain_view();
    view.commit.message = "Subject line\nbody".to_owned();
    assert_eq!(view.subject(), "Subject line");
    assert_eq!(view.tab_content_text("Subject…"), "1111111 — Subject…");
    assert_eq!(
        view.tab_tooltip_content(),
        ("Subject line".to_owned(), "1111111111111111".to_owned())
    );
    view.file_filter = Some(repo_path("dir/a.txt"));
    assert_eq!(view.tab_content_text("Subject…"), "a.txt — 1111111");
    assert_eq!(view.tab_tooltip_content().0, "dir/a.txt");
    view.commit.sha = "12".to_owned();
    assert_eq!(view.tab_tooltip_content().1, "12");
}

#[test]
fn views_act_for_their_editors() {
    let mut view = plain_view();
    for asked in [ViewType::CommitView, ViewType::SplittableEditor, ViewType::Editor] {
        assert_eq!(view.act_as_type(asked), Some(asked));
    }
    assert_eq!(view.act_as_type(ViewType::Other), None);
    assert!(view.as_searchable());
    view.show_images(HistoricalImageDiff {
        before: HistoricalImage::Missing,
        after: HistoricalImage::Missing,
    });
    assert_eq!(view.act_as_type(ViewType::CommitView), Some(ViewType::CommitView));
    assert_eq!(view.act_as_type(ViewType::Editor), None);
    assert!(!view.as_searchable());
    assert!(!view.has_conflict(true));
    assert!(!CommitView::to_item_events(EditorEvent::BufferRangesUpdated));
    assert!(!CommitView::to_item_events(EditorEvent::BuffersRemoved));
    assert!(CommitView::to_item_events(EditorEvent::BufferEdited));
    assert!(CommitView::to_item_events(EditorEvent::Other));
    assert!(view.on_editor_event(EditorEvent::Other, false));
}

#[test]
fn split_views_show_the_same() {
    let mut view = plain_view();
    view.remote = Some(GitRemote {
        provider: "Example".to_owned(),
        owner: "owner".to_owned(),
        repo: "repo".to_owned(),
    });
    view.toggle_message();
    let statuses = vec![(4, StatusCode::Added), (2, StatusCode::Deleted)];
    assert!(view.clone_on_split(false, statuses.clone()).is_none());
    let (split, known) =
        view.clone_on_split(true, statuses.clone()).expect("the workspace is open");
    assert_eq!(known, statuses);
    assert!(split.is_read_only && split.editing.is_none() && split.message_expanded);
    assert_eq!(split.commit.sha, SHA);
    assert_eq!(split.remote.map(|remote| remote.owner), Some("owner".to_owned()));
    view.attach_editing(HistoricalEditing {
        buffer: 1,
        diff: 2,
        edits_diff: 3,
        parent_text: None,
        commit_text: "text".to_owned(),
    });
    let (split, _) = view.clone_on_split(true, Vec::new()).expect("the workspace is open");
    assert!(!split.is_read_only);
    assert_eq!(split.editing.map(|editing| editing.commit_text), Some("text".to_owned()));
}

#[test]
fn files_can_be_opened_at_head() {
    let path = Some(ProjectPath {
        worktree_id: 1,
        path: "a".to_owned(),
    });
    assert!(offers_file_at_head(true, &path, true, true));
    assert!(!offers_file_at_head(false, &path, true, true));
    assert!(!offers_file_at_head(true, &None, true, true));
    assert!(!offers_file_at_head(true, &path, false, true));
    assert!(!offers_file_at_head(true, &path, true, false));
    let view = plain_view();
    let active = view.working_repo_path(Some(repo_path("b")));
    assert_eq!(active.map(|path| path.unix), Some("b".to_owned()));
    assert!(view.working_repo_path(None).is_none());
}

#[test]
fn tool_bar_belongs_to_commit_views() {
    let mut toolbar = CommitViewToolbar::new();
    let mut view = plain_view();
    let page = |remote: &GitRemote, sha: &String| format!("{}/{}/{sha}", remote.owner, remote.repo);
    assert!(toolbar.render(Some(&view), true, (1, 0), page).is_none());
    assert_eq!(toolbar.set_active_pane_item(Some(3)), ToolbarItemLocation::PrimaryRight);
    assert!(toolbar.render(None, true, (1, 0), page).is_none());
    view.remote = None;
    let content = toolbar.render(Some(&view), true, (0, 2), page).expect("the view is there");
    assert!(content.graph_commit.is_some() && content.page.is_none());
    view.remote = Some(GitRemote {
        provider: "Example".to_owned(),
        owner: "someone".to_owned(),
        repo: "something".to_owned(),
    });
    let content = toolbar.render(Some(&view), true, (0, 2), page).expect("the view is there");
    assert_eq!(content.diff_stat, Some((0, 2)));
    assert_eq!(content.working_file_tooltip, "Open the current file in the project");
    assert_eq!(content.graph_commit.as_deref(), Some(SHA));
    let button = content.page.expect("the commit has a page");
    assert_eq!(button.tooltip, "View on Example");
    assert_eq!(button.url, format!("someone/something/{SHA}"));
    view.stash = Some(0);
    let content = toolbar.render(Some(&view), false, (0, 0), page).expect("the view is there");
    assert_eq!(content.diff_stat, None);
    assert_eq!(content.working_file_tooltip, "This file is not present in the working tree");
    assert!(content.graph_commit.is_none() && content.page.is_none());
    assert_eq!(toolbar.set_active_pane_item(None), ToolbarItemLocation::Hidden);
    assert_eq!(toolbar.commit_view, None);
}
