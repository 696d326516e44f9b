//! The view of a commit.

use vstd::prelude::*;
use vstd::string::*;

use crate::diff_loader::{self, DiffLoader, DiffScope, LoadAction};
use crate::document::ProjectPath;
use crate::historical::{self, HistoricalEditing, HistoricalImageDiff};
use crate::open_commit::{CommitIdentity, OpenRequest};
use crate::repository::{
    self, copy_filter, CommitDetails, CommitDiff, GitRemote, RepoPath, StatusCode,
};
use crate::text::{self, first_line, has_line_break, prefix, same_text, trim};

verus! {

/// How many characters of the hash of a commit stand in a tool tip.
pub const TOOLTIP_SHA_LENGTH: usize = 16;

/// The first second that the calendar has.
pub const FIRST_TIMESTAMP: i64 = -377_705_116_800;

/// The last second that the calendar has.
pub const LAST_TIMESTAMP: i64 = 253_402_300_799;

/// What an editor does that others are told of.
#[derive(Clone, Copy, Debug, PartialEq, Eq, Structural)]
pub enum EditorEvent {
    BufferEdited,
    BufferRangesUpdated,
    BuffersRemoved,
    Other,
}

/// A view that another one can stand for.
#[derive(Clone, Copy, Debug, PartialEq, Eq, Structural)]
pub enum ViewType {
    CommitView,
    SplittableEditor,
    Editor,
    Other,
}

/// Whether the history that a shallow clone lacks was fetched.
#[derive(Clone, Copy, Debug, PartialEq, Eq, Structural)]
pub enum UnshallowState {
    Idle,
    InProgress,
    Unshallowed,
}

/// How the editor of a commit view is set up.
#[derive(Clone, Copy, Debug, PartialEq, Eq, Structural)]
pub struct EditorSetup {
    pub is_writable: bool,
    pub show_headers: bool,
    pub show_scrollbar_markers: bool,
    pub is_read_only: bool,
}

/// The view of a commit. Its repository is known by a number.
#[derive(Debug)]
pub struct CommitView {
    pub commit: CommitDetails,
    pub message_expanded: bool,
    pub stash: Option<usize>,
    pub repository: u64,
    pub remote: Option<GitRemote>,
    pub is_shallow_boundary: bool,
    pub file_filter: Option<RepoPath>,
    pub editing: Option<HistoricalEditing>,
    pub image_diff: Option<HistoricalImageDiff>,
    pub image_actual_size: bool,
    /// Whether the editor of the view refuses changes.
    pub is_read_only: bool,
}

/// Whether two views show the same commit in the same way, but for what was loaded into them.
pub open spec fn same_subject(a: CommitView, b: CommitView) -> bool {
    &&& repository::same_commit(a.commit, b.commit)
    &&& a.message_expanded == b.message_expanded
    &&& a.stash == b.stash
    &&& a.repository == b.repository
    &&& a.remote is Some <==> b.remote is Some
    &&& a.remote is Some ==> repository::same_remote(a.remote->0, b.remote->0)
    &&& a.is_shallow_boundary == b.is_shallow_boundary
    &&& repository::equal_filters(a.file_filter, b.file_filter)
    &&& a.image_actual_size == b.image_actual_size
}

/// Whether two views compare the same images, or none.
pub open spec fn same_images(a: CommitView, b: CommitView) -> bool {
    &&& a.image_diff is Some <==> b.image_diff is Some
    &&& a.image_diff is Some ==> a.image_diff->0.before@ == b.image_diff->0.before@
        && a.image_diff->0.after@ == b.image_diff->0.after@
}

/// Whether two views let the same working file be edited, or none.
pub open spec fn same_edits(a: CommitView, b: CommitView) -> bool {
    &&& a.editing is Some <==> b.editing is Some
    &&& a.editing is Some ==> historical::same_editing(a.editing->0, b.editing->0)
}

/// The editor takes changes only where a working file is edited.
pub open spec fn view_wf(view: CommitView) -> bool {
    view.is_read_only == (view.editing is None)
}

/// A button of the notice on missing history.
#[derive(Debug)]
pub struct NoticeButton {
    pub id: &'static str,
    pub label: &'static str,
    pub tooltip: &'static str,
    pub disabled: bool,
    /// What is opened when the button is pressed, after the history was fetched where the button
    /// fetches it.
    pub opens: OpenRequest,
}

/// The notice on missing history.
#[derive(Debug)]
pub struct ShallowNotice {
    pub lines: (&'static str, &'static str),
    pub fetch: Option<NoticeButton>,
    pub snapshot: NoticeButton,
}

/// Whether a request opens what a view shows.
pub open spec fn reopens(request: OpenRequest, view: CommitView, ignore: bool) -> bool {
    &&& request.commit_sha@ == view.commit.sha@
    &&& request.stash == view.stash
    &&& repository::equal_filters(request.file_filter, view.file_filter)
    &&& request.ignore_shallow_boundary == ignore
    &&& !request.preview
}

/// The button that folds or unfolds the message of a commit.
#[derive(Clone, Copy, Debug)]
pub struct Disclosure {
    pub is_open: bool,
    pub tooltip: &'static str,
}

/// The button that copies the hash of a commit.
#[derive(Debug)]
pub struct ShaButton {
    pub sha: String,
    /// Whether the clipboard has the hash already.
    pub is_copied: bool,
}

/// What is shown above the files of a commit.
#[derive(Debug)]
pub struct CommitHeader {
    pub author_name: String,
    pub author_email: String,
    /// When the commit was made, in seconds.
    pub timestamp: i64,
    pub disclosure: Option<Disclosure>,
    pub sha_button: Option<ShaButton>,
    /// Whether only the first line of the message is shown; nothing, where there is no message.
    pub message_collapsed: Option<bool>,
}

/// A line below the header, in the colour of a warning or a muted one.
#[derive(Clone, Copy, Debug)]
pub struct StatusLine {
    pub text: &'static str,
    pub is_warning: bool,
}

/// What a commit view shows, from top to bottom.
#[derive(Clone, Copy, Debug)]
pub struct CommitLayout {
    pub key_context: &'static str,
    pub tracks_focus: bool,
    pub header: bool,
    pub status_line: Option<StatusLine>,
    /// The label of the button that changes the size of the images, where images are shown.
    pub image_button: Option<&'static str>,
    pub editor: bool,
    pub shallow_notice: bool,
}

/// A point in time from a number of seconds, `OffsetDateTime::from_unix_timestamp`, and the number
/// of seconds back from it, `OffsetDateTime::unix_timestamp`. Seconds before the year -9999 or
/// after the year 9999 are refused.
#[verifier::external_body]
fn calendar_seconds(timestamp: i64) -> (r: Option<i64>)
    ensures
        r.is_some() == (FIRST_TIMESTAMP <= timestamp <= LAST_TIMESTAMP),
        r.is_some() ==> r == Some(timestamp),
{
    time::OffsetDateTime::from_unix_timestamp(timestamp).ok().map(|date| date.unix_timestamp())
}

/// The time of a commit, or the present where the calendar does not have it.
pub fn commit_time(timestamp: i64, now: i64) -> (r: i64)
    ensures
        r == if FIRST_TIMESTAMP <= timestamp <= LAST_TIMESTAMP {
            timestamp
        } else {
            now
        },
{
    match calendar_seconds(timestamp) {
        Some(seconds) => seconds,
        None => now,
    }
}

/// Whether a message has more than one line, apart from white space around it.
pub open spec fn has_more_lines(message: Seq<char>) -> bool {
    text::trimmed(message).contains('\n')
}

/// The name of a file in a title: the last part of its path, if it has parts.
pub open spec fn file_title(path: RepoPath) -> Seq<char> {
    match path.file_name {
        Some(name) => name@,
        None => Seq::empty(),
    }
}

impl CommitView {
    /// Opens a commit, or the part of it that concerns one file.
    pub fn open(commit_sha: String, stash: Option<usize>, file_filter: Option<RepoPath>) -> (r:
        OpenRequest)
        ensures
            r == (OpenRequest {
                commit_sha,
                stash,
                file_filter,
                ignore_shallow_boundary: false,
                preview: false,
            }),
    {
        OpenRequest {
            commit_sha,
            stash,
            file_filter,
            ignore_shallow_boundary: false,
            preview: false,
        }
    }

    /// Opens a commit, perhaps in a tab that the next one takes over.
    pub fn open_preview(commit_sha: String, file_filter: Option<RepoPath>, preview: bool) -> (r:
        OpenRequest)
        ensures
            r == (OpenRequest {
                commit_sha,
                stash: None,
                file_filter,
                ignore_shallow_boundary: false,
                preview,
            }),
    {
        OpenRequest { commit_sha, stash: None, file_filter, ignore_shallow_boundary: false, preview }
    }

    /// A view of a commit, together with the loading of what the commit changed.
    pub fn new(
        commit: CommitDetails,
        commit_diff: CommitDiff,
        repository: u64,
        remote: Option<GitRemote>,
        stash: Option<usize>,
        file_filter: Option<RepoPath>,
    ) -> (r: (CommitView, EditorSetup, DiffLoader, LoadAction))
        ensures
            r.0 == (CommitView {
                commit,
                message_expanded: false,
                stash,
                repository,
                remote,
                is_shallow_boundary: commit_diff.is_shallow_boundary,
                file_filter,
                editing: None,
                image_diff: None,
                image_actual_size: false,
                is_read_only: true,
            }),
            view_wf(r.0),
            r.1 == (EditorSetup {
                is_writable: file_filter is Some,
                show_headers: file_filter is None,
                show_scrollbar_markers: file_filter is Some,
                is_read_only: true,
            }),
            r.2@.wf(),
            r.2@.plans.len() == commit_diff.files@.len(),
            r.2@.showing_full_file == (file_filter is Some),
            r.2@.index == 0,
            r.2@.statuses == Map::<u64, StatusCode>::empty(),
            r.2@.binaries == Set::<u64>::empty(),
            forall|i: int|
                0 <= i < commit_diff.files@.len() ==> diff_loader::plans_file(
                    #[trigger] r.2@.plans[i],
                    commit_diff.files@[i],
                    (DiffScope {
                        showing_full_file: file_filter is Some,
                        is_stash: stash is Some,
                        is_shallow_boundary: commit_diff.is_shallow_boundary,
                    }),
                ),
            (r.2@, r.3) == r.2@.entered(),
    {
        let showing_full_file = file_filter.is_some();
        let is_shallow_boundary = commit_diff.is_shallow_boundary;
        let scope = DiffScope { showing_full_file, is_stash: stash.is_some(), is_shallow_boundary };
        let (loader, action) = DiffLoader::new(commit_diff.files, scope);
        let view = CommitView {
            commit,
            message_expanded: false,
            stash,
            repository,
            remote,
            is_shallow_boundary,
            file_filter,
            editing: None,
            image_diff: None,
            image_actual_size: false,
            is_read_only: true,
        };
        let setup = EditorSetup {
            is_writable: showing_full_file,
            show_headers: !showing_full_file,
            show_scrollbar_markers: showing_full_file,
            is_read_only: true,
        };
        (view, setup, loader, action)
    }

    /// What tells the view from others.
    pub fn identity(&self) -> (r: CommitIdentity)
        ensures
            r.sha@ == self.commit.sha@,
            r.repository == self.repository,
            r.stash == self.stash,
            repository::equal_filters(r.file_filter, self.file_filter),
            r.is_shallow_boundary == self.is_shallow_boundary,
    {
        CommitIdentity {
            sha: self.commit.sha.clone(),
            repository: self.repository,
            stash: self.stash,
            file_filter: copy_filter(&self.file_filter),
            is_shallow_boundary: self.is_shallow_boundary,
        }
    }

    /// Whether others are told of what the editor did. `buffer_is_dirty` tells whether the working
    /// file that is edited, if there is one, has changes that are not saved. Loading a file changes
    /// buffers, too, and is nothing to be told.
    pub fn on_editor_event(&self, event: EditorEvent, buffer_is_dirty: bool) -> (emit: bool)
        ensures
            emit == !(event is BufferEdited && (self.editing is None || !buffer_is_dirty)),
    {
        match event {
            EditorEvent::BufferEdited => self.editing.is_some() && buffer_is_dirty,
            _ => true,
        }
    }

    /// Lets a working file be edited.
    pub fn attach_editing(&mut self, editing: HistoricalEditing)
        ensures
            *final(self) == (CommitView {
                editing: Some(editing),
                is_read_only: false,
                ..*old(self)
            }),
            view_wf(*final(self)),
    {
        self.is_read_only = false;
        self.editing = Some(editing);
    }

    /// Shows images.
    pub fn show_images(&mut self, images: HistoricalImageDiff)
        ensures
            *final(self) == (CommitView { image_diff: Some(images), ..*old(self) }),
    {
        self.image_diff = Some(images);
    }

    /// Folds the message, or unfolds it.
    pub fn toggle_message(&mut self)
        ensures
            *final(self) == (CommitView {
                message_expanded: !old(self).message_expanded,
                ..*old(self)
            }),
    {
        self.message_expanded = !self.message_expanded;
    }

    /// Shows the images in their own size, or fitted to their places.
    pub fn toggle_image_size(&mut self)
        ensures
            *final(self) == (CommitView {
                image_actual_size: !old(self).image_actual_size,
                ..*old(self)
            }),
    {
        self.image_actual_size = !self.image_actual_size;
    }

    /// A request to open what the view shows.
    fn reopen(&self, ignore_shallow_boundary: bool) -> (r: OpenRequest)
        ensures
            reopens(r, *self, ignore_shallow_boundary),
    {
        OpenRequest {
            commit_sha: self.commit.sha.clone(),
            stash: self.stash,
            file_filter: copy_filter(&self.file_filter),
            ignore_shallow_boundary,
            preview: false,
        }
    }

    /// The notice that the parents of the commit are missing. Their history can be fetched, unless
    /// it was fetched already or the project is on the machine of someone else.
    pub fn render_shallow_boundary_notice(&self, state: UnshallowState, is_via_collab: bool) -> (r:
        ShallowNotice)
        ensures
            r.lines.0@ == "This commit is at the boundary of a shallow clone."@,
            r.lines.1@
                == "Its parent history was not fetched, so the changes it introduced cannot be shown."@,
            r.fetch is Some <==> !is_via_collab && !(state is Unshallowed),
            r.fetch is Some ==> {
                let button = r.fetch->0;
                &&& button.id@ == "fetch-unshallow"@
                &&& button.label@ == if state is InProgress {
                    "Fetching…"@
                } else {
                    "Fetch Missing History"@
                }
                &&& button.tooltip@
                    == "Run `git fetch --unshallow` to download the full history, then show this commit's changes."@
                &&& button.disabled == (state is InProgress)
                &&& reopens(button.opens, *self, false)
            },
            r.snapshot.id@ == "load-shallow-snapshot"@,
            r.snapshot.label@ == if self.file_filter is Some {
                "Load File Snapshot"@
            } else {
                "Load Full Snapshot"@
            },
            r.snapshot.tooltip@ == if self.file_filter is Some {
                "Show this file's full contents at this commit as added."@
            } else {
                "Show every file at this commit as added. This can be slow in large repositories."@
            },
            !r.snapshot.disabled,
            reopens(r.snapshot.opens, *self, true),
    {
        let in_progress = match state {
            UnshallowState::InProgress => true,
            _ => false,
        };
        let can_fetch = !is_via_collab && match state {
            UnshallowState::Unshallowed => false,
            _ => true,
        };
        let fetch = if can_fetch {
            Some(
                NoticeButton {
                    id: "fetch-unshallow",
                    label: if in_progress {
                        "Fetching…"
                    } else {
                        "Fetch Missing History"
                    },
                    tooltip:
                        "Run `git fetch --unshallow` to download the full history, then show this commit's changes.",
                    disabled: in_progress,
                    opens: self.reopen(false),
                },
            )
        } else {
            None
        };
        let (label, tooltip) = if self.file_filter.is_some() {
            ("Load File Snapshot", "Show this file's full contents at this commit as added.")
        } else {
            (
                "Load Full Snapshot",
                "Show every file at this commit as added. This can be slow in large repositories.",
            )
        };
        ShallowNotice {
            lines: (
                "This commit is at the boundary of a shallow clone.",
                "Its parent history was not fetched, so the changes it introduced cannot be shown.",
            ),
            fetch,
            snapshot: NoticeButton {
                id: "load-shallow-snapshot",
                label,
                tooltip,
                disabled: false,
                opens: self.reopen(true),
            },
        }
    }

    /// The file of the repository whose working file can be opened: the one that is shown, or else
    /// the one that is active in the editor.
    pub fn working_repo_path(&self, active: Option<RepoPath>) -> (r: Option<RepoPath>)
        ensures
            match self.file_filter {
                Some(path) => r is Some && repository::same_repo_path(r->0, path),
                None => r == active,
            },
    {
        match &self.file_filter {
            Some(path) => Some(path.clone()),
            None => active,
        }
    }

    /// The working file, where the project has a place for it and has it there.
    pub fn working_file_path(in_project: Option<ProjectPath>, is_there: bool) -> (r: Option<
        ProjectPath,
    >)
        ensures
            r == if is_there {
                in_project
            } else {
                None
            },
    {
        if is_there {
            in_project
        } else {
            None
        }
    }

    /// What is shown above the files. `clipboard` is the text in the clipboard, and `now` the
    /// present, in seconds.
    pub fn render_header(&self, clipboard: Option<&str>, now: i64) -> (r: CommitHeader)
        ensures
            r.author_name@ == self.commit.author_name@,
            r.author_email@ == self.commit.author_email@,
            r.timestamp == if FIRST_TIMESTAMP <= self.commit.commit_timestamp <= LAST_TIMESTAMP {
                self.commit.commit_timestamp
            } else {
                now
            },
            r.disclosure is Some <==> has_more_lines(self.commit.message@),
            r.disclosure is Some ==> {
                &&& r.disclosure->0.is_open == self.message_expanded
                &&& r.disclosure->0.tooltip@ == if self.message_expanded {
                    "Fold Commit Description"@
                } else {
                    "Expand Commit Description"@
                }
            },
            r.sha_button is Some <==> self.stash is None,
            r.sha_button is Some ==> {
                &&& r.sha_button->0.sha@ == self.commit.sha@
                &&& r.sha_button->0.is_copied == (clipboard is Some && text::trimmed(
                    clipboard->0@,
                ) == self.commit.sha@)
            },
            r.message_collapsed == if text::trimmed(self.commit.message@).len() == 0 {
                None
            } else {
                Some(has_more_lines(self.commit.message@) && !self.message_expanded)
            },
    {
        let message = trim(self.commit.message.as_str());
        let has_more = has_line_break(message);
        let disclosure = if has_more {
            Some(
                Disclosure {
                    is_open: self.message_expanded,
                    tooltip: if self.message_expanded {
                        "Fold Commit Description"
                    } else {
                        "Expand Commit Description"
                    },
                },
            )
        } else {
            None
        };
        let is_copied = match clipboard {
            Some(clipboard) => same_text(trim(clipboard), self.commit.sha.as_str()),
            None => false,
        };
        let sha_button = if self.stash.is_none() {
            Some(ShaButton { sha: self.commit.sha.clone(), is_copied })
        } else {
            None
        };
        let message_collapsed = if message.unicode_len() == 0 {
            None
        } else {
            Some(has_more && !self.message_expanded)
        };
        CommitHeader {
            author_name: self.commit.author_name.clone(),
            author_email: self.commit.author_email.clone(),
            timestamp: commit_time(self.commit.commit_timestamp, now),
            disclosure,
            sha_button,
            message_collapsed,
        }
    }

    /// The first line of the message.
    pub fn subject(&self) -> (r: &str)
        ensures
            r@ == text::before_first(self.commit.message@, '\n'),
    {
        first_line(self.commit.message.as_str())
    }

    /// The title of the tab. `subject` is the first line of the message, shortened.
    pub fn tab_content_text(&self, subject: &str) -> (r: String)
        ensures
            r@ == match self.file_filter {
                Some(path) => file_title(path) + " — "@ + text::byte_prefix(self.commit.sha@, 7),
                None => text::byte_prefix(self.commit.sha@, 7) + " — "@ + subject@,
            },
    {
        let short_sha = prefix(self.commit.sha.as_str(), 7);
        match &self.file_filter {
            Some(path) => {
                let mut title = match &path.file_name {
                    Some(name) => name.clone(),
                    None => String::new(),
                };
                proof {
                    assert(title@ =~= file_title(*path));
                }
                title.append(" — ");
                title.append(short_sha);
                title
            },
            None => {
                let mut title = short_sha.to_owned();
                title.append(" — ");
                title.append(subject);
                title
            },
        }
    }

    /// The two lines of the tool tip of the tab.
    pub fn tab_tooltip_content(&self) -> (r: (String, String))
        ensures
            r.0@ == match self.file_filter {
                Some(path) => path.display@,
                None => text::before_first(self.commit.message@, '\n'),
            },
            r.1@ == text::byte_prefix(self.commit.sha@, TOOLTIP_SHA_LENGTH as int),
    {
        let subject = match &self.file_filter {
            Some(path) => path.display.clone(),
            None => self.subject().to_owned(),
        };
        (subject, prefix(self.commit.sha.as_str(), TOOLTIP_SHA_LENGTH).to_owned())
    }

    /// Whether a tab is told of what the editor did. Loading files changes the view, but must not
    /// keep a preview as an edit would.
    pub fn to_item_events(event: EditorEvent) -> (r: bool)
        ensures
            r == !(event is BufferRangesUpdated || event is BuffersRemoved),
    {
        match event {
            EditorEvent::BufferRangesUpdated | EditorEvent::BuffersRemoved => false,
            _ => true,
        }
    }

    /// Which view stands for the view where one of a type is asked for. Where images are shown
    /// there is no editor.
    pub fn act_as_type(&self, asked: ViewType) -> (r: Option<ViewType>)
        ensures
            r == if asked is CommitView {
                Some(ViewType::CommitView)
            } else if self.image_diff is Some || asked is Other {
                None
            } else {
                Some(asked)
            },
    {
        match asked {
            ViewType::CommitView => Some(ViewType::CommitView),
            ViewType::Other => None,
            _ => if self.image_diff.is_some() {
                None
            } else {
                Some(asked)
            },
        }
    }

    /// Whether the view can be searched.
    pub fn as_searchable(&self) -> (r: bool)
        ensures
            r == (self.image_diff is None),
    {
        self.image_diff.is_none()
    }

    /// Whether the view has changes that are not saved, if its editor has some.
    pub fn is_dirty(&self, editor_is_dirty: bool) -> (r: bool)
        ensures
            r == (self.editing is Some && editor_is_dirty),
    {
        self.editing.is_some() && editor_is_dirty
    }

    /// Whether the view is in conflict with the disk, if its editor is.
    pub fn has_conflict(&self, editor_has_conflict: bool) -> (r: bool)
        ensures
            r == (self.editing is Some && editor_has_conflict),
    {
        self.editing.is_some() && editor_has_conflict
    }

    /// Whether the view can be saved, if its editor can.
    pub fn can_save(&self, editor_can_save: bool) -> (r: bool)
        ensures
            r == (self.editing is Some && editor_can_save),
    {
        self.editing.is_some() && editor_can_save
    }

    /// Whether saving the view saves its editor. Nothing of the past is saved.
    pub fn save(&self) -> (r: bool)
        ensures
            r == (self.editing is Some),
    {
        self.editing.is_some()
    }

    /// A view of the same, unless the workspace is gone, and how the files in the buffers of its
    /// editor changed. `statuses` is what the editor of this view knows of that.
    pub fn clone_on_split(&self, workspace_open: bool, statuses: Vec<(u64, StatusCode)>) -> (r:
        Option<(CommitView, Vec<(u64, StatusCode)>)>)
        ensures
            match r {
                Some((view, known)) => {
                    &&& workspace_open
                    &&& same_subject(view, *self)
                    &&& same_images(view, *self)
                    &&& same_edits(view, *self)
                    &&& view_wf(view)
                    &&& known@ == statuses@
                },
                None => !workspace_open,
            },
    {
        if !workspace_open {
            return None;
        }
        let mut view = CommitView {
            commit: self.commit.clone(),
            message_expanded: self.message_expanded,
            stash: self.stash,
            repository: self.repository,
            remote: match &self.remote {
                Some(remote) => Some(remote.clone()),
                None => None,
            },
            is_shallow_boundary: self.is_shallow_boundary,
            file_filter: copy_filter(&self.file_filter),
            editing: None,
            image_diff: match &self.image_diff {
                Some(images) => Some(images.clone()),
                None => None,
            },
            image_actual_size: self.image_actual_size,
            is_read_only: true,
        };
        if let Some(editing) = &self.editing {
            view.attach_editing(editing.clone());
        }
        Some((view, statuses))
    }

    /// What the view shows, from top to bottom.
    pub fn render(&self, editor_is_empty: bool) -> (r: CommitLayout)
        ensures
            r.key_context@ == if self.stash is Some {
                "StashDiff"@
            } else {
                "CommitDiff"@
            },
            r.tracks_focus == (self.image_diff is Some),
            r.header == (self.file_filter is None),
            r.status_line is Some <==> self.file_filter is Some && self.image_diff is None
                && !self.is_shallow_boundary,
            r.status_line is Some ==> {
                &&& r.status_line->0.is_warning == (self.editing is Some)
                &&& r.status_line->0.text@ == if self.editing is Some {
                    "Working file · changes since this commit are marked in orange"@
                } else {
                    "Read-only snapshot · editing requires a matching, saved working file"@
                }
            },
            r.image_button is Some <==> self.image_diff is Some,
            r.image_button is Some ==> r.image_button->0@ == if self.image_actual_size {
                "Fit Images"@
            } else {
                "Actual Size"@
            },
            r.editor == (self.image_diff is None && !editor_is_empty),
            r.shallow_notice == self.is_shallow_boundary,
    {
        let status_line = if self.file_filter.is_some() && self.image_diff.is_none()
            && !self.is_shallow_boundary {
            Some(
                if self.editing.is_some() {
                    StatusLine {
                        text: "Working file · changes since this commit are marked in orange",
                        is_warning: true,
                    }
                } else {
                    StatusLine {
                        text:
                            "Read-only snapshot · editing requires a matching, saved working file",
                        is_warning: false,
                    }
                },
            )
        } else {
            None
        };
        let image_button = if self.image_diff.is_some() {
            Some(
                if self.image_actual_size {
                    "Fit Images"
                } else {
                    "Actual Size"
                },
            )
        } else {
            None
        };
        CommitLayout {
            key_context: if self.stash.is_some() {
                "StashDiff"
            } else {
                "CommitDiff"
            },
            tracks_focus: self.image_diff.is_some(),
            header: self.file_filter.is_none(),
            status_line,
            image_button,
            editor: self.image_diff.is_none() && !editor_is_empty,
            shallow_notice: self.is_shallow_boundary,
        }
    }
}

/// Whether the menu of a file offers to open it in the project: the view and the workspace are
/// there, and the project has the file.
pub fn offers_file_at_head(
    view_open: bool,
    in_project: &Option<ProjectPath>,
    workspace_open: bool,
    is_there: bool,
) -> (r: bool)
    ensures
        r == (view_open && in_project is Some && workspace_open && is_there),
{
    view_open && in_project.is_some() && workspace_open && is_there
}

/// Two views of the same show the same commit, stash entry and file of the same repository, with the
/// message and the images shown alike.
pub proof fn views_of_the_same_agree(a: CommitView, b: CommitView)
    requires
        same_subject(a, b),
        same_images(a, b),
        same_edits(a, b),
    ensures
        a.commit.sha@ == b.commit.sha@,
        a.commit.message@ == b.commit.message@,
        a.message_expanded == b.message_expanded,
        a.stash == b.stash,
        a.repository == b.repository,
        a.is_shallow_boundary == b.is_shallow_boundary,
        a.image_actual_size == b.image_actual_size,
        a.file_filter is Some <==> b.file_filter is Some,
        a.file_filter is Some ==> a.file_filter->0.unix@ == b.file_filter->0.unix@,
        a.remote is Some <==> b.remote is Some,
        a.remote is Some ==> a.remote->0.provider@ == b.remote->0.provider@ && a.remote->0.owner@
            == b.remote->0.owner@ && a.remote->0.repo@ == b.remote->0.repo@,
        a.image_diff is Some <==> b.image_diff is Some,
        a.image_diff is Some ==> a.image_diff->0.before@ == b.image_diff->0.before@
            && a.image_diff->0.after@ == b.image_diff->0.after@,
        a.editing is Some <==> b.editing is Some,
        a.editing is Some ==> a.editing->0.buffer == b.editing->0.buffer && a.editing->0.diff
            == b.editing->0.diff && a.editing->0.edits_diff == b.editing->0.edits_diff
            && a.editing->0.commit_text@ == b.editing->0.commit_text@,
{
}

/// A view that lets no working file be edited refuses changes, and one that does takes them.
pub proof fn only_working_files_take_changes(view: CommitView)
    requires
        view_wf(view),
    ensures
        view.editing is None ==> view.is_read_only,
        view.editing is Some ==> !view.is_read_only,
{
}

/// A request to open again what a view shows asks for the same commit, stash entry and file, and not
/// for a preview.
pub proof fn the_same_is_opened_again(request: OpenRequest, view: CommitView, ignore: bool)
    requires
        reopens(request, view, ignore),
    ensures
        request.commit_sha@ == view.commit.sha@,
        request.stash == view.stash,
        request.file_filter is Some <==> view.file_filter is Some,
        request.file_filter is Some ==> request.file_filter->0.unix@ == view.file_filter->0.unix@,
        request.ignore_shallow_boundary == ignore,
        !request.preview,
{
}

/// A message has more to unfold where there is a line break within it; white space around it does not
/// count.
pub proof fn messages_have_more_lines(front: Seq<char>, message: Seq<char>, back: Seq<char>)
    requires
        forall|i: int| 0 <= i < front.len() ==> text::is_white_space(#[trigger] front[i]),
        forall|i: int| 0 <= i < back.len() ==> text::is_white_space(#[trigger] back[i]),
        message.len() > 0 ==> !text::is_white_space(message.first()) && !text::is_white_space(
            message.last(),
        ),
    ensures
        has_more_lines(front + message + back) <==> message.contains('\n'),
{
    text::trimming_takes_away_white_space(front, message, back);
}

/// A file stands in a title under the last part of its path.
pub proof fn titles_name_the_file(path: RepoPath)
    ensures
        path.file_name matches Some(name) ==> file_title(path) == name@,
        path.file_name is None ==> file_title(path).len() == 0,
{
}

/// The tool tip of a tab shows the first sixteen characters of the hash of a commit.
pub proof fn tool_tips_show_the_start_of_the_hash(sha: Seq<char>)
    requires
        vstd::utf8::is_ascii_chars(sha),
        sha.len() >= 16,
    ensures
        text::byte_prefix(sha, TOOLTIP_SHA_LENGTH as int) == sha.take(16),
{
    text::ascii_prefix_is_take(sha, 16);
}

} // verus!
