//! A PDF document of a project: how it is opened, reloaded and followed when its file moves.

use vstd::prelude::*;
use vstd::string::*;

use crate::cache::{self, CachedPage, PageCache, PageEntry};
use crate::renderer::{PageSize, RenderKey};
use crate::text::{self, matches_ignoring_case, same_text};

verus! {

/// How many milliseconds pass before a file that changed is read, and between two attempts.
pub const RELOAD_DELAY_MILLIS: u64 = 200;

/// How often a file is read before it counts as unreadable.
pub const LOAD_ATTEMPTS: u32 = 3;

/// A file of a project, by its worktree and its path in there.
#[derive(Debug)]
pub struct ProjectPath {
    pub worktree_id: u64,
    pub path: String,
}

/// What a path of a project is.
#[verifier::ext_equal]
pub struct ProjectPathView {
    pub worktree_id: u64,
    pub path: Seq<char>,
}

impl View for ProjectPath {
    type V = ProjectPathView;

    open spec fn view(&self) -> ProjectPathView {
        ProjectPathView { worktree_id: self.worktree_id, path: self.path@ }
    }
}

impl ProjectPath {
    /// Whether two paths name the same file.
    pub fn is_same(&self, other: &ProjectPath) -> (r: bool)
        ensures
            r == (self@ == other@),
    {
        self.worktree_id == other.worktree_id && same_text(self.path.as_str(), other.path.as_str())
    }
}

impl Clone for ProjectPath {
    fn clone(&self) -> (r: ProjectPath)
        ensures
            r@ == self@,
    {
        ProjectPath { worktree_id: self.worktree_id, path: self.path.clone() }
    }
}

/// Why a document cannot be opened.
#[derive(Clone, Copy, Debug, PartialEq, Eq, Structural)]
pub enum OpenError {
    WorktreeMissing,
    RemoteProject,
}

impl OpenError {
    /// The message for the user.
    pub open spec fn text(self) -> Seq<char> {
        match self {
            OpenError::WorktreeMissing => "PDF worktree no longer exists"@,
            OpenError::RemoteProject => {
                "PDF viewing is currently available only for local projects"@
            },
        }
    }

    /// The message for the user.
    pub fn message(self) -> (r: &'static str)
        ensures
            r@ == self.text(),
    {
        match self {
            OpenError::WorktreeMissing => "PDF worktree no longer exists",
            OpenError::RemoteProject => {
                "PDF viewing is currently available only for local projects"
            },
        }
    }
}

/// A document that was opened in a project. Both are known by numbers.
#[derive(Clone, Copy, Debug, PartialEq, Eq, Structural)]
pub struct RegisteredDocument {
    pub project: u64,
    pub document: u64,
}

/// What has become of a document that was opened: whether its project is still open, and the path
/// that it has, while it is still open itself.
#[derive(Debug)]
pub struct DocumentStatus {
    pub project_open: bool,
    pub path: Option<ProjectPath>,
}

/// Whether a document is open in a project under a path.
pub open spec fn is_document(
    entry: RegisteredDocument,
    status: DocumentStatus,
    project: u64,
    path: ProjectPathView,
) -> bool {
    entry.project == project && status.path is Some && status.path->0@ == path
}

/// Whether a document and its project are still open.
pub open spec fn is_open(status: DocumentStatus) -> bool {
    status.project_open && status.path is Some
}

/// The place of the first document that is open in a project under a path.
pub open spec fn document_place(
    entries: Seq<RegisteredDocument>,
    status: Seq<DocumentStatus>,
    project: u64,
    path: ProjectPathView,
) -> Option<int>
    decreases entries.len(),
{
    if entries.len() == 0 || status.len() == 0 {
        None
    } else if is_document(entries.first(), status.first(), project, path) {
        Some(0)
    } else {
        match document_place(entries.drop_first(), status.drop_first(), project, path) {
            Some(i) => Some(i + 1),
            None => None,
        }
    }
}

/// The entries of documents that are still open.
pub open spec fn still_open(
    entries: Seq<RegisteredDocument>,
    status: Seq<DocumentStatus>,
) -> Seq<RegisteredDocument>
    decreases entries.len(),
{
    if entries.len() == 0 || status.len() == 0 {
        Seq::empty()
    } else if is_open(status.last()) {
        still_open(entries.drop_last(), status.drop_last()).push(entries.last())
    } else {
        still_open(entries.drop_last(), status.drop_last())
    }
}

/// The status of documents that are still open.
pub open spec fn open_status(status: Seq<DocumentStatus>) -> Seq<DocumentStatus>
    decreases status.len(),
{
    if status.len() == 0 {
        Seq::empty()
    } else if is_open(status.last()) {
        open_status(status.drop_last()).push(status.last())
    } else {
        open_status(status.drop_last())
    }
}

/// What opening a path leads to.
#[derive(Clone, Copy, Debug, PartialEq, Eq, Structural)]
pub enum OpenDecision {
    /// The document is open already.
    Existing(u64),
    /// The document has to be made.
    New,
}

/// What opening a path leads to, or why it cannot be opened.
pub open spec fn decision(
    entries: Seq<RegisteredDocument>,
    status: Seq<DocumentStatus>,
    project: u64,
    path: ProjectPathView,
    worktree_exists: bool,
) -> Result<OpenDecision, OpenError> {
    match document_place(entries, status, project, path) {
        Some(i) => Ok(OpenDecision::Existing(entries[i].document)),
        None => if worktree_exists {
            Ok(OpenDecision::New)
        } else {
            Err(OpenError::WorktreeMissing)
        },
    }
}

/// The documents that were opened, the earliest first.
#[derive(Debug)]
pub struct Documents {
    pub entries: Vec<RegisteredDocument>,
}

impl Documents {
    /// No documents.
    pub fn new() -> (documents: Documents)
        ensures
            documents.entries@ == Seq::<RegisteredDocument>::empty(),
    {
        Documents { entries: Vec::new() }
    }

    /// Decides how a path of a project is opened. `status` tells what has become of each document
    /// that was opened.
    pub fn decide(
        &self,
        status: &Vec<DocumentStatus>,
        project: u64,
        path: &ProjectPath,
        worktree_exists: bool,
    ) -> (r: Result<OpenDecision, OpenError>)
        requires
            status@.len() == self.entries@.len(),
        ensures
            r == decision(self.entries@, status@, project, path@, worktree_exists),
    {
        let ghost wanted = document_place(self.entries@, status@, project, path@);
        let mut i: usize = 0;
        proof {
            assert(self.entries@.skip(0) =~= self.entries@);
            assert(status@.skip(0) =~= status@);
        }
        while i < self.entries.len()
            invariant
                i <= self.entries@.len(),
                status@.len() == self.entries@.len(),
                wanted == document_place(self.entries@, status@, project, path@),
                wanted == match document_place(
                    self.entries@.skip(i as int),
                    status@.skip(i as int),
                    project,
                    path@,
                ) {
                    Some(k) => Some(k + i),
                    None => None,
                },
            decreases self.entries@.len() - i,
        {
            proof {
                assert(self.entries@.skip(i as int).first() == self.entries@[i as int]);
                assert(status@.skip(i as int).first() == status@[i as int]);
                assert(self.entries@.skip(i as int).drop_first() =~= self.entries@.skip(i + 1));
                assert(status@.skip(i as int).drop_first() =~= status@.skip(i + 1));
            }
            if self.entries[i].project == project {
                if let Some(current) = &status[i].path {
                    if current.is_same(path) {
                        return Ok(OpenDecision::Existing(self.entries[i].document));
                    }
                }
            }
            i += 1;
        }
        if worktree_exists {
            Ok(OpenDecision::New)
        } else {
            Err(OpenError::WorktreeMissing)
        }
    }

    /// Takes note of a document that was made, and forgets those that are no longer open.
    pub fn register(&mut self, status: &Vec<DocumentStatus>, project: u64, document: u64)
        requires
            status@.len() == old(self).entries@.len(),
        ensures
            final(self).entries@ == still_open(old(self).entries@, status@).push(
                (RegisteredDocument { project, document }),
            ),
    {
        let mut kept: Vec<RegisteredDocument> = Vec::new();
        let mut i: usize = 0;
        proof {
            assert(still_open(self.entries@.take(0), status@.take(0)) =~= Seq::empty());
        }
        while i < self.entries.len()
            invariant
                i <= self.entries@.len(),
                *self == *old(self),
                status@.len() == self.entries@.len(),
                kept@ == still_open(self.entries@.take(i as int), status@.take(i as int)),
            decreases self.entries@.len() - i,
        {
            proof {
                assert(self.entries@.take(i + 1).drop_last() =~= self.entries@.take(i as int));
                assert(status@.take(i + 1).drop_last() =~= status@.take(i as int));
                assert(status@.take(i + 1).last() == status@[i as int]);
                assert(self.entries@.take(i + 1).last() == self.entries@[i as int]);
            }
            if status[i].project_open && status[i].path.is_some() {
                kept.push(self.entries[i]);
            }
            i += 1;
        }
        proof {
            assert(self.entries@.take(i as int) =~= self.entries@);
            assert(status@.take(i as int) =~= status@);
        }
        kept.push(RegisteredDocument { project, document });
        self.entries = kept;
    }
}

proof fn lemma_no_place(
    entries: Seq<RegisteredDocument>,
    status: Seq<DocumentStatus>,
    project: u64,
    path: ProjectPathView,
)
    requires
        entries.len() == status.len(),
    ensures
        document_place(entries, status, project, path) is None <==> forall|i: int|
            0 <= i < entries.len() ==> !is_document(
                #[trigger] entries[i],
                status[i],
                project,
                path,
            ),
    decreases entries.len(),
{
    if entries.len() > 0 {
        let rest = entries.drop_first();
        let rest_status = status.drop_first();
        lemma_no_place(rest, rest_status, project, path);
        if document_place(entries, status, project, path) is None {
            assert forall|i: int| 0 <= i < entries.len() implies !is_document(
                #[trigger] entries[i],
                status[i],
                project,
                path,
            ) by {
                if i > 0 {
                    assert(rest[i - 1] == entries[i]);
                    assert(rest_status[i - 1] == status[i]);
                }
            }
        } else {
            if is_document(entries[0], status[0], project, path) {
            } else {
                let i = choose|i: int|
                    0 <= i < rest.len() && is_document(
                        #[trigger] rest[i],
                        rest_status[i],
                        project,
                        path,
                    );
                assert(entries[i + 1] == rest[i]);
            }
        }
    }
}

proof fn lemma_still_open(
    entries: Seq<RegisteredDocument>,
    status: Seq<DocumentStatus>,
    project: u64,
    path: ProjectPathView,
)
    requires
        entries.len() == status.len(),
        forall|i: int|
            0 <= i < entries.len() ==> !is_document(
                #[trigger] entries[i],
                status[i],
                project,
                path,
            ),
    ensures
        still_open(entries, status).len() == open_status(status).len(),
        forall|i: int|
            0 <= i < still_open(entries, status).len() ==> !is_document(
                #[trigger] still_open(entries, status)[i],
                open_status(status)[i],
                project,
                path,
            ),
    decreases entries.len(),
{
    if entries.len() > 0 {
        let n = entries.len() - 1;
        assert forall|i: int| 0 <= i < n implies !is_document(
            #[trigger] entries.drop_last()[i],
            status.drop_last()[i],
            project,
            path,
        ) by {
            assert(entries[i] == entries.drop_last()[i]);
        }
        lemma_still_open(entries.drop_last(), status.drop_last(), project, path);
        assert(!is_document(entries[n], status[n], project, path));
    }
}

proof fn lemma_place_of_last(
    entries: Seq<RegisteredDocument>,
    status: Seq<DocumentStatus>,
    project: u64,
    path: ProjectPathView,
)
    requires
        entries.len() == status.len(),
        entries.len() > 0,
        is_document(entries.last(), status.last(), project, path),
        forall|i: int|
            0 <= i < entries.len() - 1 ==> !is_document(
                #[trigger] entries[i],
                status[i],
                project,
                path,
            ),
    ensures
        document_place(entries, status, project, path) == Some(entries.len() - 1),
    decreases entries.len(),
{
    if entries.len() > 1 {
        let rest = entries.drop_first();
        let rest_status = status.drop_first();
        assert(!is_document(entries[0], status[0], project, path));
        assert forall|i: int| 0 <= i < rest.len() - 1 implies !is_document(
            #[trigger] rest[i],
            rest_status[i],
            project,
            path,
        ) by {
            assert(entries[i + 1] == rest[i]);
        }
        lemma_place_of_last(rest, rest_status, project, path);
    }
}

/// A path that was opened leads to the same document when it is opened again: with `status` at
/// the time when the document was made, and `current` the status of that document now.
pub proof fn opened_document_is_found_again(
    entries: Seq<RegisteredDocument>,
    status: Seq<DocumentStatus>,
    current: DocumentStatus,
    project: u64,
    document: u64,
    path: ProjectPathView,
    worktree_exists: bool,
)
    requires
        entries.len() == status.len(),
        forall|i: int|
            0 <= i < entries.len() ==> !((#[trigger] entries[i]).project == project
                && status[i].path is Some && status[i].path->0@ == path),
        current.path is Some,
        current.path->0@ == path,
    ensures
        ({
            let later = still_open(entries, status).push(RegisteredDocument { project, document });
            let place = document_place(later, open_status(status).push(current), project, path);
            place is Some && later[place->0].document == document
        }),
        decision(
            still_open(entries, status).push(RegisteredDocument { project, document }),
            open_status(status).push(current),
            project,
            path,
            worktree_exists,
        ) == Ok::<OpenDecision, OpenError>(OpenDecision::Existing(document)),
{
    lemma_no_place(entries, status, project, path);
    lemma_still_open(entries, status, project, path);
    let kept = still_open(entries, status);
    let later = kept.push(RegisteredDocument { project, document });
    let later_status = open_status(status).push(current);
    assert forall|i: int| 0 <= i < later.len() - 1 implies !is_document(
        #[trigger] later[i],
        later_status[i],
        project,
        path,
    ) by {
        assert(later[i] == kept[i]);
    }
    lemma_place_of_last(later, later_status, project, path);
}

proof fn lemma_place(
    entries: Seq<RegisteredDocument>,
    status: Seq<DocumentStatus>,
    project: u64,
    path: ProjectPathView,
)
    requires
        entries.len() == status.len(),
    ensures
        document_place(entries, status, project, path) matches Some(place) ==> {
            &&& 0 <= place < entries.len()
            &&& is_document(entries[place], status[place], project, path)
            &&& forall|i: int|
                0 <= i < place ==> !is_document(#[trigger] entries[i], status[i], project, path)
        },
    decreases entries.len(),
{
    if entries.len() > 0 && !is_document(entries[0], status[0], project, path) {
        let rest = entries.drop_first();
        let rest_status = status.drop_first();
        lemma_place(rest, rest_status, project, path);
        if let Some(place) = document_place(entries, status, project, path) {
            assert forall|i: int| 0 <= i < place implies !is_document(
                #[trigger] entries[i],
                status[i],
                project,
                path,
            ) by {
                if i > 0 {
                    assert(rest[i - 1] == entries[i]);
                }
            }
        }
    }
}

/// A document that is open already is opened only under its own path and in its own project, and the
/// earliest one counts. A new one is made exactly where there is none and the worktree is there.
pub proof fn opening_leads_to_the_document_of_the_path(
    entries: Seq<RegisteredDocument>,
    status: Seq<DocumentStatus>,
    project: u64,
    path: ProjectPathView,
    worktree_exists: bool,
)
    requires
        entries.len() == status.len(),
    ensures
        match decision(entries, status, project, path, worktree_exists) {
            Ok(OpenDecision::Existing(document)) => exists|i: int|
                {
                    &&& 0 <= i < entries.len()
                    &&& (#[trigger] entries[i]).document == document
                    &&& entries[i].project == project
                    &&& status[i].path is Some
                    &&& status[i].path->0.worktree_id == path.worktree_id
                    &&& status[i].path->0.path@ == path.path
                    &&& forall|j: int|
                        0 <= j < i ==> !((#[trigger] entries[j]).project == project
                            && status[j].path is Some && status[j].path->0@ == path)
                },
            Ok(OpenDecision::New) => worktree_exists && forall|j: int|
                0 <= j < entries.len() ==> !((#[trigger] entries[j]).project == project
                    && status[j].path is Some && status[j].path->0@ == path),
            Err(error) => error is WorktreeMissing && !worktree_exists && forall|j: int|
                0 <= j < entries.len() ==> !((#[trigger] entries[j]).project == project
                    && status[j].path is Some && status[j].path->0@ == path),
        },
{
    lemma_no_place(entries, status, project, path);
    lemma_place(entries, status, project, path);
    match document_place(entries, status, project, path) {
        Some(i) => {
            assert(entries[i].project == project);
            assert forall|j: int| 0 <= j < i implies !((#[trigger] entries[j]).project == project
                && status[j].path is Some && status[j].path->0@ == path) by {
                assert(!is_document(entries[j], status[j], project, path));
            }
        },
        None => {
            assert forall|j: int| 0 <= j < entries.len() implies !((
            #[trigger] entries[j]).project == project && status[j].path is Some
                && status[j].path->0@ == path) by {
                assert(!is_document(entries[j], status[j], project, path));
            }
        },
    }
}

/// Whether `places` are the places of the documents that are still open, in order.
pub open spec fn are_places_of_open(places: Seq<int>, status: Seq<DocumentStatus>) -> bool {
    &&& forall|a: int, b: int|
        0 <= a < b < places.len() ==> (#[trigger] places[a]) < (#[trigger] places[b])
    &&& forall|a: int|
        0 <= a < places.len() ==> 0 <= (#[trigger] places[a]) < status.len()
            && status[places[a]].project_open && status[places[a]].path is Some
    &&& forall|i: int|
        0 <= i < status.len() && (#[trigger] status[i]).project_open && status[i].path is Some
            ==> places.contains(i)
}

/// Registering a document keeps the entries of all documents that are still open, in their order, and
/// of no others; the status of an entry that is kept is the one that it had.
pub proof fn open_documents_stay_registered(
    entries: Seq<RegisteredDocument>,
    status: Seq<DocumentStatus>,
)
    requires
        entries.len() == status.len(),
    ensures
        exists|places: Seq<int>|
            {
                &&& #[trigger] are_places_of_open(places, status)
                &&& still_open(entries, status) == places.map_values(|i: int| entries[i])
                &&& open_status(status) == places.map_values(|i: int| status[i])
            },
    decreases entries.len(),
{
    if entries.len() == 0 {
        let places = Seq::<int>::empty();
        assert(are_places_of_open(places, status));
        assert(still_open(entries, status) =~= places.map_values(|i: int| entries[i]));
        assert(open_status(status) =~= places.map_values(|i: int| status[i]));
    } else {
        let (front, front_status) = (entries.drop_last(), status.drop_last());
        let n = entries.len() - 1;
        open_documents_stay_registered(front, front_status);
        let before = choose|places: Seq<int>|
            {
                &&& #[trigger] are_places_of_open(places, front_status)
                &&& still_open(front, front_status) == places.map_values(|i: int| front[i])
                &&& open_status(front_status) == places.map_values(|i: int| front_status[i])
            };
        let open = status[n].project_open && status[n].path is Some;
        let places = if open {
            before.push(n)
        } else {
            before
        };
        assert forall|i: int|
            0 <= i < status.len() && (#[trigger] status[i]).project_open && status[i].path
                is Some implies places.contains(i) by {
            if i < n {
                assert(front_status[i] == status[i]);
                let a = choose|a: int| 0 <= a < before.len() && before[a] == i;
                assert(places[a] == i);
            } else {
                assert(places[before.len() as int] == i);
            }
        }
        assert(are_places_of_open(places, status));
        assert(still_open(entries, status) =~= places.map_values(|i: int| entries[i]));
        assert(open_status(status) =~= places.map_values(|i: int| status[i]));
    }
}

/// A file or directory of a worktree.
#[derive(Debug)]
pub struct WorktreeEntry {
    pub id: u64,
    pub path: String,
}

/// A change in a worktree: the path and the number of the entry that changed.
#[derive(Debug)]
pub struct EntryChange {
    pub path: String,
    pub id: u64,
}

/// What the task that reads a file has to do next.
#[derive(Clone, Copy, Debug, PartialEq, Eq, Structural)]
pub enum ReloadAction {
    /// Wait for `RELOAD_DELAY_MILLIS`.
    Sleep,
    /// Read the file at the path of the document, and open it for rendering.
    Load,
    /// Nothing more.
    Stop,
}

/// A task that reads a file, with the number of attempts that have failed.
#[derive(Clone, Copy, Debug, PartialEq, Eq, Structural)]
pub struct ReloadTask {
    pub failures: u32,
}

/// What happened to the task that reads a file.
#[derive(Debug)]
pub enum ReloadEvent {
    /// The time is over.
    Slept,
    /// The file was read and opened.
    Loaded { entry_id: Option<u64>, sizes: Vec<PageSize> },
    /// The file could not be read or opened.
    Failed(String),
    /// The document was closed.
    Closed,
}

/// The message of an error, if there is one.
pub open spec fn message_of(error: Option<String>) -> Option<Seq<char>> {
    match error {
        Some(message) => Some(message@),
        None => None,
    }
}

/// An open PDF document.
pub struct PdfDocument {
    pub path: ProjectPath,
    pub sizes: Vec<PageSize>,
    pub generation: u64,
    pub loading: bool,
    pub error: Option<String>,
    pub deleted: bool,
    pub entry_id: Option<u64>,
    pub has_renderer: bool,
    pub cache: PageCache,
}

/// What a document is.
#[verifier::ext_equal]
pub struct DocumentView {
    pub path: ProjectPathView,
    pub sizes: Seq<PageSize>,
    pub generation: u64,
    pub loading: bool,
    pub error: Option<Seq<char>>,
    pub deleted: bool,
    pub entry_id: Option<u64>,
    pub has_renderer: bool,
    pub cache: Seq<PageEntry>,
}

impl View for PdfDocument {
    type V = DocumentView;

    open spec fn view(&self) -> DocumentView {
        DocumentView {
            path: self.path@,
            sizes: self.sizes@,
            generation: self.generation,
            loading: self.loading,
            error: message_of(self.error),
            deleted: self.deleted,
            entry_id: self.entry_id,
            has_renderer: self.has_renderer,
            cache: self.cache@,
        }
    }
}

/// The event of a task that reads a file, by its view.
#[verifier::ext_equal]
pub enum ReloadEventView {
    Slept,
    Loaded { entry_id: Option<u64>, sizes: Seq<PageSize> },
    Failed(Seq<char>),
    Closed,
}

impl View for ReloadEvent {
    type V = ReloadEventView;

    open spec fn view(&self) -> ReloadEventView {
        match self {
            ReloadEvent::Slept => ReloadEventView::Slept,
            ReloadEvent::Loaded { entry_id, sizes } => {
                ReloadEventView::Loaded { entry_id: *entry_id, sizes: sizes@ }
            },
            ReloadEvent::Failed(message) => ReloadEventView::Failed(message@),
            ReloadEvent::Closed => ReloadEventView::Closed,
        }
    }
}

impl DocumentView {
    /// A document of which nothing is known but where it is.
    pub open spec fn opened(path: ProjectPathView, entry_id: Option<u64>) -> DocumentView {
        DocumentView {
            path,
            sizes: Seq::empty(),
            generation: 0,
            loading: true,
            error: None,
            deleted: false,
            entry_id,
            has_renderer: false,
            cache: Seq::empty(),
        }
    }

    /// The document with its pages replaced.
    pub open spec fn installed(self, sizes: Seq<PageSize>) -> DocumentView {
        DocumentView {
            sizes,
            generation: (self.generation + 1) as u64,
            loading: false,
            error: None,
            has_renderer: true,
            cache: Seq::empty(),
            ..self
        }
    }

    /// The document after its file was reloaded.
    pub open spec fn loaded(self, entry_id: Option<u64>, sizes: Seq<PageSize>) -> DocumentView {
        DocumentView { entry_id, deleted: false, ..self }.installed(sizes)
    }

    /// The document after its file could not be reloaded.
    pub open spec fn failed(self, message: Seq<char>) -> DocumentView {
        DocumentView { loading: false, error: Some(message), ..self }
    }

    /// The document, the task and what the task does next, after something happened to the task.
    pub open spec fn reload_step(self, task: ReloadTask, event: ReloadEventView) -> (
        DocumentView,
        ReloadTask,
        ReloadAction,
    ) {
        match event {
            ReloadEventView::Slept => (self, task, ReloadAction::Load),
            ReloadEventView::Loaded { entry_id, sizes } => {
                (self.loaded(entry_id, sizes), task, ReloadAction::Stop)
            },
            ReloadEventView::Failed(message) => {
                if task.failures + 1 < LOAD_ATTEMPTS {
                    (
                        self,
                        ReloadTask { failures: (task.failures + 1) as u32 },
                        ReloadAction::Sleep,
                    )
                } else {
                    (self.failed(message), task, ReloadAction::Stop)
                }
            },
            ReloadEventView::Closed => (self, task, ReloadAction::Stop),
        }
    }

    /// Whether one of the changes in a worktree concerns the document.
    pub open spec fn concerned(self, changes: Seq<EntryChange>) -> bool {
        exists|i: int|
            0 <= i < changes.len() && ((#[trigger] changes[i]).path@ == self.path.path || Some(
                changes[i].id,
            ) == self.entry_id)
    }

    /// The entry of the document's file: the one with its number, or else the one with its path.
    pub open spec fn current_entry(
        self,
        by_id: Option<WorktreeEntry>,
        by_path: Option<WorktreeEntry>,
    ) -> Option<WorktreeEntry> {
        if self.entry_id is Some && by_id is Some {
            by_id
        } else {
            by_path
        }
    }

    /// The document after its file changed.
    pub open spec fn moved(self, entry: Option<WorktreeEntry>) -> DocumentView {
        match entry {
            Some(entry) => DocumentView {
                path: ProjectPathView { worktree_id: self.path.worktree_id, path: entry.path@ },
                entry_id: Some(entry.id),
                deleted: false,
                loading: true,
                ..self
            },
            None => DocumentView { deleted: true, loading: true, ..self },
        }
    }
}

/// The answer to the question for a page.
#[derive(Debug)]
pub struct PageAnswer {
    /// An image of the page, perhaps of another size, or the message that tells why there is none.
    pub result: Result<Option<u64>, String>,
    /// Whether the page has to be rendered.
    pub request: bool,
}

/// A document that was opened.
pub enum OpenedDocument {
    /// One that was open already, by the number that it is known by.
    Existing(u64),
    /// One that has to be read, with what the task that reads it does first.
    New { document: PdfDocument, task: ReloadTask, action: ReloadAction },
}

impl PdfDocument {
    /// Whether a file is shown as a PDF document, by the extension of its absolute path: nothing, if
    /// it is not; otherwise that it is opened, or the error for a project on another machine.
    pub fn try_open(extension: Option<&str>, local: bool) -> (r: Option<Result<(), OpenError>>)
        ensures
            r == if extension is Some && text::ascii_lowercase(extension->0@) == "pdf"@ {
                Some(
                    if local {
                        Ok::<(), OpenError>(())
                    } else {
                        Err(OpenError::RemoteProject)
                    },
                )
            } else {
                None
            },
    {
        match extension {
            None => None,
            Some(extension) => {
                proof {
                    reveal_strlit("pdf");
                }
                if matches_ignoring_case(extension, "pdf") {
                    if local {
                        Some(Ok(()))
                    } else {
                        Some(Err(OpenError::RemoteProject))
                    }
                } else {
                    None
                }
            },
        }
    }

    /// Opens a path of a project. A document that is made is known by `number` from then on, and
    /// those that are no longer open are forgotten. `status` tells what has become of each document
    /// that was opened, and `entry_id` is the number of the file in its worktree.
    pub fn open(
        documents: &mut Documents,
        status: &Vec<DocumentStatus>,
        project: u64,
        path: &ProjectPath,
        worktree_exists: bool,
        entry_id: Option<u64>,
        number: u64,
    ) -> (r: Result<OpenedDocument, OpenError>)
        requires
            status@.len() == old(documents).entries@.len(),
        ensures
            match decision(old(documents).entries@, status@, project, path@, worktree_exists) {
                Ok(OpenDecision::Existing(existing)) => {
                    &&& r matches Ok(OpenedDocument::Existing(found)) && found == existing
                    &&& final(documents).entries@ == old(documents).entries@
                },
                Ok(OpenDecision::New) => {
                    &&& r matches Ok(OpenedDocument::New { document, task, action })
                    &&& document@ == DocumentView::opened(path@, entry_id)
                    &&& document.cache.wf()
                    &&& task == (ReloadTask { failures: 0 })
                    &&& action == ReloadAction::Load
                    &&& final(documents).entries@ == still_open(
                        old(documents).entries@,
                        status@,
                    ).push((RegisteredDocument { project, document: number }))
                },
                Err(error) => {
                    &&& r matches Err(e) && e == error
                    &&& final(documents).entries@ == old(documents).entries@
                },
            },
    {
        match documents.decide(status, project, path, worktree_exists) {
            Ok(OpenDecision::Existing(existing)) => Ok(OpenedDocument::Existing(existing)),
            Ok(OpenDecision::New) => {
                let (document, task, action) = PdfDocument::new(path.clone(), entry_id);
                documents.register(status, project, number);
                Ok(OpenedDocument::New { document, task, action })
            },
            Err(error) => Err(error),
        }
    }

    /// A document that was not read yet, together with what the task that reads it does first.
    pub fn new(path: ProjectPath, entry_id: Option<u64>) -> (r: (
        PdfDocument,
        ReloadTask,
        ReloadAction,
    ))
        ensures
            r.0@ == DocumentView::opened(path@, entry_id),
            r.0.cache.wf(),
            r.1 == (ReloadTask { failures: 0 }),
            r.2 == ReloadAction::Load,
    {
        let document = PdfDocument {
            path,
            sizes: Vec::new(),
            generation: 0,
            loading: true,
            error: None,
            deleted: false,
            entry_id,
            has_renderer: false,
            cache: PageCache::new(),
        };
        proof {
            assert(document@ =~= DocumentView::opened(path@, entry_id));
        }
        (document, ReloadTask { failures: 0 }, ReloadAction::Load)
    }

    /// Starts to read the file again. A file that is being written is given a moment.
    pub fn reload(&mut self, debounce: bool) -> (r: (ReloadTask, ReloadAction))
        ensures
            final(self)@ == (DocumentView { loading: true, ..old(self)@ }),
            final(self).cache == old(self).cache,
            r.0 == (ReloadTask { failures: 0 }),
            r.1 == if debounce {
                ReloadAction::Sleep
            } else {
                ReloadAction::Load
            },
    {
        self.loading = true;
        (
            ReloadTask { failures: 0 },
            if debounce {
                ReloadAction::Sleep
            } else {
                ReloadAction::Load
            },
        )
    }

    /// Replaces the pages by those of a file that was opened. Returns the images that are given up.
    pub fn install_renderer(&mut self, sizes: Vec<PageSize>) -> (dropped: Vec<u64>)
        requires
            old(self).generation < u64::MAX,
        ensures
            final(self)@ == old(self)@.installed(sizes@),
            final(self).cache.wf(),
            dropped@ == cache::all_images(old(self)@.cache),
    {
        let dropped = self.cache.clear();
        self.generation = self.generation + 1;
        self.sizes = sizes;
        self.loading = false;
        self.error = None;
        self.has_renderer = true;
        proof {
            assert(self@ =~= old(self)@.installed(sizes@));
        }
        dropped
    }

    /// Tells the task that reads the file what to do next, after something happened to it. Returns
    /// the images that are given up, too.
    pub fn reload_step(&mut self, task: ReloadTask, event: ReloadEvent) -> (r: (
        ReloadTask,
        ReloadAction,
        Vec<u64>,
    ))
        requires
            event is Loaded ==> old(self).generation < u64::MAX,
            old(self).cache.wf(),
        ensures
            (final(self)@, r.0, r.1) == old(self)@.reload_step(task, event@),
            final(self).cache.wf(),
            r.2@ == if event is Loaded {
                cache::all_images(old(self)@.cache)
            } else {
                Seq::empty()
            },
    {
        match event {
            ReloadEvent::Slept => (task, ReloadAction::Load, Vec::new()),
            ReloadEvent::Loaded { entry_id, sizes } => {
                self.entry_id = entry_id;
                self.deleted = false;
                let dropped = self.install_renderer(sizes);
                proof {
                    assert(self@ =~= old(self)@.loaded(entry_id, sizes@));
                }
                (task, ReloadAction::Stop, dropped)
            },
            ReloadEvent::Failed(message) => {
                if task.failures < LOAD_ATTEMPTS - 1 {
                    (ReloadTask { failures: task.failures + 1 }, ReloadAction::Sleep, Vec::new())
                } else {
                    self.loading = false;
                    self.error = Some(message);
                    proof {
                        assert(self@ =~= old(self)@.failed(message@));
                    }
                    (task, ReloadAction::Stop, Vec::new())
                }
            },
            ReloadEvent::Closed => (task, ReloadAction::Stop, Vec::new()),
        }
    }

    /// Takes note that nobody renders the pages any more.
    pub fn renderer_stopped(&mut self)
        ensures
            final(self)@ == (DocumentView {
                error: Some("The PDF renderer stopped. Reload to try again."@),
                ..old(self)@
            }),
            final(self).cache == old(self).cache,
    {
        self.error = Some("The PDF renderer stopped. Reload to try again.".to_owned());
    }

    /// Follows the file of the document when entries of its worktree change. `by_id` and `by_path`
    /// are the entries that now have the document's number and its path. Where a change concerns
    /// the document, it is read again.
    pub fn entries_updated(
        &mut self,
        changes: &Vec<EntryChange>,
        by_id: Option<WorktreeEntry>,
        by_path: Option<WorktreeEntry>,
    ) -> (r: Option<(ReloadTask, ReloadAction)>)
        ensures
            final(self).cache == old(self).cache,
            r == if old(self)@.concerned(changes@) {
                Some((ReloadTask { failures: 0 }, ReloadAction::Sleep))
            } else {
                None
            },
            final(self)@ == if old(self)@.concerned(changes@) {
                old(self)@.moved(old(self)@.current_entry(by_id, by_path))
            } else {
                old(self)@
            },
    {
        let mut concerned = false;
        let mut i: usize = 0;
        while i < changes.len() && !concerned
            invariant
                i <= changes@.len(),
                *self == *old(self),
                concerned ==> self@.concerned(changes@),
                !concerned ==> forall|j: int|
                    0 <= j < i ==> (#[trigger] changes@[j]).path@ != self@.path.path && Some(
                        changes@[j].id,
                    ) != self.entry_id,
            decreases changes@.len() - i,
        {
            if same_text(changes[i].path.as_str(), self.path.path.as_str()) {
                concerned = true;
            } else if let Some(id) = self.entry_id {
                if changes[i].id == id {
                    concerned = true;
                }
            }
            i += 1;
        }
        if !concerned {
            return None;
        }
        let by_id = if self.entry_id.is_some() {
            by_id
        } else {
            None
        };
        let entry = match by_id {
            Some(entry) => Some(entry),
            None => by_path,
        };
        match entry {
            Some(entry) => {
                self.path = ProjectPath { worktree_id: self.path.worktree_id, path: entry.path };
                self.entry_id = Some(entry.id);
                self.deleted = false;
            },
            None => {
                self.deleted = true;
            },
        }
        Some(self.reload(true))
    }

    /// Looks a page up. One that is not kept at this size is to be rendered, and the latest image
    /// of the same page, if there is one, is shown meanwhile.
    pub fn page(&mut self, key: RenderKey) -> (answer: PageAnswer)
        requires
            old(self).cache.wf(),
        ensures
            final(self).cache.wf(),
            final(self)@ == (DocumentView {
                cache: cache::touched(old(self)@.cache, key),
                ..old(self)@
            }),
            answer.request == (!cache::has_key(old(self)@.cache, key) && old(self).has_renderer),
            match answer.result {
                Ok(image) => if cache::has_key(old(self)@.cache, key) {
                    let entry = old(self)@.cache[cache::place_of(
                        old(self)@.cache,
                        key,
                    ) as int];
                    image is Some && entry.result == Ok::<u64, Seq<char>>(image->0)
                } else {
                    image == cache::latest_image(old(self)@.cache, key.page)
                },
                Err(message) => {
                    &&& cache::has_key(old(self)@.cache, key)
                    &&& old(self)@.cache[cache::place_of(
                        old(self)@.cache,
                        key,
                    ) as int].result == Err::<u64, Seq<char>>(message@)
                },
            },
    {
        match self.cache.get(key) {
            Some(Ok(image)) => PageAnswer { result: Ok(Some(image)), request: false },
            Some(Err(message)) => PageAnswer { result: Err(message), request: false },
            None => PageAnswer {
                result: Ok(self.cache.latest(key.page)),
                request: self.has_renderer,
            },
        }
    }

    /// Keeps a page that was rendered. Returns the images that are given up for it, in the order in
    /// which they go.
    pub fn cache_page(&mut self, page: CachedPage) -> (dropped: Vec<u64>)
        requires
            old(self).cache.wf(),
        ensures
            final(self).cache.wf(),
            final(self)@ == (DocumentView {
                cache: cache::cached(old(self)@.cache, page@),
                ..old(self)@
            }),
            dropped@ == cache::given_up(old(self)@.cache, page@),
    {
        self.cache.put(page)
    }

    /// Gives all images up.
    pub fn clear_cache(&mut self) -> (dropped: Vec<u64>)
        ensures
            final(self).cache.wf(),
            final(self)@ == (DocumentView { cache: Seq::empty(), ..old(self)@ }),
            dropped@ == cache::all_images(old(self)@.cache),
    {
        self.cache.clear()
    }

    /// The number of the document's file in its worktree.
    pub fn entry_id(&self) -> (r: Option<u64>)
        ensures
            r == self.entry_id,
    {
        self.entry_id
    }

    /// The path of the document's file.
    pub fn project_path(&self) -> (r: ProjectPath)
        ensures
            r@ == self.path@,
    {
        self.path.clone()
    }

    /// A document is never changed.
    pub fn is_dirty(&self) -> (r: bool)
        ensures
            !r,
    {
        false
    }
}

/// A file that cannot be read in any of the attempts leaves the document as it was, but for the
/// message and that it is no longer being read.
pub proof fn failed_reload_preserves_the_document(
    document: DocumentView,
    first: Seq<char>,
    second: Seq<char>,
    third: Seq<char>,
)
    ensures
        ({
            let start = ReloadTask { failures: 0 };
            let (d1, t1, a1) = document.reload_step(start, ReloadEventView::Failed(first));
            let (d2, t2, a2) = d1.reload_step(t1, ReloadEventView::Slept);
            let (d3, t3, a3) = d2.reload_step(t2, ReloadEventView::Failed(second));
            let (d4, t4, a4) = d3.reload_step(t3, ReloadEventView::Slept);
            let (d5, t5, a5) = d4.reload_step(t4, ReloadEventView::Failed(third));
            &&& (a1, a2, a3, a4, a5) == (
                ReloadAction::Sleep,
                ReloadAction::Load,
                ReloadAction::Sleep,
                ReloadAction::Load,
                ReloadAction::Stop,
            )
            &&& d5 == DocumentView { loading: false, error: Some(third), ..document }
        }),
{
}

/// A file that can be read, however often it could not be read before, replaces the pages and
/// clears the message.
pub proof fn later_reload_recovers(
    document: DocumentView,
    task: ReloadTask,
    entry_id: Option<u64>,
    sizes: Seq<PageSize>,
)
    requires
        document.generation < u64::MAX,
    ensures
        ({
            let (after, _, action) = document.reload_step(
                task,
                ReloadEventView::Loaded { entry_id, sizes },
            );
            &&& action == ReloadAction::Stop
            &&& after.generation > document.generation
            &&& after.generation == document.generation + 1
            &&& after.sizes == sizes
            &&& after.error is None
            &&& !after.loading
            &&& !after.deleted
            &&& after.path == document.path
            &&& after.entry_id == entry_id
            &&& after.has_renderer
            &&& after.cache == Seq::<PageEntry>::empty()
        }),
{
}

/// A file that was renamed is followed: the document has the new path, and is not another one.
pub proof fn renamed_file_is_followed(document: DocumentView, entry: WorktreeEntry)
    requires
        document.entry_id == Some(entry.id),
    ensures
        document.moved(document.current_entry(Some(entry), None)).path.path == entry.path@,
        document.moved(document.current_entry(Some(entry), None)).entry_id == document.entry_id,
        !document.moved(document.current_entry(Some(entry), None)).deleted,
        document.moved(document.current_entry(Some(entry), None)).generation
            == document.generation,
        document.moved(document.current_entry(Some(entry), None)).path.worktree_id
            == document.path.worktree_id,
        document.moved(document.current_entry(Some(entry), None)).loading,
{
}

/// The number of a file goes before its path: a file that was renamed is followed even where another
/// one has taken its place. Where no file has the number any longer, the one with the path counts,
/// and where there is none either, the document is deleted but keeps its place and its pages.
pub proof fn documents_follow_their_files(
    document: DocumentView,
    by_id: Option<WorktreeEntry>,
    by_path: Option<WorktreeEntry>,
)
    ensures
        ({
            let after = document.moved(document.current_entry(by_id, by_path));
            let follows_id = document.entry_id is Some && by_id is Some;
            &&& follows_id ==> after.path.path == by_id->0.path@ && after.entry_id == Some(
                by_id->0.id,
            ) && !after.deleted
            &&& !follows_id && by_path is Some ==> after.path.path == by_path->0.path@
                && after.entry_id == Some(by_path->0.id) && !after.deleted
            &&& !follows_id && by_path is None ==> after.path == document.path && after.entry_id
                == document.entry_id && after.deleted
            &&& after.loading
            &&& after.path.worktree_id == document.path.worktree_id
            &&& after.sizes == document.sizes
            &&& after.generation == document.generation
            &&& after.error == document.error
            &&& after.has_renderer == document.has_renderer
            &&& after.cache == document.cache
        }),
{
}

/// A change concerns a document if it names the document's path or the number of its file, whatever
/// else changed with it, and if no change does, none concerns it.
pub proof fn changes_of_the_file_concern_the_document(
    document: DocumentView,
    changes: Seq<EntryChange>,
)
    ensures
        forall|i: int|
            0 <= i < changes.len() && (#[trigger] changes[i]).path@ == document.path.path
                ==> document.concerned(changes),
        forall|i: int|
            0 <= i < changes.len() && document.entry_id == Some((#[trigger] changes[i]).id)
                ==> document.concerned(changes),
        (forall|i: int|
            0 <= i < changes.len() ==> (#[trigger] changes[i]).path@ != document.path.path
                && document.entry_id != Some(changes[i].id)) ==> !document.concerned(changes),
{
}

/// A file that cannot be read is tried three times, with 200 milliseconds between two attempts, and
/// then the message of the last attempt stays. A document that was closed is not read again.
pub proof fn reading_is_tried_again(
    document: DocumentView,
    task: ReloadTask,
    message: Seq<char>,
)
    requires
        task.failures < 3,
    ensures
        ({
            let (after, next, action) = document.reload_step(
                task,
                ReloadEventView::Failed(message),
            );
            let left = 3 - task.failures;
            &&& left > 1 ==> action is Sleep && after == document && 3 - next.failures
                == left - 1
            &&& left == 1 ==> action is Stop && after.error == Some(message) && !after.loading
                && after.sizes == document.sizes && after.path == document.path && after.cache
                == document.cache && after.generation == document.generation && after.deleted
                == document.deleted && after.entry_id == document.entry_id && after.has_renderer
                == document.has_renderer
            &&& next.failures < 3
        }),
        RELOAD_DELAY_MILLIS == 200,
        document.reload_step(task, ReloadEventView::Slept).0 == document,
        document.reload_step(task, ReloadEventView::Slept).1 == task,
        document.reload_step(task, ReloadEventView::Slept).2 is Load,
        document.reload_step(task, ReloadEventView::Closed).0 == document,
        document.reload_step(task, ReloadEventView::Closed).2 is Stop,
{
}

/// A document that was opened has no pages until its file was read, and stands where it was opened.
pub proof fn opened_documents_wait_for_their_pages(path: ProjectPathView, entry_id: Option<u64>)
    ensures
        DocumentView::opened(path, entry_id).path == path,
        DocumentView::opened(path, entry_id).entry_id == entry_id,
        DocumentView::opened(path, entry_id).loading,
        DocumentView::opened(path, entry_id).error is None,
        !DocumentView::opened(path, entry_id).deleted,
        !DocumentView::opened(path, entry_id).has_renderer,
        DocumentView::opened(path, entry_id).sizes.len() == 0,
        DocumentView::opened(path, entry_id).cache.len() == 0,
{
}

/// Two paths are the same only where they have the same worktree and the same text.
pub proof fn paths_are_told_apart(a: ProjectPath, b: ProjectPath)
    ensures
        a@ == b@ <==> a.worktree_id == b.worktree_id && a.path@ == b.path@,
{
}

/// What is known of a document is all that it holds.
pub proof fn documents_hide_nothing(document: PdfDocument)
    ensures
        document@.path.worktree_id == document.path.worktree_id,
        document@.path.path == document.path.path@,
        document@.sizes == document.sizes@,
        document@.generation == document.generation,
        document@.loading == document.loading,
        document.error is None <==> document@.error is None,
        document.error matches Some(message) ==> document@.error == Some(message@),
        document@.deleted == document.deleted,
        document@.entry_id == document.entry_id,
        document@.has_renderer == document.has_renderer,
        document@.cache == document.cache@,
{
}

/// What is known of the event of a task is all that it tells.
pub proof fn reload_events_hide_nothing(event: ReloadEvent)
    ensures
        event is Slept <==> event@ is Slept,
        event is Closed <==> event@ is Closed,
        event matches ReloadEvent::Failed(message) ==> event@ == ReloadEventView::Failed(message@),
        event matches ReloadEvent::Loaded { entry_id, sizes } ==> event@
            == (ReloadEventView::Loaded { entry_id, sizes: sizes@ }),
{
}

} // verus!
