//! Loading what a commit changed into an editor.
//!
//! The work on buffers and comparisons is done elsewhere; they are known here by numbers. A
//! [`DiffLoader`] is told how each piece of work ended and tells what is to be done next.

use std::collections::{HashMap, HashSet};

use vstd::prelude::*;
use vstd::std_specs::hash::*;
use vstd::string::*;

use crate::historical::{
    self, can_edit_historical_buffer, BufferState, HistoricalEditing, LineEnding,
};
use crate::repository::{self, CommitFile, GitBlob, RepoPath, StatusCode};
use crate::text::{self, after_last_dot, matches_ignoring_case};

verus! {

/// How many excerpts of a file are shown at once before others get their turn.
pub const EXCERPT_BATCH_SIZE: usize = 10;

/// What a commit view shows: one file or all of them, of a stash entry or of a commit, and whether
/// the parents of the commit are missing.
#[derive(Clone, Copy, Debug, PartialEq, Eq, Structural)]
pub struct DiffScope {
    pub showing_full_file: bool,
    pub is_stash: bool,
    pub is_shallow_boundary: bool,
}

/// The extensions of files that are compared as images.
pub open spec fn image_extensions() -> Seq<Seq<char>> {
    seq![
        "png"@,
        "jpg"@,
        "jpeg"@,
        "gif"@,
        "webp"@,
        "bmp"@,
        "tif"@,
        "tiff"@,
        "ico"@,
        "pnm"@,
        "ppm"@,
        "pgm"@,
        "pbm"@,
    ]
}

/// Whether a path has the extension of an image.
pub open spec fn has_image_extension(path: Seq<char>) -> bool {
    image_extensions().contains(text::ascii_lowercase(text::after_last(path, '.')))
}

/// Tells whether a path has the extension of an image.
pub fn is_image_path(path: &str) -> (r: bool)
    ensures
        r == has_image_extension(path@),
{
    let extension = after_last_dot(path);
    let ghost lower = text::ascii_lowercase(extension@);
    let r = matches_ignoring_case(extension, "png") || matches_ignoring_case(extension, "jpg")
        || matches_ignoring_case(extension, "jpeg") || matches_ignoring_case(extension, "gif")
        || matches_ignoring_case(extension, "webp") || matches_ignoring_case(extension, "bmp")
        || matches_ignoring_case(extension, "tif") || matches_ignoring_case(extension, "tiff")
        || matches_ignoring_case(extension, "ico") || matches_ignoring_case(extension, "pnm")
        || matches_ignoring_case(extension, "ppm") || matches_ignoring_case(extension, "pgm")
        || matches_ignoring_case(extension, "pbm");
    proof {
        let all = image_extensions();
        assert(all[0] == "png"@ && all[1] == "jpg"@ && all[2] == "jpeg"@ && all[3] == "gif"@);
        assert(all[4] == "webp"@ && all[5] == "bmp"@ && all[6] == "tif"@ && all[7] == "tiff"@);
        assert(all[8] == "ico"@ && all[9] == "pnm"@ && all[10] == "ppm"@ && all[11] == "pgm"@);
        assert(all[12] == "pbm"@);
        if all.contains(lower) {
            let i = choose|i: int| 0 <= i < all.len() && all[i] == lower;
            assert(r);
        }
    }
    r
}

/// A file of a commit that is shown as text.
#[derive(Debug)]
pub struct TextPlan {
    pub path: RepoPath,
    pub status: StatusCode,
    pub is_deleted: bool,
    pub is_binary: bool,
    pub new_text: String,
    pub old_text: Option<String>,
    /// Whether the working file may be edited in its place.
    pub may_edit: bool,
}

/// A file of a commit that is shown as an image: the bytes of the image before and after, and
/// whether the file was there.
#[derive(Debug)]
pub struct ImagePlan {
    pub old_bytes: Option<Vec<u8>>,
    pub old_present: bool,
    pub new_bytes: Option<Vec<u8>>,
    pub new_present: bool,
}

/// How a file of a commit is shown.
#[derive(Debug)]
pub enum FilePlan {
    Image(ImagePlan),
    Text(TextPlan),
}

/// Whether a file of a commit is shown as an image.
pub open spec fn is_shown_as_image(file: CommitFile, scope: DiffScope) -> bool {
    scope.showing_full_file && file.is_binary && has_image_extension(file.path.unix@)
}

/// How a file changed.
pub open spec fn file_status(file: CommitFile) -> StatusCode {
    if file.old_text is None {
        StatusCode::Added
    } else if file.new_text is None {
        StatusCode::Deleted
    } else {
        StatusCode::Modified
    }
}

/// Whether the working file may be edited in place of a file of a commit, if it is the same.
pub open spec fn may_be_edited(file: CommitFile, scope: DiffScope) -> bool {
    &&& scope.showing_full_file
    &&& !scope.is_stash
    &&& !file.is_binary
    &&& file.new_text is Some
    &&& !scope.is_shallow_boundary
}

/// Whether a plan shows a file of a commit as it has to be shown.
pub open spec fn plans_file(plan: FilePlan, file: CommitFile, scope: DiffScope) -> bool {
    match plan {
        FilePlan::Image(plan) => {
            &&& is_shown_as_image(file, scope)
            &&& plan.old_bytes == file.old_binary
            &&& plan.old_present == (file.old_text is Some)
            &&& plan.new_bytes == file.new_binary
            &&& plan.new_present == (file.new_text is Some)
        },
        FilePlan::Text(plan) => {
            &&& !is_shown_as_image(file, scope)
            &&& plan.path == file.path
            &&& plan.status == file_status(file)
            &&& plan.is_deleted == (file.new_text is None)
            &&& plan.is_binary == file.is_binary
            &&& plan.new_text@ == if file.is_binary {
                "(binary file not shown)"@
            } else if file.new_text is Some {
                file.new_text->0@
            } else {
                Seq::empty()
            }
            &&& plan.old_text == if file.is_binary {
                None
            } else {
                file.old_text
            }
            &&& plan.may_edit == may_be_edited(file, scope)
        },
    }
}

/// Decides how a file of a commit is shown.
pub fn plan_file(file: CommitFile, scope: DiffScope) -> (plan: FilePlan)
    ensures
        plans_file(plan, file, scope),
{
    if scope.showing_full_file && file.is_binary && is_image_path(file.path.unix.as_str()) {
        return FilePlan::Image(
            ImagePlan {
                old_present: file.old_text.is_some(),
                new_present: file.new_text.is_some(),
                old_bytes: file.old_binary,
                new_bytes: file.new_binary,
            },
        );
    }
    let status = if file.old_text.is_none() {
        StatusCode::Added
    } else if file.new_text.is_none() {
        StatusCode::Deleted
    } else {
        StatusCode::Modified
    };
    let is_deleted = file.new_text.is_none();
    let may_edit = scope.showing_full_file && !scope.is_stash && !file.is_binary && !is_deleted
        && !scope.is_shallow_boundary;
    let (new_text, old_text) = if file.is_binary {
        ("(binary file not shown)".to_owned(), None)
    } else {
        (
            match file.new_text {
                Some(text) => text,
                None => String::new(),
            },
            file.old_text,
        )
    };
    FilePlan::Text(
        TextPlan {
            path: file.path,
            status,
            is_deleted,
            is_binary: file.is_binary,
            new_text,
            old_text,
            may_edit,
        },
    )
}

/// A place in a text.
#[derive(Clone, Copy, Debug, PartialEq, Eq, Structural)]
pub struct Point {
    pub row: u32,
    pub column: u32,
}

/// A part of a text.
#[derive(Clone, Copy, Debug, PartialEq, Eq, Structural)]
pub struct PointRange {
    pub start: Point,
    pub end: Point,
}

/// The parts of a text that are shown: all of it, where the whole file is shown or nothing
/// changed, otherwise what changed.
pub open spec fn shown_ranges(
    whole: bool,
    hunks: Seq<PointRange>,
    end: Point,
) -> Seq<PointRange> {
    if whole || hunks.len() == 0 {
        seq![PointRange { start: Point { row: 0, column: 0 }, end }]
    } else {
        hunks
    }
}

/// Decides which parts of a text are shown. `end` is where the text ends.
pub fn excerpt_ranges(whole: bool, hunks: Vec<PointRange>, end: Point) -> (r: Vec<PointRange>)
    ensures
        r@ == shown_ranges(whole, hunks@, end),
{
    if whole || hunks.len() == 0 {
        let mut ranges: Vec<PointRange> = Vec::new();
        ranges.push(PointRange { start: Point { row: 0, column: 0 }, end });
        proof {
            assert(ranges@ =~= shown_ranges(whole, hunks@, end));
        }
        ranges
    } else {
        hunks
    }
}

/// What the steps of loading a file depend on.
#[derive(Clone, Copy, Debug, PartialEq, Eq, Structural)]
pub struct FileTraits {
    pub is_image: bool,
    pub is_binary: bool,
    pub may_edit: bool,
    pub showing_full_file: bool,
    pub status: StatusCode,
}

impl FilePlan {
    /// What the steps of loading the file depend on.
    pub open spec fn spec_traits(self, showing_full_file: bool) -> FileTraits {
        match self {
            FilePlan::Image(_) => FileTraits {
                is_image: true,
                is_binary: true,
                may_edit: false,
                showing_full_file,
                status: StatusCode::Modified,
            },
            FilePlan::Text(plan) => FileTraits {
                is_image: false,
                is_binary: plan.is_binary,
                may_edit: plan.may_edit,
                showing_full_file,
                status: plan.status,
            },
        }
    }

    /// What the steps of loading the file depend on.
    pub fn traits(&self, showing_full_file: bool) -> (r: FileTraits)
        ensures
            r == self.spec_traits(showing_full_file),
    {
        match self {
            FilePlan::Image(_) => FileTraits {
                is_image: true,
                is_binary: true,
                may_edit: false,
                showing_full_file,
                status: StatusCode::Modified,
            },
            FilePlan::Text(plan) => FileTraits {
                is_image: false,
                is_binary: plan.is_binary,
                may_edit: plan.may_edit,
                showing_full_file,
                status: plan.status,
            },
        }
    }
}

/// What a buffer is compared with.
#[derive(Clone, Copy, Debug, PartialEq, Eq, Structural)]
pub enum DiffBase {
    /// Itself.
    Unchanged,
    /// The file before the commit.
    Parent,
    /// The file at the commit.
    Commit,
}

/// Why loading was given up.
#[derive(Clone, Copy, Debug, PartialEq, Eq, Structural)]
pub enum DiffFailure {
    NoWorktree,
    Buffer,
    Diff,
    ViewClosed,
}

impl DiffFailure {
    /// The message for the user, where the work that failed has none of its own.
    pub fn message(self) -> (r: Option<&'static str>)
        ensures
            r is Some <==> self is NoWorktree,
            r is Some ==> r->0@ == "project has no worktrees"@,
    {
        match self {
            DiffFailure::NoWorktree => Some("project has no worktrees"),
            _ => None,
        }
    }
}

/// What is to be done next.
#[derive(Clone, Copy, Debug, PartialEq, Eq, Structural)]
pub enum LoadAction {
    /// Decode the images of the file and show them.
    LoadImages,
    /// Find the worktree that the file counts to.
    FindWorktree,
    /// Make a buffer of the file at the commit.
    BuildBuffer { worktree: u64 },
    /// Compare a buffer.
    BuildDiff { buffer: u64, base: DiffBase },
    /// Find the file in the project, and open it.
    OpenWorkingFile,
    /// Find out whether the working file can be edited in place of the file at the commit.
    CheckWorkingFile { candidate: u64 },
    /// Let the working file be edited in place of the file at the commit.
    Attach { candidate: u64, diff: u64, edits_diff: u64 },
    /// Find the number of a buffer.
    Identify { buffer: u64 },
    /// Find the parts of a buffer that changed, all of it if `whole`.
    Measure { buffer: u64, diff: u64, whole: bool },
    /// Show the first `count` parts of a buffer. With the first ones, split the editor where it
    /// is to be split, and go to the first change where the whole file is shown.
    ShowExcerpts { buffer: u64, diff: u64, count: usize, first: bool },
    /// Let others have their turn.
    Yield,
    /// Hand over how the files changed, and fold those that are no text.
    Finish { fold_binaries: bool },
    /// Nothing more.
    Stop,
    /// Give up.
    Fail(DiffFailure),
    /// Nothing, since nothing was expected to happen.
    Wait,
}

/// How a piece of work ended.
#[derive(Clone, Copy, Debug, PartialEq, Eq, Structural)]
pub enum LoadEvent {
    ImagesLoaded,
    Worktree(Option<u64>),
    /// A buffer or a comparison was made, or could not be made.
    Built(Option<u64>),
    /// The working file was opened; it is not there or could not be opened otherwise.
    Opened(Option<u64>),
    /// Whether the working file can be edited.
    Checked(bool),
    Attached,
    Identified(u64),
    /// How many parts of the buffer are shown.
    Measured(usize),
    Shown,
    Resumed,
    Finished,
    ViewClosed,
}

/// The step of loading that is being done.
#[derive(Clone, Copy, Debug, PartialEq, Eq, Structural)]
pub enum Stage {
    Images,
    Worktree,
    Buffer,
    Diff { buffer: u64 },
    WorkingFile { buffer: u64, diff: u64 },
    FirstCheck { buffer: u64, diff: u64, candidate: u64 },
    ParentDiff { buffer: u64, diff: u64, candidate: u64 },
    EditsDiff { buffer: u64, diff: u64, candidate: u64, parent_diff: u64 },
    SecondCheck { buffer: u64, diff: u64, candidate: u64, parent_diff: u64, edits_diff: u64 },
    Attaching { candidate: u64, parent_diff: u64, edits_diff: u64 },
    Identity { buffer: u64, diff: u64 },
    Measuring { buffer: u64, diff: u64 },
    Showing { buffer: u64, diff: u64, shown: usize, total: usize },
    Pausing { buffer: u64, diff: u64, shown: usize, total: usize },
    /// The file is done.
    FileDone,
    Finishing,
    Done,
    Failed,
}

/// The first step of loading a file, and what is to be done for it.
pub open spec fn first_step(traits: FileTraits) -> (Stage, LoadAction) {
    if traits.is_image {
        (Stage::Images, LoadAction::LoadImages)
    } else {
        (Stage::Worktree, LoadAction::FindWorktree)
    }
}

/// How many excerpts are shown when some more are.
pub open spec fn next_count(shown: int, total: int) -> int {
    if shown + EXCERPT_BATCH_SIZE < total {
        shown + EXCERPT_BATCH_SIZE
    } else {
        total
    }
}

/// The step in which some more excerpts are shown.
pub open spec fn show_more(buffer: u64, diff: u64, shown: usize, total: usize) -> (
    Stage,
    LoadAction,
) {
    let count = next_count(shown as int, total as int) as usize;
    (
        Stage::Showing { buffer, diff, shown: count, total },
        LoadAction::ShowExcerpts { buffer, diff, count, first: shown == 0 },
    )
}

/// The step in which the number of a buffer is found.
pub open spec fn identify(buffer: u64, diff: u64) -> (Stage, LoadAction) {
    (Stage::Identity { buffer, diff }, LoadAction::Identify { buffer })
}

/// The step in which loading was given up.
pub open spec fn give_up(failure: DiffFailure) -> (Stage, LoadAction) {
    (Stage::Failed, LoadAction::Fail(failure))
}

/// The next step of loading a file, and what is to be done for it.
pub open spec fn next_step(stage: Stage, traits: FileTraits, event: LoadEvent) -> (
    Stage,
    LoadAction,
) {
    match (stage, event) {
        (Stage::Done, _) => (stage, LoadAction::Wait),
        (Stage::Failed, _) => (stage, LoadAction::Wait),
        (_, LoadEvent::ViewClosed) => give_up(DiffFailure::ViewClosed),
        (Stage::Images, LoadEvent::ImagesLoaded) => (Stage::FileDone, LoadAction::Wait),
        (Stage::Worktree, LoadEvent::Worktree(None)) => give_up(DiffFailure::NoWorktree),
        (Stage::Worktree, LoadEvent::Worktree(Some(worktree))) => {
            (Stage::Buffer, LoadAction::BuildBuffer { worktree })
        },
        (Stage::Buffer, LoadEvent::Built(None)) => give_up(DiffFailure::Buffer),
        (Stage::Buffer, LoadEvent::Built(Some(buffer))) => (
            Stage::Diff { buffer },
            LoadAction::BuildDiff {
                buffer,
                base: if traits.is_binary {
                    DiffBase::Unchanged
                } else {
                    DiffBase::Parent
                },
            },
        ),
        (Stage::Diff { .. }, LoadEvent::Built(None)) => give_up(DiffFailure::Diff),
        (Stage::Diff { buffer }, LoadEvent::Built(Some(diff))) => {
            if traits.may_edit {
                (Stage::WorkingFile { buffer, diff }, LoadAction::OpenWorkingFile)
            } else {
                identify(buffer, diff)
            }
        },
        (Stage::WorkingFile { buffer, diff }, LoadEvent::Opened(None)) => identify(buffer, diff),
        (Stage::WorkingFile { buffer, diff }, LoadEvent::Opened(Some(candidate))) => (
            Stage::FirstCheck { buffer, diff, candidate },
            LoadAction::CheckWorkingFile { candidate },
        ),
        (Stage::FirstCheck { buffer, diff, .. }, LoadEvent::Checked(false)) => {
            identify(buffer, diff)
        },
        (Stage::FirstCheck { buffer, diff, candidate }, LoadEvent::Checked(true)) => (
            Stage::ParentDiff { buffer, diff, candidate },
            LoadAction::BuildDiff { buffer: candidate, base: DiffBase::Parent },
        ),
        (Stage::ParentDiff { .. }, LoadEvent::Built(None)) => give_up(DiffFailure::Diff),
        (Stage::ParentDiff { buffer, diff, candidate }, LoadEvent::Built(Some(parent_diff))) => (
            Stage::EditsDiff { buffer, diff, candidate, parent_diff },
            LoadAction::BuildDiff { buffer: candidate, base: DiffBase::Commit },
        ),
        (Stage::EditsDiff { .. }, LoadEvent::Built(None)) => give_up(DiffFailure::Diff),
        (
            Stage::EditsDiff { buffer, diff, candidate, parent_diff },
            LoadEvent::Built(Some(edits_diff)),
        ) => (
            Stage::SecondCheck { buffer, diff, candidate, parent_diff, edits_diff },
            LoadAction::CheckWorkingFile { candidate },
        ),
        (Stage::SecondCheck { buffer, diff, .. }, LoadEvent::Checked(false)) => {
            identify(buffer, diff)
        },
        (
            Stage::SecondCheck { candidate, parent_diff, edits_diff, .. },
            LoadEvent::Checked(true),
        ) => (
            Stage::Attaching { candidate, parent_diff, edits_diff },
            LoadAction::Attach { candidate, diff: parent_diff, edits_diff },
        ),
        (Stage::Attaching { candidate, parent_diff, .. }, LoadEvent::Attached) => {
            identify(candidate, parent_diff)
        },
        (Stage::Identity { buffer, diff }, LoadEvent::Identified(_)) => (
            Stage::Measuring { buffer, diff },
            LoadAction::Measure {
                buffer,
                diff,
                whole: traits.is_binary || traits.showing_full_file,
            },
        ),
        (Stage::Measuring { buffer, diff }, LoadEvent::Measured(total)) => {
            if total == 0 {
                (Stage::FileDone, LoadAction::Wait)
            } else {
                show_more(buffer, diff, 0, total)
            }
        },
        (Stage::Showing { buffer, diff, shown, total }, LoadEvent::Shown) => {
            if shown < total {
                (Stage::Pausing { buffer, diff, shown, total }, LoadAction::Yield)
            } else {
                (Stage::FileDone, LoadAction::Wait)
            }
        },
        (Stage::Pausing { buffer, diff, shown, total }, LoadEvent::Resumed) => {
            show_more(buffer, diff, shown, total)
        },
        (Stage::Finishing, LoadEvent::Finished) => (Stage::Done, LoadAction::Stop),
        _ => (stage, LoadAction::Wait),
    }
}

fn identify_step(buffer: u64, diff: u64) -> (r: (Stage, LoadAction))
    ensures
        r == identify(buffer, diff),
{
    (Stage::Identity { buffer, diff }, LoadAction::Identify { buffer })
}

fn give_up_step(failure: DiffFailure) -> (r: (Stage, LoadAction))
    ensures
        r == give_up(failure),
{
    (Stage::Failed, LoadAction::Fail(failure))
}

fn show_more_step(buffer: u64, diff: u64, shown: usize, total: usize) -> (r: (Stage, LoadAction))
    ensures
        r == show_more(buffer, diff, shown, total),
{
    let count: usize = if total > EXCERPT_BATCH_SIZE && shown < total - EXCERPT_BATCH_SIZE {
        shown + EXCERPT_BATCH_SIZE
    } else {
        total
    };
    (
        Stage::Showing { buffer, diff, shown: count, total },
        LoadAction::ShowExcerpts { buffer, diff, count, first: shown == 0 },
    )
}

/// Goes from one step of loading a file to the next.
pub fn step(stage: Stage, traits: FileTraits, event: LoadEvent) -> (r: (Stage, LoadAction))
    ensures
        r == next_step(stage, traits, event),
{
    match (stage, event) {
        (Stage::Done, _) => (stage, LoadAction::Wait),
        (Stage::Failed, _) => (stage, LoadAction::Wait),
        (_, LoadEvent::ViewClosed) => give_up_step(DiffFailure::ViewClosed),
        (Stage::Images, LoadEvent::ImagesLoaded) => (Stage::FileDone, LoadAction::Wait),
        (Stage::Worktree, LoadEvent::Worktree(None)) => give_up_step(DiffFailure::NoWorktree),
        (Stage::Worktree, LoadEvent::Worktree(Some(worktree))) => {
            (Stage::Buffer, LoadAction::BuildBuffer { worktree })
        },
        (Stage::Buffer, LoadEvent::Built(None)) => give_up_step(DiffFailure::Buffer),
        (Stage::Buffer, LoadEvent::Built(Some(buffer))) => {
            let base = if traits.is_binary {
                DiffBase::Unchanged
            } else {
                DiffBase::Parent
            };
            (Stage::Diff { buffer }, LoadAction::BuildDiff { buffer, base })
        },
        (Stage::Diff { .. }, LoadEvent::Built(None)) => give_up_step(DiffFailure::Diff),
        (Stage::Diff { buffer }, LoadEvent::Built(Some(diff))) => {
            if traits.may_edit {
                (Stage::WorkingFile { buffer, diff }, LoadAction::OpenWorkingFile)
            } else {
                identify_step(buffer, diff)
            }
        },
        (Stage::WorkingFile { buffer, diff }, LoadEvent::Opened(None)) => {
            identify_step(buffer, diff)
        },
        (Stage::WorkingFile { buffer, diff }, LoadEvent::Opened(Some(candidate))) => (
            Stage::FirstCheck { buffer, diff, candidate },
            LoadAction::CheckWorkingFile { candidate },
        ),
        (Stage::FirstCheck { buffer, diff, candidate }, LoadEvent::Checked(editable)) => {
            if editable {
                (
                    Stage::ParentDiff { buffer, diff, candidate },
                    LoadAction::BuildDiff { buffer: candidate, base: DiffBase::Parent },
                )
            } else {
                identify_step(buffer, diff)
            }
        },
        (Stage::ParentDiff { .. }, LoadEvent::Built(None)) => give_up_step(DiffFailure::Diff),
        (Stage::ParentDiff { buffer, diff, candidate }, LoadEvent::Built(Some(parent_diff))) => (
            Stage::EditsDiff { buffer, diff, candidate, parent_diff },
            LoadAction::BuildDiff { buffer: candidate, base: DiffBase::Commit },
        ),
        (Stage::EditsDiff { .. }, LoadEvent::Built(None)) => give_up_step(DiffFailure::Diff),
        (
            Stage::EditsDiff { buffer, diff, candidate, parent_diff },
            LoadEvent::Built(Some(edits_diff)),
        ) => (
            Stage::SecondCheck { buffer, diff, candidate, parent_diff, edits_diff },
            LoadAction::CheckWorkingFile { candidate },
        ),
        (
            Stage::SecondCheck { buffer, diff, candidate, parent_diff, edits_diff },
            LoadEvent::Checked(editable),
        ) => {
            if editable {
                (
                    Stage::Attaching { candidate, parent_diff, edits_diff },
                    LoadAction::Attach { candidate, diff: parent_diff, edits_diff },
                )
            } else {
                identify_step(buffer, diff)
            }
        },
        (Stage::Attaching { candidate, parent_diff, .. }, LoadEvent::Attached) => {
            identify_step(candidate, parent_diff)
        },
        (Stage::Identity { buffer, diff }, LoadEvent::Identified(_)) => {
            let whole = traits.is_binary || traits.showing_full_file;
            (Stage::Measuring { buffer, diff }, LoadAction::Measure { buffer, diff, whole })
        },
        (Stage::Measuring { buffer, diff }, LoadEvent::Measured(total)) => {
            if total == 0 {
                (Stage::FileDone, LoadAction::Wait)
            } else {
                show_more_step(buffer, diff, 0, total)
            }
        },
        (Stage::Showing { buffer, diff, shown, total }, LoadEvent::Shown) => {
            if shown < total {
                (Stage::Pausing { buffer, diff, shown, total }, LoadAction::Yield)
            } else {
                (Stage::FileDone, LoadAction::Wait)
            }
        },
        (Stage::Pausing { buffer, diff, shown, total }, LoadEvent::Resumed) => {
            show_more_step(buffer, diff, shown, total)
        },
        (Stage::Finishing, LoadEvent::Finished) => (Stage::Done, LoadAction::Stop),
        _ => (stage, LoadAction::Wait),
    }
}

/// Whether a step belongs to the loading of a file.
pub open spec fn is_file_stage(stage: Stage) -> bool {
    !(stage is Finishing || stage is Done || stage is Failed)
}

/// What is known of the files that are loaded.
#[verifier::ext_equal]
pub struct LoaderView {
    pub plans: Seq<FilePlan>,
    pub showing_full_file: bool,
    /// How many files are done.
    pub index: int,
    pub stage: Stage,
    /// How the files changed, by the numbers of their buffers.
    pub statuses: Map<u64, StatusCode>,
    /// The numbers of the buffers of files that are no text.
    pub binaries: Set<u64>,
}

impl LoaderView {
    /// A step of loading a file is done only while there is a file to load, and the end comes only
    /// after all files.
    pub open spec fn wf(self) -> bool {
        &&& 0 <= self.index <= self.plans.len()
        &&& is_file_stage(self.stage) ==> self.index < self.plans.len()
        &&& self.stage is Finishing || self.stage is Done ==> self.index == self.plans.len()
        &&& !(self.stage is FileDone)
        &&& is_allowed(self.stage, self.traits())
        &&& self.binaries.finite()
    }

    /// What the steps of loading the current file depend on.
    pub open spec fn traits(self) -> FileTraits {
        if 0 <= self.index < self.plans.len() {
            self.plans[self.index].spec_traits(self.showing_full_file)
        } else {
            FileTraits {
                is_image: false,
                is_binary: false,
                may_edit: false,
                showing_full_file: self.showing_full_file,
                status: StatusCode::Modified,
            }
        }
    }

    /// The start of the current file, or the end where there is none.
    pub open spec fn entered(self) -> (LoaderView, LoadAction) {
        if self.index < self.plans.len() {
            let (stage, action) = first_step(self.traits());
            (LoaderView { stage, ..self }, action)
        } else {
            (
                LoaderView { stage: Stage::Finishing, ..self },
                LoadAction::Finish {
                    fold_binaries: !self.showing_full_file && self.binaries.len() > 0,
                },
            )
        }
    }

    /// What is known once the number of a buffer was found.
    pub open spec fn recorded(self, event: LoadEvent) -> LoaderView {
        match (self.stage, event) {
            (Stage::Identity { .. }, LoadEvent::Identified(id)) => LoaderView {
                statuses: self.statuses.insert(id, self.traits().status),
                binaries: if self.traits().is_binary {
                    self.binaries.insert(id)
                } else {
                    self.binaries
                },
                ..self
            },
            _ => self,
        }
    }

    /// What is known after a piece of work ended, and what is to be done next.
    pub open spec fn stepped(self, event: LoadEvent) -> (LoaderView, LoadAction) {
        let (stage, action) = next_step(self.stage, self.traits(), event);
        let recorded = self.recorded(event);
        if stage is FileDone {
            LoaderView { index: self.index + 1, ..recorded }.entered()
        } else {
            (LoaderView { stage, ..recorded }, action)
        }
    }
}

/// Where the caret goes when an action was done, if it goes anywhere.
pub open spec fn caret_after(loader: LoaderView, action: LoadAction, rows: Seq<u32>) -> Option<Point> {
    if action matches LoadAction::ShowExcerpts { first, .. } && first && loader.showing_full_file
        && rows.len() > 0 {
        Some(Point { row: rows.first(), column: 0 })
    } else {
        None
    }
}

/// The loading of what a commit changed.
pub struct DiffLoader {
    pub plans: Vec<FilePlan>,
    pub showing_full_file: bool,
    pub index: usize,
    pub stage: Stage,
    pub statuses: HashMap<u64, StatusCode>,
    pub binaries: HashSet<u64>,
}

impl View for DiffLoader {
    type V = LoaderView;

    open spec fn view(&self) -> LoaderView {
        LoaderView {
            plans: self.plans@,
            showing_full_file: self.showing_full_file,
            index: self.index as int,
            stage: self.stage,
            statuses: self.statuses@,
            binaries: self.binaries@,
        }
    }
}

impl DiffLoader {
    /// Starts to load the files of a commit.
    pub fn new(files: Vec<CommitFile>, scope: DiffScope) -> (r: (DiffLoader, LoadAction))
        ensures
            r.0@.plans.len() == files@.len(),
            forall|i: int|
                0 <= i < files@.len() ==> plans_file(
                    #[trigger] r.0@.plans[i],
                    files@[i],
                    scope,
                ),
            (r.0@, r.1) == (LoaderView {
                plans: r.0@.plans,
                showing_full_file: scope.showing_full_file,
                index: 0,
                stage: Stage::FileDone,
                statuses: Map::empty(),
                binaries: Set::empty(),
            }).entered(),
            r.0@.wf(),
    {
        broadcast use group_hash_axioms;

        let ghost all = files@;
        let mut files = files;
        let mut reversed: Vec<FilePlan> = Vec::new();
        while files.len() > 0
            invariant
                files@ == all.take(files@.len() as int),
                files@.len() + reversed@.len() == all.len(),
                forall|i: int|
                    0 <= i < reversed@.len() ==> plans_file(
                        #[trigger] reversed@[i],
                        all[all.len() - 1 - i],
                        scope,
                    ),
            decreases files@.len(),
        {
            if let Some(file) = files.pop() {
                reversed.push(plan_file(file, scope));
            }
        }
        let mut plans: Vec<FilePlan> = Vec::new();
        let ghost before = reversed@;
        while reversed.len() > 0
            invariant
                reversed@ == before.take(reversed@.len() as int),
                before.len() == all.len(),
                plans@.len() + reversed@.len() == all.len(),
                forall|i: int|
                    0 <= i < before.len() ==> plans_file(
                        #[trigger] before[i],
                        all[all.len() - 1 - i],
                        scope,
                    ),
                forall|i: int|
                    0 <= i < plans@.len() ==> plans_file(#[trigger] plans@[i], all[i], scope),
            decreases reversed@.len(),
        {
            let ghost n = reversed@.len() as int;
            if let Some(plan) = reversed.pop() {
                proof {
                    assert(plan == before[n - 1]);
                }
                plans.push(plan);
            }
        }
        let mut loader = DiffLoader {
            plans,
            showing_full_file: scope.showing_full_file,
            index: 0,
            stage: Stage::FileDone,
            statuses: HashMap::new(),
            binaries: HashSet::new(),
        };
        proof {
            assert(loader@ =~= (LoaderView {
                plans: plans@,
                showing_full_file: scope.showing_full_file,
                index: 0,
                stage: Stage::FileDone,
                statuses: Map::empty(),
                binaries: Set::empty(),
            }));
        }
        let action = loader.enter();
        (loader, action)
    }

    /// Starts with the current file, or comes to the end where there is none.
    fn enter(&mut self) -> (action: LoadAction)
        requires
            0 <= old(self)@.index <= old(self)@.plans.len(),
        ensures
            (final(self)@, action) == old(self)@.entered(),
            final(self)@.binaries.finite() ==> final(self)@.wf(),
    {
        broadcast use group_hash_axioms;

        if self.index < self.plans.len() {
            let traits = self.plans[self.index].traits(self.showing_full_file);
            if traits.is_image {
                self.stage = Stage::Images;
                LoadAction::LoadImages
            } else {
                self.stage = Stage::Worktree;
                LoadAction::FindWorktree
            }
        } else {
            self.stage = Stage::Finishing;
            LoadAction::Finish {
                fold_binaries: !self.showing_full_file && self.binaries.len() > 0,
            }
        }
    }

    /// Takes note of how a piece of work ended, and tells what is to be done next.
    pub fn step(&mut self, event: LoadEvent) -> (action: LoadAction)
        requires
            old(self)@.wf(),
        ensures
            (final(self)@, action) == old(self)@.stepped(event),
            final(self)@.wf(),
    {
        broadcast use group_hash_axioms;

        let traits = if self.index < self.plans.len() {
            self.plans[self.index].traits(self.showing_full_file)
        } else {
            FileTraits {
                is_image: false,
                is_binary: false,
                may_edit: false,
                showing_full_file: self.showing_full_file,
                status: StatusCode::Modified,
            }
        };
        if let Stage::Identity { .. } = self.stage {
            if let LoadEvent::Identified(id) = event {
                self.statuses.insert(id, traits.status);
                if traits.is_binary {
                    self.binaries.insert(id);
                }
            }
        }
        proof {
            assert(self@ =~= old(self)@.recorded(event));
        }
        proof {
            steps_are_allowed(self.stage, traits, event);
        }
        let (stage, action) = step(self.stage, traits, event);
        if let Stage::FileDone = stage {
            self.index = self.index + 1;
            self.enter()
        } else {
            self.stage = stage;
            action
        }
    }

    /// The file that is being loaded, where it is shown as text.
    pub fn current_text(&self) -> (r: Option<&TextPlan>)
        ensures
            r == if self@.index < self@.plans.len() && self@.plans[self@.index] is Text {
                Some(&self@.plans[self@.index]->Text_0)
            } else {
                None
            },
    {
        if self.index < self.plans.len() {
            match &self.plans[self.index] {
                FilePlan::Text(plan) => Some(plan),
                FilePlan::Image(_) => None,
            }
        } else {
            None
        }
    }

    /// The file that is being loaded, where it is shown as an image.
    pub fn current_image(&self) -> (r: Option<&ImagePlan>)
        ensures
            r == if self@.index < self@.plans.len() && self@.plans[self@.index] is Image {
                Some(&self@.plans[self@.index]->Image_0)
            } else {
                None
            },
    {
        if self.index < self.plans.len() {
            match &self.plans[self.index] {
                FilePlan::Text(_) => None,
                FilePlan::Image(plan) => Some(plan),
            }
        } else {
            None
        }
    }

    /// Where the caret goes when an action was done: with the first parts of a file that is shown as
    /// a whole, to the start of the first row that changed. `rows` are the rows at which changes
    /// start, from top to bottom.
    pub fn caret(&self, action: LoadAction, rows: &Vec<u32>) -> (r: Option<Point>)
        ensures
            r == caret_after(self@, action, rows@),
    {
        match action {
            LoadAction::ShowExcerpts { first, .. } => {
                if first && self.showing_full_file && rows.len() > 0 {
                    Some(Point { row: rows[0], column: 0 })
                } else {
                    None
                }
            },
            _ => None,
        }
    }

    /// How the file in a buffer changed, if the buffer is one of those that were loaded.
    pub fn status_of(&self, buffer: u64) -> (r: Option<StatusCode>)
        ensures
            r == if self@.statuses.contains_key(buffer) {
                Some(self@.statuses[buffer])
            } else {
                None
            },
    {
        broadcast use group_hash_axioms;

        match self.statuses.get(&buffer) {
            Some(status) => Some(*status),
            None => None,
        }
    }
}

/// The event for a working file in this state. `normalized` is the text of the file at the commit
/// with its line endings normalized, and `line_ending` how its lines ended before.
pub fn working_file_checked(
    buffer: &BufferState,
    line_ending: LineEnding,
    normalized: &str,
) -> (event: LoadEvent)
    ensures
        event == LoadEvent::Checked(
            historical::is_editable(*buffer, line_ending, normalized@),
        ),
{
    LoadEvent::Checked(can_edit_historical_buffer(buffer, line_ending, normalized))
}

impl TextPlan {
    /// The file as a file of the past.
    pub fn blob(&self, sha: &str, worktree_id: u64) -> (blob: GitBlob)
        ensures
            repository::same_repo_path(blob.path, self.path),
            blob.worktree_id == worktree_id,
            blob.is_deleted == self.is_deleted,
            blob.is_binary == self.is_binary,
            blob.display_name@ == repository::blob_name(sha@, self.path),
    {
        GitBlob::new(&self.path, sha, worktree_id, self.is_deleted, self.is_binary)
    }

    /// The text that a buffer is compared with; none where it is compared with itself, or where
    /// the file was not there.
    pub fn base_text(&self, base: DiffBase) -> (r: Option<String>)
        ensures
            historical::base_text(r) == match base {
                DiffBase::Unchanged => None,
                DiffBase::Parent => historical::base_text(self.old_text),
                DiffBase::Commit => Some(self.new_text@),
            },
    {
        match base {
            DiffBase::Unchanged => None,
            DiffBase::Parent => match &self.old_text {
                Some(text) => Some(text.clone()),
                None => None,
            },
            DiffBase::Commit => Some(self.new_text.clone()),
        }
    }

    /// The editing of the working file in the buffer `candidate` in place of the file.
    pub fn editing(&self, candidate: u64, diff: u64, edits_diff: u64) -> (r: HistoricalEditing)
        ensures
            r.buffer == candidate,
            r.diff == diff,
            r.edits_diff == edits_diff,
            historical::base_text(r.parent_text) == historical::base_text(self.old_text),
            r.commit_text@ == self.new_text@,
    {
        HistoricalEditing {
            buffer: candidate,
            diff,
            edits_diff,
            parent_text: match &self.old_text {
                Some(text) => Some(text.clone()),
                None => None,
            },
            commit_text: self.new_text.clone(),
        }
    }
}

/// Whether a step can be come to with a file.
pub open spec fn is_allowed(stage: Stage, traits: FileTraits) -> bool {
    match stage {
        Stage::WorkingFile { .. }
        | Stage::FirstCheck { .. }
        | Stage::ParentDiff { .. }
        | Stage::EditsDiff { .. }
        | Stage::SecondCheck { .. }
        | Stage::Attaching { .. } => traits.may_edit,
        Stage::Showing { shown, total, .. } => 0 < shown <= total,
        Stage::Pausing { shown, total, .. } => 0 < shown < total,
        _ => true,
    }
}

/// The steps of loading a file are come to only where they are allowed: in particular the working
/// file is opened only for a file that may be edited.
pub proof fn steps_are_allowed(stage: Stage, traits: FileTraits, event: LoadEvent)
    requires
        is_allowed(stage, traits),
    ensures
        is_allowed(first_step(traits).0, traits),
        is_allowed(next_step(stage, traits, event).0, traits),
{
}

/// The working file is edited in place of a file of the past only directly after it was found to be
/// the same for the second time, and only if the file is the only one that is shown, is a text, was
/// not deleted, does not belong to a stash entry and has known parents.
pub proof fn editing_needs_a_matching_file(
    loader: LoaderView,
    event: LoadEvent,
    files: Seq<CommitFile>,
    scope: DiffScope,
)
    requires
        loader.wf(),
        loader.showing_full_file == scope.showing_full_file,
        loader.plans.len() == files.len(),
        forall|i: int|
            0 <= i < files.len() ==> plans_file(#[trigger] loader.plans[i], files[i], scope),
        loader.stepped(event).1 is Attach,
    ensures
        event == LoadEvent::Checked(true),
        loader.stage is SecondCheck,
        loader.index < files.len(),
        !files[loader.index].is_binary,
        files[loader.index].new_text is Some,
        !scope.is_stash,
        !scope.is_shallow_boundary,
        scope.showing_full_file,
{
    assert(plans_file(loader.plans[loader.index], files[loader.index], scope));
}

/// What was found out of a file is neither forgotten nor changed while others are loaded: a buffer
/// keeps its status, unless the same buffer is found again.
pub proof fn loading_forgets_nothing(loader: LoaderView, event: LoadEvent)
    ensures
        loader.statuses.dom().subset_of(loader.stepped(event).0.statuses.dom()),
        forall|id: u64| #[trigger]
            loader.statuses.contains_key(id) && event != LoadEvent::Identified(id)
                ==> loader.stepped(event).0.statuses[id] == loader.statuses[id],
        loader.binaries.subset_of(loader.stepped(event).0.binaries),
        loader.stepped(event).0.plans == loader.plans,
{
}

/// The caret goes to the first change of a file that is shown as a whole, as soon as something of it
/// is shown, and stays where it is when more is shown.
pub proof fn caret_goes_to_the_first_change(
    loader: LoaderView,
    event: LoadEvent,
    rows: Seq<u32>,
)
    requires
        is_allowed(loader.stage, loader.traits()),
        loader.stepped(event).1 is ShowExcerpts,
    ensures
        loader.stage is Measuring || loader.stage is Pausing,
        caret_after(loader.stepped(event).0, loader.stepped(event).1, rows) == if loader.stage
            is Measuring && loader.showing_full_file && rows.len() > 0 {
            Some(Point { row: rows.first(), column: 0 })
        } else {
            None
        },
{
}

/// How far a step is from the end of its file: first the steps that are left, then the excerpts
/// that are left.
pub open spec fn distance(stage: Stage) -> (nat, nat) {
    match stage {
        Stage::Images => (1, 0),
        Stage::Worktree => (12, 0),
        Stage::Buffer => (11, 0),
        Stage::Diff { .. } => (10, 0),
        Stage::WorkingFile { .. } => (9, 0),
        Stage::FirstCheck { .. } => (8, 0),
        Stage::ParentDiff { .. } => (7, 0),
        Stage::EditsDiff { .. } => (6, 0),
        Stage::SecondCheck { .. } => (5, 0),
        Stage::Attaching { .. } => (4, 0),
        Stage::Identity { .. } => (3, 0),
        Stage::Measuring { .. } => (2, 0),
        Stage::Showing { shown, total, .. } => (1, (2 * (total - shown) + 1) as nat),
        Stage::Pausing { shown, total, .. } => (1, (2 * (total - shown)) as nat),
        _ => (0, 0),
    }
}

/// Every event that is expected brings the loading of a file nearer to its end.
pub proof fn every_step_makes_progress(stage: Stage, traits: FileTraits, event: LoadEvent)
    requires
        is_allowed(stage, traits),
        is_file_stage(stage),
        !(stage is FileDone),
    ensures
        ({
            let (next, _) = next_step(stage, traits, event);
            ||| next == stage
            ||| distance(next).0 < distance(stage).0
            ||| distance(next).0 == distance(stage).0 && distance(next).1 < distance(stage).1
        }),
{
}

/// A file of which something is shown is done only when all of it is shown.
pub proof fn all_excerpts_are_shown(stage: Stage, traits: FileTraits, event: LoadEvent)
    requires
        is_allowed(stage, traits),
        stage is Showing || stage is Pausing,
        next_step(stage, traits, event).0 is FileDone,
    ensures
        stage matches Stage::Showing { shown, total, .. } && shown == total,
{
}

/// Excerpts are added to those that are shown, never more than a batch at once.
pub proof fn excerpts_come_in_batches(shown: usize, total: usize)
    requires
        shown < total,
    ensures
        shown < next_count(shown as int, total as int) <= total,
        next_count(shown as int, total as int) <= shown + EXCERPT_BATCH_SIZE,
{
}

/// How far loading has come after some events, and what is to be done then. `start` is where it
/// starts.
pub open spec fn after_events(
    start: (LoaderView, LoadAction),
    events: Seq<LoadEvent>,
) -> (LoaderView, LoadAction)
    decreases events.len(),
{
    if events.len() == 0 {
        start
    } else {
        after_events(start, events.drop_last()).0.stepped(events.last())
    }
}

/// What is to be done after the first `k` events.
pub open spec fn asked(
    start: (LoaderView, LoadAction),
    events: Seq<LoadEvent>,
    k: int,
) -> LoadAction {
    after_events(start, events.take(k)).1
}

/// Whether a file, or the end, starts with an action.
pub open spec fn starts_a_file(action: LoadAction) -> bool {
    action is LoadImages || action is FindWorktree || action is Finish
}

/// Whether two events tell of the same kind of work.
pub open spec fn same_kind(a: LoadEvent, b: LoadEvent) -> bool {
    match (a, b) {
        (LoadEvent::Worktree(_), LoadEvent::Worktree(_)) => true,
        (LoadEvent::Built(_), LoadEvent::Built(_)) => true,
        (LoadEvent::Opened(_), LoadEvent::Opened(_)) => true,
        (LoadEvent::Checked(_), LoadEvent::Checked(_)) => true,
        (LoadEvent::Identified(_), LoadEvent::Identified(_)) => true,
        (LoadEvent::Measured(_), LoadEvent::Measured(_)) => true,
        _ => a == b,
    }
}

/// Whether `action` was asked for after `i` events, for the file that is still being loaded, and
/// event `j` was the answer to it: the first one of its kind.
pub open spec fn answered_at(
    start: (LoaderView, LoadAction),
    events: Seq<LoadEvent>,
    action: LoadAction,
    answer: LoadEvent,
    i: int,
    j: int,
) -> bool {
    &&& 0 <= i <= j < events.len()
    &&& asked(start, events, i) == action
    &&& events[j] == answer
    &&& forall|k: int| i <= k < j ==> !same_kind(#[trigger] events[k], answer)
    &&& forall|k: int| i < k <= events.len() ==> !starts_a_file(#[trigger] asked(start, events, k))
}

/// Whether `action` was asked for, for the file that is still being loaded, and was answered so.
#[verifier::opaque]
pub open spec fn answered(
    start: (LoaderView, LoadAction),
    events: Seq<LoadEvent>,
    action: LoadAction,
    answer: LoadEvent,
) -> bool {
    exists|i: int, j: int| #[trigger] answered_at(start, events, action, answer, i, j)
}

/// Whether the working file was never to be edited in place of the file that is still being loaded.
#[verifier::opaque]
pub open spec fn unattached(start: (LoaderView, LoadAction), events: Seq<LoadEvent>) -> bool {
    exists|i: int| #[trigger] unattached_since(start, events, i)
}

/// Whether a file starts after `i` events, and no other one afterwards, and the working file was
/// never to be edited in its place.
pub open spec fn unattached_since(
    start: (LoaderView, LoadAction),
    events: Seq<LoadEvent>,
    i: int,
) -> bool {
    &&& 0 <= i <= events.len()
    &&& starts_a_file(asked(start, events, i))
    &&& forall|k: int|
        i < k <= events.len() ==> !starts_a_file(#[trigger] asked(start, events, k)) && !(asked(
            start,
            events,
            k,
        ) is Attach)
}

/// Whether a buffer was made of the file that is still being loaded, in the worktree that was found
/// for it.
pub open spec fn made_of_file(
    start: (LoaderView, LoadAction),
    events: Seq<LoadEvent>,
    buffer: u64,
) -> bool {
    exists|worktree: u64|
        {
            &&& #[trigger] answered(
                start,
                events,
                LoadAction::BuildBuffer { worktree },
                LoadEvent::Built(Some(buffer)),
            )
            &&& answered(
                start,
                events,
                LoadAction::FindWorktree,
                LoadEvent::Worktree(Some(worktree)),
            )
        }
}

/// Whether a file of a plan is no text.
pub open spec fn is_no_text(plan: FilePlan) -> bool {
    match plan {
        FilePlan::Text(plan) => plan.is_binary,
        FilePlan::Image(_) => true,
    }
}

/// Whether `diff` is what came out when the buffer was compared with the file before the commit, or,
/// where the file is no text, with itself.
pub open spec fn compared_with_parent(
    start: (LoaderView, LoadAction),
    events: Seq<LoadEvent>,
    buffer: u64,
    diff: u64,
) -> bool {
    let loader = after_events(start, events).0;
    let base = if is_no_text(loader.plans[loader.index]) {
        DiffBase::Unchanged
    } else {
        DiffBase::Parent
    };
    answered(start, events, LoadAction::BuildDiff { buffer, base }, LoadEvent::Built(Some(diff)))
}

/// Whether a buffer is the one to show: the working file, where it was let be edited with this
/// comparison, and otherwise the one that was made of the file.
pub open spec fn is_to_be_shown(
    start: (LoaderView, LoadAction),
    events: Seq<LoadEvent>,
    buffer: u64,
    diff: u64,
) -> bool {
    ||| made_of_file(start, events, buffer) && unattached(start, events)
    ||| exists|edits_diff: u64| #[trigger]
        answered(
            start,
            events,
            LoadAction::Attach { candidate: buffer, diff, edits_diff },
            LoadEvent::Attached,
        )
}

/// Whether `action` was asked for, for the file that is still being loaded, and has no answer yet.
#[verifier::opaque]
spec fn waiting(
    start: (LoaderView, LoadAction),
    events: Seq<LoadEvent>,
    action: LoadAction,
    kind: LoadEvent,
) -> bool {
    exists|i: int| #[trigger] waiting_since(start, events, action, kind, i)
}

spec fn waiting_since(
    start: (LoaderView, LoadAction),
    events: Seq<LoadEvent>,
    action: LoadAction,
    kind: LoadEvent,
    i: int,
) -> bool {
    &&& 0 <= i <= events.len()
    &&& asked(start, events, i) == action
    &&& forall|k: int| i <= k < events.len() ==> !same_kind(#[trigger] events[k], kind)
    &&& forall|k: int| i < k <= events.len() ==> !starts_a_file(#[trigger] asked(start, events, k))
}

/// What is known of the events from the step that loading has come to.
spec fn accounted_for(start: (LoaderView, LoadAction), events: Seq<LoadEvent>) -> bool {
    let loader = after_events(start, events).0;
    let base = if loader.traits().is_binary {
        DiffBase::Unchanged
    } else {
        DiffBase::Parent
    };
    let whole = loader.traits().is_binary || loader.traits().showing_full_file;
    let asks = |action: LoadAction, kind: LoadEvent| waiting(start, events, action, kind);
    let told = |action: LoadAction, answer: LoadEvent| answered(start, events, action, answer);
    let made = |buffer: u64, diff: u64|
        {
            &&& made_of_file(start, events, buffer)
            &&& unattached(start, events)
            &&& told(LoadAction::BuildDiff { buffer, base }, LoadEvent::Built(Some(diff)))
        };
    let shown = |buffer: u64, diff: u64|
        {
            &&& is_to_be_shown(start, events, buffer, diff)
            &&& told(LoadAction::BuildDiff { buffer, base }, LoadEvent::Built(Some(diff)))
        };
    let opened = |candidate: u64|
        {
            &&& !loader.traits().is_binary
            &&& told(LoadAction::OpenWorkingFile, LoadEvent::Opened(Some(candidate)))
        };
    let parent = |candidate: u64, diff: u64|
        told(
            LoadAction::BuildDiff { buffer: candidate, base: DiffBase::Parent },
            LoadEvent::Built(Some(diff)),
        );
    let edits = |candidate: u64, diff: u64|
        told(
            LoadAction::BuildDiff { buffer: candidate, base: DiffBase::Commit },
            LoadEvent::Built(Some(diff)),
        );
    let checked = |candidate: u64|
        told(LoadAction::CheckWorkingFile { candidate }, LoadEvent::Checked(true));
    &&& loader.plans == start.0.plans
    &&& loader.showing_full_file == start.0.showing_full_file
    &&& loader.index <= loader.plans.len()
    &&& 0 <= loader.index
    &&& is_file_stage(loader.stage) ==> loader.index < loader.plans.len()
    &&& loader.index < loader.plans.len() && loader.traits().may_edit
        ==> !loader.traits().is_binary
    &&& match loader.stage {
        Stage::Worktree => {
            &&& unattached(start, events)
            &&& asks(LoadAction::FindWorktree, LoadEvent::Worktree(None))
        },
        Stage::Buffer => exists|worktree: u64|
            {
                &&& unattached(start, events)
                &&& #[trigger] waiting(
                    start,
                    events,
                    LoadAction::BuildBuffer { worktree },
                    LoadEvent::Built(None),
                )
                &&& told(LoadAction::FindWorktree, LoadEvent::Worktree(Some(worktree)))
            },
        Stage::Diff { buffer } => {
            &&& made_of_file(start, events, buffer)
            &&& unattached(start, events)
            &&& asks(LoadAction::BuildDiff { buffer, base }, LoadEvent::Built(None))
        },
        Stage::WorkingFile { buffer, diff } => {
            &&& made(buffer, diff)
            &&& loader.traits().may_edit
            &&& asks(LoadAction::OpenWorkingFile, LoadEvent::Opened(None))
        },
        Stage::FirstCheck { buffer, diff, candidate } => {
            &&& made(buffer, diff)
            &&& opened(candidate)
            &&& asks(LoadAction::CheckWorkingFile { candidate }, LoadEvent::Checked(true))
        },
        Stage::ParentDiff { buffer, diff, candidate } => {
            &&& made(buffer, diff)
            &&& opened(candidate)
            &&& checked(candidate)
            &&& asks(
                LoadAction::BuildDiff { buffer: candidate, base: DiffBase::Parent },
                LoadEvent::Built(None),
            )
        },
        Stage::EditsDiff { buffer, diff, candidate, parent_diff } => {
            &&& made(buffer, diff)
            &&& opened(candidate)
            &&& checked(candidate)
            &&& parent(candidate, parent_diff)
            &&& asks(
                LoadAction::BuildDiff { buffer: candidate, base: DiffBase::Commit },
                LoadEvent::Built(None),
            )
        },
        Stage::SecondCheck { buffer, diff, candidate, parent_diff, edits_diff } => {
            &&& made(buffer, diff)
            &&& opened(candidate)
            &&& parent(candidate, parent_diff)
            &&& edits(candidate, edits_diff)
            &&& asks(LoadAction::CheckWorkingFile { candidate }, LoadEvent::Checked(true))
        },
        Stage::Attaching { candidate, parent_diff, edits_diff } => {
            &&& opened(candidate)
            &&& checked(candidate)
            &&& parent(candidate, parent_diff)
            &&& edits(candidate, edits_diff)
            &&& asks(
                LoadAction::Attach { candidate, diff: parent_diff, edits_diff },
                LoadEvent::Attached,
            )
        },
        Stage::Identity { buffer, diff } => {
            &&& shown(buffer, diff)
            &&& asks(LoadAction::Identify { buffer }, LoadEvent::Identified(0))
        },
        Stage::Measuring { buffer, diff } => {
            &&& shown(buffer, diff)
            &&& asks(LoadAction::Measure { buffer, diff, whole }, LoadEvent::Measured(0))
        },
        Stage::Showing { buffer, diff, shown: count, total } => {
            &&& shown(buffer, diff)
            &&& told(LoadAction::Measure { buffer, diff, whole }, LoadEvent::Measured(total))
            &&& count <= total
        },
        Stage::Pausing { buffer, diff, shown: count, total } => {
            &&& shown(buffer, diff)
            &&& told(LoadAction::Measure { buffer, diff, whole }, LoadEvent::Measured(total))
            &&& count <= total
        },
        _ => true,
    }
}

proof fn lemma_asked(
    start: (LoaderView, LoadAction),
    events: Seq<LoadEvent>,
    event: LoadEvent,
)
    ensures
        forall|k: int|
            0 <= k <= events.len() ==> #[trigger] asked(start, events.push(event), k) == asked(
                start,
                events,
                k,
            ),
        after_events(start, events.push(event)) == after_events(start, events).0.stepped(event),
        asked(start, events.push(event), (events.len() + 1) as int) == after_events(
            start,
            events.push(event),
        ).1,
        asked(start, events, events.len() as int) == after_events(start, events).1,
{
    let more = events.push(event);
    assert forall|k: int| 0 <= k <= events.len() implies #[trigger] asked(start, more, k) == asked(
        start,
        events,
        k,
    ) by {
        assert(more.take(k) =~= events.take(k));
    }
    assert(more.drop_last() =~= events);
    assert(more.take(more.len() as int) =~= more);
    assert(events.take(events.len() as int) =~= events);
}

/// What was answered stays answered, and what waits goes on waiting or is answered, as long as no
/// other file starts.
proof fn lemma_one_event_more(
    start: (LoaderView, LoadAction),
    events: Seq<LoadEvent>,
    event: LoadEvent,
)
    requires
        !starts_a_file(after_events(start, events.push(event)).1),
    ensures
        forall|action: LoadAction, answer: LoadEvent| #[trigger]
            answered(start, events, action, answer) ==> answered(
                start,
                events.push(event),
                action,
                answer,
            ),
        forall|action: LoadAction, kind: LoadEvent| #[trigger]
            waiting(start, events, action, kind) ==> {
                if same_kind(event, kind) {
                    answered(start, events.push(event), action, event)
                } else {
                    waiting(start, events.push(event), action, kind)
                }
            },
        forall|buffer: u64| #[trigger]
            made_of_file(start, events, buffer) ==> made_of_file(
                start,
                events.push(event),
                buffer,
            ),
        unattached(start, events) && !(after_events(start, events.push(event)).1 is Attach)
            ==> unattached(start, events.push(event)),
{
    reveal(answered);
    reveal(unattached);
    reveal(waiting);
    let more = events.push(event);
    lemma_asked(start, events, event);
    assert forall|action: LoadAction, answer: LoadEvent| #[trigger]
        answered(start, events, action, answer) implies answered(start, more, action, answer) by {
        let (i, j) = choose|i: int, j: int| #[trigger]
            answered_at(start, events, action, answer, i, j);
        lemma_still_answered(start, events, event, action, answer, i, j);
    }
    assert forall|action: LoadAction, kind: LoadEvent| #[trigger]
        waiting(start, events, action, kind) implies {
        if same_kind(event, kind) {
            answered(start, more, action, event)
        } else {
            waiting(start, more, action, kind)
        }
    } by {
        let i = choose|i: int| #[trigger] waiting_since(start, events, action, kind, i);
        assert forall|k: int| i < k <= more.len() implies !starts_a_file(
            #[trigger] asked(start, more, k),
        ) by {
            if k <= events.len() {
                assert(asked(start, more, k) == asked(start, events, k));
            }
        }
        assert(asked(start, more, i) == asked(start, events, i));
        if same_kind(event, kind) {
            let j = events.len() as int;
            assert forall|k: int| i <= k < j implies !same_kind(#[trigger] more[k], event) by {
                assert(more[k] == events[k]);
            }
            assert(answered_at(start, more, action, event, i, j));
        } else {
            assert forall|k: int| i <= k < more.len() implies !same_kind(
                #[trigger] more[k],
                kind,
            ) by {
                if k < events.len() {
                    assert(more[k] == events[k]);
                }
            }
            assert(waiting_since(start, more, action, kind, i));
        }
    }
    assert forall|buffer: u64| #[trigger] made_of_file(start, events, buffer) implies made_of_file(
        start,
        more,
        buffer,
    ) by {
        let worktree = choose|worktree: u64|
            {
                &&& #[trigger] answered(
                    start,
                    events,
                    LoadAction::BuildBuffer { worktree },
                    LoadEvent::Built(Some(buffer)),
                )
                &&& answered(
                    start,
                    events,
                    LoadAction::FindWorktree,
                    LoadEvent::Worktree(Some(worktree)),
                )
            };
        assert(answered(
            start,
            more,
            LoadAction::BuildBuffer { worktree },
            LoadEvent::Built(Some(buffer)),
        ));
    }
    if unattached(start, events) && !(after_events(start, more).1 is Attach) {
        let i = choose|i: int| #[trigger] unattached_since(start, events, i);
        assert forall|k: int| i < k <= more.len() implies !starts_a_file(
            #[trigger] asked(start, more, k),
        ) && !(asked(start, more, k) is Attach) by {
            if k <= events.len() {
                assert(asked(start, more, k) == asked(start, events, k));
            }
        }
        assert(asked(start, more, i) == asked(start, events, i));
        assert(unattached_since(start, more, i));
    }
}

proof fn lemma_still_answered(
    start: (LoaderView, LoadAction),
    events: Seq<LoadEvent>,
    event: LoadEvent,
    action: LoadAction,
    answer: LoadEvent,
    i: int,
    j: int,
)
    requires
        !starts_a_file(after_events(start, events.push(event)).1),
        answered_at(start, events, action, answer, i, j),
    ensures
        answered(start, events.push(event), action, answer),
{
    reveal(answered);
    let more = events.push(event);
    lemma_asked(start, events, event);
    assert forall|k: int| i < k <= more.len() implies !starts_a_file(
        #[trigger] asked(start, more, k),
    ) by {
        if k <= events.len() {
            assert(asked(start, more, k) == asked(start, events, k));
        }
    }
    assert(asked(start, more, i) == asked(start, events, i));
    assert forall|k: int| i <= k < j implies !same_kind(#[trigger] more[k], answer) by {
        assert(more[k] == events[k]);
    }
    assert(answered_at(start, more, action, answer, i, j));
}

/// What is to be done now waits for its answer.
proof fn lemma_waits(start: (LoaderView, LoadAction), events: Seq<LoadEvent>, kind: LoadEvent)
    ensures
        waiting(start, events, after_events(start, events).1, kind),
        starts_a_file(after_events(start, events).1) ==> unattached(start, events),
{
    reveal(unattached);
    reveal(waiting);
    let n = events.len() as int;
    assert(events.take(n) =~= events);
    assert(waiting_since(start, events, after_events(start, events).1, kind, n));
    if starts_a_file(after_events(start, events).1) {
        assert(unattached_since(start, events, n));
    }
}

proof fn lemma_shown_still(
    start: (LoaderView, LoadAction),
    events: Seq<LoadEvent>,
    event: LoadEvent,
    buffer: u64,
    diff: u64,
)
    requires
        !starts_a_file(after_events(start, events.push(event)).1),
        !(after_events(start, events.push(event)).1 is Attach),
        is_to_be_shown(start, events, buffer, diff),
    ensures
        is_to_be_shown(start, events.push(event), buffer, diff),
{
    lemma_one_event_more(start, events, event);
    if !(made_of_file(start, events, buffer) && unattached(start, events)) {
        let edits_diff = choose|edits_diff: u64| #[trigger]
            answered(
                start,
                events,
                LoadAction::Attach { candidate: buffer, diff, edits_diff },
                LoadEvent::Attached,
            );
        assert(answered(
            start,
            events.push(event),
            LoadAction::Attach { candidate: buffer, diff, edits_diff },
            LoadEvent::Attached,
        ));
    }
}

/// The plans of a run are those that it started with, and what may be edited is a text.
spec fn is_run(start: (LoaderView, LoadAction)) -> bool {
    &&& exists|loader: LoaderView|
        start == #[trigger] loader.entered() && 0 <= loader.index <= loader.plans.len()
    &&& forall|i: int|
        0 <= i < start.0.plans.len() ==> ((#[trigger] start.0.plans[i]) matches FilePlan::Text(plan)
            ==> !(plan.may_edit && plan.is_binary))
}

/// Whether a step comes before the buffer to show is known.
spec fn is_early(stage: Stage) -> bool {
    match stage {
        Stage::Images | Stage::Worktree | Stage::Buffer | Stage::Diff { .. } => true,
        _ => false,
    }
}

/// Whether a step comes after the buffer to show is known.
spec fn is_late(stage: Stage) -> bool {
    match stage {
        Stage::Identity { .. }
        | Stage::Measuring { .. }
        | Stage::Showing { .. }
        | Stage::Pausing { .. } => true,
        _ => false,
    }
}

proof fn lemma_file_starts(
    start: (LoaderView, LoadAction),
    events: Seq<LoadEvent>,
    event: LoadEvent,
)
    requires
        is_run(start),
        accounted_for(start, events),
        starts_a_file(after_events(start, events.push(event)).1),
    ensures
        accounted_for(start, events.push(event)),
{
    lemma_asked(start, events, event);
    lemma_waits(start, events.push(event), LoadEvent::Worktree(None));
    let (loader, action) = after_events(start, events.push(event));
    assert(loader.index < loader.plans.len() ==> loader.plans[loader.index]
        == start.0.plans[loader.index]);
}

#[verifier::rlimit(40)]
#[verifier::spinoff_prover]
proof fn lemma_early_steps(
    start: (LoaderView, LoadAction),
    events: Seq<LoadEvent>,
    event: LoadEvent,
)
    requires
        is_run(start),
        accounted_for(start, events),
        !starts_a_file(after_events(start, events.push(event)).1),
        is_early(after_events(start, events).0.stage),
    ensures
        accounted_for(start, events.push(event)),
{
    let more = events.push(event);
    lemma_asked(start, events, event);
    lemma_one_event_more(start, events, event);
    let before = after_events(start, events).0;
    lemma_waits(start, more, LoadEvent::Built(None));
    lemma_waits(start, more, LoadEvent::Opened(None));
    lemma_waits(start, more, LoadEvent::Identified(0));
    match before.stage {
        Stage::Buffer => {
            let worktree = choose|worktree: u64|
                {
                    &&& unattached(start, events)
                    &&& #[trigger] waiting(
                        start,
                        events,
                        LoadAction::BuildBuffer { worktree },
                        LoadEvent::Built(None),
                    )
                    &&& answered(
                        start,
                        events,
                        LoadAction::FindWorktree,
                        LoadEvent::Worktree(Some(worktree)),
                    )
                };
            if let LoadEvent::Built(Some(buffer)) = event {
                assert(answered(
                    start,
                    more,
                    LoadAction::BuildBuffer { worktree },
                    LoadEvent::Built(Some(buffer)),
                ));
                assert(made_of_file(start, more, buffer));
            }
        },
        Stage::Worktree => {
            if let LoadEvent::Worktree(Some(worktree)) = event {
                assert(waiting(
                    start,
                    more,
                    LoadAction::BuildBuffer { worktree },
                    LoadEvent::Built(None),
                ));
            }
        },
        _ => {},
    }
}

#[verifier::rlimit(40)]
#[verifier::spinoff_prover]
proof fn lemma_middle_steps(
    start: (LoaderView, LoadAction),
    events: Seq<LoadEvent>,
    event: LoadEvent,
)
    requires
        is_run(start),
        accounted_for(start, events),
        !starts_a_file(after_events(start, events.push(event)).1),
        !is_early(after_events(start, events).0.stage),
        !is_late(after_events(start, events).0.stage),
    ensures
        accounted_for(start, events.push(event)),
{
    let more = events.push(event);
    lemma_asked(start, events, event);
    lemma_one_event_more(start, events, event);
    let before = after_events(start, events).0;
    lemma_waits(start, more, LoadEvent::Built(None));
    lemma_waits(start, more, LoadEvent::Checked(true));
    lemma_waits(start, more, LoadEvent::Attached);
    lemma_waits(start, more, LoadEvent::Identified(0));
    if let Stage::Attaching { candidate, parent_diff, edits_diff } = before.stage {
        if event is Attached {
            assert(answered(
                start,
                more,
                LoadAction::Attach { candidate, diff: parent_diff, edits_diff },
                LoadEvent::Attached,
            ));
        }
    }
}

#[verifier::rlimit(40)]
#[verifier::spinoff_prover]
proof fn lemma_late_steps(
    start: (LoaderView, LoadAction),
    events: Seq<LoadEvent>,
    event: LoadEvent,
)
    requires
        is_run(start),
        accounted_for(start, events),
        !starts_a_file(after_events(start, events.push(event)).1),
        is_late(after_events(start, events).0.stage),
    ensures
        accounted_for(start, events.push(event)),
{
    let more = events.push(event);
    lemma_asked(start, events, event);
    lemma_one_event_more(start, events, event);
    let before = after_events(start, events).0;
    lemma_waits(start, more, LoadEvent::Measured(0));
    match before.stage {
        Stage::Identity { buffer, diff } => {
            lemma_shown_still(start, events, event, buffer, diff);
        },
        Stage::Measuring { buffer, diff } => {
            lemma_shown_still(start, events, event, buffer, diff);
        },
        Stage::Showing { buffer, diff, .. } => {
            lemma_shown_still(start, events, event, buffer, diff);
        },
        Stage::Pausing { buffer, diff, .. } => {
            lemma_shown_still(start, events, event, buffer, diff);
        },
        _ => {},
    }
}

proof fn lemma_accounted_for(start: (LoaderView, LoadAction), events: Seq<LoadEvent>)
    requires
        is_run(start),
    ensures
        accounted_for(start, events),
    decreases events.len(),
{
    if events.len() == 0 {
        lemma_waits(start, events, LoadEvent::Worktree(None));
        let loader = start.0;
        assert(loader.index < loader.plans.len() ==> loader.plans[loader.index]
            == start.0.plans[loader.index]);
    } else {
        let front = events.drop_last();
        let event = events.last();
        lemma_accounted_for(start, front);
        assert(front.push(event) =~= events);
        let stage = after_events(start, front).0.stage;
        if starts_a_file(after_events(start, events).1) {
            lemma_file_starts(start, front, event);
        } else if is_early(stage) {
            lemma_early_steps(start, front, event);
        } else if is_late(stage) {
            lemma_late_steps(start, front, event);
        } else {
            lemma_middle_steps(start, front, event);
        }
    }
}

/// A buffer is measured and shown with the comparison that was made of it with the file before the
/// commit, or, where the file is no text, with itself, and never with one that was made with the file
/// at the commit. It is the working file, where that is edited in place of the file, and otherwise
/// the one that was made of the file. All of a file is measured where it is no text or where the
/// whole file is shown.
pub proof fn files_are_shown_as_the_commit_changed_them(
    loader: LoaderView,
    files: Seq<CommitFile>,
    scope: DiffScope,
    events: Seq<LoadEvent>,
)
    requires
        0 <= loader.index <= loader.plans.len(),
        loader.plans.len() == files.len(),
        forall|i: int|
            0 <= i < files.len() ==> plans_file(#[trigger] loader.plans[i], files[i], scope),
    ensures
        ({
            let start = loader.entered();
            let (now, action) = after_events(start, events);
            match action {
                LoadAction::Measure { buffer, diff, whole } => {
                    &&& 0 <= now.index < files.len()
                    &&& compared_with_parent(start, events, buffer, diff)
                    &&& is_to_be_shown(start, events, buffer, diff)
                    &&& whole == (files[now.index].is_binary || loader.showing_full_file)
                },
                LoadAction::ShowExcerpts { buffer, diff, count, .. } => {
                    &&& 0 <= now.index < files.len()
                    &&& compared_with_parent(start, events, buffer, diff)
                    &&& is_to_be_shown(start, events, buffer, diff)
                    &&& exists|whole: bool, total: usize| #[trigger]
                        answered(
                            start,
                            events,
                            LoadAction::Measure { buffer, diff, whole },
                            LoadEvent::Measured(total),
                        ) && count <= total
                },
                _ => true,
            }
        }),
{
    let start = loader.entered();
    assert forall|i: int| 0 <= i < start.0.plans.len() implies ((
    #[trigger] start.0.plans[i]) matches FilePlan::Text(plan) ==> !(plan.may_edit
        && plan.is_binary)) by {
        assert(plans_file(loader.plans[i], files[i], scope));
    }
    lemma_accounted_for(start, events);
    let (now, action) = after_events(start, events);
    if events.len() > 0 && (action is Measure || action is ShowExcerpts) {
        let front = events.drop_last();
        lemma_accounted_for(start, front);
        assert(plans_file(loader.plans[now.index], files[now.index], scope));
    }
}

/// The working file is edited in place of a file only with the comparisons that were made of it: one
/// with the file before the commit, to be shown, and one with the file at the commit, for what was
/// edited since.
pub proof fn edited_files_are_compared_with_both_revisions(
    loader: LoaderView,
    files: Seq<CommitFile>,
    scope: DiffScope,
    events: Seq<LoadEvent>,
)
    requires
        0 <= loader.index <= loader.plans.len(),
        loader.plans.len() == files.len(),
        forall|i: int|
            0 <= i < files.len() ==> plans_file(#[trigger] loader.plans[i], files[i], scope),
    ensures
        ({
            let start = loader.entered();
            match after_events(start, events).1 {
                LoadAction::Attach { candidate, diff, edits_diff } => {
                    &&& events.len() > 0 && events.last() == LoadEvent::Checked(true)
                    &&& answered(
                        start,
                        events,
                        LoadAction::OpenWorkingFile,
                        LoadEvent::Opened(Some(candidate)),
                    )
                    &&& answered(
                        start,
                        events,
                        LoadAction::BuildDiff { buffer: candidate, base: DiffBase::Parent },
                        LoadEvent::Built(Some(diff)),
                    )
                    &&& answered(
                        start,
                        events,
                        LoadAction::BuildDiff { buffer: candidate, base: DiffBase::Commit },
                        LoadEvent::Built(Some(edits_diff)),
                    )
                    &&& answered(
                        start,
                        events,
                        LoadAction::CheckWorkingFile { candidate },
                        LoadEvent::Checked(true),
                    )
                },
                _ => true,
            }
        }),
{
    let start = loader.entered();
    assert forall|i: int| 0 <= i < start.0.plans.len() implies ((
    #[trigger] start.0.plans[i]) matches FilePlan::Text(plan) ==> !(plan.may_edit
        && plan.is_binary)) by {
        assert(plans_file(loader.plans[i], files[i], scope));
    }
    lemma_accounted_for(start, events);
    if events.len() > 0 {
        lemma_accounted_for(start, events.drop_last());
    }
}

/// A text is loaded step by step: a buffer is made of it in the worktree that was found, compared,
/// identified and measured, and then shown from the top. Where the working file may not be edited in
/// its place, it is not even looked for.
pub proof fn texts_are_loaded_step_by_step(
    loader: LoaderView,
    plan: TextPlan,
    worktree: u64,
    buffer: u64,
    diff: u64,
    id: u64,
    total: usize,
)
    requires
        0 <= loader.index < loader.plans.len(),
        loader.plans[loader.index] == FilePlan::Text(plan),
        !plan.may_edit,
        total > 0,
    ensures
        ({
            let (l0, a0) = loader.entered();
            let (l1, a1) = l0.stepped(LoadEvent::Worktree(Some(worktree)));
            let (l2, a2) = l1.stepped(LoadEvent::Built(Some(buffer)));
            let (l3, a3) = l2.stepped(LoadEvent::Built(Some(diff)));
            let (l4, a4) = l3.stepped(LoadEvent::Identified(id));
            let (l5, a5) = l4.stepped(LoadEvent::Measured(total));
            let base = if plan.is_binary {
                DiffBase::Unchanged
            } else {
                DiffBase::Parent
            };
            let whole = plan.is_binary || loader.showing_full_file;
            let count: usize = if total < 10 {
                total
            } else {
                10
            };
            &&& a0 == LoadAction::FindWorktree
            &&& a1 == LoadAction::BuildBuffer { worktree }
            &&& a2 == LoadAction::BuildDiff { buffer, base }
            &&& a3 == LoadAction::Identify { buffer }
            &&& a4 == LoadAction::Measure { buffer, diff, whole }
            &&& a5 == LoadAction::ShowExcerpts { buffer, diff, count, first: true }
            &&& l5.statuses == loader.statuses.insert(id, plan.status)
            &&& l5.binaries == if plan.is_binary {
                loader.binaries.insert(id)
            } else {
                loader.binaries
            }
            &&& l5.index == loader.index
        }),
{
}

/// A working file that is found to be the same both times is edited in place of a text, and shown
/// compared with the file before the commit.
pub proof fn matching_working_files_are_shown(
    loader: LoaderView,
    plan: TextPlan,
    worktree: u64,
    buffer: u64,
    diff: u64,
    candidate: u64,
    parent_diff: u64,
    edits_diff: u64,
    id: u64,
    total: usize,
)
    requires
        0 <= loader.index < loader.plans.len(),
        loader.plans[loader.index] == FilePlan::Text(plan),
        plan.may_edit,
        !plan.is_binary,
        loader.showing_full_file,
        total > 0,
    ensures
        ({
            let (l0, a0) = loader.entered();
            let (l1, a1) = l0.stepped(LoadEvent::Worktree(Some(worktree)));
            let (l2, a2) = l1.stepped(LoadEvent::Built(Some(buffer)));
            let (l3, a3) = l2.stepped(LoadEvent::Built(Some(diff)));
            let (l4, a4) = l3.stepped(LoadEvent::Opened(Some(candidate)));
            let (l5, a5) = l4.stepped(LoadEvent::Checked(true));
            let (l6, a6) = l5.stepped(LoadEvent::Built(Some(parent_diff)));
            let (l7, a7) = l6.stepped(LoadEvent::Built(Some(edits_diff)));
            let (l8, a8) = l7.stepped(LoadEvent::Checked(true));
            let (l9, a9) = l8.stepped(LoadEvent::Attached);
            let (l10, a10) = l9.stepped(LoadEvent::Identified(id));
            let (l11, a11) = l10.stepped(LoadEvent::Measured(total));
            let count: usize = if total < 10 {
                total
            } else {
                10
            };
            &&& a0 == LoadAction::FindWorktree
            &&& a1 == LoadAction::BuildBuffer { worktree }
            &&& a2 == LoadAction::BuildDiff { buffer, base: DiffBase::Parent }
            &&& a3 == LoadAction::OpenWorkingFile
            &&& a4 == LoadAction::CheckWorkingFile { candidate }
            &&& a5 == LoadAction::BuildDiff { buffer: candidate, base: DiffBase::Parent }
            &&& a6 == LoadAction::BuildDiff { buffer: candidate, base: DiffBase::Commit }
            &&& a7 == LoadAction::CheckWorkingFile { candidate }
            &&& a8 == LoadAction::Attach { candidate, diff: parent_diff, edits_diff }
            &&& a9 == LoadAction::Identify { buffer: candidate }
            &&& a10 == LoadAction::Measure { buffer: candidate, diff: parent_diff, whole: true }
            &&& a11 == LoadAction::ShowExcerpts {
                buffer: candidate,
                diff: parent_diff,
                count,
                first: true,
            }
            &&& l11.statuses == loader.statuses.insert(id, plan.status)
        }),
{
}

/// Where the working file is not there, or differs before or after it was compared, the text of the
/// commit is shown as if there were none.
pub proof fn other_working_files_are_left_alone(
    loader: LoaderView,
    plan: TextPlan,
    worktree: u64,
    buffer: u64,
    diff: u64,
    candidate: u64,
    parent_diff: u64,
    edits_diff: u64,
    id: u64,
)
    requires
        0 <= loader.index < loader.plans.len(),
        loader.plans[loader.index] == FilePlan::Text(plan),
        plan.may_edit,
    ensures
        ({
            let l0 = loader.entered().0;
            let l1 = l0.stepped(LoadEvent::Worktree(Some(worktree))).0;
            let l2 = l1.stepped(LoadEvent::Built(Some(buffer))).0;
            let l3 = l2.stepped(LoadEvent::Built(Some(diff))).0;
            let l4 = l3.stepped(LoadEvent::Opened(Some(candidate))).0;
            let l5 = l4.stepped(LoadEvent::Checked(true)).0;
            let l6 = l5.stepped(LoadEvent::Built(Some(parent_diff))).0;
            let l7 = l6.stepped(LoadEvent::Built(Some(edits_diff))).0;
            let missing = l3.stepped(LoadEvent::Opened(None));
            let different = l4.stepped(LoadEvent::Checked(false));
            let changed = l7.stepped(LoadEvent::Checked(false));
            let measure = LoadAction::Measure {
                buffer,
                diff,
                whole: plan.is_binary || loader.showing_full_file,
            };
            &&& missing.1 == LoadAction::Identify { buffer }
            &&& different.1 == LoadAction::Identify { buffer }
            &&& changed.1 == LoadAction::Identify { buffer }
            &&& missing.0.stepped(LoadEvent::Identified(id)).1 == measure
            &&& different.0.stepped(LoadEvent::Identified(id)).1 == measure
            &&& changed.0.stepped(LoadEvent::Identified(id)).1 == measure
        }),
{
}

/// The parts of a buffer are shown in batches, with a pause between two, until all are shown. Then
/// the next file is loaded, or the end comes.
pub proof fn all_parts_are_shown_in_turn(
    loader: LoaderView,
    buffer: u64,
    diff: u64,
    shown: usize,
    total: usize,
)
    requires
        loader.stage == (Stage::Showing { buffer, diff, shown, total }),
        0 < shown <= total,
    ensures
        ({
            let (l1, a1) = loader.stepped(LoadEvent::Shown);
            let (l2, a2) = l1.stepped(LoadEvent::Resumed);
            let left = total - shown;
            &&& left > 0 ==> a1 == LoadAction::Yield && (a2 matches LoadAction::ShowExcerpts {
                buffer: b,
                diff: d,
                count,
                first,
            } && b == buffer && d == diff && !first && count == if left <= 10 {
                total as int
            } else {
                shown + 10
            }) && l2.index == loader.index
            &&& left == 0 ==> (l1, a1) == (LoaderView { index: loader.index + 1, ..loader }).entered()
        }),
{
}

/// The files are loaded one after the other, images by their own way, and behind the last one comes
/// the end. The files that are no text are folded where there are some and several are shown.
pub proof fn every_file_has_its_turn(loader: LoaderView)
    requires
        0 <= loader.index <= loader.plans.len(),
        loader.binaries.finite(),
    ensures
        ({
            let (entered, action) = loader.entered();
            &&& loader.index < loader.plans.len() ==> action == match loader.plans[loader.index] {
                FilePlan::Image(_) => LoadAction::LoadImages,
                FilePlan::Text(_) => LoadAction::FindWorktree,
            }
            &&& loader.index < loader.plans.len() && loader.plans[loader.index] is Image
                ==> entered.stepped(LoadEvent::ImagesLoaded) == (LoaderView {
                index: loader.index + 1,
                ..entered
            }).entered()
            &&& loader.index == loader.plans.len() ==> {
                &&& action matches LoadAction::Finish { fold_binaries } && fold_binaries == (
                !loader.showing_full_file && exists|id: u64| #[trigger] loader.binaries.contains(id))
                &&& entered.stepped(LoadEvent::Finished).1 == LoadAction::Stop
            }
            &&& entered.index == loader.index
            &&& entered.statuses == loader.statuses
            &&& entered.binaries == loader.binaries
        }),
{
    if loader.binaries.len() > 0 {
        assert(loader.binaries.contains(loader.binaries.choose()));
    } else if exists|id: u64| #[trigger] loader.binaries.contains(id) {
        let id = choose|id: u64| #[trigger] loader.binaries.contains(id);
        vstd::set_lib::lemma_set_empty_equivalency_len(loader.binaries);
    }
}

/// Work that cannot be done ends the loading with its reason, a view that is closed ends it at any
/// time, and nothing happens after the end.
pub proof fn failures_end_the_loading(loader: LoaderView, event: LoadEvent)
    ensures
        loader.stage is Worktree && event == LoadEvent::Worktree(None) ==> loader.stepped(event).1
            == LoadAction::Fail(DiffFailure::NoWorktree),
        loader.stage is Buffer && event == LoadEvent::Built(None) ==> loader.stepped(event).1
            == LoadAction::Fail(DiffFailure::Buffer),
        (loader.stage is Diff || loader.stage is ParentDiff || loader.stage is EditsDiff) && event
            == LoadEvent::Built(None) ==> loader.stepped(event).1 == LoadAction::Fail(
            DiffFailure::Diff,
        ),
        !(loader.stage is Done || loader.stage is Failed) && event is ViewClosed
            ==> loader.stepped(event).1 == LoadAction::Fail(DiffFailure::ViewClosed),
        loader.stepped(event).1 is Fail ==> loader.stepped(event).0.stage is Failed,
        loader.stepped(event).1 is Stop ==> loader.stepped(event).0.stage is Done,
        loader.stage is Done || loader.stage is Failed ==> loader.stepped(event) == (
            loader,
            LoadAction::Wait,
        ),
{
    if loader.stage is Done || loader.stage is Failed {
        assert(loader.stepped(event).0 =~= loader);
    }
}

/// A text of a commit is shown as it was before and after the commit, with how it changed. Instead of
/// what is no text a note is shown, with nothing to compare it with.
pub proof fn plans_show_both_revisions(plan: FilePlan, file: CommitFile, scope: DiffScope)
    requires
        plans_file(plan, file, scope),
    ensures
        !file.is_binary ==> (plan matches FilePlan::Text(text) && {
            &&& text.old_text == file.old_text
            &&& file.new_text is Some ==> text.new_text@ == file.new_text->0@
            &&& file.new_text is None ==> text.new_text@.len() == 0
            &&& !text.is_binary
        }),
        plan matches FilePlan::Text(text) ==> {
            &&& text.path == file.path
            &&& text.is_binary == file.is_binary
            &&& file.old_text is None ==> text.status is Added
            &&& file.old_text is Some && file.new_text is None ==> text.status is Deleted
            &&& file.old_text is Some && file.new_text is Some ==> text.status is Modified
            &&& text.is_deleted == (file.new_text is None)
            &&& file.is_binary ==> text.new_text@ == "(binary file not shown)"@ && text.old_text
                is None
            &&& text.may_edit ==> scope.showing_full_file && !scope.is_stash
                && !scope.is_shallow_boundary && !file.is_binary && file.new_text is Some
            &&& scope.showing_full_file && !scope.is_stash && !scope.is_shallow_boundary
                && !file.is_binary && file.new_text is Some ==> text.may_edit
        },
        plan matches FilePlan::Image(image) ==> {
            &&& scope.showing_full_file
            &&& file.is_binary
            &&& has_image_extension(file.path.unix@)
            &&& image.old_bytes == file.old_binary
            &&& image.new_bytes == file.new_binary
            &&& image.old_present == (file.old_text is Some)
            &&& image.new_present == (file.new_text is Some)
        },
        scope.showing_full_file && file.is_binary && has_image_extension(file.path.unix@)
            ==> plan is Image,
{
}

/// The extension of an image is one of these, in capital or small letters, behind the last dot.
pub proof fn images_are_told_by_their_extension(stem: Seq<char>, extension: Seq<char>)
    requires
        !extension.contains('.'),
    ensures
        has_image_extension(stem.push('.') + extension) <==> {
            let lower = text::ascii_lowercase(extension);
            ||| lower == "png"@
            ||| lower == "jpg"@
            ||| lower == "jpeg"@
            ||| lower == "gif"@
            ||| lower == "webp"@
            ||| lower == "bmp"@
            ||| lower == "tif"@
            ||| lower == "tiff"@
            ||| lower == "ico"@
            ||| lower == "pnm"@
            ||| lower == "ppm"@
            ||| lower == "pgm"@
            ||| lower == "pbm"@
        },
{
    text::last_part_stands_behind_the_last(stem, '.', extension);
    let all = image_extensions();
    let lower = text::ascii_lowercase(extension);
    assert(all[0] == "png"@ && all[1] == "jpg"@ && all[2] == "jpeg"@ && all[3] == "gif"@);
    assert(all[4] == "webp"@ && all[5] == "bmp"@ && all[6] == "tif"@ && all[7] == "tiff"@);
    assert(all[8] == "ico"@ && all[9] == "pnm"@ && all[10] == "ppm"@ && all[11] == "pgm"@);
    assert(all[12] == "pbm"@);
    if all.contains(lower) {
        let i = choose|i: int| 0 <= i < all.len() && all[i] == lower;
        assert(all[i] == lower);
    }
}

/// Nothing of a text is left out where the whole file is shown or nothing changed, and otherwise the
/// changes are shown, all of them and nothing else.
pub proof fn changes_are_shown_in_full(whole: bool, hunks: Seq<PointRange>, end: Point)
    ensures
        whole || hunks.len() == 0 ==> shown_ranges(whole, hunks, end).len() == 1
            && shown_ranges(whole, hunks, end)[0].start == (Point { row: 0, column: 0 })
            && shown_ranges(whole, hunks, end)[0].end == end,
        !whole && hunks.len() > 0 ==> shown_ranges(whole, hunks, end) == hunks,
{
}

/// What is known of the loading is all that it holds.
pub proof fn loaders_hide_nothing(loader: DiffLoader)
    ensures
        loader@.plans == loader.plans@,
        loader@.showing_full_file == loader.showing_full_file,
        loader@.index == loader.index,
        loader@.stage == loader.stage,
        loader@.statuses == loader.statuses@,
        loader@.binaries == loader.binaries@,
{
}

/// Whether an event tells how the work of a step ended.
pub open spec fn is_expected(stage: Stage, event: LoadEvent) -> bool {
    match event {
        LoadEvent::ImagesLoaded => stage is Images,
        LoadEvent::Worktree(_) => stage is Worktree,
        LoadEvent::Built(_) => stage is Buffer || stage is Diff || stage is ParentDiff || stage
            is EditsDiff,
        LoadEvent::Opened(_) => stage is WorkingFile,
        LoadEvent::Checked(_) => stage is FirstCheck || stage is SecondCheck,
        LoadEvent::Attached => stage is Attaching,
        LoadEvent::Identified(_) => stage is Identity,
        LoadEvent::Measured(_) => stage is Measuring,
        LoadEvent::Shown => stage is Showing,
        LoadEvent::Resumed => stage is Pausing,
        LoadEvent::Finished => stage is Finishing,
        LoadEvent::ViewClosed => !(stage is Done || stage is Failed),
    }
}

/// What was not expected changes nothing, and what was expected is followed by more work, or by the
/// end.
pub proof fn only_expected_events_count(loader: LoaderView, event: LoadEvent)
    requires
        loader.wf(),
    ensures
        !is_expected(loader.stage, event) ==> loader.stepped(event) == (loader, LoadAction::Wait),
        is_expected(loader.stage, event) ==> !(loader.stepped(event).1 is Wait),
{
    if !is_expected(loader.stage, event) {
        assert(loader.stepped(event).0 =~= loader);
    }
}

} // verus!
