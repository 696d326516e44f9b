//! Opening a commit in a pane of the workspace.

use vstd::prelude::*;
use vstd::string::*;

use crate::repository::{self, same_filter, CommitDetails, CommitDiff, CommitFile, RepoPath};
use crate::text::same_text;

verus! {

/// What is asked for when a commit is opened.
#[derive(Debug)]
pub struct OpenRequest {
    pub commit_sha: String,
    pub stash: Option<usize>,
    pub file_filter: Option<RepoPath>,
    /// Whether the files are shown as added where the parents of the commit are missing.
    pub ignore_shallow_boundary: bool,
    /// Whether the commit is shown in a tab that the next one takes over.
    pub preview: bool,
}

/// The answer of a repository.
#[derive(Debug)]
pub enum Reply<T> {
    Cancelled,
    Failed(String),
    Ready(T),
}

/// The error of an answer, if it is one. A cancelled request is answered with `cancelled`.
pub open spec fn reply_error<T>(reply: Reply<T>, cancelled: Seq<char>) -> Option<Seq<char>> {
    match reply {
        Reply::Cancelled => Some(cancelled),
        Reply::Failed(message) => Some(message@),
        Reply::Ready(_) => None,
    }
}

/// Puts the answers of a repository together. The error of the first one goes before that of the
/// second one.
pub fn loaded_commit(diff: Reply<CommitDiff>, details: Reply<CommitDetails>) -> (r: Result<
    (CommitDiff, CommitDetails),
    String,
>)
    ensures
        match r {
            Ok((d, c)) => diff == Reply::Ready(d) && details == Reply::Ready(c),
            Err(message) => Some(message@) == repository_error(
                reply_error(diff, "Commit diff request was cancelled"@),
                reply_error(details, "Commit details request was cancelled"@),
            ),
        },
        r is Ok <==> diff is Ready && details is Ready,
{
    let diff = match diff {
        Reply::Cancelled => {
            return Err("Commit diff request was cancelled".to_owned());
        },
        Reply::Failed(message) => {
            return Err(message);
        },
        Reply::Ready(diff) => diff,
    };
    match details {
        Reply::Cancelled => Err("Commit details request was cancelled".to_owned()),
        Reply::Failed(message) => Err(message),
        Reply::Ready(details) => Ok((diff, details)),
    }
}

/// The first of two errors that is there.
pub open spec fn repository_error(
    first: Option<Seq<char>>,
    second: Option<Seq<char>>,
) -> Option<Seq<char>> {
    if first is Some {
        first
    } else {
        second
    }
}

/// The test for a file with a path.
pub open spec fn has_path(path: Seq<char>) -> spec_fn(CommitFile) -> bool {
    |file: CommitFile| file.path.unix@ == path
}

/// The files with the path that a filter names, or all of them without a filter.
pub open spec fn filtered(files: Seq<CommitFile>, filter: Option<RepoPath>) -> Seq<CommitFile> {
    match filter {
        Some(path) => files.filter(has_path(path.unix@)),
        None => files,
    }
}

/// Keeps the files that a filter names.
pub fn filter_files(files: Vec<CommitFile>, filter: &Option<RepoPath>) -> (r: Vec<CommitFile>)
    ensures
        r@ == filtered(files@, *filter),
{
    let path = match filter {
        Some(path) => path,
        None => {
            return files;
        },
    };
    let ghost before = files@;
    let ghost wanted = has_path(path.unix@);
    let mut files = files;
    let mut index: usize = 0;
    let ghost mut seen: int = 0;
    proof {
        reveal(Seq::filter);
        assert(before.take(0) =~= Seq::empty());
    }
    while index < files.len()
        invariant
            0 <= seen <= before.len(),
            index <= files@.len(),
            wanted == has_path(path.unix@),
            files@ == before.take(seen).filter(wanted) + before.skip(seen),
            index == before.take(seen).filter(wanted).len(),
        decreases before.len() - seen,
    {
        let ghost kept = before.take(seen).filter(wanted);
        proof {
            reveal(Seq::filter);
            assert(before.skip(seen)[0] == files@[index as int]);
            assert(before.take(seen + 1).drop_last() =~= before.take(seen));
            assert(before.take(seen + 1).last() == before[seen]);
        }
        if files[index].path.is_same(path) {
            index += 1;
            proof {
                assert(files@ =~= kept.push(before[seen]) + before.skip(seen + 1));
            }
        } else {
            let _ = files.remove(index);
            proof {
                assert(files@ =~= kept + before.skip(seen + 1));
            }
        }
        proof {
            seen = seen + 1;
        }
    }
    proof {
        assert(before.skip(seen).len() == 0);
        assert(before.take(seen) =~= before);
        assert(files@ =~= before.filter(wanted));
    }
    files
}

/// What becomes of a request to open a commit.
#[derive(Debug)]
pub enum OpenOutcome {
    /// Nothing, since the repository is gone.
    Abandoned,
    /// The user is told why the commit cannot be shown.
    Refused(String),
    /// The commit is shown.
    Ready { diff: CommitDiff, details: CommitDetails },
}

/// Decides what becomes of a request to open a commit, from the answers of the repository, if it
/// could be asked. `repository_open` tells whether the repository is still there afterwards.
pub fn open_outcome(
    request: &OpenRequest,
    diff: Option<Reply<CommitDiff>>,
    details: Option<Reply<CommitDetails>>,
    repository_open: bool,
) -> (r: OpenOutcome)
    ensures
        r is Abandoned <==> diff is None || details is None || (diff->0 is Ready && details->0
            is Ready && !repository_open),
        match r {
            OpenOutcome::Abandoned => true,
            OpenOutcome::Refused(message) => Some(message@) == repository_error(
                reply_error(diff->0, "Commit diff request was cancelled"@),
                reply_error(details->0, "Commit details request was cancelled"@),
            ),
            OpenOutcome::Ready { diff: shown, details: commit } => {
                &&& diff->0 is Ready
                &&& details->0 == Reply::Ready(commit)
                &&& shown.is_shallow_boundary == diff->0->Ready_0.is_shallow_boundary
                &&& shown.files@ == filtered(diff->0->Ready_0.files@, request.file_filter)
            },
        },
        r is Refused <==> diff is Some && details is Some && !(diff->0 is Ready && details->0
            is Ready),
{
    let (diff, details) = match (diff, details) {
        (Some(diff), Some(details)) => (diff, details),
        _ => {
            return OpenOutcome::Abandoned;
        },
    };
    match loaded_commit(diff, details) {
        Err(message) => OpenOutcome::Refused(message),
        Ok((diff, details)) => {
            if !repository_open {
                return OpenOutcome::Abandoned;
            }
            let files = filter_files(diff.files, &request.file_filter);
            OpenOutcome::Ready {
                diff: CommitDiff { files, is_shallow_boundary: diff.is_shallow_boundary },
                details,
            }
        },
    }
}

/// What tells one commit view from another.
#[derive(Debug)]
pub struct CommitIdentity {
    pub sha: String,
    pub repository: u64,
    pub stash: Option<usize>,
    pub file_filter: Option<RepoPath>,
    pub is_shallow_boundary: bool,
}

/// What a commit view shows, without whether the parents of the commit are missing.
#[verifier::ext_equal]
pub struct ShownCommit {
    pub sha: Seq<char>,
    pub repository: u64,
    pub stash: Option<usize>,
    pub file: Option<Seq<char>>,
}

impl CommitIdentity {
    /// What the view shows.
    pub open spec fn shown(self) -> ShownCommit {
        ShownCommit {
            sha: self.sha@,
            repository: self.repository,
            stash: self.stash,
            file: repository::filter_path(self.file_filter),
        }
    }

    /// Whether two views show the same.
    pub fn shows_same(&self, other: &CommitIdentity) -> (r: bool)
        ensures
            r == (self.shown() == other.shown()),
    {
        let same_stash = match (self.stash, other.stash) {
            (Some(a), Some(b)) => a == b,
            (None, None) => true,
            _ => false,
        };
        let r = same_text(self.sha.as_str(), other.sha.as_str()) && self.repository
            == other.repository && same_stash && same_filter(&self.file_filter, &other.file_filter);
        proof {
            if r {
                assert(self.shown() =~= other.shown());
            }
        }
        r
    }
}

/// What is done with a pane when a commit is opened in it.
#[derive(Clone, Copy, Debug, PartialEq, Eq, Structural)]
pub enum PanePlan {
    /// The view is there already. It is brought to the front, and kept where it was a preview.
    Activate { index: usize, unpreview: bool, focus: bool },
    /// The view is added. One that shows the same, but not up to date, is removed before. The
    /// preview, if there is one, makes room if `replace_preview`.
    Add { remove: Option<usize>, replace_preview: bool, focus: bool },
}

/// The place of the first view in a pane that shows the same. Items that are no commit views are
/// `None`.
pub open spec fn place_in_pane(items: Seq<Option<CommitIdentity>>, shown: ShownCommit) -> Option<
    int,
>
    decreases items.len(),
{
    if items.len() == 0 {
        None
    } else if items.first() is Some && items.first()->0.shown() == shown {
        Some(0)
    } else {
        match place_in_pane(items.drop_first(), shown) {
            Some(i) => Some(i + 1),
            None => None,
        }
    }
}

/// What is done with a pane that has these items.
pub open spec fn pane_plan(
    items: Seq<Option<CommitIdentity>>,
    new: CommitIdentity,
    preview: bool,
    preview_tabs: bool,
) -> PanePlan {
    match place_in_pane(items, new.shown()) {
        Some(i) if items[i]->0.is_shallow_boundary == new.is_shallow_boundary => {
            PanePlan::Activate { index: i as usize, unpreview: !preview, focus: !preview }
        },
        Some(i) => PanePlan::Add {
            remove: Some(i as usize),
            replace_preview: preview && preview_tabs,
            focus: !preview,
        },
        None => PanePlan::Add {
            remove: None,
            replace_preview: preview && preview_tabs,
            focus: !preview,
        },
    }
}

/// Decides what is done with a pane when a commit is opened in it. `preview_tabs` tells whether
/// previews are wanted at all.
pub fn plan_in_pane(
    items: &Vec<Option<CommitIdentity>>,
    new: &CommitIdentity,
    preview: bool,
    preview_tabs: bool,
) -> (plan: PanePlan)
    ensures
        plan == pane_plan(items@, *new, preview, preview_tabs),
{
    let ghost wanted = place_in_pane(items@, new.shown());
    let mut i: usize = 0;
    proof {
        assert(items@.skip(0) =~= items@);
    }
    while i < items.len()
        invariant
            i <= items@.len(),
            wanted == place_in_pane(items@, new.shown()),
            wanted == match place_in_pane(items@.skip(i as int), new.shown()) {
                Some(k) => Some(k + i),
                None => None,
            },
        decreases items@.len() - i,
    {
        proof {
            assert(items@.skip(i as int).first() == items@[i as int]);
            assert(items@.skip(i as int).drop_first() =~= items@.skip(i + 1));
        }
        if let Some(existing) = &items[i] {
            if existing.shows_same(new) {
                return if existing.is_shallow_boundary == new.is_shallow_boundary {
                    PanePlan::Activate { index: i, unpreview: !preview, focus: !preview }
                } else {
                    PanePlan::Add {
                        remove: Some(i),
                        replace_preview: preview && preview_tabs,
                        focus: !preview,
                    }
                };
            }
        }
        i += 1;
    }
    PanePlan::Add { remove: None, replace_preview: preview && preview_tabs, focus: !preview }
}

/// No two views of a pane show the same.
pub open spec fn shown_once(items: Seq<Option<CommitIdentity>>) -> bool {
    forall|i: int, j: int|
        0 <= i < j < items.len() && (#[trigger] items[i]) is Some && (#[trigger] items[j]) is Some
            ==> items[i]->0.shown() != items[j]->0.shown()
}

/// The items of a pane after a plan was carried out. `preview` is the place of the preview, if there
/// is one, among the items that are left when the one that is not up to date is removed, and `place`
/// is where the new view goes.
pub open spec fn carried_out(
    items: Seq<Option<CommitIdentity>>,
    new: CommitIdentity,
    plan: PanePlan,
    preview: Option<int>,
    place: int,
) -> Seq<Option<CommitIdentity>> {
    match plan {
        PanePlan::Activate { .. } => items,
        PanePlan::Add { remove, replace_preview, .. } => {
            let left = match remove {
                Some(i) => items.remove(i as int),
                None => items,
            };
            let room = if replace_preview && preview is Some {
                left.remove(preview->0)
            } else {
                left
            };
            room.insert(place, Some(new))
        },
    }
}

/// Whether the places with which a plan is carried out are places of the pane.
pub open spec fn fitting_places(
    items: Seq<Option<CommitIdentity>>,
    new: CommitIdentity,
    plan: PanePlan,
    preview: Option<int>,
    place: int,
) -> bool {
    plan matches PanePlan::Add { remove, replace_preview, .. } ==> {
        let left = items.len() - if remove is Some {
            1int
        } else {
            0int
        };
        &&& preview is Some ==> 0 <= preview->0 < left
        &&& 0 <= place <= left - if replace_preview && preview is Some {
            1int
        } else {
            0int
        }
    }
}

/// No view of a pane shows this.
pub open spec fn not_shown(items: Seq<Option<CommitIdentity>>, shown: ShownCommit) -> bool {
    forall|i: int|
        0 <= i < items.len() && (#[trigger] items[i]) is Some ==> items[i]->0.shown() != shown
}

proof fn lemma_place_in_pane(items: Seq<Option<CommitIdentity>>, shown: ShownCommit)
    ensures
        match place_in_pane(items, shown) {
            Some(i) => 0 <= i < items.len() && items[i] is Some && items[i]->0.shown() == shown,
            None => not_shown(items, shown),
        },
    decreases items.len(),
{
    if items.len() > 0 {
        let rest = items.drop_first();
        lemma_place_in_pane(rest, shown);
        if place_in_pane(items, shown) is None {
            assert forall|i: int|
                0 <= i < items.len() && (#[trigger] items[i]) is Some implies items[i]->0.shown()
                != shown by {
                if i > 0 {
                    assert(rest[i - 1] == items[i]);
                }
            }
        }
    }
}

proof fn lemma_remove(items: Seq<Option<CommitIdentity>>, place: int)
    requires
        0 <= place < items.len(),
    ensures
        shown_once(items) ==> shown_once(items.remove(place)),
        forall|shown: ShownCommit|
            not_shown(items, shown) ==> #[trigger] not_shown(items.remove(place), shown),
        shown_once(items) && items[place] is Some ==> not_shown(
            items.remove(place),
            items[place]->0.shown(),
        ),
{
    let rest = items.remove(place);
    assert forall|i: int| 0 <= i < rest.len() implies #[trigger] rest[i] == items[if i < place {
        i
    } else {
        i + 1
    }] by {}
    if shown_once(items) {
        assert forall|i: int, j: int|
            0 <= i < j < rest.len() && (#[trigger] rest[i]) is Some && (#[trigger] rest[j]) is Some
            implies rest[i]->0.shown() != rest[j]->0.shown() by {
            let a = if i < place {
                i
            } else {
                i + 1
            };
            let b = if j < place {
                j
            } else {
                j + 1
            };
            assert(rest[i] == items[a] && rest[j] == items[b]);
        }
        if items[place] is Some {
            assert forall|i: int| 0 <= i < rest.len() && (#[trigger] rest[i]) is Some implies rest[
                i
            ]->0.shown() != items[place]->0.shown() by {
                let a = if i < place {
                    i
                } else {
                    i + 1
                };
                assert(rest[i] == items[a]);
                if a < place {
                    assert(items[a]->0.shown() != items[place]->0.shown());
                } else {
                    assert(items[place]->0.shown() != items[a]->0.shown());
                }
            }
        }
    }
    assert forall|shown: ShownCommit| not_shown(items, shown) implies #[trigger] not_shown(
        rest,
        shown,
    ) by {
        assert forall|i: int| 0 <= i < rest.len() && (#[trigger] rest[i]) is Some implies rest[
            i
        ]->0.shown() != shown by {
            let a = if i < place {
                i
            } else {
                i + 1
            };
            assert(rest[i] == items[a]);
        }
    }
}

proof fn lemma_insert(items: Seq<Option<CommitIdentity>>, place: int, new: CommitIdentity)
    requires
        0 <= place <= items.len(),
        shown_once(items),
        not_shown(items, new.shown()),
    ensures
        shown_once(items.insert(place, Some(new))),
{
    let more = items.insert(place, Some(new));
    assert forall|i: int, j: int|
        0 <= i < j < more.len() && (#[trigger] more[i]) is Some && (#[trigger] more[j]) is Some
        implies more[i]->0.shown() != more[j]->0.shown() by {
        if i == place {
            assert(more[j] == items[j - 1]);
        } else {
            let a = if i < place {
                i
            } else {
                i - 1
            };
            assert(more[i] == items[a]);
            if j != place {
                let b = if j < place {
                    j
                } else {
                    j - 1
                };
                assert(more[j] == items[b]);
            }
        }
    }
}

/// However often a commit is opened in a pane, no two views show the same.
pub proof fn opening_shows_nothing_twice(
    items: Seq<Option<CommitIdentity>>,
    new: CommitIdentity,
    preview: bool,
    preview_tabs: bool,
    preview_place: Option<int>,
    place: int,
)
    requires
        shown_once(items),
        items.len() <= usize::MAX,
        fitting_places(
            items,
            new,
            pane_plan(items, new, preview, preview_tabs),
            preview_place,
            place,
        ),
    ensures
        shown_once(
            carried_out(
                items,
                new,
                pane_plan(items, new, preview, preview_tabs),
                preview_place,
                place,
            ),
        ),
{
    lemma_place_in_pane(items, new.shown());
    if let PanePlan::Add { remove, replace_preview, .. } = pane_plan(
        items,
        new,
        preview,
        preview_tabs,
    ) {
        let left = match remove {
            Some(i) => items.remove(i as int),
            None => items,
        };
        if let Some(i) = remove {
            lemma_remove(items, i as int);
        }
        assert(shown_once(left) && not_shown(left, new.shown()));
        if replace_preview && preview_place is Some {
            lemma_remove(left, preview_place->0);
            lemma_insert(left.remove(preview_place->0), place, new);
        } else {
            lemma_insert(left, place, new);
        }
    }
}

/// A commit that is opened a second time is found in the pane, and nothing is added.
pub proof fn opened_commit_is_found_again(
    items: Seq<Option<CommitIdentity>>,
    new: CommitIdentity,
    preview: bool,
    again: bool,
    preview_tabs: bool,
    preview_place: Option<int>,
    place: int,
)
    requires
        shown_once(items),
        items.len() < usize::MAX,
        fitting_places(
            items,
            new,
            pane_plan(items, new, preview, preview_tabs),
            preview_place,
            place,
        ),
    ensures
        pane_plan(
            carried_out(
                items,
                new,
                pane_plan(items, new, preview, preview_tabs),
                preview_place,
                place,
            ),
            new,
            again,
            preview_tabs,
        ) is Activate,
{
    opening_shows_nothing_twice(items, new, preview, preview_tabs, preview_place, place);
    lemma_place_in_pane(items, new.shown());
    let plan = pane_plan(items, new, preview, preview_tabs);
    let after = carried_out(items, new, plan, preview_place, place);
    lemma_place_in_pane(after, new.shown());
    if plan is Add {
        assert(after[place] == Some(new));
        let found = place_in_pane(after, new.shown())->0;
        if found < place {
            assert(after[found]->0.shown() != after[place]->0.shown());
        } else if found > place {
            assert(after[place]->0.shown() != after[found]->0.shown());
        }
    }
}

/// Whether a view shows this commit, of this repository, this stash entry and this file.
pub open spec fn is_view_of(item: Option<CommitIdentity>, new: CommitIdentity) -> bool {
    item matches Some(view) && {
        &&& view.sha@ == new.sha@
        &&& view.repository == new.repository
        &&& view.stash == new.stash
        &&& view.file_filter is Some <==> new.file_filter is Some
        &&& view.file_filter is Some ==> view.file_filter->0.unix@ == new.file_filter->0.unix@
    }
}

proof fn lemma_first_place(items: Seq<Option<CommitIdentity>>, shown: ShownCommit)
    ensures
        place_in_pane(items, shown) matches Some(place) ==> 0 <= place < items.len() && forall|i: int|
            0 <= i < place && (#[trigger] items[i]) is Some ==> items[i]->0.shown() != shown,
    decreases items.len(),
{
    if items.len() > 0 {
        let rest = items.drop_first();
        lemma_first_place(rest, shown);
        if let Some(place) = place_in_pane(items, shown) {
            assert forall|i: int| 0 <= i < place && (#[trigger] items[i]) is Some implies items[
                i
            ]->0.shown() != shown by {
                if i > 0 {
                    assert(rest[i - 1] == items[i]);
                }
            }
        }
    }
}

/// A commit that a pane shows already is brought to the front, if the view is up to date, and is
/// otherwise replaced: the first view of the same commit, repository, stash entry and file. A commit
/// that no view shows is added. Only what is no preview takes the focus and is kept, and a preview
/// takes the place of another one where previews are wanted.
pub proof fn panes_bring_back_what_they_show(
    items: Seq<Option<CommitIdentity>>,
    new: CommitIdentity,
    preview: bool,
    preview_tabs: bool,
)
    requires
        items.len() <= usize::MAX,
    ensures
        match pane_plan(items, new, preview, preview_tabs) {
            PanePlan::Activate { index, unpreview, focus } => {
                &&& index < items.len()
                &&& is_view_of(items[index as int], new)
                &&& items[index as int]->0.is_shallow_boundary == new.is_shallow_boundary
                &&& forall|i: int| 0 <= i < index ==> !is_view_of(#[trigger] items[i], new)
                &&& unpreview == !preview
                &&& focus == !preview
            },
            PanePlan::Add { remove, replace_preview, focus } => {
                &&& remove matches Some(index) ==> {
                    &&& index < items.len()
                    &&& is_view_of(items[index as int], new)
                    &&& items[index as int]->0.is_shallow_boundary != new.is_shallow_boundary
                    &&& forall|i: int| 0 <= i < index ==> !is_view_of(#[trigger] items[i], new)
                }
                &&& remove is None ==> forall|i: int|
                    0 <= i < items.len() ==> !is_view_of(#[trigger] items[i], new)
                &&& replace_preview == (preview && preview_tabs)
                &&& focus == !preview
            },
        },
{
    lemma_place_in_pane(items, new.shown());
    lemma_first_place(items, new.shown());
    assert forall|i: int| 0 <= i < items.len() implies is_view_of(#[trigger] items[i], new) == (
    items[i] is Some && items[i]->0.shown() == new.shown()) by {
        if is_view_of(items[i], new) {
            assert(items[i]->0.shown() =~= new.shown());
        }
    }
}

/// A filter keeps the files with its path, all of them and no others, in their order. Without a filter
/// all files are kept.
pub proof fn filters_keep_the_files_they_name(
    files: Seq<CommitFile>,
    filter: Option<RepoPath>,
)
    ensures
        filter is None ==> filtered(files, filter) == files,
        filter matches Some(path) ==> {
            &&& forall|i: int|
                0 <= i < filtered(files, filter).len() ==> (#[trigger] filtered(
                    files,
                    filter,
                )[i]).path.unix@ == path.unix@
            &&& forall|i: int|
                0 <= i < files.len() && (#[trigger] files[i]).path.unix@ == path.unix@ ==> filtered(
                    files,
                    filter,
                ).contains(files[i])
            &&& (forall|i: int|
                0 <= i < files.len() ==> (#[trigger] files[i]).path.unix@ == path.unix@)
                ==> filtered(files, filter) == files
            &&& filtered(files, filter).len() <= files.len()
        },
    decreases files.len(),
{
    if let Some(path) = filter {
        reveal(Seq::filter);
        if files.len() > 0 {
            let front = files.drop_last();
            let last = files.last();
            filters_keep_the_files_they_name(front, filter);
            let kept = filtered(front, filter);
            let all = filtered(files, filter);
            assert(files =~= front.push(last));
            assert forall|i: int| 0 <= i < all.len() implies (#[trigger] all[i]).path.unix@
                == path.unix@ by {
                if i < kept.len() {
                    assert(all[i] == kept[i]);
                }
            }
            assert forall|i: int|
                0 <= i < files.len() && (#[trigger] files[i]).path.unix@
                    == path.unix@ implies all.contains(files[i]) by {
                if i < front.len() {
                    assert(front[i] == files[i]);
                    let k = choose|k: int| 0 <= k < kept.len() && kept[k] == front[i];
                    assert(all[k] == files[i]);
                } else {
                    assert(all[kept.len() as int] == files[i]);
                }
            }
            if forall|i: int|
                0 <= i < files.len() ==> (#[trigger] files[i]).path.unix@ == path.unix@ {
                assert forall|i: int| 0 <= i < front.len() implies (
                #[trigger] front[i]).path.unix@ == path.unix@ by {
                    assert(front[i] == files[i]);
                }
                assert(files[files.len() - 1] == last);
            }
        } else {
            assert(filtered(files, filter) =~= files);
        }
    }
}

/// The first thing that went wrong with a request is told, and a request that was cancelled is told
/// as such.
pub proof fn first_error_is_told<T, U>(
    first: Reply<T>,
    second: Reply<U>,
    first_cancelled: Seq<char>,
    second_cancelled: Seq<char>,
)
    ensures
        ({
            let error = repository_error(
                reply_error(first, first_cancelled),
                reply_error(second, second_cancelled),
            );
            &&& first is Cancelled ==> error == Some(first_cancelled)
            &&& first matches Reply::Failed(message) ==> error == Some(message@)
            &&& first is Ready && second is Cancelled ==> error == Some(second_cancelled)
            &&& first is Ready ==> (second matches Reply::Failed(message) ==> error == Some(
                message@,
            ))
            &&& first is Ready && second is Ready ==> error is None
        }),
{
}

} // verus!
