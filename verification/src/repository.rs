//! What a repository tells of a commit.

use vstd::prelude::*;
use vstd::string::*;

use crate::document::ProjectPath;
use crate::text::{self, prefix, same_text};

verus! {

/// How many characters of the hash of a commit stand for it.
pub const SHORT_SHA_LENGTH: usize = 7;

/// A path in a repository: as it is written there, the last part of it if it has parts, and as it
/// is shown on this system.
#[derive(Debug)]
pub struct RepoPath {
    pub unix: String,
    pub file_name: Option<String>,
    pub display: String,
}

impl RepoPath {
    /// Whether two paths are the same.
    pub fn is_same(&self, other: &RepoPath) -> (r: bool)
        ensures
            r == (self.unix@ == other.unix@),
    {
        same_text(self.unix.as_str(), other.unix.as_str())
    }
}

/// Whether two paths say the same in all their parts.
pub open spec fn same_repo_path(a: RepoPath, b: RepoPath) -> bool {
    &&& a.unix@ == b.unix@
    &&& a.display@ == b.display@
    &&& match (a.file_name, b.file_name) {
        (Some(x), Some(y)) => x@ == y@,
        (None, None) => true,
        _ => false,
    }
}

impl Clone for RepoPath {
    fn clone(&self) -> (r: RepoPath)
        ensures
            same_repo_path(r, *self),
    {
        RepoPath {
            unix: self.unix.clone(),
            file_name: match &self.file_name {
                Some(name) => Some(name.clone()),
                None => None,
            },
            display: self.display.clone(),
        }
    }
}

/// The path that a filter names, if there is a filter.
pub open spec fn filter_path(filter: Option<RepoPath>) -> Option<Seq<char>> {
    match filter {
        Some(path) => Some(path.unix@),
        None => None,
    }
}

/// Whether two filters are the same in all their parts.
pub open spec fn equal_filters(a: Option<RepoPath>, b: Option<RepoPath>) -> bool {
    match (a, b) {
        (Some(a), Some(b)) => same_repo_path(a, b),
        (None, None) => true,
        _ => false,
    }
}

/// Whether two filters name the same file, or neither names one.
pub fn same_filter(a: &Option<RepoPath>, b: &Option<RepoPath>) -> (r: bool)
    ensures
        r == (filter_path(*a) == filter_path(*b)),
{
    match (a, b) {
        (Some(a), Some(b)) => a.is_same(b),
        (None, None) => true,
        _ => false,
    }
}

/// A copy of a filter.
pub fn copy_filter(filter: &Option<RepoPath>) -> (r: Option<RepoPath>)
    ensures
        equal_filters(r, *filter),
        filter_path(r) == filter_path(*filter),
{
    match filter {
        Some(path) => Some(path.clone()),
        None => None,
    }
}

/// A commit.
#[derive(Debug)]
pub struct CommitDetails {
    pub sha: String,
    pub message: String,
    pub commit_timestamp: i64,
    pub author_email: String,
    pub author_name: String,
}

/// Whether two commits are the same in all their parts.
pub open spec fn same_commit(a: CommitDetails, b: CommitDetails) -> bool {
    &&& a.sha@ == b.sha@
    &&& a.message@ == b.message@
    &&& a.commit_timestamp == b.commit_timestamp
    &&& a.author_email@ == b.author_email@
    &&& a.author_name@ == b.author_name@
}

impl Clone for CommitDetails {
    fn clone(&self) -> (r: CommitDetails)
        ensures
            same_commit(r, *self),
    {
        CommitDetails {
            sha: self.sha.clone(),
            message: self.message.clone(),
            commit_timestamp: self.commit_timestamp,
            author_email: self.author_email.clone(),
            author_name: self.author_name.clone(),
        }
    }
}

/// A file that a commit changed: its text before and after, where it was there, and its bytes where
/// it is no text.
#[derive(Debug)]
pub struct CommitFile {
    pub path: RepoPath,
    pub old_text: Option<String>,
    pub new_text: Option<String>,
    pub is_binary: bool,
    pub old_binary: Option<Vec<u8>>,
    pub new_binary: Option<Vec<u8>>,
}

/// What a commit changed.
#[derive(Debug)]
pub struct CommitDiff {
    pub files: Vec<CommitFile>,
    pub is_shallow_boundary: bool,
}

/// How a file changed.
#[derive(Clone, Copy, Debug, PartialEq, Eq, Structural)]
pub enum StatusCode {
    Added,
    Deleted,
    Modified,
}

/// Where the web pages of a repository are.
#[derive(Debug)]
pub struct GitRemote {
    pub provider: String,
    pub owner: String,
    pub repo: String,
}

/// Whether two remotes are the same in all their parts.
pub open spec fn same_remote(a: GitRemote, b: GitRemote) -> bool {
    &&& a.provider@ == b.provider@
    &&& a.owner@ == b.owner@
    &&& a.repo@ == b.repo@
}

impl Clone for GitRemote {
    fn clone(&self) -> (r: GitRemote)
        ensures
            same_remote(r, *self),
    {
        GitRemote {
            provider: self.provider.clone(),
            owner: self.owner.clone(),
            repo: self.repo.clone(),
        }
    }
}

/// The address of the remote whose pages are shown: that of the upstream, or else that of the
/// origin.
pub fn remote_url<'a>(upstream: Option<&'a str>, origin: Option<&'a str>) -> (r: Option<&'a str>)
    ensures
        r == if upstream is Some {
            upstream
        } else {
            origin
        },
{
    match upstream {
        Some(url) => Some(url),
        None => origin,
    }
}

/// What a file of the past has in place of a file on disk.
#[derive(Clone, Copy, Debug, PartialEq, Eq, Structural)]
pub enum DiskState {
    Historic { was_deleted: bool },
}

/// A file as it was at a commit.
#[derive(Debug)]
pub struct GitBlob {
    pub path: RepoPath,
    pub worktree_id: u64,
    pub is_deleted: bool,
    pub is_binary: bool,
    pub display_name: String,
}

/// The name under which a file of a commit is shown.
pub open spec fn blob_name(sha: Seq<char>, path: RepoPath) -> Seq<char> {
    text::byte_prefix(sha, SHORT_SHA_LENGTH as int) + " - "@ + match path.file_name {
        Some(name) => name@,
        None => path.display@,
    }
}

impl GitBlob {
    /// The file at `path` as it was at the commit `sha`.
    pub fn new(
        path: &RepoPath,
        sha: &str,
        worktree_id: u64,
        is_deleted: bool,
        is_binary: bool,
    ) -> (blob: GitBlob)
        ensures
            same_repo_path(blob.path, *path),
            blob.worktree_id == worktree_id,
            blob.is_deleted == is_deleted,
            blob.is_binary == is_binary,
            blob.display_name@ == blob_name(sha@, *path),
    {
        let mut display_name = prefix(sha, SHORT_SHA_LENGTH).to_owned();
        display_name.append(" - ");
        match &path.file_name {
            Some(name) => {
                display_name.append(name.as_str());
            },
            None => {
                display_name.append(path.display.as_str());
            },
        }
        GitBlob { path: path.clone(), worktree_id, is_deleted, is_binary, display_name }
    }

    /// The file is no file on disk.
    pub fn disk_state(&self) -> (r: DiskState)
        ensures
            r == (DiskState::Historic { was_deleted: self.is_deleted }),
    {
        DiskState::Historic { was_deleted: self.is_deleted }
    }

    /// The path of the file.
    pub fn path(&self) -> (r: &RepoPath)
        ensures
            *r == self.path,
    {
        &self.path
    }

    /// The name under which the file is shown.
    pub fn file_name(&self) -> (r: &str)
        ensures
            r@ == self.display_name@,
    {
        self.display_name.as_str()
    }

    /// The worktree that the file counts to.
    pub fn worktree_id(&self) -> (r: u64)
        ensures
            r == self.worktree_id,
    {
        self.worktree_id
    }

    /// Nothing of the past is private.
    pub fn is_private(&self) -> (r: bool)
        ensures
            !r,
    {
        false
    }

    /// Whether the file can be shown as text.
    pub fn can_open(&self) -> (r: bool)
        ensures
            r == !self.is_binary,
    {
        !self.is_binary
    }
}

/// The worktree that a file of a repository counts to: the one that it lies in, or else the one
/// that the repository lies in, or else the first one of the project.
pub fn worktree_id_for_repo_path(
    of_path: Option<u64>,
    of_repository: Option<u64>,
    first: Option<u64>,
) -> (r: Option<u64>)
    ensures
        r == if of_path is Some {
            of_path
        } else if of_repository is Some {
            of_repository
        } else {
            first
        },
{
    if of_path.is_some() {
        of_path
    } else if of_repository.is_some() {
        of_repository
    } else {
        first
    }
}

/// The file in the project that stands for a file of a commit: the one that the repository names,
/// or else the one with the same path in the worktree of the blob.
pub fn file_at_head(in_project: Option<ProjectPath>, blob: &GitBlob) -> (r: ProjectPath)
    ensures
        match in_project {
            Some(path) => r == path,
            None => r.worktree_id == blob.worktree_id && r.path@ == blob.path.unix@,
        },
{
    match in_project {
        Some(path) => path,
        None => ProjectPath { worktree_id: blob.worktree_id, path: blob.path.unix.clone() },
    }
}

/// Whether the stash entry at an index is the commit with a hash. `entries` are the hashes of the
/// stash entries, in their order.
pub fn stash_matches_index(sha: &str, stash_index: usize, entries: &Vec<String>) -> (r: bool)
    ensures
        r == (stash_index < entries@.len() && entries@[stash_index as int]@ == sha@),
{
    stash_index < entries.len() && same_text(entries[stash_index].as_str(), sha)
}

/// A path that is copied is the same in the repository, on this system and in its last part.
pub proof fn paths_are_copied_in_full(a: RepoPath, b: RepoPath)
    ensures
        same_repo_path(a, b) <==> a.unix@ == b.unix@ && a.display@ == b.display@ && (a.file_name
            is Some <==> b.file_name is Some) && (a.file_name is Some ==> a.file_name->0@
            == b.file_name->0@),
        equal_filters(Some(a), Some(b)) <==> same_repo_path(a, b),
        !equal_filters(Some(a), None),
        !equal_filters(None, Some(b)),
        equal_filters(None, None),
        filter_path(Some(a)) == Some(a.unix@),
        filter_path(None) is None,
{
}

/// A commit that is copied is the same in all its parts.
pub proof fn commits_are_copied_in_full(a: CommitDetails, b: CommitDetails)
    requires
        same_commit(a, b),
    ensures
        a.sha@ == b.sha@,
        a.message@ == b.message@,
        a.commit_timestamp == b.commit_timestamp,
        a.author_email@ == b.author_email@,
        a.author_name@ == b.author_name@,
{
}

/// A remote that is copied is the same in all its parts.
pub proof fn remotes_are_copied_in_full(a: GitRemote, b: GitRemote)
    requires
        same_remote(a, b),
    ensures
        a.provider@ == b.provider@,
        a.owner@ == b.owner@,
        a.repo@ == b.repo@,
{
}

/// A file of a commit is called by the first seven characters of the commit's hash and its own name,
/// or its path where it has no name.
pub proof fn blobs_are_called_by_commit_and_name(sha: Seq<char>, path: RepoPath)
    requires
        vstd::utf8::is_ascii_chars(sha),
        sha.len() >= 7,
    ensures
        path.file_name matches Some(name) ==> blob_name(sha, path) == sha.take(7) + " - "@ + name@,
        path.file_name is None ==> blob_name(sha, path) == sha.take(7) + " - "@ + path.display@,
{
    text::ascii_prefix_is_take(sha, 7);
}

} // verus!
