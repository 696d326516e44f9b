//! The tool bar of a commit view.

use vstd::prelude::*;
use vstd::string::*;

use crate::commit_view::CommitView;
use crate::repository::GitRemote;

verus! {

/// Where a tool bar item is shown.
#[derive(Clone, Copy, Debug, PartialEq, Eq, Structural)]
pub enum ToolbarItemLocation {
    Hidden,
    PrimaryRight,
}

/// The button that leads to the web page of a commit.
#[derive(Debug)]
pub struct PageButton {
    pub tooltip: String,
    pub url: String,
}

/// What the tool bar shows.
#[derive(Debug)]
pub struct ToolbarContent {
    /// How many lines were added and removed, where there are any.
    pub diff_stat: Option<(u32, u32)>,
    pub can_open_working_file: bool,
    pub working_file_tooltip: &'static str,
    /// The commit that is shown in the graph of commits, where it is part of it.
    pub graph_commit: Option<String>,
    pub page: Option<PageButton>,
}

/// The tool bar of commit views. The view is known by a number.
#[derive(Debug)]
pub struct CommitViewToolbar {
    pub commit_view: Option<u64>,
}

impl CommitViewToolbar {
    /// A tool bar without a view.
    pub fn new() -> (r: CommitViewToolbar)
        ensures
            r.commit_view is None,
    {
        CommitViewToolbar { commit_view: None }
    }

    /// Takes note of the item that is active, which is a commit view or is none.
    pub fn set_active_pane_item(&mut self, commit_view: Option<u64>) -> (r: ToolbarItemLocation)
        ensures
            final(self).commit_view == commit_view,
            r == if commit_view is Some {
                ToolbarItemLocation::PrimaryRight
            } else {
                ToolbarItemLocation::Hidden
            },
    {
        self.commit_view = commit_view;
        if commit_view.is_some() {
            ToolbarItemLocation::PrimaryRight
        } else {
            ToolbarItemLocation::Hidden
        }
    }

    /// What the tool bar shows, while its view is there. `page_of` gives the address of the page
    /// that a site has of a commit.
    pub fn render<F: Fn(&GitRemote, &String) -> String>(
        &self,
        view: Option<&CommitView>,
        can_open_working_file: bool,
        changed_lines: (u32, u32),
        page_of: F,
    ) -> (r: Option<ToolbarContent>)
        requires
            forall|remote: &GitRemote, sha: &String| #[trigger]
                call_requires(page_of, (remote, sha)),
        ensures
            r is Some <==> self.commit_view is Some && view is Some,
            r is Some ==> {
                let content = r->0;
                let view = view->0;
                &&& content.diff_stat == if changed_lines.0 > 0 || changed_lines.1 > 0 {
                    Some(changed_lines)
                } else {
                    None
                }
                &&& content.can_open_working_file == can_open_working_file
                &&& content.working_file_tooltip@ == if can_open_working_file {
                    "Open the current file in the project"@
                } else {
                    "This file is not present in the working tree"@
                }
                &&& content.graph_commit is Some <==> view.stash is None
                &&& content.graph_commit is Some ==> content.graph_commit->0@ == view.commit.sha@
                &&& content.page is Some <==> view.stash is None && view.remote is Some
                &&& content.page is Some ==> {
                    &&& content.page->0.tooltip@ == "View on "@ + view.remote->0.provider@
                    &&& call_ensures(
                        page_of,
                        (&view.remote->0, &view.commit.sha),
                        content.page->0.url,
                    )
                }
            },
    {
        let view = match (self.commit_view, view) {
            (Some(_), Some(view)) => view,
            _ => {
                return None;
            },
        };
        let (additions, deletions) = changed_lines;
        let diff_stat = if additions > 0 || deletions > 0 {
            Some((additions, deletions))
        } else {
            None
        };
        let working_file_tooltip = if can_open_working_file {
            "Open the current file in the project"
        } else {
            "This file is not present in the working tree"
        };
        let graph_commit = if view.stash.is_none() {
            Some(view.commit.sha.clone())
        } else {
            None
        };
        let page = if view.stash.is_none() {
            match &view.remote {
                Some(remote) => {
                    let mut tooltip = "View on ".to_owned();
                    tooltip.append(remote.provider.as_str());
                    Some(PageButton { tooltip, url: page_of(remote, &view.commit.sha) })
                },
                None => None,
            }
        } else {
            None
        };
        Some(
            ToolbarContent {
                diff_stat,
                can_open_working_file,
                working_file_tooltip,
                graph_commit,
                page,
            },
        )
    }
}

} // verus!
