//! Applying, popping and dropping the stash entry that a commit view shows.

use vstd::prelude::*;
use vstd::string::*;

use crate::text::{self, push_decimal};

verus! {

/// What is done with a stash entry.
#[derive(Clone, Copy, Debug, PartialEq, Eq, Structural)]
pub enum StashAction {
    Apply,
    Pop,
    Drop,
}

impl StashAction {
    /// The name of the action.
    pub open spec fn text(self) -> Seq<char> {
        match self {
            StashAction::Apply => "Apply"@,
            StashAction::Pop => "Pop"@,
            StashAction::Drop => "Drop"@,
        }
    }

    /// The name of the action.
    pub fn name(self) -> (r: &'static str)
        ensures
            r@ == self.text(),
    {
        match self {
            StashAction::Apply => "Apply",
            StashAction::Pop => "Pop",
            StashAction::Drop => "Drop",
        }
    }

    /// The message for an entry that is no longer the one that is shown.
    pub open spec fn changed_text(self) -> Seq<char> {
        match self {
            StashAction::Apply => "Stash has changed, not applying"@,
            StashAction::Pop => "Stash has changed, pop aborted"@,
            StashAction::Drop => "Stash has changed, drop aborted"@,
        }
    }

    /// The message for an entry that is no longer the one that is shown.
    pub fn changed_message(self) -> (r: &'static str)
        ensures
            r@ == self.changed_text(),
    {
        match self {
            StashAction::Apply => "Stash has changed, not applying",
            StashAction::Pop => "Stash has changed, pop aborted",
            StashAction::Drop => "Stash has changed, drop aborted",
        }
    }

    /// The question whether the action is to be done with a stash entry.
    pub fn prompt(self, stash: usize) -> (r: String)
        ensures
            r@ == self.text() + " stash@{"@ + text::decimal(stash as nat) + "}?"@,
    {
        let mut prompt = self.name().to_owned();
        prompt.append(" stash@{");
        push_decimal(&mut prompt, stash as u64);
        prompt.append("}?");
        prompt
    }

    /// The answers to the question. The first one agrees.
    pub fn answers(self) -> (r: (&'static str, &'static str))
        ensures
            r.0@ == self.text(),
            r.1@ == "Cancel"@,
    {
        (self.name(), "Cancel")
    }
}

/// How far the action has come.
#[derive(Clone, Copy, Debug, PartialEq, Eq, Structural)]
pub enum StashStage {
    /// The user was asked.
    Asked,
    /// The repository is looked for.
    Finding,
    /// The entry is compared with the one that is shown.
    Comparing,
    /// The action is being done.
    Running,
    /// The view is being closed. If the entry has changed, that is reported afterwards.
    Closing { changed: bool },
    Done,
}

/// What is to be done next.
#[derive(Clone, Copy, Debug, PartialEq, Eq, Structural)]
pub enum StashStep {
    /// Find the repository that is active in the workspace.
    FindRepository,
    /// Compare the entry with the one that is shown.
    Compare,
    /// Do the action.
    Run,
    /// Close the view, without saving.
    CloseView,
    /// Nothing more.
    Stop,
    /// Report that the entry has changed.
    ReportChanged,
    /// Report what went wrong.
    ReportFailure,
    /// Nothing, since nothing was expected to happen.
    Wait,
}

/// What happened.
#[derive(Clone, Copy, Debug, PartialEq, Eq, Structural)]
pub enum StashEvent {
    /// The user chose an answer, or none.
    Answered(Option<usize>),
    /// Whether the workspace is there and has an active repository.
    Found(bool),
    /// Whether the entry is the one that is shown.
    Compared(bool),
    /// Whether the action succeeded.
    Ran(bool),
    /// Whether the view could be closed.
    Closed(bool),
}

/// How the action goes on after something happened.
pub open spec fn stash_step(stage: StashStage, event: StashEvent) -> (StashStage, StashStep) {
    match (stage, event) {
        (StashStage::Asked, StashEvent::Answered(answer)) => {
            if answer == Some(0usize) {
                (StashStage::Finding, StashStep::FindRepository)
            } else {
                (StashStage::Done, StashStep::Stop)
            }
        },
        (StashStage::Finding, StashEvent::Found(found)) => {
            if found {
                (StashStage::Comparing, StashStep::Compare)
            } else {
                (StashStage::Done, StashStep::Stop)
            }
        },
        (StashStage::Comparing, StashEvent::Compared(same)) => {
            if same {
                (StashStage::Running, StashStep::Run)
            } else {
                (StashStage::Closing { changed: true }, StashStep::CloseView)
            }
        },
        (StashStage::Running, StashEvent::Ran(succeeded)) => {
            if succeeded {
                (StashStage::Closing { changed: false }, StashStep::CloseView)
            } else {
                (StashStage::Done, StashStep::ReportFailure)
            }
        },
        (StashStage::Closing { changed }, StashEvent::Closed(closed)) => {
            if !closed {
                (StashStage::Done, StashStep::ReportFailure)
            } else if changed {
                (StashStage::Done, StashStep::ReportChanged)
            } else {
                (StashStage::Done, StashStep::Stop)
            }
        },
        _ => (stage, StashStep::Wait),
    }
}

/// Goes on with the action after something happened.
pub fn step(stage: StashStage, event: StashEvent) -> (r: (StashStage, StashStep))
    ensures
        r == stash_step(stage, event),
{
    match (stage, event) {
        (StashStage::Asked, StashEvent::Answered(Some(0))) => {
            (StashStage::Finding, StashStep::FindRepository)
        },
        (StashStage::Asked, StashEvent::Answered(_)) => (StashStage::Done, StashStep::Stop),
        (StashStage::Finding, StashEvent::Found(true)) => {
            (StashStage::Comparing, StashStep::Compare)
        },
        (StashStage::Finding, StashEvent::Found(false)) => (StashStage::Done, StashStep::Stop),
        (StashStage::Comparing, StashEvent::Compared(true)) => {
            (StashStage::Running, StashStep::Run)
        },
        (StashStage::Comparing, StashEvent::Compared(false)) => {
            (StashStage::Closing { changed: true }, StashStep::CloseView)
        },
        (StashStage::Running, StashEvent::Ran(true)) => {
            (StashStage::Closing { changed: false }, StashStep::CloseView)
        },
        (StashStage::Running, StashEvent::Ran(false)) => {
            (StashStage::Done, StashStep::ReportFailure)
        },
        (StashStage::Closing { .. }, StashEvent::Closed(false)) => {
            (StashStage::Done, StashStep::ReportFailure)
        },
        (StashStage::Closing { changed: true }, StashEvent::Closed(true)) => {
            (StashStage::Done, StashStep::ReportChanged)
        },
        (StashStage::Closing { changed: false }, StashEvent::Closed(true)) => {
            (StashStage::Done, StashStep::Stop)
        },
        _ => (stage, StashStep::Wait),
    }
}

/// Nothing is done with an entry that is not the one that is shown: the action is done only
/// directly after the two were found to be the same.
pub proof fn only_the_shown_entry_is_touched(stage: StashStage, event: StashEvent)
    requires
        stash_step(stage, event).1 == StashStep::Run,
    ensures
        stage == StashStage::Comparing,
        event == StashEvent::Compared(true),
{
}

/// The entries are compared only after the user agreed: the way there leads through the answer.
pub proof fn comparing_needs_consent(first: StashEvent, second: StashEvent)
    requires
        stash_step(stash_step(StashStage::Asked, first).0, second).1 == StashStep::Compare,
    ensures
        first == StashEvent::Answered(Some(0)),
        second == StashEvent::Found(true),
{
}

/// How far the action has come after some events, from the question on.
pub open spec fn stage_after(events: Seq<StashEvent>) -> StashStage
    decreases events.len(),
{
    if events.len() == 0 {
        StashStage::Asked
    } else {
        stash_step(stage_after(events.drop_last()), events.last()).0
    }
}

/// Whether some events happened in this order, others perhaps between them.
pub open spec fn happened(events: Seq<StashEvent>, first: StashEvent, second: StashEvent) -> bool {
    exists|i: int, j: int|
        0 <= i < j < events.len() && #[trigger] events[i] == first && #[trigger] events[j] == second
}

proof fn lemma_way(events: Seq<StashEvent>)
    ensures
        stage_after(events) is Finding ==> events.contains(StashEvent::Answered(Some(0))),
        stage_after(events) is Comparing ==> happened(
            events,
            StashEvent::Answered(Some(0)),
            StashEvent::Found(true),
        ),
    decreases events.len(),
{
    if events.len() > 0 {
        let front = events.drop_last();
        let n = front.len() as int;
        lemma_way(front);
        assert(events[n] == events.last());
        if stage_after(front) is Finding {
            let i = choose|i: int|
                0 <= i < front.len() && front[i] == StashEvent::Answered(Some(0));
            assert(events[i] == front[i]);
        }
        if stage_after(front) is Comparing {
            let (i, j) = choose|i: int, j: int|
                0 <= i < j < front.len() && #[trigger] front[i] == StashEvent::Answered(Some(0))
                    && #[trigger] front[j] == StashEvent::Found(true);
            assert(events[i] == front[i] && events[j] == front[j]);
        }
    }
}

/// However events come, nothing is done with the stash unless the user agreed, a repository was found
/// afterwards, and the entry was found to be the one that is shown directly before.
pub proof fn nothing_is_done_without_consent(events: Seq<StashEvent>, event: StashEvent)
    requires
        stash_step(stage_after(events), event).1 == StashStep::Run,
    ensures
        happened(events, StashEvent::Answered(Some(0)), StashEvent::Found(true)),
        event == StashEvent::Compared(true),
{
    lemma_way(events);
}

/// An action that the user agreed to is done with the entry that is shown, and then the view is
/// closed. An entry that has changed is left as it is: the view is closed, and the change reported.
pub proof fn actions_are_done_step_by_step()
    ensures
        ({
            let (s1, a1) = stash_step(StashStage::Asked, StashEvent::Answered(Some(0)));
            let (s2, a2) = stash_step(s1, StashEvent::Found(true));
            let (same, a3) = stash_step(s2, StashEvent::Compared(true));
            let (ran, a4) = stash_step(same, StashEvent::Ran(true));
            let (changed, b3) = stash_step(s2, StashEvent::Compared(false));
            &&& (a1, a2, a3, a4) == (
                StashStep::FindRepository,
                StashStep::Compare,
                StashStep::Run,
                StashStep::CloseView,
            )
            &&& stash_step(ran, StashEvent::Closed(true)) == (StashStage::Done, StashStep::Stop)
            &&& b3 == StashStep::CloseView
            &&& stash_step(changed, StashEvent::Closed(true)) == (
                StashStage::Done,
                StashStep::ReportChanged,
            )
            &&& stash_step(same, StashEvent::Ran(false)) == (
                StashStage::Done,
                StashStep::ReportFailure,
            )
            &&& stash_step(ran, StashEvent::Closed(false)).1 == StashStep::ReportFailure
            &&& stash_step(changed, StashEvent::Closed(false)).1 == StashStep::ReportFailure
            &&& stash_step(s1, StashEvent::Found(false)) == (StashStage::Done, StashStep::Stop)
        }),
{
}

/// Any other answer than the first one, and none as well, ends the action, and after the end nothing
/// happens.
pub proof fn refused_actions_are_not_done(answer: Option<usize>, event: StashEvent)
    requires
        answer != Some(0usize),
    ensures
        stash_step(StashStage::Asked, StashEvent::Answered(answer)) == (
            StashStage::Done,
            StashStep::Stop,
        ),
        stash_step(StashStage::Done, event) == (StashStage::Done, StashStep::Wait),
{
}

/// What was not expected changes nothing: the answer counts only after the question, and what became
/// of a piece of work only while it is being done.
pub proof fn only_expected_stash_events_count(stage: StashStage, event: StashEvent)
    requires
        match event {
            StashEvent::Answered(_) => !(stage is Asked),
            StashEvent::Found(_) => !(stage is Finding),
            StashEvent::Compared(_) => !(stage is Comparing),
            StashEvent::Ran(_) => !(stage is Running),
            StashEvent::Closed(_) => !(stage is Closing),
        },
    ensures
        stash_step(stage, event) == (stage, StashStep::Wait),
{
}

} // verus!
