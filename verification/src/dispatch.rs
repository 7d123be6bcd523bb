//! Job descriptors, change notifications, and the per-event dispatch
//! decision: filter the event kind against the job's interest set, then
//! render the command template.

use vstd::prelude::*;
use crate::template::{render, rendered};

verus! {

/// One declared watch job: a label, a directory tree to watch, the event
/// kinds of interest, and a command template.  Immutable after
/// construction.
pub struct Job {
    pub label: String,
    pub watch: String,
    pub events: Vec<String>,
    pub command: String,
}

/// The mathematical content of a `Job`.
pub struct JobView {
    pub label: Seq<char>,
    pub watch: Seq<char>,
    pub events: Seq<Seq<char>>,
    pub command: Seq<char>,
}

impl View for Job {
    type V = JobView;

    open spec fn view(&self) -> JobView {
        JobView {
            label: self.label@,
            watch: self.watch@,
            events: self.events@.map_values(|e: String| e@),
            command: self.command@,
        }
    }
}

/// One filesystem change notification, reduced to plain values: the
/// canonical text of its event kind and the affected paths.
pub struct Notification {
    pub kind_text: String,
    pub paths: Vec<String>,
}

/// The mathematical content of a `Notification`.
pub struct NotificationView {
    pub kind: Seq<char>,
    pub paths: Seq<Seq<char>>,
}

impl View for Notification {
    type V = NotificationView;

    open spec fn view(&self) -> NotificationView {
        NotificationView {
            kind: self.kind_text@,
            paths: self.paths@.map_values(|p: String| p@),
        }
    }
}

/// What a job's task does with one incoming notification.
#[derive(Debug, PartialEq, Eq)]
pub enum Action {
    /// The kind was interesting: run this rendered command in a subshell
    /// and wait for it to exit before taking the next event.
    Execute(String),
    /// The kind is not in the interest set: drop the event silently.
    Skip,
    /// The notification carried no path to substitute: log it and drop
    /// the event; the job keeps watching.
    RejectEvent,
    /// The watch source reported a transient delivery error: log it and
    /// keep watching.
    LogError,
}

impl Job {
    /// Event filter: accepts a notification iff the text of its kind is
    /// exactly one of the declared entries.  Matching is literal string
    /// equality, not a semantic category match: a close-but-not-equal
    /// configured name matches nothing.
    pub fn accepts(&self, kind_text: &String) -> (r: bool)
        ensures
            r == self@.events.contains(kind_text@),
    {
        let n = self.events.len();
        let mut i: usize = 0;
        while i < n
            invariant
                i <= n,
                n == self.events@.len(),
                forall|j: int| 0 <= j < i ==> self@.events[j] != kind_text@,
            decreases n - i,
        {
            if self.events[i].eq(kind_text) {
                assert(self@.events[i as int] == kind_text@);
                return true;
            }
            i = i + 1;
        }
        assert(forall|j: int| 0 <= j < self@.events.len() ==> self@.events[j] != kind_text@);
        false
    }

    /// Decide what to do with one notification: run the rendered command
    /// iff the event's kind is in the interest set, with one exception —
    /// an accepted notification without any path cannot be rendered and
    /// is rejected instead of crashing the job.
    pub fn dispatch(&self, event: &Notification) -> (a: Action)
        ensures
            self@.events.contains(event@.kind) && event@.paths.len() > 0 ==> (a matches Action::Execute(c)
                && c@ == rendered(self@.command, self@.watch, event@.paths[0], event@.kind)),
            self@.events.contains(event@.kind) && event@.paths.len() == 0 ==> a
                == Action::RejectEvent,
            !self@.events.contains(event@.kind) ==> a == Action::Skip,
    {
        if !self.accepts(&event.kind_text) {
            Action::Skip
        } else if event.paths.len() == 0 {
            Action::RejectEvent
        } else {
            let cmd = render(
                self.command.as_str(),
                self.watch.as_str(),
                event.paths[0].as_str(),
                event.kind_text.as_str(),
            );
            Action::Execute(cmd)
        }
    }
}

} // verus!
