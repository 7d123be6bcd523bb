//! The per-job task state machine and the dispatch supervisor.
//!
//! Each declared job gets one task.  A task waits for change
//! notifications, filters and renders them, and hands back the action to
//! perform (run a command, log, or nothing).  The supervisor owns one
//! task per job and adopts the per-job isolation policy: a task that
//! fails (watch setup or subprocess spawn) is marked failed and the
//! sibling tasks are untouched.

use vstd::prelude::*;
use crate::dispatch::{Action, Job, Notification};
use crate::template::rendered;

verus! {

/// The observable state of one job's task.  The transient filtering,
/// rendering and executing stages live inside a single `on_event` step;
/// between steps a task is either watching or terminally failed.
#[derive(Debug, PartialEq, Eq, Clone, Copy)]
pub enum JobState {
    /// Waiting for the next change notification.
    Watching,
    /// Terminal: watch setup or a subprocess spawn failed for this job.
    Failed,
}

/// One job together with the state of its task.
pub struct JobTask {
    pub job: Job,
    pub state: JobState,
}

impl JobTask {
    /// A freshly started task: watching, nothing in flight.
    pub fn new(job: Job) -> (t: JobTask)
        ensures
            t.job == job,
            t.state == JobState::Watching,
    {
        JobTask { job, state: JobState::Watching }
    }

    /// One step of the task loop: a delivery result arrived from the
    /// watch source.  A well-formed notification is filtered and, when
    /// its kind is interesting, rendered into a command to execute; a
    /// delivery error is only logged.  Neither outcome ends the task.
    pub fn on_event(&mut self, incoming: &Result<Notification, String>) -> (a: Action)
        requires
            old(self).state == JobState::Watching,
        ensures
            final(self).job == old(self).job,
            final(self).state == JobState::Watching,
            incoming matches Ok(n) ==> {
                &&& old(self).job@.events.contains(n@.kind) && n@.paths.len() > 0 ==> (a matches
                    Action::Execute(c) && c@ == rendered(
                    old(self).job@.command,
                    old(self).job@.watch,
                    n@.paths[0],
                    n@.kind,
                ))
                &&& old(self).job@.events.contains(n@.kind) && n@.paths.len() == 0 ==> a
                    == Action::RejectEvent
                &&& !old(self).job@.events.contains(n@.kind) ==> a == Action::Skip
            },
            incoming is Err ==> a == Action::LogError,
    {
        match incoming {
            Ok(event) => self.job.dispatch(event),
            Err(_) => Action::LogError,
        }
    }

    /// Registering the watch failed: the task ends in its terminal state.
    pub fn on_setup_failure(&mut self)
        ensures
            final(self).job == old(self).job,
            final(self).state == JobState::Failed,
    {
        self.state = JobState::Failed;
    }

    /// Spawning the subprocess failed outright: terminal for this job's
    /// task.
    pub fn on_spawn_failure(&mut self)
        ensures
            final(self).job == old(self).job,
            final(self).state == JobState::Failed,
    {
        self.state = JobState::Failed;
    }
}

/// Daemon-wide configuration, loaded once at process start and never
/// re-read: where to log, where to record the process id, and the jobs.
pub struct Config {
    pub logfile: String,
    pub pidfile: String,
    pub jobs: Vec<Job>,
}

/// The dispatch supervisor: one independent task per declared job.
pub struct Supervisor {
    pub tasks: Vec<JobTask>,
}

impl Supervisor {
    /// Start one task per job, in declaration order, all watching.
    pub fn new(jobs: Vec<Job>) -> (s: Supervisor)
        ensures
            s.tasks@ == jobs@.map_values(|j: Job| (JobTask { job: j, state: JobState::Watching })),
    {
        let mut remaining = jobs;
        let ghost declared = remaining@;
        let mut tasks: Vec<JobTask> = Vec::new();
        while remaining.len() > 0
            invariant
                tasks@.len() + remaining@.len() == declared.len(),
                remaining@ == declared.skip(tasks@.len() as int),
                forall|i: int|
                    0 <= i < tasks@.len() ==> tasks@[i].job == declared[i] && tasks@[i].state
                        == JobState::Watching,
            decreases remaining.len(),
        {
            let job = remaining.remove(0);
            assert(job == declared[tasks@.len() as int]);
            let task = JobTask::new(job);
            let ghost prev = tasks@;
            tasks.push(task);
            proof {
                assert(remaining@ =~= declared.skip(tasks@.len() as int));
                assert forall|i: int| 0 <= i < tasks@.len() implies tasks@[i].job == declared[i]
                    && tasks@[i].state == JobState::Watching by {
                    if i < prev.len() {
                        assert(tasks@[i] == prev[i]);
                        assert(prev[i].job == declared[i]);
                        assert(prev[i].state == JobState::Watching);
                    } else {
                        assert(i == prev.len());
                        assert(tasks@[i] == task);
                        assert(task.job == declared[i]);
                        assert(task.state == JobState::Watching);
                    }
                }
            }
        }
        let ghost all = tasks@;
        let result = Supervisor { tasks };
        proof {
            assert(result.tasks@ == all);
            let target = jobs@.map_values(|j: Job| (JobTask { job: j, state: JobState::Watching }));
            assert(all =~= target) by {
                assert forall|i: int| 0 <= i < all.len() implies all[i] == target[i] by {
                    assert(all[i].job == declared[i]);
                    assert(all[i].state == JobState::Watching);
                }
            }
        }
        result
    }

    /// Isolation policy: a watch-setup failure of one job marks that
    /// job's task failed and leaves every sibling task untouched.
    pub fn record_setup_failure(&mut self, i: usize)
        requires
            i < old(self).tasks@.len(),
        ensures
            final(self).tasks@.len() == old(self).tasks@.len(),
            final(self).tasks@[i as int].job == old(self).tasks@[i as int].job,
            final(self).tasks@[i as int].state == JobState::Failed,
            forall|j: int|
                0 <= j < final(self).tasks@.len() && j != i ==> final(self).tasks@[j] == old(self).tasks@[j],
    {
        let task = &mut self.tasks[i];
        task.on_setup_failure();
        assert(self.tasks@ =~= old(self).tasks@.update(i as int, self.tasks@[i as int]));
    }
}

/// Start the dispatch engine: one watching task per declared job, in
/// declaration order.  The caller runs the tasks concurrently, feeding
/// each its notifications and performing the actions handed back; one
/// job's slow command never stalls a sibling, because the tasks share
/// nothing mutable.
pub fn run(config: Config) -> (s: Supervisor)
    ensures
        s.tasks@ == config.jobs@.map_values(
            |j: Job| (JobTask { job: j, state: JobState::Watching }),
        ),
{
    Supervisor::new(config.jobs)
}

/// Run the engine in the foreground: exactly the engine `run` starts,
/// with no daemonization around it.
pub fn debug(config: Config) -> (s: Supervisor)
    ensures
        s.tasks@ == config.jobs@.map_values(
            |j: Job| (JobTask { job: j, state: JobState::Watching }),
        ),
{
    run(config)
}

} // verus!
