use incronrs::dispatch::{Action, Job, Notification};
use incronrs::engine::{debug, Config, JobState, JobTask, Supervisor};

fn build_job() -> Job {
    Job {
        label: String::from("build"),
        watch: String::from("/src"),
        events: vec![String::from("Modify(Data(Any))")],
        command: String::from("echo $event on $filename"),
    }
}

#[test]
fn accepts_exact_kind_name() {
    let job = build_job();
    assert!(job.accepts(&String::from("Modify(Data(Any))")));
}

#[test]
fn accepts_rejects_near_miss_names() {
    // Matching is literal: a configured name that is merely close to the
    // canonical kind text matches nothing.
    let job = Job {
        events: vec![String::from("Modify")],
        ..build_job()
    };
    assert!(!job.accepts(&String::from("Modify(Data(Any))")));
}

#[test]
fn dispatch_runs_command_for_interesting_kind() {
    let job = build_job();
    let note = Notification {
        kind_text: String::from("Modify(Data(Any))"),
        paths: vec![String::from("/src/a.txt")],
    };
    assert_eq!(
        job.dispatch(&note),
        Action::Execute(String::from("echo Modify(Data(Any)) on /src/a.txt"))
    );
}

#[test]
fn dispatch_skips_uninteresting_kind() {
    let job = build_job();
    let note = Notification {
        kind_text: String::from("Create(File)"),
        paths: vec![String::from("/src/a.txt")],
    };
    assert_eq!(job.dispatch(&note), Action::Skip);
}

#[test]
fn dispatch_rejects_event_without_paths() {
    let job = build_job();
    let note = Notification {
        kind_text: String::from("Modify(Data(Any))"),
        paths: vec![],
    };
    assert_eq!(job.dispatch(&note), Action::RejectEvent);
}

#[test]
fn task_logs_delivery_errors_and_keeps_watching() {
    let mut task = JobTask::new(build_job());
    let action = task.on_event(&Err(String::from("queue overflowed")));
    assert_eq!(action, Action::LogError);
    assert_eq!(task.state, JobState::Watching);
}

#[test]
fn task_executes_then_takes_the_next_event() {
    // Within one job events are handled strictly one after the other:
    // each call returns the command to finish before the next is taken.
    let mut task = JobTask::new(build_job());
    let first = task.on_event(&Ok(Notification {
        kind_text: String::from("Modify(Data(Any))"),
        paths: vec![String::from("/src/a.txt")],
    }));
    let second = task.on_event(&Ok(Notification {
        kind_text: String::from("Modify(Data(Any))"),
        paths: vec![String::from("/src/b.txt")],
    }));
    assert_eq!(
        first,
        Action::Execute(String::from("echo Modify(Data(Any)) on /src/a.txt"))
    );
    assert_eq!(
        second,
        Action::Execute(String::from("echo Modify(Data(Any)) on /src/b.txt"))
    );
}

#[test]
fn supervisor_starts_one_watching_task_per_job() {
    let other = Job {
        label: String::from("deploy"),
        watch: String::from("/www"),
        events: vec![String::from("Create(File)")],
        command: String::from("sync $filename"),
    };
    let sup = Supervisor::new(vec![build_job(), other]);
    assert_eq!(sup.tasks.len(), 2);
    assert_eq!(sup.tasks[0].job.label, "build");
    assert_eq!(sup.tasks[1].job.label, "deploy");
    assert_eq!(sup.tasks[0].state, JobState::Watching);
    assert_eq!(sup.tasks[1].state, JobState::Watching);
}

#[test]
fn setup_failure_is_isolated_to_its_job() {
    let bad = Job {
        label: String::from("bad"),
        watch: String::from("/nonexistent"),
        events: vec![String::from("Modify(Data(Any))")],
        command: String::from("true"),
    };
    let mut sup = Supervisor::new(vec![bad, build_job()]);
    sup.record_setup_failure(0);
    assert_eq!(sup.tasks[0].state, JobState::Failed);
    assert_eq!(sup.tasks[1].state, JobState::Watching);
    assert_eq!(sup.tasks[1].job.label, "build");
}

#[test]
fn spawn_failure_ends_only_that_task() {
    let mut task = JobTask::new(build_job());
    task.on_spawn_failure();
    assert_eq!(task.state, JobState::Failed);
    assert_eq!(task.job.label, "build");
}

#[test]
fn debug_starts_the_engine_in_the_foreground() {
    let config = Config {
        logfile: String::from("/tmp/incronrs.log"),
        pidfile: String::from("/tmp/incronrs.pid"),
        jobs: vec![build_job()],
    };
    let sup = debug(config);
    assert_eq!(sup.tasks.len(), 1);
    assert_eq!(sup.tasks[0].state, JobState::Watching);
    assert_eq!(sup.tasks[0].job.command, "echo $event on $filename");
}
