use repors::job::{
    staging_root, staging_root_named, CloneProgress, CloneStage, CloneTask,
    JobError, JobOutcome,
};
use repors::Source;

fn source() -> Source {
    Source {
        revision: String::from("8d0ba08a"),
        origin: String::from("https://example.org/git/poky"),
        destination: String::from("sources/poky"),
    }
}

fn task_at(stage: CloneStage) -> CloneTask {
    CloneTask {
        source: source(),
        destination: String::from("root/sources/poky"),
        staged: String::from("stage/1"),
        stage,
    }
}

#[test]
fn a_job_is_staged_below_the_staging_root() {
    let task = CloneTask::staged_in(source(), "root", "/tmp/repors-run", "job-1");
    assert_eq!(task.source, source());
    assert_eq!(task.destination, "root/sources/poky");
    assert_eq!(task.staged, "/tmp/repors-run/job-1");
    assert_eq!(task.stage, CloneStage::Stage);
}

#[test]
fn an_absolute_destination_replaces_the_root() {
    let mut absolute = source();
    absolute.destination = String::from("/elsewhere");
    let task = CloneTask::staged_in(absolute, "root", "stage", "job");
    assert_eq!(task.destination, "/elsewhere");
}

#[test]
fn every_job_gets_a_staging_directory_of_its_own() {
    let first = CloneTask::begin(source(), "root", "stage");
    let second = CloneTask::begin(source(), "root", "stage");
    assert_eq!(first.destination, "root/sources/poky");
    assert_eq!(second.destination, "root/sources/poky");
    assert!(first.staged.starts_with("stage/"));
    assert!(second.staged.starts_with("stage/"));
    assert!(first.staged.len() > "stage/".len());
    assert_ne!(first.staged, second.staged);
    assert_eq!(first.stage, CloneStage::Stage);
}

#[test]
fn the_steps_of_a_job_follow_each_other() {
    let task = CloneTask::staged_in(source(), "root", "stage", "1");
    let task = match task.advance(Ok(())) {
        CloneProgress::Next(task) => task,
        other => panic!("{other:?}"),
    };
    assert_eq!(task, task_at(CloneStage::Clone));
    let task = match task.advance(Ok(())) {
        CloneProgress::Next(task) => task,
        other => panic!("{other:?}"),
    };
    assert_eq!(task, task_at(CloneStage::Resolve));
    let task = match task.advance(Ok(())) {
        CloneProgress::Next(task) => task,
        other => panic!("{other:?}"),
    };
    assert_eq!(task, task_at(CloneStage::Checkout));
    assert_eq!(
        task.advance(Ok(())),
        CloneProgress::Done(JobOutcome::Ready {
            destination: String::from("root/sources/poky"),
            staged: String::from("stage/1"),
        })
    );
}

#[test]
fn a_failed_step_ends_the_job_with_its_own_error() {
    let report = || Err(String::from("no"));
    assert_eq!(
        task_at(CloneStage::Stage).advance(report()),
        CloneProgress::Done(JobOutcome::Failed { error: JobError::Staging(String::from("no")) })
    );
    assert_eq!(
        task_at(CloneStage::Clone).advance(report()),
        CloneProgress::Done(JobOutcome::Failed { error: JobError::Clone(String::from("no")) })
    );
    assert_eq!(
        task_at(CloneStage::Resolve).advance(report()),
        CloneProgress::Done(JobOutcome::Failed {
            error: JobError::RevisionResolution(String::from("no"))
        })
    );
    assert_eq!(
        task_at(CloneStage::Checkout).advance(report()),
        CloneProgress::Done(JobOutcome::Failed { error: JobError::Checkout(String::from("no")) })
    );
}

#[test]
fn a_staging_root_carries_the_prefix() {
    assert_eq!(staging_root_named("/tmp", "run"), "/tmp/repors-run");
    let first = staging_root("/tmp");
    let second = staging_root("/tmp");
    assert!(first.starts_with("/tmp/repors-"));
    assert!(first.len() > "/tmp/repors-".len());
    assert_ne!(first, second);
}
