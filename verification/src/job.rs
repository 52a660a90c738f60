//! A single clone job: where it is staged, the steps it goes through, and
//! what it reports.

use vstd::prelude::*;
use vstd::string::StringExecFns;
use crate::manifest::Source;
use crate::paths::{join_path, joined};

verus! {

/// Why a job failed: the step that went wrong, with what it reported.
#[derive(Debug, PartialEq)]
pub enum JobError {
    /// The staging directory could not be created.
    Staging(String),
    /// The repository could not be cloned.
    Clone(String),
    /// The revision names no commit of the clone, or more than one.
    RevisionResolution(String),
    /// The working tree could not be set to the commit.
    Checkout(String),
}

/// What a job reports when it ends.
#[derive(Debug, PartialEq)]
pub enum JobOutcome {
    /// The repository is staged and can be moved to its destination.
    Ready { destination: String, staged: String },
    /// A step of the job failed.
    Failed { error: JobError },
}

/// The step that a job is about to take.
#[derive(Clone, Copy, Debug, PartialEq, Eq, Structural)]
pub enum CloneStage {
    /// Create the staging directory.
    Stage,
    /// Clone the origin into the staging directory.
    Clone,
    /// Resolve the revision to a commit of the clone.
    Resolve,
    /// Point the clone at the commit and make its working tree match.
    Checkout,
}

impl CloneStage {
    /// The step that follows this one, if any.
    pub open spec fn following(self) -> Option<CloneStage> {
        match self {
            CloneStage::Stage => Some(CloneStage::Clone),
            CloneStage::Clone => Some(CloneStage::Resolve),
            CloneStage::Resolve => Some(CloneStage::Checkout),
            CloneStage::Checkout => None,
        }
    }

    /// The error of a job that failed at this step with the given report.
    pub open spec fn failure(self, report: String) -> JobError {
        match self {
            CloneStage::Stage => JobError::Staging(report),
            CloneStage::Clone => JobError::Clone(report),
            CloneStage::Resolve => JobError::RevisionResolution(report),
            CloneStage::Checkout => JobError::Checkout(report),
        }
    }
}

/// A job in progress.
#[derive(Debug, PartialEq)]
pub struct CloneTask {
    /// The repository to clone.
    pub source: Source,
    /// Where the clone is placed in the end.
    pub destination: String,
    /// The directory, used by this job alone, that the clone is written to.
    pub staged: String,
    /// The step to take next.
    pub stage: CloneStage,
}

/// What follows a step of a job.
#[derive(Debug, PartialEq)]
pub enum CloneProgress {
    /// The job goes on with its next step.
    Next(CloneTask),
    /// The job has ended.
    Done(JobOutcome),
}

/// The prefix of the name of a run's staging root.
pub const STAGING_PREFIX: &'static str = "repors-";

/// Whether a character is a digit of a number written to the base of
/// sixteen in lower case.
pub open spec fn is_hex_digit(c: char) -> bool {
    ('0' as u32 <= c as u32 <= '9' as u32) || ('a' as u32 <= c as u32 <= 'f' as u32)
}

/// Whether a text has the form in which a random identifier is written: 36
/// characters in five groups of digits to the base of sixteen, with a hyphen
/// between two groups; the third group starts with the version, 4, and the
/// fourth with one of the four digits of the variant.
pub open spec fn is_token(text: Seq<char>) -> bool {
    &&& text.len() == 36
    &&& forall|i: int|
        0 <= i < 36 ==> if i == 8 || i == 13 || i == 18 || i == 23 {
            #[trigger] text[i] == '-'
        } else {
            is_hex_digit(text[i])
        }
    &&& text[14] == '4'
    &&& text[19] == '8' || text[19] == '9' || text[19] == 'a' || text[19] == 'b'
}

/// Draws a random identifier with `uuid::Uuid::new_v4` and writes it out
/// with `to_string`, which gives its hyphenated form in lower case. Which
/// identifier is drawn is left open; of its text only the form is claimed.
#[verifier::external_body]
pub(crate) fn fresh_token() -> (token: String)
    ensures
        is_token(token@),
{
    uuid::Uuid::new_v4().to_string()
}

/// The staging root named `name` below the directory `temp_dir`.
pub fn staging_root_named(temp_dir: &str, name: &str) -> (root: String)
    ensures
        root@ == joined(temp_dir@, STAGING_PREFIX@ + name@),
{
    let directory = String::from_str(STAGING_PREFIX).concat(name);
    join_path(temp_dir, directory.as_str())
}

/// A staging root for one run below the directory `temp_dir`: a directory
/// with the staging prefix and a name drawn for this run.
pub fn staging_root(temp_dir: &str) -> (root: String)
    ensures
        exists|name: Seq<char>| root@ == joined(temp_dir@, STAGING_PREFIX@ + name),
{
    let name = fresh_token();
    staging_root_named(temp_dir, name.as_str())
}

impl CloneTask {
    /// The job for `source` that is staged in the directory `token` of the
    /// staging root, before its first step. Its destination is that of the
    /// source, taken relative to the destination of the run.
    pub fn staged_in(
        source: Source,
        destination_root: &str,
        staging_root: &str,
        token: &str,
    ) -> (task: CloneTask)
        ensures
            task.source == source,
            task.destination@ == joined(destination_root@, source.destination@),
            task.staged@ == joined(staging_root@, token@),
            task.stage == CloneStage::Stage,
    {
        let destination = join_path(destination_root, source.destination.as_str());
        let staged = join_path(staging_root, token);
        CloneTask { source, destination, staged, stage: CloneStage::Stage }
    }

    /// The job for `source` before its first step, staged in a directory of
    /// the staging root that is drawn for this job.
    pub fn begin(source: Source, destination_root: &str, staging_root: &str) -> (task: CloneTask)
        ensures
            task.source == source,
            task.destination@ == joined(destination_root@, source.destination@),
            exists|token: Seq<char>| task.staged@ == joined(staging_root@, token),
            task.stage == CloneStage::Stage,
    {
        let token = fresh_token();
        CloneTask::staged_in(source, destination_root, staging_root, token.as_str())
    }

    /// Takes the result of the step that was due. A failed step ends the job
    /// with the error of that step; no step is tried again. After the last
    /// step the job reports where the clone is staged and where it goes.
    pub fn advance(self, result: Result<(), String>) -> (progress: CloneProgress)
        ensures
            match result {
                Err(report) => progress == CloneProgress::Done(
                    JobOutcome::Failed { error: self.stage.failure(report) },
                ),
                Ok(_) => match self.stage.following() {
                    Some(stage) => progress == CloneProgress::Next(
                        CloneTask {
                            source: self.source,
                            destination: self.destination,
                            staged: self.staged,
                            stage,
                        },
                    ),
                    None => progress == CloneProgress::Done(
                        JobOutcome::Ready { destination: self.destination, staged: self.staged },
                    ),
                },
            },
    {
        match result {
            Err(report) => {
                let error = match self.stage {
                    CloneStage::Stage => JobError::Staging(report),
                    CloneStage::Clone => JobError::Clone(report),
                    CloneStage::Resolve => JobError::RevisionResolution(report),
                    CloneStage::Checkout => JobError::Checkout(report),
                };
                CloneProgress::Done(JobOutcome::Failed { error })
            },
            Ok(_) => {
                let CloneTask { source, destination, staged, stage } = self;
                match stage {
                    CloneStage::Stage => CloneProgress::Next(
                        CloneTask { source, destination, staged, stage: CloneStage::Clone },
                    ),
                    CloneStage::Clone => CloneProgress::Next(
                        CloneTask { source, destination, staged, stage: CloneStage::Resolve },
                    ),
                    CloneStage::Resolve => CloneProgress::Next(
                        CloneTask { source, destination, staged, stage: CloneStage::Checkout },
                    ),
                    CloneStage::Checkout => CloneProgress::Done(
                        JobOutcome::Ready { destination, staged },
                    ),
                }
            },
        }
    }
}

} // verus!
