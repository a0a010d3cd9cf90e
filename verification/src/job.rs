//! One unit of work: a single input file, its resolved output path, the
//! policy set and the encoder choice.
//!
//! The job layer is split in two pure halves around the file system work.
//! `plan` decides, from the policies and from what the file system reported
//! about the two paths, which action the job performs. `conclude` turns the
//! action's outcome into the job's statistics delta, charging exactly one
//! category per job. The file operations themselves (stat, directory
//! creation, copy, rename, decode, encode) happen outside the library,
//! between the two calls.

use vstd::prelude::*;

use crate::paths::{FilePath, file_kind, join_path, path_eq, spec_file_kind, spec_join_path};
use crate::policy::{EncoderType, ExistingAction, FileKind, ParsableAction, UnparsableAction};
use crate::statistics::{ItemModel, Statistics, StatsModel, job_delta_ok};

verus! {

/// What one job will do, decided from the policies, the file kind, and what
/// the file system reported about the input and output paths.
#[derive(Copy, Clone, Debug, PartialEq, Eq, Structural)]
pub enum JobPlan {
    /// The input is not a regular file: count it ignored, touch nothing.
    SkipIrregular,
    /// The output path is taken and the policy skips taken outputs.
    SkipExisting,
    /// The output path is taken although the Rename policy should have
    /// diverted it: the job fails rather than overwrite.
    FailExisting,
    /// The policy for this file kind is Ignore.
    SkipPolicy,
    /// Input and output are the same path: copying or moving is a no-op,
    /// counted as ignored, with no duration and no error.
    SkipSamePath,
    /// Duplicate the input at the output path.
    DoCopy,
    /// Relocate the input to the output path.
    DoMove,
    /// Decode the raw input and re-encode it at the output path.
    DoParse,
}

/// What the file-system side reports back for a planned action.
#[derive(Copy, Clone, Debug, PartialEq, Eq, Structural)]
pub enum ActionOutcome {
    /// Nothing was attempted (every Skip or Fail plan).
    NotPerformed,
    /// The copy finished, taking this many milliseconds.
    Copied(u64),
    /// The move finished, taking this many milliseconds.
    Moved(u64),
    /// Decode and encode finished, taking these many milliseconds each.
    Recoded(u64, u64),
    /// The planned action was attempted and failed.
    Failed,
}

/// A job-level failure that the job itself reports (every other failure is
/// reported by the side that performed the file operation).
#[derive(Copy, Clone, Debug, PartialEq, Eq, Structural)]
pub enum JobError {
    /// The output path was still taken when the job ran, although the
    /// Rename policy had asked for a free one.
    OutputExists,
}

/// The decision table of a job: what it does for each combination of
/// policies, file kind and file system state.
pub open spec fn spec_job_plan(
    input: Seq<Seq<char>>,
    output: Seq<Seq<char>>,
    on_raw: ParsableAction,
    on_file: UnparsableAction,
    on_image: UnparsableAction,
    on_existing: ExistingAction,
    input_is_regular: bool,
    output_exists: bool,
) -> JobPlan {
    if !input_is_regular {
        JobPlan::SkipIrregular
    } else if output_exists && on_existing == ExistingAction::Rename {
        JobPlan::FailExisting
    } else if output_exists {
        JobPlan::SkipExisting
    } else {
        match spec_file_kind(input) {
            FileKind::Raw => match on_raw {
                ParsableAction::Ignore => JobPlan::SkipPolicy,
                ParsableAction::Parse => JobPlan::DoParse,
                ParsableAction::Copy => if input == output {
                    JobPlan::SkipSamePath
                } else {
                    JobPlan::DoCopy
                },
                ParsableAction::Move => if input == output {
                    JobPlan::SkipSamePath
                } else {
                    JobPlan::DoMove
                },
            },
            FileKind::Image => match on_image {
                UnparsableAction::Ignore => JobPlan::SkipPolicy,
                UnparsableAction::Copy => if input == output {
                    JobPlan::SkipSamePath
                } else {
                    JobPlan::DoCopy
                },
                UnparsableAction::Move => if input == output {
                    JobPlan::SkipSamePath
                } else {
                    JobPlan::DoMove
                },
            },
            FileKind::Other => match on_file {
                UnparsableAction::Ignore => JobPlan::SkipPolicy,
                UnparsableAction::Copy => if input == output {
                    JobPlan::SkipSamePath
                } else {
                    JobPlan::DoCopy
                },
                UnparsableAction::Move => if input == output {
                    JobPlan::SkipSamePath
                } else {
                    JobPlan::DoMove
                },
            },
        }
    }
}

/// Whether an outcome is one the plan can produce.
pub open spec fn spec_outcome_fits(plan: JobPlan, outcome: ActionOutcome) -> bool {
    match plan {
        JobPlan::DoCopy => outcome is Copied || outcome is Failed,
        JobPlan::DoMove => outcome is Moved || outcome is Failed,
        JobPlan::DoParse => outcome is Recoded || outcome is Failed,
        _ => outcome is NotPerformed,
    }
}

/// The statistics delta one job charges for its plan and outcome: exactly
/// one of ignored, errors, copied, moved, or the decoded-and-encoded pair.
pub open spec fn spec_job_delta(plan: JobPlan, outcome: ActionOutcome) -> StatsModel {
    match outcome {
        ActionOutcome::NotPerformed => StatsModel {
            ignored: ItemModel { count: 1, times: Seq::empty() },
            ..StatsModel::empty()
        },
        ActionOutcome::Copied(t) => StatsModel {
            copied: ItemModel { count: 1, times: seq![t] },
            ..StatsModel::empty()
        },
        ActionOutcome::Moved(t) => StatsModel {
            moved: ItemModel { count: 1, times: seq![t] },
            ..StatsModel::empty()
        },
        ActionOutcome::Recoded(d, e) => StatsModel {
            decoded: ItemModel { count: 1, times: seq![d] },
            encoded: ItemModel { count: 1, times: seq![e] },
            ..StatsModel::empty()
        },
        ActionOutcome::Failed => StatsModel {
            errors: ItemModel { count: 1, times: Seq::empty() },
            ..StatsModel::empty()
        },
    }
}

/// Every delta a job can charge is a well-formed single-job delta.
pub proof fn lemma_job_delta_ok(plan: JobPlan, outcome: ActionOutcome)
    requires
        spec_outcome_fits(plan, outcome),
    ensures
        job_delta_ok(spec_job_delta(plan, outcome)),
{
}

/// One conversion job: an input file, the output path resolved for it, the
/// policy set of the run, the encoder for parsed raw files, and the
/// statistics it accumulates.
pub struct Job {
    pub input_file: FilePath,
    pub output_file: FilePath,
    pub on_raw: ParsableAction,
    pub on_file: UnparsableAction,
    pub on_image: UnparsableAction,
    pub on_existing: ExistingAction,
    pub encoder: EncoderType,
    pub statistics: Statistics,
}

impl Job {
    /// Builds a job with empty statistics.
    pub fn new(
        input_file: &FilePath,
        output_file: &FilePath,
        on_raw: ParsableAction,
        on_file: UnparsableAction,
        on_image: UnparsableAction,
        on_existing: ExistingAction,
        encoder: EncoderType,
    ) -> (j: Job)
        ensures
            j.input_file@ == input_file@,
            j.output_file@ == output_file@,
            j.on_raw == on_raw,
            j.on_file == on_file,
            j.on_image == on_image,
            j.on_existing == on_existing,
            j.encoder == encoder,
            j.statistics@ == StatsModel::empty(),
    {
        Job {
            input_file: input_file.duplicate(),
            output_file: output_file.duplicate(),
            on_raw,
            on_file,
            on_image,
            on_existing,
            encoder,
            statistics: Statistics::default(),
        }
    }

    /// The job's name for messages: its input path.
    pub fn name(&self) -> (s: String)
        ensures
            s@ == spec_join_path(self.input_file@),
    {
        join_path(&self.input_file)
    }

    /// Decides what this job does, given whether the input is a regular
    /// file and whether the output path is (still) taken.
    pub fn plan(&self, input_is_regular: bool, output_exists: bool) -> (p: JobPlan)
        ensures
            p == spec_job_plan(
                self.input_file@,
                self.output_file@,
                self.on_raw,
                self.on_file,
                self.on_image,
                self.on_existing,
                input_is_regular,
                output_exists,
            ),
    {
        if !input_is_regular {
            return JobPlan::SkipIrregular;
        }
        if output_exists {
            return if self.on_existing == ExistingAction::Rename {
                JobPlan::FailExisting
            } else {
                JobPlan::SkipExisting
            };
        }
        let same = path_eq(&self.input_file, &self.output_file);
        match file_kind(&self.input_file) {
            FileKind::Raw => match self.on_raw {
                ParsableAction::Ignore => JobPlan::SkipPolicy,
                ParsableAction::Parse => JobPlan::DoParse,
                ParsableAction::Copy => if same {
                    JobPlan::SkipSamePath
                } else {
                    JobPlan::DoCopy
                },
                ParsableAction::Move => if same {
                    JobPlan::SkipSamePath
                } else {
                    JobPlan::DoMove
                },
            },
            FileKind::Image => match self.on_image {
                UnparsableAction::Ignore => JobPlan::SkipPolicy,
                UnparsableAction::Copy => if same {
                    JobPlan::SkipSamePath
                } else {
                    JobPlan::DoCopy
                },
                UnparsableAction::Move => if same {
                    JobPlan::SkipSamePath
                } else {
                    JobPlan::DoMove
                },
            },
            FileKind::Other => match self.on_file {
                UnparsableAction::Ignore => JobPlan::SkipPolicy,
                UnparsableAction::Copy => if same {
                    JobPlan::SkipSamePath
                } else {
                    JobPlan::DoCopy
                },
                UnparsableAction::Move => if same {
                    JobPlan::SkipSamePath
                } else {
                    JobPlan::DoMove
                },
            },
        }
    }

    /// Consumes the job and charges its outcome to its statistics: exactly
    /// one category per job, and a failure to divert a taken output path is
    /// the one failure the job reports itself.
    pub fn conclude(self, plan: JobPlan, outcome: ActionOutcome) -> (r: Result<Statistics, JobError>)
        requires
            spec_outcome_fits(plan, outcome),
            self.statistics@.can_merge(spec_job_delta(plan, outcome)),
        ensures
            match r {
                Ok(s) => plan != JobPlan::FailExisting && s@ =~= self.statistics@.merged(
                    spec_job_delta(plan, outcome),
                ),
                Err(e) => plan == JobPlan::FailExisting && e == JobError::OutputExists,
            },
    {
        let mut stats = self.statistics;
        if plan == JobPlan::FailExisting {
            return Err(JobError::OutputExists);
        }
        match outcome {
            ActionOutcome::NotPerformed => {
                stats.ignored.inc();
            },
            ActionOutcome::Copied(t) => {
                stats.copied.record(t);
            },
            ActionOutcome::Moved(t) => {
                stats.moved.record(t);
            },
            ActionOutcome::Recoded(d, e) => {
                stats.decoded.record(d);
                stats.encoded.record(e);
            },
            ActionOutcome::Failed => {
                stats.errors.inc();
            },
        }
        proof {
            assert(stats@ =~~= self.statistics@.merged(spec_job_delta(plan, outcome)));
        }
        Ok(stats)
    }
}

} // verus!
