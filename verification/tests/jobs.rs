use rawbatch::job::{ActionOutcome, Job, JobError, JobPlan};
use rawbatch::paths::{ExistingPaths, FilePath, output_path};
use rawbatch::policy::{
    EncodedType, EncoderType, ExistingAction, ParsableAction, UnparsableAction, target_extension,
};
use rawbatch::statistics::is_job_delta;

fn fp(parts: &[&str]) -> FilePath {
    FilePath { components: parts.iter().map(|s| s.to_string()).collect() }
}

fn job(input: &[&str], output: &[&str], on_raw: ParsableAction, on_existing: ExistingAction) -> Job {
    Job::new(
        &fp(input),
        &fp(output),
        on_raw,
        UnparsableAction::Copy,
        UnparsableAction::Copy,
        on_existing,
        EncoderType::JpegEncoder(90),
    )
}

#[test]
fn job_name_is_the_input_path() {
    let j = job(&["in", "photo.CR2"], &["out", "photo.jpg"], ParsableAction::Parse, ExistingAction::Ignore);
    assert_eq!(j.name(), "in/photo.CR2".to_string());
}

#[test]
fn plan_ignores_irregular_input() {
    let j = job(&["in", "photo.CR2"], &["out", "photo.jpg"], ParsableAction::Parse, ExistingAction::Ignore);
    assert_eq!(j.plan(false, false), JobPlan::SkipIrregular);
}

#[test]
fn plan_on_taken_output_follows_the_existing_policy() {
    let j = job(&["in", "photo.CR2"], &["out", "photo.jpg"], ParsableAction::Parse, ExistingAction::Ignore);
    assert_eq!(j.plan(true, true), JobPlan::SkipExisting);
    let j = job(&["in", "photo.CR2"], &["out", "photo.jpg"], ParsableAction::Parse, ExistingAction::Rename);
    assert_eq!(j.plan(true, true), JobPlan::FailExisting);
}

#[test]
fn plan_dispatches_on_kind_and_policy() {
    let j = job(&["in", "photo.CR2"], &["out", "photo.jpg"], ParsableAction::Parse, ExistingAction::Ignore);
    assert_eq!(j.plan(true, false), JobPlan::DoParse);
    let j = job(&["in", "photo.CR2"], &["out", "photo.CR2"], ParsableAction::Ignore, ExistingAction::Ignore);
    assert_eq!(j.plan(true, false), JobPlan::SkipPolicy);
    let j = Job::new(
        &fp(&["in", "pic.png"]),
        &fp(&["out", "pic.png"]),
        ParsableAction::Parse,
        UnparsableAction::Copy,
        UnparsableAction::Move,
        ExistingAction::Ignore,
        EncoderType::TiffEncoder,
    );
    assert_eq!(j.plan(true, false), JobPlan::DoMove);
    let j = Job::new(
        &fp(&["in", "note.txt"]),
        &fp(&["out", "note.txt"]),
        ParsableAction::Parse,
        UnparsableAction::Copy,
        UnparsableAction::Move,
        ExistingAction::Ignore,
        EncoderType::TiffEncoder,
    );
    assert_eq!(j.plan(true, false), JobPlan::DoCopy);
}

#[test]
fn plan_same_input_and_output_is_a_no_op() {
    // A copy whose input and output are the same path does nothing.
    let j = job(&["x", "note.txt"], &["x", "note.txt"], ParsableAction::Parse, ExistingAction::Rename);
    assert_eq!(j.plan(true, false), JobPlan::SkipSamePath);
}

#[test]
fn conclude_same_path_copy_records_no_duration_and_no_error() {
    let j = job(&["x", "note.txt"], &["x", "note.txt"], ParsableAction::Parse, ExistingAction::Rename);
    let plan = j.plan(true, false);
    assert_eq!(plan, JobPlan::SkipSamePath);
    let stats = j.conclude(plan, ActionOutcome::NotPerformed).unwrap();
    assert!(is_job_delta(&stats));
    assert_eq!(stats.ignored.count(), 1);
    assert_eq!(stats.errors.count(), 0);
    assert_eq!(stats.copied.count(), 0);
    assert_eq!(stats.copied.samples(), Vec::<u64>::new());
    assert_eq!(stats.total.count(), 0);
}

#[test]
fn conclude_parse_records_decode_and_encode_separately() {
    // photo.CR2 parsed with Jpeg at quality 90 into an empty output tree.
    let existing = ExistingPaths { paths: Vec::new() };
    let out = output_path(
        &fp(&["in", "photo.CR2"]),
        &fp(&["in"]),
        &fp(&["out"]),
        target_extension(EncodedType::Jpeg),
        ParsableAction::Parse,
        ExistingAction::Rename,
        &existing,
    )
    .unwrap();
    assert_eq!(out.components, vec!["out".to_string(), "photo.jpg".to_string()]);
    let j = Job::new(
        &fp(&["in", "photo.CR2"]),
        &out,
        ParsableAction::Parse,
        UnparsableAction::Copy,
        UnparsableAction::Copy,
        ExistingAction::Rename,
        EncoderType::JpegEncoder(90),
    );
    let plan = j.plan(true, false);
    assert_eq!(plan, JobPlan::DoParse);
    let stats = j.conclude(plan, ActionOutcome::Recoded(250, 40)).unwrap();
    assert!(is_job_delta(&stats));
    assert_eq!(stats.decoded.count(), 1);
    assert_eq!(stats.decoded.samples(), vec![250]);
    assert_eq!(stats.encoded.count(), 1);
    assert_eq!(stats.encoded.samples(), vec![40]);
    assert_eq!(stats.copied.count(), 0);
    assert_eq!(stats.errors.count(), 0);
}

#[test]
fn conclude_existing_output_under_ignore_counts_ignored_only() {
    // note.txt copied onto a taken destination under the Ignore policy.
    let j = Job::new(
        &fp(&["in", "note.txt"]),
        &fp(&["out", "note.txt"]),
        ParsableAction::Parse,
        UnparsableAction::Copy,
        UnparsableAction::Copy,
        ExistingAction::Ignore,
        EncoderType::JpegEncoder(90),
    );
    let plan = j.plan(true, true);
    assert_eq!(plan, JobPlan::SkipExisting);
    let stats = j.conclude(plan, ActionOutcome::NotPerformed).unwrap();
    assert_eq!(stats.ignored.count(), 1);
    assert_eq!(stats.decoded.count(), 0);
    assert_eq!(stats.encoded.count(), 0);
    assert_eq!(stats.copied.count(), 0);
    assert_eq!(stats.copied.samples(), Vec::<u64>::new());
    assert_eq!(stats.errors.count(), 0);
}

#[test]
fn conclude_failed_action_counts_one_error() {
    let j = job(&["in", "a.txt"], &["out", "a.txt"], ParsableAction::Parse, ExistingAction::Ignore);
    let plan = j.plan(true, false);
    assert_eq!(plan, JobPlan::DoCopy);
    let stats = j.conclude(plan, ActionOutcome::Failed).unwrap();
    assert_eq!(stats.errors.count(), 1);
    assert_eq!(stats.copied.count(), 0);
    assert_eq!(stats.ignored.count(), 0);
}

#[test]
fn conclude_fail_existing_reports_the_error() {
    let j = job(&["in", "a.txt"], &["out", "a.txt"], ParsableAction::Parse, ExistingAction::Rename);
    let plan = j.plan(true, true);
    assert_eq!(plan, JobPlan::FailExisting);
    let r = j.conclude(plan, ActionOutcome::NotPerformed);
    assert_eq!(r.unwrap_err(), JobError::OutputExists);
}

#[test]
fn conclude_copy_and_move_record_their_durations() {
    let j = job(&["in", "a.txt"], &["out", "a.txt"], ParsableAction::Parse, ExistingAction::Ignore);
    let stats = j.conclude(JobPlan::DoCopy, ActionOutcome::Copied(15)).unwrap();
    assert_eq!(stats.copied.count(), 1);
    assert_eq!(stats.copied.samples(), vec![15]);
    let j = job(&["in", "a.txt"], &["out", "a.txt"], ParsableAction::Parse, ExistingAction::Ignore);
    let stats = j.conclude(JobPlan::DoMove, ActionOutcome::Moved(3)).unwrap();
    assert_eq!(stats.moved.count(), 1);
    assert_eq!(stats.moved.samples(), vec![3]);
}
