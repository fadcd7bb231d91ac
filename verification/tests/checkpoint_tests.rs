use vanity_bitcoin::checkpoint::resume_plan;
use vanity_bitcoin::checkpoint::verify_checkpoint_compat;
use vanity_bitcoin::checkpoint::CheckpointRecord;
use vanity_bitcoin::checkpoint::CheckpointWriter;
use vanity_bitcoin::config::config_hash_hex;
use vanity_bitcoin::config::AddressFormat;
use vanity_bitcoin::config::ConfigError;
use vanity_bitcoin::config::SearchConfig;
use vanity_bitcoin::search::Scheduler;

fn config_with_seed(seed: u64) -> SearchConfig {
    SearchConfig::new(
        AddressFormat::P2pkh,
        0,
        Some("1A".to_string()),
        None,
        None,
        seed,
    )
    .unwrap()
}

#[test]
fn writer_clamps_zero_interval() {
    let w = CheckpointWriter::new("h".to_string(), 5, 0);
    assert_eq!(w.interval, 1);
    let w = CheckpointWriter::new("h".to_string(), 5, 250);
    assert_eq!(w.interval, 250);
    assert_eq!(w.next_flush, 0);
}

#[test]
fn write_file_builds_whole_record() {
    let w = CheckpointWriter::new("cafe".to_string(), 99, 1000);
    let rec = w.write_file(123);
    assert_eq!(rec.version, 1);
    assert_eq!(rec.next_attempt, 123);
    assert_eq!(rec.base_seed, 99);
    assert_eq!(rec.config_hash, "cafe");
}

#[test]
fn maybe_write_cadence() {
    let mut w = CheckpointWriter::new("h".to_string(), 1, 100_000);
    // Due immediately: every run writes a baseline record.
    let first = w.maybe_write(0);
    assert!(first.is_some());
    assert_eq!(first.unwrap().next_attempt, 0);
    // Not due again until the interval has passed.
    assert!(w.maybe_write(50_000).is_none());
    assert!(w.maybe_write(99_999).is_none());
    let second = w.maybe_write(100_000);
    assert!(second.is_some());
    assert_eq!(second.unwrap().next_attempt, 100_000);
    assert!(w.maybe_write(150_000).is_none());
}

#[test]
fn force_write_always_flushes() {
    let mut w = CheckpointWriter::new("h".to_string(), 1, 100_000);
    let rec = w.force_write(7);
    assert_eq!(rec.next_attempt, 7);
    // A forced flush also resets the cadence.
    assert!(w.maybe_write(8).is_none());
    let rec2 = w.force_write(9);
    assert_eq!(rec2.next_attempt, 9);
}

#[test]
fn resume_plan_fresh_run() {
    let p = resume_plan(None, Some(11), 22).unwrap();
    assert_eq!(p.base_seed, 11);
    assert_eq!(p.resume_attempt, 0);
    let p = resume_plan(None, None, 22).unwrap();
    assert_eq!(p.base_seed, 22);
    assert_eq!(p.resume_attempt, 0);
}

#[test]
fn resume_plan_rejects_unknown_version() {
    let rec = CheckpointRecord {
        version: 2,
        next_attempt: 5,
        base_seed: 1,
        config_hash: "x".to_string(),
    };
    assert_eq!(
        resume_plan(Some(&rec), None, 0).unwrap_err(),
        ConfigError::UnsupportedCheckpointVersion
    );
}

#[test]
fn scenario_resume_after_checkpoint() {
    // Save a checkpoint after 100000 attempts, then resume: the resumed
    // run's first claimed attempt index is at least 100000, and the
    // stored fingerprint equals the resumed run's fingerprint.
    let config = config_with_seed(42);
    let mut w = CheckpointWriter::new(config_hash_hex(&config), 42, 100_000);
    let rec = w.force_write(100_000);
    assert_eq!(rec.next_attempt, 100_000);

    let plan = resume_plan(Some(&rec), None, 7).unwrap();
    assert_eq!(plan.base_seed, 42);
    assert_eq!(plan.resume_attempt, 100_000);
    assert!(verify_checkpoint_compat(&config, &rec).is_ok());
    assert_eq!(rec.config_hash, config_hash_hex(&config));

    let mut sched = Scheduler::new(plan.resume_attempt, u64::MAX);
    let (start, end) = sched.claim_batch().unwrap();
    assert!(start >= 100_000);
    assert_eq!(start, 100_000);
    assert_eq!(end, 100_000 + 2048);
}

#[test]
fn scenario_resume_with_conflicting_seed() {
    // Resuming with an explicit seed that differs from the checkpoint's
    // stored seed fails fast, before any worker starts.
    let rec = CheckpointRecord {
        version: 1,
        next_attempt: 100_000,
        base_seed: 42,
        config_hash: "irrelevant".to_string(),
    };
    assert_eq!(
        resume_plan(Some(&rec), Some(43), 0).unwrap_err(),
        ConfigError::SeedMismatch
    );
    // The stored seed itself is accepted.
    assert!(resume_plan(Some(&rec), Some(42), 0).is_ok());
}

#[test]
fn incompatible_checkpoint_rejected() {
    let config = config_with_seed(42);
    let other = config_with_seed(43);
    let rec = CheckpointRecord {
        version: 1,
        next_attempt: 0,
        base_seed: 43,
        config_hash: config_hash_hex(&other),
    };
    assert_eq!(
        verify_checkpoint_compat(&config, &rec).unwrap_err(),
        ConfigError::IncompatibleCheckpoint
    );
}
