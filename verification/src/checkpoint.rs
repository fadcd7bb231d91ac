//! Checkpointing of search progress and the resume protocol: what a
//! checkpoint record holds, when a periodic flush is due, and how a loaded
//! checkpoint merges with the run's own parameters.  File reading and
//! writing, and the write lock, stay with the caller.

use vstd::prelude::*;

verus! {

use crate::config::ConfigError;
use crate::config::SearchConfig;
use crate::config::config_fingerprint_bytes;
use crate::config::config_hash_hex;
use crate::hexstr::hex_chars;

/// One whole checkpoint file: schema version, the attempt index to resume
/// from, the base seed, and the configuration fingerprint in hex.
#[derive(Clone, Debug)]
pub struct CheckpointRecord {
    pub version: u32,
    pub next_attempt: u64,
    pub base_seed: u64,
    pub config_hash: String,
}

/// The checkpoint schema version this library reads and writes.
pub const CHECKPOINT_VERSION: u32 = 1;

/// Decides when a checkpoint is due and what record a flush persists.
/// The caller serializes the record, writes the file whole, and holds the
/// write lock; a newly due flush during a write is dropped, not queued.
pub struct CheckpointWriter {
    pub config_hash: String,
    pub base_seed: u64,
    pub interval: u64,
    pub next_flush: u64,
}

impl CheckpointWriter {
    /// Create a writer that is due immediately (every run starts with a
    /// baseline record) and every `interval` attempts after a flush; a
    /// zero interval is treated as one.
    pub fn new(config_hash: String, base_seed: u64, interval: u64) -> (r: CheckpointWriter)
        ensures
            r.config_hash@ == config_hash@,
            r.base_seed == base_seed,
            r.interval == (if interval == 0 {
                1u64
            } else {
                interval
            }),
            r.next_flush == 0,
    {
        CheckpointWriter {
            config_hash,
            base_seed,
            interval: if interval == 0 {
                1
            } else {
                interval
            },
            next_flush: 0,
        }
    }

    /// Is a periodic flush due at this progress count?
    pub fn due(&self, attempts: u64) -> (r: bool)
        ensures
            r == (attempts >= self.next_flush),
    {
        attempts >= self.next_flush
    }

    /// The record that a flush at `attempts` persists: the whole file,
    /// never a partial update.
    pub fn write_file(&self, attempts: u64) -> (r: CheckpointRecord)
        ensures
            r.version == CHECKPOINT_VERSION,
            r.next_attempt == attempts,
            r.base_seed == self.base_seed,
            r.config_hash@ == self.config_hash@,
    {
        CheckpointRecord {
            version: CHECKPOINT_VERSION,
            next_attempt: attempts,
            base_seed: self.base_seed,
            config_hash: self.config_hash.clone(),
        }
    }

    /// A periodic flush: the record to persist if one is due at
    /// `attempts`, advancing the next due point by the interval.  The
    /// caller performs the write, best-effort: a failed write is retried
    /// when the next interval falls due.
    pub fn maybe_write(&mut self, attempts: u64) -> (r: Option<CheckpointRecord>)
        ensures
            final(self).config_hash@ == old(self).config_hash@,
            final(self).base_seed == old(self).base_seed,
            final(self).interval == old(self).interval,
            attempts < old(self).next_flush ==> r is None && final(self).next_flush == old(
                self,
            ).next_flush,
            attempts >= old(self).next_flush ==> {
                &&& (match r {
                    Some(rec) => {
                        &&& rec.version == CHECKPOINT_VERSION
                        &&& rec.next_attempt == attempts
                        &&& rec.base_seed == old(self).base_seed
                        &&& rec.config_hash@ == old(self).config_hash@
                    },
                    None => false,
                })
                &&& final(self).next_flush == attempts.saturating_add(old(self).interval)
            },
    {
        if attempts < self.next_flush {
            return None;
        }
        let record = self.write_file(attempts);
        self.next_flush = attempts.saturating_add(self.interval);
        Some(record)
    }

    /// A forced flush, at startup and at shutdown: always yields the
    /// record for `attempts` and advances the next due point.  The caller
    /// must persist it and surface a failure; a forced write is never
    /// best-effort.
    pub fn force_write(&mut self, attempts: u64) -> (r: CheckpointRecord)
        ensures
            final(self).config_hash@ == old(self).config_hash@,
            final(self).base_seed == old(self).base_seed,
            final(self).interval == old(self).interval,
            final(self).next_flush == attempts.saturating_add(old(self).interval),
            r.version == CHECKPOINT_VERSION,
            r.next_attempt == attempts,
            r.base_seed == old(self).base_seed,
            r.config_hash@ == old(self).config_hash@,
    {
        let record = self.write_file(attempts);
        self.next_flush = attempts.saturating_add(self.interval);
        record
    }
}

/// The startup decision: which seed the run uses and where it resumes.
#[derive(Clone, Copy, Debug, PartialEq, Eq, Structural)]
pub struct ResumePlan {
    pub base_seed: u64,
    pub resume_attempt: u64,
}

/// Merge an optionally loaded checkpoint with the run's own seed choice.
/// Without a checkpoint the run starts at attempt zero with the explicit
/// seed, or with `fallback_seed` when none was given.  With a checkpoint,
/// an unsupported schema version is rejected; an explicit seed that
/// contradicts the stored seed fails fast rather than silently picking
/// one; otherwise the stored seed wins and the run resumes at the stored
/// next attempt.
pub fn resume_plan(
    checkpoint: Option<&CheckpointRecord>,
    explicit_seed: Option<u64>,
    fallback_seed: u64,
) -> (r: Result<ResumePlan, ConfigError>)
    ensures
        (match checkpoint {
            None => r matches Ok(p) && p.resume_attempt == 0 && p.base_seed == (
            match explicit_seed {
                Some(s) => s,
                None => fallback_seed,
            }),
            Some(cp) => {
                if cp.version != CHECKPOINT_VERSION {
                    r == Err::<ResumePlan, ConfigError>(ConfigError::UnsupportedCheckpointVersion)
                } else if explicit_seed matches Some(s) && s != cp.base_seed {
                    r == Err::<ResumePlan, ConfigError>(ConfigError::SeedMismatch)
                } else {
                    r matches Ok(p) && p.base_seed == cp.base_seed && p.resume_attempt
                        == cp.next_attempt
                }
            },
        }),
{
    match checkpoint {
        None => Ok(
            ResumePlan {
                base_seed: match explicit_seed {
                    Some(s) => s,
                    None => fallback_seed,
                },
                resume_attempt: 0,
            },
        ),
        Some(cp) => {
            if cp.version != CHECKPOINT_VERSION {
                return Err(ConfigError::UnsupportedCheckpointVersion);
            }
            if let Some(s) = explicit_seed {
                if s != cp.base_seed {
                    return Err(ConfigError::SeedMismatch);
                }
            }
            Ok(ResumePlan { base_seed: cp.base_seed, resume_attempt: cp.next_attempt })
        },
    }
}

/// Compare the effective configuration's fingerprint against the one the
/// checkpoint stored.  A mismatch is fatal: resuming under different
/// parameters would corrupt the resume invariant, since attempts scanned
/// under the old parameters are not safe to skip under new ones.
pub fn verify_checkpoint_compat(config: &SearchConfig, cp: &CheckpointRecord) -> (r: Result<
    (),
    ConfigError,
>)
    requires
        config.wf(),
    ensures
        r is Ok <==> cp.config_hash@ == hex_chars(config_fingerprint_bytes(*config)),
        r is Err ==> r == Err::<(), ConfigError>(ConfigError::IncompatibleCheckpoint),
{
    let expected = config_hash_hex(config);
    if cp.config_hash == expected {
        Ok(())
    } else {
        Err(ConfigError::IncompatibleCheckpoint)
    }
}

} // verus!
