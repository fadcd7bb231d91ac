//! Work partitioning over the attempt-index space, the per-attempt search
//! step, and the single first-match-wins result slot.  The shared atomic
//! cursor and the worker threads live with the caller; this module
//! provides the claim arithmetic and the sequential scan they run.

use vstd::prelude::*;

verus! {

use crate::address::address_chars;
use crate::address::encode_address;
use crate::config::AddressFormat;
use crate::config::KeyMode;
use crate::config::SearchConfig;
use crate::derive::CandidateKey;
use crate::derive::candidate_of;
use crate::derive::derive_candidate;
use crate::pattern::matches_pattern;
use crate::pattern::pattern_matches;

/// How many consecutive attempt indices one claim hands to a worker.
pub const ATTEMPT_BATCH: u64 = 2048;

/// The address text an attempt produces, if it produces one: no address
/// when the attempt is skipped or the witness version is unsupported.
pub open spec fn attempt_address(
    seed: u64,
    attempt: u64,
    mode: KeyMode,
    format: AddressFormat,
    witness_version: u8,
) -> Option<Seq<char>> {
    match candidate_of(seed, attempt, mode) {
        Some(v) => if format == AddressFormat::Bech32 && witness_version > 1 {
            None
        } else {
            Some(address_chars(v.1, format, witness_version))
        },
        None => None,
    }
}

/// Does the attempt yield an address that satisfies the configured
/// pattern?  A pure function of the configuration and the attempt index.
pub open spec fn attempt_matches(seed: u64, attempt: u64, c: SearchConfig) -> bool {
    match attempt_address(seed, attempt, c.mode, c.format, c.witness_version) {
        Some(a) => pattern_matches(a, c.prefix.deep_view(), c.suffix.deep_view()),
        None => false,
    }
}

/// A chain of claimed half-open ranges: consecutive, nonempty, starting
/// at `start` and ending at `end`.
pub open spec fn claims_chain(claims: Seq<(u64, u64)>, start: u64, end: u64) -> bool {
    &&& (claims.len() == 0 ==> start == end)
    &&& (claims.len() > 0 ==> claims.first().0 == start && claims.last().1 == end)
    &&& (forall|i: int| 0 <= i < claims.len() ==> (#[trigger] claims[i]).0 < claims[i].1)
    &&& (forall|i: int| 0 <= i < claims.len() - 1 ==> (#[trigger] claims[i]).1 == claims[i + 1].0)
}

/// The shared scheduler state: a monotone cursor over the attempt space,
/// bounded by the attempt budget.  The ghost claim history records every
/// batch ever handed out.
pub struct Scheduler {
    pub cursor: u64,
    pub max_attempts: u64,
    pub resume: Ghost<u64>,
    pub claims: Ghost<Seq<(u64, u64)>>,
}

impl Scheduler {
    /// The claim history is a gapless chain from the resume point to the
    /// cursor.
    pub open spec fn wf(&self) -> bool {
        &&& self.resume@ <= self.cursor
        &&& claims_chain(self.claims@, self.resume@, self.cursor)
    }

    /// Start scheduling at `resume_attempt`, claiming nothing below it.
    pub fn new(resume_attempt: u64, max_attempts: u64) -> (r: Scheduler)
        requires
            resume_attempt <= max_attempts,
        ensures
            r.wf(),
            r.cursor == resume_attempt,
            r.resume@ == resume_attempt,
            r.max_attempts == max_attempts,
            r.claims@ == Seq::<(u64, u64)>::empty(),
    {
        Scheduler {
            cursor: resume_attempt,
            max_attempts,
            resume: Ghost(resume_attempt),
            claims: Ghost(Seq::empty()),
        }
    }

    /// Claim the next batch: the half-open range from the cursor, at most
    /// `ATTEMPT_BATCH` wide, clipped to the budget; nothing once the
    /// cursor has reached the budget.  A claimed batch is never handed
    /// out again.
    pub fn claim_batch(&mut self) -> (r: Option<(u64, u64)>)
        requires
            old(self).wf(),
        ensures
            final(self).wf(),
            final(self).resume == old(self).resume,
            final(self).max_attempts == old(self).max_attempts,
            (match r {
                None => old(self).cursor >= old(self).max_attempts && *final(self) == *old(self),
                Some(batch) => {
                    &&& old(self).cursor < old(self).max_attempts
                    &&& batch.0 == old(self).cursor
                    &&& batch.1 == final(self).cursor
                    &&& batch.0 < batch.1 <= old(self).max_attempts
                    &&& batch.1 == (if batch.0 + ATTEMPT_BATCH <= old(self).max_attempts {
                        batch.0 + ATTEMPT_BATCH
                    } else {
                        old(self).max_attempts as int
                    })
                    &&& final(self).claims@ == old(self).claims@.push(batch)
                },
            }),
    {
        if self.cursor >= self.max_attempts {
            return None;
        }
        let s: u64 = self.cursor;
        let e: u64 = if self.max_attempts - s >= ATTEMPT_BATCH {
            s + ATTEMPT_BATCH
        } else {
            self.max_attempts
        };
        self.cursor = e;
        proof {
            self.claims@ = self.claims@.push((s, e));
            assert(self.claims@.last() == (s, e));
            assert(self.claims@.first().0 == self.resume@);
            assert forall|i: int| 0 <= i < self.claims@.len() implies (#[trigger] self.claims@[i]).0
                < self.claims@[i].1 by {
                if i < self.claims@.len() - 1 {
                    assert(self.claims@[i] == old(self).claims@[i]);
                }
            }
            assert forall|i: int| 0 <= i < self.claims@.len() - 1 implies (#[trigger] self.claims@[i]).1
                == self.claims@[i + 1].0 by {
                if i < self.claims@.len() - 2 {
                    assert(self.claims@[i] == old(self).claims@[i]);
                    assert(self.claims@[i + 1] == old(self).claims@[i + 1]);
                } else {
                    assert(old(self).claims@.len() > 0 ==> old(self).claims@.last().1 == s);
                }
            }
        }
        Some((s, e))
    }
}

/// A claim chain covers exactly its span.
proof fn lemma_claims_cover(claims: Seq<(u64, u64)>, start: u64, end: u64, a: u64)
    requires
        claims_chain(claims, start, end),
    ensures
        start <= end,
        (start <= a < end) <==> exists|i: int|
            0 <= i < claims.len() && (#[trigger] claims[i]).0 <= a < claims[i].1,
    decreases claims.len(),
{
    if claims.len() == 0 {
    } else {
        let front = claims.drop_last();
        let lastc = claims.last();
        assert(forall|i: int| 0 <= i < front.len() ==> front[i] == claims[i]);
        assert(claims_chain(front, start, lastc.0)) by {
            if front.len() > 0 {
                assert(front.last() == claims[claims.len() - 2]);
                assert(claims[claims.len() - 2].1 == claims[claims.len() - 1].0);
            }
        }
        lemma_claims_cover(front, start, lastc.0, a);
        assert(lastc.0 < lastc.1 && lastc.1 == end);
        if start <= a < end {
            if a < lastc.0 {
                let i = choose|i: int|
                    0 <= i < front.len() && (#[trigger] front[i]).0 <= a < front[i].1;
                assert(claims[i].0 <= a < claims[i].1);
            } else {
                assert(claims[claims.len() - 1].0 <= a < claims[claims.len() - 1].1);
            }
        }
        if exists|i: int| 0 <= i < claims.len() && (#[trigger] claims[i]).0 <= a < claims[i].1 {
            let i = choose|i: int|
                0 <= i < claims.len() && (#[trigger] claims[i]).0 <= a < claims[i].1;
            if i < claims.len() - 1 {
                assert(front[i].0 <= a < front[i].1);
            }
        }
    }
}

/// Law: a resumed run searches exactly the complement of what was already
/// covered.  Every attempt index from the resume point up to the cursor
/// lies in exactly the claimed batches — no attempt below the resume
/// point is ever claimed, and no attempt in between is skipped.
pub proof fn lemma_scheduler_coverage(s: Scheduler, a: u64)
    requires
        s.wf(),
    ensures
        (s.resume@ <= a < s.cursor) <==> exists|i: int|
            0 <= i < s.claims@.len() && (#[trigger] s.claims@[i]).0 <= a < s.claims@[i].1,
{
    lemma_claims_cover(s.claims@, s.resume@, s.cursor, a);
}

/// Run one attempt: derive the candidate, encode its address, test the
/// pattern.  Yields the candidate and its address exactly when the
/// attempt matches; a skipped attempt or a non-matching address yields
/// nothing.
pub fn search_attempt(config: &SearchConfig, attempt: u64) -> (r: Option<(CandidateKey, String)>)
    requires
        config.wf(),
    ensures
        r is Some <==> attempt_matches(config.base_seed, attempt, *config),
        (match r {
            Some(found) => {
                &&& (match candidate_of(config.base_seed, attempt, config.mode) {
                    Some(v) => {
                        &&& found.0.secret@ == v.1
                        &&& (match (found.0.mnemonic, v.0) {
                            (Some(m), Some(ph)) => m@ == ph,
                            (None, None) => true,
                            _ => false,
                        })
                        &&& found.1@ == address_chars(
                            v.1,
                            config.format,
                            config.witness_version,
                        )
                    },
                    None => false,
                })
                &&& pattern_matches(
                    found.1@,
                    config.prefix.deep_view(),
                    config.suffix.deep_view(),
                )
            },
            None => true,
        }),
{
    let candidate: CandidateKey = match derive_candidate(config.base_seed, attempt, &config.mode) {
        Some(c) => c,
        None => {
            return None;
        },
    };
    let mut addr = String::new();
    match encode_address(
        candidate.secret.as_slice(),
        config.format,
        config.witness_version,
        &mut addr,
    ) {
        Ok(_) => {},
        Err(_) => {
            return None;
        },
    }
    let pref: Option<&str> = match &config.prefix {
        Some(p) => Some(p.as_str()),
        None => None,
    };
    let suff: Option<&str> = match &config.suffix {
        Some(s) => Some(s.as_str()),
        None => None,
    };
    if matches_pattern(addr.as_str(), pref, suff) {
        Some((candidate, addr))
    } else {
        None
    }
}

/// Scan the half-open attempt range in increasing order and stop at the
/// first match.  Yields that attempt's candidate, address and index, and
/// the guarantee that nothing before it in the range matches; or nothing
/// when no attempt in the range matches.
pub fn search_range(config: &SearchConfig, start: u64, end: u64) -> (r: Option<
    (CandidateKey, String, u64),
>)
    requires
        config.wf(),
        start <= end,
    ensures
        (match r {
            Some(found) => {
                &&& start <= found.2 < end
                &&& attempt_matches(config.base_seed, found.2, *config)
                &&& forall|a: u64|
                    start <= a < found.2 ==> !attempt_matches(config.base_seed, a, *config)
                &&& (match candidate_of(config.base_seed, found.2, config.mode) {
                    Some(v) => found.0.secret@ == v.1 && found.1@ == address_chars(
                        v.1,
                        config.format,
                        config.witness_version,
                    ),
                    None => false,
                })
            },
            None => forall|a: u64|
                start <= a < end ==> !attempt_matches(config.base_seed, a, *config),
        }),
{
    let mut a: u64 = start;
    while a < end
        invariant
            start <= a <= end,
            config.wf(),
            forall|x: u64| start <= x < a ==> !attempt_matches(config.base_seed, x, *config),
        decreases end - a,
    {
        match search_attempt(config, a) {
            Some(found) => {
                return Some((found.0, found.1, a));
            },
            None => {},
        }
        a += 1;
    }
    None
}

/// The single in-flight result slot: the first successful publication
/// wins and the slot is immutable thereafter.  The caller guards it with
/// its lock; this type enforces the first-write-wins rule itself.
pub struct ResultSlot {
    pub slot: Option<(CandidateKey, String, u64)>,
}

impl ResultSlot {
    /// An empty slot.
    pub fn new() -> (r: ResultSlot)
        ensures
            r.slot is None,
    {
        ResultSlot { slot: None }
    }

    /// Publish a result: accepted only into an empty slot.  Returns
    /// whether this publication won; a loser changes nothing.
    pub fn publish(&mut self, candidate: CandidateKey, address: String, attempts: u64) -> (r: bool)
        ensures
            old(self).slot is None ==> r && (match final(self).slot {
                Some(v) => v.0 == candidate && v.1 == address && v.2 == attempts,
                None => false,
            }),
            old(self).slot is Some ==> !r && *final(self) == *old(self),
    {
        if self.slot.is_none() {
            self.slot = Some((candidate, address, attempts));
            true
        } else {
            false
        }
    }

    /// Take the winning result out of the slot, at shutdown.
    pub fn take_result(&mut self) -> (r: Option<(CandidateKey, String, u64)>)
        ensures
            r == old(self).slot,
            final(self).slot is None,
    {
        let mut taken: Option<(CandidateKey, String, u64)> = None;
        core::mem::swap(&mut taken, &mut self.slot);
        taken
    }
}

} // verus!
