//! Throttled logging: each call site logs at most once per interval.
//!
//! A call site is identified by a string; the string picks one of
//! [`MAX_COUNTERS`] slots by a simple hash, and each slot remembers when it
//! last logged. Reading the clock and writing the log are the caller's.

use vstd::prelude::*;
use vstd::string::*;

verus! {

/// Number of throttling slots.
pub const MAX_COUNTERS: usize = 16;

/// The hash of some bytes: `h = h * 31 + b` over the bytes, from 0, with
/// wrapping 64-bit arithmetic.
pub open spec fn bytes_hash(bytes: Seq<u8>) -> u64
    decreases bytes.len(),
{
    if bytes.len() == 0 {
        0
    } else {
        let h = bytes_hash(bytes.drop_last());
        ((((h as int) * 31) % 0x1_0000_0000_0000_0000 + bytes.last() as int) % 0x1_0000_0000_0000_0000) as u64
    }
}

/// The slot of a call site.
pub open spec fn slot_of(counter_id: &str) -> int {
    (bytes_hash(counter_id.spec_bytes()) % (MAX_COUNTERS as u64)) as int
}

/// The slot of a call site: its hash modulo [`MAX_COUNTERS`].
pub fn slot_id(counter_id: &str) -> (r: usize)
    ensures
        r == slot_of(counter_id),
        r < MAX_COUNTERS,
{
    let bytes = counter_id.as_bytes();
    let mut hash: u64 = 0;
    let mut i: usize = 0;
    while i < bytes.len()
        invariant
            i <= bytes@.len(),
            bytes@ == counter_id.spec_bytes(),
            hash == bytes_hash(bytes@.take(i as int)),
        decreases bytes@.len() - i,
    {
        proof {
            assert(bytes@.take(i as int + 1).drop_last() =~= bytes@.take(i as int));
        }
        hash = hash.wrapping_mul(31).wrapping_add(bytes[i] as u64);
        i = i + 1;
    }
    proof {
        assert(bytes@.take(i as int) =~= bytes@);
    }
    (hash % (MAX_COUNTERS as u64)) as usize
}

/// When each slot last logged, in seconds.
pub struct LogThrottle {
    last_log_sec: Vec<u64>,
}

impl LogThrottle {
    /// There is one time per slot.
    #[verifier::type_invariant]
    spec fn one_time_per_slot(self) -> bool {
        self.last_log_sec@.len() == MAX_COUNTERS
    }

    /// The last logging time of each slot.
    pub closed spec fn last_view(&self) -> Seq<u64> {
        self.last_log_sec@
    }

    /// Every slot last logged at time 0.
    pub fn new() -> (t: Self)
        ensures
            t.last_view() == Seq::new(MAX_COUNTERS as nat, |i: int| 0u64),
    {
        let mut v: Vec<u64> = Vec::new();
        let mut i: usize = 0;
        while i < MAX_COUNTERS
            invariant
                i <= MAX_COUNTERS,
                v@ == Seq::new(i as nat, |j: int| 0u64),
            decreases MAX_COUNTERS - i,
        {
            v.push(0);
            i = i + 1;
            proof {
                assert(v@ =~= Seq::new(i as nat, |j: int| 0u64));
            }
        }
        LogThrottle { last_log_sec: v }
    }

    /// When the slot of `counter_id` last logged.
    pub fn last_logged(&self, counter_id: &str) -> (r: u64)
        ensures
            r == self.last_view()[slot_of(counter_id)],
    {
        proof {
            use_type_invariant(self);
        }
        self.last_log_sec[slot_id(counter_id)]
    }

    /// Whether the call site `counter_id` may log at time `now_secs`: when
    /// `interval_secs` have passed since its slot last logged; the slot then
    /// remembers `now_secs`.
    pub fn should_log(&mut self, counter_id: &str, now_secs: u64, interval_secs: u64) -> (r: bool)
        requires
            old(self).last_view()[slot_of(counter_id)] + interval_secs <= u64::MAX,
        ensures
            r == (now_secs >= old(self).last_view()[slot_of(counter_id)] + interval_secs),
            final(self).last_view() == if r {
                old(self).last_view().update(slot_of(counter_id), now_secs)
            } else {
                old(self).last_view()
            },
    {
        proof {
            use_type_invariant(&*self);
        }
        let idx = slot_id(counter_id);
        let prev = self.last_log_sec[idx];
        if now_secs >= prev + interval_secs {
            let mut times = self.last_log_sec.clone();
            proof {
                assert(times@ =~= self.last_log_sec@);
            }
            times.set(idx, now_secs);
            self.last_log_sec = times;
            true
        } else {
            false
        }
    }
}

/// Law: right after a slot logs, it stays quiet for a whole interval.
pub proof fn lemma_quiet_after_logging(last: Seq<u64>, slot: int, now: u64, later: u64, interval: u64)
    requires
        0 <= slot < last.len(),
        interval > 0,
        now <= later < now + interval,
    ensures
        !(later >= last.update(slot, now)[slot] + interval),
{
}

} // verus!
