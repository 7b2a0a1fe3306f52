//! Which list items are still fading in: an item fades up the first time it is shown in a
//! session, and items first shown together (within one batch) follow each other.

use vstd::prelude::*;
use std::collections::HashMap;
use std::time::{Duration, Instant};

verus! {

broadcast use vstd::std_specs::hash::group_hash_axioms;

/// How long an item takes to appear, in milliseconds.
pub const ENTER_MS: u128 = 180;

/// Items appearing together follow each other by this much.
pub const STAGGER_MS: u128 = 28;

/// Items after this many in a batch all start with the last one.
pub const MAX_STAGGER: u32 = 8;

/// Items first seen within this many milliseconds of a batch's start join it.
pub const BATCH_MS: u128 = 50;

#[verifier::external_type_specification]
#[verifier::external_body]
pub struct ExInstant(Instant);

/// `Instant::now`: the monotonic clock's current reading. Nothing is promised of it.
#[verifier::external_body]
fn instant_now() -> Instant {
    Instant::now()
}

/// `Instant::elapsed`: the time since `origin` (zero when the clock reads earlier). Nothing is
/// promised of the value.
#[verifier::external_body]
fn elapsed_since(origin: &Instant) -> Duration {
    origin.elapsed()
}

/// `Duration::as_millis`: whole milliseconds of `d`. Nothing is stated: the only duration
/// measured is the clock's elapsed time, of which nothing is promised either.
#[verifier::external_body]
fn millis(d: Duration) -> (r: u128) {
    d.as_millis()
}

/// What has been shown this session: for each item key, when it was first shown (milliseconds
/// since `origin`) and its place in the batch it came with.
pub struct Seen {
    pub origin: Instant,
    pub first: HashMap<u64, (u128, u32)>,
    pub batch_start: Option<u128>,
    pub batch_len: u32,
}

/// `a - b`, or zero when `b` is later (as `Instant` subtraction).
pub open spec fn since(a: u128, b: u128) -> u128 {
    if a >= b {
        (a - b) as u128
    } else {
        0
    }
}

/// Whether an item first seen at `now` starts a new batch.
pub open spec fn starts_batch(batch_start: Option<u128>, now: u128) -> bool {
    match batch_start {
        None => true,
        Some(s) => since(now, s) > BATCH_MS,
    }
}

/// The state after `key` is looked at `now`: a key seen before changes nothing; a new key is
/// recorded at `now` with the next place in its batch (a new batch after a pause).
pub open spec fn seen_after(old: &Seen, key: u64, now: u128, new: &Seen) -> bool {
    if old.first@.contains_key(key) {
        &&& new.first@ == old.first@
        &&& new.batch_start == old.batch_start
        &&& new.batch_len == old.batch_len
    } else {
        let fresh = starts_batch(old.batch_start, now);
        let len = if fresh {
            0
        } else {
            old.batch_len
        };
        let slot = if len < MAX_STAGGER {
            len
        } else {
            MAX_STAGGER
        };
        &&& new.batch_start == (if fresh {
            Some(now)
        } else {
            old.batch_start
        })
        &&& new.batch_len == len + 1
        &&& new.first@ == old.first@.insert(key, (now, slot))
    }
}

/// While the item is entering: its delay; `None` once it has been shown.
pub open spec fn entering_delay(first: (u128, u32), now: u128) -> Option<u128> {
    let delay = STAGGER_MS * first.1 as u128;
    if since(now, first.0) < ENTER_MS + delay {
        Some(delay as u128)
    } else {
        None
    }
}

impl Seen {
    pub fn new() -> (r: Seen)
        ensures
            r.first@ == Map::<u64, (u128, u32)>::empty(),
            r.batch_start is None,
            r.batch_len == 0,
    {
        Seen { origin: instant_now(), first: HashMap::new(), batch_start: None, batch_len: 0 }
    }

    /// Looks at the item `key` at `now` (milliseconds since `origin`).
    pub fn entering_at(&mut self, key: u64, now: u128) -> (r: Option<u128>)
        requires
            !old(self).first@.contains_key(key) ==> old(self).batch_len < u32::MAX,
        ensures
            seen_after(old(self), key, now, final(self)),
            final(self).first@.contains_key(key),
            r == entering_delay(final(self).first@[key], now),
    {
        if !self.first.contains_key(&key) {
            let fresh = match self.batch_start {
                None => true,
                Some(s) => {
                    let gap: u128 = if now >= s {
                        now - s
                    } else {
                        0
                    };
                    gap > BATCH_MS
                },
            };
            if fresh {
                self.batch_start = Some(now);
                self.batch_len = 0;
            }
            let slot = if self.batch_len < MAX_STAGGER {
                self.batch_len
            } else {
                MAX_STAGGER
            };
            self.batch_len = self.batch_len + 1;
            self.first.insert(key, (now, slot));
        }
        let (start, slot) = match self.first.get(&key) {
            Some(v) => *v,
            None => (now, 0),
        };
        let delay: u128 = STAGGER_MS * slot as u128;
        let gap: u128 = if now >= start {
            now - start
        } else {
            0
        };
        if gap < ENTER_MS + delay {
            Some(delay)
        } else {
            None
        }
    }

    /// Looks at the item `key` now: its delay while it is entering, `None` once it has been
    /// shown. The reading of the clock is whatever it is; the rest is `entering_at`.
    pub fn entering(&mut self, key: u64) -> (r: Option<u128>)
        requires
            !old(self).first@.contains_key(key) ==> old(self).batch_len < u32::MAX,
        ensures
            exists|now: u128|
                seen_after(old(self), key, now, final(self)) && r == entering_delay(final(self).first@[key], now),
            final(self).first@.contains_key(key),
    {
        let now = millis(elapsed_since(&self.origin));
        self.entering_at(key, now)
    }
}

/// Every item stops entering: once its longest possible fade (the last place in a batch) is
/// over, it shows plainly.
pub proof fn law_entering_ends(first: (u128, u32), now: u128)
    requires
        first.1 <= MAX_STAGGER,
        since(now, first.0) >= ENTER_MS + STAGGER_MS * MAX_STAGGER as u128,
    ensures
        entering_delay(first, now) is None,
{
    assert(STAGGER_MS * first.1 as u128 <= STAGGER_MS * MAX_STAGGER as u128) by (nonlinear_arith)
        requires
            first.1 <= MAX_STAGGER,
    ;
}

} // verus!
