//! The debounce guard: suppresses an event that recurs within a time window.

use crate::clock::Clock;
use crate::table::Table;
use vstd::prelude::*;

verus! {

/// The time from `last` to `now`, and zero where `now` is the earlier one.
pub open spec fn elapsed(last: u64, now: u64) -> int {
    if now >= last {
        now - last
    } else {
        0
    }
}

/// Whether an occurrence of `key` at `now` is a duplicate: the key was seen
/// before, and no more than `window` has passed since it was last let
/// through.
pub open spec fn suppresses(seen: Map<Seq<char>, u64>, key: Seq<char>, now: u64, window: u64) -> bool {
    seen.contains_key(key) && elapsed(seen[key], now) <= window
}

/// The stamps after an occurrence of `key` at `now`. A duplicate leaves them
/// as they are; an occurrence that is let through is stamped `now`.
pub open spec fn stamps_after(
    seen: Map<Seq<char>, u64>,
    key: Seq<char>,
    now: u64,
    window: u64,
) -> Map<Seq<char>, u64> {
    if suppresses(seen, key, now, window) {
        seen
    } else {
        seen.insert(key, now)
    }
}

/// Remembers when each event key was last let through.
#[derive(Debug)]
pub struct DebounceGuard {
    seen: Table<u64>,
    clock: Clock,
}

impl View for DebounceGuard {
    type V = Map<Seq<char>, u64>;

    closed spec fn view(&self) -> Map<Seq<char>, u64> {
        self.seen.map()
    }
}

impl DebounceGuard {
    /// A guard that has seen nothing. Its clock starts now.
    pub fn new() -> (guard: DebounceGuard)
        ensures
            guard@ == Map::<Seq<char>, u64>::empty(),
    {
        DebounceGuard { seen: Table::new(), clock: Clock::start() }
    }

    /// The time now, by the guard's own clock: the milliseconds since the
    /// guard was made.
    pub fn now(&self) -> u64 {
        self.clock.millis()
    }

    /// When `key` was last let through.
    pub fn last_seen(&self, key: &str) -> (r: Option<u64>)
        ensures
            r == if self@.contains_key(key@) {
                Some(self@[key@])
            } else {
                None
            },
    {
        match self.seen.get(key) {
            Some(stamp) => Some(*stamp),
            None => None,
        }
    }

    /// How many keys the guard remembers.
    pub fn len(&self) -> (n: usize)
        ensures
            n == self@.dom().len(),
    {
        self.seen.len()
    }

    /// Forgets every key. The guard never does so by itself: a caller that
    /// meets ever new keys clears it from time to time.
    pub fn clear(&mut self)
        ensures
            final(self)@ == Map::<Seq<char>, u64>::empty(),
    {
        self.seen.clear();
    }

    /// Takes an occurrence of `key` at the time `now` and says whether it is
    /// to be suppressed. An occurrence that is let through is stamped `now`;
    /// a suppressed one leaves the stamp alone, so a dense burst is let
    /// through once per `window`.
    pub fn should_suppress_at(&mut self, key: &str, now: u64, window: u64) -> (suppress: bool)
        ensures
            suppress == suppresses(old(self)@, key@, now, window),
            final(self)@ == stamps_after(old(self)@, key@, now, window),
    {
        let duplicate: bool = match self.seen.get(key) {
            Some(last) => {
                let last: u64 = *last;
                let gap: u64 = if now >= last {
                    now - last
                } else {
                    0
                };
                gap <= window
            },
            None => false,
        };
        if !duplicate {
            self.seen.insert(key, now);
        }
        duplicate
    }

    /// Takes an occurrence of `key` now, by the guard's own clock, with
    /// `window` in milliseconds. Whatever the clock says, the answer and the
    /// new stamps are those of `should_suppress_at` at some time.
    pub fn should_suppress(&mut self, key: &str, window: u64) -> (suppress: bool)
        ensures
            exists|now: u64|
                suppress == suppresses(old(self)@, key@, now, window) && final(self)@
                    == stamps_after(old(self)@, key@, now, window),
    {
        let now: u64 = self.now();
        self.should_suppress_at(key, now, window)
    }
}

/// Once an occurrence is let through at `start`, every occurrence of the key
/// up to `window` later is suppressed, and the first one after that is let
/// through again.
pub proof fn lemma_window(seen: Map<Seq<char>, u64>, key: Seq<char>, start: u64, now: u64, window: u64)
    requires
        !suppresses(seen, key, start, window),
        start <= now,
    ensures
        suppresses(stamps_after(seen, key, start, window), key, now, window) <==> now - start
            <= window,
{
}

/// A suppressed occurrence does not renew the stamp: suppressed occurrences
/// in between do not change what a later occurrence meets.
pub proof fn lemma_suppressed_keeps_stamp(
    seen: Map<Seq<char>, u64>,
    key: Seq<char>,
    now: u64,
    window: u64,
)
    requires
        suppresses(seen, key, now, window),
    ensures
        stamps_after(seen, key, now, window) == seen,
{
}

/// An occurrence of one key leaves the stamps of the other keys alone.
pub proof fn lemma_other_keys(
    seen: Map<Seq<char>, u64>,
    key: Seq<char>,
    other: Seq<char>,
    now: u64,
    window: u64,
)
    requires
        key != other,
    ensures
        stamps_after(seen, key, now, window).contains_key(other) == seen.contains_key(other),
        seen.contains_key(other) ==> stamps_after(seen, key, now, window)[other] == seen[other],
{
}

} // verus!
