//! Simulated time: a clock that can be frozen and advanced, and a timer of delayed actions.
//!
//! Instants are nanoseconds since the Unix epoch; intervals are nanoseconds.

use vstd::prelude::*;
use crate::network::device::cable::CableSimulator;

verus! {

/// Nanoseconds in a second.
pub const NANOS_PER_SEC: u128 = 1_000_000_000;

/// An instant of the system clock.
#[verifier::external_type_specification]
#[verifier::external_body]
pub struct ExSystemTime(std::time::SystemTime);

/// Calls `SystemTime::now`: the current instant of the system clock. Nothing is promised of it.
#[verifier::external_body]
fn system_time_now() -> (r: std::time::SystemTime) {
    std::time::SystemTime::now()
}

/// Calls `SystemTime::duration_since` with the Unix epoch: the time elapsed since the epoch,
/// or `None` for an instant before it (the error of `duration_since`). What the duration is
/// depends on the instant, which Verus cannot see; nothing more is promised.
#[verifier::external_body]
fn since_epoch(t: &std::time::SystemTime) -> (r: Option<std::time::Duration>) {
    match t.duration_since(std::time::UNIX_EPOCH) {
        Ok(d) => Some(d),
        Err(_) => None,
    }
}

/// Calls `Duration::as_nanos`: the whole nanoseconds of the duration. The duration is opaque
/// to Verus, so nothing is promised of the number.
#[verifier::external_body]
fn duration_nanos(d: &std::time::Duration) -> (r: u128) {
    d.as_nanos()
}

/// The time of the system clock, in nanoseconds since the Unix epoch (0 for a clock set before
/// the epoch).
fn system_now() -> (r: u128) {
    let t = system_time_now();
    match since_epoch(&t) {
        Some(d) => duration_nanos(&d),
        None => 0,
    }
}

/// A device of the simulation that acts once per tick.
pub trait Tickable {
    /// The device is valid in a simulator whose port table has `n` ports.
    spec fn valid_in(&self, n: nat) -> bool;

    /// One tick of the device at `now`, exchanging frames through `sim`.
    fn tick(&mut self, sim: &mut CableSimulator, now: u128)
        requires
            old(self).valid_in(old(sim)@.ports.len()),
            old(sim).wf(),
            now + 15 * NANOS_PER_SEC <= u128::MAX,
        ensures
            final(self).valid_in(old(sim)@.ports.len()),
            final(sim).wf(),
            final(sim)@.ports.len() == old(sim)@.ports.len(),
            final(sim)@.simulated == old(sim)@.simulated,
    ;
}

/// The abstract state of a time provider.
pub struct TimeProviderView {
    pub frozen: Option<u128>,
    pub offset: u128,
    pub last_unfrozen: u128,
    pub last_frozen: Option<u128>,
}

/// Provides the current time, and a way to freeze and move it.
pub struct TimeProvider {
    frozen: Option<u128>,
    offset: u128,
    last_unfrozen: u128,
    last_frozen: Option<u128>,
}

impl View for TimeProvider {
    type V = TimeProviderView;

    closed spec fn view(&self) -> TimeProviderView {
        TimeProviderView {
            frozen: self.frozen,
            offset: self.offset,
            last_unfrozen: self.last_unfrozen,
            last_frozen: self.last_frozen,
        }
    }
}

impl TimeProvider {
    /// A running clock without offset; the time of the system clock is taken as the moment it
    /// was last unfrozen.
    pub fn new() -> (r: Self)
        ensures
            r@.frozen is None,
            r@.offset == 0,
            r@.last_frozen is None,
    {
        TimeProvider { frozen: None, offset: 0, last_unfrozen: system_now(), last_frozen: None }
    }

    /// Freezes the current time: `now` gives that time until `unfreeze` is called.
    pub fn freeze(&mut self)
        requires
            old(self)@.frozen is None,
        ensures
            final(self)@.frozen is Some,
            final(self)@.frozen->Some_0 >= old(self)@.offset,
            final(self)@.last_frozen == final(self)@.frozen,
            final(self)@.offset == old(self)@.offset,
            final(self)@.last_unfrozen == old(self)@.last_unfrozen,
    {
        let t = self.now();
        self.frozen = Some(t);
        self.last_frozen = self.frozen;
    }

    /// Lets the time run again; the time spent frozen (since the clock last ran) is added to
    /// the offset.
    pub fn unfreeze(&mut self)
        requires
            old(self)@.frozen matches Some(f) && f >= old(self)@.last_unfrozen
                && old(self)@.offset + (f - old(self)@.last_unfrozen) <= u128::MAX,
        ensures
            final(self)@.frozen is None,
            final(self)@.offset == old(self)@.offset + (old(self)@.frozen->Some_0 - old(self)@.last_unfrozen),
            final(self)@.last_frozen == old(self)@.last_frozen,
    {
        let f = match self.frozen {
            Some(f) => f,
            None => 0,
        };
        self.offset = self.offset + (f - self.last_unfrozen);
        self.frozen = None;
        self.last_unfrozen = system_now();
    }

    /// Advances the frozen time by `duration` nanoseconds.
    pub fn advance(&mut self, duration: u128)
        requires
            old(self)@.frozen matches Some(f) && f + duration <= u128::MAX,
        ensures
            final(self)@ == (TimeProviderView {
                frozen: Some((old(self)@.frozen->Some_0 + duration) as u128),
                ..old(self)@
            }),
    {
        match self.frozen {
            Some(f) => {
                self.frozen = Some(f + duration);
            },
            None => {},
        }
    }

    /// The time when the system clock reads `system`: the frozen time, or `system` plus the
    /// offset (saturating).
    pub fn now_at(&self, system: u128) -> (r: u128)
        ensures
            self@.frozen matches Some(f) ==> r == f,
            self@.frozen is None ==> r == (if system + self@.offset > u128::MAX { u128::MAX } else { (system + self@.offset) as u128 }),
    {
        match self.frozen {
            Some(f) => f,
            None => system.saturating_add(self.offset),
        }
    }

    /// The time: the frozen time, or the system time plus the offset (saturating); see
    /// `now_at`.
    pub fn now(&self) -> (r: u128)
        ensures
            self@.frozen matches Some(f) ==> r == f,
            self@.frozen is None ==> r >= self@.offset,
    {
        let system = system_now();
        self.now_at(system)
    }

    /// `unfreeze` may be called: the clock is frozen at a time no earlier than when it last
    /// ran, and the offset can take the time spent frozen.
    pub fn can_unfreeze(&self) -> (r: bool)
        ensures
            r == (self@.frozen matches Some(f) && f >= self@.last_unfrozen && self@.offset + (f - self@.last_unfrozen) <= u128::MAX),
    {
        match self.frozen {
            Some(f) => f >= self.last_unfrozen && f - self.last_unfrozen <= u128::MAX - self.offset,
            None => false,
        }
    }

    /// The time at which the clock was last frozen.
    pub fn last_frozen(&self) -> (r: Option<u128>)
        ensures
            r == self@.last_frozen,
    {
        self.last_frozen
    }
}

/// A scheduled action: its key, when it is ready, its interval, and whether it repeats.
pub struct TimerEntryView {
    pub key: u64,
    pub ready: u128,
    pub interval: u128,
    pub persist: bool,
}

#[derive(Debug, Clone, Copy)]
struct TimerEntry {
    key: u64,
    ready: u128,
    interval: u128,
    persist: bool,
}

impl View for TimerEntry {
    type V = TimerEntryView;

    closed spec fn view(&self) -> TimerEntryView {
        TimerEntryView { key: self.key, ready: self.ready, interval: self.interval, persist: self.persist }
    }
}

/// The keys of the entries that are ready at `now`, in order.
pub open spec fn ready_keys(entries: Seq<TimerEntryView>, now: u128) -> Seq<u64>
    decreases entries.len(),
{
    if entries.len() == 0 {
        Seq::empty()
    } else {
        let prev = ready_keys(entries.drop_last(), now);
        if entries.last().ready <= now {
            prev.push(entries.last().key)
        } else {
            prev
        }
    }
}

/// The entries after a tick at `now`: entries that are ready and do not repeat are dropped;
/// ready entries that repeat are scheduled again one interval after `now` (saturating).
pub open spec fn ticked(entries: Seq<TimerEntryView>, now: u128) -> Seq<TimerEntryView>
    decreases entries.len(),
{
    if entries.len() == 0 {
        Seq::empty()
    } else {
        let prev = ticked(entries.drop_last(), now);
        let e = entries.last();
        if e.ready > now {
            prev.push(e)
        } else if e.persist {
            prev.push(TimerEntryView { ready: sat_add(now, e.interval), ..e })
        } else {
            prev
        }
    }
}

pub open spec fn sat_add(a: u128, b: u128) -> u128 {
    if a + b > u128::MAX { u128::MAX } else { (a + b) as u128 }
}

/// Whether an entry with key `key` is in `entries`.
pub open spec fn has_key(entries: Seq<TimerEntryView>, key: u64) -> bool {
    exists|i: int| 0 <= i < entries.len() && #[trigger] entries[i].key == key
}

/// The entries after scheduling `key` to be ready `secs` seconds after `now`; a key that is
/// already scheduled is left as it is.
pub open spec fn scheduled(entries: Seq<TimerEntryView>, key: u64, secs: u64, persist: bool, now: u128) -> Seq<TimerEntryView> {
    if has_key(entries, key) {
        entries
    } else {
        entries.push(TimerEntryView {
            key,
            ready: (now + secs * NANOS_PER_SEC) as u128,
            interval: (secs * NANOS_PER_SEC) as u128,
            persist,
        })
    }
}

/// A key that is not yet scheduled is among the ready keys once its interval has passed.
pub proof fn lemma_scheduled_ready(entries: Seq<TimerEntryView>, key: u64, secs: u64, persist: bool, now: u128, later: u128)
    requires
        !has_key(entries, key),
        now + secs * NANOS_PER_SEC <= later,
    ensures
        ready_keys(scheduled(entries, key, secs, persist, now), later).contains(key),
{
    let s = scheduled(entries, key, secs, persist, now);
    assert(s.drop_last() =~= entries);
    let r = ready_keys(s, later);
    assert(r == ready_keys(entries, later).push(key));
    assert(r[r.len() - 1] == key);
}

/// A ready key is the key of an entry.
proof fn lemma_ready_keys_scheduled(entries: Seq<TimerEntryView>, now: u128, key: u64)
    requires
        ready_keys(entries, now).contains(key),
    ensures
        has_key(entries, key),
    decreases entries.len(),
{
    if entries.len() > 0 {
        let prev = ready_keys(entries.drop_last(), now);
        if prev.contains(key) {
            lemma_ready_keys_scheduled(entries.drop_last(), now, key);
            let i = choose|i: int| 0 <= i < entries.drop_last().len() && #[trigger] entries.drop_last()[i].key == key;
            assert(entries[i].key == key);
        } else {
            assert(entries[entries.len() - 1].key == key);
        }
    }
}

/// A tick keeps only keys of entries that were there.
proof fn lemma_ticked_keys(entries: Seq<TimerEntryView>, now: u128, key: u64)
    requires
        has_key(ticked(entries, now), key),
    ensures
        has_key(entries, key),
    decreases entries.len(),
{
    if entries.len() > 0 {
        let prev = ticked(entries.drop_last(), now);
        let t = ticked(entries, now);
        let i = choose|i: int| 0 <= i < t.len() && #[trigger] t[i].key == key;
        if i < prev.len() {
            assert(t[i] == prev[i]);
            assert(has_key(prev, key));
            lemma_ticked_keys(entries.drop_last(), now, key);
            let j = choose|j: int| 0 <= j < entries.drop_last().len() && #[trigger] entries.drop_last()[j].key == key;
            assert(entries[j].key == key);
        } else {
            assert(entries[entries.len() - 1].key == key);
        }
    }
}

/// The life of a key scheduled at `now` to be ready after `secs` seconds: it is among the ready
/// keys at a time `t` exactly when `t` is at or after its ready time; the first tick at or after
/// that time removes it, or, when it repeats, schedules it again one interval after `t`; a tick
/// before that time keeps it as it is.
pub proof fn lemma_timer_lifecycle(entries: Seq<TimerEntryView>, key: u64, secs: u64, persist: bool, now: u128, t: u128)
    requires
        !has_key(entries, key),
        now + secs * NANOS_PER_SEC <= u128::MAX,
    ensures
        ({
            let s = scheduled(entries, key, secs, persist, now);
            let ready = now + secs * NANOS_PER_SEC;
            let e = TimerEntryView { key, ready: ready as u128, interval: (secs * NANOS_PER_SEC) as u128, persist };
            &&& ready_keys(s, t).contains(key) <==> ready <= t
            &&& (ready <= t && !persist ==> !has_key(ticked(s, t), key))
            &&& (ready <= t && persist ==> ticked(s, t) == ticked(entries, t).push(
                TimerEntryView { ready: sat_add(t, e.interval), ..e },
            ))
            &&& (ready > t ==> ticked(s, t) == ticked(entries, t).push(e))
        }),
{
    let s = scheduled(entries, key, secs, persist, now);
    assert(s.drop_last() =~= entries);
    let ready = now + secs * NANOS_PER_SEC;
    if ready_keys(entries, t).contains(key) {
        lemma_ready_keys_scheduled(entries, t, key);
    }
    if ready <= t {
        let r = ready_keys(s, t);
        assert(r == ready_keys(entries, t).push(key));
        assert(r[r.len() - 1] == key);
        if !persist && has_key(ticked(s, t), key) {
            assert(ticked(s, t) == ticked(entries, t));
            lemma_ticked_keys(entries, t, key);
        }
    } else {
        assert(ready_keys(s, t) == ready_keys(entries, t));
    }
}

/// Scheduling a key that is already scheduled changes nothing: scheduling twice is scheduling
/// once.
pub proof fn lemma_schedule_idempotent(
    entries: Seq<TimerEntryView>,
    key: u64,
    secs: u64,
    persist: bool,
    now: u128,
    secs2: u64,
    persist2: bool,
    now2: u128,
)
    ensures
        has_key(entries, key) ==> scheduled(entries, key, secs, persist, now) == entries,
        scheduled(scheduled(entries, key, secs, persist, now), key, secs2, persist2, now2) == scheduled(entries, key, secs, persist, now),
{
    let s = scheduled(entries, key, secs, persist, now);
    if !has_key(entries, key) {
        assert(s[s.len() - 1].key == key);
    }
}

/// After a tick at `now`, no entry that does not repeat is still ready, and no entry was added.
pub proof fn lemma_ticked(entries: Seq<TimerEntryView>, now: u128)
    ensures
        ticked(entries, now).len() <= entries.len(),
        forall|i: int| 0 <= i < ticked(entries, now).len() && (#[trigger] ticked(entries, now)[i]).ready <= now ==> ticked(entries, now)[i].persist,
    decreases entries.len(),
{
    if entries.len() > 0 {
        lemma_ticked(entries.drop_last(), now);
        let prev = ticked(entries.drop_last(), now);
        let t = ticked(entries, now);
        assert forall|i: int| 0 <= i < t.len() && (#[trigger] t[i]).ready <= now implies t[i].persist by {
            if i < prev.len() {
                assert(t[i] == prev[i]);
            }
        }
    }
}

/// Schedules actions to happen after an interval. Call `tick` to update the timer.
pub struct TickTimer {
    entries: Vec<TimerEntry>,
}

impl View for TickTimer {
    type V = Seq<TimerEntryView>;

    closed spec fn view(&self) -> Seq<TimerEntryView> {
        self.entries@.map_values(|e: TimerEntry| e@)
    }
}

impl TickTimer {
    /// A timer with nothing scheduled.
    pub fn new() -> (r: Self)
        ensures
            r@ == Seq::<TimerEntryView>::empty(),
    {
        let r = TickTimer { entries: Vec::new() };
        assert(r@ =~= Seq::<TimerEntryView>::empty());
        r
    }

    /// Schedules `key` to be ready `interval_in_seconds` after `now`, if it is not scheduled
    /// already.
    /// * `persist` - whether the key is scheduled again each time it is ready.
    pub fn schedule(&mut self, key: u64, interval_in_seconds: u64, persist: bool, now: u128)
        requires
            now + interval_in_seconds * NANOS_PER_SEC <= u128::MAX,
        ensures
            final(self)@ == scheduled(old(self)@, key, interval_in_seconds, persist, now),
    {
        let mut i: usize = 0;
        while i < self.entries.len()
            invariant
                0 <= i <= self@.len(),
                self@ == old(self)@,
                forall|j: int| 0 <= j < i ==> self@[j].key != key,
            decreases self@.len() - i,
        {
            if self.entries[i].key == key {
                assert(self@[i as int].key == key);
                return;
            }
            i = i + 1;
        }
        let interval = (interval_in_seconds as u128) * NANOS_PER_SEC;
        let e = TimerEntry { key, ready: now + interval, interval, persist };
        self.entries.push(e);
        assert(self@ =~= old(self)@.push(e@));
    }

    /// The keys that are ready at `now`, in the order they were scheduled.
    pub fn ready(&self, now: u128) -> (r: Vec<u64>)
        ensures
            r@ == ready_keys(self@, now),
    {
        let mut r: Vec<u64> = Vec::new();
        let mut i: usize = 0;
        while i < self.entries.len()
            invariant
                0 <= i <= self@.len(),
                r@ == ready_keys(self@.subrange(0, i as int), now),
            decreases self@.len() - i,
        {
            assert(self@.subrange(0, i + 1).drop_last() =~= self@.subrange(0, i as int));
            if self.entries[i].ready <= now {
                r.push(self.entries[i].key);
            }
            i = i + 1;
        }
        assert(self@.subrange(0, i as int) =~= self@);
        r
    }

    /// Drops the ready actions that do not repeat, and reschedules the ready actions that do.
    pub fn tick(&mut self, now: u128)
        ensures
            final(self)@ == ticked(old(self)@, now),
    {
        let mut kept: Vec<TimerEntry> = Vec::new();
        let mut i: usize = 0;
        while i < self.entries.len()
            invariant
                0 <= i <= self@.len(),
                self@ == old(self)@,
                kept@.map_values(|e: TimerEntry| e@) == ticked(self@.subrange(0, i as int), now),
            decreases self@.len() - i,
        {
            assert(self@.subrange(0, i + 1).drop_last() =~= self@.subrange(0, i as int));
            let e = self.entries[i];
            let ghost k0 = kept@;
            if e.ready > now {
                kept.push(e);
                assert(kept@.map_values(|e: TimerEntry| e@) =~= k0.map_values(|e: TimerEntry| e@).push(e@));
            } else if e.persist {
                let e2 = TimerEntry { ready: now.saturating_add(e.interval), ..e };
                kept.push(e2);
                assert(kept@.map_values(|e: TimerEntry| e@) =~= k0.map_values(|e: TimerEntry| e@).push(e2@));
            }
            i = i + 1;
        }
        assert(self@.subrange(0, i as int) =~= self@);
        self.entries = kept;
    }
}

} // verus!
