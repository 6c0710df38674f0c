use std::backtrace::Backtrace;
use std::sync::atomic::{AtomicU32, AtomicU64, AtomicUsize, Ordering};
use std::time::Instant;

use vstd::multiset::Multiset;
use vstd::prelude::*;

use crate::event::{kind_tag, Event, EventBacktrace, EventId, Events, Leave, LockId, LockKind, LOCK_ID_MASK};

verus! {

/// The value of the baseline while capture is off.
pub const IDLE: u64 = 0xFFFF_FFFF_FFFF_FFFF;

/// Initial event capacity of each shard.
const CAPACITY: usize = 8192;

#[verifier::external_type_specification]
#[verifier::external_body]
pub struct ExInstant(Instant);

#[verifier::external_type_specification]
#[verifier::external_body]
pub struct ExBacktrace(Backtrace);

#[verifier::external_type_specification]
#[verifier::external_body]
#[verifier::reject_recursive_types(R)]
#[verifier::reject_recursive_types(T)]
pub struct ExMutex<R, T: ?Sized>(parking_lot::lock_api::Mutex<R, T>);

#[verifier::external_type_specification]
#[verifier::external_body]
pub struct ExRawMutex(parking_lot::RawMutex);

/// Relies on `Instant::now`: the current instant. Nothing is known of it.
#[verifier::external_body]
fn now() -> Instant {
    Instant::now()
}

/// Relies on `Instant::elapsed`: the nanoseconds since `start`, cut to 64 bits.
/// Nothing is known of the value.
#[verifier::external_body]
fn elapsed_nanos(start: &Instant) -> u64 {
    start.elapsed().as_nanos() as u64
}

/// Relies on `num_cpus::get`: the number of logical cores available.
#[verifier::external_body]
fn available_cpus() -> usize {
    num_cpus::get()
}

/// Relies on `parking_lot::Mutex::new`: a mutex around the given storage.
#[verifier::external_body]
fn new_shard(storage: ThreadStorage) -> parking_lot::Mutex<ThreadStorage> {
    parking_lot::Mutex::new(storage)
}

/// Relies on `parking_lot::Mutex::lock`: appends an enter record while the
/// shard is locked.
#[verifier::external_body]
fn push_enter(shard: &parking_lot::Mutex<ThreadStorage>, event: Event) {
    shard.lock().enters.push(event)
}

/// Relies on `parking_lot::Mutex::lock`: appends a leave record while the
/// shard is locked.
#[verifier::external_body]
fn push_leave(shard: &parking_lot::Mutex<ThreadStorage>, leave: Leave) {
    shard.lock().leaves.push(leave)
}

/// Relies on `parking_lot::Mutex::lock`: takes every record out of the shard
/// while it is locked, leaving it empty. Other threads may have appended to
/// it at any time before, so nothing is known of what comes out.
#[verifier::external_body]
fn take_shard(shard: &parking_lot::Mutex<ThreadStorage>) -> ThreadStorage {
    let mut guard = shard.lock();
    ThreadStorage {
        enters: std::mem::take(&mut guard.enters),
        leaves: std::mem::take(&mut guard.leaves),
    }
}

/// Relies on `Backtrace::capture`: a backtrace of the caller, captured only
/// where the environment asks for backtraces.
#[verifier::external_body]
fn capture_backtrace() -> Backtrace {
    Backtrace::capture()
}

/// Relies on `Backtrace::status`: whether a backtrace was captured.
#[verifier::external_body]
fn backtrace_captured(backtrace: &Backtrace) -> bool {
    matches!(backtrace.status(), std::backtrace::BacktraceStatus::Captured)
}

/// Relies on the `Display` of `Backtrace`: the backtrace as text.
#[verifier::external_body]
fn backtrace_text(backtrace: &Backtrace) -> String {
    backtrace.to_string()
}

/// Ids ordered as drained: never decreasing.
pub open spec fn enters_sorted(s: Seq<Event>) -> bool {
    forall|i: int, j: int| 0 <= i < j < s.len() ==> s[i].id.0 <= s[j].id.0
}

/// Ids strictly increasing.
pub open spec fn enters_strictly_sorted(s: Seq<Event>) -> bool {
    forall|i: int, j: int| 0 <= i < j < s.len() ==> s[i].id.0 < s[j].id.0
}

/// Siblings ordered as drained: never decreasing.
pub open spec fn leaves_sorted(s: Seq<Leave>) -> bool {
    forall|i: int, j: int| 0 <= i < j < s.len() ==> s[i].sibling.0 <= s[j].sibling.0
}

/// Relies on `slice::sort_by_key`: a stable sort of the events by id.
#[verifier::external_body]
fn sort_enters(v: &mut Vec<Event>)
    ensures
        final(v)@.to_multiset() == old(v)@.to_multiset(),
        enters_sorted(final(v)@),
{
    v.sort_by_key(|e| e.id.0)
}

/// Relies on `slice::sort_by_key`: a stable sort of the leaves by sibling.
#[verifier::external_body]
fn sort_leaves(v: &mut Vec<Leave>)
    ensures
        final(v)@.to_multiset() == old(v)@.to_multiset(),
        leaves_sorted(final(v)@),
{
    v.sort_by_key(|l| l.sibling.0)
}


/// The records of one shard.
pub struct ThreadStorage {
    pub enters: Vec<Event>,
    pub leaves: Vec<Leave>,
}

impl ThreadStorage {
    /// An empty storage.
    pub fn new() -> (r: ThreadStorage)
        ensures
            r.enters@.len() == 0,
            r.leaves@.len() == 0,
    {
        ThreadStorage { enters: Vec::with_capacity(CAPACITY), leaves: Vec::with_capacity(CAPACITY) }
    }
}

/// The shard that a slot writes into.
pub fn shard_index(slot: usize, shard_count: usize) -> (r: usize)
    requires
        shard_count > 0,
    ensures
        r == slot % shard_count,
        r < shard_count,
{
    slot % shard_count
}

/// A baseline to store when capture starts at `elapsed`: the elapsed time
/// itself, kept apart from the idle marker.
pub fn baseline_for(elapsed: u64) -> (r: u64)
    ensures
        r != IDLE,
        elapsed != IDLE ==> r == elapsed,
        elapsed == IDLE ==> r == IDLE - 1,
{
    if elapsed == IDLE {
        IDLE - 1
    } else {
        elapsed
    }
}

/// The lock identifier made of a raw counter value, where the value can be an
/// index.
pub fn lock_id_from_counter(kind: LockKind, raw: u32) -> (r: Option<LockId>)
    ensures
        r.is_some() == (1 <= raw <= LOCK_ID_MASK),
        r matches Some(id) ==> id.spec_kind() == kind && id.spec_index() == raw && id.spec_raw() == (
        kind_tag(kind) << 30u32) | raw,
{
    if raw >= 1 && raw <= LOCK_ID_MASK {
        Some(LockId::new(kind, raw))
    } else {
        None
    }
}

/// The event identifier made of a raw counter value, where the value is not
/// zero (zero comes back only once the counter wrapped).
pub fn event_id_from_counter(raw: usize) -> (r: Option<EventId>)
    ensures
        r.is_some() == (raw != 0),
        r matches Some(id) ==> id.0 == raw,
{
    if raw != 0 {
        Some(EventId(raw))
    } else {
        None
    }
}

impl EventBacktrace {
    /// The text of a backtrace, where one was captured.
    pub fn from_capture(backtrace: Backtrace) -> (r: Option<EventBacktrace>) {
        if backtrace_captured(&backtrace) {
            Some(EventBacktrace(backtrace_text(&backtrace)))
        } else {
            None
        }
    }
}

/// The event identifiers are used up: the process issued more events than
/// the counter can number.
#[derive(Clone, Copy, Debug, PartialEq, Eq, Structural)]
pub struct EventIdsExhausted;

/// Whether a stored baseline means that capture is on.
pub fn capturing_at(adjust: u64) -> (r: bool)
    ensures
        r == (adjust != IDLE),
{
    adjust != IDLE
}

/// The leave record that leaving `sibling` on the thread of `slot` at
/// `timestamp` makes: one exactly where `sibling` is `Some` and capture is
/// on.
pub fn leave_record(sibling: Option<EventId>, capturing: bool, slot: usize, timestamp: u64) -> (r:
    Option<Leave>)
    ensures
        r is Some <==> (sibling is Some && capturing),
        r matches Some(l) ==> sibling == Some(l.sibling) && l.thread_index == slot && l.timestamp
            == timestamp,
{
    match sibling {
        Some(sibling) => {
            if capturing {
                Some(Leave { sibling, thread_index: slot, timestamp })
            } else {
                None
            }
        },
        None => None,
    }
}

/// A drained collection made of what the shards held: every record, its
/// timestamp moved back by the baseline, enters ordered by id and leaves by
/// sibling.
pub open spec fn drained_from(enters: Seq<Event>, leaves: Seq<Leave>, shards: Seq<ThreadStorage>, adjust: u64) -> bool {
    &&& enters.to_multiset() == shard_enters(shards, adjust)
    &&& leaves.to_multiset() == shard_leaves(shards, adjust)
    &&& enters_sorted(enters)
    &&& leaves_sorted(leaves)
}

/// Enable capture on `cx`, and reset the timestamps of the capture to start
/// now.
pub fn capture(cx: &TracingContext) {
    cx.capture();
}

/// Disable capture on `cx` and drain its current collection of events.
pub fn drain(cx: &TracingContext) -> (r: Events)
    ensures
        enters_sorted(r.enters@),
        leaves_sorted(r.leaves@),
        (r.enters@.len() == 0 && r.leaves@.len() == 0) || exists|shards: Seq<ThreadStorage>, adjust: u64|
            adjust != IDLE && shards.len() == cx.spec_shard_count() && drained_from(
                r.enters@,
                r.leaves@,
                shards,
                adjust,
            ),
{
    cx.drain()
}

/// An enter record made of its fields.
pub fn new_event(
    id: EventId,
    timestamp: u64,
    thread_index: usize,
    parent: Option<EventId>,
    name: &str,
    guarded_type: &str,
    lock: LockId,
    backtrace: Option<EventBacktrace>,
) -> (r: Event)
    ensures
        r.id == id,
        r.timestamp == timestamp,
        r.thread_index == thread_index,
        r.parent == parent,
        r.name@ == name@,
        r.guarded_type@ == guarded_type@,
        r.lock == lock,
        r.backtrace == backtrace,
{
    Event {
        id,
        timestamp,
        thread_index,
        parent,
        name: String::from_str(name),
        guarded_type: String::from_str(guarded_type),
        lock,
        backtrace,
    }
}

/// A context capturing tracing events.
///
/// Records go into shards, one chosen by the slot of the recording thread,
/// so that unrelated threads seldom wait on each other.
pub struct TracingContext {
    storage: Vec<parking_lot::Mutex<ThreadStorage>>,
    /// The instant tracing was started.
    start: Instant,
    /// While capturing, the elapsed nanoseconds at which capture was last
    /// enabled; `IDLE` otherwise.
    adjust: AtomicU64,
    /// The next event identifier.
    event_ids: AtomicUsize,
    /// The next lock index.
    lock_ids: AtomicU32,
    /// The next thread slot.
    slots: AtomicUsize,
}

impl TracingContext {
    #[verifier::type_invariant]
    spec fn inv(self) -> bool {
        self.storage@.len() > 0
    }

    /// The number of shards.
    pub closed spec fn spec_shard_count(&self) -> nat {
        self.storage@.len()
    }

    /// Create a new tracing context with `threads` shards (at least one).
    pub fn new(threads: usize) -> (r: TracingContext)
        ensures
            r.spec_shard_count() == if threads == 0 { 1 } else { threads as nat },
    {
        let count = if threads == 0 { 1 } else { threads };
        let mut storage: Vec<parking_lot::Mutex<ThreadStorage>> = Vec::with_capacity(count);
        let mut i: usize = 0;
        while i < count
            invariant
                i <= count,
                storage@.len() == i,
            decreases count - i,
        {
            storage.push(new_shard(ThreadStorage::new()));
            i = i + 1;
        }
        TracingContext {
            storage,
            start: now(),
            adjust: AtomicU64::new(IDLE),
            event_ids: AtomicUsize::new(1),
            lock_ids: AtomicU32::new(1),
            slots: AtomicUsize::new(0),
        }
    }

    /// Create a new tracing context with one shard per available core.
    pub fn detect() -> (r: TracingContext)
        ensures
            r.spec_shard_count() > 0,
    {
        let r = TracingContext::new(available_cpus());
        r
    }

    /// The number of shards.
    pub fn shard_count(&self) -> (r: usize)
        ensures
            r == self.spec_shard_count(),
            r > 0,
    {
        proof {
            use_type_invariant(self);
        }
        self.storage.len()
    }

    /// Enable capture, and reset the baseline that drained timestamps are
    /// relative to. Enabling again while capturing moves the baseline.
    pub fn capture(&self) {
        let elapsed = elapsed_nanos(&self.start);
        self.adjust.store(baseline_for(elapsed), Ordering::Release);
    }

    /// Whether capture is enabled.
    pub fn is_capturing(&self) -> bool {
        capturing_at(self.adjust.load(Ordering::Acquire))
    }

    /// A new slot for a thread to record under; each call gives the next.
    pub fn next_slot(&self) -> usize {
        self.slots.fetch_add(1, Ordering::Relaxed)
    }

    /// Allocate a new unique lock identifier of the given kind, or `None`
    /// once the thirty bits of the index are used up.
    pub fn next_lock_id(&self, kind: LockKind) -> (r: Option<LockId>)
        ensures
            r matches Some(id) ==> id.spec_kind() == kind,
    {
        let raw = self.lock_ids.fetch_add(1, Ordering::Relaxed);
        lock_id_from_counter(kind, raw)
    }

    /// Append an enter record to the shard of `slot`.
    fn record_enter(&self, slot: usize, event: Event) {
        proof {
            use_type_invariant(self);
        }
        let index = shard_index(slot, self.storage.len());
        push_enter(&self.storage[index], event);
    }

    /// Append a leave record to the shard of `slot`.
    fn record_leave(&self, slot: usize, leave: Leave) {
        proof {
            use_type_invariant(self);
        }
        let index = shard_index(slot, self.storage.len());
        push_leave(&self.storage[index], leave);
    }

    /// Enter a span of `lock` on the thread of `slot`, as `enter_at` does
    /// with the baseline stored now.
    pub fn enter(
        &self,
        slot: usize,
        lock: LockId,
        name: &str,
        guarded_type: &str,
        parent: Option<EventId>,
    ) -> (r: Result<Option<EventId>, EventIdsExhausted>)
        ensures
            r matches Ok(Some(id)) ==> id.0 != 0,
    {
        let adjust = self.adjust.load(Ordering::Acquire);
        self.enter_at(adjust, slot, lock, name, guarded_type, parent)
    }

    /// Enter a span of `lock` on the thread of `slot`, given the stored
    /// baseline `adjust`.
    ///
    /// While capture is off: `Ok(None)`, with no identifier allocated and
    /// nothing recorded. Otherwise a new identifier is allocated and the
    /// enter record `new_event` makes of it and the arguments (with the
    /// current timestamp and a backtrace where one is captured) is appended
    /// to the shard `shard_index(slot, shard count)`, and the identifier is
    /// returned; or, once the identifiers are used up, an error.
    pub fn enter_at(
        &self,
        adjust: u64,
        slot: usize,
        lock: LockId,
        name: &str,
        guarded_type: &str,
        parent: Option<EventId>,
    ) -> (r: Result<Option<EventId>, EventIdsExhausted>)
        ensures
            adjust == IDLE ==> r == Ok::<Option<EventId>, EventIdsExhausted>(None),
            adjust != IDLE ==> (r is Err || (r matches Ok(Some(id)) && id.0 != 0)),
    {
        if !capturing_at(adjust) {
            return Ok(None);
        }
        let id = match self.next_event_id() {
            Some(id) => id,
            None => return Err(EventIdsExhausted),
        };
        let backtrace = EventBacktrace::from_capture(capture_backtrace());
        let event = new_event(
            id,
            elapsed_nanos(&self.start),
            slot,
            parent,
            name,
            guarded_type,
            lock,
            backtrace,
        );
        self.record_enter(slot, event);
        Ok(Some(id))
    }

    /// Leave the span that `enter` opened as `sibling`, on the thread of
    /// `slot`, as `leave_at` does with the baseline stored now.
    pub fn leave(&self, slot: usize, sibling: Option<EventId>) {
        let adjust = self.adjust.load(Ordering::Acquire);
        self.leave_at(adjust, slot, sibling);
    }

    /// Leave the span that `enter` opened as `sibling`, given the stored
    /// baseline `adjust`: appends the record `leave_record` makes, with the
    /// current timestamp, to the shard `shard_index(slot, shard count)`.
    /// Returns whether a record was appended: exactly where `sibling` is
    /// `Some` and capture is on.
    pub fn leave_at(&self, adjust: u64, slot: usize, sibling: Option<EventId>) -> (r: bool)
        ensures
            r == (sibling is Some && adjust != IDLE),
    {
        let capturing = capturing_at(adjust);
        if sibling.is_none() || !capturing {
            return false;
        }
        let timestamp = elapsed_nanos(&self.start);
        match leave_record(sibling, capturing, slot, timestamp) {
            Some(leave) => {
                self.record_leave(slot, leave);
                true
            },
            None => false,
        }
    }

    /// Record a span named `name` around the call of `f`, as
    /// `with_instrumentation_at` does with the baseline stored now.
    pub fn with_instrumentation<T, F: FnOnce() -> T>(
        &self,
        slot: usize,
        lock: LockId,
        name: &str,
        guarded_type: &str,
        parent: Option<EventId>,
        f: F,
    ) -> (r: Result<T, EventIdsExhausted>)
        requires
            f.requires(()),
        ensures
            r matches Ok(v) ==> f.ensures((), v),
    {
        let adjust = self.adjust.load(Ordering::Acquire);
        self.with_instrumentation_at(adjust, slot, lock, name, guarded_type, parent, f)
    }

    /// Record a span named `name` around the call of `f`, given the stored
    /// baseline `adjust`, and return what `f` returned. The span is entered
    /// as `enter_at` does; where that gave an identifier, its leave record is
    /// appended as soon as `f` returns, whether or not capture is still on.
    /// While capture is off, `f` is called and nothing is recorded. Where the
    /// identifiers are used up, `f` is not called and the error is returned.
    pub fn with_instrumentation_at<T, F: FnOnce() -> T>(
        &self,
        adjust: u64,
        slot: usize,
        lock: LockId,
        name: &str,
        guarded_type: &str,
        parent: Option<EventId>,
        f: F,
    ) -> (r: Result<T, EventIdsExhausted>)
        requires
            f.requires(()),
        ensures
            adjust == IDLE ==> r is Ok,
            r matches Ok(v) ==> f.ensures((), v),
    {
        let id = match self.enter_at(adjust, slot, lock, name, guarded_type, parent) {
            Ok(id) => id,
            Err(e) => return Err(e),
        };
        let result = f();
        if let Some(sibling) = id {
            let timestamp = elapsed_nanos(&self.start);
            self.record_leave(slot, Leave { sibling, thread_index: slot, timestamp });
        }
        Ok(result)
    }

    /// The recording side of one acquisition of a lock, as `acquire_at`
    /// does with the baseline stored now.
    pub fn acquire<T, F: FnOnce() -> T>(
        &self,
        slot: usize,
        lock: LockId,
        name: &str,
        guarded_type: &str,
        f: F,
    ) -> (r: Result<(T, Option<EventId>), EventIdsExhausted>)
        requires
            f.requires(()),
        ensures
            r matches Ok((v, critical)) ==> f.ensures((), v) && (critical matches Some(id) ==> id.0
                != 0),
    {
        let adjust = self.adjust.load(Ordering::Acquire);
        self.acquire_at(adjust, slot, lock, name, guarded_type, f)
    }

    /// The recording side of one acquisition of a lock, given the stored
    /// baseline `adjust`: enter a `critical` span, then record a span named
    /// `name` (nested under it) around `f`, which acquires the lock. Returns
    /// what `f` returned and the identifier of the critical span, which the
    /// guard passes to `leave` when it is released. While capture is off,
    /// nothing is recorded and there is no identifier.
    pub fn acquire_at<T, F: FnOnce() -> T>(
        &self,
        adjust: u64,
        slot: usize,
        lock: LockId,
        name: &str,
        guarded_type: &str,
        f: F,
    ) -> (r: Result<(T, Option<EventId>), EventIdsExhausted>)
        requires
            f.requires(()),
        ensures
            adjust == IDLE ==> (r matches Ok((_, critical)) && critical is None),
            r matches Ok((v, critical)) ==> f.ensures((), v) && (critical matches Some(id) ==> id.0
                != 0),
    {
        let critical = match self.enter_at(adjust, slot, lock, "critical", guarded_type, None) {
            Ok(id) => id,
            Err(e) => return Err(e),
        };
        match self.with_instrumentation_at(adjust, slot, lock, name, guarded_type, critical, f) {
            Ok(value) => Ok((value, critical)),
            Err(e) => Err(e),
        }
    }

    /// Disable capture and drain the current collection of events, as
    /// `drain_from` does with the baseline that was stored until now.
    ///
    /// Records made while this runs may or may not be in the result.
    pub fn drain(&self) -> (r: Events)
        ensures
            enters_sorted(r.enters@),
            leaves_sorted(r.leaves@),
            (r.enters@.len() == 0 && r.leaves@.len() == 0) || exists|shards: Seq<ThreadStorage>, adjust: u64|
                adjust != IDLE && shards.len() == self.spec_shard_count() && drained_from(
                    r.enters@,
                    r.leaves@,
                    shards,
                    adjust,
                ),
    {
        let adjust = self.adjust.swap(IDLE, Ordering::AcqRel);
        self.drain_from(adjust)
    }

    /// Take the records out of every shard and collect them against the
    /// baseline `adjust` that capture was enabled with. Empty where `adjust`
    /// says capture was off, in which case no shard is touched. Otherwise
    /// the result is what `collect` makes of what the shards held.
    pub fn drain_from(&self, adjust: u64) -> (r: Events)
        ensures
            adjust == IDLE ==> r.enters@.len() == 0 && r.leaves@.len() == 0,
            adjust != IDLE ==> exists|shards: Seq<ThreadStorage>|
                shards.len() == self.spec_shard_count() && #[trigger] drained_from(
                    r.enters@,
                    r.leaves@,
                    shards,
                    adjust,
                ),
            enters_sorted(r.enters@),
            leaves_sorted(r.leaves@),
    {
        proof {
            use_type_invariant(self);
        }
        if adjust == IDLE {
            return Events::new();
        }
        let mut shards: Vec<ThreadStorage> = Vec::with_capacity(self.storage.len());
        let mut i: usize = 0;
        while i < self.storage.len()
            invariant
                i <= self.storage@.len(),
                shards@.len() == i,
            decreases self.storage@.len() - i,
        {
            shards.push(take_shard(&self.storage[i]));
            i = i + 1;
        }
        let ghost taken = shards@;
        let r = collect(shards, adjust);
        assert(drained_from(r.enters@, r.leaves@, taken, adjust));
        r
    }

    /// Allocate a new unique event identifier, or `None` once the counter is
    /// used up.
    fn next_event_id(&self) -> (r: Option<EventId>)
        ensures
            r matches Some(id) ==> id.0 != 0,
    {
        let raw = self.event_ids.fetch_add(1, Ordering::Relaxed);
        event_id_from_counter(raw)
    }
}

/// An enter record with its timestamp moved back by the baseline (to zero
/// where it lies before the baseline).
pub open spec fn shifted_enter(e: Event, adjust: u64) -> Event {
    Event { timestamp: if e.timestamp >= adjust { (e.timestamp - adjust) as u64 } else { 0 }, ..e }
}

/// A leave record with its timestamp moved back by the baseline (to zero
/// where it lies before the baseline).
pub open spec fn shifted_leave(l: Leave, adjust: u64) -> Leave {
    Leave { timestamp: if l.timestamp >= adjust { (l.timestamp - adjust) as u64 } else { 0 }, ..l }
}

/// Enter records, each shifted by the baseline.
pub open spec fn shifted_enters(s: Seq<Event>, adjust: u64) -> Seq<Event> {
    s.map_values(|e: Event| shifted_enter(e, adjust))
}

/// Leave records, each shifted by the baseline.
pub open spec fn shifted_leaves(s: Seq<Leave>, adjust: u64) -> Seq<Leave> {
    s.map_values(|l: Leave| shifted_leave(l, adjust))
}

/// Every enter record of the shards, shifted by the baseline.
pub open spec fn shard_enters(shards: Seq<ThreadStorage>, adjust: u64) -> Multiset<Event>
    decreases shards.len(),
{
    if shards.len() == 0 {
        Multiset::empty()
    } else {
        shard_enters(shards.drop_last(), adjust).add(
            shifted_enters(shards.last().enters@, adjust).to_multiset(),
        )
    }
}

/// Every leave record of the shards, shifted by the baseline.
pub open spec fn shard_leaves(shards: Seq<ThreadStorage>, adjust: u64) -> Multiset<Leave>
    decreases shards.len(),
{
    if shards.len() == 0 {
        Multiset::empty()
    } else {
        shard_leaves(shards.drop_last(), adjust).add(
            shifted_leaves(shards.last().leaves@, adjust).to_multiset(),
        )
    }
}

proof fn lemma_shifted_enters_pop(s: Seq<Event>, adjust: u64)
    requires
        s.len() > 0,
    ensures
        shifted_enters(s, adjust).to_multiset() =~= shifted_enters(s.drop_last(), adjust).to_multiset().insert(
            shifted_enter(s.last(), adjust),
        ),
{
    broadcast use vstd::seq_lib::group_to_multiset_ensures;

    assert(shifted_enters(s, adjust) =~= shifted_enters(s.drop_last(), adjust).push(
        shifted_enter(s.last(), adjust),
    ));
}

proof fn lemma_shifted_leaves_pop(s: Seq<Leave>, adjust: u64)
    requires
        s.len() > 0,
    ensures
        shifted_leaves(s, adjust).to_multiset() =~= shifted_leaves(s.drop_last(), adjust).to_multiset().insert(
            shifted_leave(s.last(), adjust),
        ),
{
    broadcast use vstd::seq_lib::group_to_multiset_ensures;

    assert(shifted_leaves(s, adjust) =~= shifted_leaves(s.drop_last(), adjust).push(
        shifted_leave(s.last(), adjust),
    ));
}

fn shift_enter(e: Event, adjust: u64) -> (r: Event)
    ensures
        r == shifted_enter(e, adjust),
{
    let mut e = e;
    e.timestamp = if e.timestamp >= adjust { e.timestamp - adjust } else { 0 };
    e
}

fn shift_leave(l: Leave, adjust: u64) -> (r: Leave)
    ensures
        r == shifted_leave(l, adjust),
{
    let mut l = l;
    l.timestamp = if l.timestamp >= adjust { l.timestamp - adjust } else { 0 };
    l
}

/// Combine the records taken out of the shards into one collection: every
/// timestamp moved back by the baseline `adjust` (to zero where it lies
/// before it), enters ordered by id and leaves by sibling.
pub fn collect(shards: Vec<ThreadStorage>, adjust: u64) -> (r: Events)
    ensures
        r.enters@.to_multiset() == shard_enters(shards@, adjust),
        r.leaves@.to_multiset() == shard_leaves(shards@, adjust),
        enters_sorted(r.enters@),
        leaves_sorted(r.leaves@),
{
    broadcast use vstd::seq_lib::group_to_multiset_ensures;
    broadcast use vstd::multiset::group_multiset_axioms;

    let ghost all_enters = shard_enters(shards@, adjust);
    let ghost all_leaves = shard_leaves(shards@, adjust);
    let mut shards = shards;
    let mut events = Events::new();
    proof {
        vstd::multiset::lemma_multiset_empty_len(events.enters@.to_multiset());
        vstd::multiset::lemma_multiset_empty_len(events.leaves@.to_multiset());
    }
    while shards.len() > 0
        invariant
            events.enters@.to_multiset().add(shard_enters(shards@, adjust)) =~= all_enters,
            events.leaves@.to_multiset().add(shard_leaves(shards@, adjust)) =~= all_leaves,
        decreases shards.len(),
    {
        let ghost before = shards@;
        let mut shard = match shards.pop() {
            Some(shard) => shard,
            None => ThreadStorage::new(),
        };
        assert(shards@ == before.drop_last());
        let ghost enters_before = events.enters@.to_multiset();
        let ghost leaves_before = events.leaves@.to_multiset();
        assert(enters_before.add(shard_enters(before, adjust)) =~= all_enters);
        assert(leaves_before.add(shard_leaves(before, adjust)) =~= all_leaves);
        let ghost own_enters = shifted_enters(shard.enters@, adjust).to_multiset();
        let ghost own_leaves = shifted_leaves(shard.leaves@, adjust).to_multiset();
        let ghost leaves_seq = events.leaves@;
        let ghost shard_leaves_seq = shard.leaves@;
        let ghost rest = shards@;
        while shard.enters.len() > 0
            invariant
                events.leaves@ == leaves_seq,
                shard.leaves@ == shard_leaves_seq,
                events.enters@.to_multiset().add(shifted_enters(shard.enters@, adjust).to_multiset())
                    =~= enters_before.add(own_enters),
            decreases shard.enters.len(),
        {
            proof {
                lemma_shifted_enters_pop(shard.enters@, adjust);
            }
            let ghost ev_before = events.enters@;
            let ghost sh_before = shard.enters@;
            if let Some(e) = shard.enters.pop() {
                events.enters.push(shift_enter(e, adjust));
                assert(events.enters@ == ev_before.push(shifted_enter(sh_before.last(), adjust)));
                proof {
                    vstd::seq_lib::to_multiset_build(ev_before, shifted_enter(sh_before.last(), adjust));
                }
            }
        }
        assert(shifted_enters(shard.enters@, adjust) =~= Seq::empty());
        proof {
            let m = shifted_enters(shard.enters@, adjust).to_multiset();
            vstd::seq_lib::to_multiset_len(shifted_enters(shard.enters@, adjust));
            assert(m.len() == 0);
            vstd::multiset::lemma_multiset_empty_len(m);
            assert(m =~= Multiset::empty());
            assert(events.enters@.to_multiset().add(m) =~= events.enters@.to_multiset());
        }
        assert(events.enters@.to_multiset() =~= enters_before.add(own_enters));
        let ghost enters_seq = events.enters@;
        while shard.leaves.len() > 0
            invariant
                events.enters@ == enters_seq,
                shard.enters@.len() == 0,
                events.leaves@.to_multiset().add(shifted_leaves(shard.leaves@, adjust).to_multiset())
                    =~= leaves_before.add(own_leaves),
            decreases shard.leaves.len(),
        {
            proof {
                lemma_shifted_leaves_pop(shard.leaves@, adjust);
            }
            let ghost ev_before = events.leaves@;
            let ghost sh_before = shard.leaves@;
            if let Some(l) = shard.leaves.pop() {
                events.leaves.push(shift_leave(l, adjust));
                assert(events.leaves@ == ev_before.push(shifted_leave(sh_before.last(), adjust)));
                proof {
                    vstd::seq_lib::to_multiset_build(ev_before, shifted_leave(sh_before.last(), adjust));
                }
            }
        }
        assert(shifted_leaves(shard.leaves@, adjust) =~= Seq::empty());
        proof {
            let m = shifted_leaves(shard.leaves@, adjust).to_multiset();
            vstd::seq_lib::to_multiset_len(shifted_leaves(shard.leaves@, adjust));
            assert(m.len() == 0);
            vstd::multiset::lemma_multiset_empty_len(m);
            assert(m =~= Multiset::empty());
            assert(events.leaves@.to_multiset().add(m) =~= events.leaves@.to_multiset());
        }
        assert(shard_enters(before, adjust) == shard_enters(rest, adjust).add(own_enters));
        assert(shard_leaves(before, adjust) == shard_leaves(rest, adjust).add(own_leaves));
        assert(events.leaves@.to_multiset() =~= leaves_before.add(own_leaves));
    }
    assert(shard_enters(shards@, adjust) =~= Multiset::empty());
    assert(shard_leaves(shards@, adjust) =~= Multiset::empty());
    sort_enters(&mut events.enters);
    sort_leaves(&mut events.leaves);
    events
}

/// No two records share an identifier, and no record occurs twice.
pub open spec fn ids_unique(records: Multiset<Event>) -> bool {
    &&& forall|a: Event| #[trigger] records.contains(a) ==> records.count(a) == 1
    &&& forall|a: Event, b: Event|
        #[trigger] records.contains(a) && #[trigger] records.contains(b) && a.id == b.id ==> a == b
}

/// Where every event recorded in the shards has an identifier of its own, as
/// the identifier allocator hands out each one once, the enters of a drain,
/// ordered by id, have strictly increasing ids.
pub proof fn lemma_drained_ids_strictly_increase(
    shards: Seq<ThreadStorage>,
    adjust: u64,
    drained: Seq<Event>,
)
    requires
        ids_unique(shard_enters(shards, adjust)),
        drained.to_multiset() == shard_enters(shards, adjust),
        enters_sorted(drained),
    ensures
        enters_strictly_sorted(drained),
{
    broadcast use vstd::seq_lib::group_to_multiset_ensures;

    let m = shard_enters(shards, adjust);
    drained.lemma_multiset_has_no_duplicates_conv();
    assert forall|i: int, j: int| 0 <= i < j < drained.len() implies drained[i].id.0
        < drained[j].id.0 by {
        assert(drained.contains(drained[i]));
        assert(drained.contains(drained[j]));
        assert(m.contains(drained[i]));
        assert(m.contains(drained[j]));
    }
}

} // verus!
