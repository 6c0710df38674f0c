use vstd::prelude::*;

verus! {

/// Mask of the index bits of a packed lock identifier.
pub const LOCK_ID_MASK: u32 = 0x3FFF_FFFF;

/// Shift of the kind bits of a packed lock identifier.
pub const LOCK_KIND_SHIFT: u32 = 30;

/// The kind of lock an identifier belongs to.
#[derive(Clone, Copy, Debug, PartialEq, Eq, Structural)]
pub enum LockKind {
    RwLock,
    Mutex,
}

/// The tag that a kind takes in the high bits of a packed identifier.
pub open spec fn kind_tag(kind: LockKind) -> u32 {
    match kind {
        LockKind::RwLock => 1,
        LockKind::Mutex => 2,
    }
}

impl LockKind {
    /// The tag of this kind in a packed identifier.
    pub fn tag(self) -> (r: u32)
        ensures
            r == kind_tag(self),
    {
        match self {
            LockKind::RwLock => 1,
            LockKind::Mutex => 2,
        }
    }
}

/// Whether a packed identifier holds a valid kind tag and a non-zero index.
pub open spec fn lock_raw_valid(raw: u32) -> bool {
    ((raw >> 30u32) == 1u32 || (raw >> 30u32) == 2u32) && (raw & 0x3FFF_FFFFu32) != 0u32
}

/// The unique identifier and kind of a lock, packed into one integer: the kind
/// tag in the two high bits and the index in the thirty low bits.
#[derive(Clone, Copy, Debug, PartialEq, Eq, Structural, Hash, PartialOrd, Ord)]
pub struct LockId {
    raw: u32,
}

impl LockId {
    #[verifier::type_invariant]
    spec fn inv(self) -> bool {
        lock_raw_valid(self.raw)
    }

    /// The packed integer.
    pub closed spec fn spec_raw(self) -> u32 {
        self.raw
    }

    /// The index of the lock.
    pub open spec fn spec_index(self) -> u32 {
        self.spec_raw() & 0x3FFF_FFFFu32
    }

    /// The kind of the lock.
    pub open spec fn spec_kind(self) -> LockKind {
        if (self.spec_raw() >> 30u32) == 1u32 {
            LockKind::RwLock
        } else {
            LockKind::Mutex
        }
    }

    /// Packs a kind and an index.
    pub fn new(kind: LockKind, index: u32) -> (r: LockId)
        requires
            1 <= index <= LOCK_ID_MASK,
        ensures
            r.spec_index() == index,
            r.spec_kind() == kind,
            r.spec_raw() == (kind_tag(kind) << 30u32) | index,
    {
        let tag = kind.tag();
        let raw = (tag << LOCK_KIND_SHIFT) | index;
        assert(((tag << 30u32) | index) & 0x3FFF_FFFFu32 == index) by (bit_vector)
            requires
                1u32 <= index <= 0x3FFF_FFFFu32,
                tag == 1u32 || tag == 2u32,
        ;
        assert(((tag << 30u32) | index) >> 30u32 == tag) by (bit_vector)
            requires
                1u32 <= index <= 0x3FFF_FFFFu32,
                tag == 1u32 || tag == 2u32,
        ;
        LockId { raw }
    }

    /// Unpacks an integer made by [`LockId::raw`], or `None` where it holds no
    /// valid kind tag or a zero index.
    pub fn from_raw(raw: u32) -> (r: Option<LockId>)
        ensures
            r.is_some() == lock_raw_valid(raw),
            r matches Some(id) ==> id.spec_raw() == raw,
    {
        let kind = raw >> LOCK_KIND_SHIFT;
        if (kind == 1 || kind == 2) && (raw & LOCK_ID_MASK) != 0 {
            Some(LockId { raw })
        } else {
            None
        }
    }

    /// The packed integer.
    pub fn raw(self) -> (r: u32)
        ensures
            r == self.spec_raw(),
            lock_raw_valid(r),
    {
        proof {
            use_type_invariant(&self);
        }
        self.raw
    }

    /// Get the index of this lock.
    pub fn index(self) -> (r: usize)
        ensures
            r == self.spec_index(),
            1 <= r <= LOCK_ID_MASK,
    {
        proof {
            use_type_invariant(&self);
        }
        let raw = self.raw;
        assert(raw & 0x3FFF_FFFFu32 <= 0x3FFF_FFFFu32) by (bit_vector);
        (raw & LOCK_ID_MASK) as usize
    }

    /// Get the kind of lock this is.
    pub fn kind(self) -> (r: LockKind)
        ensures
            r == self.spec_kind(),
    {
        if (self.raw >> LOCK_KIND_SHIFT) == 1 {
            LockKind::RwLock
        } else {
            LockKind::Mutex
        }
    }
}

/// A lock identifier is its packed integer: two with the same packed
/// integer are the same, so unpacking what `raw` gives recovers the
/// identifier.
pub proof fn lemma_raw_determines_id(a: LockId, b: LockId)
    requires
        a.spec_raw() == b.spec_raw(),
    ensures
        a == b,
{
}

/// The identifier of a recorded event. Identifiers are handed out in
/// increasing order, so they also order the events.
#[derive(Clone, Copy, Debug, PartialEq, Eq, Structural, Hash, PartialOrd, Ord)]
pub struct EventId(pub usize);

impl EventId {
    /// The integer behind this identifier.
    pub fn get(self) -> (r: usize)
        ensures
            r == self.0,
    {
        self.0
    }
}

/// A formatted backtrace captured when an event was entered.
#[derive(Debug)]
pub struct EventBacktrace(pub String);

/// A recorded opening event.
#[derive(Debug)]
pub struct Event {
    /// The unique identifier of this event.
    pub id: EventId,
    /// Nanoseconds since tracing started.
    pub timestamp: u64,
    /// The index of the thread the event was recorded on.
    pub thread_index: usize,
    /// The parent event this event is a child of.
    pub parent: Option<EventId>,
    /// The name of the event.
    pub name: String,
    /// The type name which is wrapped in the lock.
    pub guarded_type: String,
    /// The unique sequential identifier and kind of the lock.
    pub lock: LockId,
    /// A backtrace, where one could be captured.
    pub backtrace: Option<EventBacktrace>,
}

/// A recorded leaving event.
#[derive(Debug)]
pub struct Leave {
    /// The identifier of the event that opened the section this one leaves.
    pub sibling: EventId,
    /// The index of the thread the event was recorded on.
    pub thread_index: usize,
    /// The timestamp when the section was left.
    pub timestamp: u64,
}

/// Collection of collected events.
#[derive(Debug)]
pub struct Events {
    pub enters: Vec<Event>,
    pub leaves: Vec<Leave>,
}

impl Events {
    /// The number of enter events in the collection.
    pub fn len(&self) -> (r: usize)
        ensures
            r == self.enters@.len(),
    {
        self.enters.len()
    }

    /// Test if the collection of events is empty.
    pub fn is_empty(&self) -> (r: bool)
        ensures
            r == (self.enters@.len() == 0),
    {
        self.enters.len() == 0
    }

    /// An empty collection.
    pub fn new() -> (r: Events)
        ensures
            r.enters@.len() == 0,
            r.leaves@.len() == 0,
    {
        Events { enters: Vec::new(), leaves: Vec::new() }
    }
}

} // verus!
