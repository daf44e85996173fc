//! The ring store: a fixed number of byte-sequence slots with a write cursor
//! and a read cursor, both wrapping modulo the capacity.

use vstd::prelude::*;

verus! {

/// The byte appended to a slot when its record is sealed. It marks the record
/// as complete, distinguishing a finished empty record from an untouched slot.
pub const TERMINATOR: u8 = 0;

/// The mathematical state of a ring store: the slot contents and the two
/// cursors. The capacity is the number of slots, fixed at construction.
#[verifier::ext_equal]
pub struct RingView {
    pub slots: Seq<Seq<u8>>,
    pub wcur: int,
    pub rcur: int,
}

impl RingView {
    /// Both cursors are in range and there is at least one slot.
    pub open spec fn wf(self) -> bool {
        &&& self.slots.len() >= 1
        &&& 0 <= self.wcur < self.slots.len()
        &&& 0 <= self.rcur < self.slots.len()
    }

    pub open spec fn cap(self) -> int {
        self.slots.len() as int
    }
}

/// The state of a store just after construction: every slot empty, both
/// cursors at slot zero.
pub open spec fn fresh(cap: nat) -> RingView {
    RingView { slots: Seq::new(cap, |i: int| Seq::empty()), wcur: 0, rcur: 0 }
}

/// What `append` does: the bytes are added at the end of the slot under the
/// write cursor; nothing else moves.
pub open spec fn append_tr(v: RingView, bytes: Seq<u8>) -> RingView {
    RingView { slots: v.slots.update(v.wcur, v.slots[v.wcur] + bytes), wcur: v.wcur, rcur: v.rcur }
}

/// What `seal` does: the terminator byte is appended to the current record,
/// the write cursor advances, the read cursor is pushed ahead if the ring is
/// now full (evicting the oldest unread record), and the slot the write
/// cursor now rests on is cleared for the next record.
pub open spec fn seal_tr(v: RingView) -> RingView {
    let sealed = v.slots.update(v.wcur, v.slots[v.wcur].push(TERMINATOR));
    let w2 = (v.wcur + 1) % v.cap();
    let r2 = if w2 == v.rcur {
        (v.rcur + 1) % v.cap()
    } else {
        v.rcur
    };
    RingView { slots: sealed.update(w2, Seq::empty()), wcur: w2, rcur: r2 }
}

/// The number of bytes waiting in the slot under the read cursor.
pub open spec fn avail(v: RingView) -> nat {
    v.slots[v.rcur].len()
}

/// How many bytes a read with the given capacity returns: the whole slot if
/// it fits, else as much of it as the capacity allows.
pub open spec fn read_len(v: RingView, capacity: nat) -> nat {
    if capacity < avail(v) {
        capacity
    } else {
        avail(v)
    }
}

/// The bytes a read with the given capacity returns: a prefix of the slot
/// under the read cursor.
pub open spec fn read_bytes(v: RingView, capacity: nat) -> Seq<u8> {
    v.slots[v.rcur].take(read_len(v, capacity) as int)
}

/// What `read` does to the store: the read cursor advances only when the
/// whole slot was consumed and at least one byte was returned; a short or
/// empty read leaves the store exactly as it was.
pub open spec fn read_tr(v: RingView, capacity: nat) -> RingView {
    if read_len(v, capacity) == avail(v) && read_len(v, capacity) > 0 {
        RingView { slots: v.slots, wcur: v.wcur, rcur: (v.rcur + 1) % v.cap() }
    } else {
        v
    }
}

/// A ring of slots, each a growable byte buffer holding one record, written
/// at the write cursor and consumed at the read cursor.
pub struct RingStore {
    slots: Vec<Vec<u8>>,
    write_cursor: usize,
    read_cursor: usize,
}

impl View for RingStore {
    type V = RingView;

    closed spec fn view(&self) -> RingView {
        RingView {
            slots: Seq::new(self.slots@.len(), |i: int| self.slots@[i]@),
            wcur: self.write_cursor as int,
            rcur: self.read_cursor as int,
        }
    }
}

impl RingStore {
    /// Creates a store of `capacity` empty slots with both cursors at zero.
    pub fn new(capacity: usize) -> (s: RingStore)
        requires
            capacity >= 1,
        ensures
            s@ == fresh(capacity as nat),
            s@.wf(),
    {
        let mut slots: Vec<Vec<u8>> = Vec::new();
        let mut i: usize = 0;
        while i < capacity
            invariant
                i <= capacity,
                slots.len() == i,
                forall|j: int| 0 <= j < i ==> #[trigger] slots@[j]@ == Seq::<u8>::empty(),
            decreases capacity - i,
        {
            slots.push(Vec::new());
            i = i + 1;
        }
        let s = RingStore { slots, write_cursor: 0, read_cursor: 0 };
        proof {
            assert(s@.slots =~= fresh(capacity as nat).slots);
        }
        s
    }

    /// Appends `bytes` to the record under construction, unconditionally and
    /// regardless of size, and returns how many bytes were accepted.
    pub fn append(&mut self, bytes: &[u8]) -> (count: usize)
        requires
            old(self)@.wf(),
        ensures
            final(self)@ == append_tr(old(self)@, bytes@),
            final(self)@.wf(),
            count == bytes@.len(),
    {
        let w = self.write_cursor;
        let mut slot = self.slots[w].clone();
        proof {
            assert(slot@ =~= self@.slots[w as int]);
        }
        slot.extend_from_slice(bytes);
        proof {
            assert(slot@ =~= old(self)@.slots[w as int] + bytes@);
        }
        self.slots[w] = slot;
        proof {
            assert(self@.slots =~= append_tr(old(self)@, bytes@).slots);
        }
        bytes.len()
    }

    /// Seals the record under construction: appends the terminator byte,
    /// advances the write cursor, evicts the oldest unread record if the ring
    /// is now full, and clears the slot the next record will use.
    pub fn seal(&mut self)
        requires
            old(self)@.wf(),
        ensures
            final(self)@ == seal_tr(old(self)@),
            final(self)@.wf(),
    {
        let w = self.write_cursor;
        let cap = self.slots.len();
        let mut slot = self.slots[w].clone();
        proof {
            assert(slot@ =~= self@.slots[w as int]);
        }
        slot.push(TERMINATOR);
        self.slots[w] = slot;
        self.write_cursor = (w + 1) % cap;
        if self.write_cursor == self.read_cursor {
            self.read_cursor = (self.read_cursor + 1) % cap;
        }
        let w2 = self.write_cursor;
        let mut empty_slot = self.slots[w2].clone();
        empty_slot.clear();
        self.slots[w2] = empty_slot;
        proof {
            assert(self@.slots =~= seal_tr(old(self)@).slots);
        }
    }

    /// Copies out up to `capacity` bytes from the slot under the read cursor.
    /// The cursor advances past the slot only when all of its bytes were
    /// returned; a short read leaves the store unchanged, so a later read
    /// starts over at the beginning of the same slot.
    pub fn read(&mut self, capacity: usize) -> (out: Vec<u8>)
        requires
            old(self)@.wf(),
        ensures
            out@ == read_bytes(old(self)@, capacity as nat),
            final(self)@ == read_tr(old(self)@, capacity as nat),
            final(self)@.wf(),
    {
        let r = self.read_cursor;
        let cap = self.slots.len();
        let slot_len = self.slots[r].len();
        let n = if capacity < slot_len {
            capacity
        } else {
            slot_len
        };
        let mut out: Vec<u8> = Vec::new();
        let mut i: usize = 0;
        while i < n
            invariant
                i <= n,
                n <= self.slots@[r as int]@.len(),
                r < self.slots@.len(),
                out@ =~= self.slots@[r as int]@.take(i as int),
            decreases n - i,
        {
            let b = self.slots[r][i];
            out.push(b);
            i = i + 1;
        }
        if n > 0 && n == slot_len {
            self.read_cursor = (r + 1) % cap;
        }
        proof {
            assert(out@ =~= read_bytes(old(self)@, capacity as nat));
        }
        out
    }
}

} // verus!
