//! Laws of the store, stated over whole call sequences and proved from the
//! transition functions that the executable operations are specified by.

use vstd::prelude::*;

use crate::adapter::{contains_delimiter, write_tr};
use crate::ring::{
    append_tr, avail, fresh, read_bytes, read_len, read_tr, RingView, TERMINATOR,
};
use vstd::arithmetic::div_mod::{
    lemma_add_mod_noop, lemma_mod_bound, lemma_mod_multiples_vanish, lemma_small_mod,
};

verus! {

/// The store after a sequence of write calls, first payload first.
pub open spec fn writes_tr(v: RingView, ps: Seq<Seq<u8>>) -> RingView
    decreases ps.len(),
{
    if ps.len() == 0 {
        v
    } else {
        writes_tr(write_tr(v, ps.first()), ps.drop_first())
    }
}

/// No payload in the sequence holds the delimiter.
pub open spec fn all_without_delimiter(ps: Seq<Seq<u8>>) -> bool {
    forall|i: int| 0 <= i < ps.len() ==> !contains_delimiter(#[trigger] ps[i])
}

/// Every payload in the sequence holds the delimiter, so every write seals.
pub open spec fn all_with_delimiter(ps: Seq<Seq<u8>>) -> bool {
    forall|i: int| 0 <= i < ps.len() ==> contains_delimiter(#[trigger] ps[i])
}

/// The stored form of a record: its bytes with the terminator appended.
pub open spec fn sealed(rec: Seq<u8>) -> Seq<u8> {
    rec.push(TERMINATOR)
}

/// A sequence of writes acts one call at a time: writing the payloads
/// `ps` and then `p` is one more write onto the state the first `ps` left.
pub proof fn lemma_writes_tr_snoc(v: RingView, ps: Seq<Seq<u8>>, p: Seq<u8>)
    ensures
        writes_tr(v, ps.push(p)) == write_tr(writes_tr(v, ps), p),
    decreases ps.len(),
{
    if ps.len() == 0 {
        assert(ps.push(p).first() == p);
        assert(ps.push(p).drop_first() =~= Seq::<Seq<u8>>::empty());
        assert(writes_tr(v, ps.push(p)) == writes_tr(
            write_tr(v, p),
            Seq::<Seq<u8>>::empty(),
        ));
        assert(writes_tr(write_tr(v, p), Seq::<Seq<u8>>::empty()) == write_tr(v, p));
    } else {
        assert(ps.push(p).first() == ps.first());
        assert(ps.push(p).drop_first() =~= ps.drop_first().push(p));
        assert(writes_tr(v, ps.push(p)) == writes_tr(
            write_tr(v, ps.first()),
            ps.drop_first().push(p),
        ));
        lemma_writes_tr_snoc(write_tr(v, ps.first()), ps.drop_first(), p);
        assert(writes_tr(v, ps) == writes_tr(write_tr(v, ps.first()), ps.drop_first()));
    }
}

/// Writes that never carry the delimiter only grow the record under the
/// write cursor: the payloads accumulate there in order, no record is
/// sealed, and neither cursor moves.
pub proof fn lemma_writes_without_delimiter(v: RingView, ps: Seq<Seq<u8>>)
    requires
        v.wf(),
        all_without_delimiter(ps),
    ensures
        writes_tr(v, ps) == (RingView {
            slots: v.slots.update(v.wcur, v.slots[v.wcur] + ps.flatten()),
            wcur: v.wcur,
            rcur: v.rcur,
        }),
    decreases ps.len(),
{
    if ps.len() == 0 {
        assert(v.slots[v.wcur] + ps.flatten() =~= v.slots[v.wcur]);
        assert(writes_tr(v, ps) =~= RingView {
            slots: v.slots.update(v.wcur, v.slots[v.wcur] + ps.flatten()),
            wcur: v.wcur,
            rcur: v.rcur,
        });
    } else {
        let p0 = ps.first();
        let v1 = append_tr(v, p0);
        lemma_writes_without_delimiter(v1, ps.drop_first());
        assert(ps.flatten() == p0 + ps.drop_first().flatten());
        assert(v.slots.update(v.wcur, v.slots[v.wcur] + p0).update(
            v.wcur,
            (v.slots[v.wcur] + p0) + ps.drop_first().flatten(),
        ) =~~= v.slots.update(v.wcur, v.slots[v.wcur] + ps.flatten()));
        assert(writes_tr(v, ps) =~~= RingView {
            slots: v.slots.update(v.wcur, v.slots[v.wcur] + ps.flatten()),
            wcur: v.wcur,
            rcur: v.rcur,
        });
    }
}

/// Until a write carries the delimiter, no record is sealed and a read
/// only ever sees the record still under construction: it returns a prefix
/// of the bytes accumulated so far. In particular, when nothing has been
/// written, every read returns zero bytes.
pub proof fn lemma_read_before_first_seal(cap: nat, ps: Seq<Seq<u8>>, capacity: nat)
    requires
        cap >= 1,
        all_without_delimiter(ps),
    ensures
        avail(writes_tr(fresh(cap), ps)) == ps.flatten().len(),
        read_bytes(writes_tr(fresh(cap), ps), capacity) == ps.flatten().take(
            read_len(writes_tr(fresh(cap), ps), capacity) as int,
        ),
{
    lemma_writes_without_delimiter(fresh(cap), ps);
    let v = writes_tr(fresh(cap), ps);
    assert(v.slots[0] =~= ps.flatten());
}

/// Reads return zero bytes while no write has carried any bytes at all: a
/// store that has only seen empty, delimiter-free payloads has no record to
/// hand out, and reading leaves it unchanged.
pub proof fn lemma_no_bytes_no_read(cap: nat, ps: Seq<Seq<u8>>, capacity: nat)
    requires
        cap >= 1,
        all_without_delimiter(ps),
        ps.flatten().len() == 0,
    ensures
        read_len(writes_tr(fresh(cap), ps), capacity) == 0,
        read_bytes(writes_tr(fresh(cap), ps), capacity) == Seq::<u8>::empty(),
        read_tr(writes_tr(fresh(cap), ps), capacity) == writes_tr(fresh(cap), ps),
{
    lemma_read_before_first_seal(cap, ps, capacity);
    let v = writes_tr(fresh(cap), ps);
    assert(read_bytes(v, capacity) =~= Seq::<u8>::empty());
}

/// A read whose capacity is smaller than the record under the read cursor
/// returns exactly that many bytes, the front of the record, and moves
/// nothing: the store has no per-record read offset, so a second read with
/// the same capacity returns the very same prefix again.
pub proof fn lemma_short_read_repeats(v: RingView, capacity: nat)
    requires
        v.wf(),
        capacity < avail(v),
    ensures
        read_len(v, capacity) == capacity,
        read_bytes(v, capacity) == v.slots[v.rcur].take(capacity as int),
        read_tr(v, capacity) == v,
        read_bytes(read_tr(v, capacity), capacity) == read_bytes(v, capacity),
{
}

/// Round trip: in a fresh store of at least two slots, writing one payload
/// that carries the delimiter and then reading with capacity at least one
/// byte beyond the payload returns the sealed record, whose bytes before the
/// terminator are exactly the payload; that read consumes the record, and a
/// second read returns zero bytes.
pub proof fn lemma_round_trip(cap: nat, rec: Seq<u8>, capacity: nat)
    requires
        cap >= 2,
        contains_delimiter(rec),
        capacity >= rec.len() + 1,
    ensures
        read_bytes(write_tr(fresh(cap), rec), capacity) == sealed(rec),
        read_bytes(write_tr(fresh(cap), rec), capacity).take(rec.len() as int) == rec,
        read_len(read_tr(write_tr(fresh(cap), rec), capacity), capacity) == 0,
        read_bytes(read_tr(write_tr(fresh(cap), rec), capacity), capacity) == Seq::<u8>::empty(),
{
    lemma_small_mod(1, cap);
    let v1 = write_tr(fresh(cap), rec);
    assert(Seq::<u8>::empty() + rec =~= rec);
    assert(v1.slots[0] =~= sealed(rec));
    assert(read_bytes(v1, capacity) =~= sealed(rec));
    assert(sealed(rec).take(rec.len() as int) =~= rec);
    let v2 = read_tr(v1, capacity);
    assert(v2.rcur == 1);
    assert(v2.slots[1] =~= Seq::<u8>::empty());
    assert(read_bytes(v2, capacity) =~= Seq::<u8>::empty());
}

/// The shape of a store after `ps.len()` sealed writes from fresh: the write
/// cursor has gone around `ps.len()` times modulo the capacity, the slot
/// under it is clear, and every other slot either still awaits its first
/// record or holds the sealed form of one of the last `cap` records, the one
/// whose position in the run is congruent to the slot index.
pub proof fn lemma_sealed_writes_shape(cap: nat, ps: Seq<Seq<u8>>)
    requires
        cap >= 1,
        all_with_delimiter(ps),
    ensures
        ({
            let v = writes_tr(fresh(cap), ps);
            let k = ps.len() as int;
            &&& v.wf()
            &&& v.slots.len() == cap
            &&& v.wcur == k % (cap as int)
            &&& v.slots[v.wcur] == Seq::<u8>::empty()
            &&& forall|j: int|
                0 <= j < cap && j != v.wcur ==> (#[trigger] v.slots[j] == Seq::<u8>::empty()
                    || exists|i: int|
                    k - cap <= i < k && 0 <= i && i % (cap as int) == j && v.slots[j] == sealed(ps[i]))
        }),
    decreases ps.len(),
{
    let c = cap as int;
    if ps.len() == 0 {
        lemma_small_mod(0, cap);
    } else {
        let ps0 = ps.drop_last();
        let p = ps.last();
        let k0 = ps0.len() as int;
        lemma_sealed_writes_shape(cap, ps0);
        lemma_writes_tr_snoc(fresh(cap), ps0, p);
        assert(ps0.push(p) =~= ps);
        let v0 = writes_tr(fresh(cap), ps0);
        let v = write_tr(v0, p);
        // The write appends onto the clear slot and seals it there.
        assert(v == crate::ring::seal_tr(append_tr(v0, p)));
        assert(Seq::<u8>::empty() + p =~= p);
        assert(append_tr(v0, p).slots[v0.wcur] == p);
        // The write cursor steps by one, modulo the capacity.
        lemma_add_mod_noop(k0, 1, c);
        lemma_mod_bound(k0, c);
        if cap == 1 {
            lemma_small_mod(0, cap);
            assert((0int + 1) % 1int == 0);
        } else {
            lemma_small_mod(1, cap);
        }
        assert((v0.wcur + 1) % c == (k0 + 1) % c);
        lemma_mod_bound(k0 + 1, c);
        let w2 = (k0 + 1) % c;
        lemma_mod_bound(v0.rcur + 1, c);
        assert(v.wcur == w2);
        assert(v.slots[w2] == Seq::<u8>::empty());
        // Each surviving slot keeps the record the previous shape gave it;
        // the record that would be one whole lap old sat in the slot just
        // resealed, so none survives past a full lap.
        assert forall|j: int| 0 <= j < cap && j != v.wcur implies (#[trigger] v.slots[j]
            == Seq::<u8>::empty() || exists|i: int|
            k0 + 1 - cap <= i < k0 + 1 && 0 <= i && i % c == j && v.slots[j] == sealed(ps[i])) by {
            if j == v0.wcur {
                assert(v.slots[j] == sealed(p));
                assert(ps[k0] == p);
                assert(k0 % c == j);
                assert(k0 + 1 - cap <= k0 < k0 + 1 && 0 <= k0 && k0 % c == j && v.slots[j]
                    == sealed(ps[k0]));
            } else {
                assert(v.slots[j] == v0.slots[j]);
                if v0.slots[j] != Seq::<u8>::empty() {
                    let i = choose|i: int|
                        k0 - cap <= i < k0 && 0 <= i && i % c == j && v0.slots[j] == sealed(
                            ps0[i],
                        );
                    if i == k0 - cap {
                        lemma_mod_multiples_vanish(-1, k0, c);
                        assert((k0 - cap) % c == k0 % c);
                        assert(j == v0.wcur);
                        assert(false);
                    }
                    assert(ps[i] == ps0[i]);
                    assert(k0 + 1 - cap <= i < k0 + 1 && 0 <= i && i % c == j && v.slots[j]
                        == sealed(ps[i]));
                }
            }
        }
    }
}

/// Eviction: once the ring has been filled by as many sealed records as it
/// has slots, sealing one more record has discarded the oldest. Provided the
/// first record's sealed bytes differ from those of the records still young
/// enough to survive, no slot holds them any more, and no read that returns
/// a whole record can ever return them.
pub proof fn lemma_eviction(cap: nat, ps: Seq<Seq<u8>>)
    requires
        cap >= 1,
        ps.len() == cap + 1,
        all_with_delimiter(ps),
        forall|i: int| 2 <= i <= cap ==> sealed(#[trigger] ps[i]) != sealed(ps[0]),
    ensures
        forall|j: int|
            0 <= j < cap ==> #[trigger] writes_tr(fresh(cap), ps).slots[j] != sealed(ps[0]),
        forall|capacity: nat|
            capacity >= avail(writes_tr(fresh(cap), ps)) ==> #[trigger] read_bytes(
                writes_tr(fresh(cap), ps),
                capacity,
            ) != sealed(ps[0]),
{
    let c = cap as int;
    let k = ps.len() as int;
    lemma_sealed_writes_shape(cap, ps);
    let v = writes_tr(fresh(cap), ps);
    assert forall|j: int| 0 <= j < cap implies #[trigger] v.slots[j] != sealed(ps[0]) by {
        assert(sealed(ps[0]).len() > 0);
        if j != v.wcur && v.slots[j] != Seq::<u8>::empty() {
            let i = choose|i: int|
                k - cap <= i < k && 0 <= i && i % c == j && v.slots[j] == sealed(ps[i]);
            if i == 1 {
                // A record one step into the run sits where the write cursor
                // now rests, and that slot was just cleared.
                lemma_mod_multiples_vanish(1, 1, c);
                assert((c + 1) % c == 1int % c);
                assert(j == v.wcur);
                assert(false);
            }
            assert(2 <= i <= cap);
        }
    }
    assert forall|capacity: nat| capacity >= avail(v) implies #[trigger] read_bytes(v, capacity)
        != sealed(ps[0]) by {
        assert(read_bytes(v, capacity) =~= v.slots[v.rcur]);
    }
}

} // verus!
