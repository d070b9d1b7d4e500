//! What a table of leases promises: which address a client can have, which one
//! is next, and what adding and giving back changes.

use vstd::arithmetic::div_mod::{lemma_add_mod_noop, lemma_mod_twice};
use vstd::prelude::*;

use crate::clock::Instant;
use crate::leases::{next_free_is_available, LeaseView, TableView, MAX_SLOTS};

verus! {

/// Which address a client can have: none outside of the range, every one in the
/// range that has no lease or one of the client itself, one of another client
/// once its time has passed, and a permanent one of another client only where
/// permanent leases count as free.
pub proof fn who_can_have_what(
    t: TableView,
    id: Seq<u8>,
    a: u128,
    now: Instant,
    permanent_free: bool,
)
    requires
        t.start + t.count <= u128::MAX,
    ensures
        a < t.start || a >= t.start + t.count ==> !t.available(id, a, now, permanent_free),
        t.start <= a < t.start + t.count ==> {
            &&& !t.leases.contains_key(a) ==> t.available(id, a, now, permanent_free)
            &&& t.leases.contains_key(a) && t.leases[a].id == id ==> t.available(
                id,
                a,
                now,
                permanent_free,
            )
            &&& t.leases.contains_key(a) && t.leases[a].id != id ==> match t.leases[a].expiry {
                Some(e) => t.available(id, a, now, permanent_free) <==> e.nanos < now.nanos,
                None => t.available(id, a, now, permanent_free) <==> permanent_free,
            }
        },
{
}

/// A range that runs past the last address has nothing to give.
pub proof fn overlong_range_gives_nothing(
    t: TableView,
    id: Seq<u8>,
    a: u128,
    now: Instant,
    permanent_free: bool,
)
    requires
        t.start + t.count > u128::MAX,
    ensures
        !t.available(id, a, now, permanent_free),
{
}

proof fn lemma_nearest(
    t: TableView,
    id: Seq<u8>,
    now: Instant,
    permanent_free: bool,
    last: nat,
    steps: nat,
) -> (j: nat)
    requires
        t.next_free(id, now, permanent_free, last, steps) is Some,
    ensures
        1 <= j <= steps,
        t.next_free(id, now, permanent_free, last, steps)->0 == (last + j) % (t.count as nat),
        forall|i: int|
            1 <= i < j ==> !can_have_at(t, id, now, permanent_free, #[trigger] (last + i)),
    decreases steps,
{
    let n = t.count as int;
    let next = (last + 1) % (t.count as nat);
    if can_have_at(t, id, now, permanent_free, (last + 1) as int) {
        1
    } else {
        let j = lemma_nearest(t, id, now, permanent_free, next, (steps - 1) as nat);
        assert forall|i: int| 1 <= i < j + 1 implies !can_have_at(
            t,
            id,
            now,
            permanent_free,
            #[trigger] (last + i),
        ) by {
            if i > 1 {
                lemma_turned(last as int, i, n);
                assert(!can_have_at(t, id, now, permanent_free, next + (i - 1)));
            }
        }
        lemma_turned(last as int, (j + 1) as int, n);
        (j + 1) as nat
    }
}

proof fn lemma_turned(last: int, i: int, n: int)
    requires
        n > 0,
    ensures
        ((last + 1) % n + (i - 1)) % n == (last + i) % n,
{
    lemma_add_mod_noop((last + 1) % n, i - 1, n);
    lemma_add_mod_noop(last + 1, i - 1, n);
    lemma_mod_twice(last + 1, n);
}

/// Whether the client can have the address at the offset `o`, counted round the
/// range.
pub open spec fn can_have_at(
    t: TableView,
    id: Seq<u8>,
    now: Instant,
    permanent_free: bool,
    o: int,
) -> bool {
    let at = t.start + o % (t.count as int);
    at <= u128::MAX && t.available(id, at as u128, now, permanent_free)
}

/// Going round the range from the offset `last` stops at the nearest address
/// that the client can have: `j` further on, and at none in between.
pub proof fn next_free_is_the_nearest(
    t: TableView,
    id: Seq<u8>,
    now: Instant,
    permanent_free: bool,
    last: nat,
) -> (j: nat)
    requires
        t.next_free(id, now, permanent_free, last, t.count as nat) is Some,
    ensures
        1 <= j <= t.count,
        t.next_free(id, now, permanent_free, last, t.count as nat)->0 == (last + j) % (
        t.count as nat),
        can_have_at(t, id, now, permanent_free, (last + j) as int),
        forall|i: int|
            1 <= i < j ==> !can_have_at(t, id, now, permanent_free, #[trigger] (last + i)),
{
    let j = lemma_nearest(t, id, now, permanent_free, last, t.count as nat);
    next_free_is_available(t, id, now, permanent_free, last, t.count as nat);
    j
}

/// A lease that is added stands under its address, the others stay, and the
/// range does not change.
pub proof fn added_lease_stands_under_its_address(t: TableView, a: u128, l: LeaseView)
    ensures
        t.inserted(a, l).leases == t.leases.insert(a, l),
        t.granted(a, l).leases == t.leases.insert(a, l),
        t.inserted(a, l).start == t.start,
        t.inserted(a, l).count == t.count,
        t.granted(a, l).start == t.start,
        t.granted(a, l).count == t.count,
{
}

/// A lease that is given back is gone, the others stay, and the range does not
/// change.
pub proof fn released_lease_is_gone(t: TableView, id: Seq<u8>, a: u128, other: Option<u128>)
    ensures
        t.released(id, a, other).leases == t.leases.remove(a),
        t.released(id, a, other).start == t.start,
        t.released(id, a, other).count == t.count,
{
}

/// The current lease of a client is the address that it got last, as long as it
/// holds it; without such an address it is the lowest one of the range that it
/// holds, in a range of at most `MAX_SLOTS` addresses.
pub proof fn current_lease_is_the_last_or_the_lowest(
    t: TableView,
    id: Seq<u8>,
    r: Option<u128>,
    b: u128,
)
    requires
        t.current(id, r),
    ensures
        t.hints.contains_key(id) && t.leases.contains_key(t.hints[id]) && t.leases[t.hints[id]].id
            == id ==> r == Some(t.hints[id]),
        !t.hints.contains_key(id) && t.leases.contains_key(b) && t.leases[b].id == id ==> r is Some
            && t.leases.contains_key(r->0) && t.leases[r->0].id == id,
        !t.hints.contains_key(id) && t.leases.contains_key(b) && t.leases[b].id == id && t.count
            <= MAX_SLOTS && t.start + t.count <= u128::MAX && t.start <= b < t.start + t.count
            ==> t.start <= r->0 <= b,
        (forall|a: u128| #[trigger]
            t.leases.contains_key(a) ==> t.leases[a].id != id) ==> r is None,
{
    if t.leases.contains_key(b) && t.leases[b].id == id {
        assert(t.holds(b, id));
    }
}

} // verus!
