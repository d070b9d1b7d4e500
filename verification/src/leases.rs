//! The lease table: who holds which address, until when.
//!
//! A table manages the range of `count` addresses from `start` on. Leases of
//! addresses in the range stand in an array, all others in a hash map; a range
//! that is too large for an array keeps all its leases in the map. A hint
//! remembers for a client the address that it got last, so that the current
//! lease of a client is mostly found without a search.

use std::collections::HashMap;

use vstd::hash_map::StringHashMap;
use vstd::prelude::*;
use vstd::slice::slice_to_vec;

use crate::clock::Instant;
use crate::dhcpv6::same_bytes;

verus! {

broadcast use vstd::std_specs::hash::group_hash_axioms;

/// The largest range that is kept in an array.
pub const MAX_SLOTS: u64 = 100_000;

/// What a lease says.
pub struct LeaseView {
    /// The identity of the client: a hardware address or a DUID.
    pub id: Seq<u8>,
    /// The end of the lease; none for a permanent one.
    pub expiry: Option<Instant>,
    pub hostname: Option<Seq<char>>,
}

/// A record of a lease.
pub trait Holder: Sized {
    spec fn lease(&self) -> LeaseView;

    /// The identity of the client.
    fn id(&self) -> (r: &[u8])
        ensures
            r@ == self.lease().id,
    ;

    /// The end of the lease.
    fn ends(&self) -> (r: Option<Instant>)
        ensures
            r == self.lease().expiry,
    ;
}

/// What a table says.
pub struct TableView {
    pub start: u128,
    pub count: u64,
    pub leases: Map<u128, LeaseView>,
    /// The address that each client got last.
    pub hints: Map<Seq<u8>, u128>,
}

impl TableView {
    /// Whether `a` is in the range. A range that runs past the last address
    /// holds none.
    pub open spec fn in_range(self, a: u128) -> bool {
        self.start + self.count <= u128::MAX && self.start <= a < self.start + self.count
    }

    /// Whether a lease of `a` has its place in the array.
    pub open spec fn slotted(self, a: u128) -> bool {
        self.count <= MAX_SLOTS && self.in_range(a)
    }

    /// Whether the client `id` holds a lease of `a`.
    pub open spec fn holds(self, a: u128, id: Seq<u8>) -> bool {
        self.leases.contains_key(a) && self.leases[a].id == id
    }

    /// Whether there are no leases.
    pub open spec fn vacant(self) -> bool {
        forall|a: u128| !#[trigger] self.leases.contains_key(a)
    }

    /// Whether the client `id` holds any lease.
    pub open spec fn served(self, id: Seq<u8>) -> bool {
        exists|a: u128| #[trigger] self.holds(a, id)
    }

    /// What a search for a lease of `id` finds: the lowest address that has
    /// its place in the array, or else any address.
    pub open spec fn found(self, id: Seq<u8>, r: Option<u128>) -> bool {
        match r {
            None => forall|a: u128| !#[trigger] self.holds(a, id),
            Some(a) => {
                &&& self.holds(a, id)
                &&& forall|b: u128| #[trigger]
                    self.holds(b, id) && self.slotted(b) ==> self.slotted(a) && a <= b
            },
        }
    }

    /// The current lease of `id`: the one that the hint tells, if it still
    /// holds, and else what a search finds.
    pub open spec fn current(self, id: Seq<u8>, r: Option<u128>) -> bool {
        if self.hints.contains_key(id) && self.holds(self.hints[id], id) {
            r == Some(self.hints[id])
        } else {
            self.found(id, r)
        }
    }

    /// Whether `id` can have `a` at the time `now`: `a` is in the range, and
    /// it is free, or held by `id`, or its lease has ended. A permanent lease
    /// counts as ended only where `permanent_free` says so.
    pub open spec fn available(
        self,
        id: Seq<u8>,
        a: u128,
        now: Instant,
        permanent_free: bool,
    ) -> bool {
        self.in_range(a) && (self.leases.contains_key(a) ==> {
            let l = self.leases[a];
            l.id == id || match l.expiry {
                Some(e) => now.nanos > e.nanos,
                None => permanent_free,
            }
        })
    }

    /// The offset of the next address that `id` can have, going round the
    /// range from the one after `last`, in at most `steps` steps.
    pub open spec fn next_free(
        self,
        id: Seq<u8>,
        now: Instant,
        permanent_free: bool,
        last: nat,
        steps: nat,
    ) -> Option<nat>
        decreases steps,
    {
        if steps == 0 || self.count == 0 {
            None
        } else {
            let next = (last + 1) % (self.count as nat);
            if self.start + next <= u128::MAX && self.available(
                id,
                (self.start + next) as u128,
                now,
                permanent_free,
            ) {
                Some(next)
            } else {
                self.next_free(id, now, permanent_free, next, (steps - 1) as nat)
            }
        }
    }

    /// The table with a lease of `a` added or replaced; the hint of the client
    /// that held `a` is dropped if it told `a`.
    pub open spec fn inserted(self, a: u128, l: LeaseView) -> TableView {
        let hints = if self.leases.contains_key(a) && self.leases[a].id != l.id && self.hinted(
            self.leases[a].id,
            a,
        ) {
            self.hints.remove(self.leases[a].id)
        } else {
            self.hints
        };
        TableView { leases: self.leases.insert(a, l), hints: hints.insert(l.id, a), ..self }
    }

    /// The table with a lease of `a` added or replaced, where the hint of the
    /// client that held `a` stays as it is.
    pub open spec fn granted(self, a: u128, l: LeaseView) -> TableView {
        TableView { leases: self.leases.insert(a, l), hints: self.hints.insert(l.id, a), ..self }
    }

    /// Whether the hint of `id` tells `a`.
    pub open spec fn hinted(self, id: Seq<u8>, a: u128) -> bool {
        self.hints.contains_key(id) && self.hints[id] == a
    }

    /// The table without the lease of `a`, which `id` held. Where the hint of
    /// `id` told `a`, it tells `other` now.
    pub open spec fn released(self, id: Seq<u8>, a: u128, other: Option<u128>) -> TableView {
        TableView {
            leases: self.leases.remove(a),
            hints: if self.hinted(id, a) {
                match other {
                    Some(b) => self.hints.insert(id, b),
                    None => self.hints.remove(id),
                }
            } else {
                self.hints
            },
            ..self
        }
    }

    /// Whether every hint tells an address that its client holds.
    pub open spec fn hints_hold(self) -> bool {
        forall|id: Seq<u8>| #[trigger]
            self.hints.contains_key(id) ==> self.holds(self.hints[id], id)
    }
}

// ---------------------------------------------------------------------------
// Keys of hints
// ---------------------------------------------------------------------------

/// Bytes as the characters with the same numbers.
spec fn key_chars(id: Seq<u8>) -> Seq<char> {
    id.map_values(|b: u8| b as char)
}

proof fn lemma_key_injective(a: Seq<u8>, b: Seq<u8>)
    requires
        key_chars(a) == key_chars(b),
    ensures
        a == b,
{
    assert(a.len() == key_chars(a).len());
    assert(b.len() == key_chars(b).len());
    assert forall|i: int| 0 <= i < a.len() implies a[i] == b[i] by {
        assert(key_chars(a)[i] == a[i] as char);
        assert(key_chars(b)[i] == b[i] as char);
    }
    assert(a =~= b);
}

fn key_of(id: &[u8]) -> (r: String)
    ensures
        r@ == key_chars(id@),
{
    let mut r = String::new();
    let mut i: usize = 0;
    assert(r@ =~= key_chars(id@.take(0)));
    while i < id.len()
        invariant
            i <= id@.len(),
            r@ == key_chars(id@.take(i as int)),
        decreases id@.len() - i,
    {
        r.push(id[i] as char);
        assert(r@ =~= key_chars(id@.take(i + 1)));
        i = i + 1;
    }
    assert(id@.take(i as int) =~= id@);
    r
}

/// The hints by the bytes of the identity.
spec fn hints_view(m: Map<Seq<char>, u128>) -> Map<Seq<u8>, u128> {
    Map::new(|id: Seq<u8>| m.contains_key(key_chars(id)), |id: Seq<u8>| m[key_chars(id)])
}

proof fn lemma_hints_insert(m: Map<Seq<char>, u128>, id: Seq<u8>, a: u128)
    ensures
        hints_view(m.insert(key_chars(id), a)) == hints_view(m).insert(id, a),
{
    let x = hints_view(m.insert(key_chars(id), a));
    let y = hints_view(m).insert(id, a);
    assert forall|k: Seq<u8>| x.contains_key(k) <==> y.contains_key(k) by {
        if key_chars(k) == key_chars(id) {
            lemma_key_injective(k, id);
        }
    }
    assert forall|k: Seq<u8>| x.contains_key(k) implies x[k] == y[k] by {
        if key_chars(k) == key_chars(id) {
            lemma_key_injective(k, id);
        }
    }
    assert(x =~= y);
}

proof fn lemma_hints_remove(m: Map<Seq<char>, u128>, id: Seq<u8>)
    ensures
        hints_view(m.remove(key_chars(id))) == hints_view(m).remove(id),
{
    let x = hints_view(m.remove(key_chars(id)));
    let y = hints_view(m).remove(id);
    assert forall|k: Seq<u8>| x.contains_key(k) <==> y.contains_key(k) by {
        if key_chars(k) == key_chars(id) {
            lemma_key_injective(k, id);
        }
    }
    assert(x =~= y);
}

// ---------------------------------------------------------------------------
// Counting
// ---------------------------------------------------------------------------

/// The number of places that are taken.
spec fn taken<T>(s: Seq<Option<T>>) -> nat
    decreases s.len(),
{
    if s.len() == 0 {
        0
    } else {
        taken(s.drop_last()) + (if s.last() is Some {
            1nat
        } else {
            0
        })
    }
}

proof fn lemma_taken_bound<T>(s: Seq<Option<T>>)
    ensures
        taken(s) <= s.len(),
        taken(s) == 0 <==> forall|i: int| 0 <= i < s.len() ==> #[trigger] s[i] is None,
    decreases s.len(),
{
    if s.len() > 0 {
        let t = s.drop_last();
        lemma_taken_bound(t);
        assert(forall|i: int| 0 <= i < t.len() ==> t[i] == s[i]);
        if taken(s) == 0 {
            assert forall|i: int| 0 <= i < s.len() implies #[trigger] s[i] is None by {
                if i < t.len() {
                    assert(t[i] is None);
                }
            }
        } else if s.last() is Some {
            assert(s[s.len() - 1] is Some);
        } else {
            let i = choose|i: int| 0 <= i < t.len() && !(#[trigger] t[i] is None);
            assert(!(s[i] is None));
        }
    }
}

proof fn lemma_taken_update<T>(s: Seq<Option<T>>, i: int, v: Option<T>)
    requires
        0 <= i < s.len(),
    ensures
        taken(s.update(i, v)) + (if s[i] is Some {
            1nat
        } else {
            0
        }) == taken(s) + (if v is Some {
            1nat
        } else {
            0
        }),
    decreases s.len(),
{
    if i == s.len() - 1 {
        assert(s.update(i, v).drop_last() =~= s.drop_last());
    } else {
        lemma_taken_update(s.drop_last(), i, v);
        assert(s.update(i, v).drop_last() =~= s.drop_last().update(i, v));
    }
}

/// The addresses of the places that are taken are as many as those places.
proof fn lemma_taken_addresses<T>(s: Seq<Option<T>>, start: u128)
    requires
        start + s.len() <= u128::MAX,
    ensures
        ({
            let d = Set::new(|a: u128| start <= a < start + s.len() && s[a - start] is Some);
            d.finite() && d.len() == taken(s)
        }),
    decreases s.len(),
{
    let d = Set::new(|a: u128| start <= a < start + s.len() && s[a - start] is Some);
    if s.len() == 0 {
        assert(d =~= Set::empty());
    } else {
        let t = s.drop_last();
        let e = Set::new(|a: u128| start <= a < start + t.len() && t[a - start] is Some);
        let last = (start + s.len() - 1) as u128;
        lemma_taken_addresses(t, start);
        if s.last() is Some {
            assert(d =~= e.insert(last));
            assert(!e.contains(last));
        } else {
            assert(d =~= e);
        }
    }
}

// ---------------------------------------------------------------------------
// The table
// ---------------------------------------------------------------------------

/// A lease table whose records are of type `T`.
pub struct LeaseTable<T: Holder> {
    start: u128,
    count: u64,
    slots: Vec<Option<T>>,
    filled: usize,
    overflow: HashMap<u128, T>,
    hints: StringHashMap<u128>,
}

impl<T: Holder> View for LeaseTable<T> {
    type V = TableView;

    closed spec fn view(&self) -> TableView {
        TableView {
            start: self.start,
            count: self.count,
            leases: Map::new(|a: u128| self.has(a), |a: u128| self.lease_of(a)),
            hints: hints_view(self.hints@),
        }
    }
}

impl<T: Holder> LeaseTable<T> {
    spec fn slotted_at(&self, a: u128) -> bool {
        &&& self.count <= MAX_SLOTS
        &&& self.start + self.count <= u128::MAX
        &&& self.start <= a < self.start + self.count
    }

    spec fn has(&self, a: u128) -> bool {
        if self.slotted_at(a) {
            self.slots@[a - self.start] is Some
        } else {
            self.overflow@.contains_key(a)
        }
    }

    spec fn lease_of(&self, a: u128) -> LeaseView {
        if self.slotted_at(a) {
            self.slots@[a - self.start]->0.lease()
        } else {
            self.overflow@[a].lease()
        }
    }

    /// The array has a place for each address of a small range and is empty
    /// otherwise; nothing that has its place there stands in the map; taken
    /// places are counted.
    pub closed spec fn wf(&self) -> bool {
        &&& self.slots@.len() == if self.count <= MAX_SLOTS && self.start + self.count
            <= u128::MAX {
            self.count as nat
        } else {
            0
        }
        &&& self.filled == taken(self.slots@)
        &&& forall|a: u128| #[trigger] self.overflow@.contains_key(a) ==> !self.slotted_at(a)
    }

    /// An empty table for the range of `count` addresses from `start` on.
    pub fn new(start: u128, count: u64) -> (r: LeaseTable<T>)
        ensures
            r.wf(),
            r@ == (TableView { start, count, leases: Map::empty(), hints: Map::empty() }),
    {
        let mut slots: Vec<Option<T>> = Vec::new();
        if count <= MAX_SLOTS && start <= u128::MAX - count as u128 {
            let mut i: u64 = 0;
            while i < count
                invariant
                    i <= count,
                    slots@.len() == i,
                    forall|j: int| 0 <= j < i ==> #[trigger] slots@[j] is None,
                decreases count - i,
            {
                slots.push(None);
                i = i + 1;
            }
        }
        proof {
            lemma_taken_bound(slots@);
        }
        let r = LeaseTable {
            start,
            count,
            slots,
            filled: 0,
            overflow: HashMap::new(),
            hints: StringHashMap::new(),
        };
        assert(r@.leases =~= Map::empty());
        assert(r@.hints =~= Map::empty());
        r
    }

    pub fn start(&self) -> (r: u128)
        ensures
            r == self@.start,
    {
        self.start
    }

    pub fn count(&self) -> (r: u64)
        ensures
            r == self@.count,
    {
        self.count
    }

    /// The number of leases, as far as a `usize` can tell it.
    pub fn len(&self) -> (r: usize)
        requires
            self.wf(),
        ensures
            self@.leases.dom().finite(),
            r == if self@.leases.dom().len() <= usize::MAX {
                self@.leases.dom().len() as int
            } else {
                usize::MAX as int
            },
    {
        proof {
            self.lemma_len();
        }
        match self.filled.checked_add(self.overflow.len()) {
            Some(n) => n,
            None => usize::MAX,
        }
    }

    proof fn lemma_len(&self)
        requires
            self.wf(),
        ensures
            self@.leases.dom().finite(),
            self@.leases.dom().len() == self.filled + self.overflow@.len(),
    {
        let s = self.slots@;
        let start = self.start;
        if s.len() > 0 {
            lemma_taken_addresses(s, start);
        } else {
            lemma_taken_addresses(s, 0);
        }
        let d = Set::new(
            |a: u128|
                self.slotted_at(a) && s[a - start] is Some,
        );
        let e = if s.len() > 0 {
            Set::new(|a: u128| start <= a < start + s.len() && s[a - start] is Some)
        } else {
            Set::new(|a: u128| 0 <= a < 0 + s.len() && s[a - 0] is Some)
        };
        assert(d =~= e);
        assert(self@.leases.dom() =~= d.union(self.overflow@.dom()));
        assert(d.disjoint(self.overflow@.dom()));
        vstd::set_lib::lemma_set_disjoint_lens(d, self.overflow@.dom());
    }

    /// Whether there are no leases.
    pub fn is_empty(&self) -> (r: bool)
        requires
            self.wf(),
        ensures
            r == self@.vacant(),
    {
        proof {
            lemma_taken_bound(self.slots@);
            if exists|a: u128| #[trigger] self@.leases.contains_key(a) {
                let a = choose|a: u128| #[trigger] self@.leases.contains_key(a);
                if self.slotted_at(a) {
                    assert(self.slots@[a - self.start] is Some);
                } else {
                    assert(self.overflow@.dom().contains(a));
                }
            } else {
                assert forall|i: int| 0 <= i < self.slots@.len() implies #[trigger] self.slots@[i]
                    is None by {
                    let a = (self.start + i) as u128;
                    assert(!self@.leases.contains_key(a));
                    assert(a - self.start == i);
                }
                assert forall|a: u128| !self.overflow@.dom().contains(a) by {
                    assert(!self@.leases.contains_key(a));
                }
                assert(self.overflow@.dom() =~= Set::empty());
            }
        }
        self.filled == 0 && self.overflow.is_empty()
    }

    /// The place of `a` in the array, if it has one.
    fn slot(&self, a: u128) -> (r: Option<usize>)
        requires
            self.wf(),
        ensures
            match r {
                Some(i) => {
                    &&& self.slotted_at(a)
                    &&& i == a - self.start
                    &&& i < self.slots@.len()
                },
                None => !self.slotted_at(a),
            },
    {
        if self.count > MAX_SLOTS || self.start > u128::MAX - self.count as u128 {
            return None;
        }
        if a >= self.start && a - self.start < self.count as u128 {
            Some((a - self.start) as usize)
        } else {
            None
        }
    }

    /// Whether `a` is in the range.
    pub fn in_range(&self, a: u128) -> (r: bool)
        ensures
            r == self@.in_range(a),
    {
        self.start <= u128::MAX - self.count as u128 && a >= self.start && a - self.start
            < self.count as u128
    }

    /// The record of `a`.
    pub fn get(&self, a: u128) -> (r: Option<&T>)
        requires
            self.wf(),
        ensures
            match r {
                Some(t) => self@.leases.contains_key(a) && self@.leases[a] == t.lease(),
                None => !self@.leases.contains_key(a),
            },
    {
        match self.slot(a) {
            Some(i) => match &self.slots[i] {
                Some(t) => Some(t),
                None => None,
            },
            None => self.overflow.get(&a),
        }
    }

    /// Writes the record of `a`; hints stay as they are.
    pub fn put(&mut self, a: u128, t: T)
        requires
            old(self).wf(),
        ensures
            final(self).wf(),
            final(self)@ == (TableView {
                leases: old(self)@.leases.insert(a, t.lease()),
                ..old(self)@
            }),
    {
        let ghost before = *self;
        match self.slot(a) {
            Some(i) => {
                proof {
                    lemma_taken_update(self.slots@, i as int, Some(t));
                    lemma_taken_bound(self.slots@.update(i as int, Some(t)));
                }
                if self.slots[i].is_none() {
                    self.filled = self.filled + 1;
                }
                self.slots.set(i, Some(t));
            },
            None => {
                self.overflow.insert(a, t);
            },
        }
        assert(self@.leases =~= before@.leases.insert(a, t.lease()));
    }

    /// Takes the record of `a` out; hints stay as they are.
    pub fn take(&mut self, a: u128) -> (r: Option<T>)
        requires
            old(self).wf(),
        ensures
            final(self).wf(),
            final(self)@ == (TableView { leases: old(self)@.leases.remove(a), ..old(self)@ }),
            match r {
                Some(t) => old(self)@.leases.contains_key(a) && old(self)@.leases[a] == t.lease(),
                None => !old(self)@.leases.contains_key(a),
            },
    {
        let ghost before = *self;
        let r = match self.slot(a) {
            Some(i) => {
                proof {
                    lemma_taken_update(self.slots@, i as int, None::<T>);
                    lemma_taken_bound(self.slots@.update(i as int, None::<T>));
                }
                if self.slots[i].is_some() {
                    self.filled = self.filled - 1;
                }
                let mut t: Option<T> = None;
                std::mem::swap(&mut t, &mut self.slots[i]);
                t
            },
            None => self.overflow.remove(&a),
        };
        assert(self@.leases =~= before@.leases.remove(a));
        r
    }

    /// The address that the hint of `id` tells.
    fn hint(&self, id: &[u8]) -> (r: Option<u128>)
        ensures
            match r {
                Some(a) => self@.hints.contains_key(id@) && self@.hints[id@] == a,
                None => !self@.hints.contains_key(id@),
            },
    {
        let k = key_of(id);
        match self.hints.get(k.as_str()) {
            Some(a) => Some(*a),
            None => None,
        }
    }

    fn set_hint(&mut self, id: &[u8], a: u128)
        requires
            old(self).wf(),
        ensures
            final(self).wf(),
            final(self)@ == (TableView { hints: old(self)@.hints.insert(id@, a), ..old(self)@ }),
    {
        let ghost before = *self;
        proof {
            lemma_hints_insert(self.hints@, id@, a);
        }
        self.hints.insert(key_of(id), a);
        assert(self@.leases =~= before@.leases);
    }

    fn drop_hint(&mut self, id: &[u8])
        requires
            old(self).wf(),
        ensures
            final(self).wf(),
            final(self)@ == (TableView { hints: old(self)@.hints.remove(id@), ..old(self)@ }),
    {
        let ghost before = *self;
        proof {
            lemma_hints_remove(self.hints@, id@);
        }
        let k = key_of(id);
        self.hints.remove(k.as_str());
        assert(self@.leases =~= before@.leases);
    }

    /// Searches for a lease of `id`: first in the array, from its start, and
    /// then in the map.
    fn find(&self, id: &[u8]) -> (r: Option<u128>)
        requires
            self.wf(),
        ensures
            self@.found(id@, r),
    {
        let mut i: usize = 0;
        while i < self.slots.len()
            invariant
                self.wf(),
                i <= self.slots@.len(),
                forall|j: int|
                    0 <= j < i ==> (#[trigger] self.slots@[j] matches Some(t) ==> t.lease().id
                        != id@),
            decreases self.slots@.len() - i,
        {
            match &self.slots[i] {
                Some(t) => {
                    if same_bytes(t.id(), id) {
                        let a = self.start + i as u128;
                        proof {
                            assert(a - self.start == i);
                            assert(self@.holds(a, id@));
                            assert forall|b: u128| #[trigger]
                                self@.holds(b, id@) && self@.slotted(b) implies a <= b by {
                                if b < a {
                                    assert(self.slots@[b - self.start] is Some);
                                }
                            }
                        }
                        return Some(a);
                    }
                },
                None => {},
            }
            i = i + 1;
        }
        proof {
            assert forall|b: u128| self@.slotted(b) implies !#[trigger] self@.holds(b, id@) by {
                if self@.holds(b, id@) {
                    assert(self.slots@[b - self.start] is Some);
                }
            }
        }
        let ghost m = self.overflow@;
        for entry in it: self.overflow.iter()
            invariant
                self.wf(),
                m == self.overflow@,
                forall|b: u128| self@.slotted(b) ==> !#[trigger] self@.holds(b, id@),
                forall|j: int|
                    0 <= j < it.index() ==> (#[trigger] it.seq()[j]).1.lease().id != id@,
        {
            let (k, t) = entry;
            assert(m.contains_key(*it.seq()[it.index() as int].0));
            if same_bytes(t.id(), id) {
                assert(self@.holds(*k, id@));
                return Some(*k);
            }
        }
        proof {
            assert forall|b: u128| !#[trigger] self@.holds(b, id@) by {
                if self@.holds(b, id@) {
                    assert(m.contains_key(b));
                }
            }
        }
        None
    }

    /// The current lease of `id`.
    pub fn current(&self, id: &[u8]) -> (r: Option<u128>)
        requires
            self.wf(),
        ensures
            self@.current(id@, r),
    {
        if self.is_empty() {
            assert forall|a: u128| !#[trigger] self@.holds(a, id@) by {
                assert(!self@.leases.contains_key(a));
            }
            return None;
        }
        match self.hint(id) {
            Some(a) => match self.get(a) {
                Some(t) => {
                    if same_bytes(t.id(), id) {
                        return Some(a);
                    }
                },
                None => {},
            },
            None => {},
        }
        self.find(id)
    }

    /// Adds or replaces the lease of `a`.
    pub fn insert(&mut self, a: u128, t: T)
        requires
            old(self).wf(),
        ensures
            final(self).wf(),
            final(self)@ == old(self)@.inserted(a, t.lease()),
    {
        let ghost before = self@;
        let old_id: Option<Vec<u8>> = match self.get(a) {
            Some(o) => if same_bytes(o.id(), t.id()) {
                None
            } else {
                Some(slice_to_vec(o.id()))
            },
            None => None,
        };
        match old_id {
            Some(o) => match self.hint(o.as_slice()) {
                Some(h) => {
                    if h == a {
                        self.drop_hint(o.as_slice());
                    }
                },
                None => {},
            },
            None => {},
        }
        self.set_hint(t.id(), a);
        self.put(a, t);
    }

    /// Adds or replaces the lease of `a` and leaves the hint of the client that
    /// held it as it is.
    pub fn grant(&mut self, a: u128, t: T)
        requires
            old(self).wf(),
        ensures
            final(self).wf(),
            final(self)@ == old(self)@.granted(a, t.lease()),
    {
        self.set_hint(t.id(), a);
        self.put(a, t);
    }

    /// Frees the current lease of `id`; returns its address.
    pub fn release(&mut self, id: &[u8]) -> (r: Option<u128>)
        requires
            old(self).wf(),
        ensures
            final(self).wf(),
            old(self)@.current(id@, r),
            match r {
                None => final(self)@ == old(self)@,
                Some(a) => exists|other: Option<u128>|
                    {
                        &&& final(self)@ == #[trigger] old(self)@.released(id@, a, other)
                        &&& old(self)@.hinted(id@, a) ==> final(self)@.found(id@, other)
                    },
            },
    {
        let ghost before = self@;
        match self.current(id) {
            None => None,
            Some(a) => {
                let _ = self.take(a);
                let ghost taken_out = self@;
                let hinted = match self.hint(id) {
                    Some(h) => h == a,
                    None => false,
                };
                if hinted {
                    let other = self.find(id);
                    match other {
                        Some(b) => self.set_hint(id, b),
                        None => self.drop_hint(id),
                    }
                    proof {
                        assert(self@ == before.released(id@, a, other));
                        lemma_found_same_leases(taken_out, self@, id@, other);
                    }
                } else {
                    assert(self@ == before.released(id@, a, None));
                }
                Some(a)
            },
        }
    }

    /// Whether `id` can have `a` at the time `now`.
    pub fn available_at(&self, id: &[u8], a: u128, now: Instant, permanent_free: bool) -> (r: bool)
        requires
            self.wf(),
        ensures
            r == self@.available(id@, a, now, permanent_free),
    {
        if !self.in_range(a) {
            return false;
        }
        match self.get(a) {
            Some(t) => same_bytes(t.id(), id) || match t.ends() {
                Some(e) => now.is_after(e),
                None => permanent_free,
            },
            None => true,
        }
    }

    /// The offset of the next address that `id` can have, going once round the
    /// range from the one after `last`.
    pub fn next_free(&self, id: &[u8], now: Instant, permanent_free: bool, last: u64) -> (r: Option<
        u64,
    >)
        requires
            self.wf(),
            self@.count > 0 ==> last < self@.count,
        ensures
            match r {
                Some(n) => {
                    &&& self@.next_free(
                        id@,
                        now,
                        permanent_free,
                        last as nat,
                        self@.count as nat,
                    ) == Some(n as nat)
                    &&& n < self@.count
                    &&& self@.start + n <= u128::MAX
                },
                None => self@.next_free(
                    id@,
                    now,
                    permanent_free,
                    last as nat,
                    self@.count as nat,
                ) is None,
            },
    {
        let count = self.count;
        let mut at = last;
        let mut left = count;
        while left > 0
            invariant
                self.wf(),
                count == self@.count,
                left <= count,
                count > 0 ==> at < count,
                self@.next_free(id@, now, permanent_free, last as nat, count as nat)
                    == self@.next_free(id@, now, permanent_free, at as nat, left as nat),
            decreases left,
        {
            at = (at + 1) % count;
            if self.start <= u128::MAX - at as u128 && self.available_at(
                id,
                self.start + at as u128,
                now,
                permanent_free,
            ) {
                return Some(at);
            }
            left = left - 1;
        }
        None
    }
}

proof fn lemma_found_same_leases(t: TableView, u: TableView, id: Seq<u8>, r: Option<u128>)
    requires
        t.found(id, r),
        u.leases == t.leases,
        u.start == t.start,
        u.count == t.count,
    ensures
        u.found(id, r),
{
    assert forall|a: u128| #[trigger] u.holds(a, id) implies t.holds(a, id) by {}
}

// ---------------------------------------------------------------------------
// Going round the range
// ---------------------------------------------------------------------------

proof fn lemma_next_free_visits(
    t: TableView,
    id: Seq<u8>,
    now: Instant,
    permanent_free: bool,
    last: nat,
    steps: nat,
    j: nat,
)
    requires
        t.count > 0,
        t.next_free(id, now, permanent_free, last, steps) is None,
        1 <= j <= steps,
    ensures
        ({
            let o = (last + j) % (t.count as nat);
            !(t.start + o <= u128::MAX && t.available(
                id,
                (t.start + o) as u128,
                now,
                permanent_free,
            ))
        }),
    decreases steps,
{
    let n = t.count as nat;
    let next = (last + 1) % n;
    if j > 1 {
        lemma_next_free_visits(
            t,
            id,
            now,
            permanent_free,
            next,
            (steps - 1) as nat,
            (j - 1) as nat,
        );
        vstd::arithmetic::div_mod::lemma_add_mod_noop(
            (last + 1) as int,
            (j - 1) as int,
            n as int,
        );
        vstd::arithmetic::div_mod::lemma_add_mod_noop(next as int, (j - 1) as int, n as int);
        vstd::arithmetic::div_mod::lemma_mod_twice((last + 1) as int, n as int);
        assert((next + (j - 1)) % (n as int) == ((last + j) as int) % (n as int));
    }
}

/// What going round finds can be had.
pub proof fn next_free_is_available(
    t: TableView,
    id: Seq<u8>,
    now: Instant,
    permanent_free: bool,
    last: nat,
    steps: nat,
)
    requires
        t.next_free(id, now, permanent_free, last, steps) is Some,
    ensures
        ({
            let o = t.next_free(id, now, permanent_free, last, steps)->0;
            &&& o < t.count
            &&& t.start + o <= u128::MAX
            &&& t.available(id, (t.start + o) as u128, now, permanent_free)
        }),
    decreases steps,
{
    let next = (last + 1) % (t.count as nat);
    if !(t.start + next <= u128::MAX && t.available(
        id,
        (t.start + next) as u128,
        now,
        permanent_free,
    )) {
        next_free_is_available(t, id, now, permanent_free, next, (steps - 1) as nat);
    }
}

/// Going once round the range finds nothing exactly when there is nothing that
/// the client can have.
pub proof fn next_free_misses_nothing(
    t: TableView,
    id: Seq<u8>,
    now: Instant,
    permanent_free: bool,
    last: nat,
)
    ensures
        t.next_free(id, now, permanent_free, last, t.count as nat) is None <==> forall|a: u128|
            !#[trigger] t.available(id, a, now, permanent_free),
{
    let n = t.count as nat;
    if n > 0 {
        let turned = last % n;
        lemma_next_free_turned(t, id, now, permanent_free, last, n);
        lemma_next_free_misses_nothing(t, id, now, permanent_free, turned);
    }
}

/// Only the remainder of the starting point counts.
proof fn lemma_next_free_turned(
    t: TableView,
    id: Seq<u8>,
    now: Instant,
    permanent_free: bool,
    last: nat,
    steps: nat,
)
    requires
        t.count > 0,
    ensures
        t.next_free(id, now, permanent_free, last, steps) == t.next_free(
            id,
            now,
            permanent_free,
            last % (t.count as nat),
            steps,
        ),
{
    vstd::arithmetic::div_mod::lemma_add_mod_noop(last as int, 1, t.count as int);
    vstd::arithmetic::div_mod::lemma_add_mod_noop(
        (last % (t.count as nat)) as int,
        1,
        t.count as int,
    );
    vstd::arithmetic::div_mod::lemma_mod_twice(last as int, t.count as int);
}

proof fn lemma_next_free_misses_nothing(
    t: TableView,
    id: Seq<u8>,
    now: Instant,
    permanent_free: bool,
    last: nat,
)
    requires
        last < t.count,
    ensures
        t.next_free(id, now, permanent_free, last, t.count as nat) is None <==> forall|a: u128|
            !#[trigger] t.available(id, a, now, permanent_free),
{
    let n = t.count as nat;
    if t.next_free(id, now, permanent_free, last, n) is None {
        assert forall|a: u128| !#[trigger] t.available(id, a, now, permanent_free) by {
            if t.in_range(a) {
                let o = a - t.start;
                let j = if o > last {
                    (o - last) as nat
                } else {
                    (o - last + n) as nat
                };
                lemma_next_free_visits(t, id, now, permanent_free, last, n, j);
                if o > last {
                    vstd::arithmetic::div_mod::lemma_small_mod(o as nat, n);
                } else {
                    vstd::arithmetic::div_mod::lemma_mod_add_multiples_vanish(o, n as int);
                    vstd::arithmetic::div_mod::lemma_small_mod(o as nat, n);
                }
            }
        }
    } else {
        next_free_is_available(t, id, now, permanent_free, last, n);
    }
}

// ---------------------------------------------------------------------------
// What the table keeps
// ---------------------------------------------------------------------------

/// The current lease is one that the client holds, and there is none exactly
/// when the client holds nothing.
pub proof fn current_is_held(t: TableView, id: Seq<u8>, r: Option<u128>)
    requires
        t.current(id, r),
    ensures
        r matches Some(a) ==> t.holds(a, id),
        r is None <==> !t.served(id),
{
}

/// A lease that was just added is the current one of its client.
pub proof fn added_lease_is_current(t: TableView, a: u128, l: LeaseView, r: Option<u128>)
    ensures
        t.inserted(a, l).current(l.id, r) <==> r == Some(a),
        t.granted(a, l).current(l.id, r) <==> r == Some(a),
{
    assert(t.inserted(a, l).holds(a, l.id));
    assert(t.granted(a, l).holds(a, l.id));
}

/// An address that is added to the table takes nothing from any other address.
pub proof fn adding_spares_other_addresses(t: TableView, a: u128, l: LeaseView, b: u128)
    requires
        a != b,
    ensures
        t.inserted(a, l).leases.contains_key(b) <==> t.leases.contains_key(b),
        t.leases.contains_key(b) ==> t.inserted(a, l).leases[b] == t.leases[b],
{
}

/// Hints that hold still hold after a lease was added.
pub proof fn insert_keeps_hints(t: TableView, a: u128, l: LeaseView)
    requires
        t.hints_hold(),
    ensures
        t.inserted(a, l).hints_hold(),
{
    let u = t.inserted(a, l);
    assert forall|id: Seq<u8>| #[trigger] u.hints.contains_key(id) implies u.holds(
        u.hints[id],
        id,
    ) by {
        if id != l.id {
            assert(t.hints.contains_key(id));
            assert(t.holds(t.hints[id], id));
        }
    }
}

/// Hints that hold still hold after a lease was given back.
pub proof fn release_keeps_hints(t: TableView, id: Seq<u8>, a: u128, other: Option<u128>)
    requires
        t.hints_hold(),
        t.current(id, Some(a)),
        t.hinted(id, a) ==> t.released(id, a, other).found(id, other),
    ensures
        t.released(id, a, other).hints_hold(),
{
    let u = t.released(id, a, other);
    assert forall|k: Seq<u8>| #[trigger] u.hints.contains_key(k) implies u.holds(u.hints[k], k) by {
        if k != id {
            assert(t.hints.contains_key(k));
            assert(t.holds(t.hints[k], k));
        } else if !t.hinted(id, a) {
            assert(t.hints.contains_key(id));
            assert(t.holds(t.hints[id], id));
        }
    }
}

} // verus!
