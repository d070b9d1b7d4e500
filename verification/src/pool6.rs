//! Allocation of a managed IPv6 range to clients that are known by their DUID.
//!
//! A client that holds a lease is offered and given that lease again. Another
//! client is offered the next free address, going round the range, and is
//! given the address that it asks for if that is free. Permanent leases are
//! never given away.

use vstd::arithmetic::div_mod::{lemma_add_mod_noop, lemma_small_mod};
use vstd::prelude::*;
use vstd::slice::slice_to_vec;

use crate::clock::{Clock, Duration, Instant, LAST_TICK};
use crate::leases::{
    added_lease_is_current, current_is_held, next_free_is_available, next_free_misses_nothing,
    Holder, LeaseTable, LeaseView, TableView,
};
use crate::net::Ipv6Addr;

verus! {

impl Holder for (Vec<u8>, Option<Instant>) {
    open spec fn lease(&self) -> LeaseView {
        LeaseView { id: self.0@, expiry: self.1, hostname: None }
    }

    fn id(&self) -> (r: &[u8]) {
        self.0.as_slice()
    }

    fn ends(&self) -> (r: Option<Instant>) {
        self.1
    }
}

/// What a pool says.
pub struct PoolView {
    pub table: TableView,
    /// The offset of the address that was offered last.
    pub last: u64,
    pub lease_duration: Duration,
}

impl PoolView {
    /// The offset of the next address that the client `id` can have.
    pub open spec fn next(self, id: Seq<u8>, now: Instant) -> Option<nat> {
        self.table.next_free(id, now, false, self.last as nat, self.table.count as nat)
    }

    /// What a client is offered, and the pool afterwards: the current lease,
    /// or else the next free address, or nothing.
    pub open spec fn discovered(
        self,
        after: PoolView,
        id: Seq<u8>,
        now: Instant,
        r: Option<u128>,
    ) -> bool {
        if self.table.served(id) {
            self.table.current(id, r) && after == self
        } else {
            match self.next(id, now) {
                Some(n) => {
                    &&& r == Some((self.table.start + n) as u128)
                    &&& after == (PoolView { last: n as u64, ..self })
                },
                None => r is None && after == self,
            }
        }
    }

    /// The lease that a client gets at the time `now`.
    pub open spec fn new_lease(self, id: Seq<u8>, now: Instant) -> LeaseView {
        LeaseView {
            id,
            expiry: Some(
                Instant { nanos: (now.nanos + self.lease_duration.total()) as i128 },
            ),
            hostname: None,
        }
    }

    /// What a client that asks for `a` gets, and the pool afterwards: the
    /// current lease as it is, or else a new lease of `a` if that is
    /// available, or nothing.
    pub open spec fn requested(
        self,
        after: PoolView,
        id: Seq<u8>,
        a: u128,
        now: Instant,
        r: Option<u128>,
    ) -> bool {
        if self.table.served(id) {
            self.table.current(id, r) && after == self
        } else if self.table.available(id, a, now, false) {
            &&& r == Some(a)
            &&& after == (PoolView {
                table: self.table.granted(a, self.new_lease(id, now)),
                ..self
            })
        } else {
            r is None && after == self
        }
    }

    /// What a client gets that is committed to an address at once, and the pool
    /// afterwards: what it would be offered and then request.
    pub open spec fn committed(
        self,
        after: PoolView,
        id: Seq<u8>,
        now: Instant,
        r: Option<u128>,
    ) -> bool {
        exists|offered: PoolView, o: Option<u128>|
            {
                &&& #[trigger] self.discovered(offered, id, now, o)
                &&& match o {
                    Some(a) => offered.requested(after, id, a, now, r),
                    None => after == offered && r is None,
                }
            }
    }

    /// The pool after the client `id` has given back its current lease.
    pub open spec fn given_back(self, after: PoolView, id: Seq<u8>) -> bool {
        exists|a: u128, other: Option<u128>|
            {
                &&& self.table.current(id, Some(a))
                &&& after == (PoolView {
                    table: #[trigger] self.table.released(id, a, other),
                    ..self
                })
                &&& self.table.hinted(id, a) ==> after.table.found(id, other)
            }
    }
}

/// Allocator for the range of `count` addresses from `start` on.
pub struct V6Pool {
    table: LeaseTable<(Vec<u8>, Option<Instant>)>,
    last: u64,
    lease_duration: Duration,
    clock: Clock,
}

impl View for V6Pool {
    type V = PoolView;

    closed spec fn view(&self) -> PoolView {
        PoolView { table: self.table@, last: self.last, lease_duration: self.lease_duration }
    }
}

impl V6Pool {
    /// The clock of the pool.
    pub closed spec fn clock(&self) -> Clock {
        self.clock
    }

    pub closed spec fn wf(&self) -> bool {
        &&& self.table.wf()
        &&& self.table@.count > 0 ==> self.last < self.table@.count
    }

    /// What holds of what a pool says: the round robin stands in the range.
    pub proof fn round_robin_in_range(&self)
        requires
            self.wf(),
        ensures
            self@.table.count > 0 ==> self@.last < self@.table.count,
    {
    }

    pub fn new(start: Ipv6Addr, count: u64, lease_duration: Duration) -> (r: V6Pool)
        ensures
            r.wf(),
            r@ == (PoolView {
                table: TableView {
                    start: start.bits,
                    count,
                    leases: Map::empty(),
                    hints: Map::empty(),
                },
                last: 0,
                lease_duration,
            }),
    {
        V6Pool {
            table: LeaseTable::new(start.to_bits(), count),
            last: 0,
            lease_duration,
            clock: Clock::start(),
        }
    }

    /// The time by the clock of the pool.
    pub fn now(&self) -> (r: Instant)
        ensures
            0 <= r.nanos <= LAST_TICK,
            self.clock().shows(r),
    {
        self.clock.now()
    }

    pub fn start_addr(&self) -> (r: Ipv6Addr)
        ensures
            r.bits == self@.table.start,
    {
        Ipv6Addr::from_bits(self.table.start())
    }

    pub fn count(&self) -> (r: u64)
        ensures
            r == self@.table.count,
    {
        self.table.count()
    }

    /// Number of leases currently held.
    pub fn len(&self) -> (r: usize)
        requires
            self.wf(),
        ensures
            self@.table.leases.dom().finite(),
            r == if self@.table.leases.dom().len() <= usize::MAX {
                self@.table.leases.dom().len() as int
            } else {
                usize::MAX as int
            },
    {
        self.table.len()
    }

    pub fn is_empty(&self) -> (r: bool)
        requires
            self.wf(),
        ensures
            r == self@.table.vacant(),
    {
        self.table.is_empty()
    }

    /// Adds a lease as it is, in the range or not. Without an expiry it is
    /// permanent. A later lease of the same address replaces an earlier one; a
    /// client may hold several addresses.
    pub fn insert(&mut self, addr: Ipv6Addr, duid: Vec<u8>, expiry: Option<Instant>)
        requires
            old(self).wf(),
        ensures
            final(self).wf(),
            final(self).clock() == old(self).clock(),
            final(self)@ == (PoolView {
                table: old(self)@.table.inserted(
                    addr.bits,
                    (LeaseView { id: duid@, expiry, hostname: None }),
                ),
                ..old(self)@
            }),
    {
        self.table.insert(addr.to_bits(), (duid, expiry));
    }

    /// The lease of `addr`: the holder and the expiry.
    pub fn get(&self, addr: &Ipv6Addr) -> (r: Option<&(Vec<u8>, Option<Instant>)>)
        requires
            self.wf(),
        ensures
            match r {
                Some(t) => {
                    &&& self@.table.leases.contains_key(addr.bits)
                    &&& self@.table.leases[addr.bits] == t.lease()
                },
                None => !self@.table.leases.contains_key(addr.bits),
            },
    {
        self.table.get(addr.to_bits())
    }

    /// Whether the client can have `addr` at the time `now`.
    pub fn available_at(&self, duid: &[u8], addr: &Ipv6Addr, now: Instant) -> (r: bool)
        requires
            self.wf(),
        ensures
            r == self@.table.available(duid@, addr.bits, now, false),
    {
        self.table.available_at(duid, addr.to_bits(), now, false)
    }

    /// Whether the client can have `addr` now.
    pub fn available(&self, duid: &[u8], addr: &Ipv6Addr) -> (r: bool)
        requires
            self.wf(),
        ensures
            exists|now: Instant|
                0 <= now.nanos <= LAST_TICK && self.clock().shows(now) && r
                    == #[trigger] self@.table.available(
                    duid@,
                    addr.bits,
                    now,
                    false,
                ),
    {
        let now = self.clock.now();
        self.available_at(duid, addr, now)
    }

    /// The current lease of the client.
    pub fn current_lease(&self, duid: &[u8]) -> (r: Option<Ipv6Addr>)
        requires
            self.wf(),
        ensures
            self@.table.current(duid@, addr_bits(r)),
    {
        match self.table.current(duid) {
            Some(a) => Some(Ipv6Addr::from_bits(a)),
            None => None,
        }
    }

    /// Offers an address at the time `now`: the current lease, or else the
    /// next free address, going round the range.
    pub fn discover_at(&mut self, duid: &[u8], now: Instant) -> (r: Option<Ipv6Addr>)
        requires
            old(self).wf(),
        ensures
            final(self).wf(),
            final(self).clock() == old(self).clock(),
            old(self)@.discovered(final(self)@, duid@, now, addr_bits(r)),
    {
        match self.current_lease(duid) {
            Some(ip) => {
                assert(self@.table.holds(ip.bits, duid@));
                return Some(ip);
            },
            None => {},
        }
        match self.table.next_free(duid, now, false, self.last) {
            Some(n) => {
                self.last = n;
                Some(Ipv6Addr::from_bits(self.table.start() + n as u128))
            },
            None => None,
        }
    }

    /// Offers an address.
    pub fn discover(&mut self, duid: &[u8]) -> (r: Option<Ipv6Addr>)
        requires
            old(self).wf(),
        ensures
            final(self).wf(),
            final(self).clock() == old(self).clock(),
            exists|now: Instant|
                0 <= now.nanos <= LAST_TICK && old(self).clock().shows(now)
                    && #[trigger] old(self)@.discovered(
                    final(self)@,
                    duid@,
                    now,
                    addr_bits(r),
                ),
    {
        let now = self.clock.now();
        self.discover_at(duid, now)
    }

    /// Commits a lease at the time `now`. The current lease wins unchanged;
    /// otherwise the client gets a timed lease of `addr`, if it is available.
    pub fn request_at(&mut self, duid: &[u8], addr: Ipv6Addr, now: Instant) -> (r: Result<
        Ipv6Addr,
        &'static str,
    >)
        requires
            old(self).wf(),
            now.nanos + old(self)@.lease_duration.total() <= i128::MAX,
        ensures
            final(self).wf(),
            final(self).clock() == old(self).clock(),
            old(self)@.requested(final(self)@, duid@, addr.bits, now, answer_bits(r)),
            r matches Err(e) ==> e@ == "Requested address not available"@,
    {
        match self.current_lease(duid) {
            Some(ip) => {
                assert(self@.table.holds(ip.bits, duid@));
                return Ok(ip);
            },
            None => {},
        }
        if !self.available_at(duid, &addr, now) {
            return Err("Requested address not available");
        }
        let expiry = now.plus(self.lease_duration);
        self.table.grant(addr.to_bits(), (slice_to_vec(duid), Some(expiry)));
        Ok(addr)
    }

    /// Commits a lease.
    pub fn request(&mut self, duid: &[u8], addr: Ipv6Addr) -> (r: Result<Ipv6Addr, &'static str>)
        requires
            old(self).wf(),
        ensures
            final(self).wf(),
            final(self).clock() == old(self).clock(),
            exists|now: Instant|
                0 <= now.nanos <= LAST_TICK && old(self).clock().shows(now)
                    && #[trigger] old(self)@.requested(
                    final(self)@,
                    duid@,
                    addr.bits,
                    now,
                    answer_bits(r),
                ),
            r matches Err(e) ==> e@ == "Requested address not available"@,
    {
        let now = self.clock.now();
        self.request_at(duid, addr, now)
    }

    /// Gives back the current lease of the client, if it has any.
    pub fn release(&mut self, duid: &[u8]) -> (r: bool)
        requires
            old(self).wf(),
        ensures
            final(self).wf(),
            final(self).clock() == old(self).clock(),
            r == old(self)@.table.served(duid@),
            r ==> old(self)@.given_back(final(self)@, duid@),
            !r ==> final(self)@ == old(self)@,
    {
        let ghost before = self@;
        match self.table.release(duid) {
            Some(a) => {
                proof {
                    assert(before.table.holds(a, duid@));
                    let other = choose|other: Option<u128>|
                        {
                            &&& self.table@ == #[trigger] before.table.released(duid@, a, other)
                            &&& before.table.hinted(duid@, a) ==> self.table@.found(duid@, other)
                        };
                    assert(self@.table == before.table.released(duid@, a, other));
                }
                true
            },
            None => false,
        }
    }
}

/// The address in an answer as a number.
pub open spec fn answer_bits(r: Result<Ipv6Addr, &'static str>) -> Option<u128> {
    match r {
        Ok(ip) => Some(ip.bits),
        Err(_) => None,
    }
}

/// An optional address as a number.
pub open spec fn addr_bits(a: Option<Ipv6Addr>) -> Option<u128> {
    match a {
        Some(ip) => Some(ip.bits),
        None => None,
    }
}

// ---------------------------------------------------------------------------
// What the pool promises
// ---------------------------------------------------------------------------

/// Offering commits nothing.
pub proof fn discover_commits_nothing(
    p: PoolView,
    after: PoolView,
    id: Seq<u8>,
    now: Instant,
    r: Option<u128>,
)
    requires
        p.discovered(after, id, now, r),
    ensures
        after.table == p.table,
        after.lease_duration == p.lease_duration,
{
}

/// Nothing is offered exactly when the client holds nothing and can have no
/// address.
pub proof fn discover_fails_only_when_exhausted(
    p: PoolView,
    after: PoolView,
    id: Seq<u8>,
    now: Instant,
    r: Option<u128>,
)
    requires
        p.discovered(after, id, now, r),
    ensures
        r is None <==> !p.table.served(id) && forall|a: u128|
            !#[trigger] p.table.available(id, a, now, false),
{
    next_free_misses_nothing(p.table, id, now, false, p.last as nat);
    if p.table.served(id) {
        current_is_held(p.table, id, r);
    }
}

/// Offers go round a pool without leases: from the offset that was offered
/// last, the k-th Discover after it gets the address k further on. The pools,
/// clients, times and answers are those of one Discover after the other.
pub proof fn offers_go_round(
    pools: Seq<PoolView>,
    ids: Seq<Seq<u8>>,
    nows: Seq<Instant>,
    answers: Seq<Option<u128>>,
    k: nat,
)
    requires
        0 < pools.len(),
        pools[0].table.vacant(),
        0 < pools[0].table.count,
        pools[0].table.start + pools[0].table.count <= u128::MAX,
        k < pools.len(),
        forall|i: int|
            0 <= i < k ==> (#[trigger] pools[i]).discovered(
                pools[i + 1],
                ids[i],
                nows[i],
                answers[i],
            ),
    ensures
        pools[k as int].table == pools[0].table,
        k > 0 ==> {
            let offset = (pools[0].last + k) % (pools[0].table.count as int);
            &&& pools[k as int].last == offset
            &&& answers[k - 1] == Some((pools[0].table.start + offset) as u128)
        },
    decreases k,
{
    if k > 0 {
        let n = pools[0].table.count as int;
        let before = pools[k - 1];
        offers_go_round(pools, ids, nows, answers, (k - 1) as nat);
        assert(before.discovered(pools[k as int], ids[k - 1], nows[k - 1], answers[k - 1]));
        let next = (before.last + 1) % n;
        assert(next == (pools[0].last + k) % n) by {
            if k > 1 {
                lemma_add_mod_noop((pools[0].last + k - 1) as int, 1, n);
                lemma_add_mod_noop(before.last as int, 1, n);
                lemma_small_mod(before.last as nat, n as nat);
            }
        }
        assert(0 <= next < n);
        let a = (before.table.start + next) as u128;
        assert(!before.table.leases.contains_key(a));
        assert(before.table.available(ids[k - 1], a, nows[k - 1], false));
        assert(before.next(ids[k - 1], nows[k - 1]) == Some(next as nat));
    }
}

/// The k-th Discover on a fresh pool gets the address at k, modulo the number
/// of addresses.
pub proof fn kth_discover_on_fresh_pool(
    pools: Seq<PoolView>,
    ids: Seq<Seq<u8>>,
    nows: Seq<Instant>,
    answers: Seq<Option<u128>>,
    k: nat,
)
    requires
        0 < pools.len(),
        pools[0].table.vacant(),
        pools[0].last == 0,
        0 < pools[0].table.count,
        pools[0].table.start + pools[0].table.count <= u128::MAX,
        0 < k < pools.len(),
        forall|i: int|
            0 <= i < k ==> (#[trigger] pools[i]).discovered(
                pools[i + 1],
                ids[i],
                nows[i],
                answers[i],
            ),
    ensures
        answers[k - 1] == Some(
            (pools[0].table.start + k as int % pools[0].table.count as int) as u128,
        ),
{
    offers_go_round(pools, ids, nows, answers, k);
}

/// What is offered to a client is held by it or available to it.
pub proof fn discover_offers_what_can_be_had(
    p: PoolView,
    after: PoolView,
    id: Seq<u8>,
    now: Instant,
    a: u128,
)
    requires
        p.discovered(after, id, now, Some(a)),
    ensures
        p.table.holds(a, id) || p.table.available(id, a, now, false),
{
    if p.table.served(id) {
        current_is_held(p.table, id, Some(a));
    } else {
        next_free_is_available(p.table, id, now, false, p.last as nat, p.table.count as nat);
    }
}

/// An offer that is taken up at once is granted: a client that held nothing
/// gets the address that it was offered.
pub proof fn offer_can_be_taken_up(
    p: PoolView,
    offered: PoolView,
    after: PoolView,
    id: Seq<u8>,
    now: Instant,
    a: u128,
    r: Option<u128>,
)
    requires
        p.discovered(offered, id, now, Some(a)),
        offered.requested(after, id, a, now, r),
    ensures
        r is Some,
        after.table.holds(r->0, id),
        !p.table.served(id) ==> r == Some(a),
{
    discover_offers_what_can_be_had(p, offered, id, now, a);
    if p.table.served(id) {
        current_is_held(offered.table, id, r);
    } else {
        assert(after.table.holds(a, id));
    }
}

/// A lease of another client that is permanent or has not ended stays as it
/// is, whatever a client asks for.
pub proof fn request_spares_live_leases(
    p: PoolView,
    after: PoolView,
    id: Seq<u8>,
    a: u128,
    now: Instant,
    r: Option<u128>,
    b: u128,
)
    requires
        p.requested(after, id, a, now, r),
        p.table.leases.contains_key(b),
        p.table.leases[b].id != id,
        p.table.leases[b].expiry matches Some(e) ==> now.nanos <= e.nanos,
    ensures
        after.table.leases.contains_key(b),
        after.table.leases[b] == p.table.leases[b],
        r != Some(b),
{
    if p.table.served(id) {
        current_is_held(p.table, id, r);
    }
}

/// A new lease lies in the range, ends after the lease time, and is the
/// current lease of its client from then on.
pub proof fn granted_lease_is_current(
    p: PoolView,
    after: PoolView,
    id: Seq<u8>,
    a: u128,
    now: Instant,
    x: Option<u128>,
)
    requires
        !p.table.served(id),
        p.requested(after, id, a, now, Some(a)),
        now.nanos + p.lease_duration.total() <= i128::MAX,
    ensures
        p.table.in_range(a),
        after.table.leases[a].expiry == Some(
            Instant { nanos: (now.nanos + p.lease_duration.total()) as i128 },
        ),
        after.table.current(id, x) <==> x == Some(a),
{
    added_lease_is_current(p.table, a, p.new_lease(id, now), x);
}

/// A client that holds a lease gets no second one, and its lease is not
/// prolonged.
pub proof fn request_keeps_current_lease(
    p: PoolView,
    after: PoolView,
    id: Seq<u8>,
    a: u128,
    now: Instant,
    r: Option<u128>,
)
    requires
        p.table.served(id),
        p.requested(after, id, a, now, r),
    ensures
        after == p,
        r is Some,
        p.table.holds(r->0, id),
{
    current_is_held(p.table, id, r);
}

/// Giving back frees one address that the client held and touches no other.
pub proof fn release_frees_one_address(p: PoolView, after: PoolView, id: Seq<u8>)
    requires
        p.given_back(after, id),
    ensures
        exists|a: u128| #[trigger]
            p.table.holds(a, id) && after.table.leases == p.table.leases.remove(a),
{
    let (a, other) = choose|a: u128, other: Option<u128>|
        {
            &&& p.table.current(id, Some(a))
            &&& after == (PoolView { table: #[trigger] p.table.released(id, a, other), ..p })
            &&& p.table.hinted(id, a) ==> after.table.found(id, other)
        };
    assert(p.table.holds(a, id));
}

/// Giving back undoes a request for an address that nobody held: the leases
/// are as they were, and the client holds nothing.
pub proof fn release_undoes_request(
    p: PoolView,
    granted: PoolView,
    after: PoolView,
    id: Seq<u8>,
    a: u128,
    now: Instant,
)
    requires
        !p.table.served(id),
        !p.table.leases.contains_key(a),
        p.requested(granted, id, a, now, Some(a)),
        granted.given_back(after, id),
    ensures
        after.table.leases == p.table.leases,
        !after.table.served(id),
{
    let (x, other) = choose|x: u128, other: Option<u128>|
        {
            &&& granted.table.current(id, Some(x))
            &&& after == (PoolView {
                table: #[trigger] granted.table.released(id, x, other),
                ..granted
            })
            &&& granted.table.hinted(id, x) ==> after.table.found(id, other)
        };
    added_lease_is_current(p.table, a, p.new_lease(id, now), Some(x));
    assert(after.table.leases =~= p.table.leases);
    assert forall|b: u128| !#[trigger] after.table.holds(b, id) by {
        assert(!p.table.holds(b, id));
    }
}

} // verus!
