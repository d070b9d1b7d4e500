//! What the DHCPv6 service promises: which reply a client gets, what the reply
//! carries, and what becomes of the leases.
//!
//! The promises speak of the leases, the options and the numbers themselves.
//! An address is in the pool when it is one of the `count` addresses from
//! `start` on, and a client holds an address when the lease of that address
//! names it.

use vstd::prelude::*;

use crate::clock::{Clock, Instant, LAST_TICK};
use crate::dhcpv6::{first_with_code6, leading_iana, MsgType, Option6View, Packet6View};
use crate::leases::{current_is_held, next_free_is_available};
use crate::net::Ipv6Addr;
use crate::pool6::{offer_can_be_taken_up, PoolView};
use crate::promises_leases::{can_have_at, next_free_is_the_nearest};
use crate::service6::{solicit_is_always_answered, wanted_addr, Action6View, Service6View};

verus! {

// ---------------------------------------------------------------------------
// Replies
// ---------------------------------------------------------------------------

/// Every reply that gives or offers an address carries all configured name
/// servers in their order, and no such option where there are none.
pub proof fn replies_carry_all_name_servers(
    s: Service6View,
    after: Service6View,
    req: Packet6View,
    now: Instant,
    act: Action6View,
)
    requires
        s.handled(after, req, now, act),
        act is Success,
    ensures
        first_with_code6(act->Success_reply.options, 23) == if s.identity.dns.len() > 0 {
            Some(Option6View::DnsServers(s.identity.dns))
        } else {
            None
        },
{
    reveal_with_fuel(first_with_code6, 5);
}

/// Every reply that gives or offers an address carries exactly this address,
/// under the IAID of the request, preferred and valid for the lease time. The
/// client is to renew after half of it and to rebind after seven eighths.
pub proof fn replies_carry_address_and_timers(
    s: Service6View,
    after: Service6View,
    req: Packet6View,
    now: Instant,
    act: Action6View,
)
    requires
        s.handled(after, req, now, act),
        act is Success,
    ensures
        leading_iana(act->Success_reply.options) matches Some(ia) && {
            &&& ia.addrs.len() == 1
            &&& ia.addrs[0].addr == act->Success_ip
            &&& ia.addrs[0].preferred == s.identity.lease_secs
            &&& ia.addrs[0].valid == s.identity.lease_secs
            &&& 2 * ia.t1 <= s.identity.lease_secs < 2 * ia.t1 + 2
            &&& 8 * (s.identity.lease_secs - ia.t2) <= s.identity.lease_secs < 8 * (
            s.identity.lease_secs - ia.t2) + 8
            &&& ia.t1 <= ia.t2 <= s.identity.lease_secs
            &&& ia.iaid == match leading_iana(req.options) {
                Some(asked) => asked.iaid,
                None => 0,
            }
        },
{
    reveal_with_fuel(leading_iana, 5);
}

/// Every reply goes back under the transaction id of the request and names the
/// server and the client.
pub proof fn replies_name_both_ends(
    s: Service6View,
    after: Service6View,
    req: Packet6View,
    now: Instant,
    act: Action6View,
    reply: Packet6View,
)
    requires
        s.handled(after, req, now, act),
        match act {
            Action6View::Success { reply: r, .. } => r == reply,
            Action6View::NoData { reply: r } => r == reply,
            _ => false,
        },
    ensures
        reply.transaction_id == req.transaction_id,
        first_with_code6(reply.options, 2) == Some(Option6View::ServerId(s.identity.server_duid)),
        first_with_code6(req.options, 1) is Some,
        first_with_code6(reply.options, 1) == first_with_code6(req.options, 1),
{
    reveal_with_fuel(first_with_code6, 5);
}

/// A reply without an address says so: its IA_NA is empty, and the status is
/// that no address is to be had.
pub proof fn empty_replies_say_why(
    s: Service6View,
    after: Service6View,
    req: Packet6View,
    now: Instant,
    act: Action6View,
)
    requires
        s.handled(after, req, now, act),
        act is NoData,
    ensures
        leading_iana(act->NoData_reply.options) matches Some(ia) && {
            &&& ia.addrs.len() == 0
            &&& ia.t1 == 0
            &&& ia.t2 == 0
            &&& ia.iaid == match leading_iana(req.options) {
                Some(asked) => asked.iaid,
                None => 0,
            }
        },
        first_with_code6(act->NoData_reply.options, 13) == Some(
            Option6View::StatusCode(2, "NoAddrsAvail"@),
        ),
{
    reveal_with_fuel(first_with_code6, 5);
    reveal_with_fuel(leading_iana, 5);
}

/// A Solicit is replied to with an Advertise, or with a Reply where rapid
/// commit is enabled and the client asks for it; a Request, a Renew and a
/// Rebind are replied to with a Reply, and nothing else is replied to.
pub proof fn replies_fit_the_message(
    s: Service6View,
    after: Service6View,
    req: Packet6View,
    now: Instant,
    act: Action6View,
    reply: Packet6View,
)
    requires
        s.handled(after, req, now, act),
        match act {
            Action6View::Success { reply: r, .. } => r == reply,
            Action6View::NoData { reply: r } => r == reply,
            _ => false,
        },
    ensures
        req.msg_type == MsgType::Solicit || req.msg_type == MsgType::Request || req.msg_type
            == MsgType::Renew || req.msg_type == MsgType::Rebind,
        reply.msg_type == if req.msg_type == MsgType::Solicit && !(s.rapid_commit
            && first_with_code6(req.options, 14) is Some) {
            MsgType::Advertise
        } else {
            MsgType::Reply
        },
{
}

/// The address that a client asks for is the first one of its first IA_NA.
pub proof fn wanted_address6(req: Packet6View)
    ensures
        match leading_iana(req.options) {
            Some(ia) => ia.addrs.len() > 0 ==> wanted_addr(req) == Some(ia.addrs[0].addr),
            None => wanted_addr(req) is None,
        },
        wanted_addr(req) is Some ==> leading_iana(req.options) is Some && leading_iana(
            req.options,
        )->0.addrs.len() > 0,
{
}

// ---------------------------------------------------------------------------
// Who gets which address
// ---------------------------------------------------------------------------

/// Whether the message asks for the commitment of an address.
pub open spec fn asks_to_commit(t: MsgType) -> bool {
    t == MsgType::Request || t == MsgType::Renew || t == MsgType::Rebind
}

/// A client without an address that asks for one of the pool that nobody has a
/// lease of gets it, until the lease time has passed.
pub proof fn free_address6_is_granted(
    s: Service6View,
    after: Service6View,
    req: Packet6View,
    now: Instant,
    act: Action6View,
    id: Seq<u8>,
    a: Ipv6Addr,
)
    requires
        s.handled(after, req, now, act),
        asks_to_commit(req.msg_type),
        first_with_code6(req.options, 1) == Some(Option6View::ClientId(id)),
        wanted_addr(req) == Some(a),
        s.pool.table.start + s.pool.table.count <= u128::MAX,
        s.pool.table.start <= a.bits < s.pool.table.start + s.pool.table.count,
        !s.pool.table.leases.contains_key(a.bits),
        forall|b: u128| #[trigger]
            s.pool.table.leases.contains_key(b) ==> s.pool.table.leases[b].id != id,
        now.nanos + s.pool.lease_duration.secs * 1_000_000_000 + s.pool.lease_duration.nanos
            <= i128::MAX,
    ensures
        act is Success,
        act->Success_ip == a,
        after.pool.table.leases.dom() == s.pool.table.leases.dom().insert(a.bits),
        after.pool.table.leases[a.bits].id == id,
        after.pool.table.leases[a.bits].expiry matches Some(e) && e.nanos == now.nanos
            + s.pool.lease_duration.secs * 1_000_000_000 + s.pool.lease_duration.nanos,
{
    assert(!s.pool.table.served(id));
    assert(s.pool.table.available(id, a.bits, now, false));
    assert(after.pool.table.leases.dom() =~= s.pool.table.leases.dom().insert(a.bits));
}

/// A client without an address that asks for one whose lease has ended gets it,
/// until the lease time has passed.
pub proof fn ended_lease6_is_reused(
    s: Service6View,
    after: Service6View,
    req: Packet6View,
    now: Instant,
    act: Action6View,
    id: Seq<u8>,
    a: Ipv6Addr,
)
    requires
        s.handled(after, req, now, act),
        asks_to_commit(req.msg_type),
        first_with_code6(req.options, 1) == Some(Option6View::ClientId(id)),
        wanted_addr(req) == Some(a),
        s.pool.table.start + s.pool.table.count <= u128::MAX,
        s.pool.table.start <= a.bits < s.pool.table.start + s.pool.table.count,
        s.pool.table.leases.contains_key(a.bits),
        s.pool.table.leases[a.bits].expiry matches Some(e) && now.nanos > e.nanos,
        forall|b: u128| #[trigger]
            s.pool.table.leases.contains_key(b) ==> s.pool.table.leases[b].id != id,
        now.nanos + s.pool.lease_duration.secs * 1_000_000_000 + s.pool.lease_duration.nanos
            <= i128::MAX,
    ensures
        act is Success,
        act->Success_ip == a,
        after.pool.table.leases[a.bits].id == id,
        after.pool.table.leases[a.bits].expiry matches Some(e) && e.nanos == now.nanos
            + s.pool.lease_duration.secs * 1_000_000_000 + s.pool.lease_duration.nanos,
{
    assert(!s.pool.table.served(id));
    assert(s.pool.table.available(id, a.bits, now, false));
}

/// A client without an address that asks for one with a live or a permanent
/// lease, or for one outside of the pool, gets none.
pub proof fn taken_address6_is_refused(
    s: Service6View,
    after: Service6View,
    req: Packet6View,
    now: Instant,
    act: Action6View,
    id: Seq<u8>,
    a: Ipv6Addr,
)
    requires
        s.handled(after, req, now, act),
        asks_to_commit(req.msg_type),
        first_with_code6(req.options, 1) == Some(Option6View::ClientId(id)),
        wanted_addr(req) == Some(a),
        forall|b: u128| #[trigger]
            s.pool.table.leases.contains_key(b) ==> s.pool.table.leases[b].id != id,
        ({
            ||| !(s.pool.table.start <= a.bits < s.pool.table.start + s.pool.table.count)
            ||| s.pool.table.leases.contains_key(a.bits) && (
            s.pool.table.leases[a.bits].expiry matches Some(e) ==> now.nanos <= e.nanos)
        }),
    ensures
        act is NoData,
        after.pool == s.pool,
{
    assert(!s.pool.table.served(id));
    assert(!s.pool.table.available(id, a.bits, now, false));
}

/// A client that holds addresses is given one of them, whatever address it asks
/// for, at any time, and no lease changes.
pub proof fn holder6_keeps_its_lease(
    s: Service6View,
    after: Service6View,
    req: Packet6View,
    now: Instant,
    act: Action6View,
    id: Seq<u8>,
    b: u128,
)
    requires
        s.handled(after, req, now, act),
        req.msg_type == MsgType::Solicit || (asks_to_commit(req.msg_type) && wanted_addr(
            req,
        ) is Some),
        first_with_code6(req.options, 1) == Some(Option6View::ClientId(id)),
        s.pool.table.leases.contains_key(b),
        s.pool.table.leases[b].id == id,
    ensures
        act is Success,
        s.pool.table.leases.contains_key(act->Success_ip.bits),
        s.pool.table.leases[act->Success_ip.bits].id == id,
        after.pool.table.leases == s.pool.table.leases,
{
    assert(s.pool.table.holds(b, id));
    if req.msg_type == MsgType::Solicit {
        solicit_is_always_answered(s, after, req, now, act, id);
        if s.commits_rapidly(req) {
            let r = choose|r: Option<u128>|
                {
                    &&& s.pool.committed(after.pool, id, now, r)
                    &&& act == #[trigger] s.reply(req, id, MsgType::Reply, r)
                };
            current_is_held(s.pool.table, id, r);
        } else {
            let r = choose|r: Option<u128>|
                {
                    &&& s.pool.discovered(after.pool, id, now, r)
                    &&& act == #[trigger] s.reply(req, id, MsgType::Advertise, r)
                };
            current_is_held(s.pool.table, id, r);
        }
    } else {
        let r = choose|r: Option<u128>|
            {
                &&& s.pool.requested(after.pool, id, wanted_addr(req)->0.bits, now, r)
                &&& act == #[trigger] s.reply(req, id, MsgType::Reply, r)
            };
        current_is_held(s.pool.table, id, r);
    }
}

/// A Solicit is replied to with an address as long as any address of the pool
/// has no lease, or one that has ended.
pub proof fn solicit_finds_a_free_address(
    s: Service6View,
    after: Service6View,
    req: Packet6View,
    now: Instant,
    act: Action6View,
    id: Seq<u8>,
    b: u128,
)
    requires
        s.handled(after, req, now, act),
        req.msg_type == MsgType::Solicit,
        first_with_code6(req.options, 1) == Some(Option6View::ClientId(id)),
        s.pool.table.start + s.pool.table.count <= u128::MAX,
        s.pool.table.start <= b < s.pool.table.start + s.pool.table.count,
        s.pool.table.leases.contains_key(b) ==> (s.pool.table.leases[b].expiry matches Some(e)
            && now.nanos > e.nanos),
    ensures
        act is Success,
{
    solicit_is_always_answered(s, after, req, now, act, id);
    assert(s.pool.table.available(id, b, now, false));
}

/// A Solicit of a client without an address that gets one gets the nearest that
/// it can have, going round the pool from the one that was offered last: `j`
/// further on, and none in between can be had. That one is the last one offered
/// from then on.
pub proof fn solicit_gets_the_nearest(
    s: Service6View,
    after: Service6View,
    req: Packet6View,
    now: Instant,
    act: Action6View,
    id: Seq<u8>,
) -> (j: nat)
    requires
        s.handled(after, req, now, act),
        req.msg_type == MsgType::Solicit,
        first_with_code6(req.options, 1) == Some(Option6View::ClientId(id)),
        act is Success,
        forall|b: u128| #[trigger]
            s.pool.table.leases.contains_key(b) ==> s.pool.table.leases[b].id != id,
    ensures
        1 <= j <= s.pool.table.count,
        act->Success_ip.bits == s.pool.table.start + (s.pool.last + j) % (
        s.pool.table.count as int),
        after.pool.last == (s.pool.last + j) % (s.pool.table.count as int),
        forall|i: int|
            1 <= i < j ==> !can_have_at(s.pool.table, id, now, false, #[trigger] (s.pool.last + i)),
{
    let t = s.pool.table;
    assert(!t.served(id));
    if s.commits_rapidly(req) {
        let r = choose|r: Option<u128>|
            {
                &&& s.pool.committed(after.pool, id, now, r)
                &&& act == #[trigger] s.reply(req, id, MsgType::Reply, r)
            };
        let (offered, o) = choose|offered: PoolView, o: Option<u128>|
            {
                &&& #[trigger] s.pool.discovered(offered, id, now, o)
                &&& match o {
                    Some(a) => offered.requested(after.pool, id, a, now, r),
                    None => after.pool == offered && r is None,
                }
            };
        assert(s.pool.next(id, now) is Some);
        offer_can_be_taken_up(s.pool, offered, after.pool, id, now, o->0, r);
    }
    next_free_is_available(t, id, now, false, s.pool.last as nat, t.count as nat);
    next_free_is_the_nearest(t, id, now, false, s.pool.last as nat)
}

// ---------------------------------------------------------------------------
// What becomes of the leases
// ---------------------------------------------------------------------------

/// No datagram changes the pool, the lease time or what goes into replies.
pub proof fn settings6_never_change(
    s: Service6View,
    after: Service6View,
    req: Packet6View,
    now: Instant,
    act: Action6View,
)
    requires
        s.handled(after, req, now, act),
    ensures
        after.pool.table.start == s.pool.table.start,
        after.pool.table.count == s.pool.table.count,
        after.pool.lease_duration == s.pool.lease_duration,
        after.identity.server_duid == s.identity.server_duid,
        after.identity.dns == s.identity.dns,
        after.identity.lease_secs == s.identity.lease_secs,
        after.rapid_commit == s.rapid_commit,
{
}

/// Every lease that a datagram adds lies in the pool, names the sender and ends
/// the lease time after the datagram came.
pub proof fn new_lease6_ends_after_the_lease_time(
    s: Service6View,
    after: Service6View,
    req: Packet6View,
    now: Instant,
    act: Action6View,
    b: u128,
)
    requires
        s.handled(after, req, now, act),
        after.pool.table.leases.contains_key(b),
        !s.pool.table.leases.contains_key(b),
        now.nanos + s.pool.lease_duration.secs * 1_000_000_000 + s.pool.lease_duration.nanos
            <= i128::MAX,
    ensures
        act is Success,
        act->Success_ip.bits == b,
        s.pool.table.start <= b < s.pool.table.start + s.pool.table.count,
        first_with_code6(req.options, 1) == Some(
            Option6View::ClientId(after.pool.table.leases[b].id),
        ),
        after.pool.table.leases[b].expiry matches Some(e) && e.nanos == now.nanos
            + s.pool.lease_duration.secs * 1_000_000_000 + s.pool.lease_duration.nanos,
{
}

/// By the clock of a service: a lease that is new when the clock shows `now`
/// ends when as many nanoseconds have elapsed as had then, and those of the
/// lease time.
pub proof fn lease6_runs_by_the_clock(
    c: Clock,
    s: Service6View,
    after: Service6View,
    req: Packet6View,
    now: Instant,
    act: Action6View,
    b: u128,
) -> (n: u128)
    requires
        c.shows(now),
        now.nanos < LAST_TICK,
        s.handled(after, req, now, act),
        after.pool.table.leases.contains_key(b),
        !s.pool.table.leases.contains_key(b),
        s.pool.lease_duration.nanos < 1_000_000_000,
    ensures
        c.elapsed(n),
        after.pool.table.leases[b].expiry matches Some(e) && e.nanos == n
            + s.pool.lease_duration.secs * 1_000_000_000 + s.pool.lease_duration.nanos,
{
    new_lease6_ends_after_the_lease_time(s, after, req, now, act, b);
    now.nanos as u128
}

/// A client that asks for a commitment without naming an address gets no reply,
/// and nothing changes.
pub proof fn commitment_needs_an_address(
    s: Service6View,
    after: Service6View,
    req: Packet6View,
    now: Instant,
    act: Action6View,
    id: Seq<u8>,
)
    requires
        s.handled(after, req, now, act),
        asks_to_commit(req.msg_type),
        first_with_code6(req.options, 1) == Some(Option6View::ClientId(id)),
    ensures
        act == Action6View::NoAddress <==> wanted_addr(req) is None,
        wanted_addr(req) is None ==> after.pool == s.pool,
{
}

/// A Release or a Decline that names this server frees one address of its
/// sender, where the sender holds any, and leaves all other leases as they are.
/// One that names another server, or none, changes nothing.
pub proof fn named_release6_frees_one_address(
    s: Service6View,
    after: Service6View,
    req: Packet6View,
    now: Instant,
    act: Action6View,
    id: Seq<u8>,
) -> (a: u128)
    requires
        s.handled(after, req, now, act),
        req.msg_type == MsgType::Release || req.msg_type == MsgType::Decline,
        first_with_code6(req.options, 1) == Some(Option6View::ClientId(id)),
    ensures
        first_with_code6(req.options, 2) != Some(Option6View::ServerId(s.identity.server_duid))
            ==> act == Action6View::NotForUs && after.pool == s.pool,
        first_with_code6(req.options, 2) == Some(Option6View::ServerId(s.identity.server_duid))
            ==> {
            if exists|b: u128| #[trigger] s.pool.table.holds(b, id) {
                &&& act == Action6View::Freed
                &&& s.pool.table.leases.contains_key(a)
                &&& s.pool.table.leases[a].id == id
                &&& after.pool.table.leases == s.pool.table.leases.remove(a)
            } else {
                act == Action6View::NoLease && after.pool == s.pool
            }
        },
{
    let a = choose|a: u128|
        {
            &&& s.pool.table.holds(a, id)
            &&& after.pool.table.leases == #[trigger] s.pool.table.leases.remove(a)
        };
    a
}

/// A datagram without a client id changes nothing and gets no reply, and so
/// does one of any other type.
pub proof fn other_datagrams_change_nothing(
    s: Service6View,
    after: Service6View,
    req: Packet6View,
    now: Instant,
    act: Action6View,
)
    requires
        s.handled(after, req, now, act),
        !(first_with_code6(req.options, 1) matches Some(Option6View::ClientId(_))) || (
        !asks_to_commit(req.msg_type) && req.msg_type != MsgType::Solicit && req.msg_type
            != MsgType::Release && req.msg_type != MsgType::Decline),
    ensures
        after.pool == s.pool,
        act == if first_with_code6(req.options, 1) matches Some(Option6View::ClientId(_)) {
            Action6View::Unsupported(req.msg_type)
        } else {
            Action6View::NoClientId
        },
{
}

} // verus!
