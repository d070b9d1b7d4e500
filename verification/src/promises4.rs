//! What the DHCPv4 service promises: which answer a client gets, what the
//! answer carries, and what becomes of the leases.
//!
//! The promises speak of the leases, the options and the numbers themselves.
//! An address is in the pool when it is one of the `count` addresses from
//! `start` on, a lease is live as long as its end has not passed, and a client
//! holds an address when the lease of that address names it.

use vstd::prelude::*;

use crate::clock::{Clock, Instant, LAST_TICK};
use crate::leases::{current_is_held, next_free_is_available};
use crate::net::Ipv4Addr;
use crate::options::{addrs_octets, MessageType, OptionView};
use crate::packet::{announced_type, first_with_code, packet_bytes, PacketView};
use crate::promises_leases::{can_have_at, next_free_is_the_nearest};
use crate::server::{
    reply_answers_the_request, reply_names_type_and_server, reply_to, routes, wanted_options_arrive,
    wants, ServerView,
};
use crate::service4::{
    announced_name, discover_unanswered_only_when_exhausted, offer_options_of, wanted_ip,
    ActionView, ServiceView,
};

verus! {

// ---------------------------------------------------------------------------
// The options of offers
// ---------------------------------------------------------------------------

/// The settings stand in the options under their codes: the lease time, the
/// subnet mask, the one router, all name servers in their order, and the time
/// servers exactly where they are enabled and there are any.
pub proof fn offer_options_carry_the_settings(
    subnet_mask: Ipv4Addr,
    router_ip: Ipv4Addr,
    dns_ips: Seq<Ipv4Addr>,
    ntp_ips: Seq<Ipv4Addr>,
    enable_ntp: bool,
    lease_secs: u32,
)
    ensures
        ({
            let opts = offer_options_of(
                subnet_mask,
                router_ip,
                dns_ips,
                ntp_ips,
                enable_ntp,
                lease_secs,
            );
            &&& first_with_code(opts, 51) == Some(OptionView::IpAddressLeaseTime(lease_secs))
            &&& first_with_code(opts, 1) == Some(OptionView::SubnetMask(subnet_mask))
            &&& first_with_code(opts, 3) == Some(OptionView::Router(seq![router_ip]))
            &&& first_with_code(opts, 6) == Some(OptionView::DomainNameServer(dns_ips))
            &&& first_with_code(opts, 42) == if enable_ntp && ntp_ips.len() > 0 {
                Some(OptionView::Unrecognized(42, addrs_octets(ntp_ips)))
            } else {
                None
            }
            &&& forall|i: int|
                0 <= i < opts.len() ==> {
                    let c = (#[trigger] opts[i]).code();
                    c == 51 || c == 1 || c == 3 || c == 6 || (c == 42 && enable_ntp)
                }
            &&& forall|i: int, j: int|
                0 <= i < j < opts.len() ==> (#[trigger] opts[i]).code() != (
                #[trigger] opts[j]).code()
        }),
{
    reveal_with_fuel(first_with_code, 6);
}

// ---------------------------------------------------------------------------
// Answers
// ---------------------------------------------------------------------------

/// Every offer and every acknowledgement, of a new address and of one that the
/// client held before alike, is the wire form of a reply to the request that
/// gives the address and carries the configured options. A client that lists no
/// options gets the message type, the server identifier and all of the
/// configured options in their order. A client that lists some gets each
/// configured option that it wants, where no other has its code.
pub proof fn answers_carry_the_offer(
    s: ServiceView,
    after: ServiceView,
    srv: ServerView,
    p: PacketView,
    now: Instant,
    act: ActionView,
) -> (reply: PacketView)
    requires
        s.handled(after, srv, p, now, act),
        act is Answer,
    ensures
        act matches ActionView::Answer { msg_type, ip, wire, dests, .. } && {
            &&& wire == packet_bytes(reply)
            &&& dests == routes(srv.src, p.broadcast, ip, srv.broadcasts)
            &&& reply.reply
            &&& reply.xid == p.xid
            &&& reply.chaddr == p.chaddr
            &&& reply.giaddr == p.giaddr
            &&& reply.ciaddr == p.ciaddr
            &&& reply.broadcast == p.broadcast
            &&& reply.yiaddr == ip
            &&& !(first_with_code(p.options, 55) matches Some(
                OptionView::ParameterRequestList(_),
            )) ==> reply.options == seq![
                OptionView::DhcpMessageType(msg_type),
                OptionView::ServerIdentifier(srv.server_ip),
            ] + s.offer
        },
        forall|k: int|
            0 <= k < s.offer.len() && wants(p, (#[trigger] s.offer[k]).code()) && s.offer[k].code()
                != 53 && s.offer[k].code() != 54 && only_with_its_code(s.offer, k)
                ==> first_with_code(reply.options, s.offer[k].code()) == Some(s.offer[k]),
        (forall|k: int|
            0 <= k < s.offer.len() ==> (#[trigger] s.offer[k]).code() != 53 && s.offer[k].code()
                != 54) ==> {
            &&& announced_type(reply.options) == Ok::<MessageType, Seq<char>>(
                act->Answer_msg_type,
            )
            &&& first_with_code(reply.options, 54) == Some(
                OptionView::ServerIdentifier(srv.server_ip),
            )
        },
{
    let t = act->Answer_msg_type;
    let ip = act->Answer_ip;
    let reply = reply_to(srv.server_ip, t, s.offer, ip, p);
    assert(act->Answer_wire == packet_bytes(reply));
    assert(t != MessageType::Nak);
    reply_answers_the_request(srv.server_ip, t, s.offer, ip, p);
    assert forall|k: int|
        0 <= k < s.offer.len() && wants(p, (#[trigger] s.offer[k]).code()) && s.offer[k].code()
            != 53 && s.offer[k].code() != 54 && only_with_its_code(s.offer, k) implies
    first_with_code(reply.options, s.offer[k].code()) == Some(s.offer[k]) by {
        wanted_options_arrive(srv.server_ip, t, s.offer, ip, p, k);
    }
    if forall|k: int|
        0 <= k < s.offer.len() ==> (#[trigger] s.offer[k]).code() != 53 && s.offer[k].code() != 54 {
        reply_names_type_and_server(srv.server_ip, t, s.offer, ip, p);
    }
    reply
}

/// Whether no other of `opts` has the code of the one at `k`.
pub open spec fn only_with_its_code(opts: Seq<OptionView>, k: int) -> bool {
    forall|i: int|
        0 <= i < opts.len() && (#[trigger] opts[i]).code() == opts[k].code() ==> i == k
}

/// What an answer carries does not depend on whether the client held the
/// address before: two answers of the same type to the same packet, with the
/// same address and by services with the same options, are the same bytes.
pub proof fn renewals_are_worded_like_new_leases(
    s: ServiceView,
    s_after: ServiceView,
    t: ServiceView,
    t_after: ServiceView,
    srv: ServerView,
    p: PacketView,
    now: Instant,
    later: Instant,
    a: ActionView,
    b: ActionView,
)
    requires
        s.handled(s_after, srv, p, now, a),
        t.handled(t_after, srv, p, later, b),
        a is Answer,
        b is Answer,
        a->Answer_msg_type == b->Answer_msg_type,
        a->Answer_ip == b->Answer_ip,
        s.offer == t.offer,
    ensures
        a->Answer_wire == b->Answer_wire,
        a->Answer_dests == b->Answer_dests,
{
}

/// A refusal is the wire form of a Nak to the request that gives no address,
/// names the server and says why.
pub proof fn refusals_say_why(
    s: ServiceView,
    after: ServiceView,
    srv: ServerView,
    p: PacketView,
    now: Instant,
    act: ActionView,
) -> (reply: PacketView)
    requires
        s.handled(after, srv, p, now, act),
        act is Refuse,
    ensures
        act matches ActionView::Refuse { requested, in_pool, wire, dests } && {
            &&& wire == packet_bytes(reply)
            &&& dests == routes(srv.src, p.broadcast, (Ipv4Addr { bits: 0 }), srv.broadcasts)
            &&& requested == wanted_ip(p)
            &&& in_pool <==> s.table.start + s.table.count <= u128::MAX && s.table.start
                <= requested.bits < s.table.start + s.table.count
        },
        reply.reply,
        reply.xid == p.xid,
        reply.chaddr == p.chaddr,
        reply.giaddr == p.giaddr,
        reply.broadcast == p.broadcast,
        reply.yiaddr.bits == 0,
        reply.ciaddr.bits == 0,
        announced_type(reply.options) == Ok::<MessageType, Seq<char>>(MessageType::Nak),
        first_with_code(reply.options, 54) == Some(OptionView::ServerIdentifier(srv.server_ip)),
        wants(p, 56) ==> first_with_code(reply.options, 56) == Some(
            OptionView::Message("Requested IP not available"@),
        ),
        after == s,
{
    let none = Ipv4Addr { bits: 0 };
    let why = seq![OptionView::Message("Requested IP not available"@)];
    let reply = reply_to(srv.server_ip, MessageType::Nak, why, none, p);
    reply_answers_the_request(srv.server_ip, MessageType::Nak, why, none, p);
    reply_names_type_and_server(srv.server_ip, MessageType::Nak, why, none, p);
    if wants(p, 56) {
        wanted_options_arrive(srv.server_ip, MessageType::Nak, why, none, p, 0);
    }
    reply
}

/// A Discover is answered with an Offer, or with an Ack where rapid commit is
/// enabled and the client asks for it; a Request is answered with an Ack. The
/// answer says whether the client held the address before.
pub proof fn answers_fit_the_message(
    s: ServiceView,
    after: ServiceView,
    srv: ServerView,
    p: PacketView,
    now: Instant,
    act: ActionView,
)
    requires
        s.handled(after, srv, p, now, act),
        act is Answer,
    ensures
        announced_type(p.options) matches Ok(t) && (t == MessageType::Discover || t
            == MessageType::Request),
        act->Answer_msg_type == if announced_type(p.options) == Ok::<MessageType, Seq<char>>(
            MessageType::Request,
        ) || (s.rapid_commit && first_with_code(p.options, 80) is Some) {
            MessageType::Ack
        } else {
            MessageType::Offer
        },
        act->Answer_existing <==> exists|a: u128| #[trigger] s.table.holds(a, p.chaddr),
{
}

/// The address that a client asks for is that of its first option 50, and
/// without one the address that it says it has.
pub proof fn wanted_address(p: PacketView)
    ensures
        first_with_code(p.options, 50) is None ==> wanted_ip(p) == p.ciaddr,
        first_with_code(p.options, 50) matches Some(OptionView::RequestedIpAddress(a))
            ==> wanted_ip(p) == a,
{
}

/// Which address is answered: a client that holds addresses gets one of them,
/// and a Request of another client gets the very address that it asks for.
pub proof fn answered_address(
    s: ServiceView,
    after: ServiceView,
    srv: ServerView,
    p: PacketView,
    now: Instant,
    act: ActionView,
)
    requires
        s.wf(),
        s.handled(after, srv, p, now, act),
        act is Answer,
    ensures
        act->Answer_existing ==> s.table.leases.contains_key(act->Answer_ip.bits as u128)
            && s.table.leases[act->Answer_ip.bits as u128].id == p.chaddr,
        !act->Answer_existing && announced_type(p.options) == Ok::<MessageType, Seq<char>>(
            MessageType::Request,
        ) ==> act->Answer_ip == wanted_ip(p),
        !act->Answer_existing ==> s.table.start <= act->Answer_ip.bits < s.table.start
            + s.table.count,
{
    if act->Answer_existing {
        let a = choose|a: u128|
            {
                &&& #[trigger] s.table.current(p.chaddr, Some(a))
                &&& after == s.remembered(a, announced_name(p))
                &&& act == s.answer(srv, p, act->Answer_msg_type, a, true)
            };
        current_is_held(s.table, p.chaddr, Some(a));
        assert(s.table.leases.contains_key(a));
    } else if s.next(p.chaddr, now) is Some {
        next_free_is_available(
            s.table,
            p.chaddr,
            now,
            true,
            s.last as nat,
            s.table.count as nat,
        );
    }
}

// ---------------------------------------------------------------------------
// Who gets which address
// ---------------------------------------------------------------------------

/// A client without an address that asks for one of the pool that nobody has a
/// lease of gets it.
pub proof fn free_address_is_granted(
    s: ServiceView,
    after: ServiceView,
    srv: ServerView,
    p: PacketView,
    now: Instant,
    act: ActionView,
)
    requires
        s.handled(after, srv, p, now, act),
        announced_type(p.options) == Ok::<MessageType, Seq<char>>(MessageType::Request),
        s.table.start + s.table.count <= u128::MAX,
        s.table.start <= wanted_ip(p).bits < s.table.start + s.table.count,
        !s.table.leases.contains_key(wanted_ip(p).bits as u128),
        forall|a: u128| #[trigger]
            s.table.leases.contains_key(a) ==> s.table.leases[a].id != p.chaddr,
    ensures
        act is Answer,
        act->Answer_msg_type == MessageType::Ack,
        act->Answer_ip == wanted_ip(p),
        after.table.leases.contains_key(wanted_ip(p).bits as u128),
        after.table.leases[wanted_ip(p).bits as u128].id == p.chaddr,
{
}

/// A client without an address that asks for one whose lease has ended, or is
/// permanent, gets it.
pub proof fn ended_lease_is_reused(
    s: ServiceView,
    after: ServiceView,
    srv: ServerView,
    p: PacketView,
    now: Instant,
    act: ActionView,
)
    requires
        s.handled(after, srv, p, now, act),
        announced_type(p.options) == Ok::<MessageType, Seq<char>>(MessageType::Request),
        s.table.start + s.table.count <= u128::MAX,
        s.table.start <= wanted_ip(p).bits < s.table.start + s.table.count,
        s.table.leases.contains_key(wanted_ip(p).bits as u128),
        s.table.leases[wanted_ip(p).bits as u128].expiry matches Some(e) ==> now.nanos > e.nanos,
        forall|a: u128| #[trigger]
            s.table.leases.contains_key(a) ==> s.table.leases[a].id != p.chaddr,
    ensures
        act is Answer,
        act->Answer_msg_type == MessageType::Ack,
        act->Answer_ip == wanted_ip(p),
        after.table.leases[wanted_ip(p).bits as u128].id == p.chaddr,
{
}

/// A client without an address that asks for one with a live lease, or for one
/// outside of the pool, is refused.
pub proof fn taken_address_is_refused(
    s: ServiceView,
    after: ServiceView,
    srv: ServerView,
    p: PacketView,
    now: Instant,
    act: ActionView,
)
    requires
        s.handled(after, srv, p, now, act),
        announced_type(p.options) == Ok::<MessageType, Seq<char>>(MessageType::Request),
        forall|a: u128| #[trigger]
            s.table.leases.contains_key(a) ==> s.table.leases[a].id != p.chaddr,
        ({
            let a = wanted_ip(p).bits as u128;
            ||| !(s.table.start <= a < s.table.start + s.table.count)
            ||| s.table.leases.contains_key(a) && (s.table.leases[a].expiry matches Some(e)
                && now.nanos <= e.nanos)
        }),
    ensures
        act is Refuse,
        after == s,
{
}

/// A client that holds an address is acknowledged whatever address it asks for,
/// at any time, and keeps its lease to the end that it had.
pub proof fn holder_is_always_acknowledged(
    s: ServiceView,
    after: ServiceView,
    srv: ServerView,
    p: PacketView,
    now: Instant,
    act: ActionView,
    b: u128,
)
    requires
        s.handled(after, srv, p, now, act),
        announced_type(p.options) == Ok::<MessageType, Seq<char>>(MessageType::Request),
        s.table.leases.contains_key(b),
        s.table.leases[b].id == p.chaddr,
    ensures
        act is Answer,
        act->Answer_msg_type == MessageType::Ack,
        act->Answer_existing,
        after.table.leases.dom() == s.table.leases.dom(),
        after.table.leases[b].id == s.table.leases[b].id,
        after.table.leases[b].expiry == s.table.leases[b].expiry,
{
    assert(s.table.holds(b, p.chaddr));
    let a = choose|a: u128|
        {
            &&& #[trigger] s.table.current(p.chaddr, Some(a))
            &&& after == s.remembered(a, announced_name(p))
            &&& act == s.answer(srv, p, MessageType::Ack, a, true)
        };
    assert(after.table.leases.dom() =~= s.table.leases.dom());
}

/// A Discover is answered as long as any address of the pool has no live lease.
pub proof fn discover_finds_a_free_address(
    s: ServiceView,
    after: ServiceView,
    srv: ServerView,
    p: PacketView,
    now: Instant,
    act: ActionView,
    b: u128,
)
    requires
        s.handled(after, srv, p, now, act),
        announced_type(p.options) == Ok::<MessageType, Seq<char>>(MessageType::Discover),
        s.table.start + s.table.count <= u128::MAX,
        s.table.start <= b < s.table.start + s.table.count,
        s.table.leases.contains_key(b) ==> (s.table.leases[b].expiry matches Some(e) ==> now.nanos
            > e.nanos),
    ensures
        act is Answer,
{
    discover_unanswered_only_when_exhausted(s, after, srv, p, now, act);
    assert(s.table.available(p.chaddr, b, now, true));
}

/// No client is answered with an address that another client holds by a live
/// lease.
pub proof fn live_address_is_never_answered(
    s: ServiceView,
    after: ServiceView,
    srv: ServerView,
    p: PacketView,
    now: Instant,
    act: ActionView,
)
    requires
        s.wf(),
        s.handled(after, srv, p, now, act),
        act is Answer,
    ensures
        ({
            let a = act->Answer_ip.bits as u128;
            s.table.leases.contains_key(a) && s.table.leases[a].id != p.chaddr ==> {
                s.table.leases[a].expiry matches Some(e) ==> now.nanos > e.nanos
            }
        }),
{
    if act->Answer_existing {
        answered_address(s, after, srv, p, now, act);
    } else if s.next(p.chaddr, now) is Some {
        next_free_is_available(
            s.table,
            p.chaddr,
            now,
            true,
            s.last as nat,
            s.table.count as nat,
        );
    }
}

/// A Discover of a client without an address that is answered gets the nearest
/// address that it can have, going round the pool from the one that was offered
/// last: `j` further on, and none in between can be had. That one is the last
/// one offered from then on.
pub proof fn discover_gets_the_nearest(
    s: ServiceView,
    after: ServiceView,
    srv: ServerView,
    p: PacketView,
    now: Instant,
    act: ActionView,
) -> (j: nat)
    requires
        s.wf(),
        s.handled(after, srv, p, now, act),
        announced_type(p.options) == Ok::<MessageType, Seq<char>>(MessageType::Discover),
        act is Answer,
        !act->Answer_existing,
    ensures
        1 <= j <= s.table.count,
        act->Answer_ip.bits == s.table.start + (s.last + j) % (s.table.count as int),
        after.last == (s.last + j) % (s.table.count as int),
        forall|i: int|
            1 <= i < j ==> !can_have_at(s.table, p.chaddr, now, true, #[trigger] (s.last + i)),
{
    next_free_is_available(s.table, p.chaddr, now, true, s.last as nat, s.table.count as nat);
    next_free_is_the_nearest(s.table, p.chaddr, now, true, s.last as nat)
}

/// The host name of a client is the text of its first option 12.
pub proof fn announced_host_name(p: PacketView)
    ensures
        first_with_code(p.options, 12) is None ==> announced_name(p) is None,
        first_with_code(p.options, 12) matches Some(OptionView::HostName(name)) ==> announced_name(
            p,
        ) == Some(name),
{
}

// ---------------------------------------------------------------------------
// What becomes of the leases
// ---------------------------------------------------------------------------

/// A client that is acknowledged an address that it did not hold has a lease of
/// it that ends the lease time after the packet came, under the host name that
/// the client announced; all other leases stay as they are.
pub proof fn new_lease_ends_after_the_lease_time(
    s: ServiceView,
    after: ServiceView,
    srv: ServerView,
    p: PacketView,
    now: Instant,
    act: ActionView,
    b: u128,
)
    requires
        s.wf(),
        s.handled(after, srv, p, now, act),
        act is Answer,
        act->Answer_msg_type == MessageType::Ack,
        !act->Answer_existing,
        now.nanos + s.lease_duration.secs * 1_000_000_000 + s.lease_duration.nanos <= i128::MAX,
    ensures
        ({
            let a = act->Answer_ip.bits as u128;
            &&& after.table.leases.contains_key(a)
            &&& after.table.leases[a].id == p.chaddr
            &&& after.table.leases[a].hostname == announced_name(p)
            &&& after.table.leases[a].expiry matches Some(e) && e.nanos == now.nanos
                + s.lease_duration.secs * 1_000_000_000 + s.lease_duration.nanos
            &&& b != a ==> (after.table.leases.contains_key(b) <==> s.table.leases.contains_key(b))
            &&& b != a && s.table.leases.contains_key(b) ==> after.table.leases[b]
                == s.table.leases[b]
        }),
{
    if s.next(p.chaddr, now) is Some {
        next_free_is_available(
            s.table,
            p.chaddr,
            now,
            true,
            s.last as nat,
            s.table.count as nat,
        );
    }
}

/// By the clock of a service: a lease that is new when the clock shows `now`
/// ends when as many nanoseconds have elapsed as had then, and those of the
/// lease time.
pub proof fn lease_runs_by_the_clock(
    c: Clock,
    s: ServiceView,
    after: ServiceView,
    srv: ServerView,
    p: PacketView,
    now: Instant,
    act: ActionView,
) -> (n: u128)
    requires
        s.wf(),
        c.shows(now),
        now.nanos < LAST_TICK,
        s.handled(after, srv, p, now, act),
        act is Answer,
        act->Answer_msg_type == MessageType::Ack,
        !act->Answer_existing,
        s.lease_duration.nanos < 1_000_000_000,
    ensures
        c.elapsed(n),
        after.table.leases[act->Answer_ip.bits as u128].expiry matches Some(e) && e.nanos == n
            + s.lease_duration.secs * 1_000_000_000 + s.lease_duration.nanos,
{
    new_lease_ends_after_the_lease_time(s, after, srv, p, now, act, 0);
    now.nanos as u128
}

/// A live lease blocks others until it ends: after a client was acknowledged an
/// address that it did not hold, another client without an address that asks
/// for it is refused until the lease time has passed, and acknowledged then.
pub proof fn new_lease_blocks_others_until_it_ends(
    s: ServiceView,
    granted: ServiceView,
    after: ServiceView,
    srv: ServerView,
    first: PacketView,
    second: PacketView,
    now: Instant,
    later: Instant,
    act: ActionView,
    reply: ActionView,
)
    requires
        s.wf(),
        s.handled(granted, srv, first, now, act),
        act is Answer,
        act->Answer_msg_type == MessageType::Ack,
        !act->Answer_existing,
        now.nanos + s.lease_duration.secs * 1_000_000_000 + s.lease_duration.nanos <= i128::MAX,
        granted.handled(after, srv, second, later, reply),
        announced_type(second.options) == Ok::<MessageType, Seq<char>>(MessageType::Request),
        wanted_ip(second) == act->Answer_ip,
        forall|a: u128| #[trigger]
            granted.table.leases.contains_key(a) ==> granted.table.leases[a].id != second.chaddr,
    ensures
        later.nanos <= now.nanos + s.lease_duration.secs * 1_000_000_000 + s.lease_duration.nanos
            ==> reply is Refuse,
        later.nanos > now.nanos + s.lease_duration.secs * 1_000_000_000 + s.lease_duration.nanos
            ==> reply is Answer && reply->Answer_ip == act->Answer_ip,
{
    let a = act->Answer_ip.bits as u128;
    new_lease_ends_after_the_lease_time(s, granted, srv, first, now, act, a);
    answered_address(s, granted, srv, first, now, act);
    if later.nanos > now.nanos + s.lease_duration.secs * 1_000_000_000 + s.lease_duration.nanos {
        settings_never_change(s, granted, srv, first, now, act);
        ended_lease_is_reused(granted, after, srv, second, later, reply);
    } else {
        taken_address_is_refused(granted, after, srv, second, later, reply);
    }
}

/// No packet changes the pool, the lease time or the configured options.
pub proof fn settings_never_change(
    s: ServiceView,
    after: ServiceView,
    srv: ServerView,
    p: PacketView,
    now: Instant,
    act: ActionView,
)
    requires
        s.handled(after, srv, p, now, act),
    ensures
        after.table.start == s.table.start,
        after.table.count == s.table.count,
        after.lease_duration == s.lease_duration,
        after.rapid_commit == s.rapid_commit,
        after.offer == s.offer,
{
}

/// A client that is answered with an address that it held keeps all leases as
/// they were; only the host name of that address is brought up to date, where
/// the client announces one.
pub proof fn renewal_refreshes_only_the_name(
    s: ServiceView,
    after: ServiceView,
    srv: ServerView,
    p: PacketView,
    now: Instant,
    act: ActionView,
    b: u128,
)
    requires
        s.wf(),
        s.handled(after, srv, p, now, act),
        act is Answer,
        act->Answer_existing,
    ensures
        after.table.leases.contains_key(b) <==> s.table.leases.contains_key(b),
        s.table.leases.contains_key(b) ==> {
            &&& after.table.leases[b].id == s.table.leases[b].id
            &&& after.table.leases[b].expiry == s.table.leases[b].expiry
            &&& after.table.leases[b].hostname == if b == act->Answer_ip.bits
                && announced_name(p) is Some {
                announced_name(p)
            } else {
                s.table.leases[b].hostname
            }
        },
        after.last == s.last,
{
    let a = choose|a: u128|
        {
            &&& #[trigger] s.table.current(p.chaddr, Some(a))
            &&& after == s.remembered(a, announced_name(p))
            &&& act == s.answer(srv, p, act->Answer_msg_type, a, true)
        };
    current_is_held(s.table, p.chaddr, Some(a));
    assert(s.table.leases.contains_key(a));
}

/// Bringing a host name up to date changes the name of that one lease and
/// nothing else; without a name, or without a lease, it changes nothing.
pub proof fn remembering_changes_one_name(
    s: ServiceView,
    a: u128,
    hostname: Option<Seq<char>>,
    b: u128,
)
    ensures
        hostname is None || !s.table.leases.contains_key(a) ==> s.remembered(a, hostname) == s,
        hostname is Some && s.table.leases.contains_key(a) ==> {
            let r = s.remembered(a, hostname);
            &&& r.table.leases.contains_key(a)
            &&& r.table.leases[a].hostname == hostname
            &&& r.table.leases[a].id == s.table.leases[a].id
            &&& r.table.leases[a].expiry == s.table.leases[a].expiry
            &&& b != a ==> (r.table.leases.contains_key(b) <==> s.table.leases.contains_key(b))
            &&& b != a && s.table.leases.contains_key(b) ==> r.table.leases[b]
                == s.table.leases[b]
            &&& r.table.start == s.table.start && r.table.count == s.table.count
            &&& r.table.hints == s.table.hints && r.last == s.last
            &&& r.lease_duration == s.lease_duration && r.offer == s.offer && r.rapid_commit
                == s.rapid_commit
        },
{
}

/// A Release or a Decline that names this server frees one address of its
/// sender, where the sender holds any, and leaves all other leases as they are.
/// One that names another server, or none, changes nothing.
pub proof fn named_release_frees_one_address(
    s: ServiceView,
    after: ServiceView,
    srv: ServerView,
    p: PacketView,
    now: Instant,
    act: ActionView,
)
    requires
        s.wf(),
        s.handled(after, srv, p, now, act),
        announced_type(p.options) matches Ok(t) && (t == MessageType::Release || t
            == MessageType::Decline),
    ensures
        first_with_code(p.options, 54) != Some(OptionView::ServerIdentifier(srv.server_ip)) ==> act
            == ActionView::NotForUs && after == s,
        first_with_code(p.options, 54) == Some(OptionView::ServerIdentifier(srv.server_ip)) ==> {
            if exists|a: u128| #[trigger] s.table.holds(a, p.chaddr) {
                act matches ActionView::Freed { ip } && {
                    &&& s.table.leases.contains_key(ip.bits as u128)
                    &&& s.table.leases[ip.bits as u128].id == p.chaddr
                    &&& after.table.leases == s.table.leases.remove(ip.bits as u128)
                }
            } else {
                act == ActionView::NoLease && after == s
            }
        },
{
    if first_with_code(p.options, 54) == Some(OptionView::ServerIdentifier(srv.server_ip)) && (
    exists|a: u128| #[trigger] s.table.holds(a, p.chaddr)) {
        let a = choose|a: u128| #[trigger]
            s.freed(after, p.chaddr, a) && act == (ActionView::Freed {
                ip: Ipv4Addr { bits: a as u32 },
            });
        current_is_held(s.table, p.chaddr, Some(a));
        assert(s.table.leases.contains_key(a));
    }
}

/// Packets of other types, and packets without a type, change nothing and get
/// no answer.
pub proof fn other_packets_change_nothing(
    s: ServiceView,
    after: ServiceView,
    srv: ServerView,
    p: PacketView,
    now: Instant,
    act: ActionView,
)
    requires
        s.handled(after, srv, p, now, act),
        announced_type(p.options) matches Ok(t) ==> t != MessageType::Discover && t
            != MessageType::Request && t != MessageType::Release && t != MessageType::Decline,
    ensures
        after == s,
        match announced_type(p.options) {
            Ok(t) => act == ActionView::Unsupported(t),
            Err(e) => act == ActionView::Untyped(e),
        },
{
}

} // verus!
