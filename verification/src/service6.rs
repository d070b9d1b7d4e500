//! The DHCPv6 service: which reply a datagram gets.
//!
//! A Solicit is answered with an Advertise, or with a Reply where rapid commit
//! is enabled and asked for. A Request, a Renew and a Rebind are answered with
//! a Reply. A Release and a Decline give a lease back. Datagrams without a
//! client id and other message types are ignored.

use vstd::prelude::*;
use vstd::slice::slice_to_vec;
use vstd::utf8::*;

use crate::clock::{Clock, Duration, Instant, LAST_TICK};
use crate::config::{duid_of, read_duid};
use crate::dhcpv6::{
    default_t1_t2, first_with_code6, is_for_server, leading_iana, names_server, Dhcpv6Option,
    IaAddr, IaNa, IaNaView, MsgType, Option6View, Packet, Packet6View, OPT_CLIENTID,
    OPT_RAPID_COMMIT, STATUS_NO_ADDRS_AVAIL,
};
use crate::leases::{current_is_held, LeaseView, TableView};
use crate::net::{ipv6_of, Ipv6Addr};
use crate::pool6::{
    addr_bits, discover_fails_only_when_exhausted, offer_can_be_taken_up, PoolView, V6Pool,
};
use crate::text::{chars_of, split, split_on, string_of, trim, trimmed, views};

verus! {

/// The IAID of a request; zero where it has no IA_NA.
pub open spec fn iaid_of(req: Packet6View) -> u32 {
    match leading_iana(req.options) {
        Some(ia) => ia.iaid,
        None => 0,
    }
}

/// The address that a client asks for: the first one in its first IA_NA.
pub open spec fn wanted_addr(req: Packet6View) -> Option<Ipv6Addr> {
    match leading_iana(req.options) {
        Some(ia) => if ia.addrs.len() > 0 {
            Some(ia.addrs[0].addr)
        } else {
            None
        },
        None => None,
    }
}

/// What goes into replies.
pub struct Identity {
    pub server_duid: Seq<u8>,
    pub dns: Seq<Ipv6Addr>,
    pub lease_secs: u32,
}

impl Identity {
    /// The reply that gives or offers `ip` to the client `id`.
    pub open spec fn success(
        self,
        req: Packet6View,
        id: Seq<u8>,
        msg_type: MsgType,
        ip: Ipv6Addr,
    ) -> Packet6View {
        let base = seq![
            Option6View::ServerId(self.server_duid),
            Option6View::ClientId(id),
            Option6View::IaNa(
                IaNaView {
                    iaid: iaid_of(req),
                    t1: self.lease_secs / 2,
                    t2: (self.lease_secs - self.lease_secs / 8) as u32,
                    addrs: seq![
                        IaAddr {
                            addr: ip,
                            preferred: self.lease_secs,
                            valid: self.lease_secs,
                        },
                    ],
                },
            ),
        ];
        Packet6View {
            msg_type,
            transaction_id: req.transaction_id,
            options: if self.dns.len() > 0 {
                base.push(Option6View::DnsServers(self.dns))
            } else {
                base
            },
        }
    }

    /// The reply that tells the client `id` that there is no address.
    pub open spec fn nodata(self, req: Packet6View, id: Seq<u8>, msg_type: MsgType) -> Packet6View {
        Packet6View {
            msg_type,
            transaction_id: req.transaction_id,
            options: seq![
                Option6View::ServerId(self.server_duid),
                Option6View::ClientId(id),
                Option6View::IaNa(
                    IaNaView { iaid: iaid_of(req), t1: 0, t2: 0, addrs: Seq::empty() },
                ),
                Option6View::StatusCode(STATUS_NO_ADDRS_AVAIL, "NoAddrsAvail"@),
            ],
        }
    }
}

/// What became of a datagram.
#[derive(Debug)]
pub enum Action6 {
    /// A reply with the address `ip`.
    Success { ip: Ipv6Addr, reply: Packet },
    /// A reply without an address.
    NoData { reply: Packet },
    /// The datagram has no client id.
    NoClientId,
    /// The client asks for no address.
    NoAddress,
    /// The client has given back its lease.
    Freed,
    /// The client had nothing to give back.
    NoLease,
    /// The datagram was meant for another server.
    NotForUs,
    /// The message type is not served.
    Unsupported(MsgType),
}

/// What became of a datagram.
pub enum Action6View {
    Success { ip: Ipv6Addr, reply: Packet6View },
    NoData { reply: Packet6View },
    NoClientId,
    NoAddress,
    Freed,
    NoLease,
    NotForUs,
    Unsupported(MsgType),
}

impl View for Action6 {
    type V = Action6View;

    open spec fn view(&self) -> Action6View {
        match self {
            Action6::Success { ip, reply } => Action6View::Success { ip: *ip, reply: reply@ },
            Action6::NoData { reply } => Action6View::NoData { reply: reply@ },
            Action6::NoClientId => Action6View::NoClientId,
            Action6::NoAddress => Action6View::NoAddress,
            Action6::Freed => Action6View::Freed,
            Action6::NoLease => Action6View::NoLease,
            Action6::NotForUs => Action6View::NotForUs,
            Action6::Unsupported(t) => Action6View::Unsupported(*t),
        }
    }
}

/// What the service knows.
pub struct Service6View {
    pub pool: PoolView,
    pub identity: Identity,
    pub rapid_commit: bool,
}

impl Service6View {
    /// Whether a client that asks for it is answered at once with a Reply.
    pub open spec fn commits_rapidly(self, req: Packet6View) -> bool {
        self.rapid_commit && first_with_code6(req.options, OPT_RAPID_COMMIT) is Some
    }

    /// The reply with the address `r`, or without one.
    pub open spec fn reply(
        self,
        req: Packet6View,
        id: Seq<u8>,
        msg_type: MsgType,
        r: Option<u128>,
    ) -> Action6View {
        match r {
            Some(a) => {
                let ip = Ipv6Addr { bits: a };
                Action6View::Success { ip, reply: self.identity.success(req, id, msg_type, ip) }
            },
            None => Action6View::NoData { reply: self.identity.nodata(req, id, msg_type) },
        }
    }

    /// What becomes of a Solicit.
    pub open spec fn solicit_handled(
        self,
        after: Service6View,
        req: Packet6View,
        id: Seq<u8>,
        now: Instant,
        act: Action6View,
    ) -> bool {
        if self.commits_rapidly(req) {
            exists|r: Option<u128>|
                {
                    &&& self.pool.committed(after.pool, id, now, r)
                    &&& act == #[trigger] self.reply(req, id, MsgType::Reply, r)
                }
        } else {
            exists|r: Option<u128>|
                {
                    &&& self.pool.discovered(after.pool, id, now, r)
                    &&& act == #[trigger] self.reply(req, id, MsgType::Advertise, r)
                }
        }
    }

    /// What becomes of a Request, a Renew or a Rebind.
    pub open spec fn request_handled(
        self,
        after: Service6View,
        req: Packet6View,
        id: Seq<u8>,
        now: Instant,
        act: Action6View,
    ) -> bool {
        match wanted_addr(req) {
            None => act == Action6View::NoAddress && after.pool == self.pool,
            Some(addr) => exists|r: Option<u128>|
                {
                    &&& self.pool.requested(after.pool, id, addr.bits, now, r)
                    &&& act == #[trigger] self.reply(req, id, MsgType::Reply, r)
                },
        }
    }

    /// What becomes of a Release or a Decline.
    pub open spec fn release_handled(
        self,
        after: Service6View,
        req: Packet6View,
        id: Seq<u8>,
        act: Action6View,
    ) -> bool {
        if !names_server(req, self.identity.server_duid) {
            act == Action6View::NotForUs && after.pool == self.pool
        } else if self.pool.table.served(id) {
            act == Action6View::Freed && self.pool.given_back(after.pool, id)
        } else {
            act == Action6View::NoLease && after.pool == self.pool
        }
    }

    /// What becomes of a datagram that arrives at the time `now`.
    pub open spec fn handled(
        self,
        after: Service6View,
        req: Packet6View,
        now: Instant,
        act: Action6View,
    ) -> bool {
        &&& after.identity == self.identity
        &&& after.rapid_commit == self.rapid_commit
        &&& match first_with_code6(req.options, OPT_CLIENTID) {
            Some(Option6View::ClientId(id)) => match req.msg_type {
                MsgType::Solicit => self.solicit_handled(after, req, id, now, act),
                MsgType::Request => self.request_handled(after, req, id, now, act),
                MsgType::Renew => self.request_handled(after, req, id, now, act),
                MsgType::Rebind => self.request_handled(after, req, id, now, act),
                MsgType::Release => self.release_handled(after, req, id, act),
                MsgType::Decline => self.release_handled(after, req, id, act),
                t => act == Action6View::Unsupported(t) && after.pool == self.pool,
            },
            _ => act == Action6View::NoClientId && after.pool == self.pool,
        }
    }
}

/// What a line of the leases file says: a DUID in base sixteen and an address,
/// separated by a comma. Other lines say nothing.
pub open spec fn lease6_line_of(line: Seq<char>) -> Option<(Seq<u8>, Ipv6Addr)> {
    let parts = split_on(line, ',');
    if parts.len() != 2 {
        None
    } else {
        match (duid_of(encode_utf8(trim(parts[0]))), ipv6_of(trim(parts[1]))) {
            (Ok(duid), Some(ip)) => Some((duid, ip)),
            _ => None,
        }
    }
}

/// The IPv6 pool and what goes into replies.
pub struct V6Service {
    pool: V6Pool,
    server_duid: Vec<u8>,
    dns: Vec<Ipv6Addr>,
    lease_secs: u32,
    enable_rapid_commit: bool,
}

impl View for V6Service {
    type V = Service6View;

    closed spec fn view(&self) -> Service6View {
        Service6View {
            pool: self.pool@,
            identity: Identity {
                server_duid: self.server_duid@,
                dns: self.dns@,
                lease_secs: self.lease_secs,
            },
            rapid_commit: self.enable_rapid_commit,
        }
    }
}

impl V6Service {
    /// The clock of the service.
    pub closed spec fn clock(&self) -> Clock {
        self.pool.clock()
    }

    pub closed spec fn wf(&self) -> bool {
        self.pool.wf()
    }

    /// What holds of what a service says: the round robin stands in the range.
    pub proof fn round_robin_in_range(&self)
        requires
            self.wf(),
        ensures
            self@.pool.table.count > 0 ==> self@.pool.last < self@.pool.table.count,
    {
        self.pool.round_robin_in_range();
    }

    /// A service without leases.
    pub fn new(
        start: Ipv6Addr,
        count: u64,
        lease_secs: u32,
        server_duid: Vec<u8>,
        dns: Vec<Ipv6Addr>,
        enable_rapid_commit: bool,
    ) -> (r: V6Service)
        ensures
            r.wf(),
            r@ == (Service6View {
                pool: PoolView {
                    table: TableView {
                        start: start.bits,
                        count,
                        leases: Map::empty(),
                        hints: Map::empty(),
                    },
                    last: 0,
                    lease_duration: Duration { secs: lease_secs as u64, nanos: 0 },
                },
                identity: Identity { server_duid: server_duid@, dns: dns@, lease_secs },
                rapid_commit: enable_rapid_commit,
            }),
    {
        let pool = V6Pool::new(start, count, Duration::from_secs(lease_secs as u64));
        V6Service { pool, server_duid, dns, lease_secs, enable_rapid_commit }
    }

    /// The pool.
    pub fn pool(&self) -> (r: &V6Pool)
        requires
            self.wf(),
        ensures
            r.wf(),
            r@ == self@.pool,
            r.clock() == self.clock(),
    {
        &self.pool
    }

    /// Takes over a line of the leases file as a permanent lease; tells whether
    /// the line says anything.
    pub fn load_line(&mut self, line: &str) -> (r: bool)
        requires
            old(self).wf(),
        ensures
            final(self).wf(),
            final(self).clock() == old(self).clock(),
            match lease6_line_of(line@) {
                None => !r && final(self)@ == old(self)@,
                Some((duid, ip)) => r && final(self)@ == (Service6View {
                    pool: PoolView {
                        table: old(self)@.pool.table.inserted(
                            ip.bits,
                            LeaseView { id: duid, expiry: None, hostname: None },
                        ),
                        ..old(self)@.pool
                    },
                    ..old(self)@
                }),
            },
    {
        let chars = chars_of(line);
        let parts = split(chars.as_slice(), ',');
        let ghost texts = split_on(line@, ',');
        assert(texts == views(parts@));
        if parts.len() != 2 {
            return false;
        }
        assert(texts[0] == parts@[0]@);
        assert(texts[1] == parts@[1]@);
        let duid_text = string_of(trimmed(parts[0].as_slice()));
        match (
            read_duid(duid_text.as_str().as_bytes()),
            Ipv6Addr::parse(trimmed(parts[1].as_slice())),
        ) {
            (Ok(duid), Some(ip)) => {
                self.pool.insert(ip, duid, None);
                true
            },
            _ => false,
        }
    }

    /// Whether the client is answered at once with a Reply.
    pub fn commits_rapidly(&self, req: &Packet) -> (r: bool)
        ensures
            r == self@.commits_rapidly(req@),
    {
        self.enable_rapid_commit && req.option(OPT_RAPID_COMMIT).is_some()
    }

    /// The reply that gives or offers `ip`.
    pub fn success(&self, req: &Packet, client: &[u8], msg_type: MsgType, ip: Ipv6Addr) -> (r:
        Packet)
        ensures
            r@ == self@.identity.success(req@, client@, msg_type, ip),
    {
        let iaid = match req.first_iana() {
            Some(ia) => ia.iaid,
            None => 0,
        };
        let (t1, t2) = default_t1_t2(self.lease_secs);
        let mut addrs: Vec<IaAddr> = Vec::new();
        addrs.push(IaAddr { addr: ip, preferred: self.lease_secs, valid: self.lease_secs });
        let ghost ia = IaAddr { addr: ip, preferred: self.lease_secs, valid: self.lease_secs };
        assert(addrs@ =~= seq![ia]);
        let mut options: Vec<Dhcpv6Option> = Vec::new();
        options.push(Dhcpv6Option::ServerId(slice_to_vec(self.server_duid.as_slice())));
        options.push(Dhcpv6Option::ClientId(slice_to_vec(client)));
        options.push(Dhcpv6Option::IaNa(IaNa { iaid, t1, t2, addrs }));
        if self.dns.len() > 0 {
            options.push(Dhcpv6Option::DnsServers(slice_to_vec(self.dns.as_slice())));
        }
        let r = Packet { msg_type, transaction_id: req.transaction_id, options };
        assert(r@.options =~= self@.identity.success(req@, client@, msg_type, ip).options);
        r
    }

    /// The reply that tells that there is no address.
    pub fn nodata(&self, req: &Packet, client: &[u8], msg_type: MsgType) -> (r: Packet)
        ensures
            r@ == self@.identity.nodata(req@, client@, msg_type),
    {
        let iaid = match req.first_iana() {
            Some(ia) => ia.iaid,
            None => 0,
        };
        let addrs: Vec<IaAddr> = Vec::new();
        let mut options: Vec<Dhcpv6Option> = Vec::new();
        options.push(Dhcpv6Option::ServerId(slice_to_vec(self.server_duid.as_slice())));
        options.push(Dhcpv6Option::ClientId(slice_to_vec(client)));
        options.push(Dhcpv6Option::IaNa(IaNa { iaid, t1: 0, t2: 0, addrs }));
        options.push(
            Dhcpv6Option::StatusCode(STATUS_NO_ADDRS_AVAIL, "NoAddrsAvail".to_owned()),
        );
        let r = Packet { msg_type, transaction_id: req.transaction_id, options };
        assert(r@.options =~= self@.identity.nodata(req@, client@, msg_type).options);
        r
    }

    fn reply(&self, req: &Packet, client: &[u8], msg_type: MsgType, ip: Option<Ipv6Addr>) -> (r:
        Action6)
        ensures
            r@ == self@.reply(req@, client@, msg_type, addr_bits(ip)),
    {
        match ip {
            Some(ip) => Action6::Success { ip, reply: self.success(req, client, msg_type, ip) },
            None => Action6::NoData { reply: self.nodata(req, client, msg_type) },
        }
    }

    fn handle_solicit(&mut self, req: &Packet, client: &[u8], now: Instant) -> (r: Action6)
        requires
            old(self).wf(),
            now.nanos + old(self)@.pool.lease_duration.total() <= i128::MAX,
        ensures
            final(self).wf(),
            final(self).clock() == old(self).clock(),
            final(self)@.identity == old(self)@.identity,
            final(self)@.rapid_commit == old(self)@.rapid_commit,
            old(self)@.solicit_handled(final(self)@, req@, client@, now, r@),
    {
        let rapid = self.commits_rapidly(req);
        let ghost before = self@;
        let offered = self.pool.discover_at(client, now);
        if !rapid {
            let r = self.reply(req, client, MsgType::Advertise, offered);
            assert(r@ == before.reply(req@, client@, MsgType::Advertise, addr_bits(offered)));
            return r;
        }
        let ghost mid = self@.pool;
        let committed = match offered {
            Some(addr) => match self.pool.request_at(client, addr, now) {
                Ok(ip) => Some(ip),
                Err(_) => None,
            },
            None => None,
        };
        assert(before.pool.discovered(mid, client@, now, addr_bits(offered)));
        assert(before.pool.committed(self@.pool, client@, now, addr_bits(committed)));
        let r = self.reply(req, client, MsgType::Reply, committed);
        assert(r@ == before.reply(req@, client@, MsgType::Reply, addr_bits(committed)));
        r
    }

    fn handle_wanted(&mut self, req: &Packet, client: &[u8], now: Instant) -> (r: Action6)
        requires
            old(self).wf(),
            now.nanos + old(self)@.pool.lease_duration.total() <= i128::MAX,
        ensures
            final(self).wf(),
            final(self).clock() == old(self).clock(),
            final(self)@.identity == old(self)@.identity,
            final(self)@.rapid_commit == old(self)@.rapid_commit,
            old(self)@.request_handled(final(self)@, req@, client@, now, r@),
    {
        let ghost before = self@;
        let wanted = match req.first_iana() {
            Some(ia) => if ia.addrs.len() > 0 {
                Some(ia.addrs[0].addr)
            } else {
                None
            },
            None => None,
        };
        match wanted {
            None => Action6::NoAddress,
            Some(addr) => {
                let got = match self.pool.request_at(client, addr, now) {
                    Ok(ip) => Some(ip),
                    Err(_) => None,
                };
                let r = self.reply(req, client, MsgType::Reply, got);
                assert(r@ == before.reply(req@, client@, MsgType::Reply, addr_bits(got)));
                r
            },
        }
    }

    fn handle_release(&mut self, req: &Packet, client: &[u8]) -> (r: Action6)
        requires
            old(self).wf(),
        ensures
            final(self).wf(),
            final(self).clock() == old(self).clock(),
            final(self)@.identity == old(self)@.identity,
            final(self)@.rapid_commit == old(self)@.rapid_commit,
            old(self)@.release_handled(final(self)@, req@, client@, r@),
    {
        if !is_for_server(self.server_duid.as_slice(), req) {
            Action6::NotForUs
        } else if self.pool.release(client) {
            Action6::Freed
        } else {
            Action6::NoLease
        }
    }

    /// Handles a datagram that arrives at the time `now`.
    pub fn handle_at(&mut self, req: &Packet, now: Instant) -> (r: Action6)
        requires
            old(self).wf(),
            now.nanos + old(self)@.pool.lease_duration.total() <= i128::MAX,
        ensures
            final(self).wf(),
            final(self).clock() == old(self).clock(),
            old(self)@.handled(final(self)@, req@, now, r@),
    {
        let client = match req.option(OPT_CLIENTID) {
            Some(Dhcpv6Option::ClientId(d)) => d.as_slice(),
            _ => return Action6::NoClientId,
        };
        match req.msg_type {
            MsgType::Solicit => self.handle_solicit(req, client, now),
            MsgType::Request => self.handle_wanted(req, client, now),
            MsgType::Renew => self.handle_wanted(req, client, now),
            MsgType::Rebind => self.handle_wanted(req, client, now),
            MsgType::Release => self.handle_release(req, client),
            MsgType::Decline => self.handle_release(req, client),
            t => Action6::Unsupported(t),
        }
    }

    /// Handles a datagram.
    pub fn handle(&mut self, req: &Packet) -> (r: Action6)
        requires
            old(self).wf(),
        ensures
            final(self).wf(),
            final(self).clock() == old(self).clock(),
            exists|now: Instant|
                0 <= now.nanos <= LAST_TICK && old(self).clock().shows(now)
                    && #[trigger] old(self)@.handled(
                    final(self)@,
                    req@,
                    now,
                    r@,
                ),
    {
        let now = self.pool.now();
        self.handle_at(req, now)
    }
}

// ---------------------------------------------------------------------------
// What the service promises
// ---------------------------------------------------------------------------

/// A reply goes back under the transaction id of the request and names the
/// server and the client.
pub proof fn replies_echo_the_request(
    s: Service6View,
    after: Service6View,
    req: Packet6View,
    now: Instant,
    act: Action6View,
    id: Seq<u8>,
)
    requires
        s.handled(after, req, now, act),
        first_with_code6(req.options, OPT_CLIENTID) == Some(Option6View::ClientId(id)),
    ensures
        match act {
            Action6View::Success { reply, .. } => {
                &&& reply.transaction_id == req.transaction_id
                &&& names_server(reply, s.identity.server_duid)
                &&& first_with_code6(reply.options, OPT_CLIENTID) == Some(
                    Option6View::ClientId(id),
                )
                &&& leading_iana(reply.options) matches Some(ia) && ia.iaid == iaid_of(req)
            },
            Action6View::NoData { reply } => {
                &&& reply.transaction_id == req.transaction_id
                &&& names_server(reply, s.identity.server_duid)
                &&& first_with_code6(reply.options, OPT_CLIENTID) == Some(
                    Option6View::ClientId(id),
                )
                &&& leading_iana(reply.options) matches Some(ia) && ia.iaid == iaid_of(req)
                    && ia.addrs.len() == 0
            },
            _ => true,
        },
{
    reveal_with_fuel(first_with_code6, 4);
    reveal_with_fuel(leading_iana, 4);
}

/// A Solicit is always answered: with an address exactly when the client holds
/// a lease or can have an address.
pub proof fn solicit_is_always_answered(
    s: Service6View,
    after: Service6View,
    req: Packet6View,
    now: Instant,
    act: Action6View,
    id: Seq<u8>,
)
    requires
        s.handled(after, req, now, act),
        req.msg_type == MsgType::Solicit,
        first_with_code6(req.options, OPT_CLIENTID) == Some(Option6View::ClientId(id)),
    ensures
        act is Success || act is NoData,
        act is NoData <==> !s.pool.table.served(id) && forall|a: u128|
            !#[trigger] s.pool.table.available(id, a, now, false),
{
    if s.commits_rapidly(req) {
        let r = choose|r: Option<u128>|
            {
                &&& s.pool.committed(after.pool, id, now, r)
                &&& act == #[trigger] s.reply(req, id, MsgType::Reply, r)
            };
        let (offered, o) = choose|offered: PoolView, o: Option<u128>|
            {
                &&& #[trigger] s.pool.discovered(offered, id, now, o)
                &&& match o {
                    Some(a) => offered.requested(after.pool, id, a, now, r),
                    None => after.pool == offered && r is None,
                }
            };
        discover_fails_only_when_exhausted(s.pool, offered, id, now, o);
        match o {
            Some(a) => {
                if s.pool.table.served(id) {
                    current_is_held(s.pool.table, id, r);
                } else {
                    offer_can_be_taken_up(s.pool, offered, after.pool, id, now, a, r);
                }
            },
            None => {},
        }
    } else {
        let r = choose|r: Option<u128>|
            {
                &&& s.pool.discovered(after.pool, id, now, r)
                &&& act == #[trigger] s.reply(req, id, MsgType::Advertise, r)
            };
        discover_fails_only_when_exhausted(s.pool, after.pool, id, now, r);
    }
}

/// A Release or a Decline for another server changes nothing, and no other
/// message frees a lease.
pub proof fn only_named_release_frees(
    s: Service6View,
    after: Service6View,
    req: Packet6View,
    now: Instant,
    act: Action6View,
    b: u128,
)
    requires
        s.handled(after, req, now, act),
        s.pool.table.leases.contains_key(b),
        !after.pool.table.leases.contains_key(b),
    ensures
        req.msg_type == MsgType::Release || req.msg_type == MsgType::Decline,
        names_server(req, s.identity.server_duid),
        act == Action6View::Freed,
{
}

/// A lease of another client that is permanent or has not ended stays as it
/// is, whatever a client sends.
pub proof fn live_leases_are_spared(
    s: Service6View,
    after: Service6View,
    req: Packet6View,
    now: Instant,
    act: Action6View,
    b: u128,
)
    requires
        s.handled(after, req, now, act),
        s.pool.table.leases.contains_key(b),
        first_with_code6(req.options, OPT_CLIENTID) != Some(
            Option6View::ClientId(s.pool.table.leases[b].id),
        ),
        s.pool.table.leases[b].expiry matches Some(e) ==> now.nanos <= e.nanos,
    ensures
        after.pool.table.leases.contains_key(b),
        after.pool.table.leases[b] == s.pool.table.leases[b],
{
}

/// A client that gets a Reply with an address holds that address.
pub proof fn replied_client_holds_lease(
    s: Service6View,
    after: Service6View,
    req: Packet6View,
    now: Instant,
    ip: Ipv6Addr,
    reply: Packet6View,
    id: Seq<u8>,
)
    requires
        s.handled(after, req, now, (Action6View::Success { ip, reply })),
        reply.msg_type == MsgType::Reply,
        first_with_code6(req.options, OPT_CLIENTID) == Some(Option6View::ClientId(id)),
    ensures
        after.pool.table.holds(ip.bits, id),
{
    let act = Action6View::Success { ip, reply };
    if req.msg_type == MsgType::Solicit {
        assert(s.commits_rapidly(req));
        let (offered, o) = choose|offered: PoolView, o: Option<u128>|
            {
                &&& #[trigger] s.pool.discovered(offered, id, now, o)
                &&& match o {
                    Some(a) => offered.requested(after.pool, id, a, now, Some(ip.bits)),
                    None => false,
                }
            };
        if s.pool.table.served(id) {
            current_is_held(s.pool.table, id, Some(ip.bits));
        } else {
            offer_can_be_taken_up(s.pool, offered, after.pool, id, now, o->0, Some(ip.bits));
        }
    } else {
        let r = choose|r: Option<u128>|
            {
                &&& s.pool.requested(after.pool, id, wanted_addr(req)->0.bits, now, r)
                &&& act == #[trigger] s.reply(req, id, MsgType::Reply, r)
            };
        if s.pool.table.served(id) {
            current_is_held(s.pool.table, id, r);
        }
        assert(after.pool.table.holds(ip.bits, id));
    }
}

/// An Advertise commits nothing.
pub proof fn advertise_commits_nothing(
    s: Service6View,
    after: Service6View,
    req: Packet6View,
    now: Instant,
    act: Action6View,
)
    requires
        s.handled(after, req, now, act),
        match act {
            Action6View::Success { reply, .. } => reply.msg_type == MsgType::Advertise,
            Action6View::NoData { reply } => reply.msg_type == MsgType::Advertise,
            _ => false,
        },
    ensures
        after.pool.table == s.pool.table,
{
}

/// An advertised address that is requested at once is granted: a client that
/// held nothing gets the address that was advertised to it.
pub proof fn advertised_address_can_be_had(
    s: Service6View,
    advertised: Service6View,
    after: Service6View,
    solicit: Packet6View,
    request: Packet6View,
    now: Instant,
    ip: Ipv6Addr,
    reply: Packet6View,
    act: Action6View,
    id: Seq<u8>,
)
    requires
        s.handled(advertised, solicit, now, (Action6View::Success { ip, reply })),
        reply.msg_type == MsgType::Advertise,
        advertised.handled(after, request, now, act),
        request.msg_type == MsgType::Request,
        wanted_addr(request) == Some(ip),
        first_with_code6(solicit.options, OPT_CLIENTID) == Some(Option6View::ClientId(id)),
        first_with_code6(request.options, OPT_CLIENTID) == Some(Option6View::ClientId(id)),
        !s.pool.table.served(id),
    ensures
        act == advertised.reply(request, id, MsgType::Reply, Some(ip.bits)),
        after.pool.table.holds(ip.bits, id),
{
    let r = choose|r: Option<u128>|
        {
            &&& advertised.pool.requested(after.pool, id, ip.bits, now, r)
            &&& act == #[trigger] advertised.reply(request, id, MsgType::Reply, r)
        };
    offer_can_be_taken_up(s.pool, advertised.pool, after.pool, id, now, ip.bits, r);
}

} // verus!
