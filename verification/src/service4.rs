//! The DHCPv4 service: leases, offers, acknowledgements and refusals.
//!
//! A client is known by its hardware address. A client that holds a lease gets
//! it again; another client is offered the next free address, going round the
//! pool, and gets the address that it asks for if that can be had. Permanent
//! leases and leases that have ended can be given to another client.

use vstd::arithmetic::div_mod::{lemma_add_mod_noop, lemma_small_mod};
use vstd::prelude::*;
use vstd::slice::slice_to_vec;

use crate::clock::{Clock, Duration, Instant, LAST_TICK};
use crate::leases::{
    added_lease_is_current, current_is_held, insert_keeps_hints, next_free_is_available,
    next_free_misses_nothing, release_keeps_hints, Holder, LeaseTable, LeaseView, TableView,
};
use crate::net::{ipv4_of, Ipv4Addr, SocketAddr};
use crate::number::{at_most, read_unsigned, signed_numeral};
use crate::options::{
    addrs_octets, duplicate_options, option_views, DhcpOption, MessageType, OptionView,
    RawDhcpOption, DOMAIN_NAME_SERVER, HOST_NAME, IP_ADDRESS_LEASE_TIME,
    NETWORK_TIME_PROTOCOL_SERVERS, RAPID_COMMIT, REQUESTED_IP_ADDRESS, ROUTER, SERVER_IDENTIFIER,
    SUBNET_MASK,
};
use crate::packet::{announced_type, first_with_code, packet_bytes, Packet, PacketView};
use crate::server::{reply_to, routes, Delivery, Server, ServerView};
use crate::text::{chars_of, split, split_on, trim, trimmed, views};
use crate::wire::push_u32;

verus! {

// ---------------------------------------------------------------------------
// Leases
// ---------------------------------------------------------------------------

/// A lease: the hardware address of the client, the end, and the host name
/// that the client announced.
#[derive(Debug)]
pub struct Lease {
    pub mac: [u8; 6],
    pub expiry: Option<Instant>,
    pub hostname: Option<String>,
}

/// The characters of an optional text.
pub open spec fn text_view(s: Option<String>) -> Option<Seq<char>> {
    match s {
        Some(t) => Some(t@),
        None => None,
    }
}

/// The characters of an optional text.
pub open spec fn str_view(s: Option<&str>) -> Option<Seq<char>> {
    match s {
        Some(t) => Some(t@),
        None => None,
    }
}

impl Holder for Lease {
    open spec fn lease(&self) -> LeaseView {
        LeaseView { id: self.mac@, expiry: self.expiry, hostname: text_view(self.hostname) }
    }

    fn id(&self) -> (r: &[u8]) {
        self.mac.as_slice()
    }

    fn ends(&self) -> (r: Option<Instant>) {
        self.expiry
    }
}

/// The options of offers and acknowledgements: lease time, subnet, router,
/// name servers, and time servers if they are enabled and there are any.
pub open spec fn offer_options_of(
    subnet_mask: Ipv4Addr,
    router_ip: Ipv4Addr,
    dns_ips: Seq<Ipv4Addr>,
    ntp_ips: Seq<Ipv4Addr>,
    enable_ntp: bool,
    lease_secs: u32,
) -> Seq<OptionView> {
    let base = seq![
        OptionView::IpAddressLeaseTime(lease_secs),
        OptionView::SubnetMask(subnet_mask),
        OptionView::Router(seq![router_ip]),
        OptionView::DomainNameServer(dns_ips),
    ];
    if enable_ntp && ntp_ips.len() > 0 {
        base.push(OptionView::Unrecognized(NETWORK_TIME_PROTOCOL_SERVERS, addrs_octets(ntp_ips)))
    } else {
        base
    }
}

/// The options of offers and acknowledgements.
pub fn build_offer_options(
    subnet_mask: Ipv4Addr,
    router_ip: Ipv4Addr,
    dns_ips: &[Ipv4Addr],
    ntp_ips: &[Ipv4Addr],
    enable_ntp: bool,
    lease_secs: u32,
) -> (r: Vec<DhcpOption>)
    ensures
        option_views(r@) == offer_options_of(
            subnet_mask,
            router_ip,
            dns_ips@,
            ntp_ips@,
            enable_ntp,
            lease_secs,
        ),
        first_with_code(option_views(r@), SUBNET_MASK) == Some(
            OptionView::SubnetMask(subnet_mask),
        ),
        first_with_code(option_views(r@), ROUTER) == Some(OptionView::Router(seq![router_ip])),
        first_with_code(option_views(r@), IP_ADDRESS_LEASE_TIME) == Some(
            OptionView::IpAddressLeaseTime(lease_secs),
        ),
        first_with_code(option_views(r@), DOMAIN_NAME_SERVER) == Some(
            OptionView::DomainNameServer(dns_ips@),
        ),
{
    let mut opts: Vec<DhcpOption> = Vec::new();
    opts.push(DhcpOption::IpAddressLeaseTime(lease_secs));
    opts.push(DhcpOption::SubnetMask(subnet_mask));
    let mut routers: Vec<Ipv4Addr> = Vec::new();
    routers.push(router_ip);
    assert(routers@ =~= seq![router_ip]);
    opts.push(DhcpOption::Router(routers));
    opts.push(DhcpOption::DomainNameServer(slice_to_vec(dns_ips)));
    let ghost base = option_views(opts@);
    assert(base =~= offer_options_of(
        subnet_mask,
        router_ip,
        dns_ips@,
        ntp_ips@,
        false,
        lease_secs,
    ));
    if enable_ntp && ntp_ips.len() > 0 {
        let mut data: Vec<u8> = Vec::new();
        let mut i: usize = 0;
        while i < ntp_ips.len()
            invariant
                i <= ntp_ips@.len(),
                data@ == addrs_octets(ntp_ips@.take(i as int)),
            decreases ntp_ips@.len() - i,
        {
            assert(ntp_ips@.take(i + 1).drop_last() =~= ntp_ips@.take(i as int));
            push_u32(&mut data, ntp_ips[i].bits);
            i = i + 1;
        }
        assert(ntp_ips@.take(i as int) =~= ntp_ips@);
        opts.push(
            DhcpOption::Unrecognized(RawDhcpOption { code: NETWORK_TIME_PROTOCOL_SERVERS, data }),
        );
        assert(option_views(opts@) =~= base.push(
            OptionView::Unrecognized(NETWORK_TIME_PROTOCOL_SERVERS, addrs_octets(ntp_ips@)),
        ));
    }
    proof {
        reveal_with_fuel(first_with_code, 5);
    }
    opts
}

/// The host name that a client announces.
pub open spec fn announced_name(p: PacketView) -> Option<Seq<char>> {
    match first_with_code(p.options, HOST_NAME) {
        Some(OptionView::HostName(name)) => Some(name),
        _ => None,
    }
}

/// The host name that the client announces, if any.
pub fn hostname_of<'a>(in_packet: &'a Packet) -> (r: Option<&'a str>)
    ensures
        str_view(r) == announced_name(in_packet@),
{
    match in_packet.option(HOST_NAME) {
        Some(DhcpOption::HostName(name)) => Some(name.as_str()),
        _ => None,
    }
}

/// The address that a client asks for: the requested address option, or else
/// the address that it says it has.
pub open spec fn wanted_ip(p: PacketView) -> Ipv4Addr {
    match first_with_code(p.options, REQUESTED_IP_ADDRESS) {
        Some(OptionView::RequestedIpAddress(a)) => a,
        _ => p.ciaddr,
    }
}

/// The address that the client asks for.
pub fn requested_ip(in_packet: &Packet) -> (r: Ipv4Addr)
    ensures
        r == wanted_ip(in_packet@),
{
    match in_packet.option(REQUESTED_IP_ADDRESS) {
        Some(DhcpOption::RequestedIpAddress(a)) => *a,
        _ => in_packet.ciaddr,
    }
}

// ---------------------------------------------------------------------------
// The leases file
// ---------------------------------------------------------------------------

/// The bytes that the pieces spell in base sixteen; pieces that spell no byte
/// are left out.
pub open spec fn hex_octets(pieces: Seq<Seq<char>>) -> Seq<u8>
    decreases pieces.len(),
{
    if pieces.len() == 0 {
        Seq::empty()
    } else {
        let before = hex_octets(pieces.drop_last());
        match at_most(signed_numeral(pieces.last(), 16), 255) {
            Some(v) => before.push(v as u8),
            None => before,
        }
    }
}

/// What a line of the leases file says.
pub enum LeaseLineView {
    /// Nothing: the line has another form.
    Nothing,
    /// A hardware address with something that is no address.
    BadAddress,
    /// A permanent lease.
    Reservation(Seq<u8>, Ipv4Addr),
}

/// What a line `mac,ip` says.
pub open spec fn lease_line_of(line: Seq<char>) -> LeaseLineView {
    let parts = split_on(line, ',');
    if parts.len() != 2 {
        LeaseLineView::Nothing
    } else {
        let mac = hex_octets(split_on(parts[0], ':'));
        if mac.len() != 6 {
            LeaseLineView::Nothing
        } else {
            match ipv4_of(trim(parts[1])) {
                Some(ip) => LeaseLineView::Reservation(mac, ip),
                None => LeaseLineView::BadAddress,
            }
        }
    }
}

/// What became of a line of the leases file.
#[derive(Debug, Clone, Copy, PartialEq, Eq, Structural)]
pub enum LoadedLine {
    /// The line says nothing.
    Skipped,
    /// The line has no valid address.
    BadAddress,
    /// The line was taken over.
    Loaded,
}

fn read_hex_octets(pieces: &Vec<Vec<char>>) -> (r: Vec<u8>)
    ensures
        r@ == hex_octets(views(pieces@)),
{
    let ghost texts = views(pieces@);
    let mut r: Vec<u8> = Vec::new();
    let mut i: usize = 0;
    while i < pieces.len()
        invariant
            i <= pieces@.len(),
            texts == views(pieces@),
            r@ == hex_octets(texts.take(i as int)),
        decreases pieces@.len() - i,
    {
        assert(texts.take(i + 1).drop_last() =~= texts.take(i as int));
        assert(texts[i as int] == pieces@[i as int]@);
        match read_unsigned(pieces[i].as_slice(), 16, 255) {
            Some(v) => r.push(v as u8),
            None => {},
        }
        i = i + 1;
    }
    assert(texts.take(i as int) =~= texts);
    r
}

// ---------------------------------------------------------------------------
// What the service does
// ---------------------------------------------------------------------------

/// What became of a packet.
#[derive(Debug)]
pub enum Action {
    /// An offer or an acknowledgement of `ip`, which the client held before or
    /// not.
    Answer { msg_type: MessageType, ip: Ipv4Addr, existing: bool, delivery: Delivery },
    /// There is no address to offer; nothing is sent.
    Exhausted,
    /// The requested address cannot be had.
    Refuse { requested: Ipv4Addr, in_pool: bool, delivery: Delivery },
    /// The client has given back its lease.
    Freed { ip: Ipv4Addr },
    /// The client had nothing to give back.
    NoLease,
    /// The packet was meant for another server.
    NotForUs,
    /// The message type is not served.
    Unsupported(MessageType),
    /// The packet has no message type, for the given reason.
    Untyped(String),
}

/// What became of a packet.
pub enum ActionView {
    Answer {
        msg_type: MessageType,
        ip: Ipv4Addr,
        existing: bool,
        wire: Seq<u8>,
        dests: Seq<SocketAddr>,
    },
    Exhausted,
    Refuse { requested: Ipv4Addr, in_pool: bool, wire: Seq<u8>, dests: Seq<SocketAddr> },
    Freed { ip: Ipv4Addr },
    NoLease,
    NotForUs,
    Unsupported(MessageType),
    Untyped(Seq<char>),
}

impl View for Action {
    type V = ActionView;

    open spec fn view(&self) -> ActionView {
        match self {
            Action::Answer { msg_type, ip, existing, delivery } => ActionView::Answer {
                msg_type: *msg_type,
                ip: *ip,
                existing: *existing,
                wire: delivery.wire@,
                dests: delivery.dests@,
            },
            Action::Exhausted => ActionView::Exhausted,
            Action::Refuse { requested, in_pool, delivery } => ActionView::Refuse {
                requested: *requested,
                in_pool: *in_pool,
                wire: delivery.wire@,
                dests: delivery.dests@,
            },
            Action::Freed { ip } => ActionView::Freed { ip: *ip },
            Action::NoLease => ActionView::NoLease,
            Action::NotForUs => ActionView::NotForUs,
            Action::Unsupported(t) => ActionView::Unsupported(*t),
            Action::Untyped(e) => ActionView::Untyped(e@),
        }
    }
}

/// What the service knows.
pub struct ServiceView {
    pub table: TableView,
    /// The offset of the address that was offered last.
    pub last: u64,
    pub lease_duration: Duration,
    pub rapid_commit: bool,
    /// The options of offers and acknowledgements.
    pub offer: Seq<OptionView>,
}

impl ServiceView {
    /// Whether a client that asks for it is answered at once with an
    /// acknowledgement.
    pub open spec fn commits_rapidly(self, p: PacketView) -> bool {
        self.rapid_commit && first_with_code(p.options, RAPID_COMMIT) is Some
    }

    /// The service with the host name of the lease of `a` brought up to date;
    /// a client that announces none keeps the one it has.
    pub open spec fn remembered(self, a: u128, hostname: Option<Seq<char>>) -> ServiceView {
        if hostname is Some && self.table.leases.contains_key(a) {
            ServiceView {
                table: TableView {
                    leases: self.table.leases.insert(
                        a,
                        LeaseView { hostname, ..self.table.leases[a] },
                    ),
                    ..self.table
                },
                ..self
            }
        } else {
            self
        }
    }

    /// The lease that a client gets at the time `now`.
    pub open spec fn new_lease(self, p: PacketView, now: Instant) -> LeaseView {
        LeaseView {
            id: p.chaddr,
            expiry: Some(
                Instant { nanos: (now.nanos + self.lease_duration.total()) as i128 },
            ),
            hostname: announced_name(p),
        }
    }

    /// The service with a new lease of `a`.
    pub open spec fn leased(self, a: u128, p: PacketView, now: Instant) -> ServiceView {
        ServiceView { table: self.table.inserted(a, self.new_lease(p, now)), ..self }
    }

    /// The offset of the next address that the client can have.
    pub open spec fn next(self, id: Seq<u8>, now: Instant) -> Option<nat> {
        self.table.next_free(id, now, true, self.last as nat, self.table.count as nat)
    }

    /// An offer or an acknowledgement of `a`.
    pub open spec fn answer(
        self,
        srv: ServerView,
        p: PacketView,
        msg_type: MessageType,
        a: u128,
        existing: bool,
    ) -> ActionView {
        let ip = Ipv4Addr { bits: a as u32 };
        ActionView::Answer {
            msg_type,
            ip,
            existing,
            wire: packet_bytes(reply_to(srv.server_ip, msg_type, self.offer, ip, p)),
            dests: routes(srv.src, p.broadcast, ip, srv.broadcasts),
        }
    }

    /// The refusal of an address.
    pub open spec fn refusal(self, srv: ServerView, p: PacketView) -> ActionView {
        let none = Ipv4Addr { bits: 0 };
        ActionView::Refuse {
            requested: wanted_ip(p),
            in_pool: self.table.in_range(wanted_ip(p).bits as u128),
            wire: packet_bytes(
                reply_to(
                    srv.server_ip,
                    MessageType::Nak,
                    seq![OptionView::Message("Requested IP not available"@)],
                    none,
                    p,
                ),
            ),
            dests: routes(srv.src, p.broadcast, none, srv.broadcasts),
        }
    }

    /// The answer to a client with a lease: that lease, with its host name
    /// brought up to date.
    pub open spec fn renewed(
        self,
        after: ServiceView,
        srv: ServerView,
        p: PacketView,
        msg_type: MessageType,
        act: ActionView,
    ) -> bool {
        exists|a: u128|
            {
                &&& #[trigger] self.table.current(p.chaddr, Some(a))
                &&& after == self.remembered(a, announced_name(p))
                &&& act == self.answer(srv, p, msg_type, a, true)
            }
    }

    /// What becomes of a Discover.
    pub open spec fn discover_handled(
        self,
        after: ServiceView,
        srv: ServerView,
        p: PacketView,
        now: Instant,
        act: ActionView,
    ) -> bool {
        let rapid = self.commits_rapidly(p);
        let msg_type = if rapid {
            MessageType::Ack
        } else {
            MessageType::Offer
        };
        if self.table.served(p.chaddr) {
            self.renewed(after, srv, p, msg_type, act)
        } else {
            match self.next(p.chaddr, now) {
                Some(n) => {
                    let a = (self.table.start + n) as u128;
                    let moved = ServiceView { last: n as u64, ..self };
                    &&& act == self.answer(srv, p, msg_type, a, false)
                    &&& after == if rapid {
                        moved.leased(a, p, now)
                    } else {
                        moved
                    }
                },
                None => act == ActionView::Exhausted && after == self,
            }
        }
    }

    /// What becomes of a Request, whatever server it names.
    pub open spec fn request_handled(
        self,
        after: ServiceView,
        srv: ServerView,
        p: PacketView,
        now: Instant,
        act: ActionView,
    ) -> bool {
        let a = wanted_ip(p).bits as u128;
        if self.table.served(p.chaddr) {
            self.renewed(after, srv, p, MessageType::Ack, act)
        } else if self.table.available(p.chaddr, a, now, true) {
            &&& act == self.answer(srv, p, MessageType::Ack, a, false)
            &&& after == self.leased(a, p, now)
        } else {
            act == self.refusal(srv, p) && after == self
        }
    }

    /// Whether the client `id` has given back its current lease of `a`.
    pub open spec fn freed(self, after: ServiceView, id: Seq<u8>, a: u128) -> bool {
        &&& self.table.current(id, Some(a))
        &&& exists|other: Option<u128>|
            {
                &&& after == (ServiceView {
                    table: #[trigger] self.table.released(id, a, other),
                    ..self
                })
                &&& self.table.hinted(id, a) ==> after.table.found(id, other)
            }
    }

    /// What becomes of a Release or a Decline.
    pub open spec fn release_handled(
        self,
        after: ServiceView,
        srv: ServerView,
        p: PacketView,
        act: ActionView,
    ) -> bool {
        if first_with_code(p.options, SERVER_IDENTIFIER) != Some(
            OptionView::ServerIdentifier(srv.server_ip),
        ) {
            act == ActionView::NotForUs && after == self
        } else if self.table.served(p.chaddr) {
            exists|a: u128| #[trigger]
                self.freed(after, p.chaddr, a) && act == (ActionView::Freed {
                    ip: Ipv4Addr { bits: a as u32 },
                })
        } else {
            act == ActionView::NoLease && after == self
        }
    }

    /// What becomes of a packet that arrives at the time `now`.
    pub open spec fn handled(
        self,
        after: ServiceView,
        srv: ServerView,
        p: PacketView,
        now: Instant,
        act: ActionView,
    ) -> bool {
        match announced_type(p.options) {
            Ok(MessageType::Discover) => self.discover_handled(after, srv, p, now, act),
            Ok(MessageType::Request) => self.request_handled(after, srv, p, now, act),
            Ok(MessageType::Release) => self.release_handled(after, srv, p, act),
            Ok(MessageType::Decline) => self.release_handled(after, srv, p, act),
            Ok(t) => act == ActionView::Unsupported(t) && after == self,
            Err(e) => act == ActionView::Untyped(e) && after == self,
        }
    }

    /// The pool ends within the IPv4 addresses, no lease lies outside of them,
    /// the round robin stands in the pool, and hints hold.
    pub open spec fn wf(self) -> bool {
        &&& self.table.start + self.table.count <= 0x1_0000_0000
        &&& forall|a: u128| #[trigger] self.table.leases.contains_key(a) ==> a <= u32::MAX
        &&& self.table.count > 0 ==> self.last < self.table.count
        &&& self.table.hints_hold()
    }
}

/// The leases of an IPv4 pool and what goes into replies.
pub struct LeaseServer {
    table: LeaseTable<Lease>,
    last_lease: u64,
    lease_duration: Duration,
    enable_rapid_commit: bool,
    cached_offer: Vec<DhcpOption>,
    clock: Clock,
}

impl View for LeaseServer {
    type V = ServiceView;

    closed spec fn view(&self) -> ServiceView {
        ServiceView {
            table: self.table@,
            last: self.last_lease,
            lease_duration: self.lease_duration,
            rapid_commit: self.enable_rapid_commit,
            offer: option_views(self.cached_offer@),
        }
    }
}

impl LeaseServer {
    /// The clock of the service.
    pub closed spec fn clock(&self) -> Clock {
        self.clock
    }

    pub closed spec fn wf(&self) -> bool {
        self.table.wf() && self@.wf()
    }

    /// What holds of what a service says.
    pub proof fn view_is_wf(&self)
        requires
            self.wf(),
        ensures
            self@.wf(),
    {
    }

    /// A service without leases for `lease_num` addresses from `ip_start` on,
    /// which have to be IPv4 addresses.
    pub fn new(
        ip_start: Ipv4Addr,
        lease_num: u32,
        lease_duration: Duration,
        enable_rapid_commit: bool,
        offer: Vec<DhcpOption>,
    ) -> (r: LeaseServer)
        requires
            ip_start.bits + lease_num <= 0x1_0000_0000,
        ensures
            r.wf(),
            r@ == (ServiceView {
                table: TableView {
                    start: ip_start.bits as u128,
                    count: lease_num as u64,
                    leases: Map::empty(),
                    hints: Map::empty(),
                },
                last: 0,
                lease_duration,
                rapid_commit: enable_rapid_commit,
                offer: option_views(offer@),
            }),
    {
        LeaseServer {
            table: LeaseTable::new(ip_start.to_bits() as u128, lease_num as u64),
            last_lease: 0,
            lease_duration,
            enable_rapid_commit,
            cached_offer: offer,
            clock: Clock::start(),
        }
    }

    /// The time by the clock of the service.
    pub fn now(&self) -> (r: Instant)
        ensures
            0 <= r.nanos <= LAST_TICK,
            self.clock().shows(r),
    {
        self.clock.now()
    }

    /// The number of leases, in the pool or not.
    pub fn len(&self) -> (r: usize)
        requires
            self.wf(),
        ensures
            self@.table.leases.dom().finite(),
            r == if self@.table.leases.dom().len() <= usize::MAX {
                self@.table.leases.dom().len() as int
            } else {
                usize::MAX as int
            },
    {
        self.table.len()
    }

    pub fn is_empty(&self) -> (r: bool)
        requires
            self.wf(),
        ensures
            r == self@.table.vacant(),
    {
        self.table.is_empty()
    }

    /// The lease of `addr`.
    pub fn lookup(&self, addr: &Ipv4Addr) -> (r: Option<&Lease>)
        requires
            self.wf(),
        ensures
            match r {
                Some(l) => {
                    &&& self@.table.leases.contains_key(addr.bits as u128)
                    &&& self@.table.leases[addr.bits as u128] == l.lease()
                },
                None => !self@.table.leases.contains_key(addr.bits as u128),
            },
    {
        self.table.get(addr.to_bits() as u128)
    }

    /// Whether the client can have `addr` at the time `now`.
    pub fn available_at(&self, chaddr: &[u8; 6], addr: &Ipv4Addr, now: Instant) -> (r: bool)
        requires
            self.wf(),
        ensures
            r == self@.table.available(chaddr@, addr.bits as u128, now, true),
    {
        self.table.available_at(chaddr.as_slice(), addr.to_bits() as u128, now, true)
    }

    /// The current lease of the client.
    pub fn current_lease(&self, chaddr: &[u8; 6]) -> (r: Option<Ipv4Addr>)
        requires
            self.wf(),
        ensures
            match r {
                Some(ip) => self@.table.current(chaddr@, Some(ip.bits as u128)),
                None => self@.table.current(chaddr@, None),
            },
    {
        match self.table.current(chaddr.as_slice()) {
            Some(a) => {
                assert(self@.table.leases.contains_key(a));
                Some(Ipv4Addr::from_bits(a as u32))
            },
            None => None,
        }
    }

    /// Adds or replaces the lease of `ip`. A client may hold several addresses.
    pub fn insert_lease(
        &mut self,
        ip: Ipv4Addr,
        mac: [u8; 6],
        expiry: Option<Instant>,
        hostname: Option<&str>,
    )
        requires
            old(self).wf(),
        ensures
            final(self).wf(),
            final(self).clock() == old(self).clock(),
            final(self)@ == (ServiceView {
                table: old(self)@.table.inserted(
                    ip.bits as u128,
                    (LeaseView { id: mac@, expiry, hostname: str_view(hostname) }),
                ),
                ..old(self)@
            }),
    {
        let ghost before = self@;
        let owned: Option<String> = match hostname {
            Some(s) => Some(s.to_owned()),
            None => None,
        };
        let lease = Lease { mac, expiry, hostname: owned };
        proof {
            insert_keeps_hints(self@.table, ip.bits as u128, lease.lease());
        }
        self.table.insert(ip.to_bits() as u128, lease);
        assert forall|a: u128| #[trigger] self@.table.leases.contains_key(a) implies a
            <= u32::MAX by {
            assert(a == ip.bits as u128 || before.table.leases.contains_key(a));
        }
    }

    /// Takes over a line `mac,ip` of the leases file as a permanent lease.
    pub fn load_line(&mut self, line: &str) -> (r: LoadedLine)
        requires
            old(self).wf(),
        ensures
            final(self).wf(),
            final(self).clock() == old(self).clock(),
            match lease_line_of(line@) {
                LeaseLineView::Nothing => r == LoadedLine::Skipped && final(self)@ == old(self)@,
                LeaseLineView::BadAddress => {
                    &&& r == LoadedLine::BadAddress
                    &&& final(self)@ == old(self)@
                },
                LeaseLineView::Reservation(mac, ip) => {
                    &&& r == LoadedLine::Loaded
                    &&& final(self)@ == (ServiceView {
                        table: old(self)@.table.inserted(
                            ip.bits as u128,
                            (LeaseView { id: mac, expiry: None, hostname: None }),
                        ),
                        ..old(self)@
                    })
                },
            },
    {
        let chars = chars_of(line);
        let parts = split(chars.as_slice(), ',');
        let ghost texts = split_on(line@, ',');
        assert(texts == views(parts@));
        if parts.len() != 2 {
            return LoadedLine::Skipped;
        }
        assert(texts[0] == parts@[0]@);
        assert(texts[1] == parts@[1]@);
        let pieces = split(parts[0].as_slice(), ':');
        let octets = read_hex_octets(&pieces);
        if octets.len() != 6 {
            return LoadedLine::Skipped;
        }
        let mac: [u8; 6] = [octets[0], octets[1], octets[2], octets[3], octets[4], octets[5]];
        assert(mac@ =~= octets@);
        match Ipv4Addr::parse(trimmed(parts[1].as_slice())) {
            Some(ip) => {
                self.insert_lease(ip, mac, None, None);
                LoadedLine::Loaded
            },
            None => LoadedLine::BadAddress,
        }
    }

    /// Frees the current lease of the client; returns its address.
    pub fn remove_lease(&mut self, chaddr: &[u8; 6]) -> (r: Option<Ipv4Addr>)
        requires
            old(self).wf(),
        ensures
            final(self).wf(),
            final(self).clock() == old(self).clock(),
            match r {
                None => !old(self)@.table.served(chaddr@) && final(self)@ == old(self)@,
                Some(ip) => {
                    &&& old(self)@.table.served(chaddr@)
                    &&& old(self)@.freed(final(self)@, chaddr@, ip.bits as u128)
                },
            },
    {
        let ghost before = self@;
        match self.table.release(chaddr.as_slice()) {
            None => {
                proof {
                    current_is_held(before.table, chaddr@, None);
                }
                None
            },
            Some(a) => {
                let ip = Ipv4Addr::from_bits(a as u32);
                proof {
                    assert(before.table.holds(a, chaddr@));
                    assert(before.table.leases.contains_key(a));
                    assert(ip.bits as u128 == a);
                    let other = choose|other: Option<u128>|
                        {
                            &&& self.table@ == #[trigger] before.table.released(
                                chaddr@,
                                a,
                                other,
                            )
                            &&& before.table.hinted(chaddr@, a) ==> self.table@.found(
                                chaddr@,
                                other,
                            )
                        };
                    release_keeps_hints(before.table, chaddr@, a, other);
                    assert forall|b: u128| #[trigger]
                        self@.table.leases.contains_key(b) implies b <= u32::MAX by {
                        assert(before.table.leases.contains_key(b));
                    }
                    assert(self@.table == before.table.released(chaddr@, ip.bits as u128, other));
                }
                Some(ip)
            },
        }
    }

    /// Brings the host name of a lease up to date. Without a host name the
    /// stored one stays.
    pub fn remember_hostname(&mut self, ip: &Ipv4Addr, hostname: &Option<&str>)
        requires
            old(self).wf(),
        ensures
            final(self).wf(),
            final(self).clock() == old(self).clock(),
            final(self)@ == old(self)@.remembered(ip.bits as u128, str_view(*hostname)),
    {
        let ghost before = self@;
        let ghost a = ip.bits as u128;
        match hostname {
            Some(name) => match self.table.take(ip.to_bits() as u128) {
                Some(l) => {
                    let named = Lease {
                        mac: l.mac,
                        expiry: l.expiry,
                        hostname: Some((*name).to_owned()),
                    };
                    let ghost new = named.lease();
                    self.table.put(ip.to_bits() as u128, named);
                    proof {
                        assert(self@.table.leases =~= before.table.leases.insert(a, new));
                        assert(self@ == before.remembered(a, str_view(*hostname)));
                        assert forall|id: Seq<u8>| #[trigger]
                            self@.table.hints.contains_key(id) implies self@.table.holds(
                            self@.table.hints[id],
                            id,
                        ) by {
                            assert(before.table.hints.contains_key(id));
                            assert(before.table.holds(before.table.hints[id], id));
                        }
                        assert forall|b: u128| #[trigger]
                            self@.table.leases.contains_key(b) implies b <= u32::MAX by {
                            assert(before.table.leases.contains_key(b));
                        }
                    }
                },
                None => {
                    assert(self@.table.leases =~= before.table.leases);
                },
            },
            None => {},
        }
    }

    /// The options of offers and acknowledgements.
    pub fn offer_options(&self) -> (r: Vec<DhcpOption>)
        ensures
            option_views(r@) == self@.offer,
    {
        duplicate_options(self.cached_offer.as_slice())
    }

    /// Whether the client is answered at once with an acknowledgement.
    pub fn commits_rapidly(&self, in_packet: &Packet) -> (r: bool)
        ensures
            r == self@.commits_rapidly(in_packet@),
    {
        self.enable_rapid_commit && in_packet.option(RAPID_COMMIT).is_some()
    }

    fn answer(
        &self,
        server: &Server,
        msg_type: MessageType,
        in_packet: &Packet,
        ip: Ipv4Addr,
        existing: bool,
    ) -> (r: Action)
        ensures
            r@ == self@.answer(server@, in_packet@, msg_type, ip.bits as u128, existing),
    {
        let delivery = server.reply(msg_type, self.offer_options(), ip, in_packet);
        Action::Answer { msg_type, ip, existing, delivery }
    }

    fn refuse(&self, server: &Server, in_packet: &Packet, requested: Ipv4Addr) -> (r: Action)
        requires
            requested == wanted_ip(in_packet@),
        ensures
            r@ == self@.refusal(server@, in_packet@),
    {
        let mut opts: Vec<DhcpOption> = Vec::new();
        opts.push(DhcpOption::Message("Requested IP not available".to_owned()));
        assert(option_views(opts@) =~= seq![OptionView::Message("Requested IP not available"@)]);
        let delivery = server.reply(MessageType::Nak, opts, Ipv4Addr::unspecified(), in_packet);
        let in_pool = self.table.in_range(requested.to_bits() as u128);
        Action::Refuse { requested, in_pool, delivery }
    }

    fn renew(
        &mut self,
        server: &Server,
        msg_type: MessageType,
        in_packet: &Packet,
        ip: Ipv4Addr,
    ) -> (r: Action)
        requires
            old(self).wf(),
            old(self)@.table.current(in_packet@.chaddr, Some(ip.bits as u128)),
        ensures
            final(self).wf(),
            final(self).clock() == old(self).clock(),
            old(self)@.renewed(final(self)@, server@, in_packet@, msg_type, r@),
    {
        let hostname = hostname_of(in_packet);
        self.remember_hostname(&ip, &hostname);
        self.answer(server, msg_type, in_packet, ip, true)
    }

    /// Handles a Discover. With rapid commit enabled and asked for, the
    /// address is committed and acknowledged at once; the requested address
    /// does not steer the choice either way.
    fn handle_discover(&mut self, server: &Server, in_packet: &Packet, now: Instant) -> (r: Action)
        requires
            old(self).wf(),
            now.nanos + old(self)@.lease_duration.total() <= i128::MAX,
        ensures
            final(self).wf(),
            final(self).clock() == old(self).clock(),
            old(self)@.discover_handled(final(self)@, server@, in_packet@, now, r@),
    {
        let ghost before = self@;
        let rapid = self.commits_rapidly(in_packet);
        let msg_type = if rapid {
            MessageType::Ack
        } else {
            MessageType::Offer
        };
        match self.current_lease(&in_packet.chaddr) {
            Some(ip) => {
                proof {
                    current_is_held(self@.table, in_packet@.chaddr, Some(ip.bits as u128));
                }
                return self.renew(server, msg_type, in_packet, ip);
            },
            None => {
                proof {
                    current_is_held(self@.table, in_packet@.chaddr, None);
                }
            },
        }
        let found = self.table.next_free(in_packet.chaddr.as_slice(), now, true, self.last_lease);
        match found {
            Some(n) => {
                self.last_lease = n;
                let ip = Ipv4Addr::from_bits((self.table.start() + n as u128) as u32);
                if rapid {
                    let expiry = now.plus(self.lease_duration);
                    self.insert_lease(
                        ip,
                        in_packet.chaddr,
                        Some(expiry),
                        hostname_of(in_packet),
                    );
                }
                self.answer(server, msg_type, in_packet, ip, false)
            },
            None => Action::Exhausted,
        }
    }

    /// Handles a Request. It is served even if it names another server.
    fn handle_wanted(&mut self, server: &Server, in_packet: &Packet, now: Instant) -> (r: Action)
        requires
            old(self).wf(),
            now.nanos + old(self)@.lease_duration.total() <= i128::MAX,
        ensures
            final(self).wf(),
            final(self).clock() == old(self).clock(),
            old(self)@.request_handled(final(self)@, server@, in_packet@, now, r@),
    {
        match self.current_lease(&in_packet.chaddr) {
            Some(ip) => {
                proof {
                    current_is_held(self@.table, in_packet@.chaddr, Some(ip.bits as u128));
                }
                return self.renew(server, MessageType::Ack, in_packet, ip);
            },
            None => {
                proof {
                    current_is_held(self@.table, in_packet@.chaddr, None);
                }
            },
        }
        let req_ip = requested_ip(in_packet);
        if !self.available_at(&in_packet.chaddr, &req_ip, now) {
            return self.refuse(server, in_packet, req_ip);
        }
        let expiry = now.plus(self.lease_duration);
        self.insert_lease(req_ip, in_packet.chaddr, Some(expiry), hostname_of(in_packet));
        self.answer(server, MessageType::Ack, in_packet, req_ip, false)
    }

    /// Handles a Release or a Decline, which have to name this server.
    fn handle_release(&mut self, server: &Server, in_packet: &Packet) -> (r: Action)
        requires
            old(self).wf(),
        ensures
            final(self).wf(),
            final(self).clock() == old(self).clock(),
            old(self)@.release_handled(final(self)@, server@, in_packet@, r@),
    {
        if !server.for_this_server(in_packet) {
            return Action::NotForUs;
        }
        match self.remove_lease(&in_packet.chaddr) {
            Some(ip) => Action::Freed { ip },
            None => Action::NoLease,
        }
    }

    /// Handles a packet that arrives at the time `now`.
    pub fn handle_request_at(&mut self, server: &Server, in_packet: &Packet, now: Instant) -> (r:
        Action)
        requires
            old(self).wf(),
            now.nanos + old(self)@.lease_duration.total() <= i128::MAX,
        ensures
            final(self).wf(),
            final(self).clock() == old(self).clock(),
            old(self)@.handled(final(self)@, server@, in_packet@, now, r@),
    {
        match in_packet.message_type() {
            Ok(MessageType::Discover) => self.handle_discover(server, in_packet, now),
            Ok(MessageType::Request) => self.handle_wanted(server, in_packet, now),
            Ok(MessageType::Release) => self.handle_release(server, in_packet),
            Ok(MessageType::Decline) => self.handle_release(server, in_packet),
            Ok(t) => Action::Unsupported(t),
            Err(e) => Action::Untyped(e),
        }
    }

    /// Handles a packet.
    pub fn handle_request(&mut self, server: &Server, in_packet: &Packet) -> (r: Action)
        requires
            old(self).wf(),
        ensures
            final(self).wf(),
            final(self).clock() == old(self).clock(),
            exists|now: Instant|
                0 <= now.nanos <= LAST_TICK && old(self).clock().shows(now)
                    && #[trigger] old(self)@.handled(
                    final(self)@,
                    server@,
                    in_packet@,
                    now,
                    r@,
                ),
    {
        let now = self.clock.now();
        self.handle_request_at(server, in_packet, now)
    }
}

// ---------------------------------------------------------------------------
// What the service promises
// ---------------------------------------------------------------------------

/// A timed lease of another client that has not ended stays as it is, whatever
/// a client sends.
pub proof fn live_leases_are_spared(
    s: ServiceView,
    after: ServiceView,
    srv: ServerView,
    p: PacketView,
    now: Instant,
    act: ActionView,
    b: u128,
)
    requires
        s.handled(after, srv, p, now, act),
        s.table.leases.contains_key(b),
        s.table.leases[b].id != p.chaddr,
        s.table.leases[b].expiry matches Some(e) && now.nanos <= e.nanos,
    ensures
        after.table.leases.contains_key(b),
        after.table.leases[b] == s.table.leases[b],
{
    match announced_type(p.options) {
        Ok(MessageType::Discover) => {
            if !s.table.served(p.chaddr) && s.next(p.chaddr, now) is Some {
                next_free_is_available(
                    s.table,
                    p.chaddr,
                    now,
                    true,
                    s.last as nat,
                    s.table.count as nat,
                );
            }
        },
        _ => {},
    }
}

/// A client that is acknowledged holds the address in the answer.
pub proof fn acknowledged_client_holds_lease(
    s: ServiceView,
    after: ServiceView,
    srv: ServerView,
    p: PacketView,
    now: Instant,
    act: ActionView,
)
    requires
        s.wf(),
        s.handled(after, srv, p, now, act),
        act matches ActionView::Answer { msg_type, .. } && msg_type == MessageType::Ack,
    ensures
        act matches ActionView::Answer { ip, .. } && after.table.holds(ip.bits as u128, p.chaddr),
{
    if s.table.served(p.chaddr) {
        let a = choose|a: u128|
            {
                &&& #[trigger] s.table.current(p.chaddr, Some(a))
                &&& after == s.remembered(a, announced_name(p))
                &&& act == s.answer(srv, p, MessageType::Ack, a, true)
            };
        assert(s.table.holds(a, p.chaddr));
        assert(s.table.leases.contains_key(a));
        assert(after.table.holds(a, p.chaddr));
    } else {
        match announced_type(p.options) {
            Ok(MessageType::Discover) => {
                next_free_is_available(
                    s.table,
                    p.chaddr,
                    now,
                    true,
                    s.last as nat,
                    s.table.count as nat,
                );
                let a = (s.table.start + s.next(p.chaddr, now)->0) as u128;
                assert(after.table.holds(a, p.chaddr));
            },
            _ => {
                assert(after.table.holds(wanted_ip(p).bits as u128, p.chaddr));
            },
        }
    }
}

/// A new lease is the current one of its client from then on, so that the
/// client is answered with it again.
pub proof fn new_lease_is_current(
    s: ServiceView,
    after: ServiceView,
    srv: ServerView,
    p: PacketView,
    now: Instant,
    ip: Ipv4Addr,
    wire: Seq<u8>,
    dests: Seq<SocketAddr>,
    x: Option<u128>,
)
    requires
        s.wf(),
        s.handled(
            after,
            srv,
            p,
            now,
            (ActionView::Answer {
                msg_type: MessageType::Ack,
                ip,
                existing: false,
                wire,
                dests,
            }),
        ),
    ensures
        after.table.current(p.chaddr, x) <==> x == Some(ip.bits as u128),
        s.table.in_range(ip.bits as u128),
{
    if !s.table.served(p.chaddr) {
        match announced_type(p.options) {
            Ok(MessageType::Discover) => {
                next_free_is_available(
                    s.table,
                    p.chaddr,
                    now,
                    true,
                    s.last as nat,
                    s.table.count as nat,
                );
                let a = (s.table.start + s.next(p.chaddr, now)->0) as u128;
                added_lease_is_current(s.table, a, s.new_lease(p, now), x);
            },
            _ => {
                let a = wanted_ip(p).bits as u128;
                added_lease_is_current(s.table, a, s.new_lease(p, now), x);
            },
        }
    }
}

/// An offer commits nothing: it adds no lease and frees none.
pub proof fn offer_commits_nothing(
    s: ServiceView,
    after: ServiceView,
    srv: ServerView,
    p: PacketView,
    now: Instant,
    act: ActionView,
    b: u128,
)
    requires
        s.handled(after, srv, p, now, act),
        act matches ActionView::Answer { msg_type, .. } && msg_type == MessageType::Offer,
    ensures
        after.table.leases.contains_key(b) <==> s.table.leases.contains_key(b),
        s.table.leases.contains_key(b) ==> after.table.leases[b].id == s.table.leases[b].id
            && after.table.leases[b].expiry == s.table.leases[b].expiry,
        after.table.hints == s.table.hints,
{
}

/// An offer that is taken up at once is acknowledged: a client that held
/// nothing gets the address that it was offered.
pub proof fn offer_can_be_taken_up(
    s: ServiceView,
    offered: ServiceView,
    after: ServiceView,
    srv: ServerView,
    discover: PacketView,
    request: PacketView,
    now: Instant,
    ip: Ipv4Addr,
    wire: Seq<u8>,
    dests: Seq<SocketAddr>,
    act: ActionView,
)
    requires
        s.wf(),
        s.handled(
            offered,
            srv,
            discover,
            now,
            (ActionView::Answer {
                msg_type: MessageType::Offer,
                ip,
                existing: false,
                wire,
                dests,
            }),
        ),
        offered.handled(after, srv, request, now, act),
        announced_type(request.options) == Ok::<MessageType, Seq<char>>(MessageType::Request),
        request.chaddr == discover.chaddr,
        wanted_ip(request) == ip,
    ensures
        act == offered.answer(srv, request, MessageType::Ack, ip.bits as u128, false),
        after.table.holds(ip.bits as u128, request.chaddr),
{
    next_free_is_available(
        s.table,
        discover.chaddr,
        now,
        true,
        s.last as nat,
        s.table.count as nat,
    );
    assert(after.table.holds(ip.bits as u128, request.chaddr));
}

/// Offers go round a pool without leases: from the offset that was offered
/// last, the k-th Discover after it that is not committed at once is offered
/// the address k further on, modulo the number of addresses. The states,
/// requests, times and actions are those of one Discover after the other.
#[verifier::rlimit(40)]
pub proof fn offers_go_round(
    states: Seq<ServiceView>,
    srv: ServerView,
    packets: Seq<PacketView>,
    nows: Seq<Instant>,
    acts: Seq<ActionView>,
    k: nat,
)
    requires
        0 < states.len(),
        states[0].table.vacant(),
        0 < states[0].table.count,
        states[0].table.start + states[0].table.count <= 0x1_0000_0000,
        k < states.len(),
        forall|i: int|
            0 <= i < k ==> (#[trigger] states[i]).handled(
                states[i + 1],
                srv,
                packets[i],
                nows[i],
                acts[i],
            ) && announced_type(packets[i].options) == Ok::<MessageType, Seq<char>>(
                MessageType::Discover,
            ) && !states[i].commits_rapidly(packets[i]),
    ensures
        states[k as int].table == states[0].table,
        k > 0 ==> {
            let offset = (states[0].last + k) % (states[0].table.count as int);
            &&& states[k as int].last == offset
            &&& acts[k - 1] == states[k - 1].answer(
                srv,
                packets[k - 1],
                MessageType::Offer,
                (states[0].table.start + offset) as u128,
                false,
            )
        },
    decreases k,
{
    if k > 0 {
        let before = states[k - 1];
        offers_go_round(states, srv, packets, nows, acts, (k - 1) as nat);
        lemma_offer_step(
            before,
            states[k as int],
            srv,
            packets[k - 1],
            nows[k - 1],
            acts[k - 1],
        );
        lemma_turn(
            states[0].last as int,
            before.last as int,
            k as int,
            states[0].table.count as int,
        );
    }
}

proof fn lemma_offer_step(
    s: ServiceView,
    after: ServiceView,
    srv: ServerView,
    p: PacketView,
    now: Instant,
    act: ActionView,
)
    requires
        s.table.vacant(),
        0 < s.table.count,
        s.table.start + s.table.count <= 0x1_0000_0000,
        s.handled(after, srv, p, now, act),
        announced_type(p.options) == Ok::<MessageType, Seq<char>>(MessageType::Discover),
        !s.commits_rapidly(p),
    ensures
        after.table == s.table,
        after.last == (s.last + 1) % (s.table.count as int),
        act == s.answer(
            srv,
            p,
            MessageType::Offer,
            (s.table.start + (s.last + 1) % (s.table.count as int)) as u128,
            false,
        ),
{
    lemma_next_of_vacant(s, p.chaddr, now);
}

/// A pool without leases has its next address one further on.
proof fn lemma_next_of_vacant(s: ServiceView, id: Seq<u8>, now: Instant)
    requires
        s.table.vacant(),
        0 < s.table.count,
        s.table.start + s.table.count <= 0x1_0000_0000,
    ensures
        !s.table.served(id),
        s.next(id, now) == Some(((s.last + 1) % (s.table.count as int)) as nat),
{
    let next = (s.last + 1) % (s.table.count as int);
    let a = (s.table.start + next) as u128;
    assert(0 <= next < s.table.count);
    assert(!s.table.leases.contains_key(a));
    assert(s.table.available(id, a, now, true));
}

proof fn lemma_turn(first: int, last: int, k: int, n: int)
    requires
        0 < n,
        0 < k,
        k == 1 ==> last == first,
        k > 1 ==> last == (first + k - 1) % n,
    ensures
        (last + 1) % n == (first + k) % n,
{
    if k > 1 {
        lemma_add_mod_noop(first + k - 1, 1, n);
        lemma_add_mod_noop(last, 1, n);
        lemma_small_mod(last as nat, n as nat);
    }
}

/// A client is left without an answer to its Discover exactly when it holds
/// nothing and can have no address.
pub proof fn discover_unanswered_only_when_exhausted(
    s: ServiceView,
    after: ServiceView,
    srv: ServerView,
    p: PacketView,
    now: Instant,
    act: ActionView,
)
    requires
        s.handled(after, srv, p, now, act),
        announced_type(p.options) == Ok::<MessageType, Seq<char>>(MessageType::Discover),
    ensures
        act == ActionView::Exhausted <==> !s.table.served(p.chaddr) && forall|a: u128|
            !#[trigger] s.table.available(p.chaddr, a, now, true),
{
    next_free_misses_nothing(s.table, p.chaddr, now, true, s.last as nat);
}

/// A Request is always answered: it is acknowledged if the client holds a
/// lease or can have the address that it asks for, and refused otherwise.
pub proof fn request_is_always_answered(
    s: ServiceView,
    after: ServiceView,
    srv: ServerView,
    p: PacketView,
    now: Instant,
    act: ActionView,
)
    requires
        s.handled(after, srv, p, now, act),
        announced_type(p.options) == Ok::<MessageType, Seq<char>>(MessageType::Request),
    ensures
        if s.table.served(p.chaddr) || s.table.available(
            p.chaddr,
            wanted_ip(p).bits as u128,
            now,
            true,
        ) {
            act matches ActionView::Answer { msg_type, .. } && msg_type == MessageType::Ack
        } else {
            act is Refuse && after == s
        },
{
}

/// Nothing but a Release or a Decline that names this server frees a lease of
/// its sender, and each frees one address.
pub proof fn release_needs_our_name(
    s: ServiceView,
    after: ServiceView,
    srv: ServerView,
    p: PacketView,
    now: Instant,
    act: ActionView,
    b: u128,
)
    requires
        s.handled(after, srv, p, now, act),
        s.table.holds(b, p.chaddr),
        !after.table.holds(b, p.chaddr),
    ensures
        announced_type(p.options) matches Ok(t) && (t == MessageType::Release || t
            == MessageType::Decline),
        first_with_code(p.options, SERVER_IDENTIFIER) == Some(
            OptionView::ServerIdentifier(srv.server_ip),
        ),
        act == (ActionView::Freed { ip: Ipv4Addr { bits: b as u32 } }),
        after.table.leases == s.table.leases.remove(b),
{
    assert(s.table.served(p.chaddr));
    assert(s.table.leases.contains_key(b));
}

/// Every lease that a packet adds lies in the pool and belongs to its sender.
pub proof fn new_leases_lie_in_pool(
    s: ServiceView,
    after: ServiceView,
    srv: ServerView,
    p: PacketView,
    now: Instant,
    act: ActionView,
    b: u128,
)
    requires
        s.handled(after, srv, p, now, act),
        after.table.leases.contains_key(b),
        !s.table.leases.contains_key(b),
    ensures
        s.table.in_range(b),
        after.table.leases[b] == s.new_lease(p, now),
{
    if !s.table.served(p.chaddr) && s.next(p.chaddr, now) is Some {
        next_free_is_available(
            s.table,
            p.chaddr,
            now,
            true,
            s.last as nat,
            s.table.count as nat,
        );
    }
}

/// Giving back undoes a new lease of an address that nobody held: the leases
/// are as they were, and the client holds nothing.
pub proof fn release_undoes_new_lease(
    s: ServiceView,
    granted: ServiceView,
    after: ServiceView,
    srv: ServerView,
    request: PacketView,
    release: PacketView,
    now: Instant,
    later: Instant,
    ip: Ipv4Addr,
    wire: Seq<u8>,
    dests: Seq<SocketAddr>,
    act: ActionView,
)
    requires
        s.wf(),
        s.handled(
            granted,
            srv,
            request,
            now,
            (ActionView::Answer {
                msg_type: MessageType::Ack,
                ip,
                existing: false,
                wire,
                dests,
            }),
        ),
        !s.table.leases.contains_key(ip.bits as u128),
        granted.handled(after, srv, release, later, act),
        announced_type(release.options) == Ok::<MessageType, Seq<char>>(MessageType::Release),
        release.chaddr == request.chaddr,
        first_with_code(release.options, SERVER_IDENTIFIER) == Some(
            OptionView::ServerIdentifier(srv.server_ip),
        ),
    ensures
        act == (ActionView::Freed { ip }),
        after.table.leases == s.table.leases,
        !after.table.served(request.chaddr),
{
    let id = request.chaddr;
    let b = ip.bits as u128;
    new_lease_is_current(s, granted, srv, request, now, ip, wire, dests, Some(b));
    assert(granted.table.leases == s.table.leases.insert(b, s.new_lease(request, now)));
    current_is_held(granted.table, id, Some(b));
    let a = choose|a: u128| #[trigger]
        granted.freed(after, id, a) && act == (ActionView::Freed {
            ip: Ipv4Addr { bits: a as u32 },
        });
    new_lease_is_current(s, granted, srv, request, now, ip, wire, dests, Some(a));
    assert(after.table.leases =~= s.table.leases);
    assert forall|c: u128| !#[trigger] after.table.holds(c, id) by {
        assert(!s.table.holds(c, id));
    }
}

} // verus!
