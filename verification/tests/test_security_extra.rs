//! Strangers, spoofers and half-broken input.

use dhcp4r::options::{
    DhcpOption, IP_ADDRESS_LEASE_TIME, MESSAGE, MessageType, ROUTER, RawDhcpOption,
    SERVER_IDENTIFIER,
};
use dhcp4r::packet::{CustomErr, Packet};
use dhcp4r::server::{Delivery, Server};
use dhcp4r::net::{Ipv4Addr, SocketAddr};
use dhcp4r::clock::{Duration, Instant};
use dhcp4r::service4::{Action, LeaseServer, LoadedLine};

/// A server and a peer of it. What the handler answers goes into the inbox of
/// the peer, if it is sent there.
struct Link {
    server: Server,
    peer: SocketAddr,
    handler: Box<dyn FnMut(&Server, &Packet) -> Option<Delivery>>,
    inbox: Vec<Vec<u8>>,
}

impl Link {
    fn new(
        server_ip: Ipv4Addr,
        broadcast: Ipv4Addr,
        handler: impl FnMut(&Server, &Packet) -> Option<Delivery> + 'static,
    ) -> Self {
        Self {
            server: Server::new(server_ip, vec![broadcast]),
            peer: SocketAddr::v4(Ipv4Addr::new(127, 0, 0, 1), 40068),
            handler: Box::new(handler),
            inbox: vec![],
        }
    }

    fn send(&mut self, datagram: &[u8]) {
        if let Some(Ok(p)) = self.server.receive(self.peer, datagram) {
            if let Some(d) = (self.handler)(&self.server, &p) {
                if d.dests.contains(&self.peer) {
                    self.inbox.push(d.wire);
                }
            }
        }
    }

    fn recv(&mut self) -> Option<Vec<u8>> {
        if self.inbox.is_empty() {
            None
        } else {
            Some(self.inbox.remove(0))
        }
    }
}

/// A link to a lease service at 192.168.2.1 with the pool .2 to .253.
fn serve_leases() -> (Link, Ipv4Addr) {
    let server_ip = Ipv4Addr::new(192, 168, 2, 1);
    let mut leases = LeaseServer::new(
        Ipv4Addr::new(192, 168, 2, 2),
        252,
        Duration::from_secs(86400),
        false,
        vec![DhcpOption::IpAddressLeaseTime(86400)],
    );
    let link = Link::new(
        server_ip,
        Ipv4Addr::new(192, 168, 2, 255),
        move |s: &Server, p: &Packet| match leases.handle_request(s, p) {
            Action::Answer { delivery, .. } => Some(delivery),
            Action::Refuse { delivery, .. } => Some(delivery),
            _ => None,
        },
    );
    (link, server_ip)
}

/// A lease service at 192.168.2.1 with the pool .2 to .253, and its clients.
struct Lan {
    leases: LeaseServer,
    server: Server,
}

impl Lan {
    fn new() -> Self {
        Self {
            leases: LeaseServer::new(
                Ipv4Addr::new(192, 168, 2, 2),
                252,
                Duration::from_secs(86400),
                false,
                vec![DhcpOption::IpAddressLeaseTime(86400)],
            ),
            server: Server::new(
                Ipv4Addr::new(192, 168, 2, 1),
                vec![Ipv4Addr::new(192, 168, 2, 255)],
            ),
        }
    }

    fn now(&self) -> Instant {
        self.leases.now()
    }

    fn put(&mut self, ip: Ipv4Addr, lease: ([u8; 6], Option<Instant>)) {
        self.leases.insert_lease(ip, lease.0, lease.1, None);
    }

    fn holds(&self, ip: &Ipv4Addr) -> bool {
        self.leases.lookup(ip).is_some()
    }

    fn lease(&self, ip: &Ipv4Addr) -> Option<([u8; 6], Option<Instant>)> {
        self.leases.lookup(ip).map(|l| (l.mac, l.expiry))
    }

    fn say(&mut self, chaddr: &[u8; 6], ciaddr: Ipv4Addr, options: Vec<DhcpOption>) -> Action {
        let p = Packet {
            reply: false, hops: 0, xid: 1, secs: 0, broadcast: false,
            ciaddr, yiaddr: Ipv4Addr::unspecified(),
            siaddr: Ipv4Addr::unspecified(), giaddr: Ipv4Addr::unspecified(),
            chaddr: *chaddr, options,
        };
        self.leases.handle_request(&self.server, &p)
    }

    fn discover(&mut self, chaddr: &[u8; 6]) -> Option<Ipv4Addr> {
        let options = vec![DhcpOption::DhcpMessageType(MessageType::Discover)];
        match self.say(chaddr, Ipv4Addr::unspecified(), options) {
            Action::Answer { msg_type, ip, .. } => {
                assert_eq!(msg_type, MessageType::Offer);
                Some(ip)
            }
            Action::Exhausted => None,
            _ => panic!("a Discover is offered an address or not answered"),
        }
    }

    fn request(
        &mut self,
        chaddr: &[u8; 6],
        requested: Option<Ipv4Addr>,
        ciaddr: Ipv4Addr,
        for_this: bool,
    ) -> Result<Ipv4Addr, &'static str> {
        let mut options = vec![DhcpOption::DhcpMessageType(MessageType::Request)];
        if let Some(ip) = requested {
            options.push(DhcpOption::RequestedIpAddress(ip));
        }
        let named = if for_this { 1 } else { 7 };
        options.push(DhcpOption::ServerIdentifier(Ipv4Addr::new(192, 168, 2, named)));
        match self.say(chaddr, ciaddr, options) {
            Action::Answer { msg_type, ip, .. } => {
                assert_eq!(msg_type, MessageType::Ack);
                Ok(ip)
            }
            Action::Refuse { delivery, .. } => {
                let nak = match Packet::from(&delivery.wire) {
                    Ok(p) => p,
                    Err(_) => panic!("a refusal must decode"),
                };
                assert_eq!(nak.message_type(), Ok(MessageType::Nak));
                assert_eq!(
                    nak.option(MESSAGE),
                    Some(&DhcpOption::Message("Requested IP not available".to_string()))
                );
                Err("Requested IP not available")
            }
            _ => panic!("a Request is granted or refused"),
        }
    }
}

fn unwrap_packet(r: Result<Packet, CustomErr<&[u8]>>) -> Packet {
    match r {
        Ok(p) => p,
        Err(_) => panic!("expected Ok Packet"),
    }
}

fn test_packet(xid: u32, chaddr: [u8; 6], opts: Vec<DhcpOption>) -> Packet {
    Packet {
        reply: false,
        hops: 0,
        xid,
        secs: 0,
        broadcast: false,
        ciaddr: Ipv4Addr::unspecified(),
        yiaddr: Ipv4Addr::unspecified(),
        siaddr: Ipv4Addr::unspecified(),
        giaddr: Ipv4Addr::unspecified(),
        chaddr,
        options: opts,
    }
}

fn make_raw(
    op: u8,
    hlen: u8,
    hops: u8,
    xid: u32,
    secs: u16,
    flags: [u8; 2],
    ci: [u8; 4],
    yi: [u8; 4],
    si: [u8; 4],
    gi: [u8; 4],
    chaddr: [u8; 6],
    opts_after_cookie: Vec<u8>,
) -> Vec<u8> {
    let mut v = vec![0u8; 236];
    v[0] = op;
    v[1] = 1;
    v[2] = hlen;
    v[3] = hops;
    v[4..8].copy_from_slice(&xid.to_be_bytes());
    v[8..10].copy_from_slice(&secs.to_be_bytes());
    v[10] = flags[0];
    v[11] = flags[1];
    v[12..16].copy_from_slice(&ci);
    v[16..20].copy_from_slice(&yi);
    v[20..24].copy_from_slice(&si);
    v[24..28].copy_from_slice(&gi);
    v[28..34].copy_from_slice(&chaddr);
    v.extend_from_slice(&[99, 130, 83, 99]);
    v.extend_from_slice(&opts_after_cookie);
    v
}

const LEASE_DURATION_SECS: u32 = 86400;

fn parse_leases_line(line: &str) -> Option<([u8; 6], Ipv4Addr)> {
    let mut leases = LeaseServer::new(
        Ipv4Addr::new(192, 168, 2, 2),
        252,
        Duration::from_secs(86400),
        false,
        vec![],
    );
    match leases.load_line(line) {
        LoadedLine::Loaded => {
            let field: Vec<char> = line.split(',').nth(1)?.trim().chars().collect();
            let ip = Ipv4Addr::parse(&field)?;
            let lease = leases.lookup(&ip)?;
            assert!(lease.expiry.is_none() && lease.hostname.is_none());
            Some((lease.mac, ip))
        }
        _ => None,
    }
}

#[test]
fn sec_truncated_len_past_end_swallowed_keeps_prefix() {
    let raw = make_raw(
        1, 6, 0, 0xD001, 0, [0, 0],
        [0, 0, 0, 0], [0, 0, 0, 0], [0, 0, 0, 0], [0, 0, 0, 0],
        [1; 6],
        vec![53, 1, 1, 200, 255, 7],
    );
    let p = unwrap_packet(Packet::from(&raw));
    assert_eq!(p.options.len(), 1, "valid prefix kept, lie dropped");
    assert_eq!(p.message_type(), Ok(MessageType::Discover));
}

#[test]
fn sec_only_giant_option_yields_bare_end_packet() {
    let p = test_packet(
        0xD003,
        [3; 6],
        vec![DhcpOption::Unrecognized(RawDhcpOption {
            code: 200,
            data: vec![9u8; 300],
        })],
    );
    let mut buf = [0u8; 1500];
    let enc = p.encode(&mut buf).to_vec();
    assert_eq!(enc.len(), 241, "nothing fits: header+cookie+END only");
    assert_eq!(enc[240], 255);
    assert!(Packet::try_from(&enc).is_none(), "a bare END cannot be decoded");
}

#[test]
fn sec_inform_gets_no_reply_live() {
    let (mut link, _) = serve_leases();
    let mut buf = [0u8; 1500];
    let p = Packet {
        reply: false,
        hops: 0,
        xid: 0xD010,
        secs: 0,
        broadcast: false,
        ciaddr: Ipv4Addr::new(192, 168, 2, 60),
        yiaddr: Ipv4Addr::unspecified(),
        siaddr: Ipv4Addr::unspecified(),
        giaddr: Ipv4Addr::unspecified(),
        chaddr: [0xAA; 6],
        options: vec![
            DhcpOption::DhcpMessageType(MessageType::Inform),
            DhcpOption::ParameterRequestList(vec![1, 15]),
        ],
    };
    link.send(p.encode(&mut buf));
    assert!(
        link.recv().is_none(),
        "INFORM must get no reply"
    );
}

#[test]
fn sec_forged_offer_gets_no_reply_live() {
    let (mut link, _) = serve_leases();
    let mut buf = [0u8; 1500];
    let p = Packet {
        reply: true,
        hops: 0,
        xid: 0xD011,
        secs: 0,
        broadcast: false,
        ciaddr: Ipv4Addr::unspecified(),
        yiaddr: Ipv4Addr::unspecified(),
        siaddr: Ipv4Addr::unspecified(),
        giaddr: Ipv4Addr::unspecified(),
        chaddr: [0xBB; 6],
        options: vec![DhcpOption::DhcpMessageType(MessageType::Offer)],
    };
    link.send(p.encode(&mut buf));
    assert!(
        link.recv().is_none(),
        "forged Offer must get no reply"
    );
}

#[test]
fn sec_nak_wire_message_text_and_addrs() {
    let (mut link, server_ip) = serve_leases();
    let mut buf = [0u8; 1500];
    let squatter = [0xCC; 6];
    let victim = [0xDD; 6];
    let occupier = Packet {
        reply: false, hops: 0, xid: 0xD020, secs: 0, broadcast: false,
        ciaddr: Ipv4Addr::unspecified(), yiaddr: Ipv4Addr::unspecified(),
        siaddr: Ipv4Addr::unspecified(), giaddr: Ipv4Addr::unspecified(),
        chaddr: squatter,
        options: vec![
            DhcpOption::DhcpMessageType(MessageType::Request),
            DhcpOption::ServerIdentifier(server_ip),
            DhcpOption::RequestedIpAddress(Ipv4Addr::new(192, 168, 2, 50)),
        ],
    };
    link.send(occupier.encode(&mut buf));
    let got = link.recv().expect("occupier Ack");
    assert_eq!(unwrap_packet(Packet::from(&got)).message_type(), Ok(MessageType::Ack));
    let req = Packet {
        reply: false, hops: 0, xid: 0xD021, secs: 0, broadcast: false,
        ciaddr: Ipv4Addr::unspecified(), yiaddr: Ipv4Addr::unspecified(),
        siaddr: Ipv4Addr::unspecified(), giaddr: Ipv4Addr::unspecified(),
        chaddr: victim,
        options: vec![
            DhcpOption::DhcpMessageType(MessageType::Request),
            DhcpOption::ServerIdentifier(server_ip),
            DhcpOption::RequestedIpAddress(Ipv4Addr::new(192, 168, 2, 50)),
        ],
    };
    link.send(req.encode(&mut buf));
    let got = link.recv().expect("NAK");
    let rep = unwrap_packet(Packet::from(&got));
    assert_eq!(rep.message_type(), Ok(MessageType::Nak));
    assert_eq!(rep.ciaddr, Ipv4Addr::unspecified());
    assert_eq!(rep.yiaddr, Ipv4Addr::unspecified());
    assert!(
        rep.option(MESSAGE) == Some(&DhcpOption::Message("Requested IP not available".to_string())),
        "26-byte NAK text reaches the wire under the 300 cap (249+2+26 = 277)"
    );
    assert_eq!(
        rep.option(SERVER_IDENTIFIER),
        Some(&DhcpOption::ServerIdentifier(server_ip))
    );
    let short = DhcpOption::Message("no".to_string()).to_raw();
    assert_eq!(short.data.len(), 2);
}

#[test]
fn sec_router_present_on_wire_but_dropped_on_decode() {
    let p = Packet {
        reply: true,
        hops: 0,
        xid: 1,
        secs: 0,
        broadcast: false,
        ciaddr: Ipv4Addr::unspecified(),
        yiaddr: Ipv4Addr::new(192, 168, 2, 90),
        siaddr: Ipv4Addr::unspecified(),
        giaddr: Ipv4Addr::unspecified(),
        chaddr: [0; 6],
        options: vec![
            DhcpOption::DhcpMessageType(MessageType::Offer),
            DhcpOption::ServerIdentifier(Ipv4Addr::new(192, 168, 2, 1)),
            DhcpOption::IpAddressLeaseTime(86400),
            DhcpOption::SubnetMask(Ipv4Addr::new(255, 255, 255, 0)),
            DhcpOption::Router(vec![Ipv4Addr::new(192, 168, 2, 1)]),
        ],
    };
    let mut buf = [0u8; 1500];
    let enc = p.encode(&mut buf).to_vec();
    assert!(
        enc.windows(6).any(|w| w == [3, 4, 192, 168, 2, 1]),
        "router TLV must be on the wire"
    );
    let q = unwrap_packet(Packet::from(&enc));
    assert!(
        q.option(ROUTER).is_none(),
        "local decode drops Router (known quirk)"
    );
    assert_eq!(
        q.options.iter().map(|o| o.code()).collect::<Vec<u8>>(),
        vec![53, 54, 51, 1],
        "decodable prefix kept in order"
    );
}

#[test]
fn sec_requested_ip_beats_ciaddr_when_both_set() {
    let mut s = Lan::new();
    let mac = [0x11; 6];
    let got = s
        .request(
            &mac,
            Some(Ipv4Addr::new(192, 168, 2, 80)),
            Ipv4Addr::new(192, 168, 2, 70),
            true,
        )
        .unwrap();
    assert_eq!(got, Ipv4Addr::new(192, 168, 2, 80));
    assert!(s.holds(&Ipv4Addr::new(192, 168, 2, 80)));
    assert!(!s.holds(&Ipv4Addr::new(192, 168, 2, 70)));
}

#[test]
fn sec_bare_request_naks_without_insert() {
    let mut s = Lan::new();
    let mac = [0x22; 6];
    assert!(s
        .request(&mac, None, Ipv4Addr::unspecified(), true)
        .is_err());
    assert!(s.leases.is_empty(), "0.0.0.0 must never be leased");
}

#[test]
fn sec_out_of_pool_reservation_offered_verbatim_quirk() {
    let mut s = Lan::new();
    let mac = [0x33; 6];
    s.put(Ipv4Addr::new(10, 0, 0, 5), (mac, None));
    assert_eq!(s.discover(&mac), Some(Ipv4Addr::new(10, 0, 0, 5)));
}

#[test]
fn sec_duplicate_leases_ip_last_wins() {
    let mut s = Lan::new();
    for line in [
        "aa:bb:cc:dd:ee:01,192.168.2.10",
        "aa:bb:cc:dd:ee:02,192.168.2.10",
    ] {
        assert_eq!(s.leases.load_line(line), LoadedLine::Loaded);
    }
    assert_eq!(s.leases.len(), 1);
    assert_eq!(
        s.lease(&Ipv4Addr::new(192, 168, 2, 10)).unwrap().0,
        [0xAA, 0xBB, 0xCC, 0xDD, 0xEE, 0x02],
        "second line overwrites first"
    );
}

#[test]
fn sec_trailing_space_mac_line_skipped_quirk() {
    assert_eq!(parse_leases_line("aa:bb:cc:dd:ee:ff ,192.168.2.10"), None);
}

#[test]
fn sec_bad_octet_mac_line_skipped() {
    assert_eq!(parse_leases_line("aa:bb:cc:dd:ee:zz,192.168.2.10"), None);
    assert_eq!(parse_leases_line("aa::cc:dd:ee:ff,192.168.2.10"), None);
}

#[test]
fn sec_request_lease_time_ignored_server_sends_fixed() {
    let (mut link, server_ip) = serve_leases();
    let mut buf = [0u8; 1500];
    let req = Packet {
        reply: false,
        hops: 0,
        xid: 0xD030,
        secs: 0,
        broadcast: false,
        ciaddr: Ipv4Addr::unspecified(),
        yiaddr: Ipv4Addr::unspecified(),
        siaddr: Ipv4Addr::unspecified(),
        giaddr: Ipv4Addr::unspecified(),
        chaddr: [0x44; 6],
        options: vec![
            DhcpOption::DhcpMessageType(MessageType::Request),
            DhcpOption::ServerIdentifier(server_ip),
            DhcpOption::RequestedIpAddress(Ipv4Addr::new(192, 168, 2, 71)),
            DhcpOption::IpAddressLeaseTime(60),
        ],
    };
    link.send(req.encode(&mut buf));
    let got = link.recv().expect("Ack");
    let rep = unwrap_packet(Packet::from(&got));
    assert_eq!(rep.message_type(), Ok(MessageType::Ack));
    assert_eq!(
        rep.option(IP_ADDRESS_LEASE_TIME),
        Some(&DhcpOption::IpAddressLeaseTime(86400)),
        "server duration wins over requested 60s"
    );
    let mut s = Lan::new();
    let before = s.now();
    let mac = [0x45; 6];
    s.request(&mac, Some(Ipv4Addr::new(192, 168, 2, 72)), Ipv4Addr::unspecified(), true)
        .unwrap();
    let (_, expiry) = &s.lease(&Ipv4Addr::new(192, 168, 2, 72)).unwrap();
    let exp = expiry.expect("timed lease");
    assert!(!before.plus(Duration::from_secs(u64::from(LEASE_DURATION_SECS - 5))).is_after(exp));
}
