//! Rapid commit, with IPv4 and with IPv6.

use dhcp4r::{dhcpv6, options, packet};
use dhcp4r::server::{Delivery, Server};
use dhcp4r::net::{Ipv4Addr, Ipv6Addr, SocketAddr};
use dhcp4r::clock::Duration;
use dhcp4r::service4::{Action, LeaseServer};
use dhcp4r::service6::{Action6, V6Service};

/// A server and a peer of it. What the handler answers goes into the inbox of
/// the peer, if it is sent there.
struct Link {
    server: Server,
    peer: SocketAddr,
    handler: Box<dyn FnMut(&Server, &packet::Packet) -> Option<Delivery>>,
    inbox: Vec<Vec<u8>>,
}

impl Link {
    fn new(
        server_ip: Ipv4Addr,
        broadcast: Ipv4Addr,
        handler: impl FnMut(&Server, &packet::Packet) -> Option<Delivery> + 'static,
    ) -> Self {
        Self {
            server: Server::new(server_ip, vec![broadcast]),
            peer: SocketAddr::v4(Ipv4Addr::new(127, 0, 0, 1), 40068),
            handler: Box::new(handler),
            inbox: vec![],
        }
    }

    fn send(&mut self, datagram: &[u8]) {
        if let Some(Ok(p)) = self.server.receive(self.peer, datagram) {
            if let Some(d) = (self.handler)(&self.server, &p) {
                if d.dests.contains(&self.peer) {
                    self.inbox.push(d.wire);
                }
            }
        }
    }

    fn recv(&mut self) -> Option<Vec<u8>> {
        if self.inbox.is_empty() {
            None
        } else {
            Some(self.inbox.remove(0))
        }
    }
}

fn unwrap_packet(r: Result<packet::Packet, packet::CustomErr<&[u8]>>) -> packet::Packet {
    match r {
        Ok(p) => p,
        Err(_) => panic!("expected Ok Packet"),
    }
}

fn test_packet(xid: u32, chaddr: [u8; 6], opts: Vec<options::DhcpOption>) -> packet::Packet {
    packet::Packet {
        reply: false,
        hops: 0,
        xid,
        secs: 0,
        broadcast: false,
        ciaddr: Ipv4Addr::unspecified(),
        yiaddr: Ipv4Addr::unspecified(),
        siaddr: Ipv4Addr::unspecified(),
        giaddr: Ipv4Addr::unspecified(),
        chaddr,
        options: opts,
    }
}

fn rapid_opt() -> options::DhcpOption {
    options::DhcpOption::Unrecognized(options::RawDhcpOption {
        code: options::RAPID_COMMIT,
        data: vec![],
    })
}

fn make_raw(
    op: u8,
    hlen: u8,
    hops: u8,
    xid: u32,
    secs: u16,
    flags: [u8; 2],
    ci: [u8; 4],
    yi: [u8; 4],
    si: [u8; 4],
    gi: [u8; 4],
    chaddr: [u8; 6],
    opts_after_cookie: Vec<u8>,
) -> Vec<u8> {
    let mut v = vec![0u8; 236];
    v[0] = op;
    v[1] = 1;
    v[2] = hlen;
    v[3] = hops;
    v[4..8].copy_from_slice(&xid.to_be_bytes());
    v[8..10].copy_from_slice(&secs.to_be_bytes());
    v[10] = flags[0];
    v[11] = flags[1];
    v[12..16].copy_from_slice(&ci);
    v[16..20].copy_from_slice(&yi);
    v[20..24].copy_from_slice(&si);
    v[24..28].copy_from_slice(&gi);
    v[28..34].copy_from_slice(&chaddr);
    v.extend_from_slice(&[99, 130, 83, 99]);
    v.extend_from_slice(&opts_after_cookie);
    v
}

#[test]
fn rapid_commit_v4_const_and_title() {
    assert_eq!(options::RAPID_COMMIT, 80);
    assert_eq!(options::title(80), Some("Rapid Commit"));
}

#[test]
fn rapid_commit_v4_decodes_as_unrecognized() {
    for data in [vec![], vec![1, 2, 3]] {
        let mut wire = vec![80, data.len() as u8];
        wire.extend_from_slice(&data);
        match packet::decode_option(&wire) {
            Ok((rest, options::DhcpOption::Unrecognized(r))) => {
                assert_eq!(r.code, 80);
                assert_eq!(r.data, data);
                assert!(rest.is_empty());
            }
            _ => panic!("option 80 must decode as Unrecognized"),
        }
    }
    let p = test_packet(
        1,
        [0; 6],
        vec![
            options::DhcpOption::DhcpMessageType(options::MessageType::Discover),
            rapid_opt(),
        ],
    );
    let mut buf = [0u8; 1500];
    let q = unwrap_packet(packet::Packet::from(&p.encode(&mut buf).to_vec()));
    assert_eq!(q.option(80), Some(&rapid_opt()));
}

const IP_START: [u8; 4] = [192, 168, 2, 2];

const IP_START_NUM: u32 = u32::from_be_bytes(IP_START);

const LEASE_NUM: u32 = 252;

fn serve_rapid(enabled: bool) -> Link {
    serve_rapid_with_leases(enabled, 0)
}

/// A link to a lease service in which the first `taken` addresses of the pool
/// are leased.
fn serve_rapid_with_leases(enabled: bool, taken: u32) -> Link {
    let mut leases = LeaseServer::new(
        Ipv4Addr::new(192, 168, 2, 2),
        LEASE_NUM,
        Duration::from_secs(86400),
        enabled,
        vec![options::DhcpOption::IpAddressLeaseTime(86400)],
    );
    let expiry = leases.now().plus(Duration::from_secs(3600));
    for i in 0..taken {
        leases.insert_lease(
            Ipv4Addr::from_bits(IP_START_NUM + i),
            [0xCC, 0xDD, (i >> 8) as u8, i as u8, 0xEE, 0xFF],
            Some(expiry),
            None,
        );
    }
    Link::new(
        Ipv4Addr::new(10, 0, 0, 1),
        Ipv4Addr::new(10, 0, 0, 255),
        move |s: &Server, p: &packet::Packet| match leases.handle_request(s, p) {
            Action::Answer { delivery, .. } => Some(delivery),
            Action::Refuse { delivery, .. } => Some(delivery),
            _ => None,
        },
    )
}

fn rapid_discover(xid: u32, chaddr: [u8; 6]) -> packet::Packet {
    test_packet(
        xid,
        chaddr,
        vec![
            options::DhcpOption::DhcpMessageType(options::MessageType::Discover),
            rapid_opt(),
        ],
    )
}

#[test]
fn rapid_discover_acks_and_inserts_live() {
    let mut link = serve_rapid(true);
    let mut buf = [0u8; 1500];
    link.send(rapid_discover(0xB001, [1; 6]).encode(&mut buf));
    let got = link.recv().expect("expected reply");
    let rep = unwrap_packet(packet::Packet::from(&got));
    assert_eq!(rep.message_type(), Ok(options::MessageType::Ack));
    assert_eq!(rep.yiaddr, Ipv4Addr::new(192, 168, 2, 3));
    let plain = test_packet(
        0xB002,
        [1; 6],
        vec![options::DhcpOption::DhcpMessageType(options::MessageType::Discover)],
    );
    link.send(plain.encode(&mut buf));
    let got = link.recv().expect("expected reply");
    assert_eq!(
        unwrap_packet(packet::Packet::from(&got)).yiaddr,
        Ipv4Addr::new(192, 168, 2, 3)
    );
}

#[test]
fn rapid_disabled_ignores_option_live() {
    let mut link = serve_rapid(false);
    let mut buf = [0u8; 1500];
    link.send(rapid_discover(0xB010, [2; 6]).encode(&mut buf));
    let got = link.recv().expect("expected reply");
    let rep = unwrap_packet(packet::Packet::from(&got));
    assert_eq!(rep.message_type(), Ok(options::MessageType::Offer));
    let plain = test_packet(
        0xB011,
        [2; 6],
        vec![options::DhcpOption::DhcpMessageType(options::MessageType::Discover)],
    );
    link.send(plain.encode(&mut buf));
    let got = link.recv().expect("expected reply");
    assert_eq!(
        unwrap_packet(packet::Packet::from(&got)).yiaddr,
        Ipv4Addr::new(192, 168, 2, 4)
    );
}

#[test]
fn rapid_without_option_is_plain_discover_live() {
    let mut link = serve_rapid(true);
    let mut buf = [0u8; 1500];
    let plain = test_packet(
        0xB020,
        [3; 6],
        vec![options::DhcpOption::DhcpMessageType(options::MessageType::Discover)],
    );
    link.send(plain.encode(&mut buf));
    let got = link.recv().expect("expected reply");
    assert_eq!(
        unwrap_packet(packet::Packet::from(&got)).message_type(),
        Ok(options::MessageType::Offer)
    );
}

#[test]
fn rapid_pool_exhausted_silent_live() {
    let mut link = serve_rapid_with_leases(true, LEASE_NUM);
    let mut buf = [0u8; 1500];
    link.send(rapid_discover(0xB030, [4; 6]).encode(&mut buf));
    assert!(
        link.recv().is_none(),
        "exhausted rapid Discover must get no reply, like Discover"
    );
}

#[test]
fn rapid_existing_lease_acked_without_moving_counter() {
    let mut link = serve_rapid(true);
    let mut buf = [0u8; 1500];
    link.send(rapid_discover(0xB040, [5; 6]).encode(&mut buf));
    let got = link.recv().expect("expected reply");
    assert_eq!(
        unwrap_packet(packet::Packet::from(&got)).yiaddr,
        Ipv4Addr::new(192, 168, 2, 3)
    );
    let mut opts = vec![
        options::DhcpOption::DhcpMessageType(options::MessageType::Discover),
        rapid_opt(),
    ];
    opts.push(options::DhcpOption::RequestedIpAddress(Ipv4Addr::new(192, 168, 2, 99)));
    let retry = test_packet(0xB041, [5; 6], opts);
    link.send(retry.encode(&mut buf));
    let got = link.recv().expect("expected reply");
    let rep = unwrap_packet(packet::Packet::from(&got));
    assert_eq!(rep.message_type(), Ok(options::MessageType::Ack));
    assert_eq!(rep.yiaddr, Ipv4Addr::new(192, 168, 2, 3), "held lease wins");
}

#[test]
fn rapid_truncated_option_falls_back_to_offer_live() {
    let mut link = serve_rapid(true);
    let raw = make_raw(
        1, 6, 0, 0xB050, 0, [0, 0],
        [0, 0, 0, 0], [0, 0, 0, 0], [0, 0, 0, 0], [0, 0, 0, 0],
        [6; 6],
        vec![53, 1, 1, 80, 3, 0xAA, 255],
    );
    link.send(&raw);
    let got = link.recv().expect("reply");
    let rep = unwrap_packet(packet::Packet::from(&got));
    assert_eq!(rep.message_type(), Ok(options::MessageType::Offer));
    assert_eq!(rep.yiaddr, Ipv4Addr::new(192, 168, 2, 3));
}

const V6_SERVER_DUID: [u8; 10] =
    [0x00, 0x03, 0x00, 0x01, 0x02, 0x00, 0x5e, 0xaa, 0xbb, 0xcc];

const V6_LEASE_SECS: u32 = 86400;

fn v6(a: [u16; 8]) -> Ipv6Addr {
    Ipv6Addr::new(a[0], a[1], a[2], a[3], a[4], a[5], a[6], a[7])
}

fn v6ip(n: u16) -> Ipv6Addr {
    Ipv6Addr::new(0xfd00, 0, 0, 0, 0, 0, 0, n)
}

fn rapid6_opt() -> dhcpv6::Dhcpv6Option {
    dhcpv6::Dhcpv6Option::Unrecognized(dhcpv6::RawDhcpv6Option {
        code: dhcpv6::OPT_RAPID_COMMIT,
        data: vec![],
    })
}

struct RapidV6Server {
    service: V6Service,
}

impl RapidV6Server {
    fn new(enabled: bool) -> Self {
        Self {
            service: V6Service::new(
                Ipv6Addr::new(0xfd00, 0, 0, 0, 0, 0, 0, 0x100),
                1000,
                V6_LEASE_SECS,
                V6_SERVER_DUID.to_vec(),
                vec![v6([0x2001, 0x4860, 0x4860, 0, 0, 0, 0, 0x8888])],
                enabled,
            ),
        }
    }

    fn handle_solicit(&mut self, req: &dhcpv6::Packet) -> Option<dhcpv6::Packet> {
        match self.service.handle(req) {
            Action6::Success { reply, .. } => Some(reply),
            Action6::NoData { reply } => Some(reply),
            _ => None,
        }
    }

    fn take(&mut self, duid_bytes: &[u8], addr: Ipv6Addr) {
        let req = dhcpv6::Packet {
            msg_type: dhcpv6::MsgType::Request,
            transaction_id: 0x112233,
            options: vec![
                dhcpv6::Dhcpv6Option::ClientId(duid_bytes.to_vec()),
                dhcpv6::Dhcpv6Option::ServerId(V6_SERVER_DUID.to_vec()),
                dhcpv6::Dhcpv6Option::IaNa(dhcpv6::IaNa {
                    iaid: 1,
                    t1: 0,
                    t2: 0,
                    addrs: vec![dhcpv6::IaAddr { addr, preferred: 0, valid: 0 }],
                }),
            ],
        };
        match self.service.handle(&req) {
            Action6::Success { ip, .. } => assert_eq!(ip, addr),
            _ => panic!("address must be free"),
        }
    }
}

fn solicit6(duid_bytes: &[u8], iaid: u32, rapid: bool) -> dhcpv6::Packet {
    let mut options = vec![
        dhcpv6::Dhcpv6Option::ClientId(duid_bytes.to_vec()),
        dhcpv6::Dhcpv6Option::IaNa(dhcpv6::IaNa { iaid, t1: 0, t2: 0, addrs: vec![] }),
    ];
    if rapid {
        options.push(rapid6_opt());
    }
    dhcpv6::Packet { msg_type: dhcpv6::MsgType::Solicit, transaction_id: 0x112233, options }
}

fn v6codes(p: &dhcpv6::Packet) -> Vec<u16> {
    p.options.iter().map(|o| o.code()).collect()
}

#[test]
fn v6_rapid_title_present() {
    assert_eq!(dhcpv6::title(dhcpv6::OPT_RAPID_COMMIT), Some("Rapid Commit"));
}

#[test]
fn v6_rapid_solicit_replies_committed() {
    let mut s = RapidV6Server::new(true);
    let rep = s.handle_solicit(&solicit6(&[1], 0x01020304, true)).unwrap();
    assert_eq!(rep.msg_type, dhcpv6::MsgType::Reply, "rapid commit skips Advertise");
    assert_eq!(rep.transaction_id, 0x112233);
    assert_eq!(v6codes(&rep), vec![2, 1, 3, 23]);
    match rep.option(dhcpv6::OPT_IA_NA) {
        Some(dhcpv6::Dhcpv6Option::IaNa(ia)) => {
            assert_eq!(ia.iaid, 0x01020304, "request IAID echoed");
            assert_eq!(ia.addrs.len(), 1);
            assert_eq!(ia.addrs[0].addr, v6ip(0x101), "first free past start");
            assert_eq!((ia.addrs[0].preferred, ia.addrs[0].valid), (86400, 86400));
            assert_eq!((ia.t1, ia.t2), (43200, 75600));
        }
        _ => panic!("Reply must carry IA_NA"),
    }
    assert!(rep.option(dhcpv6::OPT_STATUS_CODE).is_none());
    assert_eq!(s.service.pool().current_lease(&[1]), Some(v6ip(0x101)));
}

#[test]
fn v6_solicit_without_rapid_advertises() {
    let mut s = RapidV6Server::new(true);
    let rep = s.handle_solicit(&solicit6(&[2], 0x01020304, false)).unwrap();
    assert_eq!(rep.msg_type, dhcpv6::MsgType::Advertise, "no option 14, no rapid path");
    assert!(s.service.pool().is_empty());
}

#[test]
fn v6_rapid_disabled_ignores_option() {
    let mut s = RapidV6Server::new(false);
    let rep = s.handle_solicit(&solicit6(&[3], 0x01020304, true)).unwrap();
    assert_eq!(rep.msg_type, dhcpv6::MsgType::Advertise, "flag off: advertised first");
    assert!(s.service.pool().is_empty());
}

#[test]
fn v6_rapid_exhausted_nodata_reply() {
    let mut s = RapidV6Server::new(true);
    for i in 0u8..10 {
        let ip = v6ip(0x100 + i as u16);
        s.take(&[0xA0 + i], ip);
    }
    for i in 10u16..1000 {
        s.take(&[0xB0, (i & 0xFF) as u8, (i >> 8) as u8], v6ip(0x100 + i));
    }
    assert_eq!(s.service.pool().len(), 1000);
    let rep = s.handle_solicit(&solicit6(&[9], 0x09090909, true)).unwrap();
    assert_eq!(rep.msg_type, dhcpv6::MsgType::Reply, "rapid failure is still a Reply");
    assert_eq!(v6codes(&rep), vec![2, 1, 3, 13]);
    match rep.option(dhcpv6::OPT_IA_NA) {
        Some(dhcpv6::Dhcpv6Option::IaNa(ia)) => {
            assert_eq!(ia.iaid, 0x09090909);
            assert!(ia.addrs.is_empty());
        }
        _ => panic!("nodata Reply keeps an empty IA_NA"),
    }
    assert_eq!(
        rep.option(dhcpv6::OPT_STATUS_CODE),
        Some(&dhcpv6::Dhcpv6Option::StatusCode(
            dhcpv6::STATUS_NO_ADDRS_AVAIL,
            "NoAddrsAvail".to_string()
        ))
    );
}

#[test]
fn v6_rapid_without_iana_acks_iaid_zero() {
    let mut s = RapidV6Server::new(true);
    let req = dhcpv6::Packet {
        msg_type: dhcpv6::MsgType::Solicit,
        transaction_id: 0x0A0B0C,
        options: vec![dhcpv6::Dhcpv6Option::ClientId(vec![5]), rapid6_opt()],
    };
    let rep = s.handle_solicit(&req).unwrap();
    assert_eq!(rep.msg_type, dhcpv6::MsgType::Reply);
    match rep.option(dhcpv6::OPT_IA_NA) {
        Some(dhcpv6::Dhcpv6Option::IaNa(ia)) => {
            assert_eq!(ia.iaid, 0);
            assert_eq!(ia.addrs.len(), 1);
        }
        _ => panic!("must still commit"),
    }
    assert_eq!(
        s.service.pool().current_lease(&[5]),
        rep.option(dhcpv6::OPT_IA_NA).and_then(|ia| match ia {
            dhcpv6::Dhcpv6Option::IaNa(ia) => Some(ia.addrs[0].addr),
            _ => None,
        })
    );
}
