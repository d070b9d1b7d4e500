//! The DHCPv6 service: which datagram gets which reply.

use dhcp4r::dhcpv6::{
    Dhcpv6Option, IaAddr, IaNa, MsgType, OPT_CLIENTID, OPT_DNS_SERVERS, OPT_IA_NA, OPT_ORO,
    OPT_SERVERID, OPT_STATUS_CODE, Packet, RawDhcpv6Option, STATUS_NO_ADDRS_AVAIL,
};
use dhcp4r::service6::{Action6, V6Service};
use dhcp4r::net::Ipv6Addr;

fn v6(a: [u16; 8]) -> Ipv6Addr {
    Ipv6Addr::new(a[0], a[1], a[2], a[3], a[4], a[5], a[6], a[7])
}

const SERVER_DUID: [u8; 10] = [0x00, 0x03, 0x00, 0x01, 0x02, 0x00, 0x5e, 0xaa, 0xbb, 0xcc];

const LEASE_SECS: u32 = 86400;

fn ip(n: u16) -> Ipv6Addr {
    Ipv6Addr::new(0xfd00, 0, 0, 0, 0, 0, 0, n)
}

struct TestV6Server {
    service: V6Service,
}

impl TestV6Server {
    fn new() -> Self {
        Self {
            service: V6Service::new(
                Ipv6Addr::new(0xfd00, 0, 0, 0, 0, 0, 0, 0x100),
                1000,
                LEASE_SECS,
                SERVER_DUID.to_vec(),
                vec![v6([0x2001, 0x4860, 0x4860, 0, 0, 0, 0, 0x8888])],
                false,
            ),
        }
    }

    fn handle(&mut self, req: &Packet) -> Option<Packet> {
        match self.service.handle(req) {
            Action6::Success { reply, .. } => Some(reply),
            Action6::NoData { reply } => Some(reply),
            _ => None,
        }
    }

    fn take_address(&mut self, duid_bytes: &[u8], addr: Ipv6Addr) {
        match self.service.handle(&request_for(duid_bytes, 1, addr)) {
            Action6::Success { ip, .. } => assert_eq!(ip, addr),
            _ => panic!("address must be free"),
        }
    }
}

fn solicit(duid_bytes: &[u8], iaid: Option<u32>) -> Packet {
    let mut options = vec![Dhcpv6Option::ClientId(duid_bytes.to_vec())];
    if let Some(id) = iaid {
        options.push(Dhcpv6Option::IaNa(IaNa { iaid: id, t1: 0, t2: 0, addrs: vec![] }));
    }
    Packet { msg_type: MsgType::Solicit, transaction_id: 0x112233, options }
}

fn request_for(duid_bytes: &[u8], iaid: u32, addr: Ipv6Addr) -> Packet {
    Packet {
        msg_type: MsgType::Request,
        transaction_id: 0x445566,
        options: vec![
            Dhcpv6Option::ClientId(duid_bytes.to_vec()),
            Dhcpv6Option::ServerId(SERVER_DUID.to_vec()),
            Dhcpv6Option::IaNa(IaNa {
                iaid,
                t1: 0,
                t2: 0,
                addrs: vec![IaAddr { addr, preferred: 0, valid: 0 }],
            }),
        ],
    }
}

fn codes(p: &Packet) -> Vec<u16> {
    p.options.iter().map(|o| o.code()).collect()
}

#[test]
fn solicit_fresh_duid_advertises_first_free() {
    let mut s = TestV6Server::new();
    let rep = s.handle(&solicit(&[1], Some(0x0A0B0C0D))).unwrap();
    assert_eq!(rep.msg_type, MsgType::Advertise);
    assert_eq!(rep.transaction_id, 0x112233, "tid echoed");
    assert_eq!(codes(&rep), vec![2, 1, 3, 23]);
    assert_eq!(
        rep.option(OPT_SERVERID),
        Some(&Dhcpv6Option::ServerId(SERVER_DUID.to_vec()))
    );
    assert_eq!(rep.option(OPT_CLIENTID), Some(&Dhcpv6Option::ClientId(vec![1])));
    match rep.option(OPT_IA_NA) {
        Some(Dhcpv6Option::IaNa(ia)) => {
            assert_eq!(ia.iaid, 0x0A0B0C0D, "request IAID echoed");
            assert_eq!((ia.t1, ia.t2), (43200, 75600));
            assert_eq!(ia.addrs.len(), 1);
            assert_eq!(ia.addrs[0].addr, ip(0x101), "first free past start");
            assert_eq!((ia.addrs[0].preferred, ia.addrs[0].valid), (86400, 86400));
        }
        _ => panic!("Advertise must carry IA_NA"),
    }
    assert!(rep.option(OPT_STATUS_CODE).is_none(), "success has no status");
}

#[test]
fn solicit_prefers_current_lease() {
    let mut s = TestV6Server::new();
    s.take_address(&[1], ip(0x110));
    let rep = s.handle(&solicit(&[1], Some(7))).unwrap();
    match rep.option(OPT_IA_NA) {
        Some(Dhcpv6Option::IaNa(ia)) => {
            assert_eq!(ia.addrs.len(), 1);
            assert_eq!(ia.addrs[0].addr, ip(0x110));
        }
        _ => panic!("must re-offer current lease"),
    }
}

#[test]
fn solicit_no_clientid_ignored() {
    let mut s = TestV6Server::new();
    let req = Packet {
        msg_type: MsgType::Solicit,
        transaction_id: 1,
        options: vec![Dhcpv6Option::IaNa(IaNa { iaid: 1, t1: 0, t2: 0, addrs: vec![] })],
    };
    assert!(s.handle(&req).is_none(), "no DUID means no identity");
}

#[test]
fn solicit_without_iana_advertises_iaid_zero() {
    let mut s = TestV6Server::new();
    let req = Packet {
        msg_type: MsgType::Solicit,
        transaction_id: 2,
        options: vec![Dhcpv6Option::ClientId(vec![9])],
    };
    let rep = s.handle(&req).unwrap();
    match rep.option(OPT_IA_NA) {
        Some(Dhcpv6Option::IaNa(ia)) => {
            assert_eq!(ia.iaid, 0, "missing IA_NA defaults IAID to 0");
            assert_eq!(ia.addrs.len(), 1);
        }
        _ => panic!("must still Advertise"),
    }
}

#[test]
fn request_commits_and_acks_with_lease() {
    let mut s = TestV6Server::new();
    let rep = s.handle(&request_for(&[2], 0x01020304, ip(0x120))).unwrap();
    assert_eq!(rep.msg_type, MsgType::Reply);
    assert_eq!(rep.transaction_id, 0x445566);
    match rep.option(OPT_IA_NA) {
        Some(Dhcpv6Option::IaNa(ia)) => {
            assert_eq!(ia.iaid, 0x01020304);
            assert_eq!(ia.addrs.len(), 1);
            assert_eq!((ia.addrs[0].preferred, ia.addrs[0].valid), (86400, 86400));
        }
        _ => panic!("Reply must carry IA_NA"),
    }
    assert!(s.service.pool().get(&ip(0x120)).is_some(), "committed server-side");
    assert!(rep.option(OPT_STATUS_CODE).is_none());
}

#[test]
fn request_without_iana_ignored() {
    let mut s = TestV6Server::new();
    let req = Packet {
        msg_type: MsgType::Request,
        transaction_id: 3,
        options: vec![
            Dhcpv6Option::ClientId(vec![2]),
            Dhcpv6Option::ServerId(SERVER_DUID.to_vec()),
        ],
    };
    assert!(s.handle(&req).is_none(), "no IA_NA means nothing to commit");
    assert!(s.service.pool().is_empty());
}

#[test]
fn request_unavailable_gets_nodata_status() {
    let mut s = TestV6Server::new();
    s.take_address(&[8], ip(0x130));
    let rep = s.handle(&request_for(&[9], 0x11111111, ip(0x130))).unwrap();
    assert_eq!(rep.msg_type, MsgType::Reply);
    assert_eq!(codes(&rep), vec![2, 1, 3, 13]);
    match rep.option(OPT_IA_NA) {
        Some(Dhcpv6Option::IaNa(ia)) => {
            assert_eq!(ia.iaid, 0x11111111);
            assert!(ia.addrs.is_empty());
            assert_eq!((ia.t1, ia.t2), (0, 0));
        }
        _ => panic!("nodata Reply keeps an empty IA_NA"),
    }
    assert_eq!(
        rep.option(OPT_STATUS_CODE),
        Some(&Dhcpv6Option::StatusCode(STATUS_NO_ADDRS_AVAIL, "NoAddrsAvail".to_string()))
    );
}

#[test]
fn renew_and_rebind_behave_like_request() {
    for mt in [MsgType::Renew, MsgType::Rebind] {
        let mut s = TestV6Server::new();
        let mut req = request_for(&[3], 0x22222222, ip(0x140));
        req.msg_type = mt;
        req.transaction_id = 0x333333;
        let rep = s.handle(&req).unwrap();
        assert_eq!(rep.msg_type, MsgType::Reply, "{:?}", mt);
        assert_eq!(rep.transaction_id, 0x333333);
        match rep.option(OPT_IA_NA) {
            Some(Dhcpv6Option::IaNa(ia)) => {
                assert_eq!(ia.addrs.len(), 1);
                assert_eq!(ia.addrs[0].addr, ip(0x140));
            }
            _ => panic!("{:?} must commit like Request", mt),
        }
    }
}

#[test]
fn release_and_decline_free_with_correct_id() {
    for mt in [MsgType::Release, MsgType::Decline] {
        let mut s = TestV6Server::new();
        s.take_address(&[4], ip(0x150));
        let pkt = Packet {
            msg_type: mt,
            transaction_id: 4,
            options: vec![
                Dhcpv6Option::ClientId(vec![4]),
                Dhcpv6Option::ServerId(SERVER_DUID.to_vec()),
            ],
        };
        assert!(s.handle(&pkt).is_none(), "{:?} sends no reply", mt);
        assert!(s.service.pool().get(&ip(0x150)).is_none(), "{:?} must free", mt);
    }
}

#[test]
fn release_wrong_or_missing_id_keeps_lease() {
    for opts in [
        vec![
            Dhcpv6Option::ClientId(vec![5]),
            Dhcpv6Option::ServerId(vec![9, 9, 9]),
        ],
        vec![Dhcpv6Option::ClientId(vec![5])],
    ] {
        let mut s = TestV6Server::new();
        s.take_address(&[5], ip(0x160));
        let pkt = Packet { msg_type: MsgType::Release, transaction_id: 5, options: opts };
        assert!(s.handle(&pkt).is_none());
        assert!(s.service.pool().get(&ip(0x160)).is_some(), "lease must survive");
    }
}

#[test]
fn confirm_and_informationrequest_ignored() {
    let mut s = TestV6Server::new();
    for mt in [MsgType::Confirm, MsgType::InformationRequest, MsgType::Reply, MsgType::Reconfigure] {
        let req = Packet {
            msg_type: mt,
            transaction_id: 6,
            options: vec![Dhcpv6Option::ClientId(vec![6])],
        };
        assert!(s.handle(&req).is_none(), "{:?} must be ignored", mt);
    }
    assert!(s.service.pool().is_empty(), "ignored types insert nothing");
}

fn load_leases6(text: &str) -> V6Service {
    let mut service = TestV6Server::new().service;
    for line in text.lines() {
        service.load_line(line);
    }
    service
}

#[test]
fn leases6_loader_skips_malformed_keeps_good() {
    let service = load_leases6(
        "00:03:00:01:02:00:5e:aa:bb:cc,fd00::100\n\
         not-hex-here,fd00::101\n\
         00:03:00:01:02:00:5e:aa:bb:cc,not-an-ip\n\
         singlefield\n\
         a,b,c\n\
         ,fd00::102\n\
         00:03:00:01:02:00:5e:aa:bb:dd,fd00::101\n",
    );
    assert_eq!(service.pool().len(), 2);
    assert_eq!(
        service.pool().get(&v6([0xfd00, 0, 0, 0, 0, 0, 0, 0x100])).unwrap().0,
        vec![0x00, 0x03, 0x00, 0x01, 0x02, 0x00, 0x5e, 0xaa, 0xbb, 0xcc]
    );
    assert!(service.pool().get(&v6([0xfd00, 0, 0, 0, 0, 0, 0, 0x100])).unwrap().1.is_none());
    assert_eq!(
        service.pool().get(&v6([0xfd00, 0, 0, 0, 0, 0, 0, 0x101])).unwrap().0,
        vec![0x00, 0x03, 0x00, 0x01, 0x02, 0x00, 0x5e, 0xaa, 0xbb, 0xdd]
    );
}

#[test]
fn leases6_duplicate_ip_last_wins() {
    let service = load_leases6(
        "00:01,fd00::110\n00:02,fd00::110\n",
    );
    assert_eq!(service.pool().len(), 1);
    assert_eq!(service.pool().get(&v6([0xfd00, 0, 0, 0, 0, 0, 0, 0x110])).unwrap().0, vec![0x00, 0x02]);
}

#[test]
fn oro_ignored_dns_always_included() {
    let mut s = TestV6Server::new();
    let req = Packet {
        msg_type: MsgType::Solicit,
        transaction_id: 7,
        options: vec![
            Dhcpv6Option::ClientId(vec![8]),
            Dhcpv6Option::Unrecognized(RawDhcpv6Option {
                code: OPT_ORO,
                data: vec![0, 23],
            }),
        ],
    };
    let rep = s.handle(&req).unwrap();
    assert!(rep.option(OPT_DNS_SERVERS).is_some());
    assert_eq!(codes(&rep), vec![2, 1, 3, 23]);
}
