//! Clients that try to take over leases of others.

use dhcp4r::options::{DhcpOption, MessageType};
use dhcp4r::packet::{CustomErr, Packet};
use dhcp4r::server::{Delivery, Server};
use dhcp4r::net::{Ipv4Addr, SocketAddr};
use dhcp4r::clock::Duration;
use dhcp4r::service4::{Action, LeaseServer};

/// A server and a peer of it. What the handler answers goes into the inbox of
/// the peer, if it is sent there.
struct Link {
    server: Server,
    peer: SocketAddr,
    handler: Box<dyn FnMut(&Server, &Packet) -> Option<Delivery>>,
    inbox: Vec<Vec<u8>>,
}

impl Link {
    fn new(
        server_ip: Ipv4Addr,
        broadcast: Ipv4Addr,
        handler: impl FnMut(&Server, &Packet) -> Option<Delivery> + 'static,
    ) -> Self {
        Self {
            server: Server::new(server_ip, vec![broadcast]),
            peer: SocketAddr::v4(Ipv4Addr::new(127, 0, 0, 1), 40068),
            handler: Box::new(handler),
            inbox: vec![],
        }
    }

    fn send(&mut self, datagram: &[u8]) {
        if let Some(Ok(p)) = self.server.receive(self.peer, datagram) {
            if let Some(d) = (self.handler)(&self.server, &p) {
                if d.dests.contains(&self.peer) {
                    self.inbox.push(d.wire);
                }
            }
        }
    }

    fn recv(&mut self) -> Option<Vec<u8>> {
        if self.inbox.is_empty() {
            None
        } else {
            Some(self.inbox.remove(0))
        }
    }
}

/// A link to a lease service at 192.168.2.1 with the pool .2 to .253.
fn serve_leases() -> (Link, Ipv4Addr) {
    let server_ip = Ipv4Addr::new(192, 168, 2, 1);
    let mut leases = LeaseServer::new(
        Ipv4Addr::new(192, 168, 2, 2),
        252,
        Duration::from_secs(86400),
        false,
        vec![DhcpOption::IpAddressLeaseTime(86400)],
    );
    let link = Link::new(
        server_ip,
        Ipv4Addr::new(192, 168, 2, 255),
        move |s: &Server, p: &Packet| match leases.handle_request(s, p) {
            Action::Answer { delivery, .. } => Some(delivery),
            Action::Refuse { delivery, .. } => Some(delivery),
            _ => None,
        },
    );
    (link, server_ip)
}

fn ask(link: &mut Link, p: &Packet) -> Packet {
    let mut buf = [0u8; 1500];
    link.send(p.encode(&mut buf));
    unwrap_packet(Packet::from(&link.recv().expect("expected reply")))
}

fn unwrap_packet(r: Result<Packet, CustomErr<&[u8]>>) -> Packet {
    match r {
        Ok(p) => p,
        Err(_) => panic!("expected Ok Packet"),
    }
}

fn discover(xid: u32, chaddr: [u8; 6]) -> Packet {
    Packet {
        reply: false, hops: 0, xid, secs: 0, broadcast: false,
        ciaddr: Ipv4Addr::unspecified(), yiaddr: Ipv4Addr::unspecified(),
        siaddr: Ipv4Addr::unspecified(), giaddr: Ipv4Addr::unspecified(),
        chaddr,
        options: vec![DhcpOption::DhcpMessageType(MessageType::Discover)],
    }
}

#[test]
fn sec5_dribbled_single_bytes_hold_no_state() {
    let (mut link, _) = serve_leases();
    for _ in 0..100 {
        link.send(&[0x99]);
    }
    let rep = ask(&mut link, &discover(0xD101, [0x11; 6]));
    assert_eq!(rep.message_type(), Ok(MessageType::Offer));
    assert_eq!(rep.yiaddr, Ipv4Addr::new(192, 168, 2, 3));
}

#[test]
fn sec5_short_and_partial_cookie_rejected_without_panic() {
    let mut header_only = vec![0u8; 236];
    header_only[0] = 1;
    header_only[1] = 1;
    header_only[2] = 6;
    assert!(matches!(Packet::from(&header_only), Err(CustomErr::NomError(_))));
    for len in [237usize, 238, 239] {
        let mut v = header_only.clone();
        v.extend_from_slice(&[99, 130, 83, 99][..len - 236]);
        assert!(
            matches!(Packet::from(&v), Err(CustomErr::NomError(_))),
            "len {} must be NomError, not panic",
            len
        );
    }
    assert!(matches!(Packet::from(&[0u8; 10]), Err(CustomErr::InvalidHlen)));
    assert!(matches!(Packet::from(&[] as &[u8]), Err(CustomErr::InvalidHlen)));
}

#[test]
fn sec5_burst_30_discovers_all_answered() {
    let (mut link, _) = serve_leases();
    let mut buf = [0u8; 1500];
    let mut seen_xids = std::collections::HashSet::new();
    let mut seen_ips = std::collections::HashSet::new();
    for i in 0..30u32 {
        let ch = [i as u8, 0xAA, 0xBB, 0xCC, 0xDD, (i >> 8) as u8];
        let xid = 0xE000 + i;
        link.send(&discover(xid, ch).encode(&mut buf));
        let got = link.recv().expect("burst reply");
        let rep = unwrap_packet(Packet::from(&got));
        assert_eq!(rep.message_type(), Ok(MessageType::Offer));
        assert_eq!(rep.xid, xid, "per-transaction xid echo");
        seen_xids.insert(rep.xid);
        assert!(seen_ips.insert(rep.yiaddr), "distinct offers");
    }
    assert_eq!(seen_xids.len(), 30);
    assert_eq!(seen_ips.len(), 30);
    let rep = ask(&mut link, &discover(0xE099, [0x99; 6]));
    assert_eq!(rep.message_type(), Ok(MessageType::Offer));
}

#[test]
fn sec5_hijack_discover_as_victim_offered_victim_ip_live() {
    let (mut link, server_ip) = serve_leases();
    let victim = [0x51; 6];
    let req = Packet {
        reply: false, hops: 0, xid: 0xF001, secs: 0, broadcast: false,
        ciaddr: Ipv4Addr::unspecified(), yiaddr: Ipv4Addr::unspecified(),
        siaddr: Ipv4Addr::unspecified(), giaddr: Ipv4Addr::unspecified(),
        chaddr: victim,
        options: vec![
            DhcpOption::DhcpMessageType(MessageType::Request),
            DhcpOption::ServerIdentifier(server_ip),
            DhcpOption::RequestedIpAddress(Ipv4Addr::new(192, 168, 2, 60)),
        ],
    };
    assert_eq!(
        ask(&mut link, &req).yiaddr,
        Ipv4Addr::new(192, 168, 2, 60)
    );
    let rep = ask(&mut link, &discover(0xF002, victim));
    assert_eq!(rep.message_type(), Ok(MessageType::Offer));
    assert_eq!(
        rep.yiaddr,
        Ipv4Addr::new(192, 168, 2, 60),
        "spoofed Discover recons victim IP"
    );
}

#[test]
fn sec5_hijack_request_as_victim_acked_live() {
    let (mut link, server_ip) = serve_leases();
    let victim = [0x52; 6];
    let req = Packet {
        reply: false, hops: 0, xid: 0xF010, secs: 0, broadcast: false,
        ciaddr: Ipv4Addr::unspecified(), yiaddr: Ipv4Addr::unspecified(),
        siaddr: Ipv4Addr::unspecified(), giaddr: Ipv4Addr::unspecified(),
        chaddr: victim,
        options: vec![
            DhcpOption::DhcpMessageType(MessageType::Request),
            DhcpOption::ServerIdentifier(server_ip),
            DhcpOption::RequestedIpAddress(Ipv4Addr::new(192, 168, 2, 61)),
        ],
    };
    assert_eq!(
        ask(&mut link, &req).yiaddr,
        Ipv4Addr::new(192, 168, 2, 61)
    );
    let hijack = Packet {
        reply: false, hops: 0, xid: 0xF011, secs: 0, broadcast: false,
        ciaddr: Ipv4Addr::unspecified(), yiaddr: Ipv4Addr::unspecified(),
        siaddr: Ipv4Addr::unspecified(), giaddr: Ipv4Addr::unspecified(),
        chaddr: victim,
        options: vec![
            DhcpOption::DhcpMessageType(MessageType::Request),
            DhcpOption::ServerIdentifier(server_ip),
            DhcpOption::RequestedIpAddress(Ipv4Addr::new(192, 168, 2, 61)),
        ],
    };
    let rep = ask(&mut link, &hijack);
    assert_eq!(rep.message_type(), Ok(MessageType::Ack));
    assert_eq!(rep.yiaddr, Ipv4Addr::new(192, 168, 2, 61), "takeover Acked");
}

#[test]
fn sec5_hijack_renew_via_ciaddr_spoof_live() {
    let (mut link, server_ip) = serve_leases();
    let victim = [0x53; 6];
    let req = Packet {
        reply: false, hops: 0, xid: 0xF020, secs: 0, broadcast: false,
        ciaddr: Ipv4Addr::unspecified(), yiaddr: Ipv4Addr::unspecified(),
        siaddr: Ipv4Addr::unspecified(), giaddr: Ipv4Addr::unspecified(),
        chaddr: victim,
        options: vec![
            DhcpOption::DhcpMessageType(MessageType::Request),
            DhcpOption::ServerIdentifier(server_ip),
            DhcpOption::RequestedIpAddress(Ipv4Addr::new(192, 168, 2, 62)),
        ],
    };
    assert_eq!(
        ask(&mut link, &req).yiaddr,
        Ipv4Addr::new(192, 168, 2, 62)
    );
    let renew = Packet {
        reply: false, hops: 0, xid: 0xF021, secs: 0, broadcast: false,
        ciaddr: Ipv4Addr::new(192, 168, 2, 62), yiaddr: Ipv4Addr::unspecified(),
        siaddr: Ipv4Addr::unspecified(), giaddr: Ipv4Addr::unspecified(),
        chaddr: victim,
        options: vec![DhcpOption::DhcpMessageType(MessageType::Request)],
    };
    let rep = ask(&mut link, &renew);
    assert_eq!(rep.message_type(), Ok(MessageType::Ack));
    assert_eq!(rep.yiaddr, Ipv4Addr::new(192, 168, 2, 62), "renew hijack Acked");
}

#[test]
fn sec5_hijack_nak_leaves_victim_lease_intact_live() {
    let (mut link, server_ip) = serve_leases();
    let victim = [0x54; 6];
    let stranger = [0x55; 6];
    let req = Packet {
        reply: false, hops: 0, xid: 0xF030, secs: 0, broadcast: false,
        ciaddr: Ipv4Addr::unspecified(), yiaddr: Ipv4Addr::unspecified(),
        siaddr: Ipv4Addr::unspecified(), giaddr: Ipv4Addr::unspecified(),
        chaddr: victim,
        options: vec![
            DhcpOption::DhcpMessageType(MessageType::Request),
            DhcpOption::ServerIdentifier(server_ip),
            DhcpOption::RequestedIpAddress(Ipv4Addr::new(192, 168, 2, 63)),
        ],
    };
    assert_eq!(
        ask(&mut link, &req).yiaddr,
        Ipv4Addr::new(192, 168, 2, 63)
    );
    let grab = Packet {
        reply: false, hops: 0, xid: 0xF031, secs: 0, broadcast: false,
        ciaddr: Ipv4Addr::unspecified(), yiaddr: Ipv4Addr::unspecified(),
        siaddr: Ipv4Addr::unspecified(), giaddr: Ipv4Addr::unspecified(),
        chaddr: stranger,
        options: vec![
            DhcpOption::DhcpMessageType(MessageType::Request),
            DhcpOption::ServerIdentifier(server_ip),
            DhcpOption::RequestedIpAddress(Ipv4Addr::new(192, 168, 2, 63)),
        ],
    };
    assert_eq!(
        ask(&mut link, &grab).message_type(),
        Ok(MessageType::Nak)
    );
    let rep = ask(&mut link, &discover(0xF032, victim));
    assert_eq!(rep.yiaddr, Ipv4Addr::new(192, 168, 2, 63), "victim intact after NAK");
}

#[test]
fn sec5_hijack_release_spoof_frees_then_attacker_claims_live() {
    let (mut link, server_ip) = serve_leases();
    let mut buf = [0u8; 1500];
    let victim = [0x56; 6];
    let attacker = [0x57; 6];
    let req = Packet {
        reply: false, hops: 0, xid: 0xF040, secs: 0, broadcast: false,
        ciaddr: Ipv4Addr::unspecified(), yiaddr: Ipv4Addr::unspecified(),
        siaddr: Ipv4Addr::unspecified(), giaddr: Ipv4Addr::unspecified(),
        chaddr: victim,
        options: vec![
            DhcpOption::DhcpMessageType(MessageType::Request),
            DhcpOption::ServerIdentifier(server_ip),
            DhcpOption::RequestedIpAddress(Ipv4Addr::new(192, 168, 2, 64)),
        ],
    };
    assert_eq!(
        ask(&mut link, &req).yiaddr,
        Ipv4Addr::new(192, 168, 2, 64)
    );
    let rel = Packet {
        reply: false, hops: 0, xid: 0xF041, secs: 0, broadcast: false,
        ciaddr: Ipv4Addr::unspecified(), yiaddr: Ipv4Addr::unspecified(),
        siaddr: Ipv4Addr::unspecified(), giaddr: Ipv4Addr::unspecified(),
        chaddr: victim,
        options: vec![
            DhcpOption::DhcpMessageType(MessageType::Release),
            DhcpOption::ServerIdentifier(server_ip),
        ],
    };
    link.send(rel.encode(&mut buf));
    let claim = Packet {
        reply: false, hops: 0, xid: 0xF042, secs: 0, broadcast: false,
        ciaddr: Ipv4Addr::unspecified(), yiaddr: Ipv4Addr::unspecified(),
        siaddr: Ipv4Addr::unspecified(), giaddr: Ipv4Addr::unspecified(),
        chaddr: attacker,
        options: vec![
            DhcpOption::DhcpMessageType(MessageType::Request),
            DhcpOption::ServerIdentifier(server_ip),
            DhcpOption::RequestedIpAddress(Ipv4Addr::new(192, 168, 2, 64)),
        ],
    };
    let rep = ask(&mut link, &claim);
    assert_eq!(rep.message_type(), Ok(MessageType::Ack));
    assert_eq!(rep.yiaddr, Ipv4Addr::new(192, 168, 2, 64), "freed IP claimed");
}
