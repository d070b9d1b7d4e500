//! Floods of packets and of clients.

use dhcp4r::options::{DhcpOption, MessageType, RawDhcpOption};
use dhcp4r::packet::{CustomErr, Packet};
use dhcp4r::server::{Delivery, Server};
use dhcp4r::net::{Ipv4Addr, SocketAddr};
use dhcp4r::clock::Duration;
use dhcp4r::service4::{Action, LeaseServer};

/// A server and a peer of it. What the handler answers goes into the inbox of
/// the peer, if it is sent there.
struct Link {
    server: Server,
    peer: SocketAddr,
    handler: Box<dyn FnMut(&Server, &Packet) -> Option<Delivery>>,
    inbox: Vec<Vec<u8>>,
}

impl Link {
    fn new(
        server_ip: Ipv4Addr,
        broadcast: Ipv4Addr,
        handler: impl FnMut(&Server, &Packet) -> Option<Delivery> + 'static,
    ) -> Self {
        Self {
            server: Server::new(server_ip, vec![broadcast]),
            peer: SocketAddr::v4(Ipv4Addr::new(127, 0, 0, 1), 40068),
            handler: Box::new(handler),
            inbox: vec![],
        }
    }

    fn send(&mut self, datagram: &[u8]) {
        if let Some(Ok(p)) = self.server.receive(self.peer, datagram) {
            if let Some(d) = (self.handler)(&self.server, &p) {
                if d.dests.contains(&self.peer) {
                    self.inbox.push(d.wire);
                }
            }
        }
    }

    fn recv(&mut self) -> Option<Vec<u8>> {
        if self.inbox.is_empty() {
            None
        } else {
            Some(self.inbox.remove(0))
        }
    }
}

/// A link to a lease service at 192.168.2.1 with the pool .2 to .253.
fn serve_leases() -> (Link, Ipv4Addr) {
    let server_ip = Ipv4Addr::new(192, 168, 2, 1);
    let mut leases = LeaseServer::new(
        Ipv4Addr::new(192, 168, 2, 2),
        252,
        Duration::from_secs(86400),
        false,
        vec![DhcpOption::IpAddressLeaseTime(86400)],
    );
    let link = Link::new(
        server_ip,
        Ipv4Addr::new(192, 168, 2, 255),
        move |s: &Server, p: &Packet| match leases.handle_request(s, p) {
            Action::Answer { delivery, .. } => Some(delivery),
            Action::Refuse { delivery, .. } => Some(delivery),
            _ => None,
        },
    );
    (link, server_ip)
}

fn ask(link: &mut Link, p: &Packet) -> Packet {
    let mut buf = [0u8; 1500];
    link.send(p.encode(&mut buf));
    unwrap_packet(Packet::from(&link.recv().expect("expected reply")))
}

fn unwrap_packet(r: Result<Packet, CustomErr<&[u8]>>) -> Packet {
    match r {
        Ok(p) => p,
        Err(_) => panic!("expected Ok Packet"),
    }
}

fn test_packet(xid: u32, chaddr: [u8; 6], opts: Vec<DhcpOption>) -> Packet {
    Packet {
        reply: false,
        hops: 0,
        xid,
        secs: 0,
        broadcast: false,
        ciaddr: Ipv4Addr::unspecified(),
        yiaddr: Ipv4Addr::unspecified(),
        siaddr: Ipv4Addr::unspecified(),
        giaddr: Ipv4Addr::unspecified(),
        chaddr,
        options: opts,
    }
}

fn discover(xid: u32, chaddr: [u8; 6]) -> Packet {
    test_packet(
        xid,
        chaddr,
        vec![DhcpOption::DhcpMessageType(MessageType::Discover)],
    )
}

fn request_selecting(
    xid: u32,
    chaddr: [u8; 6],
    server_ip: Ipv4Addr,
    wanted: Ipv4Addr,
) -> Packet {
    test_packet(
        xid,
        chaddr,
        vec![
            DhcpOption::DhcpMessageType(MessageType::Request),
            DhcpOption::ServerIdentifier(server_ip),
            DhcpOption::RequestedIpAddress(wanted),
        ],
    )
}

fn drain_replies(link: &mut Link) -> usize {
    let mut count = 0;
    while link.recv().is_some() {
        count += 1;
    }
    count
}

#[test]
fn sec7_nak_storm_all_answered_no_suppression() {
    let (mut link, server_ip) = serve_leases();
    let victim = [0x71; 6];
    let req = request_selecting(0xA001, victim, server_ip, Ipv4Addr::new(192, 168, 2, 60));
    assert_eq!(
        ask(&mut link, &req).message_type(),
        Ok(MessageType::Ack)
    );
    for i in 0..20u32 {
        let ch = [0x70 + i as u8, 0xAA, 0xBB, 0xCC, 0xDD, 0xEE];
        let grab = request_selecting(0xA100 + i, ch, server_ip, Ipv4Addr::new(192, 168, 2, 60));
        let rep = ask(&mut link, &grab);
        assert_eq!(rep.message_type(), Ok(MessageType::Nak), "storm {}", i);
        assert_eq!(rep.xid, 0xA100 + i, "per-request xid echo in storm");
    }
    let still = ask(&mut link, &discover(0xA002, victim));
    assert_eq!(still.yiaddr, Ipv4Addr::new(192, 168, 2, 60));
}

#[test]
fn sec7_release_storm_unknown_chaddrs_no_state_no_crash() {
    let (mut link, server_ip) = serve_leases();
    let mut buf = [0u8; 1500];
    for i in 0..50u32 {
        let ch = [0x80 + (i % 250) as u8, 0x11, 0x22, 0x33, 0x44, 0x55];
        let rel = Packet {
            reply: false, hops: 0, xid: 0xB000 + i, secs: 0, broadcast: false,
            ciaddr: Ipv4Addr::unspecified(), yiaddr: Ipv4Addr::unspecified(),
            siaddr: Ipv4Addr::unspecified(), giaddr: Ipv4Addr::unspecified(),
            chaddr: ch,
            options: vec![
                DhcpOption::DhcpMessageType(MessageType::Release),
                DhcpOption::ServerIdentifier(server_ip),
            ],
        };
        link.send(rel.encode(&mut buf));
    }
    let rep = ask(&mut link, &discover(0xB100, [0x99; 6]));
    assert_eq!(rep.message_type(), Ok(MessageType::Offer));
    assert_eq!(rep.yiaddr, Ipv4Addr::new(192, 168, 2, 3));
}

#[test]
fn sec7_inform_flood_zero_replies_no_state() {
    let (mut link, _) = serve_leases();
    let mut buf = [0u8; 1500];
    for i in 0..20u32 {
        let ch = [0x90 + i as u8, 0xAA, 0xBB, 0xCC, 0xDD, 0xEE];
        let inf = Packet {
            reply: false, hops: 0, xid: 0xC000 + i, secs: 0, broadcast: false,
            ciaddr: Ipv4Addr::new(192, 168, 2, 60), yiaddr: Ipv4Addr::unspecified(),
            siaddr: Ipv4Addr::unspecified(), giaddr: Ipv4Addr::unspecified(),
            chaddr: ch,
            options: vec![
                DhcpOption::DhcpMessageType(MessageType::Inform),
                DhcpOption::ParameterRequestList(vec![1, 15]),
            ],
        };
        link.send(inf.encode(&mut buf));
    }
    assert_eq!(drain_replies(&mut link), 0, "INFORM flood: no replies");
    let rep = ask(&mut link, &discover(0xC100, [0x9A; 6]));
    assert_eq!(rep.message_type(), Ok(MessageType::Offer));
    assert_eq!(rep.yiaddr, Ipv4Addr::new(192, 168, 2, 3), "no state planted");
}

#[test]
fn sec7_same_xid_distinct_chaddrs_independent() {
    let (mut link, _) = serve_leases();
    let a = ask(&mut link, &discover(0xD0D0, [0xA1; 6]));
    let b = ask(&mut link, &discover(0xD0D0, [0xA2; 6]));
    assert_eq!(a.xid, 0xD0D0);
    assert_eq!(b.xid, 0xD0D0);
    assert_ne!(a.yiaddr, b.yiaddr, "distinct clients, distinct offers");
    assert_eq!(a.yiaddr, Ipv4Addr::new(192, 168, 2, 3));
    assert_eq!(b.yiaddr, Ipv4Addr::new(192, 168, 2, 4));
}

#[test]
fn sec7_minimal_option_bomb_hits_decoder_maximum() {
    let mut opts = vec![53, 1, 1];
    for _ in 0..628 {
        opts.extend_from_slice(&[200, 0]);
    }
    opts.push(255);
    let mut raw = vec![0u8; 236];
    raw[0] = 1;
    raw[1] = 1;
    raw[2] = 6;
    raw[4..8].copy_from_slice(&0xE001u32.to_be_bytes());
    raw[28..34].copy_from_slice(&[0xE1; 6]);
    raw.extend_from_slice(&[99, 130, 83, 99]);
    raw.extend_from_slice(&opts);
    assert_eq!(raw.len(), 1500, "construction must fill the MTU exactly");
    let p = unwrap_packet(Packet::from(&raw));
    assert_eq!(p.options.len(), 629, "1 Discover + 628 minimal fillers");
    assert_eq!(p.message_type(), Ok(MessageType::Discover));
    let mut buf = [0u8; 1500];
    let enc = p.encode(&mut buf).to_vec();
    assert!(enc.len() <= 300, "re-encode capped");
    let q = unwrap_packet(Packet::from(&enc));
    assert_eq!(q.message_type(), Ok(MessageType::Discover), "Discover kept first");
    assert_eq!(q.options.len(), 29, "Discover + 28 fillers + END accounting");
}

#[test]
fn sec7_reply_with_hundreds_of_options_capped_live() {
    let mut link = Link::new(
        Ipv4Addr::new(192, 168, 8, 1),
        Ipv4Addr::new(192, 168, 8, 255),
        |s: &Server, p: &Packet| {
            let mut extra = Vec::with_capacity(500);
            for i in 0..500u16 {
                extra.push(DhcpOption::Unrecognized(RawDhcpOption {
                    code: 200,
                    data: vec![(i & 0xFF) as u8],
                }));
            }
            Some(s.reply(MessageType::Offer, extra, Ipv4Addr::new(192, 168, 8, 10), p))
        },
    );
    let mut buf = [0u8; 1500];
    let p = discover(0xE010, [0xE1; 6]);
    link.send(p.encode(&mut buf));
    let got = link.recv().expect("capped reply");
    assert!(got.len() <= 300, "reply capped at wire cap, got {}", got.len());
    let rep = unwrap_packet(Packet::from(&got));
    assert_eq!(rep.message_type(), Ok(MessageType::Offer));
    assert_eq!(rep.yiaddr, Ipv4Addr::new(192, 168, 8, 10));
}
