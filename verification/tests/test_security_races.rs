//! Clients that race for the same address.

use dhcp4r::options::{DhcpOption, MESSAGE, MessageType};
use dhcp4r::packet::{CustomErr, Packet};
use dhcp4r::server::{Delivery, Server};
use dhcp4r::net::{Ipv4Addr, SocketAddr};
use dhcp4r::clock::{Duration, Instant};
use dhcp4r::service4::{Action, LeaseServer};

/// A server and a peer of it. What the handler answers goes into the inbox of
/// the peer, if it is sent there.
struct Link {
    server: Server,
    peer: SocketAddr,
    handler: Box<dyn FnMut(&Server, &Packet) -> Option<Delivery>>,
    inbox: Vec<Vec<u8>>,
}

impl Link {
    fn new(
        server_ip: Ipv4Addr,
        broadcast: Ipv4Addr,
        handler: impl FnMut(&Server, &Packet) -> Option<Delivery> + 'static,
    ) -> Self {
        Self {
            server: Server::new(server_ip, vec![broadcast]),
            peer: SocketAddr::v4(Ipv4Addr::new(127, 0, 0, 1), 40068),
            handler: Box::new(handler),
            inbox: vec![],
        }
    }

    fn send(&mut self, datagram: &[u8]) {
        if let Some(Ok(p)) = self.server.receive(self.peer, datagram) {
            if let Some(d) = (self.handler)(&self.server, &p) {
                if d.dests.contains(&self.peer) {
                    self.inbox.push(d.wire);
                }
            }
        }
    }

    fn recv(&mut self) -> Option<Vec<u8>> {
        if self.inbox.is_empty() {
            None
        } else {
            Some(self.inbox.remove(0))
        }
    }
}

/// A link to a lease service at 192.168.2.1 with the pool .2 to .253.
fn serve_leases() -> (Link, Ipv4Addr) {
    let server_ip = Ipv4Addr::new(192, 168, 2, 1);
    let mut leases = LeaseServer::new(
        Ipv4Addr::new(192, 168, 2, 2),
        252,
        Duration::from_secs(86400),
        false,
        vec![DhcpOption::IpAddressLeaseTime(86400)],
    );
    let link = Link::new(
        server_ip,
        Ipv4Addr::new(192, 168, 2, 255),
        move |s: &Server, p: &Packet| match leases.handle_request(s, p) {
            Action::Answer { delivery, .. } => Some(delivery),
            Action::Refuse { delivery, .. } => Some(delivery),
            _ => None,
        },
    );
    (link, server_ip)
}

fn ask(link: &mut Link, p: &Packet) -> Packet {
    let mut buf = [0u8; 1500];
    link.send(p.encode(&mut buf));
    unwrap_packet(Packet::from(&link.recv().expect("expected reply")))
}

/// A lease service at 192.168.2.1 with the pool .2 to .253, and its clients.
struct Lan {
    leases: LeaseServer,
    server: Server,
}

impl Lan {
    fn with_duration(lease_duration: Duration) -> Self {
        Self {
            leases: LeaseServer::new(
                Ipv4Addr::new(192, 168, 2, 2),
                252,
                lease_duration,
                false,
                vec![],
            ),
            server: Server::new(
                Ipv4Addr::new(192, 168, 2, 1),
                vec![Ipv4Addr::new(192, 168, 2, 255)],
            ),
        }
    }

    fn now(&self) -> Instant {
        self.leases.now()
    }

    fn lease(&self, ip: &Ipv4Addr) -> Option<([u8; 6], Option<Instant>)> {
        self.leases.lookup(ip).map(|l| (l.mac, l.expiry))
    }

    fn available(&self, chaddr: &[u8; 6], addr: &Ipv4Addr) -> bool {
        self.leases.available_at(chaddr, addr, self.leases.now())
    }

    fn current_lease(&self, chaddr: &[u8; 6]) -> Option<Ipv4Addr> {
        self.leases.current_lease(chaddr)
    }

    fn say(&mut self, chaddr: &[u8; 6], ciaddr: Ipv4Addr, options: Vec<DhcpOption>) -> Action {
        let p = Packet {
            reply: false, hops: 0, xid: 1, secs: 0, broadcast: false,
            ciaddr, yiaddr: Ipv4Addr::unspecified(),
            siaddr: Ipv4Addr::unspecified(), giaddr: Ipv4Addr::unspecified(),
            chaddr: *chaddr, options,
        };
        self.leases.handle_request(&self.server, &p)
    }

    fn request(
        &mut self,
        chaddr: &[u8; 6],
        requested: Option<Ipv4Addr>,
        ciaddr: Ipv4Addr,
        for_this: bool,
    ) -> Result<Ipv4Addr, &'static str> {
        let mut options = vec![DhcpOption::DhcpMessageType(MessageType::Request)];
        if let Some(ip) = requested {
            options.push(DhcpOption::RequestedIpAddress(ip));
        }
        let named = if for_this { 1 } else { 7 };
        options.push(DhcpOption::ServerIdentifier(Ipv4Addr::new(192, 168, 2, named)));
        match self.say(chaddr, ciaddr, options) {
            Action::Answer { msg_type, ip, .. } => {
                assert_eq!(msg_type, MessageType::Ack);
                Ok(ip)
            }
            Action::Refuse { delivery, .. } => {
                let nak = match Packet::from(&delivery.wire) {
                    Ok(p) => p,
                    Err(_) => panic!("a refusal must decode"),
                };
                assert_eq!(nak.message_type(), Ok(MessageType::Nak));
                assert_eq!(
                    nak.option(MESSAGE),
                    Some(&DhcpOption::Message("Requested IP not available".to_string()))
                );
                Err("Requested IP not available")
            }
            _ => panic!("a Request is granted or refused"),
        }
    }
}

fn unwrap_packet(r: Result<Packet, CustomErr<&[u8]>>) -> Packet {
    match r {
        Ok(p) => p,
        Err(_) => panic!("expected Ok Packet"),
    }
}

fn test_packet(xid: u32, chaddr: [u8; 6], opts: Vec<DhcpOption>) -> Packet {
    Packet {
        reply: false,
        hops: 0,
        xid,
        secs: 0,
        broadcast: false,
        ciaddr: Ipv4Addr::unspecified(),
        yiaddr: Ipv4Addr::unspecified(),
        siaddr: Ipv4Addr::unspecified(),
        giaddr: Ipv4Addr::unspecified(),
        chaddr,
        options: opts,
    }
}

const IP_START: [u8; 4] = [192, 168, 2, 2];

const IP_START_NUM: u32 = u32::from_be_bytes(IP_START);

fn discover(xid: u32, chaddr: [u8; 6]) -> Packet {
    test_packet(
        xid,
        chaddr,
        vec![DhcpOption::DhcpMessageType(MessageType::Discover)],
    )
}

fn request_selecting(
    xid: u32,
    chaddr: [u8; 6],
    server_ip: Ipv4Addr,
    wanted: Ipv4Addr,
) -> Packet {
    test_packet(
        xid,
        chaddr,
        vec![
            DhcpOption::DhcpMessageType(MessageType::Request),
            DhcpOption::ServerIdentifier(server_ip),
            DhcpOption::RequestedIpAddress(wanted),
        ],
    )
}

#[test]
fn sec8_retransmit_storm_same_chaddr_single_lease_live() {
    let (mut link, server_ip) = serve_leases();
    let mac = [0x71; 6];
    for i in 0..20u32 {
        let rep = ask(&mut link, &request_selecting(0xB000 + i, mac, server_ip, Ipv4Addr::new(192, 168, 2, 60)));
        assert_eq!(rep.message_type(), Ok(MessageType::Ack), "storm {}", i);
        assert_eq!(rep.yiaddr, Ipv4Addr::new(192, 168, 2, 60), "storm {}", i);
    }
    let stranger = ask(&mut link, &request_selecting(0xB100, [0x72; 6], server_ip, Ipv4Addr::new(192, 168, 2, 60)));
    assert_eq!(stranger.message_type(), Ok(MessageType::Nak));
}

#[test]
fn sec8_nak_path_performs_no_insert_replica() {
    let mut s = Lan::with_duration(Duration::from_secs(3600));
    let victim = [0x73; 6];
    let stranger = [0x74; 6];
    let ip = Ipv4Addr::new(192, 168, 2, 61);
    assert_eq!(s.request(&victim, Some(ip), Ipv4Addr::unspecified(), true), Ok(ip));
    assert_eq!(s.leases.len(), 1);
    assert_eq!(
        s.request(&stranger, Some(ip), Ipv4Addr::unspecified(), true),
        Err("Requested IP not available")
    );
    assert_eq!(s.leases.len(), 1, "NAK inserted nothing");
    assert_eq!(s.lease(&ip).unwrap().0, victim, "victim mapping intact");
    assert_eq!(s.current_lease(&stranger), None);
}

#[test]
fn sec8_zero_duration_lease_immediately_reusable_replica() {
    let mut s = Lan::with_duration(Duration::from_secs(0));
    let holder = [0x75; 6];
    let stranger = [0x76; 6];
    let ip = Ipv4Addr::new(192, 168, 2, 62);
    assert_eq!(s.request(&holder, Some(ip), Ipv4Addr::unspecified(), true), Ok(ip));
    assert!(
        s.available(&stranger, &ip),
        "zero-duration lease must already read expired"
    );
    assert_eq!(s.request(&stranger, Some(ip), Ipv4Addr::unspecified(), true), Ok(ip));
    assert_eq!(s.lease(&ip).unwrap().0, stranger, "reuse transfers ownership");
}

#[test]
fn sec8_last_free_ip_race_one_ack_one_nak_live() {
    let (mut link, server_ip) = serve_leases();
    let mut buf = [0u8; 1500];
    for i in 0..251u32 {
        let ch = [
            (i >> 16) as u8,
            (i >> 8) as u8,
            i as u8,
            0xAA,
            0xBB,
            0xCC,
        ];
        let ip: Ipv4Addr = Ipv4Addr::from_bits(IP_START_NUM + i);
        let rep = ask(&mut link, &request_selecting(0xC000 + i, ch, server_ip, ip));
        assert_eq!(rep.message_type(), Ok(MessageType::Ack), "fill {}", i);
    }
    let racer_a = [0xD0; 6];
    let racer_b = [0xD1; 6];
    let target = Ipv4Addr::new(192, 168, 2, 253);
    link.send(&request_selecting(0xC100, racer_a, server_ip, target)
                .encode(&mut buf)
                .to_vec());
    link.send(&request_selecting(0xC101, racer_b, server_ip, target)
                .encode(&mut buf)
                .to_vec());
    let mut kinds = Vec::new();
    for _ in 0..2 {
        let got = link.recv().expect("race reply");
        kinds.push(unwrap_packet(Packet::from(&got)).message_type().unwrap());
    }
    kinds.sort_by_key(|m| m.value());
    assert_eq!(kinds, vec![MessageType::Ack, MessageType::Nak]);
    let mut holds = |chaddr: [u8; 6], xid: u32| -> bool {
        let d = discover(xid, chaddr);
        link.send(d.encode(&mut buf));
        match link.recv() {
            Some(got) => unwrap_packet(Packet::from(&got)).yiaddr == target,
            None => false,
        }
    };
    let holds_a = holds(racer_a, 0xC102);
    let holds_b = holds(racer_b, 0xC103);
    assert!(holds_a ^ holds_b, "exactly one winner holds {:?}", target);
}

#[test]
fn sec8_pipelined_dual_dora_no_crosstalk_live() {
    let (mut link, server_ip) = serve_leases();
    let a = [0xE1; 6];
    let b = [0xE2; 6];
    let oa = ask(&mut link, &discover(0xE001, a));
    let ob = ask(&mut link, &discover(0xE002, b));
    assert_eq!(oa.yiaddr, Ipv4Addr::new(192, 168, 2, 3));
    assert_eq!(ob.yiaddr, Ipv4Addr::new(192, 168, 2, 4));
    let aa = ask(&mut link, &request_selecting(0xE003, a, server_ip, Ipv4Addr::new(192, 168, 2, 3)));
    let ab = ask(&mut link, &request_selecting(0xE004, b, server_ip, Ipv4Addr::new(192, 168, 2, 4)));
    assert_eq!((aa.message_type(), aa.yiaddr, aa.xid), (Ok(MessageType::Ack), Ipv4Addr::new(192, 168, 2, 3), 0xE003));
    assert_eq!((ab.message_type(), ab.yiaddr, ab.xid), (Ok(MessageType::Ack), Ipv4Addr::new(192, 168, 2, 4), 0xE004));
}

#[test]
fn sec8_spurious_release_between_offer_and_ack_no_effect_live() {
    let (mut link, server_ip) = serve_leases();
    let mut buf = [0u8; 1500];
    let victim = [0xE5; 6];
    let offer = ask(&mut link, &discover(0xE010, victim));
    assert_eq!(offer.yiaddr, Ipv4Addr::new(192, 168, 2, 3));
    for (xid, ch) in [(0xE011u32, [0xE6; 6]), (0xE012, victim)] {
        let rel = Packet {
            reply: false, hops: 0, xid, secs: 0, broadcast: false,
            ciaddr: Ipv4Addr::unspecified(), yiaddr: Ipv4Addr::unspecified(),
            siaddr: Ipv4Addr::unspecified(), giaddr: Ipv4Addr::unspecified(),
            chaddr: ch,
            options: vec![
                DhcpOption::DhcpMessageType(MessageType::Release),
                DhcpOption::ServerIdentifier(server_ip),
            ],
        };
        link.send(rel.encode(&mut buf));
    }
    let ack = ask(&mut link, &request_selecting(0xE013, victim, server_ip, Ipv4Addr::new(192, 168, 2, 3)));
    assert_eq!(ack.message_type(), Ok(MessageType::Ack));
    assert_eq!(ack.yiaddr, Ipv4Addr::new(192, 168, 2, 3));
}

#[test]
fn sec8_release_then_reacquire_same_ip_live() {
    let (mut link, server_ip) = serve_leases();
    let mut buf = [0u8; 1500];
    let mac = [0xE8; 6];
    let ip = Ipv4Addr::new(192, 168, 2, 66);
    let ack1 = ask(&mut link, &request_selecting(0xE020, mac, server_ip, ip));
    assert_eq!(ack1.yiaddr, ip);
    let rel = release_for(0xE021, mac, server_ip);
    link.send(rel.encode(&mut buf));
    let ack2 = ask(&mut link, &request_selecting(0xE022, mac, server_ip, ip));
    assert_eq!(ack2.message_type(), Ok(MessageType::Ack));
    assert_eq!(ack2.yiaddr, ip, "freed slot immediately reusable");
}

fn release_for(xid: u32, chaddr: [u8; 6], server_ip: Ipv4Addr) -> Packet {
    test_packet(
        xid,
        chaddr,
        vec![
            DhcpOption::DhcpMessageType(MessageType::Release),
            DhcpOption::ServerIdentifier(server_ip),
        ],
    )
}
