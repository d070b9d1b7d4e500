//! Time servers in offers.

use dhcp4r::options::{DhcpOption, MessageType, NETWORK_TIME_PROTOCOL_SERVERS, RawDhcpOption};
use dhcp4r::packet::{CustomErr, Packet, decode_option};
use dhcp4r::server::{Delivery, Server};
use dhcp4r::net::{Ipv4Addr, SocketAddr};
use dhcp4r::service4::build_offer_options;

/// A server and a peer of it. What the handler answers goes into the inbox of
/// the peer, if it is sent there.
struct Link {
    server: Server,
    peer: SocketAddr,
    handler: Box<dyn FnMut(&Server, &Packet) -> Option<Delivery>>,
    inbox: Vec<Vec<u8>>,
}

impl Link {
    fn new(
        server_ip: Ipv4Addr,
        broadcast: Ipv4Addr,
        handler: impl FnMut(&Server, &Packet) -> Option<Delivery> + 'static,
    ) -> Self {
        Self {
            server: Server::new(server_ip, vec![broadcast]),
            peer: SocketAddr::v4(Ipv4Addr::new(127, 0, 0, 1), 40068),
            handler: Box::new(handler),
            inbox: vec![],
        }
    }

    fn send(&mut self, datagram: &[u8]) {
        if let Some(Ok(p)) = self.server.receive(self.peer, datagram) {
            if let Some(d) = (self.handler)(&self.server, &p) {
                if d.dests.contains(&self.peer) {
                    self.inbox.push(d.wire);
                }
            }
        }
    }

    fn recv(&mut self) -> Option<Vec<u8>> {
        if self.inbox.is_empty() {
            None
        } else {
            Some(self.inbox.remove(0))
        }
    }
}

fn unwrap_packet(r: Result<Packet, CustomErr<&[u8]>>) -> Packet {
    match r {
        Ok(p) => p,
        Err(_) => panic!("expected Ok Packet"),
    }
}

fn test_packet(xid: u32, chaddr: [u8; 6], opts: Vec<DhcpOption>) -> Packet {
    Packet {
        reply: false,
        hops: 0,
        xid,
        secs: 0,
        broadcast: false,
        ciaddr: Ipv4Addr::unspecified(),
        yiaddr: Ipv4Addr::unspecified(),
        siaddr: Ipv4Addr::unspecified(),
        giaddr: Ipv4Addr::unspecified(),
        chaddr,
        options: opts,
    }
}

fn codes(opts: &[DhcpOption]) -> Vec<u8> {
    opts.iter().map(|o| o.code()).collect()
}

fn ntp_option(enable_ntp: bool, ntp_ips: &[Ipv4Addr]) -> Option<DhcpOption> {
    let opts = build_offer_options(
        Ipv4Addr::new(255, 255, 255, 0),
        Ipv4Addr::new(192, 168, 2, 1),
        &[Ipv4Addr::new(8, 8, 8, 8)],
        ntp_ips,
        enable_ntp,
        86400,
    );
    opts.into_iter().find(|o| o.code() == NETWORK_TIME_PROTOCOL_SERVERS)
}

#[test]
fn ntp_wire_format_is_code_42_len_4n() {
    assert_eq!(NETWORK_TIME_PROTOCOL_SERVERS, 42);
    let one = DhcpOption::Unrecognized(RawDhcpOption {
        code: 42,
        data: vec![192, 168, 2, 1],
    })
    .to_raw();
    assert_eq!(one.code, 42);
    assert_eq!(one.data, vec![192, 168, 2, 1]);
    let p = test_packet(
        1,
        [0; 6],
        vec![
            DhcpOption::DhcpMessageType(MessageType::Ack),
            DhcpOption::Unrecognized(RawDhcpOption {
                code: 42,
                data: vec![10, 0, 0, 1, 10, 0, 0, 2],
            }),
        ],
    );
    let mut buf = [0u8; 1500];
    let q = unwrap_packet(Packet::from(&p.encode(&mut buf).to_vec()));
    assert_eq!(
        q.option(42),
        Some(&DhcpOption::Unrecognized(RawDhcpOption {
            code: 42,
            data: vec![10, 0, 0, 1, 10, 0, 0, 2],
        }))
    );
}

#[test]
fn ntp_decodes_as_unrecognized_not_typed() {
    match decode_option(&[42, 4, 192, 168, 2, 1]) {
        Ok((_, DhcpOption::Unrecognized(r))) => {
            assert_eq!(r.code, 42);
            assert_eq!(r.data, vec![192, 168, 2, 1]);
        }
        _ => panic!("option 42 must decode as Unrecognized"),
    }
}

#[test]
fn ntp_multi_server_concatenation_order() {
    let ips = vec![
        Ipv4Addr::new(10, 0, 0, 1),
        Ipv4Addr::new(10, 0, 0, 2),
        Ipv4Addr::new(10, 0, 0, 3),
    ];
    let opt = ntp_option(true, &ips).unwrap();
    let raw = opt.to_raw();
    assert_eq!(raw.code, 42);
    assert_eq!(raw.data.len(), 12);
    assert_eq!(&raw.data[0..4], &[10, 0, 0, 1]);
    assert_eq!(&raw.data[4..8], &[10, 0, 0, 2]);
    assert_eq!(&raw.data[8..12], &[10, 0, 0, 3]);
}

#[test]
fn ntp_rule_disabled_or_empty_yields_nothing() {
    assert!(ntp_option(false, &[Ipv4Addr::new(192, 168, 2, 1)]).is_none());
    assert!(ntp_option(true, &[]).is_none());
    assert!(ntp_option(false, &[]).is_none());
}

#[test]
fn ntp_rule_enabled_yields_concatenated() {
    let opt = ntp_option(true, &[Ipv4Addr::new(192, 168, 2, 1)]).unwrap();
    assert_eq!(opt.code(), 42);
    assert_eq!(
        opt.to_raw().data,
        vec![192, 168, 2, 1],
        "single server, 4 bytes"
    );
}

#[test]
fn ntp_offered_without_prl_live() {
    let server_ip = Ipv4Addr::new(10, 0, 0, 1);

    let mut link = Link::new(
        server_ip,
        Ipv4Addr::new(10, 0, 0, 255),
        |s: &Server, in_packet: &Packet| {
            Some(s.reply(
                MessageType::Offer,
                vec![
                    DhcpOption::SubnetMask(Ipv4Addr::new(255, 255, 255, 0)),
                    DhcpOption::IpAddressLeaseTime(3600),
                    DhcpOption::Unrecognized(RawDhcpOption {
                        code: NETWORK_TIME_PROTOCOL_SERVERS,
                        data: vec![192, 168, 2, 1],
                    }),
                ],
                Ipv4Addr::new(10, 0, 0, 50),
                in_packet,
            ))
        },
    );
    let mut buf = [0u8; 1500];
    let req = test_packet(
        0xA001,
        [1; 6],
        vec![DhcpOption::DhcpMessageType(MessageType::Discover)],
    );
    link.send(req.encode(&mut buf));
    let got = link.recv().expect("expected reply");
    let rep = unwrap_packet(Packet::from(&got));
    assert_eq!(rep.message_type(), Ok(MessageType::Offer));
    assert_eq!(codes(&rep.options), vec![53, 54, 1, 51, 42]);
    assert_eq!(
        rep.option(42),
        Some(&DhcpOption::Unrecognized(RawDhcpOption {
            code: 42,
            data: vec![192, 168, 2, 1],
        }))
    );
}

#[test]
fn ntp_filtered_without_prl_request_live() {
    let server_ip = Ipv4Addr::new(10, 0, 0, 1);

    let mut link = Link::new(
        server_ip,
        Ipv4Addr::new(10, 0, 0, 255),
        |s: &Server, in_packet: &Packet| {
            Some(s.reply(
                MessageType::Ack,
                vec![
                    DhcpOption::SubnetMask(Ipv4Addr::new(255, 255, 255, 0)),
                    DhcpOption::Unrecognized(RawDhcpOption {
                        code: NETWORK_TIME_PROTOCOL_SERVERS,
                        data: vec![192, 168, 2, 1],
                    }),
                ],
                Ipv4Addr::new(10, 0, 0, 50),
                in_packet,
            ))
        },
    );
    let mut buf = [0u8; 1500];
    let req = Packet {
        reply: false, hops: 0, xid: 0xA002, secs: 0, broadcast: false,
        ciaddr: Ipv4Addr::new(0, 0, 0, 0), yiaddr: Ipv4Addr::new(0, 0, 0, 0),
        siaddr: Ipv4Addr::new(0, 0, 0, 0), giaddr: Ipv4Addr::new(0, 0, 0, 0),
        chaddr: [2; 6],
        options: vec![
            DhcpOption::DhcpMessageType(MessageType::Request),
            DhcpOption::ServerIdentifier(server_ip),
            DhcpOption::ParameterRequestList(vec![1]),
        ],
    };
    link.send(req.encode(&mut buf));
    let got = link.recv().expect("expected reply");
    let rep = unwrap_packet(Packet::from(&got));
    assert_eq!(codes(&rep.options), vec![1, 53, 54]);
    assert!(rep.option(42).is_none(), "unrequested NTP must be filtered");
}

#[test]
fn ntp_kept_when_prl_requests_it_live() {
    let server_ip = Ipv4Addr::new(10, 0, 0, 1);

    let mut link = Link::new(
        server_ip,
        Ipv4Addr::new(10, 0, 0, 255),
        |s: &Server, in_packet: &Packet| {
            Some(s.reply(
                MessageType::Ack,
                vec![
                    DhcpOption::SubnetMask(Ipv4Addr::new(255, 255, 255, 0)),
                    DhcpOption::Unrecognized(RawDhcpOption {
                        code: NETWORK_TIME_PROTOCOL_SERVERS,
                        data: vec![192, 168, 2, 1],
                    }),
                ],
                Ipv4Addr::new(10, 0, 0, 50),
                in_packet,
            ))
        },
    );
    let mut buf = [0u8; 1500];
    let req = Packet {
        reply: false, hops: 0, xid: 0xA003, secs: 0, broadcast: false,
        ciaddr: Ipv4Addr::new(0, 0, 0, 0), yiaddr: Ipv4Addr::new(0, 0, 0, 0),
        siaddr: Ipv4Addr::new(0, 0, 0, 0), giaddr: Ipv4Addr::new(0, 0, 0, 0),
        chaddr: [3; 6],
        options: vec![
            DhcpOption::DhcpMessageType(MessageType::Request),
            DhcpOption::ServerIdentifier(server_ip),
            DhcpOption::ParameterRequestList(vec![42]),
        ],
    };
    link.send(req.encode(&mut buf));
    let got = link.recv().expect("expected reply");
    let rep = unwrap_packet(Packet::from(&got));
    assert_eq!(codes(&rep.options), vec![42, 53, 54, 1]);
    assert_eq!(
        rep.option(42),
        Some(&DhcpOption::Unrecognized(RawDhcpOption {
            code: 42,
            data: vec![192, 168, 2, 1],
        }))
    );
}

#[test]
fn ntp_two_servers_live() {
    let server_ip = Ipv4Addr::new(10, 0, 0, 1);

    let mut link = Link::new(
        server_ip,
        Ipv4Addr::new(10, 0, 0, 255),
        |s: &Server, in_packet: &Packet| {
            Some(s.reply(
                MessageType::Offer,
                vec![DhcpOption::Unrecognized(RawDhcpOption {
                    code: NETWORK_TIME_PROTOCOL_SERVERS,
                    data: vec![10, 0, 0, 1, 10, 0, 0, 2],
                })],
                Ipv4Addr::new(10, 0, 0, 50),
                in_packet,
            ))
        },
    );
    let mut buf = [0u8; 1500];
    let req = test_packet(
        0xA004,
        [4; 6],
        vec![DhcpOption::DhcpMessageType(MessageType::Discover)],
    );
    link.send(req.encode(&mut buf));
    let got = link.recv().expect("expected reply");
    let rep = unwrap_packet(Packet::from(&got));
    assert_eq!(codes(&rep.options), vec![53, 54, 42]);
    match rep.option(42) {
        Some(DhcpOption::Unrecognized(r)) => {
            assert_eq!(r.code, 42);
            assert_eq!(r.data, vec![10, 0, 0, 1, 10, 0, 0, 2]);
        }
        _ => panic!("two-server NTP list must survive"),
    }
}

#[test]
fn ntp_full_example_set_live() {
    let server_ip = Ipv4Addr::new(10, 0, 0, 1);

    let mut link = Link::new(
        server_ip,
        Ipv4Addr::new(10, 0, 0, 255),
        |s: &Server, in_packet: &Packet| {
            Some(s.reply(
                MessageType::Offer,
                vec![
                    DhcpOption::IpAddressLeaseTime(86400),
                    DhcpOption::SubnetMask(Ipv4Addr::new(255, 255, 255, 0)),
                    DhcpOption::Router(vec![Ipv4Addr::new(10, 0, 0, 1)]),
                    DhcpOption::DomainNameServer(vec![Ipv4Addr::new(8, 8, 8, 8)]),
                    DhcpOption::Unrecognized(RawDhcpOption {
                        code: NETWORK_TIME_PROTOCOL_SERVERS,
                        data: vec![10, 0, 0, 2],
                    }),
                ],
                Ipv4Addr::new(10, 0, 0, 50),
                in_packet,
            ))
        },
    );
    let mut buf = [0u8; 1500];
    let req = test_packet(
        0xA005,
        [5; 6],
        vec![DhcpOption::DhcpMessageType(MessageType::Discover)],
    );
    link.send(req.encode(&mut buf));
    let got = link.recv().expect("expected reply");
    assert!(
        got.windows(6).any(|w| w == [3, 4, 10, 0, 0, 1]),
        "router TLV on the wire"
    );
    assert!(
        got.windows(6).any(|w| w == [6, 4, 8, 8, 8, 8]),
        "DNS reaches the wire under the 300 cap"
    );
    assert!(
        got.windows(6).any(|w| w == [42, 4, 10, 0, 0, 2]),
        "NTP reaches the wire under the 300 cap"
    );
    let rep = unwrap_packet(Packet::from(&got));
    assert_eq!(codes(&rep.options), vec![53, 54, 51, 1]);
    assert!(rep.option(42).is_none());
}
