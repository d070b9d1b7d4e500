//! What holds of DHCPv6 datagrams, the IPv6 pool and its service, on concrete
//! values.

use dhcp4r::clock::{Duration, Instant};
use dhcp4r::dhcpv6::{
    be_u16, be_u32, decode_option, take, DecodeError, Dhcpv6Option, EncodeError, IaAddr, IaNa,
    MsgType, Packet, RawDhcpv6Option, V6Pool, OPT_CLIENTID, OPT_IA_NA, OPT_RAPID_COMMIT,
    OPT_SERVERID, OPT_STATUS_CODE, STATUS_NO_ADDRS_AVAIL,
};
use dhcp4r::net::Ipv6Addr;
use dhcp4r::service6::{Action6, V6Service};

fn addr(n: u16) -> Ipv6Addr {
    Ipv6Addr::new(0xfd00, 0, 0, 0, 0, 0, 0, n)
}

fn at(secs: i128) -> Instant {
    Instant { nanos: secs * 1_000_000_000 }
}

/// Three addresses from fd00::100 on, an hour each.
fn pool() -> V6Pool {
    V6Pool::new(addr(0x100), 3, Duration::from_secs(3600))
}

fn service(rapid: bool) -> V6Service {
    V6Service::new(addr(0x100), 3, 3600, vec![0, 3, 9], vec![addr(0x53)], rapid)
}

fn raw(code: u16, data: Vec<u8>) -> Dhcpv6Option {
    Dhcpv6Option::Unrecognized(RawDhcpv6Option { code, data })
}

fn iana(iaid: u32, wanted: &[Ipv6Addr]) -> Dhcpv6Option {
    let addrs = wanted.iter().map(|a| IaAddr { addr: *a, preferred: 1, valid: 2 }).collect();
    Dhcpv6Option::IaNa(IaNa { iaid, t1: 3, t2: 4, addrs })
}

fn datagram(msg_type: MsgType, client: &[u8], more: Vec<Dhcpv6Option>) -> Packet {
    let mut options = vec![Dhcpv6Option::ClientId(client.to_vec())];
    options.extend(more);
    Packet { msg_type, transaction_id: 0x00ab_cdef, options }
}

fn granted(a: Action6) -> (Ipv6Addr, Packet) {
    match a {
        Action6::Success { ip, reply } => (ip, reply),
        _ => panic!("must be granted"),
    }
}

// ---------------------------------------------------------------------------
// Datagrams
// ---------------------------------------------------------------------------

#[test]
fn law_msg_types_and_values_match() {
    for v in 0..=255u8 {
        match MsgType::from(v) {
            Ok(t) => assert_eq!(t.value(), v),
            Err(e) => assert_eq!(e, DecodeError::BadMessageType(v)),
        }
    }
}

#[test]
fn law_option6_and_packet6_round_trip() {
    let p = Packet {
        msg_type: MsgType::Reply,
        transaction_id: 0x00ff_ffff,
        options: vec![
            Dhcpv6Option::ClientId(vec![]),
            Dhcpv6Option::ServerId(vec![1, 2, 3]),
            iana(7, &[addr(1), addr(2)]),
            Dhcpv6Option::StatusCode(2, "gr\u{fc}n".to_string()),
            Dhcpv6Option::DnsServers(vec![addr(3), addr(4)]),
            raw(0xffff, vec![9; 300]),
        ],
    };
    let wire = p.encode().unwrap();
    assert_eq!(&wire[..4], &[7, 0xff, 0xff, 0xff]);
    let back = Packet::from(&wire).unwrap();
    assert_eq!(back.msg_type, p.msg_type);
    assert_eq!(back.transaction_id, p.transaction_id);
    assert_eq!(back.options, p.options);
}

#[test]
fn law_options_are_kept_transparently() {
    let wire = [0, 99, 0, 3, 1, 2, 3, 0xaa, 0xbb];
    let (rest, o) = decode_option(&wire).unwrap();
    assert_eq!(rest, &[0xaau8, 0xbb][..]);
    let r = o.to_raw();
    assert_eq!((r.code, r.data), (99, vec![1, 2, 3]));
}

#[test]
fn law_datagrams_without_iana_are_kept_transparently() {
    let mut wire = vec![1, 0xab, 0xcd, 0xef];
    wire.extend_from_slice(&[0, 1, 0, 2, 9, 8, 0, 99, 0, 0, 0, 13, 0, 4, 0, 2, 0xc3, 0xa9]);
    wire.extend_from_slice(&[0, 23, 0, 16]);
    wire.extend_from_slice(&addr(0x53).octets());
    let p = Packet::from(&wire).unwrap();
    assert_eq!(p.options.len(), 4);
    assert_eq!(p.encode().unwrap(), wire);
}

#[test]
fn law_options_frame_their_raw_form() {
    let opts = [
        Dhcpv6Option::ClientId(vec![1, 2]),
        iana(7, &[addr(1)]),
        Dhcpv6Option::DnsServers(vec![addr(2), addr(3)]),
        Dhcpv6Option::StatusCode(2, "none".to_string()),
        raw(99, vec![]),
        raw(98, vec![5; 65535]),
    ];
    for o in &opts {
        let r = o.to_raw();
        let n = r.data.len();
        let mut expected = vec![0xee];
        expected.extend_from_slice(&r.code.to_be_bytes());
        expected.extend_from_slice(&(n as u16).to_be_bytes());
        expected.extend_from_slice(&r.data);
        let mut out = vec![0xee];
        assert_eq!(o.encode_into(&mut out), Ok(()));
        assert_eq!(out, expected);
        assert_eq!((o.code(), o.wire_len()), (r.code, 4 + n));
    }
    let mut out = vec![0xee];
    let long = raw(98, vec![5; 65536]);
    assert_eq!(long.encode_into(&mut out), Err(EncodeError::OptionTooLarge));
    assert_eq!(out, vec![0xee]);
    assert_eq!(long.wire_len(), 4 + 65536);
}

#[test]
fn every_decode_error_has_its_datagram() {
    assert_eq!(Packet::from(&[1, 0, 0]).unwrap_err(), DecodeError::Truncated);
    assert_eq!(Packet::from(&[99, 0, 0, 0]).unwrap_err(), DecodeError::BadMessageType(99));
    assert_eq!(decode_option(&[0, 13, 0, 3, 0, 0, 0xff]).unwrap_err(), DecodeError::BadUtf8);
    assert_eq!(decode_option(&[0, 23, 0, 1, 5]).unwrap_err(), DecodeError::Malformed);
    assert_eq!(be_u16(&[1]).unwrap_err(), DecodeError::Truncated);
    assert_eq!(be_u32(&[1, 2, 3]).unwrap_err(), DecodeError::Truncated);
    assert_eq!(take(&[1, 2], 3).unwrap_err(), DecodeError::Truncated);
    assert_eq!(be_u16(&[1, 2, 3]).unwrap(), (&[3u8][..], 0x0102));
    assert_eq!(be_u32(&[1, 2, 3, 4]).unwrap(), (&[][..], 0x0102_0304));
    assert_eq!(take(&[1, 2, 3], 2).unwrap(), (&[3u8][..], &[1u8, 2][..]));
}

#[test]
fn a_payload_over_the_length_field_is_not_encoded() {
    let mut p = datagram(MsgType::Solicit, &[1], vec![raw(99, vec![0; 65535])]);
    assert_eq!(p.encode().unwrap().len(), 4 + 5 + 4 + 65535);
    p.options.push(raw(98, vec![0; 65536]));
    assert_eq!(p.encode().unwrap_err(), EncodeError::OptionTooLarge);
}

// ---------------------------------------------------------------------------
// The pool
// ---------------------------------------------------------------------------

#[test]
fn law_discover_commits_nothing_and_offers_what_can_be_had() {
    let mut p = pool();
    let a = p.discover_at(&[1], at(0)).unwrap();
    assert_eq!(a, addr(0x101));
    assert!(p.is_empty());
    assert!(p.available_at(&[1], &a, at(0)));
    assert_eq!(p.request_at(&[1], a, at(0)), Ok(a));
    assert_eq!(p.len(), 1);
}

#[test]
fn law_kth_discover_on_fresh_pool() {
    let mut p = pool();
    for k in 1..8u16 {
        assert_eq!(p.discover_at(&[k as u8], at(0)), Some(addr(0x100 + k % 3)));
    }
}

#[test]
fn law_discover_fails_only_when_exhausted() {
    let mut p = pool();
    for n in 0x100..0x103 {
        assert_eq!(p.request_at(&[n as u8, 1], addr(n), at(0)), Ok(addr(n)));
    }
    assert_eq!(p.discover_at(&[9], at(3600)), None);
    assert_eq!(p.discover_at(&[9], at(3601)), Some(addr(0x101)));
    assert_eq!(p.discover_at(&[0, 1], at(0)), Some(addr(0x100)));
}

#[test]
fn law_request_spares_live_and_permanent_leases() {
    let mut p = pool();
    p.insert(addr(0x100), vec![8], None);
    p.insert(addr(0x101), vec![8, 8], Some(at(10)));
    assert!(p.request_at(&[1], addr(0x100), at(1000)).is_err());
    assert!(p.request_at(&[1], addr(0x101), at(10)).is_err());
    assert_eq!(p.get(&addr(0x101)), Some(&(vec![8, 8], Some(at(10)))));
    assert_eq!(p.request_at(&[1], addr(0x101), at(11)), Ok(addr(0x101)));
    assert_eq!(p.get(&addr(0x101)), Some(&(vec![1], Some(at(3611)))));
    assert_eq!(p.get(&addr(0x100)), Some(&(vec![8], None)));
}

#[test]
fn law_granted_lease_is_current_and_kept() {
    let mut p = pool();
    assert_eq!(p.request_at(&[1], addr(0x102), at(5)), Ok(addr(0x102)));
    assert_eq!(p.current_lease(&[1]), Some(addr(0x102)));
    assert_eq!(p.request_at(&[1], addr(0x100), at(6)), Ok(addr(0x102)));
    assert_eq!(p.get(&addr(0x102)), Some(&(vec![1], Some(at(3605)))));
    assert_eq!(p.len(), 1);
}

#[test]
fn law_release_frees_one_address_and_undoes_request() {
    let mut p = pool();
    p.insert(addr(0x100), vec![1], None);
    p.insert(addr(0x101), vec![1], None);
    assert!(p.release(&[1]));
    assert_eq!(p.len(), 1);
    assert!(p.release(&[1]));
    assert!(!p.release(&[1]));
    assert_eq!(p.request_at(&[2], addr(0x102), at(0)), Ok(addr(0x102)));
    assert!(p.release(&[2]));
    assert!(p.is_empty());
    assert_eq!(p.current_lease(&[2]), None);
}

#[test]
fn pools_that_run_past_the_last_address_hold_nothing() {
    let start = Ipv6Addr::from_bits(u128::MAX - 2);
    let last = Ipv6Addr::from_bits(u128::MAX - 1);
    let mut p = V6Pool::new(start, 2, Duration::from_secs(1));
    assert_eq!(p.start_addr(), start);
    assert_eq!(p.count(), 2);
    assert_eq!(p.discover_at(&[1], at(0)), Some(last));
    assert_eq!(p.request_at(&[1], last, at(0)), Ok(last));
    assert!(p.request_at(&[2], Ipv6Addr::from_bits(0), at(0)).is_err());
    let mut past = V6Pool::new(start, 3, Duration::from_secs(1));
    assert_eq!(past.discover_at(&[1], at(0)), None);
    assert!(past.request_at(&[1], last, at(0)).is_err());
}

// ---------------------------------------------------------------------------
// The service
// ---------------------------------------------------------------------------

#[test]
fn law_replies_echo_the_request() {
    let mut s = service(false);
    let req = datagram(MsgType::Solicit, &[5, 6], vec![iana(77, &[])]);
    let (_, reply) = granted(s.handle_at(&req, at(0)));
    assert_eq!(reply.transaction_id, 0x00ab_cdef);
    assert_eq!(reply.option(OPT_SERVERID), Some(&Dhcpv6Option::ServerId(vec![0, 3, 9])));
    assert_eq!(reply.option(OPT_CLIENTID), Some(&Dhcpv6Option::ClientId(vec![5, 6])));
    assert_eq!(reply.first_iana().unwrap().iaid, 77);
    assert_eq!((reply.first_iana().unwrap().t1, reply.first_iana().unwrap().t2), (1800, 3150));
}

#[test]
fn law_solicit_is_always_answered() {
    let mut s = service(true);
    for n in 0..3u8 {
        let req = datagram(MsgType::Solicit, &[n], vec![raw(OPT_RAPID_COMMIT, vec![])]);
        assert_eq!(granted(s.handle_at(&req, at(0))).1.msg_type, MsgType::Reply);
    }
    assert_eq!(s.pool().len(), 3);
    let plain = datagram(MsgType::Solicit, &[9], vec![iana(1, &[])]);
    match s.handle_at(&plain, at(0)) {
        Action6::NoData { reply } => {
            assert_eq!(reply.msg_type, MsgType::Advertise);
            assert_eq!(
                reply.option(OPT_STATUS_CODE),
                Some(&Dhcpv6Option::StatusCode(
                    STATUS_NO_ADDRS_AVAIL,
                    "NoAddrsAvail".to_string()
                ))
            );
            assert!(reply.option(OPT_IA_NA).is_some());
        }
        _ => panic!("the pool is exhausted"),
    }
    let held = datagram(MsgType::Solicit, &[1], vec![iana(1, &[])]);
    assert_eq!(granted(s.handle_at(&held, at(0))).1.msg_type, MsgType::Advertise);
}

#[test]
fn law_advertise_commits_nothing_and_can_be_had() {
    let mut s = service(false);
    let solicit = datagram(MsgType::Solicit, &[1], vec![raw(OPT_RAPID_COMMIT, vec![])]);
    assert!(!s.commits_rapidly(&solicit));
    let (ip, reply) = granted(s.handle_at(&solicit, at(0)));
    assert_eq!(reply.msg_type, MsgType::Advertise);
    assert!(s.pool().is_empty());
    let request = datagram(MsgType::Request, &[1], vec![iana(1, &[ip])]);
    let (got, reply) = granted(s.handle_at(&request, at(0)));
    assert_eq!((got, reply.msg_type), (ip, MsgType::Reply));
    assert_eq!(s.pool().current_lease(&[1]), Some(ip));
}

#[test]
fn law_replied_client_holds_lease() {
    for t in [MsgType::Request, MsgType::Renew, MsgType::Rebind] {
        let mut s = service(false);
        let req = datagram(t, &[4], vec![iana(1, &[addr(0x100)])]);
        assert_eq!(granted(s.handle_at(&req, at(0))).0, addr(0x100));
        assert_eq!(s.pool().get(&addr(0x100)).unwrap().0, vec![4]);
    }
}

#[test]
fn law_only_named_release_frees() {
    let mut s = service(false);
    let request = datagram(MsgType::Request, &[1], vec![iana(1, &[addr(0x100)])]);
    granted(s.handle_at(&request, at(0)));
    let other = datagram(MsgType::Release, &[1], vec![Dhcpv6Option::ServerId(vec![7])]);
    assert!(matches!(s.handle_at(&other, at(0)), Action6::NotForUs));
    let stranger = datagram(MsgType::Decline, &[2], vec![Dhcpv6Option::ServerId(vec![0, 3, 9])]);
    assert!(matches!(s.handle_at(&stranger, at(0)), Action6::NoLease));
    assert_eq!(s.pool().len(), 1);
    let ours = datagram(MsgType::Decline, &[1], vec![Dhcpv6Option::ServerId(vec![0, 3, 9])]);
    assert!(matches!(s.handle_at(&ours, at(0)), Action6::Freed));
    assert!(s.pool().is_empty());
}

#[test]
fn law_live_leases_are_spared_by_the_v6_service() {
    let mut s = service(false);
    assert!(s.load_line("0a:0b, fd00::101"));
    let req = datagram(MsgType::Request, &[1], vec![iana(1, &[addr(0x101)])]);
    assert!(matches!(s.handle_at(&req, at(1_000_000)), Action6::NoData { .. }));
    assert_eq!(s.pool().get(&addr(0x101)), Some(&(vec![10, 11], None)));
}

#[test]
fn other_datagrams_are_told_apart() {
    let mut s = service(false);
    let nobody = Packet { msg_type: MsgType::Solicit, transaction_id: 1, options: vec![] };
    assert!(matches!(s.handle_at(&nobody, at(0)), Action6::NoClientId));
    let nothing = datagram(MsgType::Renew, &[1], vec![]);
    assert!(matches!(s.handle_at(&nothing, at(0)), Action6::NoAddress));
    let empty = datagram(MsgType::Renew, &[1], vec![iana(1, &[])]);
    assert!(matches!(s.handle_at(&empty, at(0)), Action6::NoAddress));
    let reply = datagram(MsgType::Reply, &[1], vec![]);
    assert!(matches!(s.handle_at(&reply, at(0)), Action6::Unsupported(MsgType::Reply)));
}

#[test]
fn lines_of_the_v6_leases_file() {
    let mut s = service(false);
    assert!(s.load_line(" 00-03-00-01 ,fd00::1 "));
    assert!(!s.load_line("00:03"));
    assert!(!s.load_line("xx,fd00::1"));
    assert!(!s.load_line("00,fd00::1::2"));
    assert!(!s.load_line(",fd00::1"));
    assert_eq!(s.pool().len(), 1);
    assert_eq!(s.pool().get(&addr(1)), Some(&(vec![0, 3, 0, 1], None)));
}

#[test]
fn the_clock_of_the_pool_ends_leases() {
    let mut p = V6Pool::new(addr(0x100), 1, Duration::from_secs(0));
    let before = p.now();
    assert_eq!(p.request(&[1], addr(0x100)), Ok(addr(0x100)));
    while !p.now().is_after(before.plus(Duration::from_millis(2))) {}
    assert!(p.available(&[2], &addr(0x100)));
    assert_eq!(p.discover(&[2]), Some(addr(0x100)));
    assert_eq!(p.request(&[2], addr(0x100)), Ok(addr(0x100)));
}
