//! Dates, numbers, addresses and the configuration file as text.

use dhcp4r::calendar::{iso_from_secs, utc_now_iso, ymd_from_days};
use dhcp4r::clock::{epoch_secs, unix_secs, Clock, Duration, Instant};
use dhcp4r::config::{parse_duid_hex, Config, ConfigError, Draft};
use dhcp4r::monitor::{chaddr, display_name, monitor_line, monitor_line_now, onoff};
use dhcp4r::net::{IpAddr, Ipv4Addr, Ipv6Addr, SocketAddr};
use dhcp4r::number::{push_decimal, push_decimal_padded, read_unsigned};
use dhcp4r::options::{DhcpOption, MessageType};
use dhcp4r::packet::Packet;
use dhcp4r::text::{decode_text, index_of, index_of_pair, split, string_of, trimmed};

fn chars(s: &str) -> Vec<char> {
    s.chars().collect()
}

fn v4(s: &str) -> Option<Ipv4Addr> {
    Ipv4Addr::parse(&chars(s))
}

fn v6(s: &str) -> Option<Ipv6Addr> {
    Ipv6Addr::parse(&chars(s))
}

fn socket(s: &str) -> Option<SocketAddr> {
    SocketAddr::parse(&chars(s))
}

// ---------------------------------------------------------------------------
// Dates
// ---------------------------------------------------------------------------

#[test]
fn known_days_have_known_dates() {
    assert_eq!(ymd_from_days(0), (1970, 1, 1));
    assert_eq!(ymd_from_days(-1), (1969, 12, 31));
    assert_eq!(ymd_from_days(59), (1970, 3, 1));
    assert_eq!(ymd_from_days(11016), (2000, 2, 29));
    assert_eq!(ymd_from_days(11017), (2000, 3, 1));
    assert_eq!(ymd_from_days(47540), (2100, 2, 28));
    assert_eq!(ymd_from_days(47541), (2100, 3, 1));
    assert_eq!(ymd_from_days(-719468), (0, 3, 1));
    assert_eq!(ymd_from_days(-719469), (0, 2, 29));
}

#[test]
fn law_day_numbers_distinct() {
    let mut last = ymd_from_days(-800);
    for z in -799..800 {
        let next = ymd_from_days(z);
        assert!(next > last, "{:?} after {:?}", next, last);
        last = next;
    }
}

#[test]
fn law_iso_text_unique_and_known() {
    assert_eq!(iso_from_secs(0), "1970-01-01T00:00:00");
    assert_eq!(iso_from_secs(951_827_696), "2000-02-29T12:34:56");
    assert_eq!(iso_from_secs(1_735_689_599), "2024-12-31T23:59:59");
    assert_eq!(iso_from_secs(253_402_300_800), "10000-01-01T00:00:00");
    assert_eq!(iso_from_secs(86_399), iso_from_secs(86_399));
}

#[test]
fn the_wall_clock_is_past_2024() {
    assert!(unix_secs() > 1_704_067_200);
    let text = utc_now_iso();
    assert_eq!(text.len(), 19);
    assert!(text.as_str() > "2024-01-01T00:00:00", "{}", text);
    assert_eq!(epoch_secs(None), 0);
    assert_eq!(epoch_secs(Some(5)), 5);
}

#[test]
fn instants_and_durations() {
    let clock = Clock::start();
    let a = clock.now();
    while !clock.now().is_after(a) {}
    let i = Instant { nanos: 5 };
    assert_eq!(i.plus(Duration::from_millis(1500)), Instant { nanos: 1_500_000_005 });
    assert_eq!(i.minus(Duration::from_secs(1)), Instant { nanos: -999_999_995 });
    assert!(!i.is_after(i));
}

// ---------------------------------------------------------------------------
// Text and numbers
// ---------------------------------------------------------------------------

#[test]
fn text_is_decoded_trimmed_and_split() {
    assert_eq!(decode_text(&[0xc3, 0xbc, b'x']), Some("\u{fc}x".to_string()));
    assert_eq!(decode_text(&[0xc3]), None);
    assert_eq!(string_of(trimmed(&chars("\u{a0}\t a b \u{3000}"))), "a b");
    assert_eq!(split(&chars(",a,,"), ',').len(), 4);
    assert_eq!(index_of(&chars("a=b=c"), '='), Some(1));
    assert_eq!(index_of(&chars("abc"), '='), None);
    assert_eq!(index_of_pair(&chars("a# #"), ' ', '#'), Some(2));
    assert_eq!(index_of_pair(&chars("#"), ' ', '#'), None);
}

#[test]
fn numbers_are_read_and_written() {
    assert_eq!(read_unsigned(&chars("+0255"), 10, 255), Some(255));
    assert_eq!(read_unsigned(&chars("256"), 10, 255), None);
    assert_eq!(read_unsigned(&chars("+"), 10, 255), None);
    assert_eq!(read_unsigned(&chars("-1"), 10, 255), None);
    assert_eq!(read_unsigned(&chars("fF"), 16, 255), Some(255));
    assert_eq!(read_unsigned(&chars("18446744073709551615"), 10, u64::MAX), Some(u64::MAX));
    assert_eq!(read_unsigned(&chars("18446744073709551616"), 10, u64::MAX), None);
    let mut s = String::new();
    push_decimal(&mut s, u64::MAX);
    s.push(' ');
    push_decimal_padded(&mut s, 7, 4);
    assert_eq!(s, "18446744073709551615 0007");
}

// ---------------------------------------------------------------------------
// Addresses
// ---------------------------------------------------------------------------

#[test]
fn ipv4_addresses_as_text() {
    assert_eq!(v4("192.168.2.1"), Some(Ipv4Addr::new(192, 168, 2, 1)));
    assert_eq!(v4("0.0.0.0"), Some(Ipv4Addr::unspecified()));
    for bad in ["", "1.2.3", "1.2.3.4.5", "1.2.3.256", "01.2.3.4", "1.2.3.4 ", "1..2.3", "+1.2.3.4"] {
        assert_eq!(v4(bad), None, "{:?}", bad);
    }
    assert_eq!(Ipv4Addr::new(10, 0, 255, 7).to_text(), "10.0.255.7");
    assert_eq!(Ipv4Addr::new(1, 2, 3, 4).octets(), [1, 2, 3, 4]);
}

#[test]
fn ipv6_addresses_as_text() {
    assert_eq!(v6("::"), Some(Ipv6Addr::from_bits(0)));
    assert_eq!(v6("fd00::100"), Some(Ipv6Addr::new(0xfd00, 0, 0, 0, 0, 0, 0, 0x100)));
    assert_eq!(v6("1:2:3:4:5:6:7:8"), Some(Ipv6Addr::new(1, 2, 3, 4, 5, 6, 7, 8)));
    assert_eq!(v6("::ffff:1.2.3.4"), Some(Ipv6Addr::new(0, 0, 0, 0, 0, 0xffff, 0x102, 0x304)));
    assert_eq!(v6("ABCD::"), Some(Ipv6Addr::new(0xabcd, 0, 0, 0, 0, 0, 0, 0)));
    for bad in ["", ":", ":::", "1::2::3", "12345::", "1:2:3:4:5:6:7", "1:2:3:4:5:6:7:8:9", "g::"] {
        assert_eq!(v6(bad), None, "{:?}", bad);
    }
    assert_eq!(Ipv6Addr::new(0x102, 0, 0, 0, 0, 0, 0, 3).octets()[..2], [1, 2]);
}

#[test]
fn socket_addresses_as_text() {
    assert_eq!(socket("0.0.0.0:67"), Some(SocketAddr::v4(Ipv4Addr::unspecified(), 67)));
    assert_eq!(socket("[::]:547"), Some(SocketAddr::v6(Ipv6Addr::from_bits(0), 547)));
    let scoped = socket("[fe80::1%5]:546").unwrap();
    assert_eq!(scoped.ip, IpAddr::V6(Ipv6Addr::new(0xfe80, 0, 0, 0, 0, 0, 0, 1)));
    assert_eq!((scoped.port, scoped.scope_id, scoped.flowinfo), (546, 5, 0));
    for bad in ["", "0.0.0.0", "0.0.0.0:65536", "::1:80", "[::1]", "[::1]80", "1.2.3.4:"] {
        assert_eq!(socket(bad), None, "{:?}", bad);
    }
}

// ---------------------------------------------------------------------------
// The monitor
// ---------------------------------------------------------------------------

#[test]
fn monitor_lines() {
    let mut p = Packet {
        reply: false,
        hops: 0,
        xid: 1,
        secs: 0,
        broadcast: false,
        ciaddr: Ipv4Addr::new(10, 0, 0, 9),
        yiaddr: Ipv4Addr::unspecified(),
        siaddr: Ipv4Addr::unspecified(),
        giaddr: Ipv4Addr::unspecified(),
        chaddr: [0xaa, 0xbb, 0, 1, 2, 3],
        options: vec![DhcpOption::DhcpMessageType(MessageType::Request)],
    };
    assert_eq!(
        monitor_line("2024-01-02T03:04:05", &p),
        "2024-01-02T03:04:05\taa:bb:00:01:02:03\t10.0.0.9\t-\tOnline"
    );
    p.options.push(DhcpOption::RequestedIpAddress(Ipv4Addr::new(10, 0, 0, 7)));
    p.options.push(DhcpOption::HostName("tv".to_string()));
    assert!(monitor_line_now(&p).ends_with("\taa:bb:00:01:02:03\t10.0.0.7\ttv\tOnline"));
    assert_eq!((onoff(true), onoff(false)), ("on", "off"));
    assert_eq!((display_name(Some("x")), display_name(None)), ("x", "-"));
}

// ---------------------------------------------------------------------------
// The configuration file
// ---------------------------------------------------------------------------

#[test]
fn law_settings_are_valid() {
    let c = Config::defaults();
    assert!(c.clone().validate().is_ok());
    let full = Config::parse("ip_start = 255.255.255.0\nlease_num = 256\n").unwrap();
    assert_eq!(full.last_ip(), Some(Ipv4Addr::broadcast()));
    let empty = Config::parse("lease_num = 0").unwrap();
    assert_eq!(empty.last_ip(), None);
    assert_eq!(c.last_ip(), Some(Ipv4Addr::new(192, 168, 2, 253)));
}

#[test]
fn law_silent_file_means_defaults() {
    let c = Config::parse("\n  \n# server_ip = 1.1.1.1\n\t; x\n").unwrap();
    assert_eq!(c, Config::defaults());
    assert_eq!(Config::parse("").unwrap(), Config::defaults());
}

#[test]
fn law_unknown_keys_are_ignored() {
    assert_eq!(Config::parse("colour = blue").unwrap(), Config::defaults());
}

#[test]
fn law_keys_are_case_insensitive() {
    let a = Config::parse("LEASE_NUM = 7").unwrap();
    let b = Config::parse("lease_num = 7").unwrap();
    assert_eq!(a, b);
    assert_eq!(a.lease_num, 7);
    assert!(Config::parse("enable_ntp = YES").unwrap().enable_ntp);
}

#[test]
fn law_last_assignment_wins() {
    let text = "server_ip = 1.1.1.1\nlease_num = 3\nserver_ip = 2.2.2.2\nrouter_ip = 9.9.9.9";
    let c = Config::parse(text).unwrap();
    assert_eq!(c.server_ip, Ipv4Addr::new(2, 2, 2, 2));
    assert_eq!(c.lease_num, 3);
    let c = Config::parse("extra_broadcast_ips = 1.1.1.1\nbroadcast_ip = 2.2.2.2, 3.3.3.3").unwrap();
    assert_eq!(c.broadcast_ip, Ipv4Addr::new(2, 2, 2, 2));
    assert_eq!(
        c.extra_broadcast_ips,
        vec![Ipv4Addr::new(1, 1, 1, 1), Ipv4Addr::new(3, 3, 3, 3)]
    );
    let c = Config::parse("extra_broadcast_ips = 1.1.1.1\nextra_broadcast_ips = 2.2.2.2\n").unwrap();
    assert_eq!(c.extra_broadcast_ips, vec![Ipv4Addr::new(2, 2, 2, 2)]);
    let text = "broadcast_ip = 1.1.1.1, 2.2.2.2\nextra_broadcast_ips = 3.3.3.3\nbroadcast_ip = 4.4.4.4";
    let c = Config::parse(text).unwrap();
    assert_eq!(c.broadcast_ip, Ipv4Addr::new(4, 4, 4, 4));
    assert_eq!(c.extra_broadcast_ips, vec![Ipv4Addr::new(3, 3, 3, 3)]);
    let text = "broadcast_ip = 1.1.1.1, 2.2.2.2\nextra_broadcast_ips = 3.3.3.3";
    let c = Config::parse(text).unwrap();
    assert_eq!(
        c.extra_broadcast_ips,
        vec![Ipv4Addr::new(2, 2, 2, 2), Ipv4Addr::new(3, 3, 3, 3)]
    );
}

#[test]
fn law_broadcasts_are_distinct() {
    let c = Config::parse("broadcast_ip = 1.1.1.1,2.2.2.2,1.1.1.1,2.2.2.2").unwrap();
    assert_eq!(
        c.broadcasts(),
        vec![Ipv4Addr::new(1, 1, 1, 1), Ipv4Addr::new(2, 2, 2, 2)]
    );
}

#[test]
fn law_errors_name_line_and_key() {
    let cases = [
        ("\nfoo\"bar", "2: expected `key = value`, got \"foo\\\"bar\""),
        ("= 1", "1: empty key"),
        ("Server_IP =  # none", "1: invalid IPv4 address for key \"server_ip\": \"# none\""),
        ("LEASE_num =", "1: empty value for key \"lease_num\""),
        ("lease_num = -1", "1: invalid u32 for key \"lease_num\": \"-1\""),
        ("ipv6_lease_num = x", "1: invalid u64 for key \"ipv6_lease_num\": \"x\""),
        ("dns_ips = 1.1.1.1,", "1: invalid IPv4 list for key \"dns_ips\": \"1.1.1.1,\""),
        ("ipv6_dns = ::1,x", "1: invalid IPv6 list for key \"ipv6_dns\": \"::1,x\""),
        ("ipv6_start = x", "1: invalid IPv6 address for key \"ipv6_start\": \"x\""),
        ("enable_ntp = maybe", "1: invalid bool for key \"enable_ntp\": \"maybe\""),
        ("listen_addr = 1", "1: invalid socket address for key \"listen_addr\": \"1\""),
        ("server_duid = 0", "1: invalid DUID hex for key \"server_duid\": \"0\""),
        ("broadcast_ip = 1.1.1.1,x", "1: invalid IPv4 address for key \"broadcast_ip\": \"1.1.1.1,x\""),
        ("lease_num = 4294967295", "ip_start + lease_num overflows IPv4 space"),
        (
            "ipv6_start = ffff:ffff:ffff:ffff:ffff:ffff:ffff:ffff",
            "ipv6_start + ipv6_lease_num overflows IPv6 space",
        ),
    ];
    for (text, message) in cases {
        assert_eq!(Config::parse(text).unwrap_err(), message);
    }
    let long = format!("server_duid = {}", "00".repeat(129));
    assert_eq!(Config::parse(&long).unwrap_err(), "server_duid must be 1..=128 bytes");
}

#[test]
fn errors_are_kept_as_values() {
    match Config::read("x = 1\nLEASE_NUM = a b # c") {
        Err(ConfigError::InvalidValue { line, what, key, value }) => {
            assert_eq!((line, what), (2, "u32"));
            assert_eq!((key.as_str(), value.as_str()), ("lease_num", "a b"));
        }
        _ => panic!("must be an invalid value"),
    }
    let e = ConfigError::EmptyValue { line: 12, key: "k".to_string() };
    assert_eq!(e.message_with("<k>", ""), "12: empty value for key <k>");
    assert_eq!(e.message(), "12: empty value for key \"k\"");
}

#[test]
fn comments_behind_values() {
    let c = Config::parse("leases_file = a#b  # note\nleases_file_v6 = c\t# note").unwrap();
    assert_eq!((c.leases_file.as_str(), c.leases_file_v6.as_str()), ("a#b", "c"));
    let cases = [
        ("leases_file = a\tb\t# note\n", "a\tb"),
        ("leases_file = a b # c #d", "a b"),
        ("leases_file = a\t# b #c", "a"),
        ("leases_file = a#b #c", "a#b"),
        ("leases_file = a\u{a0}\u{3000}# note", "a"),
        ("leases_file = #a#b", "#a#b"),
    ];
    for (text, value) in cases {
        assert_eq!(Config::parse(text).unwrap().leases_file, value);
    }
}

#[test]
fn law_idle_lines_change_nothing() {
    let plain = Config::parse("lease_num = 7\nbroadcast_ip = 1.1.1.1, 2.2.2.2").unwrap();
    for idle in ["", "  # x = y", "; x", "no_such_key = 1"] {
        let text = format!("{idle}\nlease_num = 7\n{idle}\nbroadcast_ip = 1.1.1.1, 2.2.2.2\n{idle}");
        assert_eq!(Config::parse(&text).unwrap(), plain);
    }
}

#[test]
fn entries_one_by_one() {
    let mut d = Draft::new();
    assert!(d.apply_entry("lease_num", "9", 1).is_ok());
    assert!(d.apply_entry("no_such_key", "9", 2).is_ok());
    assert_eq!(d.apply_entry("", "9", 3).unwrap_err().message(), "3: empty key");
    assert_eq!(
        d.apply_entry("lease_num", "", 4).unwrap_err().message(),
        "4: empty value for key \"lease_num\""
    );
    assert_eq!(
        d.apply("lease_num", "x", 5).unwrap_err().message(),
        "5: invalid u32 for key \"lease_num\": \"x\""
    );
    assert!(d.apply_line(&chars(" Leases_File = z # y"), 6).is_ok());
    let c = d.finish();
    assert_eq!((c.lease_num, c.leases_file.as_str()), (9, "z"));
    assert_eq!(Draft::new().finish(), Config::parse("").unwrap());
}

#[test]
fn law_hex_pairs_read_back() {
    let a = [0u8, 9, 0x1a, 0xf0, 0xff, 0x7c];
    assert_eq!(chaddr(&a), "00:09:1a:f0:ff:7c");
    assert_eq!(parse_duid_hex(&chaddr(&a)), Ok(a.to_vec()));
    assert_eq!(parse_duid_hex(&chaddr(&[0xab])), Ok(vec![0xab]));
}

#[test]
fn duids_in_base_sixteen() {
    assert_eq!(parse_duid_hex("00:0A-ff 1\t2"), Ok(vec![0, 10, 255, 0x12]));
    assert_eq!(parse_duid_hex("0g").unwrap_err(), "invalid hex \"0g\": 'g'");
    assert_eq!(parse_duid_hex("'\n").unwrap_err(), "invalid hex \"'\\n\": '\\''");
    assert_eq!(parse_duid_hex("abc").unwrap_err(), "odd-length hex: \"abc\"");
    assert_eq!(parse_duid_hex(" - ").unwrap_err(), "odd-length hex: \" - \"");
}
