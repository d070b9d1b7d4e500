//! What the server writes about requests and about itself.

use vstd::prelude::*;

use crate::calendar::{is_iso_text, utc_now_iso};
use crate::clock::wall_clock_shows;
use crate::net::{ipv4_text, Ipv4Addr};
use crate::number::{hex_pair, push_hex_pair};
use crate::packet::Packet;
use crate::service4::{announced_name, hostname_of, requested_ip, wanted_ip};
use crate::text::push_str;

verus! {

/// Hex pairs of `a`, separated by colons.
pub open spec fn hex_pairs(a: Seq<u8>) -> Seq<char>
    decreases a.len(),
{
    if a.len() == 0 {
        Seq::empty()
    } else if a.len() == 1 {
        hex_pair(a[0])
    } else {
        hex_pairs(a.drop_last()) + seq![':'] + hex_pair(a.last())
    }
}

/// Formats a machine address as hex pairs separated by colons. The address is
/// at least one byte long.
pub fn chaddr(a: &[u8]) -> (r: String)
    requires
        a@.len() > 0,
    ensures
        r@ == hex_pairs(a@),
{
    let mut r = String::new();
    push_hex_pair(&mut r, a[0]);
    let mut i: usize = 1;
    assert(a@.take(1)[0] == a@[0]);
    assert(r@ =~= hex_pairs(a@.take(1)));
    while i < a.len()
        invariant
            1 <= i <= a@.len(),
            r@ == hex_pairs(a@.take(i as int)),
        decreases a@.len() - i,
    {
        let ghost before = r@;
        r.push(':');
        push_hex_pair(&mut r, a[i]);
        assert(a@.take(i + 1).drop_last() =~= a@.take(i as int));
        assert(r@ =~= before + seq![':'] + hex_pair(a@[i as int]));
        i = i + 1;
    }
    assert(a@.take(i as int) =~= a@);
    r
}

/// "on" or "off".
pub fn onoff(b: bool) -> (r: &'static str)
    ensures
        r@ == if b {
            "on"@
        } else {
            "off"@
        },
{
    if b {
        "on"
    } else {
        "off"
    }
}

/// How a host name is shown: `-` where there is none.
pub open spec fn shown_name(hostname: Option<Seq<char>>) -> Seq<char> {
    match hostname {
        Some(name) => name,
        None => "-"@,
    }
}

/// The host name, or `-` where there is none.
pub fn display_name<'a>(hostname: Option<&'a str>) -> (r: &'a str)
    ensures
        r@ == shown_name(
            match hostname {
                Some(name) => Some(name@),
                None => None,
            },
        ),
{
    match hostname {
        Some(name) => name,
        None => "-",
    }
}

/// The line that the monitor writes about a request: time, hardware address,
/// requested address and host name, and the word `Online`, separated by tabs.
pub open spec fn monitor_text(
    timestamp: Seq<char>,
    mac: Seq<u8>,
    ip: Ipv4Addr,
    hostname: Option<Seq<char>>,
) -> Seq<char> {
    timestamp + seq!['\t'] + hex_pairs(mac) + seq!['\t'] + ipv4_text(ip) + seq!['\t'] + shown_name(
        hostname,
    ) + "\tOnline"@
}

/// The line that the monitor writes about a request that came at the given
/// time.
pub fn monitor_line(timestamp: &str, in_packet: &Packet) -> (r: String)
    ensures
        r@ == monitor_text(
            timestamp@,
            in_packet@.chaddr,
            wanted_ip(in_packet@),
            announced_name(in_packet@),
        ),
{
    let mut r = String::new();
    push_str(&mut r, timestamp);
    r.push('\t');
    let mac = chaddr(in_packet.chaddr.as_slice());
    push_str(&mut r, mac.as_str());
    r.push('\t');
    let ip = requested_ip(in_packet).to_text();
    push_str(&mut r, ip.as_str());
    r.push('\t');
    push_str(&mut r, display_name(hostname_of(in_packet)));
    push_str(&mut r, "\tOnline");
    assert(r@ =~= monitor_text(
        timestamp@,
        in_packet@.chaddr,
        wanted_ip(in_packet@),
        announced_name(in_packet@),
    ));
    r
}

/// The line that the monitor writes about a request that comes now.
pub fn monitor_line_now(in_packet: &Packet) -> (r: String)
    ensures
        exists|timestamp: Seq<char>, secs: u64|
            wall_clock_shows(secs) && #[trigger] is_iso_text(timestamp, secs as nat) && r@
                == monitor_text(
                timestamp,
                in_packet@.chaddr,
                wanted_ip(in_packet@),
                announced_name(in_packet@),
            ),
{
    let timestamp = utc_now_iso();
    monitor_line(timestamp.as_str(), in_packet)
}

} // verus!
