//! What the configuration file promises: which settings are accepted, and
//! which setting each line sets.

use vstd::prelude::*;
use vstd::utf8::*;

use crate::config::{
    applied, blank_draft, conflict, duid_of, ipv4s_of, ipv6s_of, is_separator, key_named,
    line_applied, lines_applied, nibble_of, nibbles_of, settings_of, truth_of, ConfigErrorView,
    ConfigView, DraftView, DuidError, Key,
};
use crate::net::{ipv4_of, ipv6_of, socket_of, Ipv4Addr};
use crate::number::{at_most, decimal, signed_numeral};
use crate::text::{lowercase, split_on, trim};

verus! {

// ---------------------------------------------------------------------------
// Which settings are accepted
// ---------------------------------------------------------------------------

/// A file whose lines can all be read is accepted, if the settings have a DUID
/// of 1 to 128 bytes and pools that end within the address space; however
/// large the pools are.
pub proof fn fitting_settings_are_accepted(text: Seq<char>, d: DraftView)
    requires
        lines_applied(split_on(text, '\n')) == Ok::<DraftView, ConfigErrorView>(d),
        1 <= d.settings.server_duid.len() <= 128,
        d.settings.ip_start.bits + d.settings.lease_num <= 0x1_0000_0000,
        d.settings.ipv6_start.bits + d.settings.ipv6_lease_num <= u128::MAX,
    ensures
        settings_of(text) == Ok::<ConfigView, ConfigErrorView>(d.finished()),
{
}

/// A file whose lines can all be read is refused for the first of these that
/// holds: the DUID has no byte or more than 128, the IPv4 pool runs past the
/// address space, the IPv6 pool does.
pub proof fn misfits_are_refused(text: Seq<char>, d: DraftView)
    requires
        lines_applied(split_on(text, '\n')) == Ok::<DraftView, ConfigErrorView>(d),
    ensures
        ({
            let c = d.settings;
            let duid = 1 <= c.server_duid.len() <= 128;
            let v4 = c.ip_start.bits + c.lease_num <= 0x1_0000_0000;
            let v6 = c.ipv6_start.bits + c.ipv6_lease_num <= u128::MAX;
            &&& settings_of(text) == Err::<ConfigView, _>(ConfigErrorView::DuidLength) <==> !duid
            &&& settings_of(text) == Err::<ConfigView, _>(ConfigErrorView::Ipv4Overflow) <==> duid
                && !v4
            &&& settings_of(text) == Err::<ConfigView, _>(ConfigErrorView::Ipv6Overflow) <==> duid
                && v4 && !v6
        }),
{
}

/// What a file is refused for with readable lines does not depend on anything
/// but the DUID and the two pools.
pub proof fn only_pools_and_duid_can_misfit(a: ConfigView, b: ConfigView)
    requires
        a.server_duid == b.server_duid,
        a.ip_start == b.ip_start,
        a.lease_num == b.lease_num,
        a.ipv6_start == b.ipv6_start,
        a.ipv6_lease_num == b.ipv6_lease_num,
    ensures
        conflict(a) == conflict(b),
{
}

proof fn lemma_first_error(lines: Seq<Seq<char>>, i: int)
    requires
        0 <= i <= lines.len(),
        lines_applied(lines.take(i)) is Err,
    ensures
        lines_applied(lines) == lines_applied(lines.take(i)),
    decreases lines.len() - i,
{
    if i < lines.len() {
        assert(lines.take(i + 1).drop_last() =~= lines.take(i));
        lemma_first_error(lines, i + 1);
    } else {
        assert(lines.take(i) =~= lines);
    }
}

/// A file is refused for the first line that cannot be read, under its number
/// counted from one, whatever stands in later lines.
pub proof fn first_bad_line_is_reported(
    text: Seq<char>,
    i: int,
    d: DraftView,
    e: ConfigErrorView,
)
    requires
        0 <= i < split_on(text, '\n').len(),
        lines_applied(split_on(text, '\n').take(i)) == Ok::<DraftView, ConfigErrorView>(d),
        line_applied(d, split_on(text, '\n')[i], (i + 1) as nat) == Err::<
            DraftView,
            ConfigErrorView,
        >(e),
    ensures
        settings_of(text) == Err::<ConfigView, ConfigErrorView>(e),
{
    let lines = split_on(text, '\n');
    let upto = lines.take(i + 1);
    assert(upto.drop_last() =~= lines.take(i));
    assert(upto.last() == lines[i]);
    lemma_first_error(lines, i + 1);
}

/// Lines that can all be read, one after the other, make up the file: each
/// line goes on from what the lines before it have said.
pub proof fn lines_are_read_one_by_one(lines: Seq<Seq<char>>, line: Seq<char>, d: DraftView)
    requires
        lines_applied(lines) == Ok::<DraftView, ConfigErrorView>(d),
    ensures
        lines_applied(lines.push(line)) == line_applied(d, line, lines.len() + 1),
        lines_applied(Seq::empty()) == Ok::<DraftView, ConfigErrorView>(blank_draft()),
{
    assert(lines.push(line).drop_last() =~= lines);
}

/// Errors about a line are worded with its number in front, and with the line,
/// the key and the value in quotes where the error is about them.
pub proof fn line_errors_are_worded(e: ConfigErrorView, first: Seq<char>, second: Seq<char>)
    ensures
        match e {
            ConfigErrorView::NotAnAssignment { line, got } => e.first() == got && e.text(
                first,
                second,
            ) == decimal(line) + ": expected `key = value`, got "@ + first,
            ConfigErrorView::EmptyKey { line } => e.text(first, second) == decimal(line)
                + ": empty key"@,
            ConfigErrorView::EmptyValue { line, key } => e.first() == key && e.text(first, second)
                == decimal(line) + ": empty value for key "@ + first,
            ConfigErrorView::InvalidValue { line, what, key, value } => e.first() == key
                && e.second() == value && e.text(first, second) == decimal(line) + ": invalid "@
                + what + " for key "@ + first + ": "@ + second,
            _ => true,
        },
{
}

// ---------------------------------------------------------------------------
// Which setting a key sets
// ---------------------------------------------------------------------------

/// The names of the keys.
proof fn lemma_key_names()
    ensures
        key_named("server_ip"@) == Key::ServerIp,
        key_named("ip_start"@) == Key::IpStart,
        key_named("lease_num"@) == Key::LeaseNum,
        key_named("subnet_mask"@) == Key::SubnetMask,
        key_named("router_ip"@) == Key::RouterIp,
        key_named("dns_ips"@) == Key::DnsIps,
        key_named("enable_ntp"@) == Key::EnableNtp,
        key_named("ntp_ips"@) == Key::NtpIps,
        key_named("enable_rapid_commit"@) == Key::EnableRapidCommit,
        key_named("broadcast_ip"@) == Key::BroadcastIp,
        key_named("extra_broadcast_ips"@) == Key::ExtraBroadcastIps,
        key_named("lease_duration_secs"@) == Key::LeaseDurationSecs,
        key_named("leases_file"@) == Key::LeasesFile,
        key_named("listen_addr"@) == Key::ListenAddr,
        key_named("enable_dhcpv6"@) == Key::EnableDhcpv6,
        key_named("server_duid"@) == Key::ServerDuid,
        key_named("ipv6_start"@) == Key::Ipv6Start,
        key_named("ipv6_lease_num"@) == Key::Ipv6LeaseNum,
        key_named("ipv6_dns"@) == Key::Ipv6Dns,
        key_named("ipv6_lease_duration_secs"@) == Key::Ipv6LeaseDurationSecs,
        key_named("leases_file_v6"@) == Key::LeasesFileV6,
        key_named("listen_addr_v6"@) == Key::ListenAddrV6,
{
    reveal_strlit("server_ip");
    assert("server_ip"@.len() == 9);
    reveal_strlit("ip_start");
    assert("ip_start"@.len() == 8);
    reveal_strlit("lease_num");
    assert("lease_num"@.len() == 9);
    reveal_strlit("subnet_mask");
    assert("subnet_mask"@.len() == 11);
    reveal_strlit("router_ip");
    assert("router_ip"@.len() == 9);
    reveal_strlit("dns_ips");
    assert("dns_ips"@.len() == 7);
    reveal_strlit("enable_ntp");
    assert("enable_ntp"@.len() == 10);
    reveal_strlit("ntp_ips");
    assert("ntp_ips"@.len() == 7);
    reveal_strlit("enable_rapid_commit");
    assert("enable_rapid_commit"@.len() == 19);
    reveal_strlit("broadcast_ip");
    assert("broadcast_ip"@.len() == 12);
    reveal_strlit("extra_broadcast_ips");
    assert("extra_broadcast_ips"@.len() == 19);
    reveal_strlit("lease_duration_secs");
    assert("lease_duration_secs"@.len() == 19);
    reveal_strlit("leases_file");
    assert("leases_file"@.len() == 11);
    reveal_strlit("listen_addr");
    assert("listen_addr"@.len() == 11);
    reveal_strlit("enable_dhcpv6");
    assert("enable_dhcpv6"@.len() == 13);
    reveal_strlit("server_duid");
    assert("server_duid"@.len() == 11);
    reveal_strlit("ipv6_start");
    assert("ipv6_start"@.len() == 10);
    reveal_strlit("ipv6_lease_num");
    assert("ipv6_lease_num"@.len() == 14);
    reveal_strlit("ipv6_dns");
    assert("ipv6_dns"@.len() == 8);
    reveal_strlit("ipv6_lease_duration_secs");
    assert("ipv6_lease_duration_secs"@.len() == 24);
    reveal_strlit("leases_file_v6");
    assert("leases_file_v6"@.len() == 14);
    reveal_strlit("listen_addr_v6");
    assert("listen_addr_v6"@.len() == 14);
    assert("server_ip"@[0] != "lease_num"@[0]);
    assert("server_ip"@[0] != "router_ip"@[0]);
    assert("ip_start"@[2] != "ipv6_dns"@[2]);
    assert("lease_num"@[0] != "router_ip"@[0]);
    assert("subnet_mask"@[0] != "leases_file"@[0]);
    assert("subnet_mask"@[0] != "listen_addr"@[0]);
    assert("subnet_mask"@[1] != "server_duid"@[1]);
    assert("dns_ips"@[0] != "ntp_ips"@[0]);
    assert("enable_ntp"@[0] != "ipv6_start"@[0]);
    assert("enable_rapid_commit"@[1] != "extra_broadcast_ips"@[1]);
    assert("enable_rapid_commit"@[0] != "lease_duration_secs"@[0]);
    assert("extra_broadcast_ips"@[0] != "lease_duration_secs"@[0]);
    assert("leases_file"@[1] != "listen_addr"@[1]);
    assert("leases_file"@[0] != "server_duid"@[0]);
    assert("listen_addr"@[0] != "server_duid"@[0]);
    assert("ipv6_lease_num"@[0] != "leases_file_v6"@[0]);
    assert("ipv6_lease_num"@[0] != "listen_addr_v6"@[0]);
    assert("leases_file_v6"@[1] != "listen_addr_v6"@[1]);
}

/// Keys that take an IPv4 address set the setting with their name to it, and
/// nothing else. A value of another form is an error that names the line and the
/// key.
pub proof fn addresses_set_what_they_name(d: DraftView, v: Seq<char>, line: nat)
    ensures
        applied(d, "server_ip"@, v, line) == match ipv4_of(v) {
            Some(a) => Ok::<DraftView, ConfigErrorView>(
                DraftView { settings: ConfigView { server_ip: a, ..d.settings }, ..d },
            ),
            None => Err::<DraftView, ConfigErrorView>(
                ConfigErrorView::InvalidValue {
                    line,
                    what: "IPv4 address"@,
                    key: "server_ip"@,
                    value: v,
                },
            ),
        },
        applied(d, "ip_start"@, v, line) == match ipv4_of(v) {
            Some(a) => Ok::<DraftView, ConfigErrorView>(
                DraftView { settings: ConfigView { ip_start: a, ..d.settings }, ..d },
            ),
            None => Err::<DraftView, ConfigErrorView>(
                ConfigErrorView::InvalidValue {
                    line,
                    what: "IPv4 address"@,
                    key: "ip_start"@,
                    value: v,
                },
            ),
        },
        applied(d, "subnet_mask"@, v, line) == match ipv4_of(v) {
            Some(a) => Ok::<DraftView, ConfigErrorView>(
                DraftView { settings: ConfigView { subnet_mask: a, ..d.settings }, ..d },
            ),
            None => Err::<DraftView, ConfigErrorView>(
                ConfigErrorView::InvalidValue {
                    line,
                    what: "IPv4 address"@,
                    key: "subnet_mask"@,
                    value: v,
                },
            ),
        },
        applied(d, "router_ip"@, v, line) == match ipv4_of(v) {
            Some(a) => Ok::<DraftView, ConfigErrorView>(
                DraftView { settings: ConfigView { router_ip: a, ..d.settings }, ..d },
            ),
            None => Err::<DraftView, ConfigErrorView>(
                ConfigErrorView::InvalidValue {
                    line,
                    what: "IPv4 address"@,
                    key: "router_ip"@,
                    value: v,
                },
            ),
        },
{
    lemma_key_names();
}

/// Keys that take a number set the setting with their name to it, and nothing
/// else. A value of another form is an error that names the line and the
/// key.
pub proof fn numbers_set_what_they_name(d: DraftView, v: Seq<char>, line: nat)
    ensures
        applied(d, "lease_num"@, v, line) == match at_most(
            signed_numeral(v, 10),
            0xffff_ffff,
        ) {
            Some(n) => Ok::<DraftView, ConfigErrorView>(
                DraftView { settings: ConfigView { lease_num: n as u32, ..d.settings }, ..d },
            ),
            None => Err::<DraftView, ConfigErrorView>(
                ConfigErrorView::InvalidValue {
                    line,
                    what: "u32"@,
                    key: "lease_num"@,
                    value: v,
                },
            ),
        },
        applied(d, "lease_duration_secs"@, v, line) == match at_most(
            signed_numeral(v, 10),
            0xffff_ffff,
        ) {
            Some(n) => Ok::<DraftView, ConfigErrorView>(
                DraftView {
                    settings: ConfigView { lease_duration_secs: n as u32, ..d.settings },
                    ..d
                },
            ),
            None => Err::<DraftView, ConfigErrorView>(
                ConfigErrorView::InvalidValue {
                    line,
                    what: "u32"@,
                    key: "lease_duration_secs"@,
                    value: v,
                },
            ),
        },
        applied(d, "ipv6_lease_num"@, v, line) == match at_most(
            signed_numeral(v, 10),
            0xffff_ffff_ffff_ffff,
        ) {
            Some(n) => Ok::<DraftView, ConfigErrorView>(
                DraftView { settings: ConfigView { ipv6_lease_num: n as u64, ..d.settings }, ..d },
            ),
            None => Err::<DraftView, ConfigErrorView>(
                ConfigErrorView::InvalidValue {
                    line,
                    what: "u64"@,
                    key: "ipv6_lease_num"@,
                    value: v,
                },
            ),
        },
        applied(d, "ipv6_lease_duration_secs"@, v, line) == match at_most(
            signed_numeral(v, 10),
            0xffff_ffff,
        ) {
            Some(n) => Ok::<DraftView, ConfigErrorView>(
                DraftView {
                    settings: ConfigView { ipv6_lease_duration_secs: n as u32, ..d.settings },
                    ..d
                },
            ),
            None => Err::<DraftView, ConfigErrorView>(
                ConfigErrorView::InvalidValue {
                    line,
                    what: "u32"@,
                    key: "ipv6_lease_duration_secs"@,
                    value: v,
                },
            ),
        },
{
    lemma_key_names();
}

/// Keys that take a truth value set the setting with their name to it, and
/// nothing else. A value of another form is an error that names the line and the
/// key.
pub proof fn flags_set_what_they_name(d: DraftView, v: Seq<char>, line: nat)
    ensures
        applied(d, "enable_ntp"@, v, line) == match truth_of(lowercase(v)) {
            Some(b) => Ok::<DraftView, ConfigErrorView>(
                DraftView { settings: ConfigView { enable_ntp: b, ..d.settings }, ..d },
            ),
            None => Err::<DraftView, ConfigErrorView>(
                ConfigErrorView::InvalidValue {
                    line,
                    what: "bool"@,
                    key: "enable_ntp"@,
                    value: v,
                },
            ),
        },
        applied(d, "enable_rapid_commit"@, v, line) == match truth_of(lowercase(v)) {
            Some(b) => Ok::<DraftView, ConfigErrorView>(
                DraftView { settings: ConfigView { enable_rapid_commit: b, ..d.settings }, ..d },
            ),
            None => Err::<DraftView, ConfigErrorView>(
                ConfigErrorView::InvalidValue {
                    line,
                    what: "bool"@,
                    key: "enable_rapid_commit"@,
                    value: v,
                },
            ),
        },
        applied(d, "enable_dhcpv6"@, v, line) == match truth_of(lowercase(v)) {
            Some(b) => Ok::<DraftView, ConfigErrorView>(
                DraftView { settings: ConfigView { enable_dhcpv6: b, ..d.settings }, ..d },
            ),
            None => Err::<DraftView, ConfigErrorView>(
                ConfigErrorView::InvalidValue {
                    line,
                    what: "bool"@,
                    key: "enable_dhcpv6"@,
                    value: v,
                },
            ),
        },
{
    lemma_key_names();
}

/// Keys that take a list of addresses set the setting with their name to all of
/// it, and nothing else. A value of another form is an error that names the line and the
/// key.
pub proof fn lists_set_what_they_name(d: DraftView, v: Seq<char>, line: nat)
    ensures
        applied(d, "dns_ips"@, v, line) == match ipv4s_of(split_on(v, ',')) {
            Some(list) => Ok::<DraftView, ConfigErrorView>(
                DraftView { settings: ConfigView { dns_ips: list, ..d.settings }, ..d },
            ),
            None => Err::<DraftView, ConfigErrorView>(
                ConfigErrorView::InvalidValue {
                    line,
                    what: "IPv4 list"@,
                    key: "dns_ips"@,
                    value: v,
                },
            ),
        },
        applied(d, "ntp_ips"@, v, line) == match ipv4s_of(split_on(v, ',')) {
            Some(list) => Ok::<DraftView, ConfigErrorView>(
                DraftView { settings: ConfigView { ntp_ips: list, ..d.settings }, ..d },
            ),
            None => Err::<DraftView, ConfigErrorView>(
                ConfigErrorView::InvalidValue {
                    line,
                    what: "IPv4 list"@,
                    key: "ntp_ips"@,
                    value: v,
                },
            ),
        },
        applied(d, "ipv6_dns"@, v, line) == match ipv6s_of(split_on(v, ',')) {
            Some(list) => Ok::<DraftView, ConfigErrorView>(
                DraftView { settings: ConfigView { ipv6_dns: list, ..d.settings }, ..d },
            ),
            None => Err::<DraftView, ConfigErrorView>(
                ConfigErrorView::InvalidValue {
                    line,
                    what: "IPv6 list"@,
                    key: "ipv6_dns"@,
                    value: v,
                },
            ),
        },
{
    lemma_key_names();
}

/// Keys that take an IPv6 address or a socket address set the setting with their
/// name to it, and nothing else. A value of another form is an error that names the line and the
/// key.
pub proof fn ipv6_and_socket_addresses_set_what_they_name(d: DraftView, v: Seq<char>, line: nat)
    ensures
        applied(d, "listen_addr"@, v, line) == match socket_of(v) {
            Some(a) => Ok::<DraftView, ConfigErrorView>(
                DraftView { settings: ConfigView { listen_addr: a, ..d.settings }, ..d },
            ),
            None => Err::<DraftView, ConfigErrorView>(
                ConfigErrorView::InvalidValue {
                    line,
                    what: "socket address"@,
                    key: "listen_addr"@,
                    value: v,
                },
            ),
        },
        applied(d, "ipv6_start"@, v, line) == match ipv6_of(v) {
            Some(a) => Ok::<DraftView, ConfigErrorView>(
                DraftView { settings: ConfigView { ipv6_start: a, ..d.settings }, ..d },
            ),
            None => Err::<DraftView, ConfigErrorView>(
                ConfigErrorView::InvalidValue {
                    line,
                    what: "IPv6 address"@,
                    key: "ipv6_start"@,
                    value: v,
                },
            ),
        },
        applied(d, "listen_addr_v6"@, v, line) == match socket_of(v) {
            Some(a) => Ok::<DraftView, ConfigErrorView>(
                DraftView { settings: ConfigView { listen_addr_v6: a, ..d.settings }, ..d },
            ),
            None => Err::<DraftView, ConfigErrorView>(
                ConfigErrorView::InvalidValue {
                    line,
                    what: "socket address"@,
                    key: "listen_addr_v6"@,
                    value: v,
                },
            ),
        },
{
    lemma_key_names();
}

/// Keys that take a text set the setting with their name to it as it is, and
/// nothing else.
pub proof fn texts_set_what_they_name(d: DraftView, v: Seq<char>, line: nat)
    ensures
        applied(d, "leases_file"@, v, line) == Ok::<DraftView, ConfigErrorView>(
                DraftView { settings: ConfigView { leases_file: v, ..d.settings }, ..d },
            ),
        applied(d, "leases_file_v6"@, v, line) == Ok::<DraftView, ConfigErrorView>(
                DraftView { settings: ConfigView { leases_file_v6: v, ..d.settings }, ..d },
            ),
{
    lemma_key_names();
}

/// The DUID of the server is set to the bytes that the value spells.
pub proof fn duid_sets_what_it_names(d: DraftView, v: Seq<char>, line: nat)
    ensures
        applied(d, "server_duid"@, v, line) == match duid_of(encode_utf8(v)) {
            Ok(duid) => Ok::<DraftView, ConfigErrorView>(
                DraftView { settings: ConfigView { server_duid: duid, ..d.settings }, ..d },
            ),
            Err(_) => Err::<DraftView, ConfigErrorView>(
                ConfigErrorView::InvalidValue {
                    line,
                    what: "DUID hex"@,
                    key: "server_duid"@,
                    value: v,
                },
            ),
        },
{
    lemma_key_names();
}

/// The first address of a broadcast line is the primary destination, the others
/// are further ones; a line of further destinations gives all of its addresses.
/// Each line replaces what an earlier line of its kind gave, keeps what the
/// other kind gave, and the two kinds stand in the order of their lines.
pub proof fn broadcast_lines_add_up(
    d: DraftView,
    listed: Seq<char>,
    extra: Seq<char>,
    line: nat,
    next: nat,
    a: Seq<Ipv4Addr>,
    b: Seq<Ipv4Addr>,
)
    requires
        ipv4s_of(split_on(listed, ',')) == Some(a),
        ipv4s_of(split_on(extra, ',')) == Some(b),
        a.len() > 0,
    ensures
        match applied(d, "broadcast_ip"@, listed, line) {
            Ok(one) => {
                &&& one.finished().broadcast_ip == a[0]
                &&& match applied(one, "extra_broadcast_ips"@, extra, next) {
                    Ok(two) => {
                        &&& two.finished().broadcast_ip == a[0]
                        &&& two.finished().extra_broadcast_ips == a.skip(1) + b
                    },
                    Err(_) => false,
                }
            },
            Err(_) => false,
        },
        match applied(d, "extra_broadcast_ips"@, extra, line) {
            Ok(one) => {
                &&& one.finished().broadcast_ip == d.finished().broadcast_ip
                &&& match applied(one, "broadcast_ip"@, listed, next) {
                    Ok(two) => {
                        &&& two.finished().broadcast_ip == a[0]
                        &&& two.finished().extra_broadcast_ips == b + a.skip(1)
                    },
                    Err(_) => false,
                }
            },
            Err(_) => false,
        },
{
    lemma_key_names();
    assert(a.drop_first() =~= a.skip(1));
}

// ---------------------------------------------------------------------------
// Which values there are
// ---------------------------------------------------------------------------

/// A list of IPv4 addresses is read piece by piece: it has as many addresses as
/// there are pieces between commas, in their order, and it is no list if one of
/// the pieces is no address.
pub proof fn ipv4_lists_are_read_piece_by_piece(pieces: Seq<Seq<char>>)
    ensures
        ipv4s_of(pieces) is Some <==> forall|i: int|
            0 <= i < pieces.len() ==> ipv4_of(trim(#[trigger] pieces[i])) is Some,
        ipv4s_of(pieces) matches Some(list) ==> list.len() == pieces.len() && forall|i: int|
            0 <= i < pieces.len() ==> ipv4_of(trim(#[trigger] pieces[i])) == Some(list[i]),
    decreases pieces.len(),
{
    if pieces.len() > 0 {
        let front = pieces.drop_last();
        ipv4_lists_are_read_piece_by_piece(front);
        assert(forall|i: int| 0 <= i < front.len() ==> #[trigger] front[i] == pieces[i]);
        assert(pieces.last() == pieces[pieces.len() - 1]);
        if ipv4s_of(pieces) is Some {
            let list = ipv4s_of(pieces)->0;
            assert forall|i: int| 0 <= i < pieces.len() implies ipv4_of(
                trim(#[trigger] pieces[i]),
            ) == Some(list[i]) by {
                if i < front.len() {
                    assert(front[i] == pieces[i]);
                }
            }
        } else if ipv4s_of(front) is None {
            let i = choose|i: int|
                0 <= i < front.len() && ipv4_of(trim(#[trigger] front[i])) is None;
            assert(pieces[i] == front[i]);
        }
    }
}

/// A list of IPv6 addresses is read piece by piece, too.
pub proof fn ipv6_lists_are_read_piece_by_piece(pieces: Seq<Seq<char>>)
    ensures
        ipv6s_of(pieces) is Some <==> forall|i: int|
            0 <= i < pieces.len() ==> ipv6_of(trim(#[trigger] pieces[i])) is Some,
        ipv6s_of(pieces) matches Some(list) ==> list.len() == pieces.len() && forall|i: int|
            0 <= i < pieces.len() ==> ipv6_of(trim(#[trigger] pieces[i])) == Some(list[i]),
    decreases pieces.len(),
{
    if pieces.len() > 0 {
        let front = pieces.drop_last();
        ipv6_lists_are_read_piece_by_piece(front);
        assert(forall|i: int| 0 <= i < front.len() ==> #[trigger] front[i] == pieces[i]);
        assert(pieces.last() == pieces[pieces.len() - 1]);
        if ipv6s_of(pieces) is Some {
            let list = ipv6s_of(pieces)->0;
            assert forall|i: int| 0 <= i < pieces.len() implies ipv6_of(
                trim(#[trigger] pieces[i]),
            ) == Some(list[i]) by {
                if i < front.len() {
                    assert(front[i] == pieces[i]);
                }
            }
        } else if ipv6s_of(front) is None {
            let i = choose|i: int|
                0 <= i < front.len() && ipv6_of(trim(#[trigger] front[i])) is None;
            assert(pieces[i] == front[i]);
        }
    }
}

/// The words for the two truth values; there are no others.
pub proof fn truth_words(word: Seq<char>)
    ensures
        truth_of(word) == Some(true) <==> word == "true"@ || word == "yes"@ || word == "on"@ || word
            == "1"@,
        truth_of(word) == Some(false) <==> word == "false"@ || word == "no"@ || word == "off"@
            || word == "0"@,
{
    reveal_strlit("true");
    assert("true"@.len() == 4);
    reveal_strlit("yes");
    assert("yes"@.len() == 3);
    reveal_strlit("on");
    assert("on"@.len() == 2);
    reveal_strlit("1");
    assert("1"@.len() == 1);
    reveal_strlit("false");
    assert("false"@.len() == 5);
    reveal_strlit("no");
    assert("no"@.len() == 2);
    reveal_strlit("off");
    assert("off"@.len() == 3);
    reveal_strlit("0");
    assert("0"@.len() == 1);
    assert("yes"@[0] != "off"@[0]);
    assert("on"@[0] != "no"@[0]);
    assert("1"@[0] != "0"@[0]);
}

// ---------------------------------------------------------------------------
// DUIDs
// ---------------------------------------------------------------------------

/// The bytes of `s` that are no separators.
pub open spec fn without_separators(s: Seq<u8>) -> Seq<u8> {
    s.filter(|b: u8| !is_separator(b))
}

/// Colons, hyphens, spaces and tabs between the digits do not matter.
pub proof fn duid_separators_do_not_matter(s: Seq<u8>)
    ensures
        nibbles_of(without_separators(s)) == nibbles_of(s),
        duid_of(without_separators(s)) == duid_of(s),
    decreases s.len(),
{
    reveal(Seq::filter);
    if s.len() > 0 {
        let front = without_separators(s.drop_last());
        duid_separators_do_not_matter(s.drop_last());
        if !is_separator(s.last()) {
            assert(without_separators(s) == front.push(s.last()));
            assert(front.push(s.last()).drop_last() =~= front);
        } else {
            assert(without_separators(s) == front);
        }
    }
}

/// The hex digits count from 0 to 15, in lower and in upper case, and nothing
/// else is a hex digit.
pub proof fn duid_digits(b: u8)
    ensures
        nibble_of(b) is Some <==> (48 <= b <= 57 || 97 <= b <= 102 || 65 <= b <= 70),
        48 <= b <= 57 ==> nibble_of(b) == Some((b - 48) as u8),
        97 <= b <= 102 ==> nibble_of(b) == Some((b - 87) as u8) && nibble_of((b - 32) as u8)
            == nibble_of(b),
        is_separator(b) <==> b == ':' as u8 || b == '-' as u8 || b == ' ' as u8 || b == '\t' as u8,
{
}

/// A byte that is neither a digit nor a separator is an error, and so are an
/// odd number of digits and none; everything else is a DUID with half as many
/// bytes as digits.
pub proof fn duid_errors(s: Seq<u8>)
    ensures
        duid_of(s) matches Err(DuidError::InvalidHex(_)) <==> exists|i: int|
            0 <= i < s.len() && !is_separator(s[i]) && nibble_of(#[trigger] s[i]) is None,
        duid_of(s) matches Ok(d) ==> d.len() > 0 && 2 * d.len() == without_separators(s).len(),
        duid_of(s) == Err::<Seq<u8>, DuidError>(DuidError::OddLength) ==> without_separators(
            s,
        ).len() % 2 == 1 || without_separators(s).len() == 0,
{
    lemma_nibbles(s);
}

proof fn lemma_nibbles(s: Seq<u8>)
    ensures
        nibbles_of(s) is Err <==> exists|i: int|
            0 <= i < s.len() && !is_separator(s[i]) && nibble_of(#[trigger] s[i]) is None,
        nibbles_of(s) matches Ok(n) ==> n.len() == without_separators(s).len(),
    decreases s.len(),
{
    reveal(Seq::filter);
    if s.len() > 0 {
        let front = s.drop_last();
        lemma_nibbles(front);
        if nibbles_of(front) is Err {
            let i = choose|i: int|
                0 <= i < front.len() && !is_separator(front[i]) && nibble_of(
                    #[trigger] front[i],
                ) is None;
            assert(s[i] == front[i]);
        } else {
            assert(forall|i: int| 0 <= i < front.len() ==> #[trigger] s[i] == front[i]);
            assert(s.last() == s[s.len() - 1]);
        }
    }
}

} // verus!
