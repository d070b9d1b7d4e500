//! What the wire formats promise: which byte stands where, and which option a
//! search finds.

use vstd::prelude::*;
use vstd::utf8::*;

use crate::dhcpv6::{
    client_duid, first_with_code6, frame_at, iaaddrs_of, iana_of, leading_iana, msg_type_of,
    packet6_bytes, packet6_of, payload6_option, payloads_fit, DecodeError, IaAddr, IaNaView,
    MsgType, Option6View, Packet6View,
};
use crate::net::{octets_bits, Ipv4Addr};
use crate::options::{
    addrs_octets, lemma_addrs_octets_len, message_type_of, MessageType, OptionView,
};
use crate::packet::{
    all_fit, announced_type, decodable, first_with_code, option_bytes, option_round_trip,
    options_at, options_bytes, packet_bytes, packet_of, padding, payload_option, reads_back,
    CustomErr, ErrorKind, PacketView,
};
use crate::wire::{
    be_bytes, be_value, lemma_be_bytes_len, lemma_be_value_bound, lemma_byte_ranges,
    lemma_value_of_bytes,
};

verus! {

// ---------------------------------------------------------------------------
// DHCPv4 packets
// ---------------------------------------------------------------------------

/// The wire values of the DHCPv4 message types.
pub proof fn message_type_numbers()
    ensures
        message_type_of(1) == Some(MessageType::Discover),
        message_type_of(2) == Some(MessageType::Offer),
        message_type_of(3) == Some(MessageType::Request),
        message_type_of(4) == Some(MessageType::Decline),
        message_type_of(5) == Some(MessageType::Ack),
        message_type_of(6) == Some(MessageType::Nak),
        message_type_of(7) == Some(MessageType::Release),
        message_type_of(8) == Some(MessageType::Inform),
        forall|v: u8| v == 0 || v > 8 ==> #[trigger] message_type_of(v) is None,
{
}

/// The fields of a packet stand at fixed places on the wire, numbers with the
/// most significant byte first, and the last byte is END.
pub proof fn packet_layout(p: PacketView)
    requires
        p.chaddr.len() == 6,
    ensures
        ({
            let w = packet_bytes(p);
            &&& w.len() >= 241
            &&& w[0] == if p.reply {
                2u8
            } else {
                1u8
            }
            &&& w[1] == 1
            &&& w[2] == 6
            &&& w[3] == p.hops
            &&& be_value(w.subrange(4, 8)) == p.xid
            &&& be_value(w.subrange(8, 10)) == p.secs
            &&& w[10] == if p.broadcast {
                128u8
            } else {
                0u8
            }
            &&& w[11] == 0
            &&& be_value(w.subrange(12, 16)) == p.ciaddr.bits
            &&& be_value(w.subrange(16, 20)) == p.yiaddr.bits
            &&& be_value(w.subrange(20, 24)) == p.siaddr.bits
            &&& be_value(w.subrange(24, 28)) == p.giaddr.bits
            &&& w.subrange(28, 34) == p.chaddr
            &&& forall|i: int| 34 <= i < 236 ==> #[trigger] w[i] == 0
            &&& w[236] == 99 && w[237] == 130 && w[238] == 83 && w[239] == 99
            &&& w.last() == 255
        }),
{
    broadcast use lemma_be_bytes_len;

    let w = packet_bytes(p);
    lemma_byte_ranges();
    lemma_value_of_bytes(p.xid as nat, 4);
    lemma_value_of_bytes(p.secs as nat, 2);
    lemma_value_of_bytes(p.ciaddr.bits as nat, 4);
    lemma_value_of_bytes(p.yiaddr.bits as nat, 4);
    lemma_value_of_bytes(p.siaddr.bits as nat, 4);
    lemma_value_of_bytes(p.giaddr.bits as nat, 4);
    assert(w.subrange(4, 8) =~= be_bytes(p.xid as nat, 4));
    assert(w.subrange(8, 10) =~= be_bytes(p.secs as nat, 2));
    assert(w.subrange(12, 16) =~= p.ciaddr.spec_octets());
    assert(w.subrange(16, 20) =~= p.yiaddr.spec_octets());
    assert(w.subrange(20, 24) =~= p.siaddr.spec_octets());
    assert(w.subrange(24, 28) =~= p.giaddr.spec_octets());
    assert(w.subrange(28, 34) =~= p.chaddr);
}

proof fn lemma_options_pushed(opts: Seq<OptionView>, o: OptionView, used: nat)
    requires
        all_fit(opts.push(o), used),
    ensures
        all_fit(opts, used),
        options_bytes(opts.push(o), used) == options_bytes(opts, used) + seq![
            o.code(),
            o.payload().len() as u8,
        ] + o.payload(),
    decreases opts.len(),
{
    let all = opts.push(o);
    reveal_with_fuel(options_bytes, 2);
    reveal_with_fuel(all_fit, 2);
    if opts.len() == 0 {
        assert(all.drop_first() =~= Seq::empty());
        assert(options_bytes(all, used) =~= options_bytes(opts, used) + seq![
            o.code(),
            o.payload().len() as u8,
        ] + o.payload());
    } else {
        let end = used + 2 + opts.first().payload().len();
        assert(all.first() == opts.first());
        assert(all.drop_first() =~= opts.drop_first().push(o));
        lemma_options_pushed(opts.drop_first(), o, end);
        assert(options_bytes(all, used) =~= options_bytes(opts, used) + seq![
            o.code(),
            o.payload().len() as u8,
        ] + o.payload());
    }
}

/// A further option that fits stands behind the others: its code, its length
/// and its payload, and then END.
pub proof fn options_stand_one_after_the_other(p: PacketView, o: OptionView)
    requires
        all_fit(p.options.push(o), 240),
    ensures
        packet_bytes((PacketView { options: p.options.push(o), ..p })) == packet_bytes(
            p,
        ).drop_last() + seq![o.code(), o.payload().len() as u8] + o.payload() + seq![255u8],
{
    let q = PacketView { options: p.options.push(o), ..p };
    lemma_options_pushed(p.options, o, 240);
    assert(packet_bytes(q) =~= packet_bytes(p).drop_last() + seq![
        o.code(),
        o.payload().len() as u8,
    ] + o.payload() + seq![255u8]);
}

/// A packet without options ends right behind the cookie.
pub proof fn bare_packet(p: PacketView)
    requires
        p.chaddr.len() == 6,
        p.options.len() == 0,
    ensures
        packet_bytes(p).len() == 241,
{
    broadcast use lemma_be_bytes_len;

}

/// What the typed options carry: the type as its number, numbers and addresses
/// with the most significant byte first, lists of addresses one after the
/// other, text in UTF-8, and anything else as it is.
pub proof fn option_payloads(o: OptionView, i: int)
    ensures
        match o {
            OptionView::DhcpMessageType(t) => o.code() == 53 && o.payload().len() == 1
                && message_type_of(o.payload()[0]) == Some(t),
            OptionView::ServerIdentifier(a) => o.code() == 54 && o.payload().len() == 4
                && be_value(o.payload()) == a.bits,
            OptionView::ParameterRequestList(d) => o.code() == 55 && o.payload() == d,
            OptionView::RequestedIpAddress(a) => o.code() == 50 && o.payload().len() == 4
                && be_value(o.payload()) == a.bits,
            OptionView::HostName(s) => o.code() == 12 && o.payload() == encode_utf8(s),
            OptionView::Router(a) => o.code() == 3 && o.payload().len() == 4 * a.len() && (0 <= i
                < a.len() ==> be_value(o.payload().subrange(4 * i, 4 * i + 4)) == a[i].bits),
            OptionView::DomainNameServer(a) => o.code() == 6 && o.payload().len() == 4 * a.len()
                && (0 <= i < a.len() ==> be_value(o.payload().subrange(4 * i, 4 * i + 4))
                == a[i].bits),
            OptionView::IpAddressLeaseTime(t) => o.code() == 51 && o.payload().len() == 4
                && be_value(o.payload()) == t,
            OptionView::SubnetMask(a) => o.code() == 1 && o.payload().len() == 4 && be_value(
                o.payload(),
            ) == a.bits,
            OptionView::Message(s) => o.code() == 56 && o.payload() == encode_utf8(s),
            OptionView::Unrecognized(code, d) => o.code() == code && o.payload() == d,
        },
{
    broadcast use lemma_be_bytes_len;

    lemma_byte_ranges();
    match o {
        OptionView::ServerIdentifier(a) => lemma_value_of_bytes(a.bits as nat, 4),
        OptionView::RequestedIpAddress(a) => lemma_value_of_bytes(a.bits as nat, 4),
        OptionView::SubnetMask(a) => lemma_value_of_bytes(a.bits as nat, 4),
        OptionView::IpAddressLeaseTime(t) => lemma_value_of_bytes(t as nat, 4),
        OptionView::Router(a) => addresses_stand_one_after_the_other(a, i),
        OptionView::DomainNameServer(a) => addresses_stand_one_after_the_other(a, i),
        _ => {},
    }
}

/// The octets of a list of addresses: four for each, in the order of the list,
/// the most significant first.
pub proof fn addresses_stand_one_after_the_other(a: Seq<Ipv4Addr>, i: int)
    ensures
        addrs_octets(a).len() == 4 * a.len(),
        0 <= i < a.len() ==> be_value(addrs_octets(a).subrange(4 * i, 4 * i + 4)) == a[i].bits,
    decreases a.len(),
{
    lemma_addrs_octets_len(a);
    if 0 <= i < a.len() {
        let front = a.drop_last();
        let s = addrs_octets(a);
        lemma_addrs_octets_len(front);
        lemma_be_bytes_len(a.last().bits as nat, 4);
        if i < front.len() {
            addresses_stand_one_after_the_other(front, i);
            assert(s.subrange(4 * i, 4 * i + 4) =~= addrs_octets(front).subrange(4 * i, 4 * i + 4));
            assert(front[i] == a[i]);
        } else {
            lemma_byte_ranges();
            lemma_value_of_bytes(a.last().bits as nat, 4);
            assert(s.subrange(4 * i, 4 * i + 4) =~= a.last().spec_octets());
        }
    }
}

/// A datagram is a packet exactly when it has 240 bytes at least, six-byte
/// hardware addresses and the cookie; too short a one and one with other
/// hardware addresses are told apart from one with another cookie.
pub proof fn which_datagrams_are_packets(s: Seq<u8>)
    ensures
        packet_of(s) is Ok <==> s.len() >= 240 && s[2] == 6 && s[236] == 99 && s[237] == 130
            && s[238] == 83 && s[239] == 99,
        packet_of(s) == Err::<PacketView, CustomErr<Seq<u8>>>(CustomErr::InvalidHlen) <==> s.len()
            < 236 || s[2] != 6,
        packet_of(s) is Err && s.len() >= 236 && s[2] == 6 ==> packet_of(s) == Err::<
            PacketView,
            CustomErr<Seq<u8>>,
        >(CustomErr::NomError((s.skip(236), ErrorKind::Tag))),
{
    if s.len() >= 240 {
        let c = s.subrange(236, 240);
        assert(c[0] == s[236] && c[1] == s[237] && c[2] == s[238] && c[3] == s[239]);
        if s[236] == 99 && s[237] == 130 && s[238] == 83 && s[239] == 99 {
            assert(c =~= seq![99u8, 130, 83, 99]);
        }
    }
}

/// The fields of a packet that was read stand at fixed places in the datagram.
pub proof fn packet_fields(s: Seq<u8>, p: PacketView)
    requires
        packet_of(s) == Ok::<PacketView, CustomErr<Seq<u8>>>(p),
    ensures
        p.reply <==> s[0] == 2,
        p.hops == s[3],
        p.xid == s[4] * 0x100_0000 + s[5] * 0x1_0000 + s[6] * 0x100 + s[7],
        p.secs == s[8] * 0x100 + s[9],
        p.broadcast <==> s[11] >= 0x80,
        p.ciaddr.bits == octets_bits(s[12], s[13], s[14], s[15]),
        p.yiaddr.bits == octets_bits(s[16], s[17], s[18], s[19]),
        p.siaddr.bits == octets_bits(s[20], s[21], s[22], s[23]),
        p.giaddr.bits == octets_bits(s[24], s[25], s[26], s[27]),
        p.chaddr == s.subrange(28, 34),
{
    reveal_with_fuel(be_value, 5);
}

/// A search for a code finds the first option with it, and nothing exactly when
/// there is none.
pub proof fn search_finds_the_first(opts: Seq<OptionView>, code: u8, i: int)
    ensures
        first_with_code(opts, code) is None <==> forall|j: int|
            0 <= j < opts.len() ==> (#[trigger] opts[j]).code() != code,
        0 <= i < opts.len() && opts[i].code() == code && (forall|j: int|
            0 <= j < i ==> (#[trigger] opts[j]).code() != code) ==> first_with_code(opts, code)
            == Some(opts[i]),
    decreases opts.len(),
{
    if opts.len() > 0 {
        let t = opts.drop_first();
        search_finds_the_first(t, code, i - 1);
        assert(forall|j: int| 0 <= j < t.len() ==> #[trigger] t[j] == opts[j + 1]);
        if first_with_code(opts, code) is None {
            assert forall|j: int| 0 <= j < opts.len() implies (#[trigger] opts[j]).code()
                != code by {
                if j > 0 {
                    assert(t[j - 1].code() != code);
                }
            }
        }
        if i > 0 && i < opts.len() {
            assert(t[i - 1] == opts[i]);
        }
    }
}

/// The type of a packet is that of its first message type option; a packet
/// without one has no type.
pub proof fn type_is_the_first(opts: Seq<OptionView>, t: MessageType)
    ensures
        first_with_code(opts, 53) == Some(OptionView::DhcpMessageType(t)) ==> announced_type(opts)
            == Ok::<MessageType, Seq<char>>(t),
        announced_type(opts) == Ok::<MessageType, Seq<char>>(t) ==> first_with_code(opts, 53)
            == Some(OptionView::DhcpMessageType(t)),
        first_with_code(opts, 53) is None ==> announced_type(opts) is Err,
    decreases opts.len(),
{
    if opts.len() > 0 {
        type_is_the_first(opts.drop_first(), t);
    }
}

/// The options one after the other, each as its code, its length and its
/// payload.
pub open spec fn in_a_row(opts: Seq<OptionView>) -> Seq<u8>
    decreases opts.len(),
{
    if opts.len() == 0 {
        Seq::empty()
    } else {
        seq![opts[0].code(), opts[0].payload().len() as u8] + opts[0].payload() + in_a_row(
            opts.skip(1),
        )
    }
}

/// Any number of options is read, as far as END: each as it was written, in
/// their order. What stands behind END is of no account.
pub proof fn all_options_are_read(opts: Seq<OptionView>, rest: Seq<u8>)
    requires
        opts.len() > 0,
        forall|i: int|
            0 <= i < opts.len() ==> reads_back(#[trigger] opts[i]) && opts[i].payload().len()
                <= 255,
    ensures
        options_at(in_a_row(opts) + seq![255u8] + rest) == (opts, seq![255u8] + rest),
        in_a_row(opts).len() > 0,
        in_a_row(opts)[0] != 255,
    decreases opts.len(),
{
    let o = opts[0];
    let more = opts.skip(1);
    let tail = seq![255u8] + rest;
    let s = in_a_row(opts) + seq![255u8] + rest;
    assert(reads_back(opts[0]));
    assert(s =~= option_bytes(o) + (in_a_row(more) + tail));
    option_round_trip(o, in_a_row(more) + tail);
    if opts.len() == 1 {
        assert(in_a_row(more) + tail =~= tail);
        assert(opts =~= seq![o]);
    } else {
        assert(forall|i: int| 0 <= i < more.len() ==> #[trigger] more[i] == opts[i + 1]);
        all_options_are_read(more, rest);
        assert(in_a_row(more) + tail =~= in_a_row(more) + seq![255u8] + rest);
        assert((in_a_row(more) + tail)[0] == in_a_row(more)[0]);
        assert(opts =~= seq![o] + more);
    }
}

/// A packet holds all options that stand behind its header, any number of them.
pub proof fn packet_holds_all_options(
    header: Seq<u8>,
    opts: Seq<OptionView>,
    rest: Seq<u8>,
)
    requires
        header.len() == 240,
        header[2] == 6,
        header[236] == 99 && header[237] == 130 && header[238] == 83 && header[239] == 99,
        opts.len() > 0,
        forall|i: int|
            0 <= i < opts.len() ==> reads_back(#[trigger] opts[i]) && opts[i].payload().len()
                <= 255,
    ensures
        decodable(header + in_a_row(opts) + seq![255u8] + rest),
        packet_of(header + in_a_row(opts) + seq![255u8] + rest) matches Ok(p) && p.options == opts,
{
    let s = header + in_a_row(opts) + seq![255u8] + rest;
    all_options_are_read(opts, rest);
    which_datagrams_are_packets(s);
    assert(s.skip(240) =~= in_a_row(opts) + seq![255u8] + rest);
    assert(s[240] == s.skip(240)[0]);
}

/// The bytes that options take on the wire.
pub open spec fn wire_length(opts: Seq<OptionView>) -> nat
    decreases opts.len(),
{
    if opts.len() == 0 {
        0
    } else {
        wire_length(opts.drop_last()) + 2 + opts.last().payload().len()
    }
}

/// Options fit into a packet as long as the packet has 300 bytes at most, with
/// its header and END.
pub proof fn options_fit_by_their_length(opts: Seq<OptionView>)
    requires
        opts.len() > 0,
    ensures
        all_fit(opts, 240) <==> 240 + wire_length(opts) + 1 <= 300,
{
    lemma_fit_by_length(opts, 240);
}

proof fn lemma_fit_by_length(opts: Seq<OptionView>, used: nat)
    requires
        opts.len() > 0,
    ensures
        all_fit(opts, used) <==> used + wire_length(opts) < 300,
    decreases opts.len(),
{
    let end = used + 2 + opts.first().payload().len();
    let more = opts.drop_first();
    reveal_with_fuel(all_fit, 2);
    lemma_wire_length_first(opts);
    if more.len() > 0 {
        lemma_fit_by_length(more, end);
    }
}

proof fn lemma_wire_length_first(opts: Seq<OptionView>)
    requires
        opts.len() > 0,
    ensures
        wire_length(opts) == 2 + opts.first().payload().len() + wire_length(opts.drop_first()),
    decreases opts.len(),
{
    reveal_with_fuel(wire_length, 2);
    if opts.len() > 1 {
        lemma_wire_length_first(opts.drop_last());
        assert(opts.drop_first().drop_last() =~= opts.drop_last().drop_first());
        assert(opts.drop_last().first() == opts.first());
        assert(opts.drop_first().last() == opts.last());
    } else {
        assert(opts.drop_first() =~= Seq::empty());
        assert(opts.drop_last() =~= Seq::empty());
    }
}

/// Which payloads are no options: a message type without a byte or with an
/// unknown one, an address or a lease time of fewer than four bytes, text that
/// is no UTF-8, and lists of routers and name servers. Further bytes behind an
/// address are of no account.
pub proof fn payload_errors(data: Seq<u8>, more: Seq<u8>)
    ensures
        data.len() == 0 ==> payload_option(53, data) == Err::<OptionView, CustomErr<Seq<u8>>>(
            CustomErr::InvalidHlen,
        ),
        data.len() > 0 && (data[0] == 0 || data[0] > 8) ==> payload_option(53, data) == Err::<
            OptionView,
            CustomErr<Seq<u8>>,
        >(CustomErr::UnrecognizedMessageType),
        data.len() > 0 && 1 <= data[0] <= 8 ==> payload_option(53, data) is Ok,
        data.len() < 4 ==> {
            &&& payload_option(54, data) is Err
            &&& payload_option(50, data) is Err
            &&& payload_option(1, data) is Err
            &&& payload_option(51, data) is Err
        },
        data.len() >= 4 ==> {
            &&& payload_option(54, data) is Ok && payload_option(54, data + more)
                == payload_option(54, data)
            &&& payload_option(50, data) is Ok && payload_option(50, data + more)
                == payload_option(50, data)
            &&& payload_option(1, data) is Ok && payload_option(1, data + more) == payload_option(
                1,
                data,
            )
            &&& payload_option(51, data) is Ok && payload_option(51, data + more)
                == payload_option(51, data)
        },
        payload_option(12, data) is Ok <==> valid_utf8(data),
        payload_option(56, data) is Ok <==> valid_utf8(data),
        payload_option(3, data) is Err,
        payload_option(6, data) is Err,
        payload_option(55, data) == Ok::<OptionView, CustomErr<Seq<u8>>>(
            OptionView::ParameterRequestList(data),
        ),
{
    if data.len() >= 4 {
        assert((data + more).take(4) =~= data.take(4));
    }
}

/// Reading is defined on every datagram that is no packet, too: it gives the
/// error.
pub proof fn other_datagrams_give_an_error(s: Seq<u8>)
    requires
        packet_of(s) is Err,
    ensures
        decodable(s),
{
}

/// Behind an encoded packet a buffer of 300 bytes or more has zeros up to the
/// 300th byte; all other bytes of the buffer stay as they were.
pub proof fn buffers_are_padded_with_zeros(used: nat, before: Seq<u8>, i: int)
    requires
        used <= before.len(),
        used <= 300,
        used <= i < before.len(),
    ensures
        padding(used, before).len() == before.len() - used,
        before.len() >= 300 && i < 300 ==> padding(used, before)[i - used] == 0,
        before.len() < 300 || i >= 300 ==> padding(used, before)[i - used] == before[i],
{
}

// ---------------------------------------------------------------------------
// DHCPv6 datagrams
// ---------------------------------------------------------------------------

/// The wire values of the DHCPv6 message types.
pub proof fn msg_type_numbers()
    ensures
        msg_type_of(1) == Some(MsgType::Solicit),
        msg_type_of(2) == Some(MsgType::Advertise),
        msg_type_of(3) == Some(MsgType::Request),
        msg_type_of(4) == Some(MsgType::Confirm),
        msg_type_of(5) == Some(MsgType::Renew),
        msg_type_of(6) == Some(MsgType::Rebind),
        msg_type_of(7) == Some(MsgType::Reply),
        msg_type_of(8) == Some(MsgType::Release),
        msg_type_of(9) == Some(MsgType::Decline),
        msg_type_of(10) == Some(MsgType::Reconfigure),
        msg_type_of(11) == Some(MsgType::InformationRequest),
        msg_type_of(12) == Some(MsgType::RelayForward),
        msg_type_of(13) == Some(MsgType::RelayReply),
        forall|v: u8| v == 0 || v > 13 ==> #[trigger] msg_type_of(v) is None,
{
}

/// A datagram starts with the message type and three bytes of transaction id,
/// and its options follow.
pub proof fn packet6_layout(p: Packet6View)
    requires
        p.transaction_id < 0x100_0000,
    ensures
        packet6_bytes(p).len() >= 4,
        msg_type_of(packet6_bytes(p)[0]) == Some(p.msg_type),
        be_value(packet6_bytes(p).subrange(1, 4)) == p.transaction_id,
        p.options.len() == 0 ==> packet6_bytes(p).len() == 4,
        p.options.len() > 0 ==> packet6_bytes(p).skip(4).take(p.options[0].bytes().len() as int)
            == p.options[0].bytes(),
{
    broadcast use lemma_be_bytes_len;

    let w = packet6_bytes(p);
    lemma_byte_ranges();
    lemma_value_of_bytes(p.transaction_id as nat, 3);
    assert(w.subrange(1, 4) =~= be_bytes(p.transaction_id as nat, 3));
    if p.options.len() > 0 {
        assert(w.skip(4).take(p.options[0].bytes().len() as int) =~= p.options[0].bytes());
    }
}

/// The fields of a datagram that was read stand at fixed places in it; too short
/// a one and one of an unknown type are errors.
pub proof fn packet6_fields(s: Seq<u8>)
    ensures
        s.len() < 4 ==> packet6_of(s) == Err::<Packet6View, DecodeError>(DecodeError::Truncated),
        s.len() >= 4 && (s[0] == 0 || s[0] > 13) ==> packet6_of(s) == Err::<
            Packet6View,
            DecodeError,
        >(DecodeError::BadMessageType(s[0])),
        packet6_of(s) matches Ok(p) ==> {
            &&& msg_type_of(s[0]) == Some(p.msg_type)
            &&& p.transaction_id == s[1] * 0x1_0000 + s[2] * 0x100 + s[3]
        },
        s.len() == 4 && 1 <= s[0] <= 13 ==> packet6_of(s) is Ok,
{
    reveal_with_fuel(be_value, 4);
}

/// A search for a code finds the first option with it, and nothing exactly when
/// there is none.
pub proof fn search6_finds_the_first(opts: Seq<Option6View>, code: u16, i: int)
    ensures
        first_with_code6(opts, code) is None <==> forall|j: int|
            0 <= j < opts.len() ==> (#[trigger] opts[j]).code() != code,
        0 <= i < opts.len() && opts[i].code() == code && (forall|j: int|
            0 <= j < i ==> (#[trigger] opts[j]).code() != code) ==> first_with_code6(opts, code)
            == Some(opts[i]),
    decreases opts.len(),
{
    if opts.len() > 0 {
        let t = opts.drop_first();
        search6_finds_the_first(t, code, i - 1);
        assert(forall|j: int| 0 <= j < t.len() ==> #[trigger] t[j] == opts[j + 1]);
        if first_with_code6(opts, code) is None {
            assert forall|j: int| 0 <= j < opts.len() implies (#[trigger] opts[j]).code()
                != code by {
                if j > 0 {
                    assert(t[j - 1].code() != code);
                }
            }
        }
        if i > 0 && i < opts.len() {
            assert(t[i - 1] == opts[i]);
        }
    }
}

/// The IA_NA and the client id of a datagram are the first ones among its
/// options.
pub proof fn leading_parts_are_the_first(opts: Seq<Option6View>, i: int)
    ensures
        leading_iana(opts) is None <==> forall|j: int|
            0 <= j < opts.len() ==> !((#[trigger] opts[j]) is IaNa),
        client_duid(opts) is None <==> forall|j: int|
            0 <= j < opts.len() ==> !((#[trigger] opts[j]) is ClientId),
        0 <= i < opts.len() && (forall|j: int| 0 <= j < i ==> !((#[trigger] opts[j]) is IaNa)) ==> (
        opts[i] matches Option6View::IaNa(ia) ==> leading_iana(opts) == Some(ia)),
        0 <= i < opts.len() && (forall|j: int| 0 <= j < i ==> !((#[trigger] opts[j]) is ClientId))
            ==> (opts[i] matches Option6View::ClientId(d) ==> client_duid(opts) == Some(d)),
    decreases opts.len(),
{
    if opts.len() > 0 {
        let t = opts.drop_first();
        leading_parts_are_the_first(t, i - 1);
        assert(forall|j: int| 0 <= j < t.len() ==> #[trigger] t[j] == opts[j + 1]);
        if leading_iana(opts) is None {
            assert forall|j: int| 0 <= j < opts.len() implies !((#[trigger] opts[j]) is IaNa) by {
                if j > 0 {
                    assert(!(t[j - 1] is IaNa));
                }
            }
        }
        if client_duid(opts) is None {
            assert forall|j: int| 0 <= j < opts.len() implies !((
            #[trigger] opts[j]) is ClientId) by {
                if j > 0 {
                    assert(!(t[j - 1] is ClientId));
                }
            }
        }
        if i > 0 && i < opts.len() {
            assert(t[i - 1] == opts[i]);
        }
    }
}

/// A sub-option of an IA_NA, with its code and its length in front.
pub open spec fn sub_option(code: u16, body: Seq<u8>) -> Seq<u8> {
    be_bytes(code as nat, 2) + be_bytes(body.len(), 2) + body
}

proof fn lemma_sub_option(code: u16, body: Seq<u8>, rest: Seq<u8>)
    requires
        body.len() <= 0xffff,
    ensures
        frame_at(sub_option(code, body) + rest) == Some((code, body, rest)),
        (sub_option(code, body) + rest).len() > 0,
{
    broadcast use lemma_be_bytes_len;

    let s = sub_option(code, body) + rest;
    lemma_byte_ranges();
    lemma_value_of_bytes(code as nat, 2);
    lemma_value_of_bytes(body.len(), 2);
    assert(s.take(2) =~= be_bytes(code as nat, 2));
    assert(s.subrange(2, 4) =~= be_bytes(body.len(), 2));
    assert(s.subrange(4, 4 + body.len() as int) =~= body);
    assert(s.skip(4 + body.len() as int) =~= rest);
}

/// Sub-options of an IA_NA with another code than 5 are of no account. One with
/// that code gives an address: sixteen bytes of address and four each of the
/// preferred and the valid lifetime; what follows them is of no account, and
/// fewer are an error.
pub proof fn sub_options_are_read_one_by_one(code: u16, body: Seq<u8>, rest: Seq<u8>)
    requires
        body.len() <= 0xffff,
    ensures
        code != 5 ==> iaaddrs_of(sub_option(code, body) + rest) == iaaddrs_of(rest),
        code == 5 && body.len() < 24 ==> iaaddrs_of(sub_option(code, body) + rest) == Err::<
            Seq<IaAddr>,
            DecodeError,
        >(DecodeError::Malformed),
        code == 5 && body.len() >= 24 ==> match iaaddrs_of(rest) {
            Ok(more) => iaaddrs_of(sub_option(code, body) + rest) matches Ok(all) && {
                &&& all.len() == more.len() + 1
                &&& all.skip(1) == more
                &&& all[0].addr.bits == be_value(body.take(16))
                &&& all[0].preferred == be_value(body.subrange(16, 20))
                &&& all[0].valid == be_value(body.subrange(20, 24))
            },
            Err(e) => iaaddrs_of(sub_option(code, body) + rest) == Err::<Seq<IaAddr>, DecodeError>(
                e,
            ),
        },
{
    lemma_sub_option(code, body, rest);
    if code == 5 && body.len() >= 24 {
        lemma_byte_ranges();
        lemma_be_value_bound(body.take(16));
        lemma_be_value_bound(body.subrange(16, 20));
        lemma_be_value_bound(body.subrange(20, 24));
        if iaaddrs_of(rest) is Ok {
            let all = iaaddrs_of(sub_option(code, body) + rest)->Ok_0;
            assert(all.skip(1) =~= iaaddrs_of(rest)->Ok_0);
        }
    }
}

/// An IA_NA starts with the IAID and the two times, four bytes each, and its
/// sub-options follow; fewer bytes are an error.
pub proof fn iana_fields(data: Seq<u8>)
    ensures
        data.len() < 12 ==> iana_of(data) == Err::<IaNaView, DecodeError>(DecodeError::Malformed),
        data.len() >= 12 ==> match iaaddrs_of(data.skip(12)) {
            Ok(addrs) => iana_of(data) matches Ok(ia) && {
                &&& ia.iaid == be_value(data.subrange(0, 4))
                &&& ia.t1 == be_value(data.subrange(4, 8))
                &&& ia.t2 == be_value(data.subrange(8, 12))
                &&& ia.addrs == addrs
            },
            Err(e) => iana_of(data) == Err::<IaNaView, DecodeError>(e),
        },
{
    if data.len() >= 12 {
        lemma_byte_ranges();
        lemma_be_value_bound(data.subrange(0, 4));
        lemma_be_value_bound(data.subrange(4, 8));
        lemma_be_value_bound(data.subrange(8, 12));
    }
}

/// Which payloads are no options: a list of name servers that is no multiple of
/// sixteen bytes, and a status without its number or with text that is no
/// UTF-8. Ids and options of unknown codes are taken as they are.
pub proof fn payload6_errors(data: Seq<u8>, code: u16)
    ensures
        payload6_option(23, data) is Ok <==> data.len() % 16 == 0,
        payload6_option(23, data) is Err ==> payload6_option(23, data) == Err::<
            Option6View,
            DecodeError,
        >(DecodeError::Malformed),
        data.len() < 2 ==> payload6_option(13, data) == Err::<Option6View, DecodeError>(
            DecodeError::Malformed,
        ),
        data.len() >= 2 ==> (payload6_option(13, data) is Ok <==> valid_utf8(data.skip(2))),
        data.len() >= 2 && payload6_option(13, data) is Err ==> payload6_option(13, data) == Err::<
            Option6View,
            DecodeError,
        >(DecodeError::BadUtf8),
        payload6_option(1, data) == Ok::<Option6View, DecodeError>(Option6View::ClientId(data)),
        payload6_option(2, data) == Ok::<Option6View, DecodeError>(Option6View::ServerId(data)),
        code != 1 && code != 2 && code != 3 && code != 13 && code != 23 ==> payload6_option(
            code,
            data,
        ) == Ok::<Option6View, DecodeError>(Option6View::Unrecognized(code, data)),
        payload6_option(3, data) is Ok <==> iana_of(data) is Ok,
{
}

/// A datagram can be encoded exactly when no payload is longer than 65535
/// bytes.
pub proof fn which_datagrams_can_be_encoded(opts: Seq<Option6View>)
    ensures
        payloads_fit(opts) <==> !exists|i: int|
            0 <= i < opts.len() && (#[trigger] opts[i]).payload().len() > 65535,
{
}

} // verus!
