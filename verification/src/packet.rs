//! DHCPv4 packets (RFC 2131): decoding and encoding.
//!
//! Decoding is lenient about options. The first option that cannot be decoded
//! ends the list, and the packet is still accepted with what came before it.

use vstd::prelude::*;
use vstd::slice::{slice_subrange, slice_to_vec};

use crate::net::{octets_bits, Ipv4Addr};
use crate::number::{decimal, push_decimal};
use crate::options::{
    lemma_message_type_value, message_type_of, option_views, DhcpOption, MessageType, OptionView,
    RawDhcpOption, DHCP_MESSAGE_TYPE, DOMAIN_NAME_SERVER, HOST_NAME, IP_ADDRESS_LEASE_TIME, MESSAGE,
    PARAMETER_REQUEST_LIST, REQUESTED_IP_ADDRESS, ROUTER, SERVER_IDENTIFIER, SUBNET_MASK,
};
use crate::text::{decode_text, lemma_utf8_text_of_encoded, push_str, utf8_text};
use crate::wire::{
    be_bytes, be_value, lemma_be_bytes_len, lemma_byte_ranges, lemma_value_of_bytes, push_slice,
    push_u16, push_u32, read_u16, read_u32,
};

verus! {

/// Maximum encoded packet size: the BOOTP minimum (RFC 951). The fixed header
/// and the cookie take 240 bytes, which leaves 59 bytes for options and END.
pub const WIRE_MAX: usize = 300;

pub const BOOT_REQUEST: u8 = 1;

pub const BOOT_REPLY: u8 = 2;

pub const END: u8 = 255;

pub const PAD: u8 = 0;

/// The four bytes that stand before the options.
pub open spec fn cookie() -> Seq<u8> {
    seq![99, 130, 83, 99]
}

pub enum ErrorKind {
    Tag,
    MapRes,
    ManyTill,
    Eof,
    Custom(u32),
}

/// Why bytes could not be decoded.
pub enum CustomErr<I> {
    NomError((I, ErrorKind)),
    NonUtf8String,
    UnrecognizedMessageType,
    InvalidHlen,
}

pub type IResult<I, O> = Result<(I, O), CustomErr<I>>;

/// What an error says, with the bytes that it carries.
pub open spec fn error_view(e: CustomErr<&[u8]>) -> CustomErr<Seq<u8>> {
    match e {
        CustomErr::NomError((rest, kind)) => CustomErr::NomError((rest@, kind)),
        CustomErr::NonUtf8String => CustomErr::NonUtf8String,
        CustomErr::UnrecognizedMessageType => CustomErr::UnrecognizedMessageType,
        CustomErr::InvalidHlen => CustomErr::InvalidHlen,
    }
}

/// A DHCP packet.
#[derive(Debug)]
pub struct Packet {
    /// `false` for a request, `true` for a reply.
    pub reply: bool,
    pub hops: u8,
    /// Random identifier of the transaction.
    pub xid: u32,
    pub secs: u16,
    pub broadcast: bool,
    pub ciaddr: Ipv4Addr,
    pub yiaddr: Ipv4Addr,
    pub siaddr: Ipv4Addr,
    pub giaddr: Ipv4Addr,
    pub chaddr: [u8; 6],
    pub options: Vec<DhcpOption>,
}

/// What a packet says.
pub struct PacketView {
    pub reply: bool,
    pub hops: u8,
    pub xid: u32,
    pub secs: u16,
    pub broadcast: bool,
    pub ciaddr: Ipv4Addr,
    pub yiaddr: Ipv4Addr,
    pub siaddr: Ipv4Addr,
    pub giaddr: Ipv4Addr,
    pub chaddr: Seq<u8>,
    pub options: Seq<OptionView>,
}

impl View for Packet {
    type V = PacketView;

    open spec fn view(&self) -> PacketView {
        PacketView {
            reply: self.reply,
            hops: self.hops,
            xid: self.xid,
            secs: self.secs,
            broadcast: self.broadcast,
            ciaddr: self.ciaddr,
            yiaddr: self.yiaddr,
            siaddr: self.siaddr,
            giaddr: self.giaddr,
            chaddr: self.chaddr@,
            options: option_views(self.options@),
        }
    }
}

// ---------------------------------------------------------------------------
// Decoding
// ---------------------------------------------------------------------------

/// The address in the first four bytes of a payload; further bytes are
/// ignored.
pub open spec fn leading_addr(data: Seq<u8>) -> Result<Ipv4Addr, CustomErr<Seq<u8>>> {
    if data.len() < 4 {
        Err(CustomErr::InvalidHlen)
    } else {
        Ok(Ipv4Addr { bits: octets_bits(data[0], data[1], data[2], data[3]) })
    }
}

/// What the payload `data` of an option with the given code says. Router and
/// name server lists are never accepted.
pub open spec fn payload_option(code: u8, data: Seq<u8>) -> Result<
    OptionView,
    CustomErr<Seq<u8>>,
> {
    if code == DHCP_MESSAGE_TYPE {
        if data.len() == 0 {
            Err(CustomErr::InvalidHlen)
        } else {
            match message_type_of(data[0]) {
                Some(t) => Ok(OptionView::DhcpMessageType(t)),
                None => Err(CustomErr::UnrecognizedMessageType),
            }
        }
    } else if code == PARAMETER_REQUEST_LIST {
        Ok(OptionView::ParameterRequestList(data))
    } else if code == SERVER_IDENTIFIER {
        match leading_addr(data) {
            Ok(a) => Ok(OptionView::ServerIdentifier(a)),
            Err(e) => Err(e),
        }
    } else if code == REQUESTED_IP_ADDRESS {
        match leading_addr(data) {
            Ok(a) => Ok(OptionView::RequestedIpAddress(a)),
            Err(e) => Err(e),
        }
    } else if code == HOST_NAME {
        match utf8_text(data) {
            Some(s) => Ok(OptionView::HostName(s)),
            None => Err(CustomErr::NonUtf8String),
        }
    } else if code == ROUTER || code == DOMAIN_NAME_SERVER {
        Err(CustomErr::InvalidHlen)
    } else if code == IP_ADDRESS_LEASE_TIME {
        if data.len() < 4 {
            Err(CustomErr::InvalidHlen)
        } else {
            Ok(OptionView::IpAddressLeaseTime(be_value(data.take(4)) as u32))
        }
    } else if code == SUBNET_MASK {
        match leading_addr(data) {
            Ok(a) => Ok(OptionView::SubnetMask(a)),
            Err(e) => Err(e),
        }
    } else if code == MESSAGE {
        match utf8_text(data) {
            Some(s) => Ok(OptionView::Message(s)),
            None => Err(CustomErr::NonUtf8String),
        }
    } else {
        Ok(OptionView::Unrecognized(code, data))
    }
}

/// The option at the start of `s` and the bytes after it: a code, a length,
/// and as many bytes of payload.
pub open spec fn option_at(s: Seq<u8>) -> Result<(Seq<u8>, OptionView), CustomErr<Seq<u8>>> {
    if s.len() < 2 || s.len() - 2 < s[1] {
        Err(CustomErr::InvalidHlen)
    } else {
        match payload_option(s[0], s.subrange(2, 2 + s[1])) {
            Ok(o) => Ok((s.skip(2 + s[1]), o)),
            Err(e) => Err(e),
        }
    }
}

/// The options that decoding takes from `s`, and the bytes where it stops:
/// before END, or before the first option that cannot be decoded.
pub open spec fn options_at(s: Seq<u8>) -> (Seq<OptionView>, Seq<u8>)
    decreases s.len(),
{
    match option_at(s) {
        Err(_) => (Seq::empty(), s),
        Ok((rest, o)) => if rest.len() > 0 && rest[0] == END {
            (seq![o], rest)
        } else {
            let (more, stop) = options_at(rest);
            (seq![o] + more, stop)
        },
    }
}

/// Whether `input` has a complete header, six-byte hardware addresses and the
/// cookie.
pub open spec fn has_header(input: Seq<u8>) -> bool {
    &&& input.len() >= 240
    &&& input[2] == 6
    &&& input.subrange(236, 240) == cookie()
}

/// Whether decoding is defined on `input`. Behind an intact header the options
/// have to start with something other than END, and a byte has to be left
/// where the options stop.
pub open spec fn decodable(input: Seq<u8>) -> bool {
    has_header(input) ==> {
        &&& input.len() > 240
        &&& input[240] != END
        &&& options_at(input.skip(240)).1.len() > 0
    }
}

/// The four-byte address at offset `i`.
pub open spec fn addr_at(s: Seq<u8>, i: int) -> Ipv4Addr {
    Ipv4Addr { bits: octets_bits(s[i], s[i + 1], s[i + 2], s[i + 3]) }
}

/// The packet that `input` holds. The broadcast flag is read from the bit
/// `0x0080` of the flags field.
pub open spec fn packet_of(input: Seq<u8>) -> Result<PacketView, CustomErr<Seq<u8>>> {
    if input.len() < 236 || input[2] != 6 {
        Err(CustomErr::InvalidHlen)
    } else if !has_header(input) {
        Err(CustomErr::NomError((input.skip(236), ErrorKind::Tag)))
    } else {
        Ok(
            PacketView {
                reply: input[0] == BOOT_REPLY,
                hops: input[3],
                xid: be_value(input.subrange(4, 8)) as u32,
                secs: be_value(input.subrange(8, 10)) as u16,
                broadcast: input[11] >= 128,
                ciaddr: addr_at(input, 12),
                yiaddr: addr_at(input, 16),
                siaddr: addr_at(input, 20),
                giaddr: addr_at(input, 24),
                chaddr: input.subrange(28, 34),
                options: options_at(input.skip(240)).0,
            },
        )
    }
}

fn ipv4_of<'a>(data: &'a [u8]) -> (r: Result<Ipv4Addr, CustomErr<&'a [u8]>>)
    ensures
        match r {
            Ok(a) => leading_addr(data@) == Ok::<Ipv4Addr, CustomErr<Seq<u8>>>(a),
            Err(e) => leading_addr(data@) == Err::<Ipv4Addr, CustomErr<Seq<u8>>>(error_view(e)),
        },
{
    if data.len() < 4 {
        return Err(CustomErr::InvalidHlen);
    }
    Ok(Ipv4Addr::new(data[0], data[1], data[2], data[3]))
}

fn decode_payload<'a>(code: u8, data: &'a [u8]) -> (r: Result<DhcpOption, CustomErr<&'a [u8]>>)
    ensures
        match r {
            Ok(o) => payload_option(code, data@) == Ok::<OptionView, CustomErr<Seq<u8>>>(o@),
            Err(e) => payload_option(code, data@) == Err::<OptionView, CustomErr<Seq<u8>>>(
                error_view(e),
            ),
        },
{
    let option = match code {
        DHCP_MESSAGE_TYPE => {
            if data.len() == 0 {
                return Err(CustomErr::InvalidHlen);
            }
            match MessageType::from_option(data[0]) {
                Some(t) => DhcpOption::DhcpMessageType(t),
                None => return Err(CustomErr::UnrecognizedMessageType),
            }
        },
        PARAMETER_REQUEST_LIST => DhcpOption::ParameterRequestList(slice_to_vec(data)),
        SERVER_IDENTIFIER => match ipv4_of(data) {
            Ok(a) => DhcpOption::ServerIdentifier(a),
            Err(e) => return Err(e),
        },
        REQUESTED_IP_ADDRESS => match ipv4_of(data) {
            Ok(a) => DhcpOption::RequestedIpAddress(a),
            Err(e) => return Err(e),
        },
        HOST_NAME => match decode_text(data) {
            Some(s) => DhcpOption::HostName(s),
            None => return Err(CustomErr::NonUtf8String),
        },
        ROUTER => return Err(CustomErr::InvalidHlen),
        DOMAIN_NAME_SERVER => return Err(CustomErr::InvalidHlen),
        IP_ADDRESS_LEASE_TIME => {
            if data.len() < 4 {
                return Err(CustomErr::InvalidHlen);
            }
            assert(data@.take(4) =~= data@.subrange(0, 4));
            DhcpOption::IpAddressLeaseTime(read_u32(data, 0))
        },
        SUBNET_MASK => match ipv4_of(data) {
            Ok(a) => DhcpOption::SubnetMask(a),
            Err(e) => return Err(e),
        },
        MESSAGE => match decode_text(data) {
            Some(s) => DhcpOption::Message(s),
            None => return Err(CustomErr::NonUtf8String),
        },
        _ => DhcpOption::Unrecognized(RawDhcpOption { code, data: slice_to_vec(data) }),
    };
    Ok(option)
}

/// Decodes the option at the start of `input`, which is not END; returns the
/// bytes after it and the option.
pub fn decode_option<'a>(input: &'a [u8]) -> (r: IResult<&'a [u8], DhcpOption>)
    requires
        input@.len() > 0 ==> input@[0] != END,
    ensures
        match r {
            Ok((rest, o)) => option_at(input@) == Ok::<
                (Seq<u8>, OptionView),
                CustomErr<Seq<u8>>,
            >((rest@, o@)),
            Err(e) => option_at(input@) == Err::<(Seq<u8>, OptionView), CustomErr<Seq<u8>>>(
                error_view(e),
            ),
        },
{
    if input.len() < 2 {
        return Err(CustomErr::InvalidHlen);
    }
    let code = input[0];
    let len = input[1] as usize;
    if input.len() - 2 < len {
        return Err(CustomErr::InvalidHlen);
    }
    let data = slice_subrange(input, 2, 2 + len);
    let rest = slice_subrange(input, 2 + len, input.len());
    assert(rest@ =~= input@.skip(2 + len));
    match decode_payload(code, data) {
        Ok(option) => Ok((rest, option)),
        Err(e) => Err(e),
    }
}

/// The options from `input` on, and the bytes where decoding stops.
fn decode_options<'a>(input: &'a [u8]) -> (r: (Vec<DhcpOption>, &'a [u8]))
    requires
        input@.len() > 0,
        input@[0] != END,
    ensures
        (option_views(r.0@), r.1@) == options_at(input@),
{
    let mut options: Vec<DhcpOption> = Vec::new();
    let mut rest: &'a [u8] = input;
    assert(option_views(options@) =~= Seq::empty());
    assert(option_views(options@) + options_at(rest@).0 =~= options_at(input@).0);
    loop
        invariant
            rest@.len() > 0 ==> rest@[0] != END,
            options_at(input@) == (
                option_views(options@) + options_at(rest@).0,
                options_at(rest@).1,
            ),
        decreases rest@.len(),
    {
        let ghost before = option_views(options@);
        match decode_option(rest) {
            Ok((new_rest, option)) => {
                let ghost from = rest@;
                let ghost o = option@;
                rest = new_rest;
                options.push(option);
                assert(option_views(options@) =~= before.push(o));
                if rest.len() > 0 && rest[0] == END {
                    assert(before + seq![o] =~= before.push(o));
                    return (options, rest);
                }
                assert(before.push(o) + options_at(rest@).0 =~= before + (seq![o] + options_at(
                    rest@,
                ).0));
            },
            Err(_) => {
                assert(before + Seq::<OptionView>::empty() =~= before);
                return (options, rest);
            },
        }
    }
}

// ---------------------------------------------------------------------------
// Reading options
// ---------------------------------------------------------------------------

/// The first of `opts` with the given code.
pub open spec fn first_with_code(opts: Seq<OptionView>, code: u8) -> Option<OptionView>
    decreases opts.len(),
{
    if opts.len() == 0 {
        None
    } else if opts.first().code() == code {
        Some(opts.first())
    } else {
        first_with_code(opts.drop_first(), code)
    }
}

/// The message type that `opts` announce, or the reason why there is none.
pub open spec fn announced_type(opts: Seq<OptionView>) -> Result<MessageType, Seq<char>>
    decreases opts.len(),
{
    if opts.len() == 0 {
        Err("Packet does not have MessageType option"@)
    } else {
        match opts.first() {
            OptionView::DhcpMessageType(t) => Ok(t),
            OptionView::Unrecognized(code, _) if code == DHCP_MESSAGE_TYPE => Err(
                "Got wrong enum code "@ + decimal(code as nat) + " for DHCP_MESSAGE_TYPE"@,
            ),
            _ => announced_type(opts.drop_first()),
        }
    }
}

// ---------------------------------------------------------------------------
// Encoding
// ---------------------------------------------------------------------------

/// The fixed header and the cookie. The broadcast flag is written as `0x8000`.
pub open spec fn header_bytes(p: PacketView) -> Seq<u8> {
    seq![if p.reply { BOOT_REPLY } else { BOOT_REQUEST }, 1, 6, p.hops] + be_bytes(
        p.xid as nat,
        4,
    ) + be_bytes(p.secs as nat, 2) + seq![if p.broadcast { 128u8 } else { 0u8 }, 0]
        + p.ciaddr.spec_octets() + p.yiaddr.spec_octets() + p.siaddr.spec_octets()
        + p.giaddr.spec_octets() + p.chaddr + Seq::new(202, |i: int| 0u8) + cookie()
}

/// One option on the wire.
pub open spec fn option_bytes(o: OptionView) -> Seq<u8> {
    seq![o.code(), o.payload().len() as u8] + o.payload()
}

/// The options on the wire behind `used` bytes: as many of `opts`, from the
/// first on, as leave room for END below `WIRE_MAX`.
pub open spec fn options_bytes(opts: Seq<OptionView>, used: nat) -> Seq<u8>
    decreases opts.len(),
{
    if opts.len() == 0 {
        Seq::empty()
    } else {
        let end = used + 2 + opts.first().payload().len();
        if end >= WIRE_MAX {
            Seq::empty()
        } else {
            option_bytes(opts.first()) + options_bytes(opts.drop_first(), end)
        }
    }
}

/// The packet on the wire.
pub open spec fn packet_bytes(p: PacketView) -> Seq<u8> {
    header_bytes(p) + options_bytes(p.options, 240) + seq![END]
}

/// The options end below `WIRE_MAX`, so that END still fits.
proof fn lemma_options_bytes_len(opts: Seq<OptionView>, used: nat)
    requires
        used < WIRE_MAX,
    ensures
        used + options_bytes(opts, used).len() < WIRE_MAX,
    decreases opts.len(),
{
    if opts.len() > 0 {
        let end = used + 2 + opts.first().payload().len();
        if end < WIRE_MAX {
            lemma_options_bytes_len(opts.drop_first(), end);
        }
    }
}

/// An encoded packet takes at least the header, the cookie and END, and never
/// more than `WIRE_MAX` bytes.
pub proof fn encoded_length_bounds(p: PacketView)
    requires
        p.chaddr.len() == 6,
    ensures
        241 <= packet_bytes(p).len() <= WIRE_MAX,
{
    broadcast use lemma_be_bytes_len;

    lemma_options_bytes_len(p.options, 240);
}

impl Packet {
    /// Decodes a packet where decoding is defined.
    pub fn try_from(input: &[u8]) -> (r: Option<Result<Packet, CustomErr<&[u8]>>>)
        ensures
            r is Some <==> decodable(input@),
            r matches Some(Ok(p)) ==> packet_of(input@) == Ok::<PacketView, CustomErr<Seq<u8>>>(
                p@,
            ),
            r matches Some(Err(e)) ==> packet_of(input@) == Err::<PacketView, CustomErr<Seq<u8>>>(
                error_view(e),
            ),
    {
        let n = input.len();
        if n < 236 {
            return Some(Err(CustomErr::InvalidHlen));
        }
        if input[2] != 6 {
            return Some(Err(CustomErr::InvalidHlen));
        }
        let tail = slice_subrange(input, 236, n);
        assert(tail@ =~= input@.skip(236));
        if n < 240 || input[236] != 99 || input[237] != 130 || input[238] != 83 || input[239]
            != 99 {
            proof {
                if n >= 240 {
                    let c = input@.subrange(236, 240);
                    assert(c[0] == input@[236] && c[1] == input@[237] && c[2] == input@[238]
                        && c[3] == input@[239]);
                }
            }
            return Some(Err(CustomErr::NomError((tail, ErrorKind::Tag))));
        }
        assert(input@.subrange(236, 240) =~= cookie());
        if n == 240 || input[240] == END {
            return None;
        }
        let region = slice_subrange(input, 240, n);
        assert(region@ =~= input@.skip(240));
        let (options, rest) = decode_options(region);
        if rest.len() == 0 {
            return None;
        }
        let chaddr: [u8; 6] = [
            input[28],
            input[29],
            input[30],
            input[31],
            input[32],
            input[33],
        ];
        assert(chaddr@ =~= input@.subrange(28, 34));
        let p = Packet {
            reply: input[0] == BOOT_REPLY,
            hops: input[3],
            xid: read_u32(input, 4),
            secs: read_u16(input, 8),
            broadcast: input[11] >= 128,
            ciaddr: Ipv4Addr::new(input[12], input[13], input[14], input[15]),
            yiaddr: Ipv4Addr::new(input[16], input[17], input[18], input[19]),
            siaddr: Ipv4Addr::new(input[20], input[21], input[22], input[23]),
            giaddr: Ipv4Addr::new(input[24], input[25], input[26], input[27]),
            chaddr,
            options,
        };
        Some(Ok(p))
    }

    /// Decodes a packet.
    pub fn from(input: &[u8]) -> (r: Result<Packet, CustomErr<&[u8]>>)
        requires
            decodable(input@),
        ensures
            match r {
                Ok(p) => packet_of(input@) == Ok::<PacketView, CustomErr<Seq<u8>>>(p@),
                Err(e) => packet_of(input@) == Err::<PacketView, CustomErr<Seq<u8>>>(
                    error_view(e),
                ),
            },
    {
        match Packet::try_from(input) {
            Some(r) => r,
            None => Err(CustomErr::InvalidHlen),
        }
    }

    /// The first option with the given code.
    pub fn option(&self, code: u8) -> (r: Option<&DhcpOption>)
        ensures
            match r {
                Some(o) => first_with_code(self@.options, code) == Some(o@),
                None => first_with_code(self@.options, code) is None,
            },
    {
        let ghost views = self@.options;
        let mut i: usize = 0;
        assert(views.skip(0) =~= views);
        while i < self.options.len()
            invariant
                i <= self.options@.len(),
                views == option_views(self.options@),
                first_with_code(views, code) == first_with_code(views.skip(i as int), code),
            decreases self.options@.len() - i,
        {
            assert(views[i as int] == self.options@[i as int]@);
            if self.options[i].code() == code {
                return Some(&self.options[i]);
            }
            assert(views.skip(i as int).drop_first() =~= views.skip(i + 1));
            i = i + 1;
        }
        None
    }

    /// The packet's message type.
    pub fn message_type(&self) -> (r: Result<MessageType, String>)
        ensures
            match r {
                Ok(t) => announced_type(self@.options) == Ok::<MessageType, Seq<char>>(t),
                Err(e) => announced_type(self@.options) == Err::<MessageType, Seq<char>>(e@),
            },
    {
        let ghost views = self@.options;
        let mut i: usize = 0;
        assert(views.skip(0) =~= views);
        while i < self.options.len()
            invariant
                i <= self.options@.len(),
                views == option_views(self.options@),
                announced_type(views) == announced_type(views.skip(i as int)),
            decreases self.options@.len() - i,
        {
            assert(views[i as int] == self.options@[i as int]@);
            assert(views.skip(i as int).drop_first() =~= views.skip(i + 1));
            match &self.options[i] {
                DhcpOption::DhcpMessageType(t) => return Ok(*t),
                DhcpOption::Unrecognized(r) => {
                    if r.code == DHCP_MESSAGE_TYPE {
                        let mut e = String::new();
                        push_str(&mut e, "Got wrong enum code ");
                        push_decimal(&mut e, r.code as u64);
                        push_str(&mut e, " for DHCP_MESSAGE_TYPE");
                        assert(e@ =~= "Got wrong enum code "@ + decimal(r.code as nat)
                            + " for DHCP_MESSAGE_TYPE"@);
                        return Err(e);
                    }
                },
                _ => {},
            }
            i = i + 1;
        }
        let mut e = String::new();
        push_str(&mut e, "Packet does not have MessageType option");
        assert(e@ =~= "Packet does not have MessageType option"@);
        Err(e)
    }

    /// The bytes of the packet.
    pub fn to_wire(&self) -> (r: Vec<u8>)
        ensures
            r@ == packet_bytes(self@),
    {
        broadcast use lemma_be_bytes_len;

        let mut out: Vec<u8> = Vec::new();
        out.push(if self.reply { BOOT_REPLY } else { BOOT_REQUEST });
        out.push(1);
        out.push(6);
        out.push(self.hops);
        push_u32(&mut out, self.xid);
        push_u16(&mut out, self.secs);
        out.push(if self.broadcast { 128 } else { 0 });
        out.push(0);
        push_u32(&mut out, self.ciaddr.bits);
        push_u32(&mut out, self.yiaddr.bits);
        push_u32(&mut out, self.siaddr.bits);
        push_u32(&mut out, self.giaddr.bits);
        push_slice(&mut out, self.chaddr.as_slice());
        let ghost fields = out@;
        let mut i: usize = 0;
        while i < 202
            invariant
                i <= 202,
                out@ == fields + Seq::new(i as nat, |j: int| 0u8),
            decreases 202 - i,
        {
            out.push(0);
            i = i + 1;
            assert(out@ =~= fields + Seq::new(i as nat, |j: int| 0u8));
        }
        out.push(99);
        out.push(130);
        out.push(83);
        out.push(99);
        let ghost header = header_bytes(self@);
        assert(out@ =~= header);
        assert(out@.len() == 240);
        let ghost views = self@.options;
        let mut k: usize = 0;
        assert(views.skip(0) =~= views);
        assert(out@ + options_bytes(views.skip(0), 240) =~= header + options_bytes(views, 240));
        while k < self.options.len()
            invariant
                k <= self.options@.len(),
                views == option_views(self.options@),
                240 <= out@.len() < WIRE_MAX,
                out@ + options_bytes(views.skip(k as int), out@.len()) == header + options_bytes(
                    views,
                    240,
                ),
            ensures
                240 <= out@.len() < WIRE_MAX,
                out@ == header + options_bytes(views, 240),
            decreases self.options@.len() - k,
        {
            let ghost o = views[k as int];
            assert(o == self.options@[k as int]@);
            assert(views.skip(k as int).drop_first() =~= views.skip(k + 1));
            let room = WIRE_MAX - out.len();
            if room <= 2 {
                assert(out@ + Seq::<u8>::empty() =~= out@);
                break;
            }
            match self.options[k].data_len_below(room - 2) {
                Some(n) => {
                    let ghost before = out@;
                    let raw = self.options[k].to_raw();
                    out.push(raw.code);
                    out.push(n as u8);
                    push_slice(&mut out, raw.data.as_slice());
                    assert(out@ =~= before + option_bytes(o));
                    assert(before + (option_bytes(o) + options_bytes(views.skip(k + 1), out@.len()))
                        =~= out@ + options_bytes(views.skip(k + 1), out@.len()));
                },
                None => {
                    assert(out@ + Seq::<u8>::empty() =~= out@);
                    break;
                },
            }
            k = k + 1;
            proof {
                if k == self.options@.len() {
                    assert(out@ + Seq::<u8>::empty() =~= out@);
                }
            }
        }
        out.push(END);
        assert(out@ =~= packet_bytes(self@));
        out
    }

    /// Writes the packet to the start of `p`, pads with zeros up to
    /// `WIRE_MAX` where `p` is that long, and returns the written part.
    pub fn encode<'a>(&self, p: &'a mut [u8]) -> (r: &'a [u8])
        requires
            old(p)@.len() >= packet_bytes(self@).len(),
        ensures
            r@ == packet_bytes(self@),
            final(p)@ == packet_bytes(self@) + padding(
                packet_bytes(self@).len(),
                old(p)@,
            ),
    {
        let wire = self.to_wire();
        let n = wire.len();
        proof {
            encoded_length_bounds(self@);
        }
        let mut i: usize = 0;
        while i < n
            invariant
                i <= n,
                n == wire@.len(),
                p@.len() == old(p)@.len(),
                n <= p@.len(),
                p@ == wire@.take(i as int) + old(p)@.skip(i as int),
            decreases n - i,
        {
            p[i] = wire[i];
            i = i + 1;
            assert(p@ =~= wire@.take(i as int) + old(p)@.skip(i as int));
        }
        let ghost written = p@;
        assert(wire@.take(n as int) =~= wire@);
        if p.len() >= WIRE_MAX {
            while i < WIRE_MAX
                invariant
                    n <= i <= WIRE_MAX <= p@.len(),
                    written.len() == p@.len(),
                    p@ == written.take(n as int) + Seq::new((i - n) as nat, |j: int| PAD)
                        + written.skip(i as int),
                decreases WIRE_MAX - i,
            {
                p[i] = PAD;
                i = i + 1;
                assert(p@ =~= written.take(n as int) + Seq::new((i - n) as nat, |j: int| PAD)
                    + written.skip(i as int));
            }
        }
        assert(p@ =~= wire@ + padding(n as nat, old(p)@));
        assert(p@.subrange(0, n as int) =~= wire@);
        slice_subrange(p, 0, n)
    }
}

/// What stands behind the first `used` bytes of a buffer after encoding:
/// zeros up to `WIRE_MAX` where the buffer reaches that far, and then what
/// stood there before.
pub open spec fn padding(used: nat, before: Seq<u8>) -> Seq<u8> {
    if before.len() < WIRE_MAX {
        before.skip(used as int)
    } else {
        Seq::new((WIRE_MAX - used) as nat, |i: int| PAD) + before.skip(WIRE_MAX as int)
    }
}

// ---------------------------------------------------------------------------
// What decoding gives back of what was encoded
// ---------------------------------------------------------------------------

/// Whether an option that was encoded is read as itself. Router and name
/// server lists are not, nor is a raw option whose code stands for a typed one
/// or for END.
pub open spec fn reads_back(o: OptionView) -> bool {
    match o {
        OptionView::Router(_) => false,
        OptionView::DomainNameServer(_) => false,
        OptionView::Unrecognized(code, _) => {
            &&& code != END
            &&& code != DHCP_MESSAGE_TYPE
            &&& code != PARAMETER_REQUEST_LIST
            &&& code != SERVER_IDENTIFIER
            &&& code != REQUESTED_IP_ADDRESS
            &&& code != HOST_NAME
            &&& code != ROUTER
            &&& code != DOMAIN_NAME_SERVER
            &&& code != IP_ADDRESS_LEASE_TIME
            &&& code != SUBNET_MASK
            &&& code != MESSAGE
        },
        _ => true,
    }
}

/// Whether all of `opts` fit on the wire behind `used` bytes.
pub open spec fn all_fit(opts: Seq<OptionView>, used: nat) -> bool
    decreases opts.len(),
{
    opts.len() > 0 ==> {
        let end = used + 2 + opts.first().payload().len();
        end < WIRE_MAX && all_fit(opts.drop_first(), end)
    }
}

proof fn lemma_leading_addr(a: Ipv4Addr)
    ensures
        leading_addr(a.spec_octets()) == Ok::<Ipv4Addr, CustomErr<Seq<u8>>>(a),
{
    let s = a.spec_octets();
    lemma_be_bytes_len(a.bits as nat, 4);
    lemma_byte_ranges();
    lemma_value_of_bytes(a.bits as nat, 4);
    reveal_with_fuel(be_value, 5);
}

proof fn lemma_payload_reads_back(o: OptionView)
    requires
        reads_back(o),
    ensures
        payload_option(o.code(), o.payload()) == Ok::<OptionView, CustomErr<Seq<u8>>>(o),
{
    match o {
        OptionView::ServerIdentifier(a) => lemma_leading_addr(a),
        OptionView::RequestedIpAddress(a) => lemma_leading_addr(a),
        OptionView::SubnetMask(a) => lemma_leading_addr(a),
        OptionView::HostName(s) => lemma_utf8_text_of_encoded(s),
        OptionView::Message(s) => lemma_utf8_text_of_encoded(s),
        OptionView::IpAddressLeaseTime(t) => {
            lemma_byte_ranges();
            lemma_be_bytes_len(t as nat, 4);
            lemma_value_of_bytes(t as nat, 4);
            assert(o.payload().take(4) =~= o.payload());
        },
        OptionView::DhcpMessageType(t) => lemma_message_type_value(t, t.spec_value()),
        _ => {},
    }
}

/// An option that was encoded is decoded as itself, whatever bytes follow.
pub proof fn option_round_trip(o: OptionView, rest: Seq<u8>)
    requires
        reads_back(o),
        o.payload().len() <= 255,
    ensures
        option_at(option_bytes(o) + rest) == Ok::<(Seq<u8>, OptionView), CustomErr<Seq<u8>>>(
            (rest, o),
        ),
{
    let s = option_bytes(o) + rest;
    let n = o.payload().len();
    lemma_payload_reads_back(o);
    assert(s[1] == n);
    assert(s.subrange(2, 2 + n as int) =~= o.payload());
    assert(s.skip(2 + n as int) =~= rest);
}

proof fn lemma_options_read_back(opts: Seq<OptionView>, used: nat, tail: Seq<u8>)
    requires
        240 <= used,
        opts.len() > 0,
        all_fit(opts, used),
        forall|i: int| 0 <= i < opts.len() ==> reads_back(#[trigger] opts[i]),
        tail.len() > 0,
        tail[0] == END,
    ensures
        options_at(options_bytes(opts, used) + tail) == (opts, tail),
        options_bytes(opts, used).len() > 0,
        options_bytes(opts, used)[0] != END,
    decreases opts.len(),
{
    let o = opts.first();
    let end = used + 2 + o.payload().len();
    let more = options_bytes(opts.drop_first(), end);
    let s = options_bytes(opts, used) + tail;
    assert(reads_back(opts[0]));
    assert(s =~= option_bytes(o) + (more + tail));
    option_round_trip(o, more + tail);
    if opts.len() == 1 {
        assert(more + tail =~= tail);
        assert(opts =~= seq![o]);
    } else {
        assert forall|i: int| 0 <= i < opts.drop_first().len() implies reads_back(
            #[trigger] opts.drop_first()[i],
        ) by {
            assert(opts.drop_first()[i] == opts[i + 1]);
        }
        lemma_options_read_back(opts.drop_first(), end, tail);
        assert((more + tail)[0] == more[0]);
        assert(opts =~= seq![o] + opts.drop_first());
    }
}

/// The header fields stand at fixed offsets and are read back, whatever
/// follows the cookie.
proof fn lemma_header_reads_back(p: PacketView, rest: Seq<u8>)
    requires
        p.chaddr.len() == 6,
    ensures
        has_header(header_bytes(p) + rest),
        (header_bytes(p) + rest).skip(240) == rest,
        packet_of(header_bytes(p) + rest) == Ok::<PacketView, CustomErr<Seq<u8>>>(
            PacketView { broadcast: false, options: options_at(rest).0, ..p },
        ),
{
    broadcast use lemma_be_bytes_len;

    let s = header_bytes(p) + rest;
    lemma_byte_ranges();
    assert(s.subrange(236, 240) =~= cookie());
    assert(s.skip(240) =~= rest);
    assert(s.subrange(4, 8) =~= be_bytes(p.xid as nat, 4));
    lemma_value_of_bytes(p.xid as nat, 4);
    assert(s.subrange(8, 10) =~= be_bytes(p.secs as nat, 2));
    lemma_value_of_bytes(p.secs as nat, 2);
    assert(s.subrange(12, 16) =~= p.ciaddr.spec_octets());
    assert(s.subrange(16, 20) =~= p.yiaddr.spec_octets());
    assert(s.subrange(20, 24) =~= p.siaddr.spec_octets());
    assert(s.subrange(24, 28) =~= p.giaddr.spec_octets());
    lemma_leading_addr(p.ciaddr);
    lemma_leading_addr(p.yiaddr);
    lemma_leading_addr(p.siaddr);
    lemma_leading_addr(p.giaddr);
    assert(s[12] == s.subrange(12, 16)[0] && s[13] == s.subrange(12, 16)[1] && s[14]
        == s.subrange(12, 16)[2] && s[15] == s.subrange(12, 16)[3]);
    assert(s[16] == s.subrange(16, 20)[0] && s[17] == s.subrange(16, 20)[1] && s[18]
        == s.subrange(16, 20)[2] && s[19] == s.subrange(16, 20)[3]);
    assert(s[20] == s.subrange(20, 24)[0] && s[21] == s.subrange(20, 24)[1] && s[22]
        == s.subrange(20, 24)[2] && s[23] == s.subrange(20, 24)[3]);
    assert(s[24] == s.subrange(24, 28)[0] && s[25] == s.subrange(24, 28)[1] && s[26]
        == s.subrange(24, 28)[2] && s[27] == s.subrange(24, 28)[3]);
    assert(s.subrange(28, 34) =~= p.chaddr);
}

/// A packet whose options fit and read back is decoded as itself from what
/// was encoded, with or without padding behind it; only the broadcast flag is
/// lost, because it is written to one bit of the flags field and read from
/// another.
pub proof fn packet_round_trip(p: PacketView, pad: Seq<u8>)
    requires
        p.chaddr.len() == 6,
        p.options.len() > 0,
        all_fit(p.options, 240),
        forall|i: int| 0 <= i < p.options.len() ==> reads_back(#[trigger] p.options[i]),
    ensures
        decodable(packet_bytes(p) + pad),
        packet_of(packet_bytes(p) + pad) == Ok::<PacketView, CustomErr<Seq<u8>>>(
            PacketView { broadcast: false, ..p },
        ),
{
    let tail = seq![END] + pad;
    let rest = options_bytes(p.options, 240) + tail;
    assert(packet_bytes(p) + pad =~= header_bytes(p) + rest);
    lemma_options_read_back(p.options, 240, tail);
    lemma_header_reads_back(p, rest);
    assert((header_bytes(p) + rest)[240] == (header_bytes(p) + rest).skip(240)[0]);
}

} // verus!
