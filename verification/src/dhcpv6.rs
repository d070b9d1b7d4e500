//! DHCPv6 datagrams (RFC 8415): decoding and encoding.
//!
//! On the wire a datagram is a message type (1 octet), a transaction id
//! (3 octets) and options up to its end. There is no END byte and no PAD: an
//! option is a code and a length, both 16 bits wide, and its data. Decoding is
//! strict, so that any truncated or malformed option rejects the whole
//! datagram.

use vstd::prelude::*;
use vstd::slice::{slice_subrange, slice_to_vec};
use vstd::utf8::*;

use crate::net::Ipv6Addr;
pub use crate::pool6::V6Pool;
use crate::text::{
    decode_text, lemma_encoded_of_utf8_text, lemma_utf8_text_of_encoded, utf8_text,
};
use crate::wire::{
    be_bytes, be_value, lemma_be_bytes_len, lemma_be_value_bound, lemma_byte_ranges,
    lemma_bytes_of_value, lemma_value_of_bytes, push_slice, push_u128, push_u16, push_u32,
    read_u128, read_u16, read_u32,
};

verus! {

// ---------------------------------------------------------------------------
// Message types
// ---------------------------------------------------------------------------

/// DHCPv6 message types (RFC 8415 section 7.3).
#[derive(Copy, Clone, PartialEq, Eq, Debug, Structural)]
pub enum MsgType {
    Solicit,
    Advertise,
    Request,
    Confirm,
    Renew,
    Rebind,
    Reply,
    Release,
    Decline,
    Reconfigure,
    InformationRequest,
    RelayForward,
    RelayReply,
}

/// The message type with the wire value `v`.
pub open spec fn msg_type_of(v: u8) -> Option<MsgType> {
    match v {
        1 => Some(MsgType::Solicit),
        2 => Some(MsgType::Advertise),
        3 => Some(MsgType::Request),
        4 => Some(MsgType::Confirm),
        5 => Some(MsgType::Renew),
        6 => Some(MsgType::Rebind),
        7 => Some(MsgType::Reply),
        8 => Some(MsgType::Release),
        9 => Some(MsgType::Decline),
        10 => Some(MsgType::Reconfigure),
        11 => Some(MsgType::InformationRequest),
        12 => Some(MsgType::RelayForward),
        13 => Some(MsgType::RelayReply),
        _ => None,
    }
}

impl MsgType {
    /// The wire value.
    pub open spec fn spec_value(self) -> u8 {
        match self {
            MsgType::Solicit => 1,
            MsgType::Advertise => 2,
            MsgType::Request => 3,
            MsgType::Confirm => 4,
            MsgType::Renew => 5,
            MsgType::Rebind => 6,
            MsgType::Reply => 7,
            MsgType::Release => 8,
            MsgType::Decline => 9,
            MsgType::Reconfigure => 10,
            MsgType::InformationRequest => 11,
            MsgType::RelayForward => 12,
            MsgType::RelayReply => 13,
        }
    }

    /// The wire value.
    pub fn value(self) -> (r: u8)
        ensures
            r == self.spec_value(),
    {
        match self {
            MsgType::Solicit => 1,
            MsgType::Advertise => 2,
            MsgType::Request => 3,
            MsgType::Confirm => 4,
            MsgType::Renew => 5,
            MsgType::Rebind => 6,
            MsgType::Reply => 7,
            MsgType::Release => 8,
            MsgType::Decline => 9,
            MsgType::Reconfigure => 10,
            MsgType::InformationRequest => 11,
            MsgType::RelayForward => 12,
            MsgType::RelayReply => 13,
        }
    }

    /// The message type with the wire value `val`.
    pub fn from(val: u8) -> (r: Result<MsgType, DecodeError>)
        ensures
            r == match msg_type_of(val) {
                Some(t) => Ok::<MsgType, DecodeError>(t),
                None => Err::<MsgType, DecodeError>(DecodeError::BadMessageType(val)),
            },
    {
        match val {
            1 => Ok(MsgType::Solicit),
            2 => Ok(MsgType::Advertise),
            3 => Ok(MsgType::Request),
            4 => Ok(MsgType::Confirm),
            5 => Ok(MsgType::Renew),
            6 => Ok(MsgType::Rebind),
            7 => Ok(MsgType::Reply),
            8 => Ok(MsgType::Release),
            9 => Ok(MsgType::Decline),
            10 => Ok(MsgType::Reconfigure),
            11 => Ok(MsgType::InformationRequest),
            12 => Ok(MsgType::RelayForward),
            13 => Ok(MsgType::RelayReply),
            _ => Err(DecodeError::BadMessageType(val)),
        }
    }
}

/// Every message type is the one that its wire value stands for, and no other
/// value stands for it.
pub proof fn msg_type_values(t: MsgType, v: u8)
    ensures
        msg_type_of(v) == Some(t) <==> v == t.spec_value(),
{
}

// ---------------------------------------------------------------------------
// Errors
// ---------------------------------------------------------------------------

/// Why a datagram or an option cannot be decoded.
#[derive(Debug, Clone, PartialEq, Eq, Structural)]
pub enum DecodeError {
    /// Fewer bytes than the header or the declared length requires.
    Truncated,
    /// Unknown message type byte.
    BadMessageType(u8),
    /// A text is not valid UTF-8.
    BadUtf8,
    /// Well framed but inconsistent inside: a short IA_NA, IA Address or
    /// status, or name servers whose length is not a multiple of 16.
    Malformed,
}

/// Why a packet cannot be encoded.
#[derive(Debug, Clone, PartialEq, Eq, Structural)]
pub enum EncodeError {
    /// The payload of one option exceeds the 16-bit length field.
    OptionTooLarge,
}

// ---------------------------------------------------------------------------
// Option codes
// ---------------------------------------------------------------------------

pub const OPT_CLIENTID: u16 = 1;

pub const OPT_SERVERID: u16 = 2;

pub const OPT_IA_NA: u16 = 3;

pub const OPT_IA_TA: u16 = 4;

pub const OPT_IAADDR: u16 = 5;

pub const OPT_ORO: u16 = 6;

pub const OPT_PREFERENCE: u16 = 7;

pub const OPT_ELAPSED_TIME: u16 = 8;

pub const OPT_RELAY_MSG: u16 = 9;

pub const OPT_AUTH: u16 = 11;

pub const OPT_UNICAST: u16 = 12;

pub const OPT_STATUS_CODE: u16 = 13;

pub const OPT_RAPID_COMMIT: u16 = 14;

pub const OPT_USER_CLASS: u16 = 15;

pub const OPT_VENDOR_CLASS: u16 = 16;

pub const OPT_VENDOR_OPTS: u16 = 17;

pub const OPT_INTERFACE_ID: u16 = 18;

pub const OPT_RECONF_MSG: u16 = 19;

pub const OPT_RECONF_ACCEPT: u16 = 20;

pub const OPT_DNS_SERVERS: u16 = 23;

pub const OPT_DOMAIN_LIST: u16 = 24;

pub const OPT_IA_PD: u16 = 25;

pub const OPT_IAPREFIX: u16 = 26;

/// Status code for success (RFC 8415 section 21.13).
pub const STATUS_SUCCESS: u16 = 0;

/// Status code for want of addresses.
pub const STATUS_NO_ADDRS_AVAIL: u16 = 2;

/// The title of an option code, if it is a known one.
pub open spec fn title_of(code: u16) -> Option<Seq<char>> {
    match code {
        1 => Some("Client Identifier"@),
        2 => Some("Server Identifier"@),
        3 => Some("Identity Association for Non-temporary Addresses"@),
        4 => Some("Identity Association for Temporary Addresses"@),
        5 => Some("IA Address"@),
        6 => Some("Option Request"@),
        7 => Some("Preference"@),
        8 => Some("Elapsed Time"@),
        9 => Some("Relay Message"@),
        11 => Some("Authentication"@),
        12 => Some("Server Unicast"@),
        13 => Some("Status Code"@),
        14 => Some("Rapid Commit"@),
        15 => Some("User Class"@),
        16 => Some("Vendor Class"@),
        17 => Some("Vendor-specific Information"@),
        18 => Some("Interface-Id"@),
        19 => Some("Reconfigure Message"@),
        20 => Some("Reconfigure Accept"@),
        23 => Some("DNS Recursive Name Server"@),
        24 => Some("Domain Search List"@),
        25 => Some("Identity Association for Prefix Delegation"@),
        26 => Some("IA Prefix"@),
        _ => None,
    }
}

/// Human-readable title for known option codes, if any.
pub fn title(code: u16) -> (r: Option<&'static str>)
    ensures
        match r {
            Some(s) => title_of(code) == Some(s@),
            None => title_of(code) is None,
        },
{
    Some(
        match code {
            OPT_CLIENTID => "Client Identifier",
            OPT_SERVERID => "Server Identifier",
            OPT_IA_NA => "Identity Association for Non-temporary Addresses",
            OPT_IA_TA => "Identity Association for Temporary Addresses",
            OPT_IAADDR => "IA Address",
            OPT_ORO => "Option Request",
            OPT_PREFERENCE => "Preference",
            OPT_ELAPSED_TIME => "Elapsed Time",
            OPT_RELAY_MSG => "Relay Message",
            OPT_AUTH => "Authentication",
            OPT_UNICAST => "Server Unicast",
            OPT_STATUS_CODE => "Status Code",
            OPT_RAPID_COMMIT => "Rapid Commit",
            OPT_USER_CLASS => "User Class",
            OPT_VENDOR_CLASS => "Vendor Class",
            OPT_VENDOR_OPTS => "Vendor-specific Information",
            OPT_INTERFACE_ID => "Interface-Id",
            OPT_RECONF_MSG => "Reconfigure Message",
            OPT_RECONF_ACCEPT => "Reconfigure Accept",
            OPT_DNS_SERVERS => "DNS Recursive Name Server",
            OPT_DOMAIN_LIST => "Domain Search List",
            OPT_IA_PD => "Identity Association for Prefix Delegation",
            OPT_IAPREFIX => "IA Prefix",
            _ => return None,
        },
    )
}

// ---------------------------------------------------------------------------
// Options
// ---------------------------------------------------------------------------

/// The body of an IA Address option (RFC 8415 section 21.6): an address with
/// its preferred and valid lifetimes in seconds.
#[derive(Debug, Clone, Copy, PartialEq, Eq, Structural)]
pub struct IaAddr {
    pub addr: Ipv6Addr,
    pub preferred: u32,
    pub valid: u32,
}

/// The body of an IA_NA option (RFC 8415 section 21.4).
#[derive(Debug, Clone, PartialEq)]
pub struct IaNa {
    pub iaid: u32,
    pub t1: u32,
    pub t2: u32,
    pub addrs: Vec<IaAddr>,
}

/// An option as its code and its payload.
#[derive(Debug, Clone, PartialEq)]
pub struct RawDhcpv6Option {
    pub code: u16,
    pub data: Vec<u8>,
}

/// A DHCPv6 option. Anything without a variant of its own is kept as
/// `Unrecognized`.
#[derive(Debug, Clone, PartialEq)]
pub enum Dhcpv6Option {
    /// Option 1: client DUID.
    ClientId(Vec<u8>),
    /// Option 2: server DUID.
    ServerId(Vec<u8>),
    /// Option 3: identity association for non-temporary addresses.
    IaNa(IaNa),
    /// Option 23 (RFC 3646): recursive name servers.
    DnsServers(Vec<Ipv6Addr>),
    /// Option 13: status code and message.
    StatusCode(u16, String),
    Unrecognized(RawDhcpv6Option),
}

/// What an IA_NA says.
pub struct IaNaView {
    pub iaid: u32,
    pub t1: u32,
    pub t2: u32,
    pub addrs: Seq<IaAddr>,
}

impl View for IaNa {
    type V = IaNaView;

    open spec fn view(&self) -> IaNaView {
        IaNaView { iaid: self.iaid, t1: self.t1, t2: self.t2, addrs: self.addrs@ }
    }
}

/// What an option says.
pub enum Option6View {
    ClientId(Seq<u8>),
    ServerId(Seq<u8>),
    IaNa(IaNaView),
    DnsServers(Seq<Ipv6Addr>),
    StatusCode(u16, Seq<char>),
    Unrecognized(u16, Seq<u8>),
}

impl View for Dhcpv6Option {
    type V = Option6View;

    open spec fn view(&self) -> Option6View {
        match self {
            Dhcpv6Option::ClientId(d) => Option6View::ClientId(d@),
            Dhcpv6Option::ServerId(d) => Option6View::ServerId(d@),
            Dhcpv6Option::IaNa(ia) => Option6View::IaNa(ia@),
            Dhcpv6Option::DnsServers(a) => Option6View::DnsServers(a@),
            Dhcpv6Option::StatusCode(c, m) => Option6View::StatusCode(*c, m@),
            Dhcpv6Option::Unrecognized(r) => Option6View::Unrecognized(r.code, r.data@),
        }
    }
}

/// What each of `opts` says.
pub open spec fn option6_views(opts: Seq<Dhcpv6Option>) -> Seq<Option6View> {
    opts.map_values(|o: Dhcpv6Option| o@)
}

/// An IA Address option on the wire.
pub open spec fn iaaddr_bytes(a: IaAddr) -> Seq<u8> {
    be_bytes(OPT_IAADDR as nat, 2) + be_bytes(24, 2) + a.addr.spec_octets() + be_bytes(
        a.preferred as nat,
        4,
    ) + be_bytes(a.valid as nat, 4)
}

/// IA Address options, one after the other.
pub open spec fn iaaddrs_bytes(addrs: Seq<IaAddr>) -> Seq<u8>
    decreases addrs.len(),
{
    if addrs.len() == 0 {
        Seq::empty()
    } else {
        iaaddr_bytes(addrs.first()) + iaaddrs_bytes(addrs.drop_first())
    }
}

/// The octets of `addrs`, one address after the other.
pub open spec fn addrs6_octets(addrs: Seq<Ipv6Addr>) -> Seq<u8>
    decreases addrs.len(),
{
    if addrs.len() == 0 {
        Seq::empty()
    } else {
        addrs.first().spec_octets() + addrs6_octets(addrs.drop_first())
    }
}

pub broadcast proof fn lemma_iaaddrs_bytes_len(addrs: Seq<IaAddr>)
    ensures
        #[trigger] iaaddrs_bytes(addrs).len() == 28 * addrs.len(),
    decreases addrs.len(),
{
    broadcast use lemma_be_bytes_len;

    if addrs.len() > 0 {
        lemma_iaaddrs_bytes_len(addrs.drop_first());
    }
}

pub broadcast proof fn lemma_addrs6_octets_len(addrs: Seq<Ipv6Addr>)
    ensures
        #[trigger] addrs6_octets(addrs).len() == 16 * addrs.len(),
    decreases addrs.len(),
{
    broadcast use lemma_be_bytes_len;

    if addrs.len() > 0 {
        lemma_addrs6_octets_len(addrs.drop_first());
    }
}

impl Option6View {
    pub open spec fn code(self) -> u16 {
        match self {
            Option6View::ClientId(_) => OPT_CLIENTID,
            Option6View::ServerId(_) => OPT_SERVERID,
            Option6View::IaNa(_) => OPT_IA_NA,
            Option6View::DnsServers(_) => OPT_DNS_SERVERS,
            Option6View::StatusCode(_, _) => OPT_STATUS_CODE,
            Option6View::Unrecognized(code, _) => code,
        }
    }

    /// The payload on the wire.
    pub open spec fn payload(self) -> Seq<u8> {
        match self {
            Option6View::ClientId(d) => d,
            Option6View::ServerId(d) => d,
            Option6View::IaNa(ia) => be_bytes(ia.iaid as nat, 4) + be_bytes(ia.t1 as nat, 4)
                + be_bytes(ia.t2 as nat, 4) + iaaddrs_bytes(ia.addrs),
            Option6View::DnsServers(a) => addrs6_octets(a),
            Option6View::StatusCode(c, m) => be_bytes(c as nat, 2) + encode_utf8(m),
            Option6View::Unrecognized(_, d) => d,
        }
    }

    /// The option on the wire.
    pub open spec fn bytes(self) -> Seq<u8> {
        be_bytes(self.code() as nat, 2) + be_bytes(self.payload().len(), 2) + self.payload()
    }
}

fn push_iaaddrs(out: &mut Vec<u8>, addrs: &[IaAddr])
    ensures
        final(out)@ == old(out)@ + iaaddrs_bytes(addrs@),
{
    let mut i: usize = 0;
    assert(addrs@.skip(0) =~= addrs@);
    while i < addrs.len()
        invariant
            i <= addrs@.len(),
            out@ + iaaddrs_bytes(addrs@.skip(i as int)) == old(out)@ + iaaddrs_bytes(addrs@),
        decreases addrs@.len() - i,
    {
        let ghost before = out@;
        let a = addrs[i];
        push_u16(out, OPT_IAADDR);
        push_u16(out, 24);
        push_u128(out, a.addr.bits);
        push_u32(out, a.preferred);
        push_u32(out, a.valid);
        assert(addrs@.skip(i as int).drop_first() =~= addrs@.skip(i + 1));
        assert(out@ =~= before + iaaddr_bytes(a));
        assert(out@ + iaaddrs_bytes(addrs@.skip(i + 1)) =~= before + iaaddrs_bytes(
            addrs@.skip(i as int),
        ));
        i = i + 1;
    }
    assert(out@ + iaaddrs_bytes(addrs@.skip(i as int)) =~= out@);
}

fn push_addrs6(out: &mut Vec<u8>, addrs: &[Ipv6Addr])
    ensures
        final(out)@ == old(out)@ + addrs6_octets(addrs@),
{
    let mut i: usize = 0;
    assert(addrs@.skip(0) =~= addrs@);
    while i < addrs.len()
        invariant
            i <= addrs@.len(),
            out@ + addrs6_octets(addrs@.skip(i as int)) == old(out)@ + addrs6_octets(addrs@),
        decreases addrs@.len() - i,
    {
        let ghost before = out@;
        push_u128(out, addrs[i].bits);
        assert(addrs@.skip(i as int).drop_first() =~= addrs@.skip(i + 1));
        assert(out@ + addrs6_octets(addrs@.skip(i + 1)) =~= before + addrs6_octets(
            addrs@.skip(i as int),
        ));
        i = i + 1;
    }
    assert(out@ + addrs6_octets(addrs@.skip(i as int)) =~= out@);
}

impl Dhcpv6Option {
    pub fn code(&self) -> (r: u16)
        ensures
            r == self@.code(),
    {
        match self {
            Dhcpv6Option::ClientId(_) => OPT_CLIENTID,
            Dhcpv6Option::ServerId(_) => OPT_SERVERID,
            Dhcpv6Option::IaNa(_) => OPT_IA_NA,
            Dhcpv6Option::DnsServers(_) => OPT_DNS_SERVERS,
            Dhcpv6Option::StatusCode(_, _) => OPT_STATUS_CODE,
            Dhcpv6Option::Unrecognized(r) => r.code,
        }
    }

    /// The length of the option on the wire, which has to be a `usize`.
    pub fn wire_len(&self) -> (r: usize)
        requires
            4 + self@.payload().len() <= usize::MAX,
        ensures
            r == 4 + self@.payload().len(),
            self@.payload().len() <= 0xffff ==> r == self@.bytes().len(),
    {
        broadcast use {lemma_be_bytes_len, lemma_iaaddrs_bytes_len, lemma_addrs6_octets_len};

        match self {
            Dhcpv6Option::ClientId(d) => 4 + d.len(),
            Dhcpv6Option::ServerId(d) => 4 + d.len(),
            Dhcpv6Option::Unrecognized(r) => 4 + r.data.len(),
            Dhcpv6Option::DnsServers(a) => 4 + a.len() * 16,
            Dhcpv6Option::StatusCode(_, m) => 4 + (2 + m.as_str().as_bytes().len()),
            Dhcpv6Option::IaNa(ia) => 4 + (12 + ia.addrs.len() * 28),
        }
    }

    /// The length of the payload where it fits the length field.
    fn payload_len(&self) -> (r: Option<u16>)
        ensures
            match r {
                Some(n) => n == self@.payload().len(),
                None => self@.payload().len() > 0xffff,
            },
    {
        broadcast use {lemma_be_bytes_len, lemma_iaaddrs_bytes_len, lemma_addrs6_octets_len};

        let n: usize = match self {
            Dhcpv6Option::ClientId(d) => d.len(),
            Dhcpv6Option::ServerId(d) => d.len(),
            Dhcpv6Option::Unrecognized(r) => r.data.len(),
            Dhcpv6Option::DnsServers(a) => {
                if a.len() > 0xffff {
                    return None;
                }
                a.len() * 16
            },
            Dhcpv6Option::StatusCode(_, m) => {
                let n = m.as_str().as_bytes().len();
                if n > 0xffff {
                    return None;
                }
                2 + n
            },
            Dhcpv6Option::IaNa(ia) => {
                if ia.addrs.len() > 0xffff {
                    return None;
                }
                12 + ia.addrs.len() * 28
            },
        };
        if n > 0xffff {
            None
        } else {
            Some(n as u16)
        }
    }

    /// Appends the payload.
    fn push_payload(&self, out: &mut Vec<u8>)
        ensures
            final(out)@ == old(out)@ + self@.payload(),
    {
        match self {
            Dhcpv6Option::ClientId(d) => push_slice(out, d.as_slice()),
            Dhcpv6Option::ServerId(d) => push_slice(out, d.as_slice()),
            Dhcpv6Option::Unrecognized(r) => push_slice(out, r.data.as_slice()),
            Dhcpv6Option::DnsServers(a) => push_addrs6(out, a.as_slice()),
            Dhcpv6Option::StatusCode(c, m) => {
                push_u16(out, *c);
                push_slice(out, m.as_str().as_bytes());
            },
            Dhcpv6Option::IaNa(ia) => {
                push_u32(out, ia.iaid);
                push_u32(out, ia.t1);
                push_u32(out, ia.t2);
                push_iaaddrs(out, ia.addrs.as_slice());
            },
        }
        assert(out@ =~= old(out)@ + self@.payload());
    }

    /// Appends the option; nothing is appended where the payload is too long.
    pub fn encode_into(&self, out: &mut Vec<u8>) -> (r: Result<(), EncodeError>)
        ensures
            match r {
                Ok(_) => self@.payload().len() <= 0xffff && final(out)@ == old(out)@
                    + self@.bytes(),
                Err(e) => self@.payload().len() > 0xffff && final(out)@ == old(out)@ && e
                    == EncodeError::OptionTooLarge,
            },
    {
        match self.payload_len() {
            None => Err(EncodeError::OptionTooLarge),
            Some(n) => {
                push_u16(out, self.code());
                push_u16(out, n);
                self.push_payload(out);
                assert(out@ =~= old(out)@ + self@.bytes());
                Ok(())
            },
        }
    }

    /// The code and the payload.
    pub fn to_raw(&self) -> (r: RawDhcpv6Option)
        ensures
            r.code == self@.code(),
            r.data@ == self@.payload(),
    {
        let mut data: Vec<u8> = Vec::new();
        self.push_payload(&mut data);
        assert(data@ =~= self@.payload());
        RawDhcpv6Option { code: self.code(), data }
    }
}

// ---------------------------------------------------------------------------
// Decoding
// ---------------------------------------------------------------------------

/// Reads two bytes; returns what is left and the number.
pub fn be_u16<'a>(input: &'a [u8]) -> (r: Result<(&'a [u8], u16), DecodeError>)
    ensures
        match r {
            Ok((rest, v)) => {
                &&& input@.len() >= 2
                &&& rest@ == input@.skip(2)
                &&& v as nat == be_value(input@.take(2))
            },
            Err(e) => input@.len() < 2 && e == DecodeError::Truncated,
        },
{
    if input.len() < 2 {
        return Err(DecodeError::Truncated);
    }
    let rest = slice_subrange(input, 2, input.len());
    assert(rest@ =~= input@.skip(2));
    assert(input@.take(2) =~= input@.subrange(0, 2));
    Ok((rest, read_u16(input, 0)))
}

/// Reads four bytes; returns what is left and the number.
pub fn be_u32<'a>(input: &'a [u8]) -> (r: Result<(&'a [u8], u32), DecodeError>)
    ensures
        match r {
            Ok((rest, v)) => {
                &&& input@.len() >= 4
                &&& rest@ == input@.skip(4)
                &&& v as nat == be_value(input@.take(4))
            },
            Err(e) => input@.len() < 4 && e == DecodeError::Truncated,
        },
{
    if input.len() < 4 {
        return Err(DecodeError::Truncated);
    }
    let rest = slice_subrange(input, 4, input.len());
    assert(rest@ =~= input@.skip(4));
    assert(input@.take(4) =~= input@.subrange(0, 4));
    Ok((rest, read_u32(input, 0)))
}

/// Takes `n` bytes; returns what is left and those bytes.
pub fn take<'a>(input: &'a [u8], n: usize) -> (r: Result<(&'a [u8], &'a [u8]), DecodeError>)
    ensures
        match r {
            Ok((rest, head)) => {
                &&& input@.len() >= n
                &&& rest@ == input@.skip(n as int)
                &&& head@ == input@.take(n as int)
            },
            Err(e) => input@.len() < n && e == DecodeError::Truncated,
        },
{
    if input.len() < n {
        return Err(DecodeError::Truncated);
    }
    let rest = slice_subrange(input, n, input.len());
    let head = slice_subrange(input, 0, n);
    assert(rest@ =~= input@.skip(n as int));
    assert(head@ =~= input@.take(n as int));
    Ok((rest, head))
}

/// The code, the payload and what follows of the option at the start of `s`.
pub open spec fn frame_at(s: Seq<u8>) -> Option<(u16, Seq<u8>, Seq<u8>)> {
    if s.len() < 4 {
        None
    } else {
        let n = be_value(s.subrange(2, 4));
        if s.len() - 4 < n {
            None
        } else {
            Some(
                (
                    be_value(s.take(2)) as u16,
                    s.subrange(4, 4 + n as int),
                    s.skip(4 + n as int),
                ),
            )
        }
    }
}

/// The address in the first sixteen bytes of `s`.
pub open spec fn addr6_at(s: Seq<u8>) -> Ipv6Addr {
    Ipv6Addr { bits: be_value(s.take(16)) as u128 }
}

/// The IA Address that the first 24 bytes of `body` hold; what follows them is
/// ignored.
pub open spec fn iaaddr_of(body: Seq<u8>) -> IaAddr {
    IaAddr {
        addr: addr6_at(body),
        preferred: be_value(body.subrange(16, 20)) as u32,
        valid: be_value(body.subrange(20, 24)) as u32,
    }
}

/// The IA Addresses among the sub-options `s`; other sub-options are skipped.
pub open spec fn iaaddrs_of(s: Seq<u8>) -> Result<Seq<IaAddr>, DecodeError>
    decreases s.len(),
{
    if s.len() == 0 {
        Ok(Seq::empty())
    } else {
        match frame_at(s) {
            None => Err(DecodeError::Malformed),
            Some((code, body, rest)) => if code != OPT_IAADDR {
                iaaddrs_of(rest)
            } else if body.len() < 24 {
                Err(DecodeError::Malformed)
            } else {
                match iaaddrs_of(rest) {
                    Ok(more) => Ok(seq![iaaddr_of(body)] + more),
                    Err(e) => Err(e),
                }
            },
        }
    }
}

/// The IA_NA that `data` holds.
pub open spec fn iana_of(data: Seq<u8>) -> Result<IaNaView, DecodeError> {
    if data.len() < 12 {
        Err(DecodeError::Malformed)
    } else {
        match iaaddrs_of(data.skip(12)) {
            Ok(addrs) => Ok(
                IaNaView {
                    iaid: be_value(data.subrange(0, 4)) as u32,
                    t1: be_value(data.subrange(4, 8)) as u32,
                    t2: be_value(data.subrange(8, 12)) as u32,
                    addrs,
                },
            ),
            Err(e) => Err(e),
        }
    }
}

/// The addresses that `data` lists, sixteen bytes each.
pub open spec fn addrs6_of(data: Seq<u8>) -> Seq<Ipv6Addr>
    decreases data.len(),
{
    if data.len() < 16 {
        Seq::empty()
    } else {
        seq![addr6_at(data)] + addrs6_of(data.skip(16))
    }
}

/// What the payload `data` of an option with the given code says.
pub open spec fn payload6_option(code: u16, data: Seq<u8>) -> Result<Option6View, DecodeError> {
    if code == OPT_CLIENTID {
        Ok(Option6View::ClientId(data))
    } else if code == OPT_SERVERID {
        Ok(Option6View::ServerId(data))
    } else if code == OPT_IA_NA {
        match iana_of(data) {
            Ok(ia) => Ok(Option6View::IaNa(ia)),
            Err(e) => Err(e),
        }
    } else if code == OPT_DNS_SERVERS {
        if data.len() % 16 != 0 {
            Err(DecodeError::Malformed)
        } else {
            Ok(Option6View::DnsServers(addrs6_of(data)))
        }
    } else if code == OPT_STATUS_CODE {
        if data.len() < 2 {
            Err(DecodeError::Malformed)
        } else {
            match utf8_text(data.skip(2)) {
                Some(m) => Ok(Option6View::StatusCode(be_value(data.take(2)) as u16, m)),
                None => Err(DecodeError::BadUtf8),
            }
        }
    } else {
        Ok(Option6View::Unrecognized(code, data))
    }
}

/// The option at the start of `s` and the bytes after it.
pub open spec fn option6_at(s: Seq<u8>) -> Result<(Seq<u8>, Option6View), DecodeError> {
    match frame_at(s) {
        None => Err(DecodeError::Truncated),
        Some((code, data, rest)) => match payload6_option(code, data) {
            Ok(o) => Ok((rest, o)),
            Err(e) => Err(e),
        },
    }
}

/// The options that make up `s`, or the first error.
pub open spec fn options6_of(s: Seq<u8>) -> Result<Seq<Option6View>, DecodeError>
    decreases s.len(),
{
    if s.len() == 0 {
        Ok(Seq::empty())
    } else {
        match option6_at(s) {
            Err(e) => Err(e),
            Ok((rest, o)) => match options6_of(rest) {
                Ok(more) => Ok(seq![o] + more),
                Err(e) => Err(e),
            },
        }
    }
}

/// Splits off the option at the start of `input`: its code, its payload and
/// what follows.
fn frame<'a>(input: &'a [u8]) -> (r: Option<(u16, &'a [u8], &'a [u8])>)
    ensures
        match r {
            Some((code, data, rest)) => frame_at(input@) == Some((code, data@, rest@)),
            None => frame_at(input@) is None,
        },
{
    if input.len() < 4 {
        return None;
    }
    match be_u16(input) {
        Err(_) => None,
        Ok((after_code, code)) => match be_u16(after_code) {
            Err(_) => None,
            Ok((after_len, len)) => {
                assert(after_code@.take(2) =~= input@.subrange(2, 4));
                assert(after_len@ =~= input@.skip(4));
                match take(after_len, len as usize) {
                    Err(_) => None,
                    Ok((rest, data)) => {
                        assert(data@ =~= input@.subrange(4, 4 + len as int));
                        assert(rest@ =~= input@.skip(4 + len as int));
                        Some((code, data, rest))
                    },
                }
            },
        },
    }
}

fn decode_iana(data: &[u8]) -> (r: Result<IaNa, DecodeError>)
    ensures
        match r {
            Ok(ia) => iana_of(data@) == Ok::<IaNaView, DecodeError>(ia@),
            Err(e) => iana_of(data@) == Err::<IaNaView, DecodeError>(e),
        },
{
    if data.len() < 12 {
        return Err(DecodeError::Malformed);
    }
    let iaid = read_u32(data, 0);
    let t1 = read_u32(data, 4);
    let t2 = read_u32(data, 8);
    let mut rest = slice_subrange(data, 12, data.len());
    assert(rest@ =~= data@.skip(12));
    let mut addrs: Vec<IaAddr> = Vec::new();
    proof {
        match iaaddrs_of(rest@) {
            Ok(more) => assert(addrs@ + more =~= more),
            Err(_) => {},
        }
    }
    while rest.len() > 0
        invariant
            iaaddrs_of(data@.skip(12)) == match iaaddrs_of(rest@) {
                Ok(more) => Ok::<Seq<IaAddr>, DecodeError>(addrs@ + more),
                Err(e) => Err::<Seq<IaAddr>, DecodeError>(e),
            },
            data@.len() >= 12,
        decreases rest@.len(),
    {
        match frame(rest) {
            None => {
                return Err(DecodeError::Malformed);
            },
            Some((code, body, after)) => {
                let ghost before = addrs@;
                if code == OPT_IAADDR {
                    if body.len() < 24 {
                        return Err(DecodeError::Malformed);
                    }
                    assert(body@.take(16) =~= body@.subrange(0, 16));
                    addrs.push(
                        IaAddr {
                            addr: Ipv6Addr::from_bits(read_u128(body, 0)),
                            preferred: read_u32(body, 16),
                            valid: read_u32(body, 20),
                        },
                    );
                    proof {
                        match iaaddrs_of(after@) {
                            Ok(more) => assert(before + (seq![iaaddr_of(body@)] + more) =~= addrs@
                                + more),
                            Err(_) => {},
                        }
                    }
                }
                rest = after;
            },
        }
    }
    assert(addrs@ + Seq::<IaAddr>::empty() =~= addrs@);
    Ok(IaNa { iaid, t1, t2, addrs })
}

fn decode_addrs6(data: &[u8]) -> (r: Vec<Ipv6Addr>)
    ensures
        r@ == addrs6_of(data@),
{
    let n = data.len();
    let mut r: Vec<Ipv6Addr> = Vec::new();
    let mut i: usize = 0;
    assert(data@.skip(0) =~= data@);
    assert(r@ + addrs6_of(data@) =~= addrs6_of(data@));
    while n - i >= 16
        invariant
            i <= n,
            n == data@.len(),
            r@ + addrs6_of(data@.skip(i as int)) == addrs6_of(data@),
        decreases n - i,
    {
        let ghost before = r@;
        let ghost rest = data@.skip(i as int);
        assert(rest.take(16) =~= data@.subrange(i as int, i + 16));
        assert(rest.skip(16) =~= data@.skip(i + 16));
        r.push(Ipv6Addr::from_bits(read_u128(data, i)));
        assert(before + (seq![addr6_at(rest)] + addrs6_of(data@.skip(i + 16))) =~= r@ + addrs6_of(
            data@.skip(i + 16),
        ));
        i = i + 16;
    }
    assert(r@ + Seq::<Ipv6Addr>::empty() =~= r@);
    r
}

/// Decodes one option; returns the remainder and the option.
pub fn decode_option<'a>(input: &'a [u8]) -> (r: Result<(&'a [u8], Dhcpv6Option), DecodeError>)
    ensures
        match r {
            Ok((rest, o)) => option6_at(input@) == Ok::<(Seq<u8>, Option6View), DecodeError>(
                (rest@, o@),
            ),
            Err(e) => option6_at(input@) == Err::<(Seq<u8>, Option6View), DecodeError>(e),
        },
{
    match frame(input) {
        None => Err(DecodeError::Truncated),
        Some((code, data, rest)) => {
            let option = match code {
                OPT_CLIENTID => Dhcpv6Option::ClientId(slice_to_vec(data)),
                OPT_SERVERID => Dhcpv6Option::ServerId(slice_to_vec(data)),
                OPT_IA_NA => match decode_iana(data) {
                    Ok(ia) => Dhcpv6Option::IaNa(ia),
                    Err(e) => return Err(e),
                },
                OPT_DNS_SERVERS => {
                    if data.len() % 16 != 0 {
                        return Err(DecodeError::Malformed);
                    }
                    Dhcpv6Option::DnsServers(decode_addrs6(data))
                },
                OPT_STATUS_CODE => match be_u16(data) {
                    Err(_) => return Err(DecodeError::Malformed),
                    Ok((text, status)) => match decode_text(text) {
                        Some(m) => Dhcpv6Option::StatusCode(status, m),
                        None => return Err(DecodeError::BadUtf8),
                    },
                },
                _ => Dhcpv6Option::Unrecognized(
                    RawDhcpv6Option { code, data: slice_to_vec(data) },
                ),
            };
            Ok((rest, option))
        },
    }
}

// ---------------------------------------------------------------------------
// Packets
// ---------------------------------------------------------------------------

/// A DHCPv6 datagram: message type, 24-bit transaction id and options.
#[derive(Debug, Clone, PartialEq)]
pub struct Packet {
    pub msg_type: MsgType,
    pub transaction_id: u32,
    pub options: Vec<Dhcpv6Option>,
}

/// What a datagram says.
pub struct Packet6View {
    pub msg_type: MsgType,
    pub transaction_id: u32,
    pub options: Seq<Option6View>,
}

impl View for Packet {
    type V = Packet6View;

    open spec fn view(&self) -> Packet6View {
        Packet6View {
            msg_type: self.msg_type,
            transaction_id: self.transaction_id,
            options: option6_views(self.options@),
        }
    }
}

/// The datagram that `input` holds.
pub open spec fn packet6_of(input: Seq<u8>) -> Result<Packet6View, DecodeError> {
    if input.len() < 4 {
        Err(DecodeError::Truncated)
    } else {
        match msg_type_of(input[0]) {
            None => Err(DecodeError::BadMessageType(input[0])),
            Some(t) => match options6_of(input.skip(4)) {
                Err(e) => Err(e),
                Ok(options) => Ok(
                    Packet6View {
                        msg_type: t,
                        transaction_id: be_value(input.subrange(1, 4)) as u32,
                        options,
                    },
                ),
            },
        }
    }
}

/// Options on the wire, one after the other.
pub open spec fn options6_bytes(opts: Seq<Option6View>) -> Seq<u8>
    decreases opts.len(),
{
    if opts.len() == 0 {
        Seq::empty()
    } else {
        opts.first().bytes() + options6_bytes(opts.drop_first())
    }
}

/// Whether every payload fits its length field.
pub open spec fn payloads_fit(opts: Seq<Option6View>) -> bool {
    forall|i: int| 0 <= i < opts.len() ==> (#[trigger] opts[i]).payload().len() <= 0xffff
}

/// The datagram on the wire. Only the low 24 bits of the transaction id are
/// written.
pub open spec fn packet6_bytes(p: Packet6View) -> Seq<u8> {
    seq![p.msg_type.spec_value()] + be_bytes(p.transaction_id as nat, 3) + options6_bytes(
        p.options,
    )
}

/// The first of `opts` with the given code.
pub open spec fn first_with_code6(opts: Seq<Option6View>, code: u16) -> Option<Option6View>
    decreases opts.len(),
{
    if opts.len() == 0 {
        None
    } else if opts.first().code() == code {
        Some(opts.first())
    } else {
        first_with_code6(opts.drop_first(), code)
    }
}

/// The first client DUID among `opts`.
pub open spec fn client_duid(opts: Seq<Option6View>) -> Option<Seq<u8>>
    decreases opts.len(),
{
    if opts.len() == 0 {
        None
    } else {
        match opts.first() {
            Option6View::ClientId(d) => Some(d),
            _ => client_duid(opts.drop_first()),
        }
    }
}

/// The first IA_NA among `opts`.
pub open spec fn leading_iana(opts: Seq<Option6View>) -> Option<IaNaView>
    decreases opts.len(),
{
    if opts.len() == 0 {
        None
    } else {
        match opts.first() {
            Option6View::IaNa(ia) => Some(ia),
            _ => leading_iana(opts.drop_first()),
        }
    }
}

impl Packet {
    /// Decodes a datagram.
    pub fn from(input: &[u8]) -> (r: Result<Packet, DecodeError>)
        ensures
            match r {
                Ok(p) => packet6_of(input@) == Ok::<Packet6View, DecodeError>(p@),
                Err(e) => packet6_of(input@) == Err::<Packet6View, DecodeError>(e),
            },
    {
        if input.len() < 4 {
            return Err(DecodeError::Truncated);
        }
        let msg_type = match MsgType::from(input[0]) {
            Ok(t) => t,
            Err(e) => return Err(e),
        };
        let transaction_id = (input[1] as u32) * 0x1_0000 + (input[2] as u32) * 0x100 + (
        input[3] as u32);
        proof {
            reveal_with_fuel(be_value, 4);
        }
        assert(transaction_id as nat == be_value(input@.subrange(1, 4)));
        let mut options: Vec<Dhcpv6Option> = Vec::new();
        let mut rest = slice_subrange(input, 4, input.len());
        assert(rest@ =~= input@.skip(4));
        assert(option6_views(options@) =~= Seq::empty());
        proof {
            match options6_of(rest@) {
                Ok(more) => assert(option6_views(options@) + more =~= more),
                Err(_) => {},
            }
        }
        while rest.len() > 0
            invariant
                input@.len() >= 4,
                msg_type_of(input@[0]) == Some(msg_type),
                options6_of(input@.skip(4)) == match options6_of(rest@) {
                    Ok(more) => Ok::<Seq<Option6View>, DecodeError>(
                        option6_views(options@) + more,
                    ),
                    Err(e) => Err::<Seq<Option6View>, DecodeError>(e),
                },
            decreases rest@.len(),
        {
            match decode_option(rest) {
                Err(e) => {
                    return Err(e);
                },
                Ok((after, option)) => {
                    let ghost before = option6_views(options@);
                    let ghost o = option@;
                    options.push(option);
                    proof {
                        assert(option6_views(options@) =~= before.push(o));
                        match options6_of(after@) {
                            Ok(more) => assert(before + (seq![o] + more) =~= before.push(o) + more),
                            Err(_) => {},
                        }
                    }
                    rest = after;
                },
            }
        }
        assert(option6_views(options@) + Seq::<Option6View>::empty() =~= option6_views(options@));
        Ok(Packet { msg_type, transaction_id, options })
    }

    /// The first option with the given code, if any.
    pub fn option(&self, code: u16) -> (r: Option<&Dhcpv6Option>)
        ensures
            match r {
                Some(o) => first_with_code6(self@.options, code) == Some(o@),
                None => first_with_code6(self@.options, code) is None,
            },
    {
        let ghost views = self@.options;
        let mut i: usize = 0;
        assert(views.skip(0) =~= views);
        while i < self.options.len()
            invariant
                i <= self.options@.len(),
                views == option6_views(self.options@),
                first_with_code6(views, code) == first_with_code6(views.skip(i as int), code),
            decreases self.options@.len() - i,
        {
            assert(views[i as int] == self.options@[i as int]@);
            if self.options[i].code() == code {
                return Some(&self.options[i]);
            }
            assert(views.skip(i as int).drop_first() =~= views.skip(i + 1));
            i = i + 1;
        }
        None
    }

    /// The first IA_NA option, if any.
    pub fn first_iana(&self) -> (r: Option<&IaNa>)
        ensures
            match r {
                Some(ia) => leading_iana(self@.options) == Some(ia@),
                None => leading_iana(self@.options) is None,
            },
    {
        let ghost views = self@.options;
        let mut i: usize = 0;
        assert(views.skip(0) =~= views);
        while i < self.options.len()
            invariant
                i <= self.options@.len(),
                views == option6_views(self.options@),
                leading_iana(views) == leading_iana(views.skip(i as int)),
            decreases self.options@.len() - i,
        {
            assert(views[i as int] == self.options@[i as int]@);
            match &self.options[i] {
                Dhcpv6Option::IaNa(ia) => return Some(ia),
                _ => {},
            }
            assert(views.skip(i as int).drop_first() =~= views.skip(i + 1));
            i = i + 1;
        }
        None
    }

    /// The first client DUID and the first IA_NA, in one pass.
    pub fn client_iana(&self) -> (r: (Option<&[u8]>, Option<&IaNa>))
        ensures
            match r.0 {
                Some(d) => client_duid(self@.options) == Some(d@),
                None => client_duid(self@.options) is None,
            },
            match r.1 {
                Some(ia) => leading_iana(self@.options) == Some(ia@),
                None => leading_iana(self@.options) is None,
            },
    {
        let ghost views = self@.options;
        let mut client: Option<&[u8]> = None;
        let mut iana: Option<&IaNa> = None;
        let mut i: usize = 0;
        assert(views.skip(0) =~= views);
        while i < self.options.len() && !(client.is_some() && iana.is_some())
            invariant
                i <= self.options@.len(),
                views == option6_views(self.options@),
                match client {
                    Some(d) => client_duid(views) == Some(d@),
                    None => client_duid(views) == client_duid(views.skip(i as int)),
                },
                match iana {
                    Some(ia) => leading_iana(views) == Some(ia@),
                    None => leading_iana(views) == leading_iana(views.skip(i as int)),
                },
            decreases self.options@.len() - i,
        {
            assert(views[i as int] == self.options@[i as int]@);
            assert(views.skip(i as int).drop_first() =~= views.skip(i + 1));
            match &self.options[i] {
                Dhcpv6Option::ClientId(d) => {
                    if client.is_none() {
                        client = Some(d.as_slice());
                    }
                },
                Dhcpv6Option::IaNa(ia) => {
                    if iana.is_none() {
                        iana = Some(ia);
                    }
                },
                _ => {},
            }
            i = i + 1;
        }
        (client, iana)
    }

    /// Encodes the datagram. Only the low 24 bits of the transaction id are
    /// written.
    pub fn encode(&self) -> (r: Result<Vec<u8>, EncodeError>)
        ensures
            match r {
                Ok(out) => payloads_fit(self@.options) && out@ == packet6_bytes(self@),
                Err(e) => !payloads_fit(self@.options) && e == EncodeError::OptionTooLarge,
            },
    {
        let ghost views = self@.options;
        let mut out: Vec<u8> = Vec::new();
        out.push(self.msg_type.value());
        out.push(((self.transaction_id / 0x1_0000) % 0x100) as u8);
        out.push(((self.transaction_id / 0x100) % 0x100) as u8);
        out.push((self.transaction_id % 0x100) as u8);
        proof {
            reveal_with_fuel(be_bytes, 4);
        }
        assert(out@ =~= seq![self.msg_type.spec_value()] + be_bytes(
            self.transaction_id as nat,
            3,
        ));
        let ghost head = out@;
        let mut i: usize = 0;
        assert(views.skip(0) =~= views);
        while i < self.options.len()
            invariant
                i <= self.options@.len(),
                views == option6_views(self.options@),
                out@ + options6_bytes(views.skip(i as int)) == head + options6_bytes(views),
                forall|j: int|
                    0 <= j < i ==> (#[trigger] views[j]).payload().len() <= 0xffff,
            decreases self.options@.len() - i,
        {
            let ghost before = out@;
            assert(views[i as int] == self.options@[i as int]@);
            assert(views.skip(i as int).drop_first() =~= views.skip(i + 1));
            match self.options[i].encode_into(&mut out) {
                Err(e) => {
                    return Err(e);
                },
                Ok(_) => {},
            }
            assert(out@ + options6_bytes(views.skip(i + 1)) =~= before + options6_bytes(
                views.skip(i as int),
            ));
            i = i + 1;
        }
        assert(out@ + options6_bytes(views.skip(i as int)) =~= out@);
        Ok(out)
    }
}

/// Whether `a` and `b` hold the same bytes.
pub fn same_bytes(a: &[u8], b: &[u8]) -> (r: bool)
    ensures
        r == (a@ == b@),
{
    if a.len() != b.len() {
        return false;
    }
    let mut i: usize = 0;
    while i < a.len()
        invariant
            i <= a@.len(),
            a@.len() == b@.len(),
            forall|j: int| 0 <= j < i ==> a@[j] == b@[j],
        decreases a@.len() - i,
    {
        if a[i] != b[i] {
            return false;
        }
        i = i + 1;
    }
    assert(a@ =~= b@);
    true
}

/// Whether the packet names the server with the given DUID: its first option
/// with the server id code holds exactly those bytes.
pub open spec fn names_server(p: Packet6View, duid: Seq<u8>) -> bool {
    first_with_code6(p.options, OPT_SERVERID) == Some(Option6View::ServerId(duid))
}

/// True when the packet carries our server id, that is, when the client
/// selected this server.
pub fn is_for_server(our_duid: &[u8], pkt: &Packet) -> (r: bool)
    ensures
        r == names_server(pkt@, our_duid@),
{
    match pkt.option(OPT_SERVERID) {
        Some(Dhcpv6Option::ServerId(d)) => same_bytes(d.as_slice(), our_duid),
        _ => false,
    }
}

/// Renewal and rebinding times for a lease of `lease_secs` seconds: a half and
/// seven eighths of it (RFC 2131).
pub fn default_t1_t2(lease_secs: u32) -> (r: (u32, u32))
    ensures
        r.0 == lease_secs / 2,
        r.1 == lease_secs - lease_secs / 8,
        r.0 <= r.1 <= lease_secs,
{
    (lease_secs / 2, lease_secs - lease_secs / 8)
}

// ---------------------------------------------------------------------------
// What decoding gives back of what was encoded
// ---------------------------------------------------------------------------

/// Whether an option that was encoded is read as itself: any but a raw option
/// whose code stands for a typed one.
pub open spec fn reads_back6(o: Option6View) -> bool {
    match o {
        Option6View::Unrecognized(code, _) => {
            &&& code != OPT_CLIENTID
            &&& code != OPT_SERVERID
            &&& code != OPT_IA_NA
            &&& code != OPT_DNS_SERVERS
            &&& code != OPT_STATUS_CODE
        },
        _ => true,
    }
}

/// A frame that was written is split into its parts again.
proof fn lemma_frame_reads_back(code: u16, data: Seq<u8>, rest: Seq<u8>)
    requires
        data.len() <= 0xffff,
    ensures
        frame_at(be_bytes(code as nat, 2) + be_bytes(data.len(), 2) + data + rest) == Some(
            (code, data, rest),
        ),
{
    broadcast use lemma_be_bytes_len;

    let s = be_bytes(code as nat, 2) + be_bytes(data.len(), 2) + data + rest;
    lemma_byte_ranges();
    lemma_value_of_bytes(code as nat, 2);
    lemma_value_of_bytes(data.len(), 2);
    assert(s.take(2) =~= be_bytes(code as nat, 2));
    assert(s.subrange(2, 4) =~= be_bytes(data.len(), 2));
    assert(s.subrange(4, 4 + data.len() as int) =~= data);
    assert(s.skip(4 + data.len() as int) =~= rest);
}

proof fn lemma_addr6_reads_back(a: Ipv6Addr, rest: Seq<u8>)
    ensures
        addr6_at(a.spec_octets() + rest) == a,
{
    broadcast use lemma_be_bytes_len;

    lemma_byte_ranges();
    lemma_value_of_bytes(a.bits as nat, 16);
    assert((a.spec_octets() + rest).take(16) =~= a.spec_octets());
}

proof fn lemma_iaaddrs_read_back(addrs: Seq<IaAddr>)
    ensures
        iaaddrs_of(iaaddrs_bytes(addrs)) == Ok::<Seq<IaAddr>, DecodeError>(addrs),
    decreases addrs.len(),
{
    broadcast use lemma_be_bytes_len;

    if addrs.len() == 0 {
        assert(addrs =~= Seq::empty());
    } else {
        let a = addrs.first();
        let rest = iaaddrs_bytes(addrs.drop_first());
        let body = a.addr.spec_octets() + be_bytes(a.preferred as nat, 4) + be_bytes(
            a.valid as nat,
            4,
        );
        lemma_byte_ranges();
        lemma_frame_reads_back(OPT_IAADDR, body, rest);
        assert(iaaddrs_bytes(addrs) =~= be_bytes(OPT_IAADDR as nat, 2) + be_bytes(24, 2) + body
            + rest);
        lemma_addr6_reads_back(
            a.addr,
            be_bytes(a.preferred as nat, 4) + be_bytes(a.valid as nat, 4),
        );
        assert(body =~= a.addr.spec_octets() + (be_bytes(a.preferred as nat, 4) + be_bytes(
            a.valid as nat,
            4,
        )));
        assert(body.subrange(16, 20) =~= be_bytes(a.preferred as nat, 4));
        assert(body.subrange(20, 24) =~= be_bytes(a.valid as nat, 4));
        lemma_value_of_bytes(a.preferred as nat, 4);
        lemma_value_of_bytes(a.valid as nat, 4);
        lemma_iaaddrs_read_back(addrs.drop_first());
        assert(seq![a] + addrs.drop_first() =~= addrs);
    }
}

proof fn lemma_addrs6_read_back(addrs: Seq<Ipv6Addr>)
    ensures
        addrs6_of(addrs6_octets(addrs)) == addrs,
    decreases addrs.len(),
{
    broadcast use lemma_be_bytes_len;

    if addrs.len() == 0 {
        assert(addrs =~= Seq::empty());
    } else {
        let rest = addrs6_octets(addrs.drop_first());
        lemma_addr6_reads_back(addrs.first(), rest);
        assert(addrs6_octets(addrs).skip(16) =~= rest);
        lemma_addrs6_read_back(addrs.drop_first());
        assert(seq![addrs.first()] + addrs.drop_first() =~= addrs);
    }
}

proof fn lemma_payload6_reads_back(o: Option6View)
    requires
        reads_back6(o),
    ensures
        payload6_option(o.code(), o.payload()) == Ok::<Option6View, DecodeError>(o),
{
    broadcast use {lemma_be_bytes_len, lemma_addrs6_octets_len};

    lemma_byte_ranges();
    let data = o.payload();
    match o {
        Option6View::IaNa(ia) => {
            assert(data.skip(12) =~= iaaddrs_bytes(ia.addrs));
            assert(data.subrange(0, 4) =~= be_bytes(ia.iaid as nat, 4));
            assert(data.subrange(4, 8) =~= be_bytes(ia.t1 as nat, 4));
            assert(data.subrange(8, 12) =~= be_bytes(ia.t2 as nat, 4));
            lemma_value_of_bytes(ia.iaid as nat, 4);
            lemma_value_of_bytes(ia.t1 as nat, 4);
            lemma_value_of_bytes(ia.t2 as nat, 4);
            lemma_iaaddrs_read_back(ia.addrs);
        },
        Option6View::DnsServers(a) => lemma_addrs6_read_back(a),
        Option6View::StatusCode(c, m) => {
            assert(data.take(2) =~= be_bytes(c as nat, 2));
            assert(data.skip(2) =~= encode_utf8(m));
            lemma_value_of_bytes(c as nat, 2);
            lemma_utf8_text_of_encoded(m);
        },
        _ => {},
    }
}

/// An option that was encoded is decoded as itself, whatever bytes follow.
pub proof fn option6_round_trip(o: Option6View, rest: Seq<u8>)
    requires
        reads_back6(o),
        o.payload().len() <= 0xffff,
    ensures
        option6_at(o.bytes() + rest) == Ok::<(Seq<u8>, Option6View), DecodeError>((rest, o)),
{
    lemma_frame_reads_back(o.code(), o.payload(), rest);
    lemma_payload6_reads_back(o);
}

proof fn lemma_options6_read_back(opts: Seq<Option6View>)
    requires
        payloads_fit(opts),
        forall|i: int| 0 <= i < opts.len() ==> reads_back6(#[trigger] opts[i]),
    ensures
        options6_of(options6_bytes(opts)) == Ok::<Seq<Option6View>, DecodeError>(opts),
    decreases opts.len(),
{
    broadcast use lemma_be_bytes_len;

    if opts.len() == 0 {
        assert(opts =~= Seq::empty());
    } else {
        let more = opts.drop_first();
        assert(reads_back6(opts[0]));
        assert forall|i: int| 0 <= i < more.len() implies reads_back6(#[trigger] more[i])
            && more[i].payload().len() <= 0xffff by {
            assert(more[i] == opts[i + 1]);
        }
        lemma_options6_read_back(more);
        option6_round_trip(opts.first(), options6_bytes(more));
        assert(seq![opts.first()] + more =~= opts);
    }
}

/// A datagram that was encoded is decoded as itself, if its transaction id has
/// 24 bits and no raw option has the code of a typed one.
pub proof fn packet6_round_trip(p: Packet6View)
    requires
        p.transaction_id < 0x100_0000,
        payloads_fit(p.options),
        forall|i: int| 0 <= i < p.options.len() ==> reads_back6(#[trigger] p.options[i]),
    ensures
        packet6_of(packet6_bytes(p)) == Ok::<Packet6View, DecodeError>(p),
{
    broadcast use lemma_be_bytes_len;

    let s = packet6_bytes(p);
    lemma_byte_ranges();
    lemma_value_of_bytes(p.transaction_id as nat, 3);
    assert(s.subrange(1, 4) =~= be_bytes(p.transaction_id as nat, 3));
    assert(s.skip(4) =~= options6_bytes(p.options));
    msg_type_values(p.msg_type, p.msg_type.spec_value());
    lemma_options6_read_back(p.options);
}

proof fn lemma_addrs6_octets_of(data: Seq<u8>)
    requires
        data.len() % 16 == 0,
    ensures
        addrs6_octets(addrs6_of(data)) == data,
    decreases data.len(),
{
    if data.len() == 0 {
        assert(data =~= Seq::empty());
    } else {
        let a = addr6_at(data);
        let head = data.take(16);
        lemma_byte_ranges();
        lemma_be_value_bound(head);
        lemma_bytes_of_value(head);
        lemma_addrs6_octets_of(data.skip(16));
        assert(addrs6_of(data).drop_first() =~= addrs6_of(data.skip(16)));
        assert(head + data.skip(16) =~= data);
    }
}

/// An option other than an IA_NA is encoded back to the very bytes from which
/// it was decoded; an IA_NA loses the sub-options that it does not know.
pub proof fn option6_kept_transparently(s: Seq<u8>, rest: Seq<u8>, o: Option6View)
    requires
        option6_at(s) == Ok::<(Seq<u8>, Option6View), DecodeError>((rest, o)),
        !(o is IaNa),
    ensures
        s == o.bytes() + rest,
{
    let (code, data, after) = frame_at(s)->0;
    lemma_byte_ranges();
    lemma_be_value_bound(s.take(2));
    lemma_be_value_bound(s.subrange(2, 4));
    lemma_bytes_of_value(s.take(2));
    lemma_bytes_of_value(s.subrange(2, 4));
    assert(s =~= s.take(2) + s.subrange(2, 4) + data + after);
    if code == OPT_DNS_SERVERS {
        lemma_addrs6_octets_of(data);
    } else if code == OPT_STATUS_CODE {
        lemma_be_value_bound(data.take(2));
        lemma_bytes_of_value(data.take(2));
        lemma_encoded_of_utf8_text(data.skip(2));
        assert(data.take(2) + data.skip(2) =~= data);
    }
    assert(o.payload() == data);
}

proof fn lemma_options6_kept(s: Seq<u8>, opts: Seq<Option6View>)
    requires
        options6_of(s) == Ok::<Seq<Option6View>, DecodeError>(opts),
        forall|i: int| 0 <= i < opts.len() ==> !((#[trigger] opts[i]) is IaNa),
    ensures
        options6_bytes(opts) == s,
    decreases s.len(),
{
    if s.len() > 0 {
        let (rest, o) = option6_at(s)->Ok_0;
        let more = options6_of(rest)->Ok_0;
        assert(opts[0] == o);
        assert(opts.drop_first() =~= more);
        assert forall|i: int| 0 <= i < more.len() implies !((#[trigger] more[i]) is IaNa) by {
            assert(more[i] == opts[i + 1]);
        }
        lemma_options6_kept(rest, more);
        option6_kept_transparently(s, rest, o);
    }
}

/// A datagram that holds no IA_NA is encoded back to the very bytes from which
/// it was decoded.
pub proof fn packet6_kept_transparently(s: Seq<u8>, p: Packet6View)
    requires
        packet6_of(s) == Ok::<Packet6View, DecodeError>(p),
        forall|i: int| 0 <= i < p.options.len() ==> !((#[trigger] p.options[i]) is IaNa),
    ensures
        packet6_bytes(p) == s,
{
    lemma_byte_ranges();
    lemma_be_value_bound(s.subrange(1, 4));
    lemma_bytes_of_value(s.subrange(1, 4));
    msg_type_values(p.msg_type, s[0]);
    lemma_options6_kept(s.skip(4), p.options);
    assert(s =~= seq![s[0]] + s.subrange(1, 4) + s.skip(4));
}

/// An option on the wire is the code and the length of its raw form, in two
/// bytes each, and then the raw data.
pub proof fn option6_frames_raw_form(o: Option6View, raw: RawDhcpv6Option)
    requires
        raw.code == o.code(),
        raw.data@ == o.payload(),
    ensures
        o.bytes() == be_bytes(raw.code as nat, 2) + be_bytes(raw.data@.len(), 2) + raw.data@,
        o.bytes().len() == 4 + raw.data@.len(),
{
    broadcast use lemma_be_bytes_len;

}

} // verus!
