//! DHCPv4 options (RFC 2132).

use vstd::prelude::*;
use vstd::slice::slice_to_vec;
use vstd::utf8::encode_utf8;

use crate::net::Ipv4Addr;
use crate::number::{decimal, push_decimal};
use crate::text::push_str;
use crate::wire::{be_bytes, lemma_be_bytes_len, push_u32};

verus! {

// ---------------------------------------------------------------------------
// Option codes
// ---------------------------------------------------------------------------

pub const SUBNET_MASK: u8 = 1;

pub const TIME_OFFSET: u8 = 2;

pub const ROUTER: u8 = 3;

pub const TIME_SERVER: u8 = 4;

pub const NAME_SERVER: u8 = 5;

pub const DOMAIN_NAME_SERVER: u8 = 6;

pub const LOG_SERVER: u8 = 7;

pub const COOKIE_SERVER: u8 = 8;

pub const LPR_SERVER: u8 = 9;

pub const IMPRESS_SERVER: u8 = 10;

pub const RESOURCE_LOCATION_SERVER: u8 = 11;

pub const HOST_NAME: u8 = 12;

pub const BOOT_FILE_SIZE: u8 = 13;

pub const MERIT_DUMP_FILE: u8 = 14;

pub const DOMAIN_NAME: u8 = 15;

pub const SWAP_SERVER: u8 = 16;

pub const ROOT_PATH: u8 = 17;

pub const EXTENSIONS_PATH: u8 = 18;

pub const IP_FORWARDING_ENABLE_DISABLE: u8 = 19;

pub const NON_LOCAL_SOURCE_ROUTING_ENABLE_DISABLE: u8 = 20;

pub const POLICY_FILTER: u8 = 21;

pub const MAXIMUM_DATAGRAM_REASSEMBLY_SIZE: u8 = 22;

pub const DEFAULT_IP_TIME_TO_LIVE: u8 = 23;

pub const PATH_MTU_AGING_TIMEOUT: u8 = 24;

pub const PATH_MTU_PLATEAU_TABLE: u8 = 25;

pub const INTERFACE_MTU: u8 = 26;

pub const ALL_SUBNETS_ARE_LOCAL: u8 = 27;

pub const BROADCAST_ADDRESS: u8 = 28;

pub const PERFORM_MASK_DISCOVERY: u8 = 29;

pub const MASK_SUPPLIER: u8 = 30;

pub const PERFORM_ROUTER_DISCOVERY: u8 = 31;

pub const ROUTER_SOLICITATION_ADDRESS: u8 = 32;

pub const STATIC_ROUTE: u8 = 33;

pub const TRAILER_ENCAPSULATION: u8 = 34;

pub const ARP_CACHE_TIMEOUT: u8 = 35;

pub const ETHERNET_ENCAPSULATION: u8 = 36;

pub const TCP_DEFAULT_TTL: u8 = 37;

pub const TCP_KEEPALIVE_INTERVAL: u8 = 38;

pub const TCP_KEEPALIVE_GARBAGE: u8 = 39;

pub const NETWORK_INFORMATION_SERVICE_DOMAIN: u8 = 40;

pub const NETWORK_INFORMATION_SERVERS: u8 = 41;

pub const NETWORK_TIME_PROTOCOL_SERVERS: u8 = 42;

pub const VENDOR_SPECIFIC_INFORMATION: u8 = 43;

pub const NETBIOS_OVER_TCPIP_NAME_SERVER: u8 = 44;

pub const NETBIOS_OVER_TCPIP_DATAGRAM_DISTRIBUTION_SERVER: u8 = 45;

pub const NETBIOS_OVER_TCPIP_NODE_TYPE: u8 = 46;

pub const NETBIOS_OVER_TCPIP_SCOPE: u8 = 47;

pub const XWINDOW_SYSTEM_FONT_SERVER: u8 = 48;

pub const XWINDOW_SYSTEM_DISPLAY_MANAGER: u8 = 49;

pub const REQUESTED_IP_ADDRESS: u8 = 50;

pub const IP_ADDRESS_LEASE_TIME: u8 = 51;

pub const OVERLOAD: u8 = 52;

pub const DHCP_MESSAGE_TYPE: u8 = 53;

pub const SERVER_IDENTIFIER: u8 = 54;

pub const PARAMETER_REQUEST_LIST: u8 = 55;

pub const MESSAGE: u8 = 56;

pub const MAXIMUM_DHCP_MESSAGE_SIZE: u8 = 57;

pub const RENEWAL_TIME_VALUE: u8 = 58;

pub const REBINDING_TIME_VALUE: u8 = 59;

pub const VENDOR_CLASS_IDENTIFIER: u8 = 60;

pub const CLIENT_IDENTIFIER: u8 = 61;

pub const NETWORK_INFORMATION_SERVICEPLUS_DOMAIN: u8 = 64;

pub const NETWORK_INFORMATION_SERVICEPLUS_SERVERS: u8 = 65;

pub const TFTP_SERVER_NAME: u8 = 66;

pub const BOOTFILE_NAME: u8 = 67;

pub const MOBILE_IP_HOME_AGENT: u8 = 68;

pub const SIMPLE_MAIL_TRANSPORT_PROTOCOL: u8 = 69;

pub const POST_OFFICE_PROTOCOL_SERVER: u8 = 70;

pub const NETWORK_NEWS_TRANSPORT_PROTOCOL: u8 = 71;

pub const DEFAULT_WORLD_WIDE_WEB_SERVER: u8 = 72;

pub const DEFAULT_FINGER_SERVER: u8 = 73;

pub const DEFAULT_INTERNET_RELAY_CHAT_SERVER: u8 = 74;

pub const STREETTALK_SERVER: u8 = 75;

pub const STREETTALK_DIRECTORY_ASSISTANCE: u8 = 76;

pub const USER_CLASS: u8 = 77;

pub const RAPID_COMMIT: u8 = 80;

pub const RELAY_AGENT_INFORMATION: u8 = 82;

pub const CLIENT_ARCHITECTURE: u8 = 93;

pub const TZ_POSIX_STRING: u8 = 100;

pub const TZ_DATABASE_STRING: u8 = 101;

pub const CLASSLESS_ROUTE_FORMAT: u8 = 121;

/// The title of each known option code.
pub open spec fn title_of(code: u8) -> Option<&'static str> {
    if code == SUBNET_MASK {
        Some("Subnet Mask")
    } else if code == TIME_OFFSET {
        Some("Time Offset")
    } else if code == ROUTER {
        Some("Router")
    } else if code == TIME_SERVER {
        Some("Time Server")
    } else if code == NAME_SERVER {
        Some("Name Server")
    } else if code == DOMAIN_NAME_SERVER {
        Some("Domain Name Server")
    } else if code == LOG_SERVER {
        Some("Log Server")
    } else if code == COOKIE_SERVER {
        Some("Cookie Server")
    } else if code == LPR_SERVER {
        Some("LPR Server")
    } else if code == IMPRESS_SERVER {
        Some("Impress Server")
    } else if code == RESOURCE_LOCATION_SERVER {
        Some("Resource Location Server")
    } else if code == HOST_NAME {
        Some("Host Name")
    } else if code == BOOT_FILE_SIZE {
        Some("Boot File Size")
    } else if code == MERIT_DUMP_FILE {
        Some("Merit Dump File")
    } else if code == DOMAIN_NAME {
        Some("Domain Name")
    } else if code == SWAP_SERVER {
        Some("Swap Server")
    } else if code == ROOT_PATH {
        Some("Root Path")
    } else if code == EXTENSIONS_PATH {
        Some("Extensions Path")
    } else if code == IP_FORWARDING_ENABLE_DISABLE {
        Some("IP Forwarding Enable/Disable")
    } else if code == NON_LOCAL_SOURCE_ROUTING_ENABLE_DISABLE {
        Some("Non-Local Source Routing Enable/Disable")
    } else if code == POLICY_FILTER {
        Some("Policy Filter")
    } else if code == MAXIMUM_DATAGRAM_REASSEMBLY_SIZE {
        Some("Maximum Datagram Reassembly Size")
    } else if code == DEFAULT_IP_TIME_TO_LIVE {
        Some("Default IP Time-to-live")
    } else if code == PATH_MTU_AGING_TIMEOUT {
        Some("Path MTU Aging Timeout")
    } else if code == PATH_MTU_PLATEAU_TABLE {
        Some("Path MTU Plateau Table")
    } else if code == INTERFACE_MTU {
        Some("Interface MTU")
    } else if code == ALL_SUBNETS_ARE_LOCAL {
        Some("All Subnets are Local")
    } else if code == BROADCAST_ADDRESS {
        Some("Broadcast Address")
    } else if code == PERFORM_MASK_DISCOVERY {
        Some("Perform Mask Discovery")
    } else if code == MASK_SUPPLIER {
        Some("Mask Supplier")
    } else if code == PERFORM_ROUTER_DISCOVERY {
        Some("Perform Router Discovery")
    } else if code == ROUTER_SOLICITATION_ADDRESS {
        Some("Router Solicitation Address")
    } else if code == STATIC_ROUTE {
        Some("Static Route")
    } else if code == TRAILER_ENCAPSULATION {
        Some("Trailer Encapsulation")
    } else if code == ARP_CACHE_TIMEOUT {
        Some("ARP Cache Timeout")
    } else if code == ETHERNET_ENCAPSULATION {
        Some("Ethernet Encapsulation")
    } else if code == TCP_DEFAULT_TTL {
        Some("TCP Default TTL")
    } else if code == TCP_KEEPALIVE_INTERVAL {
        Some("TCP Keepalive Interval")
    } else if code == TCP_KEEPALIVE_GARBAGE {
        Some("TCP Keepalive Garbage")
    } else if code == NETWORK_INFORMATION_SERVICE_DOMAIN {
        Some("Network Information Service Domain")
    } else if code == NETWORK_INFORMATION_SERVERS {
        Some("Network Information Servers")
    } else if code == NETWORK_TIME_PROTOCOL_SERVERS {
        Some("Network Time Protocol Servers")
    } else if code == VENDOR_SPECIFIC_INFORMATION {
        Some("Vendor Specific Information")
    } else if code == NETBIOS_OVER_TCPIP_NAME_SERVER {
        Some("NetBIOS over TCP/IP Name Server")
    } else if code == NETBIOS_OVER_TCPIP_DATAGRAM_DISTRIBUTION_SERVER {
        Some("NetBIOS over TCP/IP Datagram Distribution Server")
    } else if code == NETBIOS_OVER_TCPIP_NODE_TYPE {
        Some("NetBIOS over TCP/IP Node Type")
    } else if code == NETBIOS_OVER_TCPIP_SCOPE {
        Some("NetBIOS over TCP/IP Scope")
    } else if code == XWINDOW_SYSTEM_FONT_SERVER {
        Some("X Window System Font Server")
    } else if code == XWINDOW_SYSTEM_DISPLAY_MANAGER {
        Some("X Window System Display Manager")
    } else if code == REQUESTED_IP_ADDRESS {
        Some("Requested IP Address")
    } else if code == IP_ADDRESS_LEASE_TIME {
        Some("IP Address Lease Time")
    } else if code == OVERLOAD {
        Some("Overload")
    } else if code == DHCP_MESSAGE_TYPE {
        Some("DHCP Message Type")
    } else if code == SERVER_IDENTIFIER {
        Some("Server Identifier")
    } else if code == PARAMETER_REQUEST_LIST {
        Some("Parameter Request List")
    } else if code == MESSAGE {
        Some("Message")
    } else if code == MAXIMUM_DHCP_MESSAGE_SIZE {
        Some("Maximum DHCP Message Size")
    } else if code == RENEWAL_TIME_VALUE {
        Some("Renewal (T1) Time Value")
    } else if code == REBINDING_TIME_VALUE {
        Some("Rebinding (T2) Time Value")
    } else if code == VENDOR_CLASS_IDENTIFIER {
        Some("Vendor class identifier")
    } else if code == CLIENT_IDENTIFIER {
        Some("Client-identifier")
    } else if code == NETWORK_INFORMATION_SERVICEPLUS_DOMAIN {
        Some("Network Information Service+ Domain")
    } else if code == NETWORK_INFORMATION_SERVICEPLUS_SERVERS {
        Some("Network Information Service+ Servers")
    } else if code == TFTP_SERVER_NAME {
        Some("TFTP server name")
    } else if code == BOOTFILE_NAME {
        Some("Bootfile name")
    } else if code == MOBILE_IP_HOME_AGENT {
        Some("Mobile IP Home Agent")
    } else if code == SIMPLE_MAIL_TRANSPORT_PROTOCOL {
        Some("Simple Mail Transport Protocol (SMTP) Server")
    } else if code == POST_OFFICE_PROTOCOL_SERVER {
        Some("Post Office Protocol (POP3) Server")
    } else if code == NETWORK_NEWS_TRANSPORT_PROTOCOL {
        Some("Network News Transport Protocol (NNTP) Server")
    } else if code == DEFAULT_WORLD_WIDE_WEB_SERVER {
        Some("Default World Wide Web (WWW) Server")
    } else if code == DEFAULT_FINGER_SERVER {
        Some("Default Finger Server")
    } else if code == DEFAULT_INTERNET_RELAY_CHAT_SERVER {
        Some("Default Internet Relay Chat (IRC) Server")
    } else if code == STREETTALK_SERVER {
        Some("StreetTalk Server")
    } else if code == STREETTALK_DIRECTORY_ASSISTANCE {
        Some("StreetTalk Directory Assistance (STDA) Server")
    } else if code == USER_CLASS {
        Some("User Class")
    } else if code == RAPID_COMMIT {
        Some("Rapid Commit")
    } else if code == RELAY_AGENT_INFORMATION {
        Some("Relay Agent Information")
    } else if code == CLIENT_ARCHITECTURE {
        Some("Client Architecture")
    } else if code == TZ_POSIX_STRING {
        Some("TZ-POSIX String")
    } else if code == TZ_DATABASE_STRING {
        Some("TZ-Database String")
    } else if code == CLASSLESS_ROUTE_FORMAT {
        Some("Classless Route Format")
    } else {
        None
    }
}

/// Human-readable title for known option codes, if any.
pub fn title(code: u8) -> (r: Option<&'static str>)
    ensures
        r == title_of(code),
{
    match code {
        SUBNET_MASK => Some("Subnet Mask"),
        TIME_OFFSET => Some("Time Offset"),
        ROUTER => Some("Router"),
        TIME_SERVER => Some("Time Server"),
        NAME_SERVER => Some("Name Server"),
        DOMAIN_NAME_SERVER => Some("Domain Name Server"),
        LOG_SERVER => Some("Log Server"),
        COOKIE_SERVER => Some("Cookie Server"),
        LPR_SERVER => Some("LPR Server"),
        IMPRESS_SERVER => Some("Impress Server"),
        RESOURCE_LOCATION_SERVER => Some("Resource Location Server"),
        HOST_NAME => Some("Host Name"),
        BOOT_FILE_SIZE => Some("Boot File Size"),
        MERIT_DUMP_FILE => Some("Merit Dump File"),
        DOMAIN_NAME => Some("Domain Name"),
        SWAP_SERVER => Some("Swap Server"),
        ROOT_PATH => Some("Root Path"),
        EXTENSIONS_PATH => Some("Extensions Path"),
        IP_FORWARDING_ENABLE_DISABLE => Some("IP Forwarding Enable/Disable"),
        NON_LOCAL_SOURCE_ROUTING_ENABLE_DISABLE => Some("Non-Local Source Routing Enable/Disable"),
        POLICY_FILTER => Some("Policy Filter"),
        MAXIMUM_DATAGRAM_REASSEMBLY_SIZE => Some("Maximum Datagram Reassembly Size"),
        DEFAULT_IP_TIME_TO_LIVE => Some("Default IP Time-to-live"),
        PATH_MTU_AGING_TIMEOUT => Some("Path MTU Aging Timeout"),
        PATH_MTU_PLATEAU_TABLE => Some("Path MTU Plateau Table"),
        INTERFACE_MTU => Some("Interface MTU"),
        ALL_SUBNETS_ARE_LOCAL => Some("All Subnets are Local"),
        BROADCAST_ADDRESS => Some("Broadcast Address"),
        PERFORM_MASK_DISCOVERY => Some("Perform Mask Discovery"),
        MASK_SUPPLIER => Some("Mask Supplier"),
        PERFORM_ROUTER_DISCOVERY => Some("Perform Router Discovery"),
        ROUTER_SOLICITATION_ADDRESS => Some("Router Solicitation Address"),
        STATIC_ROUTE => Some("Static Route"),
        TRAILER_ENCAPSULATION => Some("Trailer Encapsulation"),
        ARP_CACHE_TIMEOUT => Some("ARP Cache Timeout"),
        ETHERNET_ENCAPSULATION => Some("Ethernet Encapsulation"),
        TCP_DEFAULT_TTL => Some("TCP Default TTL"),
        TCP_KEEPALIVE_INTERVAL => Some("TCP Keepalive Interval"),
        TCP_KEEPALIVE_GARBAGE => Some("TCP Keepalive Garbage"),
        NETWORK_INFORMATION_SERVICE_DOMAIN => Some("Network Information Service Domain"),
        NETWORK_INFORMATION_SERVERS => Some("Network Information Servers"),
        NETWORK_TIME_PROTOCOL_SERVERS => Some("Network Time Protocol Servers"),
        VENDOR_SPECIFIC_INFORMATION => Some("Vendor Specific Information"),
        NETBIOS_OVER_TCPIP_NAME_SERVER => Some("NetBIOS over TCP/IP Name Server"),
        NETBIOS_OVER_TCPIP_DATAGRAM_DISTRIBUTION_SERVER => Some("NetBIOS over TCP/IP Datagram Distribution Server"),
        NETBIOS_OVER_TCPIP_NODE_TYPE => Some("NetBIOS over TCP/IP Node Type"),
        NETBIOS_OVER_TCPIP_SCOPE => Some("NetBIOS over TCP/IP Scope"),
        XWINDOW_SYSTEM_FONT_SERVER => Some("X Window System Font Server"),
        XWINDOW_SYSTEM_DISPLAY_MANAGER => Some("X Window System Display Manager"),
        REQUESTED_IP_ADDRESS => Some("Requested IP Address"),
        IP_ADDRESS_LEASE_TIME => Some("IP Address Lease Time"),
        OVERLOAD => Some("Overload"),
        DHCP_MESSAGE_TYPE => Some("DHCP Message Type"),
        SERVER_IDENTIFIER => Some("Server Identifier"),
        PARAMETER_REQUEST_LIST => Some("Parameter Request List"),
        MESSAGE => Some("Message"),
        MAXIMUM_DHCP_MESSAGE_SIZE => Some("Maximum DHCP Message Size"),
        RENEWAL_TIME_VALUE => Some("Renewal (T1) Time Value"),
        REBINDING_TIME_VALUE => Some("Rebinding (T2) Time Value"),
        VENDOR_CLASS_IDENTIFIER => Some("Vendor class identifier"),
        CLIENT_IDENTIFIER => Some("Client-identifier"),
        NETWORK_INFORMATION_SERVICEPLUS_DOMAIN => Some("Network Information Service+ Domain"),
        NETWORK_INFORMATION_SERVICEPLUS_SERVERS => Some("Network Information Service+ Servers"),
        TFTP_SERVER_NAME => Some("TFTP server name"),
        BOOTFILE_NAME => Some("Bootfile name"),
        MOBILE_IP_HOME_AGENT => Some("Mobile IP Home Agent"),
        SIMPLE_MAIL_TRANSPORT_PROTOCOL => Some("Simple Mail Transport Protocol (SMTP) Server"),
        POST_OFFICE_PROTOCOL_SERVER => Some("Post Office Protocol (POP3) Server"),
        NETWORK_NEWS_TRANSPORT_PROTOCOL => Some("Network News Transport Protocol (NNTP) Server"),
        DEFAULT_WORLD_WIDE_WEB_SERVER => Some("Default World Wide Web (WWW) Server"),
        DEFAULT_FINGER_SERVER => Some("Default Finger Server"),
        DEFAULT_INTERNET_RELAY_CHAT_SERVER => Some("Default Internet Relay Chat (IRC) Server"),
        STREETTALK_SERVER => Some("StreetTalk Server"),
        STREETTALK_DIRECTORY_ASSISTANCE => Some("StreetTalk Directory Assistance (STDA) Server"),
        USER_CLASS => Some("User Class"),
        RAPID_COMMIT => Some("Rapid Commit"),
        RELAY_AGENT_INFORMATION => Some("Relay Agent Information"),
        CLIENT_ARCHITECTURE => Some("Client Architecture"),
        TZ_POSIX_STRING => Some("TZ-POSIX String"),
        TZ_DATABASE_STRING => Some("TZ-Database String"),
        CLASSLESS_ROUTE_FORMAT => Some("Classless Route Format"),
        _ => None,
    }
}

// ---------------------------------------------------------------------------
// Message types
// ---------------------------------------------------------------------------

/// DHCP message types (RFC 2132 section 9.6).
#[derive(Debug, Clone, Copy, PartialEq, Eq, Structural)]
pub enum MessageType {
    Discover,
    Offer,
    Request,
    Decline,
    Ack,
    Nak,
    Release,
    Inform,
}

/// The message type with the wire value `v`.
pub open spec fn message_type_of(v: u8) -> Option<MessageType> {
    if v == 1 {
        Some(MessageType::Discover)
    } else if v == 2 {
        Some(MessageType::Offer)
    } else if v == 3 {
        Some(MessageType::Request)
    } else if v == 4 {
        Some(MessageType::Decline)
    } else if v == 5 {
        Some(MessageType::Ack)
    } else if v == 6 {
        Some(MessageType::Nak)
    } else if v == 7 {
        Some(MessageType::Release)
    } else if v == 8 {
        Some(MessageType::Inform)
    } else {
        None
    }
}

impl MessageType {
    /// The wire value.
    pub open spec fn spec_value(self) -> u8 {
        match self {
            MessageType::Discover => 1,
            MessageType::Offer => 2,
            MessageType::Request => 3,
            MessageType::Decline => 4,
            MessageType::Ack => 5,
            MessageType::Nak => 6,
            MessageType::Release => 7,
            MessageType::Inform => 8,
        }
    }

    pub fn value(self) -> (r: u8)
        ensures
            r == self.spec_value(),
    {
        match self {
            MessageType::Discover => 1,
            MessageType::Offer => 2,
            MessageType::Request => 3,
            MessageType::Decline => 4,
            MessageType::Ack => 5,
            MessageType::Nak => 6,
            MessageType::Release => 7,
            MessageType::Inform => 8,
        }
    }

    pub fn from_option(val: u8) -> (r: Option<MessageType>)
        ensures
            r == message_type_of(val),
    {
        match val {
            1 => Some(MessageType::Discover),
            2 => Some(MessageType::Offer),
            3 => Some(MessageType::Request),
            4 => Some(MessageType::Decline),
            5 => Some(MessageType::Ack),
            6 => Some(MessageType::Nak),
            7 => Some(MessageType::Release),
            8 => Some(MessageType::Inform),
            _ => None,
        }
    }

    pub fn from(val: u8) -> (r: Result<MessageType, String>)
        ensures
            match r {
                Ok(t) => message_type_of(val) == Some(t),
                Err(e) => message_type_of(val) is None && e@ == "Invalid DHCP Message Type: "@
                    + decimal(val as nat),
            },
    {
        match MessageType::from_option(val) {
            Some(t) => Ok(t),
            None => {
                let mut e = String::new();
                push_str(&mut e, "Invalid DHCP Message Type: ");
                push_decimal(&mut e, val as u64);
                assert(e@ =~= "Invalid DHCP Message Type: "@ + decimal(val as nat));
                Err(e)
            },
        }
    }
}

/// Every message type is the one that its wire value stands for, and no other
/// value stands for it.
pub proof fn lemma_message_type_value(t: MessageType, v: u8)
    ensures
        message_type_of(v) == Some(t) <==> v == t.spec_value(),
{
}

// ---------------------------------------------------------------------------
// Options
// ---------------------------------------------------------------------------

/// An option as its code and its payload.
#[derive(Debug, Clone, PartialEq, Eq)]
pub struct RawDhcpOption {
    pub code: u8,
    pub data: Vec<u8>,
}

#[derive(Debug, Clone, PartialEq, Eq)]
pub enum DhcpOption {
    DhcpMessageType(MessageType),
    ServerIdentifier(Ipv4Addr),
    ParameterRequestList(Vec<u8>),
    RequestedIpAddress(Ipv4Addr),
    HostName(String),
    Router(Vec<Ipv4Addr>),
    DomainNameServer(Vec<Ipv4Addr>),
    IpAddressLeaseTime(u32),
    SubnetMask(Ipv4Addr),
    Message(String),
    Unrecognized(RawDhcpOption),
}

/// What an option says.
pub enum OptionView {
    DhcpMessageType(MessageType),
    ServerIdentifier(Ipv4Addr),
    ParameterRequestList(Seq<u8>),
    RequestedIpAddress(Ipv4Addr),
    HostName(Seq<char>),
    Router(Seq<Ipv4Addr>),
    DomainNameServer(Seq<Ipv4Addr>),
    IpAddressLeaseTime(u32),
    SubnetMask(Ipv4Addr),
    Message(Seq<char>),
    Unrecognized(u8, Seq<u8>),
}

impl View for DhcpOption {
    type V = OptionView;

    open spec fn view(&self) -> OptionView {
        match self {
            DhcpOption::DhcpMessageType(t) => OptionView::DhcpMessageType(*t),
            DhcpOption::ServerIdentifier(a) => OptionView::ServerIdentifier(*a),
            DhcpOption::ParameterRequestList(d) => OptionView::ParameterRequestList(d@),
            DhcpOption::RequestedIpAddress(a) => OptionView::RequestedIpAddress(*a),
            DhcpOption::HostName(s) => OptionView::HostName(s@),
            DhcpOption::Router(a) => OptionView::Router(a@),
            DhcpOption::DomainNameServer(a) => OptionView::DomainNameServer(a@),
            DhcpOption::IpAddressLeaseTime(t) => OptionView::IpAddressLeaseTime(*t),
            DhcpOption::SubnetMask(a) => OptionView::SubnetMask(*a),
            DhcpOption::Message(s) => OptionView::Message(s@),
            DhcpOption::Unrecognized(r) => OptionView::Unrecognized(r.code, r.data@),
        }
    }
}

/// What each of `opts` says.
pub open spec fn option_views(opts: Seq<DhcpOption>) -> Seq<OptionView> {
    opts.map_values(|o: DhcpOption| o@)
}

/// The octets of `addrs`, one address after the other.
pub open spec fn addrs_octets(addrs: Seq<Ipv4Addr>) -> Seq<u8>
    decreases addrs.len(),
{
    if addrs.len() == 0 {
        Seq::empty()
    } else {
        addrs_octets(addrs.drop_last()) + addrs.last().spec_octets()
    }
}

pub broadcast proof fn lemma_addrs_octets_len(addrs: Seq<Ipv4Addr>)
    ensures
        #[trigger] addrs_octets(addrs).len() == 4 * addrs.len(),
    decreases addrs.len(),
{
    if addrs.len() > 0 {
        lemma_addrs_octets_len(addrs.drop_last());
        lemma_be_bytes_len(addrs.last().bits as nat, 4);
    }
}

impl OptionView {
    pub open spec fn code(self) -> u8 {
        match self {
            OptionView::DhcpMessageType(_) => DHCP_MESSAGE_TYPE,
            OptionView::ServerIdentifier(_) => SERVER_IDENTIFIER,
            OptionView::ParameterRequestList(_) => PARAMETER_REQUEST_LIST,
            OptionView::RequestedIpAddress(_) => REQUESTED_IP_ADDRESS,
            OptionView::HostName(_) => HOST_NAME,
            OptionView::Router(_) => ROUTER,
            OptionView::DomainNameServer(_) => DOMAIN_NAME_SERVER,
            OptionView::IpAddressLeaseTime(_) => IP_ADDRESS_LEASE_TIME,
            OptionView::SubnetMask(_) => SUBNET_MASK,
            OptionView::Message(_) => MESSAGE,
            OptionView::Unrecognized(code, _) => code,
        }
    }

    /// The payload on the wire.
    pub open spec fn payload(self) -> Seq<u8> {
        match self {
            OptionView::DhcpMessageType(t) => seq![t.spec_value()],
            OptionView::ServerIdentifier(a) => a.spec_octets(),
            OptionView::ParameterRequestList(d) => d,
            OptionView::RequestedIpAddress(a) => a.spec_octets(),
            OptionView::HostName(s) => encode_utf8(s),
            OptionView::Router(a) => addrs_octets(a),
            OptionView::DomainNameServer(a) => addrs_octets(a),
            OptionView::IpAddressLeaseTime(t) => be_bytes(t as nat, 4),
            OptionView::SubnetMask(a) => a.spec_octets(),
            OptionView::Message(s) => encode_utf8(s),
            OptionView::Unrecognized(_, d) => d,
        }
    }
}

/// The octets of `addrs`, one address after the other.
fn octets_of_addrs(addrs: &[Ipv4Addr]) -> (r: Vec<u8>)
    ensures
        r@ == addrs_octets(addrs@),
{
    let mut r: Vec<u8> = Vec::new();
    let mut i: usize = 0;
    while i < addrs.len()
        invariant
            i <= addrs@.len(),
            r@ == addrs_octets(addrs@.take(i as int)),
        decreases addrs@.len() - i,
    {
        assert(addrs@.take(i + 1).drop_last() =~= addrs@.take(i as int));
        push_u32(&mut r, addrs[i].bits);
        i = i + 1;
    }
    assert(addrs@.take(i as int) =~= addrs@);
    r
}

impl DhcpOption {
    pub fn code(&self) -> (r: u8)
        ensures
            r == self@.code(),
    {
        match self {
            DhcpOption::DhcpMessageType(_) => DHCP_MESSAGE_TYPE,
            DhcpOption::ServerIdentifier(_) => SERVER_IDENTIFIER,
            DhcpOption::ParameterRequestList(_) => PARAMETER_REQUEST_LIST,
            DhcpOption::RequestedIpAddress(_) => REQUESTED_IP_ADDRESS,
            DhcpOption::HostName(_) => HOST_NAME,
            DhcpOption::Router(_) => ROUTER,
            DhcpOption::DomainNameServer(_) => DOMAIN_NAME_SERVER,
            DhcpOption::IpAddressLeaseTime(_) => IP_ADDRESS_LEASE_TIME,
            DhcpOption::SubnetMask(_) => SUBNET_MASK,
            DhcpOption::Message(_) => MESSAGE,
            DhcpOption::Unrecognized(r) => r.code,
        }
    }

    /// The code and the payload.
    pub fn to_raw(&self) -> (r: RawDhcpOption)
        ensures
            r.code == self@.code(),
            r.data@ == self@.payload(),
    {
        let code = self.code();
        let data = match self {
            DhcpOption::DhcpMessageType(t) => {
                let mut d: Vec<u8> = Vec::new();
                d.push(t.value());
                assert(d@ =~= self@.payload());
                d
            },
            DhcpOption::ServerIdentifier(a) => slice_to_vec(a.octets().as_slice()),
            DhcpOption::ParameterRequestList(d) => slice_to_vec(d.as_slice()),
            DhcpOption::RequestedIpAddress(a) => slice_to_vec(a.octets().as_slice()),
            DhcpOption::HostName(s) => slice_to_vec(s.as_str().as_bytes()),
            DhcpOption::Router(a) => octets_of_addrs(a.as_slice()),
            DhcpOption::DomainNameServer(a) => octets_of_addrs(a.as_slice()),
            DhcpOption::IpAddressLeaseTime(t) => {
                let mut d: Vec<u8> = Vec::new();
                push_u32(&mut d, *t);
                assert(d@ =~= self@.payload());
                d
            },
            DhcpOption::SubnetMask(a) => slice_to_vec(a.octets().as_slice()),
            DhcpOption::Message(s) => slice_to_vec(s.as_str().as_bytes()),
            DhcpOption::Unrecognized(r) => slice_to_vec(r.data.as_slice()),
        };
        RawDhcpOption { code, data }
    }

    /// The length of the payload where it is below `limit`.
    pub fn data_len_below(&self, limit: usize) -> (r: Option<usize>)
        requires
            limit <= 0xffff,
        ensures
            match r {
                Some(n) => n == self@.payload().len() && n < limit,
                None => self@.payload().len() >= limit,
            },
    {
        broadcast use {lemma_addrs_octets_len, lemma_be_bytes_len};

        let n: usize = match self {
            DhcpOption::DhcpMessageType(_) => 1,
            DhcpOption::ServerIdentifier(_) => 4,
            DhcpOption::ParameterRequestList(d) => d.len(),
            DhcpOption::RequestedIpAddress(_) => 4,
            DhcpOption::HostName(s) => s.as_str().as_bytes().len(),
            DhcpOption::Router(a) => if a.len() < limit {
                a.len() * 4
            } else {
                return None;
            },
            DhcpOption::DomainNameServer(a) => if a.len() < limit {
                a.len() * 4
            } else {
                return None;
            },
            DhcpOption::IpAddressLeaseTime(_) => 4,
            DhcpOption::SubnetMask(_) => 4,
            DhcpOption::Message(s) => s.as_str().as_bytes().len(),
            DhcpOption::Unrecognized(r) => r.data.len(),
        };
        if n < limit {
            Some(n)
        } else {
            None
        }
    }

    /// The same option once more.
    pub fn duplicate(&self) -> (r: DhcpOption)
        ensures
            r@ == self@,
    {
        match self {
            DhcpOption::DhcpMessageType(t) => DhcpOption::DhcpMessageType(*t),
            DhcpOption::ServerIdentifier(a) => DhcpOption::ServerIdentifier(*a),
            DhcpOption::ParameterRequestList(d) => DhcpOption::ParameterRequestList(
                slice_to_vec(d.as_slice()),
            ),
            DhcpOption::RequestedIpAddress(a) => DhcpOption::RequestedIpAddress(*a),
            DhcpOption::HostName(s) => DhcpOption::HostName(s.as_str().to_owned()),
            DhcpOption::Router(a) => DhcpOption::Router(slice_to_vec(a.as_slice())),
            DhcpOption::DomainNameServer(a) => DhcpOption::DomainNameServer(
                slice_to_vec(a.as_slice()),
            ),
            DhcpOption::IpAddressLeaseTime(t) => DhcpOption::IpAddressLeaseTime(*t),
            DhcpOption::SubnetMask(a) => DhcpOption::SubnetMask(*a),
            DhcpOption::Message(s) => DhcpOption::Message(s.as_str().to_owned()),
            DhcpOption::Unrecognized(r) => DhcpOption::Unrecognized(
                RawDhcpOption { code: r.code, data: slice_to_vec(r.data.as_slice()) },
            ),
        }
    }
}

/// Copies of `opts`, in order.
pub fn duplicate_options(opts: &[DhcpOption]) -> (r: Vec<DhcpOption>)
    ensures
        option_views(r@) == option_views(opts@),
{
    let mut r: Vec<DhcpOption> = Vec::new();
    let mut i: usize = 0;
    while i < opts.len()
        invariant
            i <= opts@.len(),
            r@.len() == i,
            forall|j: int| 0 <= j < i ==> #[trigger] r@[j]@ == opts@[j]@,
        decreases opts@.len() - i,
    {
        r.push(opts[i].duplicate());
        i = i + 1;
    }
    assert(option_views(r@) =~= option_views(opts@));
    r
}

} // verus!
