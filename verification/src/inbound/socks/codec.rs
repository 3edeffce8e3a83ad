//! SOCKS5 messages on the wire.

use vstd::prelude::*;
use vstd::utf8::*;

use crate::dns::wire::{be16, be16_bytes};
use crate::inbound::socks::error::{SocksError, SocksErrorView};
use crate::text::{clone_bytes, utf8_text};
use crate::types::{
    Destination, DestinationView, Host, HostView, IpAddr, IpView, SocketAddr, SocketView,
};

verus! {

/// The protocol version.
pub const SOCKS_VERSION: u8 = 5;

/// The method of clients that do not authenticate.
pub const NO_AUTHENTICATION: u8 = 0;

/// The answer to a client none of whose methods is accepted.
pub const NO_ACCEPTABLE_METHODS: u8 = 0xff;

/// The methods a client offers.
#[derive(Debug, PartialEq, Eq)]
pub struct Greeting {
    pub methods: Vec<u8>,
}

/// What a client asks for.
#[derive(Clone, Copy, Debug, PartialEq, Eq, Structural)]
pub enum Command {
    Connect,
}

/// How an address is written.
#[derive(Clone, Copy, Debug, PartialEq, Eq, Structural)]
pub enum AddressType {
    Ipv4,
    Domain,
    Ipv6,
}

/// A client's request.
#[derive(Debug, PartialEq, Eq)]
pub struct Request {
    pub command: Command,
    pub destination: Destination,
}

/// A request as mathematical values.
#[verifier::ext_equal]
pub struct SocksRequestView {
    pub command: Command,
    pub destination: DestinationView,
}

impl View for Request {
    type V = SocksRequestView;

    open spec fn view(&self) -> SocksRequestView {
        SocksRequestView { command: self.command, destination: self.destination@ }
    }
}

/// The answer to a request.
#[derive(Clone, Copy, Debug, PartialEq, Eq, Structural)]
pub enum ReplyCode {
    Succeeded,
    GeneralFailure,
    CommandNotSupported,
    AddressTypeNotSupported,
}

/// The byte of an answer.
pub open spec fn reply_byte(code: ReplyCode) -> u8 {
    match code {
        ReplyCode::Succeeded => 0,
        ReplyCode::GeneralFailure => 1,
        ReplyCode::CommandNotSupported => 7,
        ReplyCode::AddressTypeNotSupported => 8,
    }
}

impl ReplyCode {
    /// The byte of the answer.
    pub fn as_byte(self) -> (r: u8)
        ensures
            r == reply_byte(self),
    {
        match self {
            ReplyCode::Succeeded => 0,
            ReplyCode::GeneralFailure => 1,
            ReplyCode::CommandNotSupported => 7,
            ReplyCode::AddressTypeNotSupported => 8,
        }
    }
}

/// The byte of an address type.
pub open spec fn address_type_byte(kind: AddressType) -> u8 {
    match kind {
        AddressType::Ipv4 => 1,
        AddressType::Domain => 3,
        AddressType::Ipv6 => 4,
    }
}

impl AddressType {
    /// The address type of a byte.
    pub fn from_byte(byte: u8) -> (r: Option<Self>)
        ensures
            match r {
                Some(kind) => address_type_byte(kind) == byte,
                None => byte != 1 && byte != 3 && byte != 4,
            },
    {
        if byte == 1 {
            Some(AddressType::Ipv4)
        } else if byte == 3 {
            Some(AddressType::Domain)
        } else if byte == 4 {
            Some(AddressType::Ipv6)
        } else {
            None
        }
    }
}

/// The methods a greeting offers.
pub open spec fn greeting_of(m: Seq<u8>) -> core::result::Result<Seq<u8>, SocksErrorView> {
    if m.len() < 2 {
        Err(SocksErrorView::Protocol("greeting is too short"@))
    } else if m[0] != SOCKS_VERSION {
        Err(SocksErrorView::Protocol("unsupported SOCKS version"@))
    } else if m.len() != 2 + m[1] {
        Err(SocksErrorView::Protocol("greeting length does not match its methods"@))
    } else {
        Ok(m.skip(2))
    }
}

/// Reads a greeting.
pub fn decode_greeting(bytes: &[u8]) -> (r: core::result::Result<Greeting, SocksError>)
    ensures
        match greeting_of(bytes@) {
            Ok(methods) => r matches Ok(greeting) && greeting.methods@ == methods,
            Err(e) => r matches Err(err) && err@ == e,
        },
{
    if bytes.len() < 2 {
        return Err(SocksError::Protocol("greeting is too short".to_owned()));
    }
    if bytes[0] != SOCKS_VERSION {
        return Err(SocksError::Protocol("unsupported SOCKS version".to_owned()));
    }
    if bytes.len() - 2 != bytes[1] as usize {
        return Err(
            SocksError::Protocol("greeting length does not match its methods".to_owned()),
        );
    }
    let methods = clone_bytes(vstd::slice::slice_subrange(bytes, 2, bytes.len()));
    assert(methods@ =~= bytes@.skip(2));
    Ok(Greeting { methods })
}

/// The destination a request names, of which the bytes behind the address type are `rest`.
pub open spec fn destination_of(atyp: u8, rest: Seq<u8>) -> core::result::Result<
    DestinationView,
    SocksErrorView,
> {
    if atyp == 1 {
        if rest.len() != 6 {
            Err(SocksErrorView::Protocol("request length does not match its address"@))
        } else {
            Ok(DestinationView { host: HostView::Ip(IpView::V4(rest.take(4))), port: be16(rest, 4) })
        }
    } else if atyp == 4 {
        if rest.len() != 18 {
            Err(SocksErrorView::Protocol("request length does not match its address"@))
        } else {
            Ok(
                DestinationView {
                    host: HostView::Ip(IpView::V6(rest.take(16))),
                    port: be16(rest, 16),
                },
            )
        }
    } else if atyp == 3 {
        if rest.len() < 1 || rest.len() != 3 + rest[0] {
            Err(SocksErrorView::Protocol("request length does not match its address"@))
        } else if rest[0] == 0 {
            Err(SocksErrorView::Protocol("domain is empty"@))
        } else {
            let name = rest.subrange(1, 1 + rest[0] as int);
            if !valid_utf8(name) {
                Err(SocksErrorView::Protocol("domain is not valid utf-8"@))
            } else {
                Ok(
                    DestinationView {
                        host: HostView::Domain(decode_utf8(name)),
                        port: be16(rest, 1 + rest[0] as int),
                    },
                )
            }
        }
    } else {
        Err(SocksErrorView::UnsupportedAddressType(atyp))
    }
}

/// What a request asks for. Only connections are supported.
pub open spec fn request_of(m: Seq<u8>) -> core::result::Result<SocksRequestView, SocksErrorView> {
    if m.len() < 4 {
        Err(SocksErrorView::Protocol("request is too short"@))
    } else if m[0] != SOCKS_VERSION {
        Err(SocksErrorView::Protocol("unsupported SOCKS version"@))
    } else if m[1] != 1 {
        Err(SocksErrorView::UnsupportedCommand(m[1]))
    } else {
        match destination_of(m[3], m.skip(4)) {
            Ok(destination) => Ok(SocksRequestView { command: Command::Connect, destination }),
            Err(e) => Err(e),
        }
    }
}

fn read_port(bytes: &[u8], at: usize) -> (r: u16)
    requires
        at + 1 < bytes@.len(),
    ensures
        r == be16(bytes@, at as int),
{
    (bytes[at] as u16) * 256 + (bytes[at + 1] as u16)
}

fn mismatched() -> (r: SocksError)
    ensures
        r@ == SocksErrorView::Protocol("request length does not match its address"@),
{
    SocksError::Protocol("request length does not match its address".to_owned())
}

fn decode_destination(atyp: u8, rest: &[u8]) -> (r: core::result::Result<Destination, SocksError>)
    ensures
        match destination_of(atyp, rest@) {
            Ok(destination) => r matches Ok(d) && d@ == destination,
            Err(e) => r matches Err(err) && err@ == e,
        },
{
    match AddressType::from_byte(atyp) {
        Some(AddressType::Ipv4) => {
            if rest.len() != 6 {
                return Err(mismatched());
            }
            let octets: [u8; 4] = [rest[0], rest[1], rest[2], rest[3]];
            assert(octets@ =~= rest@.take(4));
            Ok(Destination::new(Host::Ip(IpAddr::V4(octets)), read_port(rest, 4)))
        },
        Some(AddressType::Ipv6) => {
            if rest.len() != 18 {
                return Err(mismatched());
            }
            let mut octets: [u8; 16] = [0; 16];
            let mut i: usize = 0;
            while i < 16
                invariant
                    i <= 16,
                    rest@.len() == 18,
                    forall|j: int| 0 <= j < i ==> octets@[j] == rest@[j],
                decreases 16 - i,
            {
                octets[i] = rest[i];
                i += 1;
            }
            assert(octets@ =~= rest@.take(16));
            Ok(Destination::new(Host::Ip(IpAddr::V6(octets)), read_port(rest, 16)))
        },
        Some(AddressType::Domain) => {
            if rest.len() < 1 || rest.len() != 3 + rest[0] as usize {
                return Err(mismatched());
            }
            let length: usize = rest[0] as usize;
            if length == 0 {
                return Err(SocksError::Protocol("domain is empty".to_owned()));
            }
            match utf8_text(vstd::slice::slice_subrange(rest, 1, 1 + length)) {
                Ok(domain) => Ok(
                    Destination::new(Host::Domain(domain), read_port(rest, 1 + length)),
                ),
                Err(_) => Err(SocksError::Protocol("domain is not valid utf-8".to_owned())),
            }
        },
        None => Err(SocksError::UnsupportedAddressType(atyp)),
    }
}

/// Reads a request.
pub fn decode_request(bytes: &[u8]) -> (r: core::result::Result<Request, SocksError>)
    ensures
        match request_of(bytes@) {
            Ok(request) => r matches Ok(found) && found@ == request,
            Err(e) => r matches Err(err) && err@ == e,
        },
{
    if bytes.len() < 4 {
        return Err(SocksError::Protocol("request is too short".to_owned()));
    }
    if bytes[0] != SOCKS_VERSION {
        return Err(SocksError::Protocol("unsupported SOCKS version".to_owned()));
    }
    if bytes[1] != 1 {
        return Err(SocksError::UnsupportedCommand(bytes[1]));
    }
    let rest = vstd::slice::slice_subrange(bytes, 4, bytes.len());
    assert(rest@ =~= bytes@.skip(4));
    match decode_destination(bytes[3], rest) {
        Ok(destination) => Ok(Request { command: Command::Connect, destination }),
        Err(err) => Err(err),
    }
}

/// Writes the method that was selected.
pub fn encode_method_selection(method: u8) -> (r: Vec<u8>)
    ensures
        r@ == seq![SOCKS_VERSION, method],
{
    let mut bytes: Vec<u8> = Vec::new();
    bytes.push(SOCKS_VERSION);
    bytes.push(method);
    assert(bytes@ =~= seq![SOCKS_VERSION, method]);
    bytes
}

/// The bound address of a reply; the unspecified IPv4 address and no port where none is known.
pub open spec fn bound_address(bound: Option<SocketView>) -> Seq<u8> {
    match bound {
        None => seq![1u8, 0u8, 0u8, 0u8, 0u8, 0u8, 0u8],
        Some(address) => match address.ip {
            IpView::V4(octets) => seq![1u8] + octets + be16_bytes(address.port),
            IpView::V6(octets) => seq![4u8] + octets + be16_bytes(address.port),
        },
    }
}

/// A reply with its bound address.
pub open spec fn reply_of(code: ReplyCode, bound: Option<SocketView>) -> Seq<u8> {
    seq![SOCKS_VERSION, reply_byte(code), 0u8] + bound_address(bound)
}

/// An optional address as mathematical values.
pub open spec fn option_socket(address: Option<SocketAddr>) -> Option<SocketView> {
    match address {
        Some(address) => Some(address@),
        None => None,
    }
}

/// Writes a reply with the address the connection is bound to.
pub fn encode_reply(code: ReplyCode, bound: Option<SocketAddr>) -> (r: Vec<u8>)
    ensures
        r@ == reply_of(code, option_socket(bound)),
{
    let mut bytes: Vec<u8> = Vec::new();
    bytes.push(SOCKS_VERSION);
    bytes.push(code.as_byte());
    bytes.push(0);
    match bound {
        None => {
            bytes.push(1);
            bytes.push(0);
            bytes.push(0);
            bytes.push(0);
            bytes.push(0);
            bytes.push(0);
            bytes.push(0);
        },
        Some(address) => {
            match address.ip {
                IpAddr::V4(octets) => {
                    bytes.push(1);
                    bytes.extend_from_slice(octets.as_slice());
                },
                IpAddr::V6(octets) => {
                    bytes.push(4);
                    bytes.extend_from_slice(octets.as_slice());
                },
            }
            bytes.push((address.port / 256) as u8);
            bytes.push((address.port % 256) as u8);
        },
    }
    assert(bytes@ =~= reply_of(code, option_socket(bound)));
    bytes
}

/// The request that asks for a connection to `destination`, as a client writes it. A domain must
/// have a length that fits one byte.
pub open spec fn connect_request(destination: DestinationView) -> Seq<u8> {
    seq![SOCKS_VERSION, 1u8, 0u8] + match destination.host {
        HostView::Ip(IpView::V4(octets)) => seq![1u8] + octets,
        HostView::Ip(IpView::V6(octets)) => seq![4u8] + octets,
        HostView::Domain(domain) => seq![3u8, encode_utf8(domain).len() as u8] + encode_utf8(
            domain,
        ),
    } + be16_bytes(destination.port)
}

/// A request that a client writes is read as the destination it was written for.
pub proof fn law_request_names_its_destination(destination: DestinationView)
    requires
        match destination.host {
            HostView::Ip(IpView::V4(octets)) => octets.len() == 4,
            HostView::Ip(IpView::V6(octets)) => octets.len() == 16,
            HostView::Domain(domain) => 0 < encode_utf8(domain).len() <= 255,
        },
    ensures
        request_of(connect_request(destination)) == Ok::<SocksRequestView, SocksErrorView>(
            SocksRequestView { command: Command::Connect, destination },
        ),
{
    let m = connect_request(destination);
    let rest = m.skip(4);
    let port = destination.port;
    assert((port / 256) * 256 + port % 256 == port);
    match destination.host {
        HostView::Ip(IpView::V4(octets)) => {
            assert(rest =~= octets + be16_bytes(port));
            assert(rest.take(4) =~= octets);
        },
        HostView::Ip(IpView::V6(octets)) => {
            assert(rest =~= octets + be16_bytes(port));
            assert(rest.take(16) =~= octets);
        },
        HostView::Domain(domain) => {
            let name = encode_utf8(domain);
            assert(rest =~= seq![name.len() as u8] + name + be16_bytes(port));
            assert(rest.subrange(1, 1 + rest[0] as int) =~= name);
            encode_utf8_valid_utf8(domain);
            encode_utf8_decode_utf8(domain);
        },
    }
}

/// A request is the version, the command to connect, a reserved byte, the type of the address, the
/// address and the port, high byte first. A domain stands behind its length.
pub proof fn law_request_layout(destination: DestinationView)
    requires
        match destination.host {
            HostView::Ip(IpView::V4(octets)) => octets.len() == 4,
            HostView::Ip(IpView::V6(octets)) => octets.len() == 16,
            HostView::Domain(domain) => 0 < encode_utf8(domain).len() <= 255,
        },
    ensures
        ({
            let m = connect_request(destination);
            &&& m[0] == 5 && m[1] == 1 && m[2] == 0
            &&& match destination.host {
                HostView::Ip(IpView::V4(octets)) => m.len() == 10 && m[3] == 1 && m.subrange(4, 8)
                    == octets,
                HostView::Ip(IpView::V6(octets)) => m.len() == 22 && m[3] == 4 && m.subrange(4, 20)
                    == octets,
                HostView::Domain(domain) => m[3] == 3 && m[4] == encode_utf8(domain).len()
                    && m.len() == 7 + m[4] && m.subrange(5, 5 + m[4]) == encode_utf8(domain),
            }
            &&& m[m.len() - 2] * 256 + m[m.len() - 1] == destination.port
        }),
{
    let m = connect_request(destination);
    match destination.host {
        HostView::Ip(IpView::V4(octets)) => {
            assert(m.subrange(4, 8) =~= octets);
        },
        HostView::Ip(IpView::V6(octets)) => {
            assert(m.subrange(4, 20) =~= octets);
        },
        HostView::Domain(domain) => {
            assert(m.subrange(5, 5 + m[4]) =~= encode_utf8(domain));
        },
    }
    assert(m[m.len() - 2] == (destination.port / 256) as u8);
    assert(m[m.len() - 1] == (destination.port % 256) as u8);
}

/// What is read off a request is what its bytes say: it is taken exactly where it has the version,
/// asks to connect, and is just as long as its address needs; the address and the port are then
/// those bytes.
pub proof fn law_request_means_its_bytes(m: Seq<u8>)
    ensures
        match request_of(m) {
            Ok(request) => {
                &&& m.len() >= 7 && m[0] == 5 && m[1] == 1
                &&& request.command == Command::Connect
                &&& request.destination.port == m[m.len() - 2] * 256 + m[m.len() - 1]
                &&& match request.destination.host {
                    HostView::Ip(IpView::V4(octets)) => m[3] == 1 && m.len() == 10 && octets
                        == m.subrange(4, 8),
                    HostView::Ip(IpView::V6(octets)) => m[3] == 4 && m.len() == 22 && octets
                        == m.subrange(4, 20),
                    HostView::Domain(domain) => m[3] == 3 && m[4] > 0 && m.len() == 7 + m[4]
                        && valid_utf8(m.subrange(5, 5 + m[4])) && domain == decode_utf8(
                        m.subrange(5, 5 + m[4]),
                    ),
                }
            },
            Err(SocksErrorView::UnsupportedCommand(command)) => m.len() >= 4 && m[0] == 5 && m[1]
                == command && command != 1,
            Err(SocksErrorView::UnsupportedAddressType(kind)) => m.len() >= 4 && m[0] == 5 && m[1]
                == 1 && m[3] == kind && kind != 1 && kind != 3 && kind != 4,
            Err(SocksErrorView::Protocol(_)) => {
                ||| m.len() < 4
                ||| m[0] != 5
                ||| m[3] == 1 && m.len() != 10
                ||| m[3] == 4 && m.len() != 22
                ||| m[3] == 3 && (m.len() < 5 || m.len() != 7 + m[4] || m[4] == 0 || !valid_utf8(
                    m.subrange(5, 5 + m[4]),
                ))
            },
            Err(_) => false,
        },
{
    if m.len() >= 4 {
        let rest = m.skip(4);
        if m[3] == 1 && m.len() == 10 {
            assert(rest.take(4) =~= m.subrange(4, 8));
        } else if m[3] == 4 && m.len() == 22 {
            assert(rest.take(16) =~= m.subrange(4, 20));
        } else if m[3] == 3 && m.len() >= 5 {
            assert(rest[0] == m[4]);
            if m.len() == 7 + m[4] {
                assert(rest.subrange(1, 1 + rest[0] as int) =~= m.subrange(5, 5 + m[4]));
            }
        }
    }
}

/// A greeting is the version, the number of methods and the methods; it is taken exactly where it is
/// just that, and offers just those methods.
pub proof fn law_greeting_means_its_bytes(m: Seq<u8>)
    ensures
        greeting_of(m) is Ok <==> m.len() >= 2 && m[0] == 5 && m.len() == 2 + m[1],
        greeting_of(m) matches Ok(methods) ==> m == seq![5u8, methods.len() as u8] + methods,
        greeting_of(m) matches Err(e) ==> e is Protocol,
{
    if let Ok(methods) = greeting_of(m) {
        assert(m =~= seq![5u8, methods.len() as u8] + methods);
    }
}

/// A reply is the version, the byte of the answer, a reserved byte, the type of the bound address,
/// the address and the port, high byte first; where no address is known it is the unspecified IPv4
/// address and no port.
pub proof fn law_reply_layout(code: ReplyCode, bound: Option<SocketView>)
    ensures
        ({
            let m = reply_of(code, bound);
            &&& m[0] == 5 && m[2] == 0
            &&& m[1] == match code {
                ReplyCode::Succeeded => 0u8,
                ReplyCode::GeneralFailure => 1u8,
                ReplyCode::CommandNotSupported => 7u8,
                ReplyCode::AddressTypeNotSupported => 8u8,
            }
            &&& match bound {
                None => m.skip(3) == seq![1u8, 0u8, 0u8, 0u8, 0u8, 0u8, 0u8],
                Some(address) => {
                    &&& m[m.len() - 2] * 256 + m[m.len() - 1] == address.port
                    &&& match address.ip {
                        IpView::V4(octets) => m[3] == 1 && m.len() == 6 + octets.len()
                            && m.subrange(4, m.len() - 2) == octets,
                        IpView::V6(octets) => m[3] == 4 && m.len() == 6 + octets.len()
                            && m.subrange(4, m.len() - 2) == octets,
                    }
                },
            }
        }),
{
    let m = reply_of(code, bound);
    match bound {
        None => {
            assert(m.skip(3) =~= seq![1u8, 0u8, 0u8, 0u8, 0u8, 0u8, 0u8]);
        },
        Some(address) => {
            assert(m[m.len() - 2] == (address.port / 256) as u8);
            assert(m[m.len() - 1] == (address.port % 256) as u8);
            match address.ip {
                IpView::V4(octets) => {
                    assert(m.subrange(4, m.len() - 2) =~= octets);
                },
                IpView::V6(octets) => {
                    assert(m.subrange(4, m.len() - 2) =~= octets);
                },
            }
        },
    }
}

/// Answers and address types have their bytes on the wire, and no two of them share one.
pub proof fn law_bytes_on_the_wire(code: ReplyCode, kind: AddressType)
    ensures
        reply_byte(code) == match code {
            ReplyCode::Succeeded => 0u8,
            ReplyCode::GeneralFailure => 1u8,
            ReplyCode::CommandNotSupported => 7u8,
            ReplyCode::AddressTypeNotSupported => 8u8,
        },
        address_type_byte(kind) == match kind {
            AddressType::Ipv4 => 1u8,
            AddressType::Domain => 3u8,
            AddressType::Ipv6 => 4u8,
        },
{
}

/// A request shows its command and its destination, and an optional address shows itself.
pub proof fn law_codec_views_show_everything(request: Request, address: SocketAddr)
    ensures
        request@.command == request.command,
        request@.destination == request.destination@,
        option_socket(Some(address)) == Some(address@),
        option_socket(None) is None,
{
}

} // verus!
