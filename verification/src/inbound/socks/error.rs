//! What goes wrong in a SOCKS handshake.

use vstd::prelude::*;
use vstd::string::*;

use crate::error::{protocol_error, ErrorKind, ErrorView, ProxyError};
use crate::text::{hex_byte, hex_byte_text};

verus! {

/// Why a handshake failed.
#[derive(Debug, PartialEq, Eq)]
pub enum SocksError {
    /// An I/O failure, held as its rendered text.
    Io(String),
    Protocol(String),
    UnsupportedAuthMethods,
    UnsupportedCommand(u8),
    UnsupportedAddressType(u8),
}

/// An error as mathematical values.
#[verifier::ext_equal]
pub enum SocksErrorView {
    Io(Seq<char>),
    Protocol(Seq<char>),
    UnsupportedAuthMethods,
    UnsupportedCommand(u8),
    UnsupportedAddressType(u8),
}

impl View for SocksError {
    type V = SocksErrorView;

    open spec fn view(&self) -> SocksErrorView {
        match self {
            SocksError::Io(cause) => SocksErrorView::Io(cause@),
            SocksError::Protocol(message) => SocksErrorView::Protocol(message@),
            SocksError::UnsupportedAuthMethods => SocksErrorView::UnsupportedAuthMethods,
            SocksError::UnsupportedCommand(cmd) => SocksErrorView::UnsupportedCommand(*cmd),
            SocksError::UnsupportedAddressType(atyp) => SocksErrorView::UnsupportedAddressType(
                *atyp,
            ),
        }
    }
}

/// The text that describes an error.
pub open spec fn socks_error_text(error: SocksErrorView) -> Seq<char> {
    match error {
        SocksErrorView::Io(cause) => "i/o error: "@ + cause,
        SocksErrorView::Protocol(message) => "protocol error: "@ + message,
        SocksErrorView::UnsupportedAuthMethods => "no supported authentication method"@,
        SocksErrorView::UnsupportedCommand(cmd) => "unsupported command: 0x"@ + hex_byte(cmd),
        SocksErrorView::UnsupportedAddressType(atyp) => "unsupported address type: 0x"@ + hex_byte(
            atyp,
        ),
    }
}

/// The runtime's error for a handshake error.
pub open spec fn socks_proxy_error(error: SocksErrorView) -> ErrorView {
    match error {
        SocksErrorView::Io(cause) => ErrorView { kind: ErrorKind::Io, message: cause },
        SocksErrorView::Protocol(message) => protocol_error(message),
        SocksErrorView::UnsupportedAuthMethods => protocol_error(
            "no supported authentication method"@,
        ),
        SocksErrorView::UnsupportedCommand(cmd) => protocol_error(
            "unsupported SOCKS command: 0x"@ + hex_byte(cmd),
        ),
        SocksErrorView::UnsupportedAddressType(atyp) => protocol_error(
            "unsupported SOCKS address type: 0x"@ + hex_byte(atyp),
        ),
    }
}

impl SocksError {
    /// The text that describes the error.
    pub fn message(&self) -> (r: String)
        ensures
            r@ == socks_error_text(self@),
    {
        match self {
            SocksError::Io(cause) => "i/o error: ".to_owned().concat(cause.as_str()),
            SocksError::Protocol(message) => "protocol error: ".to_owned().concat(
                message.as_str(),
            ),
            SocksError::UnsupportedAuthMethods => "no supported authentication method".to_owned(),
            SocksError::UnsupportedCommand(cmd) => "unsupported command: 0x".to_owned().concat(
                hex_byte_text(*cmd).as_str(),
            ),
            SocksError::UnsupportedAddressType(atyp) =>
                "unsupported address type: 0x".to_owned().concat(hex_byte_text(*atyp).as_str()),
        }
    }

    /// The runtime's error for this one.
    pub fn into_proxy_error(self) -> (r: ProxyError)
        ensures
            r@ == socks_proxy_error(self@),
    {
        match self {
            SocksError::Io(cause) => ProxyError::Io(cause),
            SocksError::Protocol(message) => ProxyError::Protocol(message),
            SocksError::UnsupportedAuthMethods => ProxyError::protocol(
                "no supported authentication method",
            ),
            SocksError::UnsupportedCommand(cmd) => ProxyError::Protocol(
                "unsupported SOCKS command: 0x".to_owned().concat(hex_byte_text(cmd).as_str()),
            ),
            SocksError::UnsupportedAddressType(atyp) => ProxyError::Protocol(
                "unsupported SOCKS address type: 0x".to_owned().concat(
                    hex_byte_text(atyp).as_str(),
                ),
            ),
        }
    }
}

/// An I/O failure stays one, with its own text; every other failure of a handshake is a protocol
/// error, and what is not supported is named by its byte.
pub proof fn law_socks_errors_keep_their_kind(error: SocksErrorView)
    ensures
        match error {
            SocksErrorView::Io(cause) => socks_proxy_error(error).kind == ErrorKind::Io
                && socks_proxy_error(error).message == cause,
            SocksErrorView::Protocol(message) => socks_proxy_error(error).kind
                == ErrorKind::Protocol && socks_proxy_error(error).message == message,
            SocksErrorView::UnsupportedAuthMethods => socks_proxy_error(error).kind
                == ErrorKind::Protocol && socks_proxy_error(error).message
                == "no supported authentication method"@,
            SocksErrorView::UnsupportedCommand(byte) => socks_proxy_error(error).kind
                == ErrorKind::Protocol && socks_proxy_error(error).message
                == "unsupported SOCKS command: 0x"@ + hex_byte(byte),
            SocksErrorView::UnsupportedAddressType(byte) => socks_proxy_error(error).kind
                == ErrorKind::Protocol && socks_proxy_error(error).message
                == "unsupported SOCKS address type: 0x"@ + hex_byte(byte),
        },
{
}

/// The text of an error tells what failed, with the cause or the byte in question, and a view shows
/// which error it is.
pub proof fn law_socks_error_texts(error: SocksErrorView, held: SocksError)
    ensures
        socks_error_text(error) == match error {
            SocksErrorView::Io(cause) => "i/o error: "@ + cause,
            SocksErrorView::Protocol(message) => "protocol error: "@ + message,
            SocksErrorView::UnsupportedAuthMethods => "no supported authentication method"@,
            SocksErrorView::UnsupportedCommand(byte) => "unsupported command: 0x"@ + hex_byte(byte),
            SocksErrorView::UnsupportedAddressType(byte) => "unsupported address type: 0x"@
                + hex_byte(byte),
        },
        match held {
            SocksError::Io(cause) => held@ == SocksErrorView::Io(cause@),
            SocksError::Protocol(message) => held@ == SocksErrorView::Protocol(message@),
            SocksError::UnsupportedAuthMethods => held@ == SocksErrorView::UnsupportedAuthMethods,
            SocksError::UnsupportedCommand(byte) => held@ == SocksErrorView::UnsupportedCommand(
                byte,
            ),
            SocksError::UnsupportedAddressType(byte) => held@
                == SocksErrorView::UnsupportedAddressType(byte),
        },
{
}

} // verus!
