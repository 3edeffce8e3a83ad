//! The tproxy inbound: streams that were addressed to their destination and arrive here
//! transparently.

use vstd::prelude::*;
use vstd::string::*;

use crate::error::{config_error, protocol_error, ErrorKind, ErrorView, ProxyError, Result};
use crate::inbound::common::{
    blank, build_session_bootstrap, following_id, listen_fault, stream_session, validate_listen,
    SessionIds,
};
use crate::session::SessionContext;
use crate::time::Instant;
use crate::types::{Destination, SocketAddr};

verus! {

/// Why a transparent socket failed.
#[derive(Debug, PartialEq, Eq)]
pub enum TransparentError {
    UnsupportedPlatform,
    /// An I/O failure, held as its rendered text.
    Io(String),
    /// Another failure, held as its rendered text.
    Other(String),
}

/// Why the destination of a stream is not known.
#[derive(Debug, PartialEq, Eq)]
pub enum TProxyError {
    UnsupportedPlatform,
    /// A failure of the transparent socket, held as its rendered text.
    Transparent(String),
    /// An I/O failure, held as its rendered text.
    Io(String),
}

/// The text that describes an error.
pub open spec fn tproxy_error_text(error: TProxyError) -> Seq<char> {
    match error {
        TProxyError::UnsupportedPlatform => "tproxy inbound is only supported on linux"@,
        TProxyError::Transparent(cause) => "tproxy transparent socket error: "@ + cause@,
        TProxyError::Io(cause) => "tproxy inbound i/o error: "@ + cause@,
    }
}

/// The runtime's error for a tproxy error: I/O failures stay what they are, the others are protocol
/// errors.
pub open spec fn tproxy_proxy_error(error: TProxyError) -> ErrorView {
    match error {
        TProxyError::Io(cause) => ErrorView { kind: ErrorKind::Io, message: cause@ },
        other => protocol_error(tproxy_error_text(other)),
    }
}

impl TProxyError {
    /// The tproxy error for a failure of the transparent socket.
    pub fn from_transparent(error: TransparentError) -> (r: Self)
        ensures
            r == match error {
                TransparentError::UnsupportedPlatform => TProxyError::UnsupportedPlatform,
                TransparentError::Io(cause) => TProxyError::Io(cause),
                TransparentError::Other(cause) => TProxyError::Transparent(cause),
            },
    {
        match error {
            TransparentError::UnsupportedPlatform => TProxyError::UnsupportedPlatform,
            TransparentError::Io(cause) => TProxyError::Io(cause),
            TransparentError::Other(cause) => TProxyError::Transparent(cause),
        }
    }

    /// The text that describes the error.
    pub fn message(&self) -> (r: String)
        ensures
            r@ == tproxy_error_text(*self),
    {
        match self {
            TProxyError::UnsupportedPlatform =>
                "tproxy inbound is only supported on linux".to_owned(),
            TProxyError::Transparent(cause) => "tproxy transparent socket error: ".to_owned().concat(
                cause.as_str(),
            ),
            TProxyError::Io(cause) => "tproxy inbound i/o error: ".to_owned().concat(
                cause.as_str(),
            ),
        }
    }

    /// The runtime's error for this one.
    pub fn into_proxy_error(self) -> (r: ProxyError)
        ensures
            r@ == tproxy_proxy_error(self),
    {
        match self {
            TProxyError::Io(cause) => ProxyError::Io(cause),
            other => ProxyError::Protocol(other.message()),
        }
    }
}

/// The tproxy inbound.
#[derive(Debug)]
pub struct TProxyInbound {
    tag: String,
    listen: String,
    listen_port: u16,
    ids: SessionIds,
}

/// A tproxy inbound as mathematical values.
#[verifier::ext_equal]
pub struct TProxyView {
    pub tag: Seq<char>,
    pub listen: Seq<char>,
    pub listen_port: u16,
    pub next_id: u64,
}

impl View for TProxyInbound {
    type V = TProxyView;

    closed spec fn view(&self) -> TProxyView {
        TProxyView {
            tag: self.tag@,
            listen: self.listen@,
            listen_port: self.listen_port,
            next_id: self.ids@,
        }
    }
}

/// What is wrong with the settings of a tproxy inbound, where `address` says whether the listen
/// address could be read.
pub open spec fn tproxy_fault(
    inbound: TProxyView,
    address: core::result::Result<(), String>,
) -> Option<ErrorView> {
    match listen_fault(
        "tproxy inbound"@,
        inbound.tag,
        None,
        inbound.listen,
        inbound.listen_port,
    ) {
        Some(e) => Some(e),
        None => match address {
            Ok(_) => None,
            Err(cause) => Some(
                config_error("tproxy inbound listen must be a valid socket address: "@ + cause@),
            ),
        },
    }
}

impl TProxyInbound {
    /// A tproxy inbound.
    pub fn new(tag: &str, listen: &str, listen_port: u16) -> (r: Self)
        ensures
            r@ == (TProxyView { tag: tag@, listen: listen@, listen_port, next_id: 1 }),
    {
        TProxyInbound {
            tag: tag.to_owned(),
            listen: listen.to_owned(),
            listen_port,
            ids: SessionIds::new(),
        }
    }

    /// The tag.
    pub fn tag(&self) -> (r: &str)
        ensures
            r@ == self@.tag,
    {
        self.tag.as_str()
    }

    /// The listen address.
    pub fn listen(&self) -> (r: &str)
        ensures
            r@ == self@.listen,
    {
        self.listen.as_str()
    }

    /// The listen port.
    pub fn listen_port(&self) -> (r: u16)
        ensures
            r == self@.listen_port,
    {
        self.listen_port
    }

    /// Checks the settings; `address` says whether the listen address could be read.
    pub fn validate(&self, address: core::result::Result<(), String>) -> (r: Result<()>)
        ensures
            match tproxy_fault(self@, address) {
                Some(e) => r matches Err(err) && err@ == e,
                None => r is Ok,
            },
    {
        match validate_listen(
            "tproxy inbound",
            self.tag.as_str(),
            None,
            self.listen.as_str(),
            self.listen_port,
        ) {
            Ok(_) => match address {
                Ok(_) => Ok(()),
                Err(cause) => Err(
                    ProxyError::config(
                        "tproxy inbound listen must be a valid socket address: ".to_owned().concat(
                            cause.as_str(),
                        ).as_str(),
                    ),
                ),
            },
            Err(err) => Err(err),
        }
    }

    /// Starts a session for a stream from `peer` whose destination was looked up. The session's id
    /// is spent even where the lookup failed.
    pub fn begin_session(
        &mut self,
        peer: SocketAddr,
        destination: core::result::Result<Destination, TProxyError>,
        now: Instant,
    ) -> (r: Result<SessionContext>)
        ensures
            final(self)@ == (TProxyView {
                next_id: following_id(old(self)@.next_id),
                ..old(self)@
            }),
            match destination {
                Ok(found) => r matches Ok(ctx) && ctx@ == stream_session(
                    old(self)@.next_id,
                    old(self)@.tag,
                    peer@,
                    found@,
                    now,
                ),
                Err(error) => r matches Err(err) && err@ == tproxy_proxy_error(error),
            },
    {
        let id: u64 = self.ids.take();
        match destination {
            Ok(found) => Ok(
                build_session_bootstrap(
                    id,
                    self.tag.as_str(),
                    peer,
                    found,
                    now,
                ),
            ),
            Err(error) => Err(error.into_proxy_error()),
        }
    }
}

/// A tproxy inbound is accepted exactly where its tag and its listen address hold more than white
/// space, its port is not zero, and its listen address could be read; anything else is a
/// configuration error, and what is wrong with the settings comes before the address.
pub proof fn law_tproxy_settings_are_checked(
    inbound: TProxyView,
    address: core::result::Result<(), String>,
)
    ensures
        ({
            let sound = !blank(inbound.tag) && !blank(inbound.listen) && inbound.listen_port >= 1;
            &&& tproxy_fault(inbound, address) is None <==> sound && address is Ok
            &&& tproxy_fault(inbound, address) matches Some(e) ==> e.kind == ErrorKind::Config
            &&& sound ==> (address matches Err(cause) ==> (tproxy_fault(
                inbound,
                address,
            )->Some_0).message == "tproxy inbound listen must be a valid socket address: "@ + cause@)
        }),
{
}

/// An I/O failure stays one, with its own text; every other failure to find a destination is a
/// protocol error that says what it is.
pub proof fn law_tproxy_errors_keep_their_kind(error: TProxyError)
    ensures
        match error {
            TProxyError::Io(cause) => tproxy_proxy_error(error).kind == ErrorKind::Io
                && tproxy_proxy_error(error).message == cause@,
            TProxyError::Transparent(cause) => tproxy_proxy_error(error).kind == ErrorKind::Protocol
                && tproxy_proxy_error(error).message == "tproxy transparent socket error: "@
                + cause@,
            TProxyError::UnsupportedPlatform => tproxy_proxy_error(error).kind
                == ErrorKind::Protocol && tproxy_proxy_error(error).message
                == "tproxy inbound is only supported on linux"@,
        },
{
}

/// The text of an error tells what failed and, where there is one, the cause.
pub proof fn law_tproxy_error_texts(error: TProxyError)
    ensures
        tproxy_error_text(error) == match error {
            TProxyError::UnsupportedPlatform => "tproxy inbound is only supported on linux"@,
            TProxyError::Transparent(cause) => "tproxy transparent socket error: "@ + cause@,
            TProxyError::Io(cause) => "tproxy inbound i/o error: "@ + cause@,
        },
{
}

} // verus!
