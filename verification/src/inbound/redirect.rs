//! The redirect inbound: streams that the system redirected here, with their original destination.

use vstd::prelude::*;
use vstd::string::*;

use crate::error::{protocol_error, ErrorKind, ErrorView, ProxyError, Result};
use crate::inbound::common::{
    build_session_bootstrap, following_id, listen_fault, stream_session, validate_listen,
    SessionIds,
};
use crate::session::SessionContext;
use crate::text::{decimal, decimal_text};
use crate::time::Instant;
use crate::types::{Destination, SocketAddr};

verus! {

/// The decimal form of a signed number.
pub open spec fn signed_decimal(n: int) -> Seq<char> {
    if n < 0 {
        "-"@ + decimal((-n) as nat)
    } else {
        decimal(n as nat)
    }
}

fn signed_decimal_text(n: i32) -> (r: String)
    ensures
        r@ == signed_decimal(n as int),
{
    if n < 0 {
        let magnitude: i64 = -(n as i64);
        "-".to_owned().concat(decimal_text(magnitude as u128).as_str())
    } else {
        decimal_text(n as u128)
    }
}

/// Why the original destination of a stream is not known.
#[derive(Debug, PartialEq, Eq)]
pub enum RedirectError {
    UnsupportedPlatform,
    /// The socket option could not be read; `source` is the rendered cause.
    GetSockOpt { level: i32, option: i32, source: String },
    UnexpectedSockAddrLen { expected: usize, actual: usize },
    UnsupportedAddressFamily(i32),
    /// An I/O failure, held as its rendered text.
    Io(String),
}

/// The text that describes an error.
pub open spec fn redirect_error_text(error: RedirectError) -> Seq<char> {
    match error {
        RedirectError::UnsupportedPlatform => "redirect inbound is only supported on linux"@,
        RedirectError::GetSockOpt { level, option, source } => "getsockopt(level="@
            + signed_decimal(level as int) + ", option="@ + signed_decimal(option as int)
            + ") failed: "@ + source@,
        RedirectError::UnexpectedSockAddrLen { expected, actual } =>
            "getsockopt returned sockaddr length "@ + decimal(actual as nat)
            + ", expected at least "@ + decimal(expected as nat),
        RedirectError::UnsupportedAddressFamily(family) =>
            "unsupported sockaddr family returned by getsockopt: "@ + signed_decimal(
            family as int,
        ),
        RedirectError::Io(cause) => "redirect inbound i/o error: "@ + cause@,
    }
}

/// The runtime's error for a redirect error: I/O failures stay what they are, the others are
/// protocol errors.
pub open spec fn redirect_proxy_error(error: RedirectError) -> ErrorView {
    match error {
        RedirectError::Io(cause) => ErrorView { kind: ErrorKind::Io, message: cause@ },
        other => protocol_error(redirect_error_text(other)),
    }
}

impl RedirectError {
    /// The text that describes the error.
    pub fn message(&self) -> (r: String)
        ensures
            r@ == redirect_error_text(*self),
    {
        match self {
            RedirectError::UnsupportedPlatform =>
                "redirect inbound is only supported on linux".to_owned(),
            RedirectError::GetSockOpt { level, option, source } =>
                "getsockopt(level=".to_owned().concat(signed_decimal_text(*level).as_str()).concat(
                ", option=",
            ).concat(signed_decimal_text(*option).as_str()).concat(") failed: ").concat(
                source.as_str(),
            ),
            RedirectError::UnexpectedSockAddrLen { expected, actual } =>
                "getsockopt returned sockaddr length ".to_owned().concat(
                decimal_text(*actual as u128).as_str(),
            ).concat(", expected at least ").concat(decimal_text(*expected as u128).as_str()),
            RedirectError::UnsupportedAddressFamily(family) =>
                "unsupported sockaddr family returned by getsockopt: ".to_owned().concat(
                signed_decimal_text(*family).as_str(),
            ),
            RedirectError::Io(cause) => "redirect inbound i/o error: ".to_owned().concat(
                cause.as_str(),
            ),
        }
    }

    /// The runtime's error for this one.
    pub fn into_proxy_error(self) -> (r: ProxyError)
        ensures
            r@ == redirect_proxy_error(self),
    {
        match self {
            RedirectError::Io(cause) => ProxyError::Io(cause),
            other => ProxyError::Protocol(other.message()),
        }
    }
}

/// The redirect inbound.
#[derive(Debug)]
pub struct RedirectInbound {
    tag: String,
    listen: String,
    listen_port: u16,
    ids: SessionIds,
}

/// A redirect inbound as mathematical values.
#[verifier::ext_equal]
pub struct RedirectView {
    pub tag: Seq<char>,
    pub listen: Seq<char>,
    pub listen_port: u16,
    pub next_id: u64,
}

impl View for RedirectInbound {
    type V = RedirectView;

    closed spec fn view(&self) -> RedirectView {
        RedirectView {
            tag: self.tag@,
            listen: self.listen@,
            listen_port: self.listen_port,
            next_id: self.ids@,
        }
    }
}

impl RedirectInbound {
    /// A redirect inbound.
    pub fn new(tag: &str, listen: &str, listen_port: u16) -> (r: Self)
        ensures
            r@ == (RedirectView { tag: tag@, listen: listen@, listen_port, next_id: 1 }),
    {
        RedirectInbound {
            tag: tag.to_owned(),
            listen: listen.to_owned(),
            listen_port,
            ids: SessionIds::new(),
        }
    }

    /// The tag.
    pub fn tag(&self) -> (r: &str)
        ensures
            r@ == self@.tag,
    {
        self.tag.as_str()
    }

    /// The listen address.
    pub fn listen(&self) -> (r: &str)
        ensures
            r@ == self@.listen,
    {
        self.listen.as_str()
    }

    /// The listen port.
    pub fn listen_port(&self) -> (r: u16)
        ensures
            r == self@.listen_port,
    {
        self.listen_port
    }

    /// Checks the settings.
    pub fn validate(&self) -> (r: Result<()>)
        ensures
            match listen_fault(
                "redirect inbound"@,
                self@.tag,
                None,
                self@.listen,
                self@.listen_port,
            ) {
                Some(e) => r matches Err(err) && err@ == e,
                None => r is Ok,
            },
    {
        validate_listen(
            "redirect inbound",
            self.tag.as_str(),
            None,
            self.listen.as_str(),
            self.listen_port,
        )
    }

    /// The address to listen at, as text.
    pub fn bind_addr(&self) -> (r: String)
        ensures
            r@ == self@.listen + ":"@ + decimal(self@.listen_port as nat),
    {
        self.listen.clone().concat(":").concat(decimal_text(self.listen_port as u128).as_str())
    }

    /// Starts a session for a stream from `peer` whose original destination was looked up. The
    /// session's id is spent even where the lookup failed.
    pub fn begin_session(
        &mut self,
        peer: SocketAddr,
        original: core::result::Result<Destination, RedirectError>,
        now: Instant,
    ) -> (r: Result<SessionContext>)
        ensures
            final(self)@ == (RedirectView {
                next_id: following_id(old(self)@.next_id),
                ..old(self)@
            }),
            match original {
                Ok(found) => r matches Ok(ctx) && ctx@ == stream_session(
                    old(self)@.next_id,
                    old(self)@.tag,
                    peer@,
                    found@,
                    now,
                ),
                Err(error) => r matches Err(err) && err@ == redirect_proxy_error(error),
            },
    {
        let id: u64 = self.ids.take();
        match original {
            Ok(found) => Ok(
                build_session_bootstrap(
                    id,
                    self.tag.as_str(),
                    peer,
                    found,
                    now,
                ),
            ),
            Err(error) => Err(error.into_proxy_error()),
        }
    }
}

/// An I/O failure stays one, with its own text; every other failure to find the original destination
/// is a protocol error with the text that describes it.
pub proof fn law_redirect_errors_keep_their_kind(error: RedirectError)
    ensures
        match error {
            RedirectError::Io(cause) => redirect_proxy_error(error).kind == ErrorKind::Io
                && redirect_proxy_error(error).message == cause@,
            RedirectError::UnsupportedAddressFamily(family) => redirect_proxy_error(error).kind
                == ErrorKind::Protocol && redirect_proxy_error(error).message
                == "unsupported sockaddr family returned by getsockopt: "@ + signed_decimal(
                family as int,
            ),
            RedirectError::UnexpectedSockAddrLen { expected, actual } => redirect_proxy_error(
                error,
            ).kind == ErrorKind::Protocol && redirect_proxy_error(error).message
                == "getsockopt returned sockaddr length "@ + decimal(actual as nat)
                + ", expected at least "@ + decimal(expected as nat),
            RedirectError::GetSockOpt { level, option, source } => redirect_proxy_error(error).kind
                == ErrorKind::Protocol && redirect_proxy_error(error).message
                == "getsockopt(level="@ + signed_decimal(level as int) + ", option="@
                + signed_decimal(option as int) + ") failed: "@ + source@,
            RedirectError::UnsupportedPlatform => redirect_proxy_error(error).kind
                == ErrorKind::Protocol && redirect_proxy_error(error).message
                == "redirect inbound is only supported on linux"@,
        },
{
}

/// A negative number is written as its opposite behind a minus sign.
pub proof fn law_signed_numbers_carry_their_sign(n: nat)
    ensures
        signed_decimal(n as int) == decimal(n),
        n > 0 ==> signed_decimal(-(n as int)) == seq!['-'] + decimal(n),
{
    reveal_strlit("-");
    assert("-"@ =~= seq!['-']);
}

/// The text of an error is that of the runtime's error, but for I/O failures, whose text says that
/// they are some.
pub proof fn law_redirect_error_texts(error: RedirectError)
    ensures
        match error {
            RedirectError::Io(cause) => redirect_error_text(error) == "redirect inbound i/o error: "@
                + cause@,
            _ => redirect_error_text(error) == redirect_proxy_error(error).message,
        },
{
}

} // verus!
