//! The runtime's error type.

use vstd::prelude::*;

verus! {

/// The part of the runtime an error belongs to.
#[derive(Clone, Copy, Debug, PartialEq, Eq, Structural)]
pub enum ErrorKind {
    Config,
    Dial,
    Resolve,
    Tls,
    Protocol,
    Relay,
    Timeout,
    Io,
    Shutdown,
}

/// An error with the text that describes it.
#[derive(Debug, PartialEq, Eq)]
pub enum ProxyError {
    Config(String),
    Dial(String),
    Resolve(String),
    Tls(String),
    Protocol(String),
    Relay(String),
    Timeout(String),
    /// An I/O failure, held as its rendered text.
    Io(String),
    /// The runtime is shutting down.
    Shutdown,
}

/// An error as mathematical values.
#[verifier::ext_equal]
pub struct ErrorView {
    pub kind: ErrorKind,
    pub message: Seq<char>,
}

/// An error of kind `kind` with the text `message`.
pub open spec fn error_of(kind: ErrorKind, message: Seq<char>) -> ErrorView {
    ErrorView { kind, message }
}

/// A configuration error with the text `message`.
pub open spec fn config_error(message: Seq<char>) -> ErrorView {
    ErrorView { kind: ErrorKind::Config, message }
}

/// A name resolution error with the text `message`.
pub open spec fn resolve_error(message: Seq<char>) -> ErrorView {
    ErrorView { kind: ErrorKind::Resolve, message }
}

/// A protocol error with the text `message`.
pub open spec fn protocol_error(message: Seq<char>) -> ErrorView {
    ErrorView { kind: ErrorKind::Protocol, message }
}

/// A relay error with the text `message`.
pub open spec fn relay_error(message: Seq<char>) -> ErrorView {
    ErrorView { kind: ErrorKind::Relay, message }
}

/// A timeout with the text `message`.
pub open spec fn timeout_error(message: Seq<char>) -> ErrorView {
    ErrorView { kind: ErrorKind::Timeout, message }
}

impl View for ProxyError {
    type V = ErrorView;

    open spec fn view(&self) -> ErrorView {
        match self {
            ProxyError::Config(m) => ErrorView { kind: ErrorKind::Config, message: m@ },
            ProxyError::Dial(m) => ErrorView { kind: ErrorKind::Dial, message: m@ },
            ProxyError::Resolve(m) => ErrorView { kind: ErrorKind::Resolve, message: m@ },
            ProxyError::Tls(m) => ErrorView { kind: ErrorKind::Tls, message: m@ },
            ProxyError::Protocol(m) => ErrorView { kind: ErrorKind::Protocol, message: m@ },
            ProxyError::Relay(m) => ErrorView { kind: ErrorKind::Relay, message: m@ },
            ProxyError::Timeout(m) => ErrorView { kind: ErrorKind::Timeout, message: m@ },
            ProxyError::Io(m) => ErrorView { kind: ErrorKind::Io, message: m@ },
            ProxyError::Shutdown => ErrorView { kind: ErrorKind::Shutdown, message: "shutdown"@ },
        }
    }
}

impl Clone for ProxyError {
    fn clone(&self) -> (r: Self)
        ensures
            r@ == self@,
    {
        match self {
            ProxyError::Config(m) => ProxyError::Config(m.clone()),
            ProxyError::Dial(m) => ProxyError::Dial(m.clone()),
            ProxyError::Resolve(m) => ProxyError::Resolve(m.clone()),
            ProxyError::Tls(m) => ProxyError::Tls(m.clone()),
            ProxyError::Protocol(m) => ProxyError::Protocol(m.clone()),
            ProxyError::Relay(m) => ProxyError::Relay(m.clone()),
            ProxyError::Timeout(m) => ProxyError::Timeout(m.clone()),
            ProxyError::Io(m) => ProxyError::Io(m.clone()),
            ProxyError::Shutdown => ProxyError::Shutdown,
        }
    }
}

impl ProxyError {
    /// A configuration error.
    pub fn config(message: &str) -> (r: Self)
        ensures
            r@ == config_error(message@),
    {
        ProxyError::Config(message.to_owned())
    }

    /// A name resolution error.
    pub fn resolve(message: &str) -> (r: Self)
        ensures
            r@ == resolve_error(message@),
    {
        ProxyError::Resolve(message.to_owned())
    }

    /// A protocol error.
    pub fn protocol(message: &str) -> (r: Self)
        ensures
            r@ == protocol_error(message@),
    {
        ProxyError::Protocol(message.to_owned())
    }

    /// A relay error.
    pub fn relay(message: &str) -> (r: Self)
        ensures
            r@ == relay_error(message@),
    {
        ProxyError::Relay(message.to_owned())
    }

    /// A timeout.
    pub fn timeout(message: &str) -> (r: Self)
        ensures
            r@ == timeout_error(message@),
    {
        ProxyError::Timeout(message.to_owned())
    }

    /// The kind of the error.
    pub fn kind(&self) -> (r: ErrorKind)
        ensures
            r == self@.kind,
    {
        match self {
            ProxyError::Config(_) => ErrorKind::Config,
            ProxyError::Dial(_) => ErrorKind::Dial,
            ProxyError::Resolve(_) => ErrorKind::Resolve,
            ProxyError::Tls(_) => ErrorKind::Tls,
            ProxyError::Protocol(_) => ErrorKind::Protocol,
            ProxyError::Relay(_) => ErrorKind::Relay,
            ProxyError::Timeout(_) => ErrorKind::Timeout,
            ProxyError::Io(_) => ErrorKind::Io,
            ProxyError::Shutdown => ErrorKind::Shutdown,
        }
    }

    /// The text of the error.
    pub fn message(&self) -> (r: String)
        ensures
            r@ == self@.message,
    {
        match self {
            ProxyError::Config(m) => m.clone(),
            ProxyError::Dial(m) => m.clone(),
            ProxyError::Resolve(m) => m.clone(),
            ProxyError::Tls(m) => m.clone(),
            ProxyError::Protocol(m) => m.clone(),
            ProxyError::Relay(m) => m.clone(),
            ProxyError::Timeout(m) => m.clone(),
            ProxyError::Io(m) => m.clone(),
            ProxyError::Shutdown => "shutdown".to_owned(),
        }
    }
}

/// The result type of the runtime.
pub type Result<T> = core::result::Result<T, ProxyError>;

/// An error is what it was made of: its kind and its text stay apart, and shutdown has a text of its
/// own.
pub proof fn law_error_is_its_kind_and_text(error: ProxyError, message: Seq<char>)
    ensures
        config_error(message) == (ErrorView { kind: ErrorKind::Config, message }),
        resolve_error(message) == (ErrorView { kind: ErrorKind::Resolve, message }),
        protocol_error(message) == (ErrorView { kind: ErrorKind::Protocol, message }),
        relay_error(message) == (ErrorView { kind: ErrorKind::Relay, message }),
        timeout_error(message) == (ErrorView { kind: ErrorKind::Timeout, message }),
        match error {
            ProxyError::Config(text) => error@.kind == ErrorKind::Config && error@.message == text@,
            ProxyError::Dial(text) => error@.kind == ErrorKind::Dial && error@.message == text@,
            ProxyError::Resolve(text) => error@.kind == ErrorKind::Resolve && error@.message
                == text@,
            ProxyError::Tls(text) => error@.kind == ErrorKind::Tls && error@.message == text@,
            ProxyError::Protocol(text) => error@.kind == ErrorKind::Protocol && error@.message
                == text@,
            ProxyError::Relay(text) => error@.kind == ErrorKind::Relay && error@.message == text@,
            ProxyError::Timeout(text) => error@.kind == ErrorKind::Timeout && error@.message
                == text@,
            ProxyError::Io(text) => error@.kind == ErrorKind::Io && error@.message == text@,
            ProxyError::Shutdown => error@.kind == ErrorKind::Shutdown && error@.message
                == "shutdown"@,
        },
        forall|kind: ErrorKind, text: Seq<char>|
            (#[trigger] error_of(kind, text)).kind == kind && error_of(kind, text).message == text,
{
}

} // verus!
