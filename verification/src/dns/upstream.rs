//! DNS servers as they are queried.

use vstd::prelude::*;
use vstd::string::*;

use crate::dns::dialer::DnsDialer;
use crate::dns::http::{request_head, write_doh_http1_request};
use crate::dns::types::{
    transport_label, DnsHttpsOptions, DnsServer, DnsServerTransport, TlsClientOptions,
};
use crate::error::{
    config_error, protocol_error, resolve_error, timeout_error, ErrorKind, ErrorView, ProxyError,
    Result,
};
use crate::session::DnsResponse;
use crate::text::{decimal, decimal_text, option_text};
use crate::time::Duration;
use crate::types::{Destination, IpAddr, IpView, SocketAddr, SocketView};
use vstd::utf8::encode_utf8;

verus! {

/// Asks the servers that the system is configured with.
#[derive(Debug, PartialEq, Eq)]
pub struct LocalUpstream {
    pub query_timeout: Duration,
}

/// Asks a server by datagrams.
#[derive(Debug, PartialEq, Eq)]
pub struct UdpUpstream {
    pub destination: Destination,
    pub dialer: DnsDialer,
    pub query_timeout: Duration,
}

impl UdpUpstream {
    /// A server that is asked by datagrams.
    pub fn new(destination: Destination, dialer: DnsDialer, query_timeout: Duration) -> (r: Self)
        ensures
            r == (UdpUpstream { destination, dialer, query_timeout }),
    {
        UdpUpstream { destination, dialer, query_timeout }
    }
}

/// Asks a server over a plain stream.
#[derive(Debug, PartialEq, Eq)]
pub struct TcpUpstream {
    pub destination: Destination,
    pub dialer: DnsDialer,
    pub query_timeout: Duration,
}

impl TcpUpstream {
    /// A server that is asked over a plain stream.
    pub fn new(destination: Destination, dialer: DnsDialer, query_timeout: Duration) -> (r: Self)
        ensures
            r == (TcpUpstream { destination, dialer, query_timeout }),
    {
        TcpUpstream { destination, dialer, query_timeout }
    }
}

/// Asks a server over a TLS stream.
#[derive(Debug, PartialEq, Eq)]
pub struct TlsUpstream {
    pub destination: Destination,
    pub dialer: DnsDialer,
    pub tls: TlsClientOptions,
    pub query_timeout: Duration,
}

impl TlsUpstream {
    /// A server that is asked over a TLS stream.
    pub fn new(
        destination: Destination,
        dialer: DnsDialer,
        tls: TlsClientOptions,
        query_timeout: Duration,
    ) -> (r: Self)
        ensures
            r == (TlsUpstream { destination, dialer, tls, query_timeout }),
    {
        TlsUpstream { destination, dialer, tls, query_timeout }
    }
}

/// Asks a server by HTTPS requests.
#[derive(Debug, PartialEq, Eq)]
pub struct HttpsUpstream {
    pub server_tag: String,
    pub destination: Destination,
    pub dialer: DnsDialer,
    pub options: DnsHttpsOptions,
    pub query_timeout: Duration,
}

impl HttpsUpstream {
    /// A server that is asked by HTTPS requests.
    pub fn new(
        server_tag: String,
        destination: Destination,
        dialer: DnsDialer,
        options: DnsHttpsOptions,
        query_timeout: Duration,
    ) -> (r: Self)
        ensures
            r == (HttpsUpstream { server_tag, destination, dialer, options, query_timeout }),
    {
        HttpsUpstream { server_tag, destination, dialer, options, query_timeout }
    }

    /// The bytes of the request that carries `query`. The host header names the TLS server name,
    /// or the destination's host, rendered as `host_text`, where none is configured.
    pub fn request_bytes(&self, host_text: &str, query: &[u8]) -> (r: Vec<u8>)
        ensures
            r@ == encode_utf8(
                request_head(
                    match self.options.tls.server_name {
                        Some(name) => name@,
                        None => host_text@,
                    },
                    self.options.path@,
                    self.options.headers@,
                    query@.len(),
                ),
            ) + query@,
    {
        let host_header = match &self.options.tls.server_name {
            Some(name) => name.as_str(),
            None => host_text,
        };
        write_doh_http1_request(
            host_header,
            self.options.path.as_str(),
            &self.options.headers,
            query,
        )
    }
}

/// A server of a kind that is not supported.
#[derive(Debug, PartialEq, Eq)]
pub struct UnsupportedUpstream {
    pub server_tag: String,
    pub kind: String,
}

impl UnsupportedUpstream {
    /// The answer to every query.
    pub fn exchange_error(&self) -> (r: ProxyError)
        ensures
            r@ == protocol_error(
                "dns server '"@ + self.server_tag@ + "' uses unsupported upstream type '"@
                    + self.kind@ + "'"@,
            ),
    {
        ProxyError::protocol(
            "dns server '".to_owned().concat(self.server_tag.as_str()).concat(
                "' uses unsupported upstream type '",
            ).concat(self.kind.as_str()).concat("'").as_str(),
        )
    }
}

/// A server as it is queried.
#[derive(Debug, PartialEq, Eq)]
pub enum Upstream {
    Local(LocalUpstream),
    Udp(UdpUpstream),
    Tcp(TcpUpstream),
    Tls(TlsUpstream),
    Https(HttpsUpstream),
    Unsupported(UnsupportedUpstream),
}

/// Whether a server of this transport needs a dialer.
pub open spec fn needs_dialer(transport: DnsServerTransport) -> bool {
    !(transport is Local) && !(transport is Unsupported)
}

/// The error for a server that needs a dialer and has none.
pub open spec fn missing_dialer(server: DnsServer) -> ErrorView {
    config_error(
        "missing dns dialer for server '"@ + server.tag@ + "' with transport '"@ + transport_label(
            server.transport,
        ) + "'"@,
    )
}

/// Whether TLS settings are the same.
pub open spec fn same_tls(a: TlsClientOptions, b: TlsClientOptions) -> bool {
    option_text(a.server_name) == option_text(b.server_name)
}

/// Whether `upstream` queries `server` through `dialer` with `query_timeout`.
pub open spec fn queries(
    upstream: Upstream,
    server: DnsServer,
    dialer: Option<DnsDialer>,
    query_timeout: Duration,
) -> bool {
    match (server.transport, upstream) {
        (DnsServerTransport::Local, Upstream::Local(u)) => u.query_timeout == query_timeout,
        (DnsServerTransport::Udp, Upstream::Udp(u)) => u.query_timeout == query_timeout
            && u.destination@ == server.destination@ && Some(u.dialer) == dialer,
        (DnsServerTransport::Tcp, Upstream::Tcp(u)) => u.query_timeout == query_timeout
            && u.destination@ == server.destination@ && Some(u.dialer) == dialer,
        (DnsServerTransport::Tls(tls), Upstream::Tls(u)) => u.query_timeout == query_timeout
            && u.destination@ == server.destination@ && Some(u.dialer) == dialer && same_tls(
            u.tls,
            tls,
        ),
        (DnsServerTransport::Https(options), Upstream::Https(u)) => u.query_timeout
            == query_timeout && u.destination@ == server.destination@ && Some(u.dialer) == dialer
            && u.server_tag@ == server.tag@ && u.options.path@ == options.path@
            && u.options.headers@ == options.headers@
            && same_tls(u.options.tls, options.tls),
        (DnsServerTransport::Unsupported(kind), Upstream::Unsupported(u)) => u.server_tag@
            == server.tag@ && u.kind@ == kind@,
        _ => false,
    }
}

fn require_dns_dialer(server: &DnsServer, dialer: Option<DnsDialer>) -> (r: Result<DnsDialer>)
    ensures
        match dialer {
            Some(dialer) => r == Ok::<DnsDialer, ProxyError>(dialer),
            None => r matches Err(err) && err@ == missing_dialer(*server),
        },
{
    match dialer {
        Some(dialer) => Ok(dialer),
        None => Err(
            ProxyError::config(
                "missing dns dialer for server '".to_owned().concat(server.tag.as_str()).concat(
                    "' with transport '",
                ).concat(server.transport.as_str()).concat("'").as_str(),
            ),
        ),
    }
}

/// The way a configured server is queried. A server that is dialed needs a dialer.
pub fn build_upstream(
    server: &DnsServer,
    dialer: Option<DnsDialer>,
    query_timeout: Duration,
) -> (r: Result<Upstream>)
    ensures
        if needs_dialer(server.transport) && dialer is None {
            r matches Err(err) && err@ == missing_dialer(*server)
        } else {
            r matches Ok(upstream) && queries(upstream, *server, dialer, query_timeout)
        },
{
    match &server.transport {
        DnsServerTransport::Local => Ok(Upstream::Local(LocalUpstream { query_timeout })),
        DnsServerTransport::Udp => match require_dns_dialer(server, dialer) {
            Ok(dialer) => Ok(
                Upstream::Udp(UdpUpstream::new(server.destination.clone(), dialer, query_timeout)),
            ),
            Err(err) => Err(err),
        },
        DnsServerTransport::Tcp => match require_dns_dialer(server, dialer) {
            Ok(dialer) => Ok(
                Upstream::Tcp(TcpUpstream::new(server.destination.clone(), dialer, query_timeout)),
            ),
            Err(err) => Err(err),
        },
        DnsServerTransport::Tls(tls) => match require_dns_dialer(server, dialer) {
            Ok(dialer) => Ok(
                Upstream::Tls(
                    TlsUpstream::new(
                        server.destination.clone(),
                        dialer,
                        tls.clone(),
                        query_timeout,
                    ),
                ),
            ),
            Err(err) => Err(err),
        },
        DnsServerTransport::Https(options) => match require_dns_dialer(server, dialer) {
            Ok(dialer) => Ok(
                Upstream::Https(
                    HttpsUpstream::new(
                        server.tag.clone(),
                        server.destination.clone(),
                        dialer,
                        DnsHttpsOptions {
                            path: options.path.clone(),
                            headers: options.headers.clone(),
                            tls: options.tls.clone(),
                        },
                        query_timeout,
                    ),
                ),
            ),
            Err(err) => Err(err),
        },
        DnsServerTransport::Unsupported(kind) => Ok(
            Upstream::Unsupported(
                UnsupportedUpstream { server_tag: server.tag.clone(), kind: kind.clone() },
            ),
        ),
    }
}

/// The error for a server that did not answer in time.
pub open spec fn response_timeout(query_timeout: Duration) -> ErrorView {
    timeout_error(
        "dns upstream response timeout after "@ + decimal(
            (query_timeout.nanos / 1_000_000) as nat,
        ) + " ms"@,
    )
}

fn response_timeout_error(query_timeout: Duration) -> (r: ProxyError)
    ensures
        r@ == response_timeout(query_timeout),
{
    ProxyError::timeout(
        "dns upstream response timeout after ".to_owned().concat(
            decimal_text(query_timeout.as_millis()).as_str(),
        ).concat(" ms").as_str(),
    )
}

/// What came of waiting for an answer.
#[derive(Debug, PartialEq, Eq)]
pub enum Reply {
    TimedOut,
    Failed(ProxyError),
    /// The server closed the stream without an answer.
    Closed,
    Message(Vec<u8>),
}

/// The outcome of an exchange whose answer was waited for.
pub fn finish_exchange(reply: Reply, query_timeout: Duration) -> (r: Result<DnsResponse>)
    ensures
        match reply {
            Reply::TimedOut => r matches Err(err) && err@ == response_timeout(query_timeout),
            Reply::Failed(e) => r == Err::<DnsResponse, ProxyError>(e),
            Reply::Closed => r matches Err(err) && err@ == protocol_error(
                "dns over tcp upstream closed before sending a response"@,
            ),
            Reply::Message(m) => r matches Ok(response) && response.raw_message@ == m@,
        },
{
    match reply {
        Reply::TimedOut => Err(response_timeout_error(query_timeout)),
        Reply::Failed(err) => Err(err),
        Reply::Closed => Err(
            ProxyError::protocol("dns over tcp upstream closed before sending a response"),
        ),
        Reply::Message(message) => Ok(DnsResponse::new(message)),
    }
}

/// The address from which a datagram to `destination` is sent: any address of the same family and
/// any port.
pub fn udp_bind_addr(destination: IpAddr) -> (r: SocketAddr)
    ensures
        r@ == (SocketView {
            ip: match destination@ {
                IpView::V4(_) => IpView::V4(Seq::new(4, |i: int| 0u8)),
                IpView::V6(_) => IpView::V6(Seq::new(16, |i: int| 0u8)),
            },
            port: 0,
        }),
{
    SocketAddr::new(destination.unspecified(), 0)
}

/// A query to the system's servers: they are asked in order until one answers.
#[derive(Debug)]
pub struct LocalExchange {
    nameservers: Vec<IpAddr>,
    next: usize,
    query_timeout: Duration,
}

/// The state of a query to the system's servers: the servers and how many of them were asked.
#[verifier::ext_equal]
pub struct LocalView {
    pub nameservers: Seq<IpView>,
    pub asked: nat,
    pub query_timeout: Duration,
}

/// What a query to the system's servers does next.
#[derive(Debug, PartialEq, Eq)]
pub enum LocalStep {
    /// Ask the server at this address.
    Ask(SocketAddr),
    /// The query is over.
    Finish(Result<DnsResponse>),
}

/// The port DNS servers listen on.
pub const DNS_PORT: u16 = 53;

impl View for LocalExchange {
    type V = LocalView;

    closed spec fn view(&self) -> LocalView {
        LocalView {
            nameservers: self.nameservers@.map_values(|ip: IpAddr| ip@),
            asked: self.next as nat,
            query_timeout: self.query_timeout,
        }
    }
}

impl LocalExchange {
    /// Starts a query to the servers the system is configured with; without any it fails.
    pub fn start(nameservers: Vec<IpAddr>, query_timeout: Duration) -> (r: Result<
        (LocalExchange, SocketAddr),
    >)
        ensures
            if nameservers@.len() == 0 {
                r matches Err(err) && err@ == resolve_error(
                    "system dns resolver did not provide any nameserver"@,
                )
            } else {
                r matches Ok((exchange, first)) && exchange@ == (LocalView {
                    nameservers: nameservers@.map_values(|ip: IpAddr| ip@),
                    asked: 1,
                    query_timeout,
                }) && first@ == (SocketView { ip: nameservers@[0]@, port: DNS_PORT }) && first@.port
                    == 53
            },
    {
        if nameservers.len() == 0 {
            return Err(
                ProxyError::resolve("system dns resolver did not provide any nameserver"),
            );
        }
        let first = SocketAddr::new(nameservers[0], DNS_PORT);
        let exchange = LocalExchange { nameservers, next: 1, query_timeout };
        Ok((exchange, first))
    }

    /// Takes the reply of the server that was asked last. An answer ends the query; after a
    /// failure the next server is asked, and the last failure is the outcome where none is left.
    pub fn on_reply(&mut self, reply: Reply) -> (r: LocalStep)
        requires
            old(self)@.asked <= old(self)@.nameservers.len(),
        ensures
            final(self)@.asked <= final(self)@.nameservers.len(),
            reply matches Reply::Message(m) ==> final(self)@ == old(self)@ && (r matches
                LocalStep::Finish(Ok(response)) && response.raw_message@ == m@),
            !(reply is Message) && old(self)@.asked < old(self)@.nameservers.len() ==> {
                &&& final(self)@ == (LocalView { asked: old(self)@.asked + 1, ..old(self)@ })
                &&& r matches LocalStep::Ask(addr) && addr@ == (SocketView {
                    ip: old(self)@.nameservers[old(self)@.asked as int],
                    port: DNS_PORT,
                }) && addr@.port == 53
            },
            !(reply is Message) && old(self)@.asked == old(self)@.nameservers.len() ==> {
                &&& final(self)@ == old(self)@
                &&& r matches LocalStep::Finish(Err(err)) && match reply {
                    Reply::TimedOut => err@ == response_timeout(old(self)@.query_timeout),
                    Reply::Failed(e) => err == e,
                    _ => err@ == protocol_error(
                        "dns over tcp upstream closed before sending a response"@,
                    ),
                }
            },
    {
        match finish_exchange(reply, self.query_timeout) {
            Ok(response) => LocalStep::Finish(Ok(response)),
            Err(err) => {
                if self.next < self.nameservers.len() {
                    let addr = SocketAddr::new(self.nameservers[self.next], DNS_PORT);
                    self.next = self.next + 1;
                    LocalStep::Ask(addr)
                } else {
                    LocalStep::Finish(Err(err))
                }
            },
        }
    }
}

/// A server is queried in the way its transport says, at its own destination, through the dialer it
/// was given, with its own settings and the given timeout.
pub proof fn law_server_is_queried_as_configured(
    upstream: Upstream,
    server: DnsServer,
    dialer: Option<DnsDialer>,
    query_timeout: Duration,
)
    requires
        queries(upstream, server, dialer, query_timeout),
    ensures
        server.transport is Local ==> (upstream matches Upstream::Local(u) && u.query_timeout
            == query_timeout),
        server.transport is Udp ==> (upstream matches Upstream::Udp(u) && u.destination@
            == server.destination@ && dialer == Some(u.dialer) && u.query_timeout == query_timeout),
        server.transport is Tcp ==> (upstream matches Upstream::Tcp(u) && u.destination@
            == server.destination@ && dialer == Some(u.dialer) && u.query_timeout == query_timeout),
        server.transport matches DnsServerTransport::Tls(tls) ==> (upstream matches Upstream::Tls(u)
            && u.destination@ == server.destination@ && dialer == Some(u.dialer) && u.query_timeout
            == query_timeout && option_text(u.tls.server_name) == option_text(tls.server_name)),
        server.transport matches DnsServerTransport::Https(options) ==> (upstream matches
            Upstream::Https(u) && u.destination@ == server.destination@ && dialer == Some(u.dialer)
            && u.query_timeout == query_timeout && u.server_tag@ == server.tag@ && u.options.path@
            == options.path@ && u.options.headers@ == options.headers@ && option_text(
            u.options.tls.server_name,
        ) == option_text(options.tls.server_name)),
        server.transport matches DnsServerTransport::Unsupported(kind) ==> (upstream matches
            Upstream::Unsupported(u) && u.server_tag@ == server.tag@ && u.kind@ == kind@),
{
}

/// The error for a server that needs a dialer and has none is a configuration error that names the
/// server and its transport. TLS settings are the same where their server names are.
pub proof fn law_missing_dialer_is_named(
    server: DnsServer,
    first: TlsClientOptions,
    second: TlsClientOptions,
)
    ensures
        missing_dialer(server).kind == ErrorKind::Config,
        missing_dialer(server).message == "missing dns dialer for server '"@ + server.tag@
            + "' with transport '"@ + transport_label(server.transport) + "'"@,
        same_tls(first, second) <==> option_text(first.server_name) == option_text(
            second.server_name,
        ),
{
}

/// Every server is dialed but the system's own and those that are not supported.
pub proof fn law_dialed_servers_need_a_dialer(transport: DnsServerTransport)
    ensures
        needs_dialer(transport) <==> transport is Udp || transport is Tcp || transport is Tls
            || transport is Https,
{
}

/// A server that does not answer in time is a timeout, whose text gives the whole milliseconds that
/// were waited.
pub proof fn law_timeout_gives_the_milliseconds(waited: Duration, millis: nat)
    requires
        millis * 1_000_000 <= waited.nanos < (millis + 1) * 1_000_000,
    ensures
        response_timeout(waited).kind == ErrorKind::Timeout,
        response_timeout(waited).message == "dns upstream response timeout after "@ + decimal(millis)
            + " ms"@,
{
    assert(waited.nanos / 1_000_000 == millis);
}

} // verus!
