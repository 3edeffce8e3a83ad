//! What inbounds have in common: the check of their settings and the start of a session.

use vstd::prelude::*;
use vstd::string::*;

use crate::error::{config_error, ErrorKind, ErrorView, ProxyError, Result};
use crate::session::{MetaView, SessionContext, SessionMeta, SessionView};
use crate::text::{
    chars_of, is_blank, is_white, law_trimming_takes_white_space_only, text_of, trimmed,
};
use crate::time::Instant;
use crate::types::{Destination, DestinationView, Host, HostView, Network, SocketAddr, SocketView};

verus! {

/// Whether a text holds nothing but white space.
pub open spec fn blank(s: Seq<char>) -> bool {
    trimmed(s).len() == 0
}

/// What is wrong with the settings of an inbound that is called `label`: the tag, the type where it
/// has one, the listen address or the port. The first fault counts.
pub open spec fn listen_fault(
    label: Seq<char>,
    tag: Seq<char>,
    kind: Option<Seq<char>>,
    listen: Seq<char>,
    listen_port: u16,
) -> Option<ErrorView> {
    if blank(tag) {
        Some(config_error(label + " tag must not be empty"@))
    } else if kind matches Some(k) && blank(k) {
        Some(config_error(label + " type must not be empty"@))
    } else if blank(listen) {
        Some(config_error(label + " listen must not be empty"@))
    } else if listen_port == 0 {
        Some(config_error(label + " listen_port must be within 1..=65535"@))
    } else {
        None
    }
}

/// What is wrong with a destination override.
pub open spec fn override_fault(
    label: Seq<char>,
    host: Option<HostView>,
    port: Option<u16>,
) -> Option<ErrorView> {
    if host matches Some(HostView::Domain(domain)) && blank(domain) {
        Some(config_error(label + " override_address must not be empty"@))
    } else if port == Some(0u16) {
        Some(config_error(label + " override_port must be within 1..=65535"@))
    } else {
        None
    }
}

/// An optional host as mathematical values.
pub open spec fn option_host(host: Option<Host>) -> Option<HostView> {
    match host {
        Some(host) => Some(host@),
        None => None,
    }
}

fn fault(label: &str, text: &str) -> (r: ProxyError)
    ensures
        r@ == config_error(label@ + text@),
{
    ProxyError::config(label.to_owned().concat(text).as_str())
}

/// Checks the settings of an inbound.
pub fn validate_listen(
    label: &str,
    tag: &str,
    kind: Option<&str>,
    listen: &str,
    listen_port: u16,
) -> (r: Result<()>)
    ensures
        match listen_fault(
            label@,
            tag@,
            match kind {
                Some(k) => Some(k@),
                None => None,
            },
            listen@,
            listen_port,
        ) {
            Some(e) => r matches Err(err) && err@ == e,
            None => r is Ok,
        },
{
    if is_blank(tag) {
        return Err(fault(label, " tag must not be empty"));
    }
    if let Some(kind) = kind {
        if is_blank(kind) {
            return Err(fault(label, " type must not be empty"));
        }
    }
    if is_blank(listen) {
        return Err(fault(label, " listen must not be empty"));
    }
    if listen_port == 0 {
        return Err(fault(label, " listen_port must be within 1..=65535"));
    }
    Ok(())
}

/// Checks a destination override.
pub fn validate_override(label: &str, host: &Option<Host>, port: Option<u16>) -> (r: Result<()>)
    ensures
        match override_fault(label@, option_host(*host), port) {
            Some(e) => r matches Err(err) && err@ == e,
            None => r is Ok,
        },
{
    if let Some(Host::Domain(domain)) = host {
        if is_blank(domain.as_str()) {
            return Err(fault(label, " override_address must not be empty"));
        }
    }
    if let Some(port) = port {
        if port == 0 {
            return Err(fault(label, " override_port must be within 1..=65535"));
        }
    }
    Ok(())
}

/// The address part of a listen setting: an address in brackets is taken out of them.
pub open spec fn unbracketed(listen: Seq<char>) -> Seq<char> {
    if listen.len() >= 2 && listen[0] == '[' && listen.last() == ']' {
        listen.subrange(1, listen.len() - 1)
    } else {
        listen
    }
}

/// The address part of a listen setting.
pub fn listen_host(listen: &str) -> (r: String)
    ensures
        r@ == unbracketed(listen@),
{
    let chars = chars_of(listen);
    let n: usize = chars.len();
    if n >= 2 && chars[0] == '[' && chars[n - 1] == ']' {
        text_of(&chars, 1, n - 1)
    } else {
        listen.to_owned()
    }
}

/// The destination of a session that arrived at a local address, under an override.
pub open spec fn overridden(
    local: SocketView,
    host: Option<HostView>,
    port: Option<u16>,
) -> DestinationView {
    DestinationView {
        host: match host {
            Some(host) => host,
            None => HostView::Ip(local.ip),
        },
        port: match port {
            Some(port) => port,
            None => local.port,
        },
    }
}

/// The destination of a session that arrived at a local address: the address itself, with the host
/// and the port replaced where the override names them.
pub fn resolve_local_destination(
    local: SocketAddr,
    override_host: &Option<Host>,
    override_port: Option<u16>,
) -> (r: Destination)
    ensures
        r@ == overridden(local@, option_host(*override_host), override_port),
{
    let host = match override_host {
        Some(host) => host.clone(),
        None => Host::Ip(local.ip),
    };
    let port: u16 = match override_port {
        Some(port) => port,
        None => local.port,
    };
    Destination { host, port }
}

/// The destination an address stands for.
pub open spec fn address_destination(address: SocketView) -> DestinationView {
    DestinationView { host: HostView::Ip(address.ip), port: address.port }
}

/// The destination an address stands for.
pub fn destination_from_address(address: SocketAddr) -> (r: Destination)
    ensures
        r@ == address_destination(address@),
{
    Destination { host: Host::Ip(address.ip), port: address.port }
}

/// A stream session that starts.
pub open spec fn stream_session(
    session_id: u64,
    inbound_tag: Seq<char>,
    peer: SocketView,
    destination: DestinationView,
    start: Instant,
) -> SessionView {
    SessionView {
        meta: MetaView {
            id: session_id,
            network: Network::Tcp,
            inbound_tag,
            peer,
            destination,
            start,
        },
        buffered_payload: seq![],
        route: None,
        resolve_context: None,
    }
}

/// Starts a stream session.
pub fn build_session_bootstrap(
    session_id: u64,
    inbound_tag: &str,
    peer: SocketAddr,
    destination: Destination,
    start: Instant,
) -> (r: SessionContext)
    ensures
        r@ == stream_session(session_id, inbound_tag@, peer@, destination@, start),
{
    let empty: Vec<u8> = Vec::new();
    assert(empty@ =~= seq![]);
    SessionContext::new(
        SessionMeta {
            id: session_id,
            network: Network::Tcp,
            inbound_tag: inbound_tag.to_owned(),
            peer,
            destination,
            start,
        },
        empty,
    )
}

/// Hands out session ids, beginning with one.
#[derive(Debug)]
pub struct SessionIds {
    next: u64,
}

/// The id after `id`; the ids begin anew after the largest.
pub open spec fn following_id(id: u64) -> u64 {
    if id == u64::MAX {
        0
    } else {
        (id + 1) as u64
    }
}

impl View for SessionIds {
    type V = u64;

    closed spec fn view(&self) -> u64 {
        self.next
    }
}

impl SessionIds {
    /// Ids from one.
    pub fn new() -> (r: Self)
        ensures
            r@ == 1,
    {
        SessionIds { next: 1 }
    }

    /// Takes the next id.
    pub fn take(&mut self) -> (id: u64)
        ensures
            id == old(self)@,
            final(self)@ == following_id(old(self)@),
    {
        let id: u64 = self.next;
        self.next = self.next.wrapping_add(1);
        id
    }
}

/// The id that is handed out after `count` more ids were taken.
pub open spec fn later_id(id: u64, count: nat) -> u64
    decreases count,
{
    if count == 0 {
        id
    } else {
        following_id(later_id(id, (count - 1) as nat))
    }
}

proof fn lemma_later_id(id: u64, count: nat)
    requires
        count <= u64::MAX,
    ensures
        later_id(id, count) == if id + count <= u64::MAX {
            id + count
        } else {
            id + count - u64::MAX - 1
        },
    decreases count,
{
    if count > 0 {
        lemma_later_id(id, (count - 1) as nat);
    }
}

/// Sessions have different ids: an id comes back only after all others were handed out.
pub proof fn law_session_ids_differ(id: u64, count: nat)
    requires
        0 < count <= u64::MAX,
    ensures
        later_id(id, count) != id,
{
    lemma_later_id(id, count);
}

/// Without an override a session goes to the address it arrived at; each part of an override
/// replaces that part and leaves the other.
pub proof fn law_override_replaces_parts(local: SocketView, host: HostView, port: u16)
    ensures
        overridden(local, None, None) == address_destination(local),
        overridden(local, Some(host), None) == (DestinationView { host, port: local.port }),
        overridden(local, None, Some(port)) == (DestinationView {
            host: HostView::Ip(local.ip),
            port,
        }),
        overridden(local, Some(host), Some(port)) == (DestinationView { host, port }),
{
}

/// A text is blank exactly where all of its characters are white space.
pub proof fn law_blank_text_is_white_space(s: Seq<char>)
    ensures
        blank(s) <==> forall|i: int| 0 <= i < s.len() ==> is_white(#[trigger] s[i]),
{
    law_trimming_takes_white_space_only(s);
    let (from, to) = choose|from: int, to: int|
        #![trigger s.subrange(from, to)]
        {
            &&& 0 <= from <= to <= s.len()
            &&& trimmed(s) == s.subrange(from, to)
            &&& forall|i: int| 0 <= i < from ==> is_white(#[trigger] s[i])
            &&& forall|i: int| to <= i < s.len() ==> is_white(#[trigger] s[i])
            &&& from < to ==> !is_white(s[from]) && !is_white(s[to - 1])
        };
    if !blank(s) {
        assert(from < to);
        assert(!is_white(s[from]));
    }
}

/// The settings of an inbound are accepted exactly where the tag, the type if it has one, and the
/// listen address hold more than white space and the port is not zero. What is wrong with them is a
/// configuration error that starts with the name of the inbound; a fault in the tag is named before
/// one in the type, that before one in the address, and that before one in the port.
pub proof fn law_listen_settings_are_checked(
    label: Seq<char>,
    tag: Seq<char>,
    kind: Option<Seq<char>>,
    listen: Seq<char>,
    listen_port: u16,
)
    ensures
        ({
            let fault = listen_fault(label, tag, kind, listen, listen_port);
            let no_kind = kind is Some && blank(kind->Some_0);
            &&& fault is None <==> !blank(tag) && !no_kind && !blank(listen) && listen_port >= 1
            &&& fault matches Some(e) ==> e.kind == ErrorKind::Config
            &&& blank(tag) ==> fault->Some_0.message == label + " tag must not be empty"@
            &&& !blank(tag) && no_kind ==> fault->Some_0.message == label
                + " type must not be empty"@
            &&& !blank(tag) && !no_kind && blank(listen) ==> fault->Some_0.message == label
                + " listen must not be empty"@
            &&& !blank(tag) && !no_kind && !blank(listen) && listen_port == 0
                ==> fault->Some_0.message == label + " listen_port must be within 1..=65535"@
        }),
{
}

/// An override is accepted exactly where it names no blank domain and no port zero; anything else is
/// a configuration error, and a blank domain is named first.
pub proof fn law_override_is_checked(label: Seq<char>, host: Option<HostView>, port: Option<u16>)
    ensures
        ({
            let fault = override_fault(label, host, port);
            let no_name = host is Some && host->Some_0 is Domain && blank(
                host->Some_0->Domain_0,
            );
            let no_port = port is Some && port->Some_0 == 0;
            &&& fault is None <==> !no_name && !no_port
            &&& fault matches Some(e) ==> e.kind == ErrorKind::Config
            &&& no_name ==> fault->Some_0.message == label + " override_address must not be empty"@
            &&& !no_name && no_port ==> fault->Some_0.message == label
                + " override_port must be within 1..=65535"@
        }),
{
}

/// Brackets around a listen address are taken off, one pair of them; an address without both stays
/// as it is.
pub proof fn law_brackets_are_taken_off(address: Seq<char>)
    ensures
        unbracketed(seq!['['] + address + seq![']']) == address,
        address.len() == 0 || address[0] != '[' || address.last() != ']' ==> unbracketed(address)
            == address,
        address.len() == 1 ==> unbracketed(address) == address,
{
    let whole = seq!['['] + address + seq![']'];
    assert(whole.subrange(1, whole.len() - 1) =~= address);
}

/// A stream session starts with what it was made of: over a stream, with nothing buffered, not
/// routed, and without a resolve context.
pub proof fn law_stream_session_starts_afresh(
    session_id: u64,
    inbound_tag: Seq<char>,
    peer: SocketView,
    destination: DestinationView,
    start: Instant,
)
    ensures
        ({
            let session = stream_session(session_id, inbound_tag, peer, destination, start);
            &&& session.meta.id == session_id
            &&& session.meta.network == Network::Tcp
            &&& session.meta.inbound_tag == inbound_tag
            &&& session.meta.peer == peer
            &&& session.meta.destination == destination
            &&& session.meta.start == start
            &&& session.buffered_payload.len() == 0
            &&& session.route is None
            &&& session.resolve_context is None
        }),
{
}

/// An address stands for the destination with that address and that port.
pub proof fn law_address_is_its_destination(address: SocketView)
    ensures
        address_destination(address).host == HostView::Ip(address.ip),
        address_destination(address).port == address.port,
{
}

/// Ids are handed out in turn: each is one more than the one before, and after the largest they
/// begin anew with zero.
pub proof fn law_session_ids_count_up(id: u64, count: nat)
    requires
        count <= u64::MAX,
    ensures
        id < u64::MAX ==> following_id(id) == id + 1,
        id == u64::MAX ==> following_id(id) == 0,
        id + count <= u64::MAX ==> later_id(id, count) == id + count,
{
    lemma_later_id(id, count);
}

/// An optional host shows itself.
pub proof fn law_optional_host_shows_itself(host: Host)
    ensures
        option_host(Some(host)) == Some(host@),
        option_host(None) is None,
{
}

} // verus!
