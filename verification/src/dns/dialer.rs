//! How a DNS server is dialed.

use vstd::prelude::*;

use crate::error::Result;
use crate::execution::catalog::{CatalogView, OutboundCatalog};
use crate::execution::outbound::{missing_outbound, HandleView, OutboundHandle};
use crate::session::{
    clone_option_context, Dial, DialView, DnsRequest, MetaView, RequestView, SessionContext,
    SessionMeta, SessionView,
};
use crate::text::clone_bytes;
use crate::time::Instant;
use crate::types::{Destination, DestinationView, Network};

verus! {

/// Dials one DNS server through an outbound.
#[derive(Debug, PartialEq, Eq)]
pub struct DnsDialer {
    pub server_tag: String,
    pub dial: Dial,
    pub outbound: OutboundHandle,
}

/// A dialer as mathematical values.
#[verifier::ext_equal]
pub struct DialerView {
    pub server_tag: Seq<char>,
    pub dial: DialView,
    pub outbound: HandleView,
}

impl View for DnsDialer {
    type V = DialerView;

    open spec fn view(&self) -> DialerView {
        DialerView { server_tag: self.server_tag@, dial: self.dial@, outbound: self.outbound@ }
    }
}

impl Clone for DnsDialer {
    fn clone(&self) -> (r: Self)
        ensures
            r@ == self@,
    {
        DnsDialer {
            server_tag: self.server_tag.clone(),
            dial: self.dial.clone(),
            outbound: self.outbound.clone(),
        }
    }
}

/// The outbound for a detour: the named one, or the default one where none is named.
pub open spec fn detour_outbound(catalog: CatalogView, detour: Option<Seq<char>>) -> Option<
    HandleView,
> {
    match detour {
        Some(tag) => catalog.lookup(tag),
        None => Some(catalog.default_outbound),
    }
}

/// The session in which `destination` is dialed for `request`.
pub open spec fn dial_session(
    request: RequestView,
    destination: DestinationView,
    network: Network,
    start: Instant,
) -> SessionView {
    SessionView {
        meta: MetaView {
            id: match request.session_id {
                Some(id) => id,
                None => 0,
            },
            network,
            inbound_tag: request.inbound_tag,
            peer: request.peer,
            destination,
            start,
        },
        buffered_payload: request.buffered_payload,
        route: None,
        resolve_context: request.resolve_context,
    }
}

impl DnsDialer {
    /// A dialer for the server `server_tag`. A detour that the catalog does not know is an error.
    pub fn new(server_tag: String, dial: Dial, outbounds: &OutboundCatalog) -> (r: Result<Self>)
        ensures
            match detour_outbound(outbounds@, dial@.detour) {
                Some(outbound) => r matches Ok(d) && d@ == (DialerView {
                    server_tag: server_tag@,
                    dial: dial@,
                    outbound,
                }),
                None => r matches Err(err) && err@ == missing_outbound(dial@.detour->Some_0),
            },
    {
        let outbound = match &dial.detour {
            Some(detour) => match outbounds.require(detour.as_str()) {
                Ok(outbound) => outbound,
                Err(err) => {
                    return Err(err);
                },
            },
            None => outbounds.default_outbound(),
        };
        Ok(DnsDialer { server_tag, dial, outbound })
    }

    /// The configured detour, or the empty text.
    pub fn detour_tag(&self) -> (r: &str)
        ensures
            r@ == match self@.dial.detour {
                Some(detour) => detour,
                None => ""@,
            },
    {
        match &self.dial.detour {
            Some(detour) => detour.as_str(),
            None => "",
        }
    }

    /// The configured routing mark.
    pub fn routing_mark(&self) -> (r: Option<u32>)
        ensures
            r == self@.dial.routing_mark,
    {
        self.dial.routing_mark
    }

    /// The session in which `destination` is dialed for `request`. Of the request only the
    /// buffered payload goes along; the DNS message does not.
    pub fn build_session_context(
        &self,
        request: &DnsRequest,
        destination: Destination,
        network: Network,
        start: Instant,
    ) -> (r: SessionContext)
        ensures
            r@ == dial_session(request@, destination@, network, start),
    {
        let id: u64 = match request.session_id {
            Some(id) => id,
            None => 0,
        };
        let mut ctx = SessionContext::new(
            SessionMeta {
                id,
                network,
                inbound_tag: request.inbound_tag.clone(),
                peer: request.peer,
                destination,
                start,
            },
            clone_bytes(request.buffered_payload.as_slice()),
        );
        ctx.set_resolve_context(clone_option_context(&request.resolve_context));
        ctx
    }
}

/// A server is dialed in a session of its own: to the given destination over the given network, with
/// the request's id, tag, peer, buffered payload and resolve context, and not routed yet. A request
/// without an id is dialed in session zero.
pub proof fn law_dial_session_is_the_requests(
    request: RequestView,
    destination: DestinationView,
    network: Network,
    start: Instant,
)
    ensures
        ({
            let session = dial_session(request, destination, network, start);
            &&& request.session_id matches Some(id) ==> session.meta.id == id
            &&& request.session_id is None ==> session.meta.id == 0
            &&& session.meta.network == network
            &&& session.meta.destination == destination
            &&& session.meta.start == start
            &&& session.meta.inbound_tag == request.inbound_tag
            &&& session.meta.peer == request.peer
            &&& session.buffered_payload == request.buffered_payload
            &&& session.resolve_context == request.resolve_context
            &&& session.route is None
        }),
{
}

/// A detour leads to the outbound it names, which may be unknown; without a detour the default
/// outbound is taken, which is always there.
pub proof fn law_detour_names_an_outbound(catalog: CatalogView, tag: Seq<char>)
    ensures
        detour_outbound(catalog, Some(tag)) == catalog.lookup(tag),
        detour_outbound(catalog, None) == Some(catalog.default_outbound),
{
}

/// A view shows every field of its value.
pub proof fn law_dialer_view_shows_everything(dialer: DnsDialer)
    ensures
        dialer@.server_tag == dialer.server_tag@,
        dialer@.dial == dialer.dial@,
        dialer@.outbound == dialer.outbound@,
{
}

} // verus!
