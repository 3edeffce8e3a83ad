//! The direct inbound: plain listeners, with an optional destination override.

use vstd::prelude::*;
use vstd::string::*;

use crate::error::{config_error, ErrorKind, ErrorView, ProxyError, Result};
use crate::execution::packet::{flow_of, FlowView, PacketMetadata};
use crate::inbound::common::{
    blank, build_session_bootstrap, following_id, listen_fault, option_host, overridden,
    override_fault, resolve_local_destination, stream_session, validate_listen, validate_override,
    SessionIds,
};
use crate::session::SessionContext;
use crate::time::Instant;
use crate::types::{Destination, Host, Network, SocketAddr};

verus! {

/// The settings of a direct inbound.
#[derive(Debug, PartialEq, Eq)]
pub struct DirectSettings {
    pub tag: String,
    pub kind: String,
    pub listen: String,
    pub listen_port: u16,
    pub override_host: Option<Host>,
    pub override_port: Option<u16>,
}

/// What is wrong with the settings of a direct inbound that is called `label`.
pub open spec fn direct_fault(label: Seq<char>, settings: DirectSettings) -> Option<ErrorView> {
    match listen_fault(
        label,
        settings.tag@,
        Some(settings.kind@),
        settings.listen@,
        settings.listen_port,
    ) {
        Some(e) => Some(e),
        None => override_fault(label, option_host(settings.override_host), settings.override_port),
    }
}

impl DirectSettings {
    fn validate(&self, label: &str) -> (r: Result<()>)
        ensures
            match direct_fault(label@, *self) {
                Some(e) => r matches Err(err) && err@ == e,
                None => r is Ok,
            },
    {
        match validate_listen(
            label,
            self.tag.as_str(),
            Some(self.kind.as_str()),
            self.listen.as_str(),
            self.listen_port,
        ) {
            Ok(_) => validate_override(label, &self.override_host, self.override_port),
            Err(err) => Err(err),
        }
    }

    /// The destination of what arrives at a local address.
    pub fn resolve_destination(&self, local: SocketAddr) -> (r: Destination)
        ensures
            r@ == overridden(local@, option_host(self.override_host), self.override_port),
    {
        resolve_local_destination(local, &self.override_host, self.override_port)
    }
}

/// What is wrong with the settings of a direct inbound for streams; a listen address that could not
/// be read is `address`.
pub open spec fn direct_stream_fault(
    settings: DirectSettings,
    address: core::result::Result<(), ProxyError>,
) -> Option<ErrorView> {
    match direct_fault("direct inbound"@, settings) {
        Some(e) => Some(e),
        None => match address {
            Ok(_) => None,
            Err(err) => Some(err@),
        },
    }
}

/// The direct inbound for streams.
#[derive(Debug)]
pub struct DirectInbound {
    pub settings: DirectSettings,
    pub ids: SessionIds,
}

impl DirectInbound {
    /// A direct inbound. Settings with a fault are refused; `address` says whether the listener
    /// could read its address.
    pub fn new(
        settings: DirectSettings,
        address: core::result::Result<(), ProxyError>,
    ) -> (r: Result<Self>)
        ensures
            match direct_stream_fault(settings, address) {
                Some(e) => r matches Err(err) && err@ == e,
                None => r matches Ok(inbound) && inbound.settings == settings && inbound.ids@ == 1,
            },
    {
        let inbound = DirectInbound { settings, ids: SessionIds::new() };
        match inbound.validate(address) {
            Ok(_) => Ok(inbound),
            Err(err) => Err(err),
        }
    }

    /// Checks the settings; `address` says whether the listener could read its address.
    pub fn validate(&self, address: core::result::Result<(), ProxyError>) -> (r: Result<()>)
        ensures
            match direct_stream_fault(self.settings, address) {
                Some(e) => r matches Err(err) && err@ == e,
                None => r is Ok,
            },
    {
        match self.settings.validate("direct inbound") {
            Ok(_) => address,
            Err(err) => Err(err),
        }
    }

    /// Starts a session for a stream from `peer` that arrived at the address `local`.
    pub fn begin_session(
        &mut self,
        peer: SocketAddr,
        local: SocketAddr,
        now: Instant,
    ) -> (r: SessionContext)
        ensures
            final(self).settings == old(self).settings,
            final(self).ids@ == following_id(old(self).ids@),
            r@ == stream_session(
                old(self).ids@,
                old(self).settings.tag@,
                peer@,
                overridden(
                    local@,
                    option_host(old(self).settings.override_host),
                    old(self).settings.override_port,
                ),
                now,
            ),
    {
        let destination = self.settings.resolve_destination(local);
        let id: u64 = self.ids.take();
        build_session_bootstrap(id, self.settings.tag.as_str(), peer, destination, now)
    }
}

/// The direct inbound for datagrams.
#[derive(Debug)]
pub struct DirectUdpInbound {
    pub settings: DirectSettings,
}

/// What is wrong with the settings of a direct inbound for datagrams, where `address` says whether
/// the listen address could be read.
pub open spec fn direct_udp_fault(
    settings: DirectSettings,
    address: core::result::Result<(), String>,
) -> Option<ErrorView> {
    match direct_fault("direct udp inbound"@, settings) {
        Some(e) => Some(e),
        None => match address {
            Ok(_) => None,
            Err(cause) => Some(
                config_error("listen must be a valid socket address: "@ + cause@),
            ),
        },
    }
}

impl DirectUdpInbound {
    /// A direct inbound for datagrams. Settings with a fault are refused; `address` says whether
    /// the listen address could be read.
    pub fn new(
        settings: DirectSettings,
        address: core::result::Result<(), String>,
    ) -> (r: Result<Self>)
        ensures
            match direct_udp_fault(settings, address) {
                Some(e) => r matches Err(err) && err@ == e,
                None => r matches Ok(inbound) && inbound.settings == settings,
            },
    {
        let inbound = DirectUdpInbound { settings };
        match inbound.validate(address) {
            Ok(_) => Ok(inbound),
            Err(err) => Err(err),
        }
    }

    /// Checks the settings; `address` says whether the listen address could be read.
    pub fn validate(&self, address: core::result::Result<(), String>) -> (r: Result<()>)
        ensures
            match direct_udp_fault(self.settings, address) {
                Some(e) => r matches Err(err) && err@ == e,
                None => r is Ok,
            },
    {
        match self.settings.validate("direct udp inbound") {
            Ok(_) => match address {
                Ok(_) => Ok(()),
                Err(cause) => Err(
                    ProxyError::config(
                        "listen must be a valid socket address: ".to_owned().concat(
                            cause.as_str(),
                        ).as_str(),
                    ),
                ),
            },
            Err(err) => Err(err),
        }
    }

    /// What is known of a datagram from `peer` that arrived at the address `local`.
    pub fn packet_metadata(&self, peer: SocketAddr, local: SocketAddr) -> (r: PacketMetadata)
        ensures
            r.network is Udp,
            flow_of(r) == (FlowView {
                inbound_tag: self.settings.tag@,
                peer: peer@,
                destination: overridden(
                    local@,
                    option_host(self.settings.override_host),
                    self.settings.override_port,
                ),
            }),
    {
        PacketMetadata::new(
            self.settings.tag.as_str(),
            peer,
            self.settings.resolve_destination(local),
            Network::Udp,
        )
    }
}

/// A direct inbound is accepted exactly where its listen settings and its override are, and its
/// listen address could be read. What is wrong with the listen settings comes first, then the
/// override, then the address.
pub proof fn law_direct_settings_are_checked(
    settings: DirectSettings,
    address: core::result::Result<(), ProxyError>,
    datagrams: core::result::Result<(), String>,
)
    ensures
        ({
            let sound = !blank(settings.tag@) && !blank(settings.kind@) && !blank(settings.listen@)
                && settings.listen_port >= 1 && !(settings.override_host matches Some(
                Host::Domain(domain),
            ) && blank(domain@)) && settings.override_port != Some(0u16);
            &&& direct_stream_fault(settings, address) is None <==> sound && address is Ok
            &&& sound ==> (address matches Err(err) ==> direct_stream_fault(settings, address)
                == Some(err@))
            &&& !sound ==> (direct_stream_fault(settings, address) matches Some(e) && e.kind
                == ErrorKind::Config && "direct inbound"@.is_prefix_of(e.message))
            &&& direct_udp_fault(settings, datagrams) is None <==> sound && datagrams is Ok
            &&& sound ==> (datagrams matches Err(cause) ==> (direct_udp_fault(
                settings,
                datagrams,
            ) matches Some(e) && e.kind == ErrorKind::Config && e.message
                == "listen must be a valid socket address: "@ + cause@))
            &&& !sound ==> (direct_udp_fault(settings, datagrams) matches Some(e) && e.kind
                == ErrorKind::Config && "direct udp inbound"@.is_prefix_of(e.message))
        }),
{
    lemma_fault_starts_with_label("direct inbound"@, settings);
    lemma_fault_starts_with_label("direct udp inbound"@, settings);
}

proof fn lemma_fault_starts_with_label(label: Seq<char>, settings: DirectSettings)
    ensures
        direct_fault(label, settings) matches Some(e) ==> label.is_prefix_of(e.message),
{
    if let Some(e) = direct_fault(label, settings) {
        assert(e.message.subrange(0, label.len() as int) =~= label);
    }
}

} // verus!
