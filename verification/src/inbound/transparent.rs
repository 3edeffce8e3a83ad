//! The tproxy inbound over a shared listener.

use vstd::prelude::*;

use crate::error::{ErrorKind, ErrorView, ProxyError, Result};
use crate::inbound::common::{
    blank, build_session_bootstrap, following_id, listen_fault, stream_session, validate_listen,
    SessionIds,
};
use crate::inbound::tproxy::{tproxy_proxy_error, TProxyError};
use crate::session::SessionContext;
use crate::time::Instant;
use crate::types::{Destination, IpAddr, IpView, Network, SocketAddr, SocketView};

verus! {

/// The settings of a tproxy inbound over a shared listener.
#[derive(Debug, PartialEq, Eq)]
pub struct TransparentSettings {
    pub tag: String,
    pub kind: String,
    pub listen: String,
    pub listen_port: u16,
    pub network: Network,
}

/// What is wrong with the settings; a listen address that could not be read is `address`.
pub open spec fn transparent_fault(
    settings: TransparentSettings,
    address: core::result::Result<(), ProxyError>,
) -> Option<ErrorView> {
    match listen_fault(
        "tproxy inbound"@,
        settings.tag@,
        Some(settings.kind@),
        settings.listen@,
        settings.listen_port,
    ) {
        Some(e) => Some(e),
        None => match address {
            Ok(_) => None,
            Err(err) => Some(err@),
        },
    }
}

/// The label of the family of a local address.
pub open spec fn family_label(local: Option<SocketView>) -> Seq<char> {
    match local {
        None => "unknown"@,
        Some(address) => match address.ip {
            IpView::V4(_) => "ipv4"@,
            IpView::V6(_) => "ipv6"@,
        },
    }
}

/// The label of the family of a local address.
pub fn socket_family(local: Option<SocketAddr>) -> (r: &'static str)
    ensures
        r@ == family_label(
            match local {
                Some(address) => Some(address@),
                None => None,
            },
        ),
{
    match local {
        None => "unknown",
        Some(address) => match address.ip {
            IpAddr::V4(_) => "ipv4",
            IpAddr::V6(_) => "ipv6",
        },
    }
}

/// The tproxy inbound over a shared listener.
#[derive(Debug)]
pub struct TProxyInbound {
    pub settings: TransparentSettings,
    pub ids: SessionIds,
}

impl TProxyInbound {
    /// A tproxy inbound. Settings with a fault are refused; `address` says whether the listener
    /// could read its address.
    pub fn new(
        settings: TransparentSettings,
        address: core::result::Result<(), ProxyError>,
    ) -> (r: Result<Self>)
        ensures
            match transparent_fault(settings, address) {
                Some(e) => r matches Err(err) && err@ == e,
                None => r matches Ok(inbound) && inbound.settings == settings && inbound.ids@ == 1,
            },
    {
        let inbound = TProxyInbound { settings, ids: SessionIds::new() };
        match inbound.validate(address) {
            Ok(_) => Ok(inbound),
            Err(err) => Err(err),
        }
    }

    /// Checks the settings.
    pub fn validate(&self, address: core::result::Result<(), ProxyError>) -> (r: Result<()>)
        ensures
            match transparent_fault(self.settings, address) {
                Some(e) => r matches Err(err) && err@ == e,
                None => r is Ok,
            },
    {
        match validate_listen(
            "tproxy inbound",
            self.settings.tag.as_str(),
            Some(self.settings.kind.as_str()),
            self.settings.listen.as_str(),
            self.settings.listen_port,
        ) {
            Ok(_) => address,
            Err(err) => Err(err),
        }
    }

    /// Starts a session for a stream from `peer` whose destination was looked up. Where the lookup
    /// failed no session id is spent.
    pub fn begin_session(
        &mut self,
        peer: SocketAddr,
        destination: core::result::Result<Destination, TProxyError>,
        now: Instant,
    ) -> (r: Result<SessionContext>)
        ensures
            final(self).settings == old(self).settings,
            match destination {
                Ok(found) => final(self).ids@ == following_id(old(self).ids@) && (r matches Ok(
                    ctx,
                ) && ctx@ == stream_session(
                    old(self).ids@,
                    old(self).settings.tag@,
                    peer@,
                    found@,
                    now,
                )),
                Err(error) => final(self).ids@ == old(self).ids@ && (r matches Err(err) && err@
                    == tproxy_proxy_error(error)),
            },
    {
        match destination {
            Ok(found) => {
                let id: u64 = self.ids.take();
                Ok(
                    build_session_bootstrap(
                        id,
                        self.settings.tag.as_str(),
                        peer,
                        found,
                        now,
                    ),
                )
            },
            Err(error) => Err(error.into_proxy_error()),
        }
    }
}

/// A tproxy inbound is accepted exactly where its listen settings are and its listen address could
/// be read; what is wrong with the settings comes before the address.
pub proof fn law_transparent_settings_are_checked(
    settings: TransparentSettings,
    address: core::result::Result<(), ProxyError>,
)
    ensures
        ({
            let sound = !blank(settings.tag@) && !blank(settings.kind@) && !blank(settings.listen@)
                && settings.listen_port >= 1;
            &&& transparent_fault(settings, address) is None <==> sound && address is Ok
            &&& sound ==> (address matches Err(err) ==> transparent_fault(settings, address)
                == Some(err@))
            &&& !sound ==> (transparent_fault(settings, address) matches Some(e) && e.kind
                == ErrorKind::Config)
        }),
{
}

/// The label of a family says of which family the local address is, where it is known.
pub proof fn law_family_labels(local: SocketView)
    ensures
        family_label(Some(local)) == if local.ip is V4 {
            "ipv4"@
        } else {
            "ipv6"@
        },
        family_label(None) == "unknown"@,
{
}

} // verus!
