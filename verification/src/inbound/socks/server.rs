//! The SOCKS inbound.

use vstd::prelude::*;

use crate::error::{ErrorKind, ErrorView, ProxyError, Result};
use crate::inbound::common::{
    blank, build_session_bootstrap, following_id, listen_fault, stream_session, validate_listen,
    SessionIds,
};
use crate::inbound::socks::codec::Request;
use crate::session::SessionContext;
use crate::time::Instant;
use crate::types::SocketAddr;

verus! {

/// The settings of a SOCKS inbound.
#[derive(Debug, PartialEq, Eq)]
pub struct SocksSettings {
    pub tag: String,
    pub kind: String,
    pub listen: String,
    pub listen_port: u16,
}

/// What is wrong with the settings; a listen address that could not be read is `address`.
pub open spec fn socks_fault(
    settings: SocksSettings,
    address: core::result::Result<(), ProxyError>,
) -> Option<ErrorView> {
    match listen_fault(
        "socks inbound"@,
        settings.tag@,
        Some(settings.kind@),
        settings.listen@,
        settings.listen_port,
    ) {
        Some(e) => Some(e),
        None => match address {
            Ok(_) => None,
            Err(err) => Some(err@),
        },
    }
}

/// The SOCKS inbound.
#[derive(Debug)]
pub struct SocksInbound {
    pub settings: SocksSettings,
    pub ids: SessionIds,
}

impl SocksInbound {
    /// A SOCKS inbound. Settings with a fault are refused; `address` says whether the listener
    /// could read its address.
    pub fn new(
        settings: SocksSettings,
        address: core::result::Result<(), ProxyError>,
    ) -> (r: Result<Self>)
        ensures
            match socks_fault(settings, address) {
                Some(e) => r matches Err(err) && err@ == e,
                None => r matches Ok(inbound) && inbound.settings == settings && inbound.ids@ == 1,
            },
    {
        let inbound = SocksInbound { settings, ids: SessionIds::new() };
        match inbound.validate(address) {
            Ok(_) => Ok(inbound),
            Err(err) => Err(err),
        }
    }

    /// Checks the settings.
    pub fn validate(&self, address: core::result::Result<(), ProxyError>) -> (r: Result<()>)
        ensures
            match socks_fault(self.settings, address) {
                Some(e) => r matches Err(err) && err@ == e,
                None => r is Ok,
            },
    {
        match validate_listen(
            "socks inbound",
            self.settings.tag.as_str(),
            Some(self.settings.kind.as_str()),
            self.settings.listen.as_str(),
            self.settings.listen_port,
        ) {
            Ok(_) => address,
            Err(err) => Err(err),
        }
    }

    /// Starts a session for a request that was granted.
    pub fn begin_session(
        &mut self,
        peer: SocketAddr,
        request: Request,
        now: Instant,
    ) -> (r: SessionContext)
        ensures
            final(self).settings == old(self).settings,
            final(self).ids@ == following_id(old(self).ids@),
            r@ == stream_session(
                old(self).ids@,
                old(self).settings.tag@,
                peer@,
                request@.destination,
                now,
            ),
    {
        let id: u64 = self.ids.take();
        build_session_bootstrap(id, self.settings.tag.as_str(), peer, request.destination, now)
    }
}

/// A SOCKS inbound is accepted exactly where its listen settings are and its listen address could be
/// read; what is wrong with the settings comes before the address.
pub proof fn law_socks_settings_are_checked(
    settings: SocksSettings,
    address: core::result::Result<(), ProxyError>,
)
    ensures
        ({
            let sound = !blank(settings.tag@) && !blank(settings.kind@) && !blank(settings.listen@)
                && settings.listen_port >= 1;
            &&& socks_fault(settings, address) is None <==> sound && address is Ok
            &&& sound ==> (address matches Err(err) ==> socks_fault(settings, address) == Some(
                err@,
            ))
            &&& !sound ==> (socks_fault(settings, address) matches Some(e) && e.kind
                == ErrorKind::Config)
        }),
{
}

} // verus!
