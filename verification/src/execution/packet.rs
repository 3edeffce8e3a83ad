//! Dispatching packets: the first packet of a flow is routed and creates an association, the
//! packets that follow reuse it until it is closed.

use vstd::prelude::*;
use vstd::string::*;

use crate::error::{protocol_error, ErrorKind, ErrorView, ProxyError, Result};
use crate::execution::catalog::{CatalogView, OutboundCatalog};
use crate::execution::outbound::{missing_outbound, OutboundHandle};
use crate::execution::route::{
    no_dns_executor, no_dns_executor_error, RouteDecision, RouteFinalAction, RouteReason,
};
use crate::session::{SessionContext, SessionView};
use crate::text::same_text;
use crate::time::{Duration, Instant};
use crate::types::{
    network_label, Destination, DestinationView, Host, Network, SocketAddr, SocketView,
};

verus! {

/// An association without traffic is closed after this many seconds unless configured otherwise.
pub const DEFAULT_PACKET_IDLE_TIMEOUT_SECS: u64 = 30;

/// A shutdown looks this often whether the associations are gone.
pub const SHUTDOWN_WAIT_ROUNDS: u32 = 50;

/// A shutdown waits this many milliseconds between two looks.
pub const SHUTDOWN_WAIT_MILLIS: u64 = 10;

/// A flow of packets: where they came in, from whom and where to.
#[derive(Debug, PartialEq, Eq)]
pub struct PacketAssociationKey {
    pub inbound_tag: String,
    pub peer: SocketAddr,
    pub destination: Destination,
}

/// A flow as mathematical values.
#[verifier::ext_equal]
pub struct FlowView {
    pub inbound_tag: Seq<char>,
    pub peer: SocketView,
    pub destination: DestinationView,
}

impl View for PacketAssociationKey {
    type V = FlowView;

    open spec fn view(&self) -> FlowView {
        FlowView {
            inbound_tag: self.inbound_tag@,
            peer: self.peer@,
            destination: self.destination@,
        }
    }
}

impl Clone for PacketAssociationKey {
    fn clone(&self) -> (r: Self)
        ensures
            r@ == self@,
    {
        PacketAssociationKey {
            inbound_tag: self.inbound_tag.clone(),
            peer: self.peer,
            destination: self.destination.clone(),
        }
    }
}

fn same_host(a: &Host, b: &Host) -> (r: bool)
    ensures
        r == (a@ == b@),
{
    match (a, b) {
        (Host::Ip(a), Host::Ip(b)) => a.same(b),
        (Host::Domain(a), Host::Domain(b)) => same_text(a.as_str(), b.as_str()),
        _ => false,
    }
}

impl PacketAssociationKey {
    /// Whether two flows are the same.
    pub fn same(&self, other: &PacketAssociationKey) -> (r: bool)
        ensures
            r == (self@ == other@),
    {
        same_text(self.inbound_tag.as_str(), other.inbound_tag.as_str()) && self.peer.same(
            &other.peer,
        ) && self.destination.port == other.destination.port && same_host(
            &self.destination.host,
            &other.destination.host,
        )
    }
}

/// What is known of a packet.
#[derive(Debug, PartialEq, Eq)]
pub struct PacketMetadata {
    pub inbound_tag: String,
    pub peer: SocketAddr,
    pub destination: Destination,
    pub network: Network,
}

/// The flow a packet belongs to.
pub open spec fn flow_of(metadata: PacketMetadata) -> FlowView {
    FlowView {
        inbound_tag: metadata.inbound_tag@,
        peer: metadata.peer@,
        destination: metadata.destination@,
    }
}

impl PacketMetadata {
    /// What is known of a packet.
    pub fn new(
        inbound_tag: &str,
        peer: SocketAddr,
        destination: Destination,
        network: Network,
    ) -> (r: Self)
        ensures
            r.network == network,
            flow_of(r) == (FlowView {
                inbound_tag: inbound_tag@,
                peer: peer@,
                destination: destination@,
            }),
    {
        PacketMetadata { inbound_tag: inbound_tag.to_owned(), peer, destination, network }
    }

    /// The flow the packet belongs to.
    pub fn association_key(&self) -> (r: PacketAssociationKey)
        ensures
            r@ == flow_of(*self),
    {
        PacketAssociationKey {
            inbound_tag: self.inbound_tag.clone(),
            peer: self.peer,
            destination: self.destination.clone(),
        }
    }
}

/// A flow bound to a packet session of an outbound.
#[derive(Debug, PartialEq, Eq)]
pub struct PacketAssociation {
    pub id: u64,
    pub key: PacketAssociationKey,
    pub outbound_tag: String,
    pub route_reason: RouteReason,
}

/// An association as mathematical values.
#[verifier::ext_equal]
pub struct AssociationView {
    pub id: u64,
    pub key: FlowView,
    pub outbound_tag: Seq<char>,
    pub route_reason: RouteReason,
}

impl View for PacketAssociation {
    type V = AssociationView;

    open spec fn view(&self) -> AssociationView {
        AssociationView {
            id: self.id,
            key: self.key@,
            outbound_tag: self.outbound_tag@,
            route_reason: self.route_reason,
        }
    }
}

impl Clone for PacketAssociation {
    fn clone(&self) -> (r: Self)
        ensures
            r@ == self@,
    {
        PacketAssociation {
            id: self.id,
            key: self.key.clone(),
            outbound_tag: self.outbound_tag.clone(),
            route_reason: self.route_reason,
        }
    }
}

/// The associations as mathematical values.
pub open spec fn association_views(associations: Seq<PacketAssociation>) -> Seq<AssociationView> {
    associations.map_values(|a: PacketAssociation| a@)
}

/// Whether no two associations are of the same flow.
pub open spec fn distinct_flows(associations: Seq<AssociationView>) -> bool {
    forall|i: int, j: int|
        0 <= i < j < associations.len() ==> (#[trigger] associations[i]).key != (
        #[trigger] associations[j]).key
}

/// The index of the first association of a flow, or the number of associations.
pub open spec fn flow_index(associations: Seq<AssociationView>, key: FlowView) -> int
    decreases associations.len(),
{
    if associations.len() == 0 || associations[0].key == key {
        0
    } else {
        1 + flow_index(associations.drop_first(), key)
    }
}

/// The association of a flow.
pub open spec fn association_of(associations: Seq<AssociationView>, key: FlowView) -> Option<
    AssociationView,
> {
    let i = flow_index(associations, key);
    if 0 <= i < associations.len() {
        Some(associations[i])
    } else {
        None
    }
}

/// The associations after the one of flow `key` is removed, provided it still has the id `id`.
pub open spec fn without_association(
    associations: Seq<AssociationView>,
    key: FlowView,
    id: u64,
) -> Seq<AssociationView> {
    match association_of(associations, key) {
        Some(found) if found.id == id => associations.remove(flow_index(associations, key)),
        _ => associations,
    }
}

proof fn lemma_flow_index(associations: Seq<AssociationView>, key: FlowView)
    ensures
        0 <= flow_index(associations, key) <= associations.len(),
        flow_index(associations, key) < associations.len() ==> associations[flow_index(
            associations,
            key,
        )].key == key,
        forall|i: int|
            0 <= i < flow_index(associations, key) ==> (#[trigger] associations[i]).key != key,
    decreases associations.len(),
{
    if associations.len() > 0 && associations[0].key != key {
        let rest = associations.drop_first();
        lemma_flow_index(rest, key);
        assert forall|i: int| 0 <= i < flow_index(associations, key) implies (
        #[trigger] associations[i]).key != key by {
            if i > 0 {
                assert(rest[i - 1] == associations[i]);
            }
        }
    }
}

/// The error for a packet that is not a datagram.
pub open spec fn not_udp(network: Network) -> ErrorView {
    protocol_error("packet dispatcher only accepts udp packets, got "@ + network_label(network))
}

fn not_udp_error(network: Network) -> (r: ProxyError)
    ensures
        r@ == not_udp(network),
{
    ProxyError::protocol(
        "packet dispatcher only accepts udp packets, got ".to_owned().concat(
            network.as_str(),
        ).as_str(),
    )
}

/// What is done with a packet that was routed.
#[derive(Debug)]
pub enum PacketStep {
    /// Open a packet session through the outbound and bind it to this association.
    OpenSession {
        ctx: SessionContext,
        outbound: OutboundHandle,
        association: PacketAssociation,
    },
    /// Answer the DNS query in the packet; no association is made.
    HijackDns { session_id: u64 },
}

/// Dispatches packets to outbounds and keeps their associations.
#[derive(Debug)]
pub struct PacketDispatcher {
    outbounds: OutboundCatalog,
    has_dns_executor: bool,
    associations: Vec<PacketAssociation>,
    idle_timeout: Duration,
}

/// The dispatcher as mathematical values.
#[verifier::ext_equal]
pub struct PacketDispatcherView {
    pub outbounds: CatalogView,
    pub has_dns_executor: bool,
    pub associations: Seq<AssociationView>,
    pub idle_timeout: Duration,
}

impl View for PacketDispatcher {
    type V = PacketDispatcherView;

    closed spec fn view(&self) -> PacketDispatcherView {
        PacketDispatcherView {
            outbounds: self.outbounds@,
            has_dns_executor: self.has_dns_executor,
            associations: association_views(self.associations@),
            idle_timeout: self.idle_timeout,
        }
    }
}

impl PacketDispatcher {
    /// Whether the dispatcher is well formed: each flow has one association at most.
    pub open spec fn wf(&self) -> bool {
        distinct_flows(self@.associations)
    }

    /// A dispatcher without a DNS executor and with the usual idle timeout.
    pub fn new(outbounds: OutboundCatalog) -> (r: Self)
        ensures
            r.wf(),
            r@ == (PacketDispatcherView {
                outbounds: outbounds@,
                has_dns_executor: false,
                associations: seq![],
                idle_timeout: Duration {
                    nanos: (DEFAULT_PACKET_IDLE_TIMEOUT_SECS * 1_000_000_000) as u128,
                },
            }),
            r@.idle_timeout.nanos == 30_000_000_000,
    {
        Self::with_dns_executor_and_idle_timeout(
            outbounds,
            false,
            Duration::from_secs(DEFAULT_PACKET_IDLE_TIMEOUT_SECS),
        )
    }

    /// A dispatcher with the usual idle timeout.
    pub fn with_dns_executor(outbounds: OutboundCatalog, has_dns_executor: bool) -> (r: Self)
        ensures
            r.wf(),
            r@ == (PacketDispatcherView {
                outbounds: outbounds@,
                has_dns_executor,
                associations: seq![],
                idle_timeout: Duration {
                    nanos: (DEFAULT_PACKET_IDLE_TIMEOUT_SECS * 1_000_000_000) as u128,
                },
            }),
            r@.idle_timeout.nanos == 30_000_000_000,
    {
        Self::with_dns_executor_and_idle_timeout(
            outbounds,
            has_dns_executor,
            Duration::from_secs(DEFAULT_PACKET_IDLE_TIMEOUT_SECS),
        )
    }

    /// A dispatcher without a DNS executor.
    pub fn with_idle_timeout(outbounds: OutboundCatalog, idle_timeout: Duration) -> (r: Self)
        ensures
            r.wf(),
            r@ == (PacketDispatcherView {
                outbounds: outbounds@,
                has_dns_executor: false,
                associations: seq![],
                idle_timeout,
            }),
    {
        Self::with_dns_executor_and_idle_timeout(outbounds, false, idle_timeout)
    }

    /// A dispatcher without associations.
    pub fn with_dns_executor_and_idle_timeout(
        outbounds: OutboundCatalog,
        has_dns_executor: bool,
        idle_timeout: Duration,
    ) -> (r: Self)
        ensures
            r.wf(),
            r@ == (PacketDispatcherView {
                outbounds: outbounds@,
                has_dns_executor,
                associations: seq![],
                idle_timeout,
            }),
    {
        let r = PacketDispatcher {
            outbounds,
            has_dns_executor,
            associations: Vec::new(),
            idle_timeout,
        };
        assert(r@.associations =~= seq![]);
        r
    }

    /// How long an association may go without traffic.
    pub fn idle_timeout(&self) -> (r: Duration)
        ensures
            r == self@.idle_timeout,
    {
        self.idle_timeout
    }

    fn position(&self, key: &PacketAssociationKey) -> (r: usize)
        ensures
            r == flow_index(self@.associations, key@),
            r <= self.associations@.len(),
    {
        let ghost all = self@.associations;
        let mut i: usize = 0;
        assert(all.skip(0) =~= all);
        while i < self.associations.len()
            invariant
                i <= self.associations@.len(),
                all == association_views(self.associations@),
                flow_index(all, key@) == i + flow_index(all.skip(i as int), key@),
            decreases self.associations@.len() - i,
        {
            assert(all.skip(i as int)[0] == self.associations@[i as int]@);
            assert(all.skip(i as int).drop_first() =~= all.skip(i + 1));
            if self.associations[i].key.same(key) {
                return i;
            }
            i += 1;
        }
        i
    }

    /// The association of a flow.
    pub fn association(&self, key: &PacketAssociationKey) -> (r: Option<PacketAssociation>)
        ensures
            match association_of(self@.associations, key@) {
                Some(association) => r matches Some(a) && a@ == association,
                None => r is None,
            },
    {
        let i = self.position(key);
        if i < self.associations.len() {
            Some(self.associations[i].clone())
        } else {
            None
        }
    }

    /// Adds an association. Where its flow has one already, nothing changes and that one is handed
    /// back as the error.
    pub fn insert_association(&mut self, association: PacketAssociation) -> (r:
        core::result::Result<PacketAssociation, PacketAssociation>)
        requires
            old(self).wf(),
        ensures
            final(self).wf(),
            match association_of(old(self)@.associations, association@.key) {
                Some(existing) => *final(self) == *old(self) && (r matches Err(a) && a@
                    == existing),
                None => final(self)@ == (PacketDispatcherView {
                    associations: old(self)@.associations.push(association@),
                    ..old(self)@
                }) && (r matches Ok(a) && a@ == association@),
            },
    {
        let ghost before = self@.associations;
        proof {
            lemma_flow_index(before, association.key@);
        }
        let i = self.position(&association.key);
        if i < self.associations.len() {
            return Err(self.associations[i].clone());
        }
        let created = association.clone();
        self.associations.push(association);
        assert(self@.associations =~= before.push(created@));
        Ok(created)
    }

    /// Removes the association of a flow, provided it still is the one with the id
    /// `association_id`: a later association of the same flow stays.
    pub fn remove_association(&mut self, key: &PacketAssociationKey, association_id: u64)
        requires
            old(self).wf(),
        ensures
            final(self).wf(),
            final(self)@ == (PacketDispatcherView {
                associations: without_association(old(self)@.associations, key@, association_id),
                ..old(self)@
            }),
    {
        let ghost before = self@.associations;
        let i = self.position(key);
        if i < self.associations.len() && self.associations[i].id == association_id {
            self.associations.remove(i);
            proof {
                let after = self@.associations;
                assert(after =~= before.remove(i as int));
                assert forall|a: int, b: int| 0 <= a < b < after.len() implies (
                #[trigger] after[a]).key != (#[trigger] after[b]).key by {
                    let x = if a < i { a } else { a + 1 };
                    let y = if b < i { b } else { b + 1 };
                    assert(before[x].key != before[y].key);
                }
            }
        }
    }

    /// Takes the outcome of sending a packet on an association. A packet that was sent counts as
    /// traffic. Where sending failed the association is told to shut down and removed, and the
    /// failure is the outcome.
    pub fn on_sent(
        &mut self,
        association: &PacketAssociation,
        activity: &mut PacketActivity,
        sent: Result<()>,
        now: Instant,
    ) -> (r: Result<()>)
        requires
            old(self).wf(),
        ensures
            final(self).wf(),
            match sent {
                Ok(_) => r is Ok && *final(self) == *old(self) && *final(activity) == (
                PacketActivity { last_activity: now, closed: old(activity).closed }),
                Err(e) => (r matches Err(err) && err == e) && final(self)@ == (
                PacketDispatcherView {
                    associations: without_association(
                        old(self)@.associations,
                        association@.key,
                        association@.id,
                    ),
                    ..old(self)@
                }) && *final(activity) == (PacketActivity {
                    last_activity: old(activity).last_activity,
                    closed: true,
                }),
            },
    {
        match sent {
            Ok(_) => {
                activity.touch(now);
                Ok(())
            },
            Err(err) => {
                activity.shutdown();
                self.remove_association(&association.key, association.id);
                Err(err)
            },
        }
    }

    /// The number of associations.
    pub fn association_count(&self) -> (r: usize)
        ensures
            r == self@.associations.len(),
    {
        self.associations.len()
    }

    /// The associations that a shutdown closes: all of them.
    pub fn shutdown(&self) -> (r: Vec<PacketAssociation>)
        ensures
            association_views(r@) == self@.associations,
    {
        let mut out: Vec<PacketAssociation> = Vec::new();
        let ghost all = association_views(self.associations@);
        let mut i: usize = 0;
        while i < self.associations.len()
            invariant
                i <= self.associations@.len(),
                all == association_views(self.associations@),
                association_views(out@) == all.take(i as int),
            decreases self.associations@.len() - i,
        {
            let ghost before = association_views(out@);
            out.push(self.associations[i].clone());
            assert(association_views(out@) =~= before.push(all[i as int]));
            assert(all.take(i + 1) =~= all.take(i as int).push(all[i as int]));
            i += 1;
        }
        assert(all.take(i as int) =~= all);
        out
    }

    /// How long a shutdown waits after it has looked `round` times before. It does not wait where
    /// no association is left or where it has looked often enough.
    pub fn shutdown_wait(&self, round: u32) -> (r: Option<Duration>)
        ensures
            r is None <==> self@.associations.len() == 0 || round >= SHUTDOWN_WAIT_ROUNDS,
            r matches Some(wait) ==> wait.nanos == SHUTDOWN_WAIT_MILLIS * 1_000_000,
            r is None <==> self@.associations.len() == 0 || round >= 50,
            r matches Some(wait) ==> wait.nanos == 10_000_000,
    {
        if self.associations.len() == 0 || round >= SHUTDOWN_WAIT_ROUNDS {
            None
        } else {
            Some(Duration::from_millis(SHUTDOWN_WAIT_MILLIS))
        }
    }

    /// The association a packet is sent on, where its flow has one.
    pub fn dispatch_associated(&self, metadata: &PacketMetadata) -> (r: Result<
        Option<PacketAssociation>,
    >)
        ensures
            if !(metadata.network is Udp) {
                r matches Err(err) && err@ == not_udp(metadata.network)
            } else {
                match association_of(self@.associations, flow_of(*metadata)) {
                    Some(association) => r matches Ok(Some(a)) && a@ == association,
                    None => r matches Ok(None),
                }
            },
    {
        match metadata.network {
            Network::Udp => Ok(self.association(&metadata.association_key())),
            network => Err(not_udp_error(network)),
        }
    }

    /// Decides what is done with a packet that was routed.
    pub fn begin_routed(
        &self,
        ctx: SessionContext,
        decision: RouteDecision,
        metadata: &PacketMetadata,
    ) -> (r: Result<PacketStep>)
        ensures
            if !(metadata.network is Udp) {
                r matches Err(err) && err@ == not_udp(metadata.network)
            } else {
                match decision.final_action {
                    RouteFinalAction::Route(tag) => match self@.outbounds.lookup(tag@) {
                        Some(found) => {
                            &&& r matches Ok(
                                PacketStep::OpenSession { ctx: c, outbound, association },
                            )
                            &&& c@ == (SessionView { route: Some(tag@), ..ctx@ })
                            &&& outbound@ == found
                            &&& association@ == (AssociationView {
                                id: ctx@.meta.id,
                                key: flow_of(*metadata),
                                outbound_tag: tag@,
                                route_reason: decision.reason,
                            })
                        },
                        None => r matches Err(err) && err@ == missing_outbound(tag@),
                    },
                    RouteFinalAction::HijackDns => if self@.has_dns_executor {
                        r matches Ok(PacketStep::HijackDns { session_id }) && session_id
                            == ctx@.meta.id
                    } else {
                        r matches Err(err) && err@ == no_dns_executor()
                    },
                }
            },
    {
        match metadata.network {
            Network::Udp => {},
            network => {
                return Err(not_udp_error(network));
            },
        }
        match decision.final_action {
            RouteFinalAction::Route(tag) => {
                let mut ctx = ctx;
                ctx.set_route(tag.clone());
                let outbound = match self.outbounds.require(tag.as_str()) {
                    Ok(outbound) => outbound,
                    Err(err) => {
                        return Err(err);
                    },
                };
                let association = PacketAssociation {
                    id: ctx.meta.id,
                    key: metadata.association_key(),
                    outbound_tag: tag,
                    route_reason: decision.reason,
                };
                Ok(PacketStep::OpenSession { ctx, outbound, association })
            },
            RouteFinalAction::HijackDns => if self.has_dns_executor {
                Ok(PacketStep::HijackDns { session_id: ctx.meta.id })
            } else {
                Err(no_dns_executor_error())
            },
        }
    }
}

/// What was inserted is what packets of the flow are sent on, and other flows keep what they had.
pub proof fn law_association_is_found_after_insert(
    associations: Seq<AssociationView>,
    association: AssociationView,
    other: FlowView,
)
    requires
        association_of(associations, association.key) is None,
    ensures
        association_of(associations.push(association), association.key) == Some(association),
        other != association.key ==> association_of(associations.push(association), other)
            == association_of(associations, other),
{
    let after = associations.push(association);
    lemma_flow_index(associations, association.key);
    lemma_flow_index(after, association.key);
    lemma_flow_index(associations, other);
    lemma_flow_index(after, other);
    let n = associations.len() as int;
    assert(after[n] == association);
    let i = flow_index(after, association.key);
    if i < n {
        assert(associations[i].key == association.key);
    }
    if other != association.key {
        let before_index = flow_index(associations, other);
        let after_index = flow_index(after, other);
        if before_index < n {
            assert(after[before_index].key == other);
            if after_index < before_index {
                assert(associations[after_index].key == other);
            }
        } else if after_index < n {
            assert(associations[after_index].key == other);
        }
    }
}

/// Closing an association removes it and nothing else; a stale id removes nothing, so an
/// association that was made anew for the same flow is not lost.
pub proof fn law_removal_is_exact(
    associations: Seq<AssociationView>,
    key: FlowView,
    id: u64,
    other: FlowView,
)
    requires
        distinct_flows(associations),
    ensures
        association_of(associations, key) matches Some(found) && found.id == id ==> association_of(
            without_association(associations, key, id),
            key,
        ) is None,
        association_of(associations, key) matches Some(found) && found.id != id ==>
            without_association(associations, key, id) == associations,
        other != key ==> association_of(without_association(associations, key, id), other)
            == association_of(associations, other),
{
    let after = without_association(associations, key, id);
    let at = flow_index(associations, key);
    lemma_flow_index(associations, key);
    lemma_flow_index(associations, other);
    lemma_flow_index(after, key);
    lemma_flow_index(after, other);
    if at < associations.len() && associations[at].id == id {
        assert forall|i: int| 0 <= i < after.len() implies #[trigger] after[i]
            == associations[if i < at {
            i
        } else {
            i + 1
        }] by {}
        let k = flow_index(after, key);
        if k < after.len() {
            let x = if k < at { k } else { k + 1 };
            assert(after[k] == associations[x]);
            if x < at {
                assert(associations[x].key != associations[at].key);
            } else {
                assert(associations[at].key != associations[x].key);
            }
        }
        if other != key {
            let b = flow_index(associations, other);
            let a = flow_index(after, other);
            if b < associations.len() {
                let moved = if b < at { b } else { b - 1 };
                assert(after[moved] == associations[b]);
                if a < moved {
                    let x = if a < at { a } else { a + 1 };
                    assert(after[a] == associations[x]);
                    assert(associations[x].key != other);
                }
            } else if a < after.len() {
                let x = if a < at { a } else { a + 1 };
                assert(after[a] == associations[x]);
                assert(associations[x].key != other);
            }
        }
    }
}

/// Why an association is closed.
#[derive(Debug, PartialEq, Eq)]
pub enum PacketAssociationCloseReason {
    Idle,
    UpstreamError(ProxyError),
    ClientWriteError(ProxyError),
    Shutdown,
}

/// The label of a reason.
pub open spec fn close_label(reason: PacketAssociationCloseReason) -> Seq<char> {
    match reason {
        PacketAssociationCloseReason::Idle => "idle"@,
        PacketAssociationCloseReason::UpstreamError(_) => "upstream_error"@,
        PacketAssociationCloseReason::ClientWriteError(_) => "client_write_error"@,
        PacketAssociationCloseReason::Shutdown => "shutdown"@,
    }
}

impl PacketAssociationCloseReason {
    /// The label of the reason.
    pub fn label(&self) -> (r: &'static str)
        ensures
            r@ == close_label(*self),
    {
        match self {
            PacketAssociationCloseReason::Idle => "idle",
            PacketAssociationCloseReason::UpstreamError(_) => "upstream_error",
            PacketAssociationCloseReason::ClientWriteError(_) => "client_write_error",
            PacketAssociationCloseReason::Shutdown => "shutdown",
        }
    }

    /// The error behind the reason.
    pub fn error(&self) -> (r: Option<&ProxyError>)
        ensures
            match self {
                PacketAssociationCloseReason::UpstreamError(err) => r matches Some(e) && *e == err,
                PacketAssociationCloseReason::ClientWriteError(err) => r matches Some(e) && *e
                    == err,
                _ => r is None,
            },
    {
        match self {
            PacketAssociationCloseReason::Idle => None,
            PacketAssociationCloseReason::Shutdown => None,
            PacketAssociationCloseReason::UpstreamError(err) => Some(err),
            PacketAssociationCloseReason::ClientWriteError(err) => Some(err),
        }
    }
}

/// Why an association is told to shut down.
#[derive(Clone, Copy, Debug, PartialEq, Eq, Structural)]
pub enum PacketSessionShutdownReason {
    DispatcherShutdown,
    ForwardError,
}

/// The label of a reason.
pub open spec fn shutdown_label(reason: PacketSessionShutdownReason) -> Seq<char> {
    match reason {
        PacketSessionShutdownReason::DispatcherShutdown => "dispatcher_shutdown"@,
        PacketSessionShutdownReason::ForwardError => "forward_error"@,
    }
}

impl PacketSessionShutdownReason {
    /// The label of the reason.
    pub fn as_str(self) -> (r: &'static str)
        ensures
            r@ == shutdown_label(self),
    {
        match self {
            PacketSessionShutdownReason::DispatcherShutdown => "dispatcher_shutdown",
            PacketSessionShutdownReason::ForwardError => "forward_error",
        }
    }
}

/// The liveness of an association: when it was last used, and whether it was told to shut down.
#[derive(Debug)]
pub struct PacketActivity {
    pub last_activity: Instant,
    pub closed: bool,
}

/// What the reverse path of an association waits for.
#[derive(Debug)]
pub enum ReverseEvent {
    /// It was told of traffic or of a shutdown.
    Notified,
    /// A packet came from the outbound, or the outbound failed.
    Received(Result<Vec<u8>>),
    /// The packet that came last was handed to the client, or that failed.
    Written(Result<()>),
    /// The time without traffic has run out.
    IdleElapsed,
}

/// What the reverse path does next.
#[derive(Debug)]
pub enum ReverseStep {
    /// Wait for the next event, this long at most.
    Wait(Duration),
    /// Hand this packet to the client.
    WriteBack(Vec<u8>),
    /// The association is over.
    Close(PacketAssociationCloseReason),
}

/// The time without traffic.
pub open spec fn quiet_for(activity: PacketActivity, now: Instant) -> nat {
    if activity.last_activity.nanos <= now.nanos {
        (now.nanos - activity.last_activity.nanos) as nat
    } else {
        0
    }
}

/// The time that is left before the association counts as idle.
pub open spec fn idle_left(activity: PacketActivity, idle_timeout: Duration, now: Instant) -> nat {
    if quiet_for(activity, now) <= idle_timeout.nanos {
        (idle_timeout.nanos - quiet_for(activity, now)) as nat
    } else {
        0
    }
}

impl PacketActivity {
    /// The liveness of an association that is made at `now`.
    pub fn new(now: Instant) -> (r: Self)
        ensures
            r == (PacketActivity { last_activity: now, closed: false }),
    {
        PacketActivity { last_activity: now, closed: false }
    }

    /// Notes traffic.
    pub fn touch(&mut self, now: Instant)
        ensures
            *final(self) == (PacketActivity { last_activity: now, closed: old(self).closed }),
    {
        self.last_activity = now;
    }

    /// Tells the association to shut down.
    pub fn shutdown(&mut self)
        ensures
            *final(self) == (PacketActivity {
                last_activity: old(self).last_activity,
                closed: true,
            }),
    {
        self.closed = true;
    }

    /// The time that is left before the association counts as idle.
    pub fn remaining_idle(&self, idle_timeout: Duration, now: Instant) -> (r: Duration)
        ensures
            r.nanos == idle_left(*self, idle_timeout, now),
    {
        idle_timeout.saturating_sub(now.saturating_duration_since(self.last_activity))
    }

    /// Whether the association has gone without traffic for the whole idle timeout.
    pub fn is_idle(&self, idle_timeout: Duration, now: Instant) -> (r: bool)
        ensures
            r == (quiet_for(*self, now) >= idle_timeout.nanos),
    {
        now.saturating_duration_since(self.last_activity).nanos >= idle_timeout.nanos
    }

    /// The first step of the reverse path, and the one after every event that leaves the
    /// association open: a shutdown ends it, otherwise it waits until it would count as idle.
    pub fn next_wait(&self, idle_timeout: Duration, now: Instant) -> (r: ReverseStep)
        ensures
            if self.closed {
                r == ReverseStep::Close(PacketAssociationCloseReason::Shutdown)
            } else {
                r matches ReverseStep::Wait(left) && left.nanos == idle_left(
                    *self,
                    idle_timeout,
                    now,
                )
            },
    {
        if self.closed {
            ReverseStep::Close(PacketAssociationCloseReason::Shutdown)
        } else {
            ReverseStep::Wait(self.remaining_idle(idle_timeout, now))
        }
    }

    /// Takes an event of the reverse path at `now`.
    ///
    /// A packet from the outbound counts as traffic and is written back. A failure on either side,
    /// and the idle timeout where there was no traffic meanwhile, close the association.
    pub fn on_event(
        &mut self,
        event: ReverseEvent,
        idle_timeout: Duration,
        now: Instant,
    ) -> (r: ReverseStep)
        ensures
            final(self).closed == old(self).closed,
            match event {
                ReverseEvent::Received(Ok(payload)) => final(self).last_activity == now && (r
                    matches ReverseStep::WriteBack(p) && p@ == payload@),
                ReverseEvent::Received(Err(err)) => *final(self) == *old(self) && r
                    == ReverseStep::Close(PacketAssociationCloseReason::UpstreamError(err)),
                ReverseEvent::Written(Err(err)) => *final(self) == *old(self) && r
                    == ReverseStep::Close(PacketAssociationCloseReason::ClientWriteError(err)),
                ReverseEvent::IdleElapsed if quiet_for(*old(self), now) >= idle_timeout.nanos =>
                    *final(self) == *old(self) && r == ReverseStep::Close(
                        PacketAssociationCloseReason::Idle,
                    ),
                _ => {
                    &&& *final(self) == *old(self)
                    &&& if old(self).closed {
                        r == ReverseStep::Close(PacketAssociationCloseReason::Shutdown)
                    } else {
                        r matches ReverseStep::Wait(left) && left.nanos == idle_left(
                            *old(self),
                            idle_timeout,
                            now,
                        )
                    }
                },
            },
    {
        match event {
            ReverseEvent::Notified => self.next_wait(idle_timeout, now),
            ReverseEvent::Received(received) => match received {
                Ok(payload) => {
                    self.touch(now);
                    ReverseStep::WriteBack(payload)
                },
                Err(err) => ReverseStep::Close(PacketAssociationCloseReason::UpstreamError(err)),
            },
            ReverseEvent::Written(written) => match written {
                Ok(_) => self.next_wait(idle_timeout, now),
                Err(err) => ReverseStep::Close(PacketAssociationCloseReason::ClientWriteError(err)),
            },
            ReverseEvent::IdleElapsed => if self.is_idle(idle_timeout, now) {
                ReverseStep::Close(PacketAssociationCloseReason::Idle)
            } else {
                self.next_wait(idle_timeout, now)
            },
        }
    }
}

/// Traffic postpones the idle timeout: right after it the whole timeout is left, and it runs out
/// exactly when the timeout has passed without more.
pub proof fn law_traffic_postpones_idleness(
    activity: PacketActivity,
    idle_timeout: Duration,
    touched: Instant,
    now: Instant,
)
    requires
        activity.last_activity == touched,
        touched.nanos <= now.nanos,
    ensures
        idle_left(activity, idle_timeout, touched) == idle_timeout.nanos,
        idle_left(activity, idle_timeout, now) == 0 <==> now.nanos - touched.nanos
            >= idle_timeout.nanos,
{
}

/// Packets are of one flow exactly where they came in at the same inbound, from the same peer and
/// for the same destination.
pub proof fn law_flow_tells_packets_apart(first: PacketMetadata, second: PacketMetadata)
    ensures
        flow_of(first) == flow_of(second) <==> first.inbound_tag@ == second.inbound_tag@
            && first.peer@ == second.peer@ && first.destination@ == second.destination@,
        flow_of(first).inbound_tag == first.inbound_tag@,
        flow_of(first).peer == first.peer@,
        flow_of(first).destination == first.destination@,
{
}

/// The association of a flow is the first one that is of that flow, and there is none exactly where
/// none is.
pub proof fn law_association_is_found_by_its_flow(
    associations: Seq<AssociationView>,
    key: FlowView,
)
    ensures
        match association_of(associations, key) {
            Some(found) => exists|i: int|
                0 <= i < associations.len() && #[trigger] associations[i] == found && found.key
                    == key && forall|j: int|
                    0 <= j < i ==> (#[trigger] associations[j]).key != key,
            None => forall|i: int|
                0 <= i < associations.len() ==> (#[trigger] associations[i]).key != key,
        },
{
    lemma_flow_index(associations, key);
    let at = flow_index(associations, key);
    if at < associations.len() {
        assert(associations[at] == association_of(associations, key)->Some_0);
    }
}

/// An association that is removed leaves the others in their order.
pub proof fn law_removal_keeps_the_order(
    first: Seq<AssociationView>,
    association: AssociationView,
    second: Seq<AssociationView>,
    id: u64,
)
    requires
        forall|i: int| 0 <= i < first.len() ==> (#[trigger] first[i]).key != association.key,
    ensures
        association.id == id ==> without_association(
            first + seq![association] + second,
            association.key,
            id,
        ) == first + second,
        association.id != id ==> without_association(
            first + seq![association] + second,
            association.key,
            id,
        ) == first + seq![association] + second,
        without_association(first, association.key, id) == first,
{
    let all = first + seq![association] + second;
    let key = association.key;
    let n = first.len() as int;
    lemma_flow_index(all, key);
    lemma_flow_index(first, key);
    let at = flow_index(all, key);
    assert(all[n] == association);
    if at < n {
        assert(all[at] == first[at]);
    }
    assert(at == n);
    assert(all.remove(n) =~= first + second);
}

/// The time without traffic is what has passed since the last traffic, and nothing where the clock
/// runs back; what is left of the idle timeout is the rest of it, and never less than nothing.
pub proof fn law_idle_time_adds_up(
    activity: PacketActivity,
    idle_timeout: Duration,
    now: Instant,
)
    ensures
        now.nanos >= activity.last_activity.nanos ==> quiet_for(activity, now) == now.nanos
            - activity.last_activity.nanos,
        now.nanos < activity.last_activity.nanos ==> quiet_for(activity, now) == 0,
        quiet_for(activity, now) <= idle_timeout.nanos ==> quiet_for(activity, now) + idle_left(
            activity,
            idle_timeout,
            now,
        ) == idle_timeout.nanos,
        quiet_for(activity, now) > idle_timeout.nanos ==> idle_left(activity, idle_timeout, now)
            == 0,
{
}

/// A view shows every field of its value, and a list shows each of its associations, in order.
pub proof fn law_association_views_show_everything(
    key: PacketAssociationKey,
    association: PacketAssociation,
    associations: Seq<PacketAssociation>,
)
    ensures
        key@.inbound_tag == key.inbound_tag@,
        key@.peer == key.peer@,
        key@.destination == key.destination@,
        association@.id == association.id,
        association@.key == association.key@,
        association@.outbound_tag == association.outbound_tag@,
        association@.route_reason == association.route_reason,
        association_views(associations).len() == associations.len(),
        forall|i: int|
            0 <= i < associations.len() ==> #[trigger] association_views(associations)[i]
                == associations[i]@,
{
}

/// A packet that is not a datagram is a protocol error that names its network; the reasons for
/// closing an association are told apart by their labels.
pub proof fn law_packet_texts(
    network: Network,
    reason: PacketAssociationCloseReason,
    shutdown: PacketSessionShutdownReason,
)
    ensures
        not_udp(network).kind == ErrorKind::Protocol,
        not_udp(network).message == "packet dispatcher only accepts udp packets, got "@
            + network_label(network),
        close_label(reason) == match reason {
            PacketAssociationCloseReason::Idle => "idle"@,
            PacketAssociationCloseReason::UpstreamError(_) => "upstream_error"@,
            PacketAssociationCloseReason::ClientWriteError(_) => "client_write_error"@,
            PacketAssociationCloseReason::Shutdown => "shutdown"@,
        },
        shutdown_label(shutdown) == match shutdown {
            PacketSessionShutdownReason::DispatcherShutdown => "dispatcher_shutdown"@,
            PacketSessionShutdownReason::ForwardError => "forward_error"@,
        },
{
}

} // verus!
