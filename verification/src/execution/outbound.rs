//! Handles for outbounds.

use vstd::prelude::*;
use vstd::string::*;

use crate::error::{config_error, protocol_error, ErrorKind, ErrorView, ProxyError};
use crate::types::{network_label, Network};

verus! {

/// Stands for an outbound: two handles are the same outbound where their ids are equal.
#[derive(Debug, PartialEq, Eq)]
pub struct OutboundHandle {
    pub id: u64,
    pub tag: String,
}

/// A handle as mathematical values.
#[verifier::ext_equal]
pub struct HandleView {
    pub id: u64,
    pub tag: Seq<char>,
}

impl View for OutboundHandle {
    type V = HandleView;

    open spec fn view(&self) -> HandleView {
        HandleView { id: self.id, tag: self.tag@ }
    }
}

impl Clone for OutboundHandle {
    fn clone(&self) -> (r: Self)
        ensures
            r@ == self@,
    {
        OutboundHandle { id: self.id, tag: self.tag.clone() }
    }
}

/// The handles as mathematical values.
pub open spec fn handle_views(handles: Seq<OutboundHandle>) -> Seq<HandleView> {
    handles.map_values(|h: OutboundHandle| h@)
}

impl OutboundHandle {
    /// Whether two handles stand for the same outbound.
    pub fn same(&self, other: &OutboundHandle) -> (r: bool)
        ensures
            r == (self.id == other.id),
    {
        self.id == other.id
    }
}

/// The error for an outbound tag that nothing is registered under.
pub open spec fn missing_outbound(tag: Seq<char>) -> ErrorView {
    config_error("missing outbound tag: "@ + tag)
}

/// The error for an outbound tag that nothing is registered under.
pub fn missing_outbound_error(tag: &str) -> (r: ProxyError)
    ensures
        r@ == missing_outbound(tag@),
{
    ProxyError::config("missing outbound tag: ".to_owned().concat(tag).as_str())
}

/// The answer of an outbound that does not execute packets when it is asked to open a packet
/// session.
pub fn packet_not_supported(outbound_tag: &str, network: Network) -> (r: ProxyError)
    ensures
        r@ == protocol_error(
            "outbound '"@ + outbound_tag@ + "' does not support packet execution for "@
                + network_label(network),
        ),
{
    ProxyError::protocol(
        "outbound '".to_owned().concat(outbound_tag).concat(
            "' does not support packet execution for ",
        ).concat(network.as_str()).as_str(),
    )
}

/// A handle shows its id and its tag, and a list shows each of its handles, in order.
pub proof fn law_handle_views_show_everything(handles: Seq<OutboundHandle>)
    ensures
        handle_views(handles).len() == handles.len(),
        forall|i: int|
            0 <= i < handles.len() ==> (#[trigger] handle_views(handles)[i]).id == handles[i].id
                && handle_views(handles)[i].tag == handles[i].tag@,
{
}

/// An outbound that is missing is a configuration error that names its tag.
pub proof fn law_missing_outbound_is_named(tag: Seq<char>)
    ensures
        missing_outbound(tag).kind == ErrorKind::Config,
        missing_outbound(tag).message == "missing outbound tag: "@ + tag,
{
}

} // verus!
