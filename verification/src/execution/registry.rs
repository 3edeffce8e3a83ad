//! The registry of outbounds in the order in which they were registered.

use vstd::prelude::*;
use vstd::string::*;

use crate::error::{config_error, Result};
use crate::error::ProxyError;
use crate::execution::outbound::{
    handle_views, missing_outbound, missing_outbound_error, HandleView, OutboundHandle,
};
use crate::text::same_text;

verus! {

/// Whether no two outbounds have the same tag.
pub open spec fn distinct_tags(outbounds: Seq<HandleView>) -> bool {
    forall|i: int, j: int|
        0 <= i < j < outbounds.len() ==> (#[trigger] outbounds[i]).tag != (
        #[trigger] outbounds[j]).tag
}

/// Whether an outbound with this tag is registered.
pub open spec fn has_tag(outbounds: Seq<HandleView>, tag: Seq<char>) -> bool {
    exists|i: int| 0 <= i < outbounds.len() && (#[trigger] outbounds[i]).tag == tag
}

fn position(outbounds: &Vec<OutboundHandle>, tag: &str) -> (r: Option<usize>)
    ensures
        match r {
            Some(i) => i < outbounds@.len() && handle_views(outbounds@)[i as int].tag == tag@,
            None => !has_tag(handle_views(outbounds@), tag@),
        },
{
    let mut i: usize = 0;
    while i < outbounds.len()
        invariant
            i <= outbounds@.len(),
            forall|j: int| 0 <= j < i ==> (#[trigger] handle_views(outbounds@)[j]).tag != tag@,
        decreases outbounds@.len() - i,
    {
        if same_text(outbounds[i].tag.as_str(), tag) {
            return Some(i);
        }
        i += 1;
    }
    None
}

/// Collects outbounds for a registry.
#[derive(Debug)]
pub struct OutboundRegistryBuilder {
    outbounds: Vec<OutboundHandle>,
}

impl View for OutboundRegistryBuilder {
    type V = Seq<HandleView>;

    closed spec fn view(&self) -> Seq<HandleView> {
        handle_views(self.outbounds@)
    }
}

impl Default for OutboundRegistryBuilder {
    fn default() -> (r: Self)
        ensures
            r@ == Seq::<HandleView>::empty(),
    {
        let r = OutboundRegistryBuilder { outbounds: Vec::new() };
        assert(r@ =~= Seq::empty());
        r
    }
}

impl OutboundRegistryBuilder {
    /// Adds an outbound behind those that are there. A tag that is taken is refused and nothing
    /// changes.
    pub fn register(&mut self, outbound: OutboundHandle) -> (r: Result<()>)
        requires
            distinct_tags(old(self)@),
        ensures
            distinct_tags(final(self)@),
            if has_tag(old(self)@, outbound@.tag) {
                (r matches Err(err) && err@ == config_error(
                    "duplicate outbound tag in registry: "@ + outbound@.tag,
                )) && final(self)@ == old(self)@
            } else {
                r is Ok && final(self)@ == old(self)@.push(outbound@)
            },
    {
        if position(&self.outbounds, outbound.tag.as_str()).is_some() {
            return Err(
                ProxyError::config(
                    "duplicate outbound tag in registry: ".to_owned().concat(
                        outbound.tag.as_str(),
                    ).as_str(),
                ),
            );
        }
        let ghost view = outbound@;
        self.outbounds.push(outbound);
        assert(self@ =~= old(self)@.push(view));
        Ok(())
    }

    /// The registry of the collected outbounds.
    pub fn finalize(self, default_outbound: OutboundHandle) -> (r: OutboundRegistry)
        ensures
            r@ == (RegistryView { outbounds: self@, default_outbound: default_outbound@ }),
    {
        OutboundRegistry { outbounds: self.outbounds, default_outbound }
    }
}

/// Outbounds in the order of registration, and the outbound that is used where none is named.
#[derive(Debug)]
pub struct OutboundRegistry {
    outbounds: Vec<OutboundHandle>,
    default_outbound: OutboundHandle,
}

/// The registry as mathematical values.
#[verifier::ext_equal]
pub struct RegistryView {
    pub outbounds: Seq<HandleView>,
    pub default_outbound: HandleView,
}

impl View for OutboundRegistry {
    type V = RegistryView;

    closed spec fn view(&self) -> RegistryView {
        RegistryView {
            outbounds: handle_views(self.outbounds@),
            default_outbound: self.default_outbound@,
        }
    }
}

impl RegistryView {
    /// Whether `outbound` is what is registered under `tag`.
    pub open spec fn registers(self, tag: Seq<char>, outbound: HandleView) -> bool {
        self.outbounds.contains(outbound) && outbound.tag == tag
    }

    /// Whether the outbound that is used where none is named is registered as well.
    pub open spec fn default_registered(self) -> bool {
        exists|i: int|
            0 <= i < self.outbounds.len() && (#[trigger] self.outbounds[i]).id
                == self.default_outbound.id
    }

    /// Every outbound of the registry once: those registered, then the default one where it is not
    /// among them.
    pub open spec fn lifecycle(self) -> Seq<HandleView> {
        if self.default_registered() {
            self.outbounds
        } else {
            self.outbounds.push(self.default_outbound)
        }
    }
}

impl OutboundRegistry {
    /// The outbound under `tag`.
    pub fn get(&self, tag: &str) -> (r: Option<OutboundHandle>)
        ensures
            match r {
                Some(outbound) => self@.registers(tag@, outbound@),
                None => !has_tag(self@.outbounds, tag@),
            },
    {
        match position(&self.outbounds, tag) {
            Some(i) => {
                let outbound = self.outbounds[i].clone();
                assert(self@.outbounds[i as int] == outbound@);
                Some(outbound)
            },
            None => None,
        }
    }

    /// The outbound that is used where none is named.
    pub fn default_outbound(&self) -> (r: OutboundHandle)
        ensures
            r@ == self@.default_outbound,
    {
        self.default_outbound.clone()
    }

    /// The outbound under `tag`, or an error where there is none.
    pub fn require(&self, tag: &str) -> (r: Result<OutboundHandle>)
        ensures
            match r {
                Ok(outbound) => self@.registers(tag@, outbound@),
                Err(err) => !has_tag(self@.outbounds, tag@) && err@ == missing_outbound(tag@),
            },
    {
        match self.get(tag) {
            Some(outbound) => Ok(outbound),
            None => Err(missing_outbound_error(tag)),
        }
    }

    /// Whether an outbound is registered under `tag`.
    pub fn contains(&self, tag: &str) -> (r: bool)
        ensures
            r == has_tag(self@.outbounds, tag@),
    {
        match position(&self.outbounds, tag) {
            Some(i) => {
                assert(self@.outbounds[i as int].tag == tag@);
                true
            },
            None => false,
        }
    }

    /// The number of registered outbounds.
    pub fn len(&self) -> (r: usize)
        ensures
            r == self@.outbounds.len(),
    {
        self.outbounds.len()
    }

    /// Whether no outbound is registered.
    pub fn is_empty(&self) -> (r: bool)
        ensures
            r == (self@.outbounds.len() == 0),
    {
        self.outbounds.len() == 0
    }

    /// The registered outbounds in order.
    pub fn iter(&self) -> (r: Vec<OutboundHandle>)
        ensures
            handle_views(r@) == self@.outbounds,
    {
        let mut out: Vec<OutboundHandle> = Vec::new();
        let mut i: usize = 0;
        while i < self.outbounds.len()
            invariant
                i <= self.outbounds@.len(),
                handle_views(out@) == handle_views(self.outbounds@).take(i as int),
            decreases self.outbounds@.len() - i,
        {
            let ghost before = handle_views(out@);
            out.push(self.outbounds[i].clone());
            assert(handle_views(out@) =~= before.push(self.outbounds@[i as int]@));
            assert(handle_views(self.outbounds@).take(i + 1) =~= handle_views(self.outbounds@).take(
                i as int,
            ).push(self.outbounds@[i as int]@));
            i += 1;
        }
        assert(handle_views(self.outbounds@).take(i as int) =~= handle_views(self.outbounds@));
        out
    }

    /// Every outbound whose lifecycle the registry owns, once.
    pub fn lifecycle_iter(&self) -> (r: Vec<OutboundHandle>)
        ensures
            handle_views(r@) == self@.lifecycle(),
    {
        let mut out = self.iter();
        let mut i: usize = 0;
        while i < self.outbounds.len()
            invariant
                i <= self.outbounds@.len(),
                handle_views(out@) == self@.outbounds,
                forall|j: int|
                    0 <= j < i ==> (#[trigger] self@.outbounds[j]).id != self@.default_outbound.id,
            decreases self.outbounds@.len() - i,
        {
            if self.outbounds[i].same(&self.default_outbound) {
                assert(self@.outbounds[i as int].id == self@.default_outbound.id);
                return out;
            }
            i += 1;
        }
        let ghost before = handle_views(out@);
        out.push(self.default_outbound.clone());
        assert(handle_views(out@) =~= before.push(self@.default_outbound));
        out
    }
}

/// What is registered under a tag is unique.
pub proof fn law_registered_outbound_is_unique(
    registry: RegistryView,
    tag: Seq<char>,
    first: HandleView,
    second: HandleView,
)
    requires
        distinct_tags(registry.outbounds),
        registry.registers(tag, first),
        registry.registers(tag, second),
    ensures
        first == second,
{
    let i = choose|i: int| 0 <= i < registry.outbounds.len() && registry.outbounds[i] == first;
    let j = choose|j: int| 0 <= j < registry.outbounds.len() && registry.outbounds[j] == second;
    if i < j {
        assert(registry.outbounds[i].tag != registry.outbounds[j].tag);
    } else if j < i {
        assert(registry.outbounds[j].tag != registry.outbounds[i].tag);
    }
}

/// The lifecycle list holds the default outbound, and no outbound twice where none was registered
/// twice.
pub proof fn law_lifecycle_lists_each_outbound_once(registry: RegistryView)
    requires
        forall|i: int, j: int|
            0 <= i < j < registry.outbounds.len() ==> (#[trigger] registry.outbounds[i]).id != (
            #[trigger] registry.outbounds[j]).id,
    ensures
        exists|i: int|
            0 <= i < registry.lifecycle().len() && (#[trigger] registry.lifecycle()[i]).id
                == registry.default_outbound.id,
        forall|i: int, j: int|
            0 <= i < j < registry.lifecycle().len() ==> (#[trigger] registry.lifecycle()[i]).id != (
            #[trigger] registry.lifecycle()[j]).id,
        forall|i: int|
            0 <= i < registry.outbounds.len() ==> #[trigger] registry.lifecycle()[i]
                == registry.outbounds[i],
{
    if registry.default_registered() {
        let i = choose|i: int|
            0 <= i < registry.outbounds.len() && (#[trigger] registry.outbounds[i]).id
                == registry.default_outbound.id;
        assert(registry.lifecycle()[i].id == registry.default_outbound.id);
    } else {
        assert(registry.lifecycle()[registry.outbounds.len() as int]
            == registry.default_outbound);
    }
}

/// What is found under a tag was registered and has that tag; something can be found under a tag
/// exactly where an outbound with it was registered.
pub proof fn law_registered_outbound_has_its_tag(
    registry: RegistryView,
    tag: Seq<char>,
    outbound: HandleView,
)
    ensures
        registry.registers(tag, outbound) <==> exists|i: int|
            0 <= i < registry.outbounds.len() && #[trigger] registry.outbounds[i] == outbound
                && outbound.tag == tag,
        has_tag(registry.outbounds, tag) <==> exists|found: HandleView|
            registry.registers(tag, found),
{
    if has_tag(registry.outbounds, tag) {
        let i = choose|i: int|
            0 <= i < registry.outbounds.len() && (#[trigger] registry.outbounds[i]).tag == tag;
        assert(registry.registers(tag, registry.outbounds[i]));
    }
    if exists|found: HandleView| registry.registers(tag, found) {
        let found = choose|found: HandleView| registry.registers(tag, found);
        let i = choose|i: int| 0 <= i < registry.outbounds.len() && registry.outbounds[i] == found;
        assert(registry.outbounds[i].tag == tag);
    }
    if registry.registers(tag, outbound) {
        let i = choose|i: int|
            0 <= i < registry.outbounds.len() && registry.outbounds[i] == outbound;
        assert(registry.outbounds[i] == outbound);
    }
}

/// The lifecycle list holds the registered outbounds and, behind them, the default one exactly where
/// none of them is the same outbound.
pub proof fn law_lifecycle_adds_the_default_outbound(registry: RegistryView)
    ensures
        (exists|i: int|
            0 <= i < registry.outbounds.len() && (#[trigger] registry.outbounds[i]).id
                == registry.default_outbound.id) ==> registry.lifecycle() == registry.outbounds,
        (forall|i: int|
            0 <= i < registry.outbounds.len() ==> (#[trigger] registry.outbounds[i]).id
                != registry.default_outbound.id) ==> registry.lifecycle()
            == registry.outbounds.push(registry.default_outbound),
{
}

} // verus!
