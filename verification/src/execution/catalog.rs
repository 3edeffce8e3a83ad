//! The read-only catalog of outbounds that sessions are dispatched to.

use vstd::prelude::*;

use crate::error::Result;
use crate::execution::outbound::{
    missing_outbound, missing_outbound_error, HandleView, OutboundHandle,
};
use crate::text::same_text;

verus! {

/// Outbounds by tag, and the outbound that is used where none is named.
#[derive(Debug)]
pub struct OutboundCatalog {
    outbounds: Vec<(String, OutboundHandle)>,
    default_outbound: OutboundHandle,
}

/// The catalog as mathematical values.
#[verifier::ext_equal]
pub struct CatalogView {
    pub outbounds: Map<Seq<char>, HandleView>,
    pub default_outbound: HandleView,
}

/// The outbounds by tag; where a tag is given twice the later one counts.
pub open spec fn outbound_map(outbounds: Seq<(String, OutboundHandle)>) -> Map<
    Seq<char>,
    HandleView,
>
    decreases outbounds.len(),
{
    if outbounds.len() == 0 {
        Map::empty()
    } else {
        outbound_map(outbounds.drop_last()).insert(outbounds.last().0@, outbounds.last().1@)
    }
}

impl View for OutboundCatalog {
    type V = CatalogView;

    closed spec fn view(&self) -> CatalogView {
        CatalogView {
            outbounds: outbound_map(self.outbounds@),
            default_outbound: self.default_outbound@,
        }
    }
}

impl CatalogView {
    /// The outbound under `tag`.
    pub open spec fn lookup(self, tag: Seq<char>) -> Option<HandleView> {
        if self.outbounds.contains_key(tag) {
            Some(self.outbounds[tag])
        } else {
            None
        }
    }
}

impl OutboundCatalog {
    /// A catalog of outbounds with the one that is used where none is named.
    pub fn new(
        outbounds: Vec<(String, OutboundHandle)>,
        default_outbound: OutboundHandle,
    ) -> (r: Self)
        ensures
            r@ == (CatalogView {
                outbounds: outbound_map(outbounds@),
                default_outbound: default_outbound@,
            }),
    {
        OutboundCatalog { outbounds, default_outbound }
    }

    /// The outbound under `tag`.
    pub fn get(&self, tag: &str) -> (r: Option<OutboundHandle>)
        ensures
            match self@.lookup(tag@) {
                Some(outbound) => r matches Some(o) && o@ == outbound,
                None => r is None,
            },
    {
        let mut i: usize = self.outbounds.len();
        assert(self.outbounds@.take(i as int) =~= self.outbounds@);
        while i > 0
            invariant
                i <= self.outbounds@.len(),
                self@.outbounds.contains_key(tag@) == outbound_map(
                    self.outbounds@.take(i as int),
                ).contains_key(tag@),
                self@.outbounds[tag@] == outbound_map(self.outbounds@.take(i as int))[tag@],
            decreases i,
        {
            assert(self.outbounds@.take(i as int).drop_last() =~= self.outbounds@.take(i - 1));
            i -= 1;
            let (key, outbound) = &self.outbounds[i];
            if same_text(key.as_str(), tag) {
                return Some(outbound.clone());
            }
        }
        None
    }

    /// The outbound that is used where none is named.
    pub fn default_outbound(&self) -> (r: OutboundHandle)
        ensures
            r@ == self@.default_outbound,
    {
        self.default_outbound.clone()
    }

    /// The outbound under `tag`, or an error where there is none.
    pub fn require(&self, tag: &str) -> (r: Result<OutboundHandle>)
        ensures
            match self@.lookup(tag@) {
                Some(outbound) => r matches Ok(o) && o@ == outbound,
                None => r matches Err(err) && err@ == missing_outbound(tag@),
            },
    {
        match self.get(tag) {
            Some(outbound) => Ok(outbound),
            None => Err(missing_outbound_error(tag)),
        }
    }

    /// Whether there is an outbound under `tag`.
    pub fn contains(&self, tag: &str) -> (r: bool)
        ensures
            r == self@.outbounds.contains_key(tag@),
    {
        self.get(tag).is_some()
    }
}

/// Of several outbounds that are given under one tag the last one counts, and an outbound is found
/// exactly under the tags that were given.
pub proof fn law_last_outbound_of_a_tag_counts(
    outbounds: Seq<(String, OutboundHandle)>,
    default_outbound: HandleView,
    tag: Seq<char>,
)
    ensures
        ({
            let catalog = CatalogView { outbounds: outbound_map(outbounds), default_outbound };
            match catalog.lookup(tag) {
                Some(found) => exists|i: int|
                    0 <= i < outbounds.len() && (#[trigger] outbounds[i]).0@ == tag
                        && outbounds[i].1@ == found && forall|j: int|
                        i < j < outbounds.len() ==> (#[trigger] outbounds[j]).0@ != tag,
                None => forall|i: int|
                    0 <= i < outbounds.len() ==> (#[trigger] outbounds[i]).0@ != tag,
            }
        }),
    decreases outbounds.len(),
{
    if outbounds.len() > 0 {
        let last = outbounds.len() - 1;
        assert(outbounds[last] == outbounds.last());
        if outbounds.last().0@ == tag {
            assert(outbounds[last].0@ == tag);
        } else {
            let front = outbounds.drop_last();
            law_last_outbound_of_a_tag_counts(front, default_outbound, tag);
            let before = CatalogView { outbounds: outbound_map(front), default_outbound };
            match before.lookup(tag) {
                Some(found) => {
                    let k = choose|i: int|
                        0 <= i < front.len() && (#[trigger] front[i]).0@ == tag && front[i].1@
                            == found && forall|j: int|
                            i < j < front.len() ==> (#[trigger] front[j]).0@ != tag;
                    assert(outbounds[k] == front[k]);
                    assert forall|j: int| k < j < outbounds.len() implies (
                    #[trigger] outbounds[j]).0@ != tag by {
                        if j < last {
                            assert(front[j] == outbounds[j]);
                        }
                    }
                },
                None => {
                    assert forall|i: int| 0 <= i < outbounds.len() implies (
                    #[trigger] outbounds[i]).0@ != tag by {
                        if i < last {
                            assert(front[i] == outbounds[i]);
                        }
                    }
                },
            }
        }
    }
}

} // verus!
