//! Header fields of an HTTP message, and the fields that a server is configured with.

use vstd::prelude::*;

use crate::text::{chars_of, same_text};

verus! {

/// A header field.
#[derive(Debug, PartialEq, Eq)]
pub struct HttpHeader {
    pub name: String,
    pub value: String,
}

/// A header as mathematical values: its name and its value.
pub open spec fn header_view(header: HttpHeader) -> (Seq<char>, Seq<char>) {
    (header.name@, header.value@)
}

/// The headers as mathematical values.
pub open spec fn header_views(headers: Seq<HttpHeader>) -> Seq<(Seq<char>, Seq<char>)> {
    headers.map_values(|h: HttpHeader| header_view(h))
}

/// Whether `a` comes before `b`: at the first place where they differ its character is the smaller
/// one, or it ends there.
pub open spec fn comes_before(a: Seq<char>, b: Seq<char>) -> bool
    decreases a.len(),
{
    if b.len() == 0 {
        false
    } else if a.len() == 0 {
        true
    } else if a[0] != b[0] {
        a[0] < b[0]
    } else {
        comes_before(a.drop_first(), b.drop_first())
    }
}

proof fn lemma_order(a: Seq<char>, b: Seq<char>)
    ensures
        comes_before(a, b) ==> a != b && !comes_before(b, a),
        comes_before(a, b) || comes_before(b, a) || a == b,
    decreases a.len(),
{
    if a.len() > 0 && b.len() > 0 && a[0] == b[0] {
        lemma_order(a.drop_first(), b.drop_first());
        if a.drop_first() == b.drop_first() {
            assert(a =~= seq![a[0]] + a.drop_first());
            assert(b =~= seq![b[0]] + b.drop_first());
        }
    } else if a.len() == 0 && b.len() == 0 {
        assert(a =~= b);
    }
}

proof fn lemma_order_chains(a: Seq<char>, b: Seq<char>, c: Seq<char>)
    requires
        comes_before(a, b),
        comes_before(b, c),
    ensures
        comes_before(a, c),
    decreases a.len(),
{
    if a.len() > 0 && b.len() > 0 && c.len() > 0 && a[0] == b[0] && b[0] == c[0] {
        lemma_order_chains(a.drop_first(), b.drop_first(), c.drop_first());
    }
}

/// Whether text `a` comes before text `b`.
pub fn is_before(a: &str, b: &str) -> (r: bool)
    ensures
        r == comes_before(a@, b@),
{
    let x = chars_of(a);
    let y = chars_of(b);
    let ghost all_x = x@;
    let ghost all_y = y@;
    let mut i: usize = 0;
    assert(all_x.skip(0) =~= all_x);
    assert(all_y.skip(0) =~= all_y);
    while i < x.len() && i < y.len() && x[i] == y[i]
        invariant
            i <= x@.len(),
            i <= y@.len(),
            all_x == x@,
            all_y == y@,
            comes_before(all_x, all_y) == comes_before(
                all_x.skip(i as int),
                all_y.skip(i as int),
            ),
        decreases x@.len() - i,
    {
        assert(all_x.skip(i as int).drop_first() =~= all_x.skip(i + 1));
        assert(all_y.skip(i as int).drop_first() =~= all_y.skip(i + 1));
        i += 1;
    }
    if i >= y.len() {
        false
    } else if i >= x.len() {
        true
    } else {
        x[i] < y[i]
    }
}

/// Whether the names ascend, so that none occurs twice.
pub open spec fn ascending(headers: Seq<(Seq<char>, Seq<char>)>) -> bool {
    forall|i: int, j: int|
        0 <= i < j < headers.len() ==> comes_before(
            (#[trigger] headers[i]).0,
            (#[trigger] headers[j]).0,
        )
}

/// The headers with the field `name` set to `value`: a field of that name is replaced, otherwise
/// the field is put where its name belongs.
pub open spec fn with_header(
    headers: Seq<(Seq<char>, Seq<char>)>,
    name: Seq<char>,
    value: Seq<char>,
) -> Seq<(Seq<char>, Seq<char>)>
    decreases headers.len(),
{
    if headers.len() == 0 {
        seq![(name, value)]
    } else if headers[0].0 == name {
        seq![(name, value)] + headers.drop_first()
    } else if comes_before(name, headers[0].0) {
        seq![(name, value)] + headers
    } else {
        seq![headers[0]] + with_header(headers.drop_first(), name, value)
    }
}

/// Header fields by name, in ascending order of their names.
#[derive(Debug, PartialEq, Eq)]
pub struct HeaderMap {
    entries: Vec<HttpHeader>,
}

impl View for HeaderMap {
    type V = Seq<(Seq<char>, Seq<char>)>;

    closed spec fn view(&self) -> Seq<(Seq<char>, Seq<char>)> {
        header_views(self.entries@)
    }
}

impl HeaderMap {
    #[verifier::type_invariant]
    closed spec fn in_order(self) -> bool {
        ascending(header_views(self.entries@))
    }

    /// No header fields.
    pub fn new() -> (r: Self)
        ensures
            r@ == Seq::<(Seq<char>, Seq<char>)>::empty(),
    {
        let r = HeaderMap { entries: Vec::new() };
        assert(r@ =~= Seq::empty());
        r
    }

    /// The header fields in ascending order of their names.
    pub fn entries(&self) -> (r: &Vec<HttpHeader>)
        ensures
            header_views(r@) == self@,
            ascending(self@),
    {
        proof {
            use_type_invariant(self);
        }
        &self.entries
    }

    /// Sets a field. A field of the same name is replaced.
    pub fn insert(&mut self, name: String, value: String)
        ensures
            final(self)@ == with_header(old(self)@, name@, value@),
            ascending(final(self)@),
    {
        proof {
            use_type_invariant(&*self);
        }
        let mut entries: Vec<HttpHeader> = Vec::new();
        std::mem::swap(&mut entries, &mut self.entries);
        let ghost all = header_views(entries@);
        let ghost field = (name@, value@);
        let mut i: usize = 0;
        assert(all.skip(0) =~= all);
        assert(all.take(0) + with_header(all, name@, value@) =~= with_header(all, name@, value@));
        while i < entries.len() && is_before(entries[i].name.as_str(), name.as_str())
            invariant
                i <= entries@.len(),
                all == header_views(entries@),
                field == (name@, value@),
                forall|j: int| 0 <= j < i ==> comes_before((#[trigger] all[j]).0, name@),
                with_header(all, name@, value@) == all.take(i as int) + with_header(
                    all.skip(i as int),
                    name@,
                    value@,
                ),
            decreases entries@.len() - i,
        {
            proof {
                lemma_order(all[i as int].0, name@);
                assert(all.skip(i as int)[0] == all[i as int]);
                assert(all.skip(i as int).drop_first() =~= all.skip(i + 1));
                assert(all.take(i as int) + (seq![all[i as int]] + with_header(
                    all.skip(i + 1),
                    name@,
                    value@,
                )) =~= all.take(i + 1) + with_header(all.skip(i + 1), name@, value@));
            }
            i += 1;
        }
        let ghost wanted = with_header(all, name@, value@);
        let replaces = i < entries.len() && same_text(entries[i].name.as_str(), name.as_str());
        proof {
            if i < entries@.len() {
                lemma_order(all[i as int].0, name@);
                assert(all.skip(i as int)[0] == all[i as int]);
                assert(all.skip(i as int).drop_first() =~= all.skip(i + 1));
            }
        }
        let header = HttpHeader { name, value };
        if replaces {
            entries.set(i, header);
            assert(header_views(entries@) =~= wanted);
        } else {
            entries.insert(i, header);
            assert(header_views(entries@) =~= wanted);
        }
        proof {
            law_header_is_set(all, field.0, field.1, field.0);
        }
        self.entries = entries;
    }
}

impl Clone for HeaderMap {
    fn clone(&self) -> (r: Self)
        ensures
            r@ == self@,
    {
        proof {
            use_type_invariant(self);
        }
        let ghost all = header_views(self.entries@);
        let mut entries: Vec<HttpHeader> = Vec::new();
        let mut i: usize = 0;
        while i < self.entries.len()
            invariant
                i <= self.entries@.len(),
                all == header_views(self.entries@),
                header_views(entries@) == all.take(i as int),
            decreases self.entries@.len() - i,
        {
            let ghost before = header_views(entries@);
            let header = &self.entries[i];
            entries.push(HttpHeader { name: header.name.clone(), value: header.value.clone() });
            assert(header_views(entries@) =~= before.push(all[i as int]));
            assert(all.take(i + 1) =~= all.take(i as int).push(all[i as int]));
            i += 1;
        }
        assert(all.take(i as int) =~= all);
        HeaderMap { entries }
    }
}

/// Whether a field has this name and this value.
pub open spec fn has_header(
    headers: Seq<(Seq<char>, Seq<char>)>,
    name: Seq<char>,
    value: Seq<char>,
) -> bool {
    headers.contains((name, value))
}

/// Setting a field keeps the names in order, gives the field that value and no other, and leaves
/// the other fields as they were.
pub proof fn law_header_is_set(
    headers: Seq<(Seq<char>, Seq<char>)>,
    name: Seq<char>,
    value: Seq<char>,
    other: Seq<char>,
)
    requires
        ascending(headers),
    ensures
        ascending(with_header(headers, name, value)),
        forall|v: Seq<char>|
            #[trigger] has_header(with_header(headers, name, value), name, v) <==> v == value,
        other != name ==> forall|v: Seq<char>|
            #[trigger] has_header(with_header(headers, name, value), other, v) <==> has_header(
                headers,
                other,
                v,
            ),
    decreases headers.len(),
{
    let after = with_header(headers, name, value);
    if headers.len() == 0 {
        assert(after[0] == (name, value));
    } else {
        let rest = headers.drop_first();
        assert forall|i: int, j: int| 0 <= i < j < rest.len() implies comes_before(
            (#[trigger] rest[i]).0,
            (#[trigger] rest[j]).0,
        ) by {
            assert(headers[i + 1] == rest[i] && headers[j + 1] == rest[j]);
        }
        assert forall|j: int| 0 <= j < rest.len() implies comes_before(
            headers[0].0,
            (#[trigger] rest[j]).0,
        ) by {
            assert(headers[j + 1] == rest[j]);
        }
        lemma_order(name, headers[0].0);
        if headers[0].0 == name || comes_before(name, headers[0].0) {
            let tail = if headers[0].0 == name { rest } else { headers };
            assert(after =~= seq![(name, value)] + tail);
            assert forall|j: int| 0 <= j < tail.len() implies comes_before(
                name,
                (#[trigger] tail[j]).0,
            ) by {
                if headers[0].0 != name && j > 0 {
                    assert(rest[j - 1] == headers[j]);
                    lemma_order_chains(name, headers[0].0, headers[j].0);
                }
            }
            lemma_prepended(tail, name, value, other);
            assert forall|v: Seq<char>| other != name implies #[trigger] has_header(
                after,
                other,
                v,
            ) == has_header(headers, other, v) by {
                lemma_first_apart(headers, other, v);
            }
        } else {
            let set = with_header(rest, name, value);
            law_header_is_set(rest, name, value, other);
            assert(after =~= seq![headers[0]] + set);
            assert forall|j: int| 0 <= j < set.len() implies comes_before(
                headers[0].0,
                (#[trigger] set[j]).0,
            ) by {
                if set[j].0 != name {
                    law_header_is_set(rest, name, value, set[j].0);
                    assert(set.contains(set[j]));
                    assert(has_header(set, set[j].0, set[j].1));
                    assert(has_header(rest, set[j].0, set[j].1));
                    let k = choose|k: int| 0 <= k < rest.len() && rest[k] == (set[j].0, set[j].1);
                    assert(rest[k].0 == set[j].0);
                }
            }
            lemma_prepended(set, headers[0].0, headers[0].1, other);
            assert forall|v: Seq<char>| #[trigger] has_header(after, name, v) == (v == value) by {
                lemma_first_apart(after, name, v);
                assert(after.drop_first() =~= set);
                assert(has_header(set, name, v) == (v == value));
            }
            assert forall|v: Seq<char>| other != name implies #[trigger] has_header(
                after,
                other,
                v,
            ) == has_header(headers, other, v) by {
                lemma_first_apart(after, other, v);
                lemma_first_apart(headers, other, v);
                assert(after.drop_first() =~= set);
                assert(has_header(set, other, v) == has_header(rest, other, v));
            }
        }
    }
}

/// A field is the first one or among the others.
proof fn lemma_first_apart(
    headers: Seq<(Seq<char>, Seq<char>)>,
    name: Seq<char>,
    value: Seq<char>,
)
    requires
        headers.len() > 0,
    ensures
        has_header(headers, name, value) == (headers[0] == (name, value) || has_header(
            headers.drop_first(),
            name,
            value,
        )),
{
    if has_header(headers.drop_first(), name, value) {
        let k = choose|k: int|
            0 <= k < headers.drop_first().len() && headers.drop_first()[k] == (name, value);
        assert(headers[k + 1] == (name, value));
    }
    if has_header(headers, name, value) {
        let k = choose|k: int| 0 <= k < headers.len() && headers[k] == (name, value);
        if k > 0 {
            assert(headers.drop_first()[k - 1] == (name, value));
        }
    }
}

/// A field before headers whose names all come behind its own.
proof fn lemma_prepended(
    tail: Seq<(Seq<char>, Seq<char>)>,
    name: Seq<char>,
    value: Seq<char>,
    other: Seq<char>,
)
    requires
        ascending(tail),
        forall|j: int| 0 <= j < tail.len() ==> comes_before(name, (#[trigger] tail[j]).0),
    ensures
        ascending(seq![(name, value)] + tail),
        forall|v: Seq<char>|
            #[trigger] has_header(seq![(name, value)] + tail, name, v) <==> v == value,
        other != name ==> forall|v: Seq<char>|
            #[trigger] has_header(seq![(name, value)] + tail, other, v) <==> has_header(
                tail,
                other,
                v,
            ),
{
    let all = seq![(name, value)] + tail;
    assert forall|i: int, j: int| 0 <= i < j < all.len() implies comes_before(
        (#[trigger] all[i]).0,
        (#[trigger] all[j]).0,
    ) by {
        assert(all[j] == tail[j - 1]);
        if i > 0 {
            assert(all[i] == tail[i - 1]);
        }
    }
    assert(all.drop_first() =~= tail);
    assert forall|v: Seq<char>| #[trigger] has_header(all, name, v) == (v == value) by {
        lemma_first_apart(all, name, v);
        if has_header(tail, name, v) {
            let k = choose|k: int| 0 <= k < tail.len() && tail[k] == (name, v);
            assert(tail[k].0 == name);
            lemma_order(name, tail[k].0);
        }
    }
    assert forall|v: Seq<char>| other != name implies #[trigger] has_header(all, other, v)
        == has_header(tail, other, v) by {
        lemma_first_apart(all, other, v);
    }
}

/// Names are ordered by the first character in which they differ, and a name comes before every
/// longer name that starts with it.
pub proof fn law_order_of_names(start: Seq<char>, a: Seq<char>, b: Seq<char>)
    ensures
        b.len() > 0 ==> comes_before(start, start + b),
        !comes_before(start + b, start),
        a.len() > 0 && b.len() > 0 && a[0] != b[0] ==> (comes_before(start + a, start + b) <==> a[0]
            < b[0]),
    decreases start.len(),
{
    if start.len() == 0 {
        assert(start + a =~= a);
        assert(start + b =~= b);
    } else {
        let less = start.drop_first();
        law_order_of_names(less, a, b);
        assert((start + a).drop_first() =~= less + a);
        assert((start + b).drop_first() =~= less + b);
        assert((start + a)[0] == start[0]);
        assert((start + b)[0] == start[0]);
    }
}

/// A list of fields shows the name and the value of each, in order.
pub proof fn law_header_views_show_everything(headers: Seq<HttpHeader>)
    ensures
        header_views(headers).len() == headers.len(),
        forall|i: int|
            0 <= i < headers.len() ==> (#[trigger] header_views(headers)[i]).0 == headers[i].name@
                && header_views(headers)[i].1 == headers[i].value@,
{
}

} // verus!
