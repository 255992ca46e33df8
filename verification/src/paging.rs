//! Answers that come in pages: where the next page is, and when to stop.

use vstd::prelude::*;

use crate::outside::{link_relations, parse_link_header};

verus! {

/// One entry of a `Link` header: its address and its parameters.
#[derive(Debug, PartialEq, Eq)]
pub struct Link {
    pub raw_uri: String,
    pub params: Vec<(String, String)>,
}

/// A link as its address and the map of its parameters.
pub type LinkModel = (Seq<char>, Map<Seq<char>, Seq<char>>);

/// The map that a list of keyed items stands for, each item taken by `value`:
/// of two items with one key the later counts.
pub open spec fn keyed<T, V>(items: Seq<(String, T)>, value: spec_fn(T) -> V) -> Map<Seq<char>, V>
    decreases items.len(),
{
    if items.len() == 0 {
        Map::empty()
    } else {
        keyed(items.drop_last(), value).insert(items.last().0@, value(items.last().1))
    }
}

/// The map of a link's parameters.
pub open spec fn param_map(params: Seq<(String, String)>) -> Map<Seq<char>, Seq<char>> {
    keyed(params, |v: String| v@)
}

impl Link {
    /// The link as its address and the map of its parameters.
    pub open spec fn model(self) -> LinkModel {
        (self.raw_uri@, param_map(self.params@))
    }
}

/// The links of a header by their relation.
pub open spec fn relations(links: Seq<(String, Link)>) -> Map<Seq<char>, LinkModel> {
    keyed(links, |link: Link| link.model())
}

/// Why a `Link` header does not tell whether there is a next page.
#[derive(Debug, PartialEq, Eq)]
pub enum LinkHeaderError {
    /// The header cannot be read.
    Unreadable(String),
    /// There is a next page, but the current one is not given.
    NoCurrent,
    /// There is a next page, but the last one is not given.
    NoLast,
}

/// What the links of a header say of the next page: its address, or `None` if
/// there is no next page or the current page is the last.
pub open spec fn next_of(links: Map<Seq<char>, LinkModel>) -> Result<
    Option<Seq<char>>,
    LinkHeaderError,
> {
    if !links.contains_key("next"@) {
        Ok(None)
    } else if !links.contains_key("current"@) {
        Err(LinkHeaderError::NoCurrent)
    } else if !links.contains_key("last"@) {
        Err(LinkHeaderError::NoLast)
    } else if links["current"@] == links["last"@] {
        Ok(None)
    } else {
        Ok(Some(links["next"@].0))
    }
}

/// Whether `res` is what the links of a header say of the next page.
pub open spec fn says_next(
    links: Map<Seq<char>, LinkModel>,
    res: Result<Option<String>, LinkHeaderError>,
) -> bool {
    match res {
        Ok(next) => next_of(links) == Ok::<_, LinkHeaderError>(next.deep_view()),
        Err(error) => next_of(links) == Err::<Option<Seq<char>>, _>(error),
    }
}

/// A map of keyed items holds what the last item with a key says.
proof fn lemma_keyed_holds<T, V>(items: Seq<(String, T)>, value: spec_fn(T) -> V, i: int)
    requires
        0 <= i < items.len(),
        forall|j: int| i < j < items.len() ==> (#[trigger] items[j]).0@ != items[i].0@,
    ensures
        keyed(items, value).contains_key(items[i].0@),
        keyed(items, value)[items[i].0@] == value(items[i].1),
    decreases items.len(),
{
    if i < items.len() - 1 {
        assert(items[items.len() - 1].0@ != items[i].0@);
        lemma_keyed_holds(items.drop_last(), value, i);
    }
}

/// A map of keyed items has no other keys than those of the items.
proof fn lemma_keyed_keys<T, V>(items: Seq<(String, T)>, value: spec_fn(T) -> V, key: Seq<char>)
    requires
        keyed(items, value).contains_key(key),
    ensures
        exists|i: int| 0 <= i < items.len() && (#[trigger] items[i]).0@ == key,
    decreases items.len(),
{
    if items.last().0@ == key {
        assert(items[items.len() - 1].0@ == key);
    } else {
        lemma_keyed_keys(items.drop_last(), value, key);
        let i = choose|i: int| 0 <= i < items.len() - 1 && (#[trigger] items.drop_last()[i]).0@
            == key;
        assert(items[i].0@ == key);
    }
}

/// Whether `i` is the last index of an item with the key `key`; `None` if no
/// item has it.
pub open spec fn is_last_with_key<T>(
    items: Seq<(String, T)>,
    key: Seq<char>,
    i: Option<usize>,
) -> bool {
    match i {
        Some(i) => {
            &&& i < items.len()
            &&& items[i as int].0@ == key
            &&& forall|j: int| i < j < items.len() ==> (#[trigger] items[j]).0@ != key
        },
        None => forall|j: int| 0 <= j < items.len() ==> (#[trigger] items[j]).0@ != key,
    }
}

/// Looking a key up in a list finds what the map of the list holds.
proof fn lemma_lookup<T, V>(
    items: Seq<(String, T)>,
    value: spec_fn(T) -> V,
    key: Seq<char>,
    i: Option<usize>,
)
    requires
        is_last_with_key(items, key, i),
    ensures
        keyed(items, value).contains_key(key) <==> i is Some,
        i matches Some(i) ==> keyed(items, value)[key] == value(items[i as int].1),
{
    match i {
        Some(i) => {
            lemma_keyed_holds(items, value, i as int);
        },
        None => {
            if keyed(items, value).contains_key(key) {
                lemma_keyed_keys(items, value, key);
            }
        },
    }
}

/// The index of the last item with the key `key`.
fn find_key<T>(items: &Vec<(String, T)>, key: &str) -> (res: Option<usize>)
    ensures
        is_last_with_key(items@, key@, res),
{
    let wanted: String = key.to_owned();
    let mut i: usize = items.len();
    while i > 0
        invariant
            i <= items.len(),
            wanted@ == key@,
            forall|j: int| i <= j < items.len() ==> (#[trigger] items[j]).0@ != key@,
        decreases i,
    {
        i -= 1;
        if items[i].0 == wanted {
            return Some(i);
        }
    }
    None
}

/// Whether every parameter of `a` has the same value in `b`.
fn params_within(a: &Vec<(String, String)>, b: &Vec<(String, String)>) -> (res: bool)
    ensures
        res == param_map(a@).submap_of(param_map(b@)),
{
    let ghost value = |v: String| v@;
    let mut k: usize = 0;
    while k < a.len()
        invariant
            k <= a.len(),
            value == (|v: String| v@),
            forall|j: int|
                0 <= j < k ==> param_map(b@).contains_pair(
                    (#[trigger] a[j]).0@,
                    param_map(a@)[a[j].0@],
                ),
        decreases a.len() - k,
    {
        let in_a: Option<usize> = find_key(a, a[k].0.as_str());
        let in_b: Option<usize> = find_key(b, a[k].0.as_str());
        proof {
            lemma_lookup(a@, value, a[k as int].0@, in_a);
            lemma_lookup(b@, value, a[k as int].0@, in_b);
        }
        let same: bool = match (in_a, in_b) {
            (Some(i), Some(j)) => a[i].1 == b[j].1,
            _ => false,
        };
        if !same {
            assert(param_map(a@).dom().contains(a[k as int].0@));
            return false;
        }
        k += 1;
    }
    proof {
        assert forall|key: Seq<char>| #[trigger]
            param_map(a@).dom().contains(key) implies param_map(b@).contains_pair(
            key,
            param_map(a@)[key],
        ) by {
            lemma_keyed_keys(a@, value, key);
        }
    }
    true
}

/// Whether two links are equal: in their address and in their parameters,
/// whatever the order these are listed in.
pub fn same_link(a: &Link, b: &Link) -> (res: bool)
    ensures
        res == (a.model() == b.model()),
{
    let res: bool = a.raw_uri == b.raw_uri && params_within(&a.params, &b.params) && params_within(
        &b.params,
        &a.params,
    );
    proof {
        param_map(a.params@).lemma_submap_eq_iff(param_map(b.params@));
    }
    res
}

/// What the links of a header say of the next page.
pub fn next_page(links: &Vec<(String, Link)>) -> (res: Result<Option<String>, LinkHeaderError>)
    ensures
        says_next(relations(links@), res),
{
    let next: Option<usize> = find_key(links, "next");
    let current: Option<usize> = find_key(links, "current");
    let last: Option<usize> = find_key(links, "last");
    proof {
        let value = |link: Link| link.model();
        lemma_lookup(links@, value, "next"@, next);
        lemma_lookup(links@, value, "current"@, current);
        lemma_lookup(links@, value, "last"@, last);
    }
    let Some(next) = next else {
        return Ok(None);
    };
    let Some(current) = current else {
        return Err(LinkHeaderError::NoCurrent);
    };
    let Some(last) = last else {
        return Err(LinkHeaderError::NoLast);
    };
    if same_link(&links[current].1, &links[last].1) {
        return Ok(None);
    }
    Ok(Some(links[next].1.raw_uri.clone()))
}

/// Whether `res` is what a response with the `Link` header `header` says of the
/// next page. A response without that header is the last.
pub open spec fn is_next_after(
    header: Option<Seq<char>>,
    res: Result<Option<String>, LinkHeaderError>,
) -> bool {
    match header {
        None => res matches Ok(next) && next is None,
        Some(header) => match link_relations(header) {
            Ok(links) => says_next(links, res),
            Err(text) => res matches Err(LinkHeaderError::Unreadable(error)) && error@ == text,
        },
    }
}

/// The address of the page after the one that came with the `Link` header
/// `header`.
pub fn parse_next_page(header: Option<&str>) -> (res: Result<Option<String>, LinkHeaderError>)
    ensures
        is_next_after(header.deep_view(), res),
{
    let Some(header) = header else {
        return Ok(None);
    };
    match parse_link_header(header) {
        Ok(links) => next_page(&links),
        Err(error) => Err(LinkHeaderError::Unreadable(error)),
    }
}

/// The address of the page after the one that came with the `Link` header
/// `header`, if the header tells and there is one.
pub open spec fn next_after(header: Option<Seq<char>>) -> Option<Seq<char>> {
    match header {
        None => None,
        Some(header) => match link_relations(header) {
            Ok(links) => match next_of(links) {
                Ok(next) => next,
                Err(_) => None,
            },
            Err(_) => None,
        },
    }
}

/// A walk through the pages of an answer: the address to ask next, if any, and
/// the responses so far.
pub struct PageWalk<R> {
    pub link: Option<String>,
    pub resps: Vec<R>,
}

impl<R> PageWalk<R> {
    /// A walk that begins at `link`.
    pub fn start(link: String) -> (res: PageWalk<R>)
        ensures
            res.link.deep_view() == Some(link@),
            res.resps@ == Seq::<R>::empty(),
    {
        PageWalk { link: Some(link), resps: Vec::new() }
    }

    /// Takes the response to the last request, with its `Link` header, and goes
    /// on to the page that the header gives. A header that does not tell
    /// leaves the walk as it is.
    pub fn receive(&mut self, resp: R, header: Option<&str>) -> (res: Result<(), LinkHeaderError>)
        requires
            old(self).link is Some,
        ensures
            match res {
                Ok(_) => {
                    &&& is_next_after(
                        header.deep_view(),
                        Ok::<_, LinkHeaderError>(final(self).link),
                    )
                    &&& final(self).link.deep_view() == next_after(header.deep_view())
                    &&& final(self).resps@ == old(self).resps@.push(resp)
                },
                Err(error) => {
                    &&& is_next_after(header.deep_view(), Err::<Option<String>, _>(error))
                    &&& *final(self) == *old(self)
                },
            },
    {
        match parse_next_page(header) {
            Ok(next) => {
                self.link = next;
                self.resps.push(resp);
                Ok(())
            },
            Err(error) => Err(error),
        }
    }
}

/// The address that a walk from `first` asks next, after responses with the `Link`
/// headers `headers`.
pub open spec fn asked_after(first: Seq<char>, headers: Seq<Option<Seq<char>>>) -> Option<
    Seq<char>,
> {
    if headers.len() == 0 {
        Some(first)
    } else {
        next_after(headers.last())
    }
}

/// Whether responses with the `Link` headers `headers` can come, one after the
/// other, in a walk from `first`: each comes while there is an address to ask.
pub open spec fn is_walk(first: Seq<char>, headers: Seq<Option<Seq<char>>>) -> bool
    decreases headers.len(),
{
    headers.len() > 0 ==> is_walk(first, headers.drop_last()) && asked_after(
        first,
        headers.drop_last(),
    ) is Some
}

/// A walk goes from page to page: the first response answers the first address,
/// and every other answers the address that the response before it gives as
/// `next`. A response that is not the last has such an address, and has not
/// the last page as its current one.
pub proof fn law_walk_follows_next(first: Seq<char>, headers: Seq<Option<Seq<char>>>, k: int)
    requires
        is_walk(first, headers),
        0 <= k < headers.len(),
    ensures
        k == 0 ==> asked_after(first, headers.take(k)) == Some(first),
        k > 0 ==> {
            &&& headers[k - 1] matches Some(header)
            &&& link_relations(header) matches Ok(links)
            &&& links.contains_key("next"@)
            &&& links["current"@] != links["last"@]
            &&& asked_after(first, headers.take(k)) == Some(links["next"@].0)
        },
    decreases headers.len(),
{
    if k == headers.len() - 1 {
        assert(headers.take(k) == headers.drop_last());
        if k > 0 {
            assert(headers.drop_last().last() == headers[k - 1]);
        }
    } else {
        law_walk_follows_next(first, headers.drop_last(), k);
        assert(headers.drop_last().take(k) == headers.take(k));
    }
}

/// A walk does not stop early: after a header that has a next page, the current one
/// and the last, of which the current is not the last, the next page is asked for,
/// whatever else the header has.
pub proof fn law_walk_goes_on(
    first: Seq<char>,
    headers: Seq<Option<Seq<char>>>,
    header: Seq<char>,
    links: Map<Seq<char>, LinkModel>,
)
    requires
        headers.len() > 0,
        headers.last() == Some(header),
        link_relations(header) == Ok::<_, Seq<char>>(links),
        links.contains_key("next"@),
        links.contains_key("current"@),
        links.contains_key("last"@),
        links["current"@] != links["last"@],
    ensures
        next_after(Some(header)) == Some(links["next"@].0),
        asked_after(first, headers) == Some(links["next"@].0),
{
}

/// A walk stops only where the header says so: there is none, it cannot be read, it
/// has no next page, or the current page is the last. It also has no next address
/// where the current or the last page is missing, which is an error.
pub proof fn law_walk_stops(header: Option<Seq<char>>)
    requires
        next_after(header) is None,
    ensures
        header matches Some(text) ==> (link_relations(text) matches Ok(links) ==> (
        links.contains_key("next"@) && links.contains_key("current"@) && links.contains_key(
            "last"@,
        ) ==> links["current"@] == links["last"@])),
{
}

/// The next page depends on three relations only: `next`, `current` and `last`.
pub proof fn law_other_relations_do_not_matter(
    a: Map<Seq<char>, LinkModel>,
    b: Map<Seq<char>, LinkModel>,
)
    requires
        forall|rel: Seq<char>|
            rel == "next"@ || rel == "current"@ || rel == "last"@ ==> (#[trigger] a.contains_key(
                rel,
            ) == b.contains_key(rel)) && (a.contains_key(rel) ==> a[rel] == b[rel]),
    ensures
        next_of(a) == next_of(b),
{
    assert(a.contains_key("next"@) == b.contains_key("next"@));
    assert(a.contains_key("current"@) == b.contains_key("current"@));
    assert(a.contains_key("last"@) == b.contains_key("last"@));
}

/// What a header leads to, for every result that its contract admits. Without a
/// header there is no next page. Without `next` there is none either. With `next`,
/// a missing `current` or `last` is an error; else the address of `next` comes,
/// unless the current page is the last.
pub proof fn law_header_decides(
    header: Option<Seq<char>>,
    res: Result<Option<String>, LinkHeaderError>,
)
    requires
        is_next_after(header, res),
    ensures
        header is None ==> res matches Ok(None),
        header matches Some(text) ==> match link_relations(text) {
            Err(error) => res matches Err(LinkHeaderError::Unreadable(told)) && told@ == error,
            Ok(links) => {
                let next = links.contains_key("next"@);
                let current = links.contains_key("current"@);
                let last = links.contains_key("last"@);
                if !next {
                    res matches Ok(None)
                } else if !current {
                    res matches Err(LinkHeaderError::NoCurrent)
                } else if !last {
                    res matches Err(LinkHeaderError::NoLast)
                } else if links["current"@] == links["last"@] {
                    res matches Ok(None)
                } else {
                    res matches Ok(Some(address)) && address@ == links["next"@].0
                }
            },
        },
{
}

/// A link has the address that it was written with, and of two parameters with one
/// name the value of the later.
pub proof fn law_link_is_its_address_and_parameters(
    link: Link,
    params: Seq<(String, String)>,
    param: (String, String),
    name: Seq<char>,
)
    requires
        link.params@ == params.push(param),
    ensures
        link.model().0 == link.raw_uri@,
        link.model().1.contains_pair(param.0@, param.1@),
        name != param.0@ ==> {
            &&& link.model().1.contains_key(name) == param_map(params).contains_key(name)
            &&& link.model().1.contains_key(name) ==> link.model().1[name] == param_map(
                params,
            )[name]
        },
        param_map(Seq::empty()) == Map::<Seq<char>, Seq<char>>::empty(),
{
    assert(params.push(param).drop_last() =~= params);
}

/// The links of a list are found by their relations: of two with one relation the
/// later.
pub proof fn law_links_by_relation(links: Seq<(String, Link)>, link: (String, Link), rel: Seq<char>)
    ensures
        relations(links.push(link)).contains_pair(link.0@, link.1.model()),
        rel != link.0@ ==> {
            &&& relations(links.push(link)).contains_key(rel) == relations(links).contains_key(rel)
            &&& relations(links).contains_key(rel) ==> relations(links.push(link))[rel]
                == relations(links)[rel]
        },
        relations(Seq::empty()) == Map::<Seq<char>, LinkModel>::empty(),
{
    assert(links.push(link).drop_last() =~= links);
}

} // verus!
