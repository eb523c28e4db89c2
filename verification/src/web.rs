//! The decisions of the web server: who may call the API, which links the
//! graph and link views show, and which entities are starred. The
//! application serves HTTP and turns these results into JSON.

use vstd::prelude::*;

use crate::lists::{contains_str, lemma_take_contains, lex_lt, lex_lt_exec, push_unique, unique};
use crate::models::{EntityKind, Entry, SEntry, Timestamp, entry_views, spec_earlier};
use crate::order::{Ranked, is_ranking, keep_all, lemma_ranking_len, lemma_ranking_sorted, rank_order};
use crate::storage::{Store, load_any, spec_listed, spec_load_any};
use crate::text::{
    copy, own, split_char, split_once, starts_with, str_eq, str_split_char, str_split_once,
    str_starts_with, string_of, chars_of, views, lowercase, to_lowercase, contains_sub, str_contains,
};

verus! {

/// What every request handler shares: the data directory and the token
/// that API requests must present, if any.
#[derive(Debug)]
pub struct AppState {
    pub data_dir: String,
    pub token: Option<String>,
}

// ---------------------------------------------------------------------------
// Authentication
// ---------------------------------------------------------------------------

/// A query parameter `token=<expected>`: the text before the first `=` is
/// `token` and the text after it is the expected token.
pub open spec fn token_pair(pair: Seq<char>, expected: Seq<char>) -> bool {
    match split_once(pair, '=') {
        Some((k, v)) => k == "token"@ && v == expected,
        None => false,
    }
}

/// One of the `&`-separated pairs of a query string carries the token.
pub open spec fn query_has_token(query: Seq<char>, expected: Seq<char>) -> bool {
    exists|i: int| 0 <= i < split_char(query, '&').len() && #[trigger] token_pair(split_char(query, '&')[i], expected)
}

/// A request may go through: it is not for the API (`/api/...`), or no
/// token is required, or it presents the token in the `X-ZNote-Token`
/// header, as `Authorization: Bearer <token>`, or as the query parameter
/// `token`.
pub open spec fn spec_authorized(
    path: Seq<char>,
    expected: Option<Seq<char>>,
    header_token: Option<Seq<char>>,
    authorization: Option<Seq<char>>,
    query: Option<Seq<char>>,
) -> bool {
    match expected {
        None => true,
        Some(t) => {
            ||| !starts_with(path, "/api/"@)
            ||| header_token == Some(t)
            ||| (authorization matches Some(a) && starts_with(a, "Bearer "@) && a.skip(7) == t)
            ||| (query matches Some(q) && query_has_token(q, t))
        },
    }
}

/// The text of an optional string slice.
pub open spec fn opt_str(o: Option<&str>) -> Option<Seq<char>> {
    match o {
        Some(s) => Some(s@),
        None => None,
    }
}

/// A request for `path` may go through (see [`spec_authorized`]).
/// `header_token` is the `X-ZNote-Token` header (empty when it is not
/// visible ASCII), `authorization` the `Authorization` header when it is
/// visible ASCII, `query` the raw query string.
pub fn is_authorized(
    path: &str,
    expected: Option<&str>,
    header_token: Option<&str>,
    authorization: Option<&str>,
    query: Option<&str>,
) -> (r: bool)
    ensures
        r == spec_authorized(path@, opt_str(expected), opt_str(header_token), opt_str(authorization), opt_str(query)),
{
    let t = match expected {
        None => {
            return true;
        },
        Some(t) => t,
    };
    if !str_starts_with(path, "/api/") {
        return true;
    }
    match header_token {
        Some(h) => {
            if str_eq(h, t) {
                return true;
            }
        },
        None => {},
    }
    match authorization {
        Some(a) => {
            proof {
                reveal_strlit("Bearer ");
            }
            if str_starts_with(a, "Bearer ") {
                let v = chars_of(a);
                let rest = string_of(&v, 7, v.len());
                assert(rest@ =~= a@.skip(7));
                if str_eq(rest.as_str(), t) {
                    return true;
                }
            }
        },
        None => {},
    }
    match query {
        Some(q) => {
            let pairs = str_split_char(q, '&');
            let ghost pv = views(pairs@);
            let mut i: usize = 0;
            while i < pairs.len()
                invariant
                    i <= pairs.len(),
                    pv == views(pairs@),
                    pv == split_char(q@, '&'),
                    expected == Some(t),
                    query == Some(q),
                    starts_with(path@, "/api/"@),
                    forall|j: int| 0 <= j < i ==> !token_pair(pv[j], t@),
                decreases pairs.len() - i,
            {
                assert(pv[i as int] == pairs@[i as int]@);
                match str_split_once(pairs[i].as_str(), '=') {
                    Some((k, v)) => {
                        if str_eq(k.as_str(), "token") && str_eq(v.as_str(), t) {
                            assert(token_pair(pv[i as int], t@));
                            assert(token_pair(split_char(q@, '&')[i as int], t@));
                            return true;
                        }
                    },
                    None => {},
                }
                i = i + 1;
            }
            false
        },
        None => false,
    }
}

/// The tags hold the starred tag (`#starred` unless configured otherwise).
pub fn is_starred(tags: &Vec<String>, starred_tag: &str) -> (r: bool)
    ensures
        r == views(tags@).contains(starred_tag@),
{
    contains_str(tags, starred_tag)
}

// ---------------------------------------------------------------------------
// The graph view
// ---------------------------------------------------------------------------

/// A link of the graph view.
#[derive(Debug)]
pub struct GraphLink {
    pub source: String,
    pub target: String,
    pub label: String,
}

/// Mathematical model of a graph link: source, target, label.
pub open spec fn graph_link_views(v: Seq<GraphLink>) -> Seq<(Seq<char>, Seq<char>, Seq<char>)> {
    v.map_values(|l: GraphLink| (l.source@, l.target@, l.label@))
}

/// The least id (in `String` order) that starts with `p`.
pub open spec fn least_with_prefix(ids: Seq<Seq<char>>, p: Seq<char>) -> Option<Seq<char>>
    decreases ids.len(),
{
    if ids.len() == 0 {
        None
    } else {
        let m = least_with_prefix(ids.drop_last(), p);
        if starts_with(ids.last(), p) {
            match m {
                Some(x) => if lex_lt(ids.last(), x) {
                    Some(ids.last())
                } else {
                    Some(x)
                },
                None => Some(ids.last()),
            }
        } else {
            m
        }
    }
}

/// The graph links of one entity: for each `relationship:prefix` link whose
/// prefix starts some id, a link to the least such id.
pub open spec fn entity_graph_links(id: Seq<char>, links: Seq<Seq<char>>, ids: Seq<Seq<char>>) -> Seq<(Seq<char>, Seq<char>, Seq<char>)>
    decreases links.len(),
{
    if links.len() == 0 {
        Seq::empty()
    } else {
        entity_graph_links(id, links.drop_last(), ids) + match split_once(links.last(), ':') {
            Some((rel, t)) => match least_with_prefix(ids, t) {
                Some(x) => seq![(id, x, rel)],
                None => Seq::empty(),
            },
            None => Seq::empty(),
        }
    }
}

/// The ids of a list of entities.
pub open spec fn entry_ids(es: Seq<SEntry>) -> Seq<Seq<char>> {
    es.map_values(|e: SEntry| e.id)
}

/// The graph links of all entities, in order.
pub open spec fn all_graph_links(es: Seq<SEntry>, ids: Seq<Seq<char>>) -> Seq<(Seq<char>, Seq<char>, Seq<char>)>
    decreases es.len(),
{
    if es.len() == 0 {
        Seq::empty()
    } else {
        all_graph_links(es.drop_last(), ids) + entity_graph_links(es.last().id, es.last().links, ids)
    }
}

/// The least id that starts with `p` (see [`least_with_prefix`]).
fn least_with_prefix_exec(ids: &Vec<String>, p: &str) -> (r: Option<String>)
    ensures
        crate::text::opt_view(r) == least_with_prefix(views(ids@), p@),
{
    let ghost iv = views(ids@);
    let mut best: Option<String> = None;
    let mut i: usize = 0;
    while i < ids.len()
        invariant
            i <= ids.len(),
            iv == views(ids@),
            crate::text::opt_view(best) == least_with_prefix(iv.take(i as int), p@),
        decreases ids.len() - i,
    {
        let ghost next = iv.take(i + 1);
        assert(next.drop_last() =~= iv.take(i as int));
        assert(next.last() == ids@[i as int]@);
        if str_starts_with(ids[i].as_str(), p) {
            let take = match &best {
                Some(x) => lex_lt_exec(ids[i].as_str(), x.as_str()),
                None => true,
            };
            if take {
                best = Some(copy(&ids[i]));
            }
        }
        i = i + 1;
    }
    assert(iv.take(ids.len() as int) =~= iv);
    best
}

/// The links of the graph view: every `relationship:prefix` link of every
/// entity whose prefix starts some entity id, pointed at the least such id
/// and labelled with the relationship. `entries` are the stored notes,
/// bookmarks and tasks.
pub fn graph_links(entries: &Vec<Entry>) -> (r: Vec<GraphLink>)
    ensures
        graph_link_views(r@) == all_graph_links(entry_views(entries@), entry_ids(entry_views(entries@))),
{
    let ghost ev = entry_views(entries@);
    let mut ids: Vec<String> = Vec::new();
    let mut i: usize = 0;
    while i < entries.len()
        invariant
            i <= entries.len(),
            ev == entry_views(entries@),
            views(ids@) == entry_ids(ev.take(i as int)),
        decreases entries.len() - i,
    {
        let ghost b = views(ids@);
        let x = copy(&entries[i].id);
        ids.push(x);
        assert(ev[i as int] == entries@[i as int]@);
        assert(ev.take(i + 1) =~= ev.take(i as int).push(ev[i as int]));
        assert(views(ids@) =~= b.push(x@));
        assert(views(ids@) =~= entry_ids(ev.take(i + 1)));
        i = i + 1;
    }
    assert(ev.take(entries.len() as int) =~= ev);
    let ghost idv = views(ids@);
    let mut out: Vec<GraphLink> = Vec::new();
    let mut k: usize = 0;
    while k < entries.len()
        invariant
            k <= entries.len(),
            ev == entry_views(entries@),
            idv == views(ids@),
            idv == entry_ids(ev),
            graph_link_views(out@) == all_graph_links(ev.take(k as int), idv),
        decreases entries.len() - k,
    {
        let ghost next = ev.take(k + 1);
        assert(next.drop_last() =~= ev.take(k as int));
        assert(next.last() == entries@[k as int]@);
        let e = &entries[k];
        let ghost base = graph_link_views(out@);
        let mut j: usize = 0;
        assert(views(e.links@).take(0) =~= Seq::<Seq<char>>::empty());
        assert(base + entity_graph_links(e.id@, Seq::empty(), idv) =~= base);
        while j < e.links.len()
            invariant
                j <= e.links.len(),
                idv == views(ids@),
                graph_link_views(out@) == base + entity_graph_links(e.id@, views(e.links@).take(j as int), idv),
            decreases e.links.len() - j,
        {
            let ghost lt = views(e.links@).take(j + 1);
            assert(lt.drop_last() =~= views(e.links@).take(j as int));
            assert(lt.last() == e.links@[j as int]@);
            let ghost prev = graph_link_views(out@);
            match str_split_once(e.links[j].as_str(), ':') {
                Some((rel, t)) => match least_with_prefix_exec(&ids, t.as_str()) {
                    Some(x) => {
                        let ghost item = (e.id@, x@, rel@);
                        out.push(GraphLink { source: copy(&e.id), target: x, label: rel });
                        assert(graph_link_views(out@) =~= prev.push(item));
                        assert(graph_link_views(out@) =~= base + entity_graph_links(e.id@, lt, idv));
                    },
                    None => {
                        assert(graph_link_views(out@) =~= base + entity_graph_links(e.id@, lt, idv));
                    },
                },
                None => {
                    assert(graph_link_views(out@) =~= base + entity_graph_links(e.id@, lt, idv));
                },
            }
            j = j + 1;
        }
        assert(views(e.links@).take(e.links.len() as int) =~= views(e.links@));
        k = k + 1;
    }
    assert(ev.take(entries.len() as int) =~= ev);
    out
}

// ---------------------------------------------------------------------------
// The link view of one entity
// ---------------------------------------------------------------------------

/// An entity at the other end of a link.
#[derive(Debug)]
pub struct LinkItem {
    pub id: String,
    pub title: String,
    pub entity_type: EntityKind,
    pub rel: String,
}

/// Mathematical model of a link item.
#[verifier::ext_equal]
pub struct SLinkItem {
    pub id: Seq<char>,
    pub title: Seq<char>,
    pub kind: EntityKind,
    pub rel: Seq<char>,
}

impl View for LinkItem {
    type V = SLinkItem;

    open spec fn view(&self) -> SLinkItem {
        SLinkItem { id: self.id@, title: self.title@, kind: self.entity_type, rel: self.rel@ }
    }
}

/// The models of a list of link items.
pub open spec fn link_item_views(v: Seq<LinkItem>) -> Seq<SLinkItem> {
    v.map_values(|l: LinkItem| SLinkItem { id: l.id@, title: l.title@, kind: l.entity_type, rel: l.rel@ })
}

/// The item for an entity reached by a link of relationship `rel`.
pub open spec fn item_of(e: SEntry, rel: Seq<char>) -> SLinkItem {
    SLinkItem { id: e.id, title: e.title, kind: e.kind, rel }
}

/// The entities the links `links` point at, each found as a note, else a
/// bookmark, else a task; links whose target matches nothing are left out.
pub open spec fn outgoing_items(store: Store, links: Seq<Seq<char>>) -> Seq<SLinkItem>
    decreases links.len(),
{
    if links.len() == 0 {
        Seq::empty()
    } else {
        outgoing_items(store, links.drop_last()) + match split_once(links.last(), ':') {
            Some((rel, t)) => match spec_load_any(store, t) {
                Some(e) => seq![item_of(e, rel)],
                None => Seq::empty(),
            },
            None => Seq::empty(),
        }
    }
}

/// The items for the links of one entity that point at `id` (either id a
/// prefix of the other).
pub open spec fn links_to(e: SEntry, links: Seq<Seq<char>>, id: Seq<char>) -> Seq<SLinkItem>
    decreases links.len(),
{
    if links.len() == 0 {
        Seq::empty()
    } else {
        links_to(e, links.drop_last(), id) + match split_once(links.last(), ':') {
            Some((rel, t)) => if starts_with(id, t) || starts_with(t, id) {
                seq![item_of(e, rel)]
            } else {
                Seq::empty()
            },
            None => Seq::empty(),
        }
    }
}

/// The items for all links that point at `id`, entity by entity.
pub open spec fn incoming_items(es: Seq<SEntry>, id: Seq<char>) -> Seq<SLinkItem>
    decreases es.len(),
{
    if es.len() == 0 {
        Seq::empty()
    } else {
        incoming_items(es.drop_last(), id) + links_to(es.last(), es.last().links, id)
    }
}

/// The links of an entity in both directions.
#[derive(Debug)]
pub struct Links {
    pub outgoing: Vec<LinkItem>,
    pub incoming: Vec<LinkItem>,
}

/// The items for the links `links` (see [`outgoing_items`]).
fn outgoing_exec(store: &Store, links: &Vec<String>) -> (r: Vec<LinkItem>)
    requires
        store.wf(),
    ensures
        link_item_views(r@) == outgoing_items(*store, views(links@)),
{
    let ghost sl = views(links@);
    let mut outgoing: Vec<LinkItem> = Vec::new();
    let mut i: usize = 0;
    assert(sl.take(0) =~= Seq::<Seq<char>>::empty());
    while i < links.len()
        invariant
            i <= links.len(),
            store.wf(),
            sl == views(links@),
            link_item_views(outgoing@) == outgoing_items(*store, sl.take(i as int)),
        decreases links.len() - i,
    {
        let ghost next = sl.take(i + 1);
        assert(next.drop_last() =~= sl.take(i as int));
        assert(next.last() == links@[i as int]@);
        let ghost before = link_item_views(outgoing@);
        match str_split_once(links[i].as_str(), ':') {
            Some((rel, t)) => match load_any(store, t.as_str()) {
                Some(e) => {
                    let ghost item = item_of(e@, rel@);
                    outgoing.push(LinkItem { id: copy(&e.id), title: copy(&e.title), entity_type: e.kind, rel });
                    assert(link_item_views(outgoing@) =~= before.push(item));
                    assert(link_item_views(outgoing@) =~= outgoing_items(*store, next));
                },
                None => {
                    assert(link_item_views(outgoing@) =~= outgoing_items(*store, next));
                },
            },
            None => {
                assert(link_item_views(outgoing@) =~= outgoing_items(*store, next));
            },
        }
        i = i + 1;
    }
    assert(sl.take(links.len() as int) =~= sl);
    outgoing
}

/// Appends the items for the links of `e` that point at `id`.
fn links_to_exec(e: &Entry, id: &str, out: &mut Vec<LinkItem>)
    ensures
        link_item_views(final(out)@) == link_item_views(old(out)@) + links_to(e@, e@.links, id@),
{
    let ghost base = link_item_views(out@);
    let mut j: usize = 0;
    assert(views(e.links@).take(0) =~= Seq::<Seq<char>>::empty());
    assert(base + links_to(e@, Seq::empty(), id@) =~= base);
    while j < e.links.len()
        invariant
            j <= e.links.len(),
            base == link_item_views(old(out)@),
            link_item_views(out@) == base + links_to(e@, views(e.links@).take(j as int), id@),
        decreases e.links.len() - j,
    {
        let ghost lt = views(e.links@).take(j + 1);
        assert(lt.drop_last() =~= views(e.links@).take(j as int));
        assert(lt.last() == e.links@[j as int]@);
        let ghost prev = link_item_views(out@);
        match str_split_once(e.links[j].as_str(), ':') {
            Some((rel, t)) => {
                if str_starts_with(id, t.as_str()) || str_starts_with(t.as_str(), id) {
                    let ghost item = item_of(e@, rel@);
                    out.push(LinkItem { id: copy(&e.id), title: copy(&e.title), entity_type: e.kind, rel });
                    assert(link_item_views(out@) =~= prev.push(item));
                }
                assert(link_item_views(out@) =~= base + links_to(e@, lt, id@));
            },
            None => {
                assert(link_item_views(out@) =~= base + links_to(e@, lt, id@));
            },
        }
        j = j + 1;
    }
    assert(views(e.links@).take(e.links.len() as int) =~= views(e.links@));
}

/// The links of the entity `id` names: the entities its links point at,
/// and the entities whose links point at it.
pub fn api_links(store: &Store, id: &str) -> (r: Links)
    requires
        store.wf(),
    ensures
        link_item_views(r.outgoing@) == outgoing_items(*store, match spec_load_any(*store, id@) {
            Some(e) => e.links,
            None => Seq::empty(),
        }),
        link_item_views(r.incoming@) == incoming_items(spec_listed(*store), id@),
{
    let outgoing = match load_any(store, id) {
        Some(e) => outgoing_exec(store, &e.links),
        None => {
            let empty: Vec<String> = Vec::new();
            assert(views(empty@) =~= Seq::<Seq<char>>::empty());
            outgoing_exec(store, &empty)
        },
    };
    let all = store.listed();
    let ghost ev = entry_views(all@);
    let mut incoming: Vec<LinkItem> = Vec::new();
    let mut k: usize = 0;
    while k < all.len()
        invariant
            k <= all.len(),
            ev == entry_views(all@),
            link_item_views(incoming@) == incoming_items(ev.take(k as int), id@),
        decreases all.len() - k,
    {
        let ghost next = ev.take(k + 1);
        assert(next.drop_last() =~= ev.take(k as int));
        assert(next.last() == all@[k as int]@);
        links_to_exec(&all[k], id, &mut incoming);
        k = k + 1;
    }
    assert(ev.take(all.len() as int) =~= ev);
    Links { outgoing, incoming }
}


/// Law: only API requests need the token; everything else (the web
/// interface and its deep links) always goes through.
pub proof fn law_only_api_guarded(
    path: Seq<char>,
    expected: Option<Seq<char>>,
    header_token: Option<Seq<char>>,
    authorization: Option<Seq<char>>,
    query: Option<Seq<char>>,
)
    requires
        !starts_with(path, "/api/"@),
    ensures
        spec_authorized(path, expected, header_token, authorization, query),
{
}

// ---------------------------------------------------------------------------
// Listings
// ---------------------------------------------------------------------------

/// What a listing orders an entity by: whether it is starred and when it
/// was last updated.
#[derive(Debug, Clone, Copy)]
pub struct ListingKey {
    pub starred: bool,
    pub updated: Timestamp,
}

impl Ranked for ListingKey {
    /// Starred entities first; then the most recently updated first.
    open spec fn ranks_before(self, other: ListingKey) -> bool {
        (self.starred && !other.starred) || (self.starred == other.starred && spec_earlier(other.updated, self.updated))
    }

    fn before(&self, other: &ListingKey) -> (r: bool) {
        (self.starred && !other.starred) || (self.starred == other.starred && other.updated.earlier_than(&self.updated))
    }

    proof fn lemma_irreflexive(a: ListingKey) {
    }

    proof fn lemma_transitive(a: ListingKey, b: ListingKey, c: ListingKey) {
    }

    proof fn lemma_negative_transitive(a: ListingKey, b: ListingKey, c: ListingKey) {
    }
}

/// Every index kept.
pub open spec fn all_kept(n: int) -> Seq<bool> {
    Seq::new(n as nat, |i: int| true)
}

/// The order in which a listing shows entities with these keys: starred
/// ones first, then the most recently updated first; entities that rank
/// alike keep their order.
pub fn listing_order(keys: &Vec<ListingKey>) -> (r: Vec<usize>)
    ensures
        is_ranking(keys@, all_kept(keys.len() as int), r@),
{
    let keep = keep_all(keys.len());
    assert(keep@ =~= all_kept(keys.len() as int));
    rank_order(keys, &keep)
}

/// Law: a listing shows every entity once, every starred entity before
/// every entity that is not, and, among entities alike in that, no entity
/// before one updated later.
pub proof fn law_listing_starred_then_newest(keys: Seq<ListingKey>, r: Seq<usize>)
    requires
        is_ranking(keys, all_kept(keys.len() as int), r),
        keys.len() <= usize::MAX,
    ensures
        r.len() == keys.len(),
        r.no_duplicates(),
        forall|a: int, b: int| 0 <= a < b < r.len() ==> {
            let ka = keys[#[trigger] r[a] as int];
            let kb = keys[#[trigger] r[b] as int];
            &&& (ka.starred || !kb.starred)
            &&& (ka.starred == kb.starred ==> !spec_earlier(ka.updated, kb.updated))
        },
{
    let keep = all_kept(keys.len() as int);
    assert forall|a: int, b: int| 0 <= a < b < r.len() implies {
        let ka = keys[#[trigger] r[a] as int];
        let kb = keys[#[trigger] r[b] as int];
        &&& (ka.starred || !kb.starred)
        &&& (ka.starred == kb.starred ==> !spec_earlier(ka.updated, kb.updated))
    } by {
        lemma_ranking_sorted(keys, keep, r, a, b);
    }
    lemma_ranking_len(keys, keep, r);
}

/// Some entity carries tag `x`.
pub open spec fn has_tag(es: Seq<SEntry>, x: Seq<char>) -> bool {
    exists|j: int| 0 <= j < es.len() && #[trigger] es[j].tags.contains(x)
}

/// The tags of the entities, each once.
fn distinct_tags(entries: &Vec<Entry>) -> (r: Vec<String>)
    ensures
        unique(r@),
        forall|x: Seq<char>| #[trigger] views(r@).contains(x) <==> has_tag(entry_views(entries@), x),
{
    let ghost ev = entry_views(entries@);
    let mut tags: Vec<String> = Vec::new();
    let mut i: usize = 0;
    while i < entries.len()
        invariant
            i <= entries.len(),
            ev == entry_views(entries@),
            unique(tags@),
            forall|x: Seq<char>| #[trigger] views(tags@).contains(x) <==> has_tag(ev.take(i as int), x),
        decreases entries.len() - i,
    {
        let ghost tv = views(entries@[i as int].tags@);
        assert(ev[i as int].tags == tv);
        let mut k: usize = 0;
        while k < entries[i].tags.len()
            invariant
                i < entries.len(),
                k <= entries@[i as int].tags.len(),
                tv == views(entries@[i as int].tags@),
                unique(tags@),
                forall|x: Seq<char>| #[trigger] views(tags@).contains(x) <==> has_tag(ev.take(i as int), x) || tv.take(k as int).contains(x),
            decreases entries@[i as int].tags.len() - k,
        {
            assert(tv.take(k + 1) =~= tv.take(k as int).push(tv[k as int]));
            assert(tv[k as int] == entries@[i as int].tags@[k as int]@);
            push_unique(&mut tags, entries[i].tags[k].as_str());
            proof {
                assert forall|x: Seq<char>| #[trigger] views(tags@).contains(x) <==> has_tag(ev.take(i as int), x) || tv.take(k + 1).contains(x) by {
                    lemma_take_contains(tv, k as int, x);
                }
            }
            k = k + 1;
        }
        proof {
            assert(tv.take(tv.len() as int) =~= tv);
            assert forall|x: Seq<char>| #[trigger] views(tags@).contains(x) <==> has_tag(ev.take(i + 1), x) by {
                let e1 = ev.take(i + 1);
                if has_tag(e1, x) {
                    let j = choose|j: int| 0 <= j < e1.len() && #[trigger] e1[j].tags.contains(x);
                    if j < i {
                        assert(ev.take(i as int)[j] == e1[j]);
                    }
                }
                if has_tag(ev.take(i as int), x) {
                    let j = choose|j: int| 0 <= j < i && #[trigger] ev.take(i as int)[j].tags.contains(x);
                    assert(e1[j] == ev.take(i as int)[j]);
                }
                if tv.contains(x) {
                    assert(e1[i as int].tags.contains(x));
                }
            }
        }
        i = i + 1;
    }
    assert(ev.take(entries.len() as int) =~= ev);
    tags
}

/// Every tag of the entities, each once, ordered by its lower-case
/// spelling (`str::to_lowercase`, compared as `String`s are).
pub fn tag_list(entries: &Vec<Entry>) -> (r: Vec<String>)
    ensures
        unique(r@),
        forall|x: Seq<char>| #[trigger] views(r@).contains(x) <==> has_tag(entry_views(entries@), x),
        forall|a: int, b: int| 0 <= a < b < r.len() ==> !lex_lt(lowercase(#[trigger] r@[b]@), lowercase(#[trigger] r@[a]@)),
{
    let tags = distinct_tags(entries);
    let mut keys: Vec<String> = Vec::new();
    let mut j: usize = 0;
    while j < tags.len()
        invariant
            j <= tags.len(),
            keys.len() == j,
            forall|m: int| 0 <= m < j ==> #[trigger] keys@[m]@ == lowercase(tags@[m]@),
        decreases tags.len() - j,
    {
        keys.push(to_lowercase(tags[j].as_str()));
        j = j + 1;
    }
    let keep = keep_all(keys.len());
    let order = rank_order(&keys, &keep);
    let mut r: Vec<String> = Vec::new();
    let mut m: usize = 0;
    while m < order.len()
        invariant
            m <= order.len(),
            keys.len() == tags.len(),
            is_ranking(keys@, keep@, order@),
            r.len() == m,
            forall|a: int| 0 <= a < m ==> #[trigger] r@[a]@ == tags@[order@[a] as int]@,
        decreases order.len() - m,
    {
        r.push(copy(&tags[order[m]]));
        m = m + 1;
    }
    proof {
        let n = order.len() as int;
        assert forall|a: int, b: int| 0 <= a < b < r.len() implies !lex_lt(lowercase(#[trigger] r@[b]@), lowercase(#[trigger] r@[a]@)) by {
            lemma_ranking_sorted(keys@, keep@, order@, a, b);
            assert(keys@[order@[a] as int]@ == lowercase(tags@[order@[a] as int]@));
            assert(keys@[order@[b] as int]@ == lowercase(tags@[order@[b] as int]@));
        }
        assert forall|a: int, b: int| 0 <= a < views(r@).len() && 0 <= b < views(r@).len() && a != b implies views(r@)[a] != views(r@)[b] by {
            assert(views(r@)[a] == tags@[order@[a] as int]@);
            assert(views(r@)[b] == tags@[order@[b] as int]@);
            assert(views(tags@)[order@[a] as int] == tags@[order@[a] as int]@);
            assert(views(tags@)[order@[b] as int] == tags@[order@[b] as int]@);
        }
        assert forall|x: Seq<char>| #[trigger] views(r@).contains(x) <==> views(tags@).contains(x) by {
            if views(r@).contains(x) {
                let a = choose|a: int| 0 <= a < views(r@).len() && views(r@)[a] == x;
                assert(views(tags@)[order@[a] as int] == x);
            }
            if views(tags@).contains(x) {
                let k = choose|k: int| 0 <= k < views(tags@).len() && views(tags@)[k] == x;
                assert(keep@[k]);
                assert(order@.contains(k as usize));
                let a = choose|a: int| 0 <= a < order@.len() && order@[a] == k as usize;
                assert(views(r@)[a] == x);
            }
        }
    }
    r
}

/// A note matches a search when its title or its content contains the
/// searched text.
pub fn matches_search(title: &str, content: &str, q: &str) -> (r: bool)
    ensures
        r == (contains_sub(title@, q@) || contains_sub(content@, q@)),
{
    str_contains(title, q) || str_contains(content, q)
}

/// An entity found by a joined link query: its id and, when present, its
/// title.
pub struct JoinedEntity<'a> {
    pub id: Option<&'a str>,
    pub title: Option<&'a str>,
}

/// The text of an optional string slice, or `d` when absent.
pub open spec fn str_or(o: Option<&str>, d: Seq<char>) -> Seq<char> {
    match o {
        Some(s) => s@,
        None => d,
    }
}

/// The other end of a link as a joined query row reports it: the note
/// found, else the bookmark, else the task (its title defaulting to its
/// id); with none found, the link's own end `end` (empty when absent) as
/// a note. The relationship defaults to `rel`.
pub open spec fn spec_joined_item(
    rel: Option<&str>,
    end: Option<&str>,
    note: JoinedEntity,
    bookmark: JoinedEntity,
    task: JoinedEntity,
) -> SLinkItem {
    let r = str_or(rel, "rel"@);
    match note.id {
        Some(i) => SLinkItem { id: i@, title: str_or(note.title, i@), kind: EntityKind::Note, rel: r },
        None => match bookmark.id {
            Some(i) => SLinkItem { id: i@, title: str_or(bookmark.title, i@), kind: EntityKind::Bookmark, rel: r },
            None => match task.id {
                Some(i) => SLinkItem { id: i@, title: str_or(task.title, i@), kind: EntityKind::Task, rel: r },
                None => SLinkItem { id: str_or(end, Seq::empty()), title: str_or(end, Seq::empty()), kind: EntityKind::Note, rel: r },
            },
        },
    }
}

/// The text of an optional string slice, or `d` when absent.
fn str_or_exec(o: Option<&str>, d: &str) -> (r: String)
    ensures
        r@ == str_or(o, d@),
{
    match o {
        Some(s) => own(s),
        None => own(d),
    }
}

/// The other end of a link as a joined query row reports it (see
/// [`spec_joined_item`]).
pub fn joined_item(
    rel: Option<&str>,
    end: Option<&str>,
    note: JoinedEntity,
    bookmark: JoinedEntity,
    task: JoinedEntity,
) -> (r: LinkItem)
    ensures
        r@ == spec_joined_item(rel, end, note, bookmark, task),
{
    let r = str_or_exec(rel, "rel");
    match note.id {
        Some(i) => LinkItem { id: own(i), title: str_or_exec(note.title, i), entity_type: EntityKind::Note, rel: r },
        None => match bookmark.id {
            Some(i) => LinkItem { id: own(i), title: str_or_exec(bookmark.title, i), entity_type: EntityKind::Bookmark, rel: r },
            None => match task.id {
                Some(i) => LinkItem { id: own(i), title: str_or_exec(task.title, i), entity_type: EntityKind::Task, rel: r },
                None => {
                    proof {
                        reveal_strlit("");
                    }
                    LinkItem { id: str_or_exec(end, ""), title: str_or_exec(end, ""), entity_type: EntityKind::Note, rel: r }
                },
            },
        },
    }
}

/// The link `l` of entity `e` points at `id` and gives the item `x`: it
/// reads `rel:t`, one of `t` and `id` is a prefix of the other, and `x`
/// is `e`'s id, title and kind with relationship `rel`.
pub open spec fn link_points_at(e: SEntry, l: Seq<char>, id: Seq<char>, x: SLinkItem) -> bool {
    match split_once(l, ':') {
        Some((rel, t)) => (starts_with(id, t) || starts_with(t, id)) && x == SLinkItem {
            id: e.id,
            title: e.title,
            kind: e.kind,
            rel,
        },
        None => false,
    }
}

/// Lemma: the items of one entity's links that point at `id`.
proof fn lemma_links_to_exact(e: SEntry, links: Seq<Seq<char>>, id: Seq<char>, x: SLinkItem)
    ensures
        links_to(e, links, id).contains(x) <==> exists|k: int| 0 <= k < links.len() && #[trigger] link_points_at(e, links[k], id, x),
    decreases links.len(),
{
    if links.len() > 0 {
        let init = links.drop_last();
        lemma_links_to_exact(e, init, id, x);
        let a = links_to(e, init, id);
        let tail: Seq<SLinkItem> = match split_once(links.last(), ':') {
            Some((rel, t)) => if starts_with(id, t) || starts_with(t, id) {
                seq![item_of(e, rel)]
            } else {
                Seq::empty()
            },
            None => Seq::empty(),
        };
        let all = links_to(e, links, id);
        assert(all == a + tail);
        if all.contains(x) {
            let i = choose|i: int| 0 <= i < all.len() && all[i] == x;
            if i < a.len() {
                assert(a[i] == x);
                let k = choose|k: int| 0 <= k < init.len() && #[trigger] link_points_at(e, init[k], id, x);
                assert(links[k] == init[k]);
            } else {
                assert(tail[i - a.len()] == x);
                assert(link_points_at(e, links[links.len() - 1], id, x));
            }
        }
        if exists|k: int| 0 <= k < links.len() && #[trigger] link_points_at(e, links[k], id, x) {
            let k = choose|k: int| 0 <= k < links.len() && #[trigger] link_points_at(e, links[k], id, x);
            if k < init.len() {
                assert(init[k] == links[k]);
                let i = choose|i: int| 0 <= i < a.len() && a[i] == x;
                assert(all[i] == x);
            } else {
                assert(tail.len() == 1 && tail[0] == x);
                assert(all[a.len() as int] == x);
            }
        }
    }
}

/// Law: the incoming links of an entity, as a set. An item is among the
/// incoming links of `id` exactly when some link `rel:t` of some entity
/// points at `id`, that is one of `t` and `id` is a prefix of the other (a
/// link written with a short id counts), and the item is that entity's id,
/// title and kind with the relationship `rel`.
pub proof fn law_incoming_exact(es: Seq<SEntry>, id: Seq<char>, x: SLinkItem)
    ensures
        incoming_items(es, id).contains(x) <==> exists|i: int, k: int|
            0 <= i < es.len() && 0 <= k < es[i].links.len() && #[trigger] link_points_at(es[i], es[i].links[k], id, x),
    decreases es.len(),
{
    if es.len() > 0 {
        let init = es.drop_last();
        let last = es.last();
        law_incoming_exact(init, id, x);
        lemma_links_to_exact(last, last.links, id, x);
        let a = incoming_items(init, id);
        let b = links_to(last, last.links, id);
        let all = incoming_items(es, id);
        assert(all == a + b);
        if all.contains(x) {
            let i = choose|i: int| 0 <= i < all.len() && all[i] == x;
            if i < a.len() {
                assert(a[i] == x);
                let (p, k) = choose|p: int, k: int|
                    0 <= p < init.len() && 0 <= k < init[p].links.len() && #[trigger] link_points_at(init[p], init[p].links[k], id, x);
                assert(es[p] == init[p]);
                assert(link_points_at(es[p], es[p].links[k], id, x));
            } else {
                assert(b[i - a.len()] == x);
                let k = choose|k: int| 0 <= k < last.links.len() && #[trigger] link_points_at(last, last.links[k], id, x);
                assert(es[es.len() - 1] == last);
                assert(link_points_at(es[es.len() - 1], es[es.len() - 1].links[k], id, x));
            }
        }
        if exists|p: int, k: int|
            0 <= p < es.len() && 0 <= k < es[p].links.len() && #[trigger] link_points_at(es[p], es[p].links[k], id, x) {
            let (p, k) = choose|p: int, k: int|
                0 <= p < es.len() && 0 <= k < es[p].links.len() && #[trigger] link_points_at(es[p], es[p].links[k], id, x);
            if p < init.len() {
                assert(init[p] == es[p]);
                assert(link_points_at(init[p], init[p].links[k], id, x));
                let i = choose|i: int| 0 <= i < a.len() && a[i] == x;
                assert(all[i] == x);
            } else {
                assert(link_points_at(last, last.links[k], id, x));
                let i = choose|i: int| 0 <= i < b.len() && b[i] == x;
                assert(all[a.len() + i] == x);
            }
        }
    }
}

/// Law: a link written with a short id points at the entity: when some
/// entity `e` has a link `rel:t` and `t` is a prefix of `id`, the incoming
/// links of `id` hold `e`'s item with relationship `rel`.
pub proof fn law_short_link_counts(es: Seq<SEntry>, id: Seq<char>, i: int, k: int, rel: Seq<char>, t: Seq<char>)
    requires
        0 <= i < es.len(),
        0 <= k < es[i].links.len(),
        split_once(es[i].links[k], ':') == Some((rel, t)),
        starts_with(id, t),
    ensures
        incoming_items(es, id).contains(item_of(es[i], rel)),
{
    assert(link_points_at(es[i], es[i].links[k], id, item_of(es[i], rel)));
    law_incoming_exact(es, id, item_of(es[i], rel));
}

} // verus!
