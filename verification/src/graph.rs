//! The graph of entities and the links between them: building it from the
//! stored entities, resolving link targets given by id prefix, and
//! filtering it by type, tag and connectedness.

use vstd::prelude::*;

use crate::commands::{GraphArgs, GraphCommands};
use crate::lists::contains_str;
use crate::models::{EntityKind, Entry, SEntry, entry_views};
use crate::lists::{lemma_lex_irreflexive, lemma_lex_total, lemma_lex_transitive, lex_lt, lex_lt_exec};
use crate::order::{Ranked, is_ranking, rank_order};
use crate::text::{
    byte_prefix, byte_prefix_exec, chars_of, concat, copy, copy_all, fits_or_boundary, join,
    join_exec, lowercase, opt_view, own, push_char, split_once, starts_with, str_eq,
    str_split_once, str_starts_with, str_trim_end_char, to_lowercase, trim_end_char, views,
};

verus! {

/// A node of the graph: one entity.
#[derive(Debug)]
pub struct Node {
    pub id: String,
    pub title: String,
    pub entity_type: EntityKind,
    pub tags: Vec<String>,
}

/// Mathematical model of a node.
pub struct SNode {
    pub id: Seq<char>,
    pub title: Seq<char>,
    pub kind: EntityKind,
    pub tags: Seq<Seq<char>>,
}

impl View for Node {
    type V = SNode;

    open spec fn view(&self) -> SNode {
        SNode { id: self.id@, title: self.title@, kind: self.entity_type, tags: views(self.tags@) }
    }
}

/// An edge of the graph: a link from one entity to another.
#[derive(Debug)]
pub struct Edge {
    pub source: String,
    pub target: String,
    pub relationship: String,
}

/// Mathematical model of an edge.
pub struct SEdge {
    pub source: Seq<char>,
    pub target: Seq<char>,
    pub relationship: Seq<char>,
}

impl View for Edge {
    type V = SEdge;

    open spec fn view(&self) -> SEdge {
        SEdge { source: self.source@, target: self.target@, relationship: self.relationship@ }
    }
}

/// The models of a list of nodes.
pub open spec fn node_views(v: Seq<Node>) -> Seq<SNode> {
    v.map_values(|n: Node| n@)
}

/// The models of a list of edges.
pub open spec fn edge_views(v: Seq<Edge>) -> Seq<SEdge> {
    v.map_values(|e: Edge| e@)
}

// ---------------------------------------------------------------------------
// Building the graph
// ---------------------------------------------------------------------------

/// The node of an entity.
pub open spec fn node_of(e: SEntry) -> SNode {
    SNode { id: e.id, title: e.title, kind: e.kind, tags: e.tags }
}

/// The first node at or after `i` whose id is `id`.
pub open spec fn node_index(ns: Seq<SNode>, id: Seq<char>, i: int) -> Option<int>
    decreases ns.len() - i,
{
    if i < 0 || i >= ns.len() {
        None
    } else if ns[i].id == id {
        Some(i)
    } else {
        node_index(ns, id, i + 1)
    }
}

/// `ns` with `n` in place of the node of the same id, or added at the end.
pub open spec fn upsert(ns: Seq<SNode>, n: SNode) -> Seq<SNode> {
    match node_index(ns, n.id, 0) {
        Some(k) => ns.update(k, n),
        None => ns.push(n),
    }
}

/// The nodes of a list of entities: one per id, the last entity with an id
/// giving its node, in the order the ids first appear.
pub open spec fn graph_nodes(es: Seq<SEntry>) -> Seq<SNode>
    decreases es.len(),
{
    if es.len() == 0 {
        Seq::empty()
    } else {
        upsert(graph_nodes(es.drop_last()), node_of(es.last()))
    }
}

/// `es` with `e` added unless it is there already.
pub open spec fn add_edge(es: Seq<SEdge>, e: SEdge) -> Seq<SEdge> {
    if es.contains(e) {
        es
    } else {
        es.push(e)
    }
}

/// `acc` with the edges of the links `links` from `id`: a link
/// `relationship:target` gives an edge to the target prefix; a link without
/// `:` none.
pub open spec fn link_edges(acc: Seq<SEdge>, id: Seq<char>, links: Seq<Seq<char>>) -> Seq<SEdge>
    decreases links.len(),
{
    if links.len() == 0 {
        acc
    } else {
        let a = link_edges(acc, id, links.drop_last());
        match split_once(links.last(), ':') {
            Some((rel, t)) => add_edge(a, SEdge { source: id, target: t, relationship: rel }),
            None => a,
        }
    }
}

/// The edges of the links of a list of entities, each once, targets as
/// written.
pub open spec fn raw_edges(es: Seq<SEntry>) -> Seq<SEdge>
    decreases es.len(),
{
    if es.len() == 0 {
        Seq::empty()
    } else {
        link_edges(raw_edges(es.drop_last()), es.last().id, es.last().links)
    }
}

/// The first node at or after `i` whose id starts with `t`.
pub open spec fn prefix_index(ns: Seq<SNode>, t: Seq<char>, i: int) -> Option<int>
    decreases ns.len() - i,
{
    if i < 0 || i >= ns.len() {
        None
    } else if starts_with(ns[i].id, t) {
        Some(i)
    } else {
        prefix_index(ns, t, i + 1)
    }
}

/// A link target resolved to the id of the first node it is a prefix of,
/// or left as it is.
pub open spec fn resolve_target(ns: Seq<SNode>, t: Seq<char>) -> Seq<char> {
    match prefix_index(ns, t, 0) {
        Some(k) => ns[k].id,
        None => t,
    }
}

/// The edges with their targets resolved, each once.
pub open spec fn resolved_edges(ns: Seq<SNode>, raw: Seq<SEdge>) -> Seq<SEdge>
    decreases raw.len(),
{
    if raw.len() == 0 {
        Seq::empty()
    } else {
        add_edge(
            resolved_edges(ns, raw.drop_last()),
            SEdge { target: resolve_target(ns, raw.last().target), ..raw.last() },
        )
    }
}

/// The edges of the graph of a list of entities.
pub open spec fn graph_edges(es: Seq<SEntry>) -> Seq<SEdge> {
    resolved_edges(graph_nodes(es), raw_edges(es))
}

/// Copy of an edge.
fn copy_edge(e: &Edge) -> (r: Edge)
    ensures
        r@ == e@,
{
    Edge { source: copy(&e.source), target: copy(&e.target), relationship: copy(&e.relationship) }
}

/// Places `n` in `ns` (see [`upsert`]).
fn upsert_exec(ns: &mut Vec<Node>, n: Node)
    ensures
        node_views(final(ns)@) == upsert(node_views(old(ns)@), n@),
{
    let ghost nv = node_views(ns@);
    let mut i: usize = 0;
    while i < ns.len()
        invariant
            i <= ns.len(),
            nv == node_views(ns@),
            nv == node_views(old(ns)@),
            node_index(nv, n.id@, 0) == node_index(nv, n.id@, i as int),
        decreases ns.len() - i,
    {
        assert(nv[i as int] == ns@[i as int]@);
        if str_eq(ns[i].id.as_str(), n.id.as_str()) {
            assert(node_index(nv, n.id@, i as int) == Some(i as int));
            let ghost nn = n@;
            ns.set(i, n);
            assert(node_views(ns@) =~= nv.update(i as int, nn));
            return;
        }
        i = i + 1;
    }
    let ghost nn = n@;
    ns.push(n);
    assert(node_views(ns@) =~= nv.push(nn));
}

/// Adds `e` to `es` unless it is there (see [`add_edge`]).
fn add_edge_exec(es: &mut Vec<Edge>, e: Edge)
    ensures
        edge_views(final(es)@) == add_edge(edge_views(old(es)@), e@),
{
    let ghost ev = edge_views(es@);
    let mut i: usize = 0;
    while i < es.len()
        invariant
            i <= es.len(),
            ev == edge_views(es@),
            ev == edge_views(old(es)@),
            forall|j: int| 0 <= j < i ==> ev[j] != e@,
        decreases es.len() - i,
    {
        assert(ev[i as int] == es@[i as int]@);
        if str_eq(es[i].source.as_str(), e.source.as_str()) && str_eq(
            es[i].target.as_str(),
            e.target.as_str(),
        ) && str_eq(es[i].relationship.as_str(), e.relationship.as_str()) {
            assert(ev[i as int] == e@);
            assert(ev.contains(e@));
            return;
        }
        i = i + 1;
    }
    assert(!ev.contains(e@));
    let ghost ee = e@;
    es.push(e);
    assert(edge_views(es@) =~= ev.push(ee));
}

/// The node of an entity.
fn node_of_exec(e: &Entry) -> (n: Node)
    ensures
        n@ == node_of(e@),
{
    Node { id: copy(&e.id), title: copy(&e.title), entity_type: e.kind, tags: copy_all(&e.tags) }
}

/// Resolves a link target to the id of the first node it prefixes.
fn resolve_target_exec(ns: &Vec<Node>, t: &str) -> (r: String)
    ensures
        r@ == resolve_target(node_views(ns@), t@),
{
    let ghost nv = node_views(ns@);
    let mut i: usize = 0;
    while i < ns.len()
        invariant
            i <= ns.len(),
            nv == node_views(ns@),
            prefix_index(nv, t@, 0) == prefix_index(nv, t@, i as int),
        decreases ns.len() - i,
    {
        assert(nv[i as int] == ns@[i as int]@);
        if str_starts_with(ns[i].id.as_str(), t) {
            return copy(&ns[i].id);
        }
        i = i + 1;
    }
    own(t)
}

/// The nodes and edges of the graph of the entities `entries` (given in
/// the order notes, bookmarks, tasks): one node per id, one edge per
/// distinct link, each target given by prefix resolved to the first node
/// whose id it starts.
pub fn load_graph(entries: &Vec<Entry>) -> (r: (Vec<Node>, Vec<Edge>))
    ensures
        node_views(r.0@) == graph_nodes(entry_views(entries@)),
        edge_views(r.1@) == graph_edges(entry_views(entries@)),
{
    let ghost ev = entry_views(entries@);
    let mut nodes: Vec<Node> = Vec::new();
    let mut raw: Vec<Edge> = Vec::new();
    let mut i: usize = 0;
    while i < entries.len()
        invariant
            i <= entries.len(),
            ev == entry_views(entries@),
            node_views(nodes@) == graph_nodes(ev.take(i as int)),
            edge_views(raw@) == raw_edges(ev.take(i as int)),
        decreases entries.len() - i,
    {
        let ghost next = ev.take(i + 1);
        assert(next.drop_last() =~= ev.take(i as int));
        assert(next.last() == entries@[i as int]@);
        let e = &entries[i];
        upsert_exec(&mut nodes, node_of_exec(e));
        let ghost base = edge_views(raw@);
        let mut j: usize = 0;
        assert(e.links@.take(0) =~= Seq::<String>::empty());
        assert(views(e.links@).take(0) =~= Seq::<Seq<char>>::empty());
        while j < e.links.len()
            invariant
                j <= e.links.len(),
                edge_views(raw@) == link_edges(base, e.id@, views(e.links@).take(j as int)),
            decreases e.links.len() - j,
        {
            let ghost lt = views(e.links@).take(j + 1);
            assert(lt.drop_last() =~= views(e.links@).take(j as int));
            assert(lt.last() == e.links@[j as int]@);
            match str_split_once(e.links[j].as_str(), ':') {
                Some((rel, t)) => {
                    add_edge_exec(&mut raw, Edge { source: copy(&e.id), target: t, relationship: rel });
                },
                None => {},
            }
            j = j + 1;
        }
        assert(views(e.links@).take(e.links.len() as int) =~= views(e.links@));
        i = i + 1;
    }
    assert(ev.take(entries.len() as int) =~= ev);
    let ghost rv = edge_views(raw@);
    let mut edges: Vec<Edge> = Vec::new();
    let mut k: usize = 0;
    while k < raw.len()
        invariant
            k <= raw.len(),
            rv == edge_views(raw@),
            edge_views(edges@) == resolved_edges(node_views(nodes@), rv.take(k as int)),
        decreases raw.len() - k,
    {
        let ghost rt = rv.take(k + 1);
        assert(rt.drop_last() =~= rv.take(k as int));
        assert(rt.last() == raw@[k as int]@);
        let target = resolve_target_exec(&nodes, raw[k].target.as_str());
        add_edge_exec(
            &mut edges,
            Edge { source: copy(&raw[k].source), target, relationship: copy(&raw[k].relationship) },
        );
        k = k + 1;
    }
    assert(rv.take(raw.len() as int) =~= rv);
    (nodes, edges)
}

// ---------------------------------------------------------------------------
// Filtering
// ---------------------------------------------------------------------------

/// A node of `kind` passes the type filter `et`: its type is the filter,
/// lower-cased, or that without trailing `s` characters.
pub open spec fn type_ok(et: Option<Seq<char>>, kind: EntityKind) -> bool {
    match et {
        None => true,
        Some(t) => kind.name() == lowercase(t) || kind.name() == trim_end_char(lowercase(t), 's'),
    }
}

/// The tag a tag filter looks for: the filter, with a leading `#`.
pub open spec fn tag_key(tag: Seq<char>) -> Seq<char> {
    if starts_with(tag, "#"@) {
        tag
    } else {
        "#"@ + tag
    }
}

/// A node with `tags` passes the tag filter.
pub open spec fn tag_ok(tag: Option<Seq<char>>, tags: Seq<Seq<char>>) -> bool {
    match tag {
        None => true,
        Some(t) => tags.contains(tag_key(t)),
    }
}

/// The ids of the nodes that pass both filters, in order.
pub open spec fn kept_ids(ns: Seq<SNode>, et: Option<Seq<char>>, tag: Option<Seq<char>>) -> Seq<Seq<char>>
    decreases ns.len(),
{
    if ns.len() == 0 {
        Seq::empty()
    } else {
        kept_ids(ns.drop_last(), et, tag) + if type_ok(et, ns.last().kind) && tag_ok(tag, ns.last().tags) {
            seq![ns.last().id]
        } else {
            Seq::empty()
        }
    }
}

/// The edges whose both ends are among `ids`, in order.
pub open spec fn kept_edges(es: Seq<SEdge>, ids: Seq<Seq<char>>) -> Seq<SEdge>
    decreases es.len(),
{
    if es.len() == 0 {
        Seq::empty()
    } else {
        kept_edges(es.drop_last(), ids) + if ids.contains(es.last().source) && ids.contains(es.last().target) {
            seq![es.last()]
        } else {
            Seq::empty()
        }
    }
}

/// Some edge of `es` starts or ends at `id`.
pub open spec fn touches(es: Seq<SEdge>, id: Seq<char>) -> bool {
    exists|i: int| 0 <= i < es.len() && (es[i].source == id || es[i].target == id)
}

/// The ids among `ids` that some edge of `es` touches, in order.
pub open spec fn connected_ids(ids: Seq<Seq<char>>, es: Seq<SEdge>) -> Seq<Seq<char>>
    decreases ids.len(),
{
    if ids.len() == 0 {
        Seq::empty()
    } else {
        connected_ids(ids.drop_last(), es) + if touches(es, ids.last()) {
            seq![ids.last()]
        } else {
            Seq::empty()
        }
    }
}

/// The node ids and the edges a filter keeps: the nodes of the type and
/// with the tag asked for, the edges between them, and, without isolated
/// nodes, only the nodes those edges touch.
pub open spec fn spec_filter(
    ns: Seq<SNode>,
    es: Seq<SEdge>,
    et: Option<Seq<char>>,
    tag: Option<Seq<char>>,
    without_isolated: bool,
) -> (Seq<Seq<char>>, Seq<SEdge>) {
    let ids = kept_ids(ns, et, tag);
    let fe = kept_edges(es, ids);
    (if without_isolated {
        connected_ids(ids, fe)
    } else {
        ids
    }, fe)
}

/// The model of what `filter_graph` returns.
pub open spec fn filter_views(r: (Vec<String>, Vec<Edge>)) -> (Seq<Seq<char>>, Seq<SEdge>) {
    (views(r.0@), edge_views(r.1@))
}

/// Some edge of `es` starts or ends at `id`.
fn touches_exec(es: &Vec<Edge>, id: &str) -> (r: bool)
    ensures
        r == touches(edge_views(es@), id@),
{
    let ghost ev = edge_views(es@);
    let mut i: usize = 0;
    while i < es.len()
        invariant
            i <= es.len(),
            ev == edge_views(es@),
            forall|j: int| 0 <= j < i ==> !(ev[j].source == id@ || ev[j].target == id@),
        decreases es.len() - i,
    {
        assert(ev[i as int] == es@[i as int]@);
        if str_eq(es[i].source.as_str(), id) || str_eq(es[i].target.as_str(), id) {
            return true;
        }
        i = i + 1;
    }
    false
}

/// Filters the graph as the graph options ask (see [`spec_filter`]).
pub fn filter_graph(nodes: &Vec<Node>, edges: &Vec<Edge>, args: &GraphArgs) -> (r: (Vec<String>, Vec<Edge>))
    ensures
        filter_views(r) == spec_filter(
            node_views(nodes@),
            edge_views(edges@),
            opt_view(args.entity_type),
            opt_view(args.tag),
            args.without_isolated,
        ),
{
    let ghost nv = node_views(nodes@);
    let ghost et = opt_view(args.entity_type);
    let ghost tg = opt_view(args.tag);
    let (et_low, et_short) = match &args.entity_type {
        Some(t) => {
            let low = to_lowercase(t.as_str());
            let short = str_trim_end_char(low.as_str(), 's');
            (low, short)
        },
        None => (String::new(), String::new()),
    };
    let key = match &args.tag {
        Some(t) => if str_starts_with(t.as_str(), "#") {
            copy(t)
        } else {
            concat("#", t.as_str())
        },
        None => String::new(),
    };
    let mut ids: Vec<String> = Vec::new();
    let mut i: usize = 0;
    while i < nodes.len()
        invariant
            i <= nodes.len(),
            nv == node_views(nodes@),
            et == opt_view(args.entity_type),
            tg == opt_view(args.tag),
            et matches Some(t) ==> et_low@ == lowercase(t) && et_short@ == trim_end_char(lowercase(t), 's'),
            tg matches Some(t) ==> key@ == tag_key(t),
            views(ids@) == kept_ids(nv.take(i as int), et, tg),
        decreases nodes.len() - i,
    {
        let ghost nt = nv.take(i + 1);
        assert(nt.drop_last() =~= nv.take(i as int));
        assert(nt.last() == nodes@[i as int]@);
        let n = &nodes[i];
        let type_pass = match &args.entity_type {
            Some(_) => {
                let name = n.entity_type.as_str();
                str_eq(name, et_low.as_str()) || str_eq(name, et_short.as_str())
            },
            None => true,
        };
        let tag_pass = match &args.tag {
            Some(_) => contains_str(&n.tags, key.as_str()),
            None => true,
        };
        let ghost before = views(ids@);
        if type_pass && tag_pass {
            ids.push(copy(&n.id));
            assert(views(ids@) =~= before.push(n.id@));
        }
        assert(views(ids@) =~= kept_ids(nt, et, tg));
        i = i + 1;
    }
    assert(nv.take(nodes.len() as int) =~= nv);
    let ghost idv = views(ids@);
    let ghost egv = edge_views(edges@);
    let mut kept: Vec<Edge> = Vec::new();
    let mut k: usize = 0;
    while k < edges.len()
        invariant
            k <= edges.len(),
            egv == edge_views(edges@),
            idv == views(ids@),
            edge_views(kept@) == kept_edges(egv.take(k as int), idv),
        decreases edges.len() - k,
    {
        let ghost et2 = egv.take(k + 1);
        assert(et2.drop_last() =~= egv.take(k as int));
        assert(et2.last() == edges@[k as int]@);
        let ghost before = edge_views(kept@);
        if contains_str(&ids, edges[k].source.as_str()) && contains_str(&ids, edges[k].target.as_str()) {
            let e = copy_edge(&edges[k]);
            kept.push(e);
            assert(edge_views(kept@) =~= before.push(edges@[k as int]@));
        }
        assert(edge_views(kept@) =~= kept_edges(et2, idv));
        k = k + 1;
    }
    assert(egv.take(edges.len() as int) =~= egv);
    if !args.without_isolated {
        return (ids, kept);
    }
    let ghost fe = edge_views(kept@);
    let mut conn: Vec<String> = Vec::new();
    let mut m: usize = 0;
    while m < ids.len()
        invariant
            m <= ids.len(),
            idv == views(ids@),
            fe == edge_views(kept@),
            views(conn@) == connected_ids(idv.take(m as int), fe),
        decreases ids.len() - m,
    {
        let ghost it = idv.take(m + 1);
        assert(it.drop_last() =~= idv.take(m as int));
        assert(it.last() == ids@[m as int]@);
        let ghost before = views(conn@);
        if touches_exec(&kept, ids[m].as_str()) {
            conn.push(copy(&ids[m]));
            assert(views(conn@) =~= before.push(ids@[m as int]@));
        }
        assert(views(conn@) =~= connected_ids(it, fe));
        m = m + 1;
    }
    assert(idv.take(ids.len() as int) =~= idv);
    (conn, kept)
}

/// The first 8 bytes of an id, or the whole id when it is no longer.
pub fn truncate_id(id: &str) -> (r: String)
    requires
        fits_or_boundary(id@, 8),
    ensures
        r@ == byte_prefix(id@, 8),
{
    byte_prefix_exec(id, 8)
}

// ---------------------------------------------------------------------------
// The graph command
// ---------------------------------------------------------------------------

/// A graph ready to be shown: all its nodes and edges, what the filters
/// keep of them, and the output format.
#[derive(Debug)]
pub struct GraphView {
    pub nodes: Vec<Node>,
    pub edges: Vec<Edge>,
    pub shown_nodes: Vec<String>,
    pub shown_edges: Vec<Edge>,
    pub format: GraphCommands,
}

/// Builds the graph of `entries` and filters it as `args` ask; the format
/// is the one asked for, `Show` by default.
pub fn run(entries: &Vec<Entry>, args: &GraphArgs) -> (g: GraphView)
    ensures
        node_views(g.nodes@) == graph_nodes(entry_views(entries@)),
        edge_views(g.edges@) == graph_edges(entry_views(entries@)),
        (views(g.shown_nodes@), edge_views(g.shown_edges@)) == spec_filter(
            graph_nodes(entry_views(entries@)),
            graph_edges(entry_views(entries@)),
            opt_view(args.entity_type),
            opt_view(args.tag),
            args.without_isolated,
        ),
        g.format == match args.command {
            Some(c) => c,
            None => GraphCommands::Show,
        },
{
    let (nodes, edges) = load_graph(entries);
    let (shown_nodes, shown_edges) = filter_graph(&nodes, &edges, args);
    let format = match args.command {
        Some(c) => c,
        None => GraphCommands::Show,
    };
    GraphView { nodes, edges, shown_nodes, shown_edges, format }
}


// ---------------------------------------------------------------------------
// Showing the graph
// ---------------------------------------------------------------------------

/// Lemma: the kinds' names come in the order bookmark, note, task.
proof fn lemma_kind_names()
    ensures
        lex_lt(EntityKind::Bookmark.name(), EntityKind::Note.name()),
        lex_lt(EntityKind::Note.name(), EntityKind::Task.name()),
        lex_lt(EntityKind::Bookmark.name(), EntityKind::Task.name()),
{
    reveal_strlit("bookmark");
    reveal_strlit("note");
    reveal_strlit("task");
}

/// The place of a kind's name in the order of names.
pub open spec fn kind_rank(k: EntityKind) -> int {
    match k {
        EntityKind::Bookmark => 0,
        EntityKind::Note => 1,
        EntityKind::Task => 2,
    }
}

/// Lemma: one kind's name comes before another's exactly when its place
/// is lower.
proof fn lemma_name_order(a: EntityKind, b: EntityKind)
    ensures
        lex_lt(a.name(), b.name()) <==> kind_rank(a) < kind_rank(b),
{
    lemma_kind_names();
    lemma_lex_irreflexive(a.name());
    if lex_lt(a.name(), b.name()) && lex_lt(b.name(), a.name()) {
        lemma_lex_transitive(a.name(), b.name(), a.name());
    }
}

/// The place of a kind's name.
fn kind_rank_exec(k: EntityKind) -> (r: u8)
    ensures
        r == kind_rank(k),
{
    match k {
        EntityKind::Bookmark => 0,
        EntityKind::Note => 1,
        EntityKind::Task => 2,
    }
}

impl Ranked for Node {
    /// The overview's order: by kind name, then by title.
    open spec fn ranks_before(self, other: Node) -> bool {
        lex_lt(self.entity_type.name(), other.entity_type.name()) || (self.entity_type == other.entity_type
            && lex_lt(self.title@, other.title@))
    }

    fn before(&self, other: &Node) -> (r: bool) {
        proof {
            lemma_name_order(self.entity_type, other.entity_type);
        }
        let a = kind_rank_exec(self.entity_type);
        let b = kind_rank_exec(other.entity_type);
        a < b || (a == b && lex_lt_exec(self.title.as_str(), other.title.as_str()))
    }

    proof fn lemma_irreflexive(a: Node) {
        lemma_lex_irreflexive(a.entity_type.name());
        lemma_lex_irreflexive(a.title@);
    }

    proof fn lemma_transitive(a: Node, b: Node, c: Node) {
        lemma_name_order(a.entity_type, b.entity_type);
        lemma_name_order(b.entity_type, c.entity_type);
        lemma_name_order(a.entity_type, c.entity_type);
        if a.entity_type == b.entity_type && b.entity_type == c.entity_type {
            lemma_lex_transitive(a.title@, b.title@, c.title@);
        }
    }

    proof fn lemma_negative_transitive(a: Node, b: Node, c: Node) {
        lemma_name_order(a.entity_type, b.entity_type);
        lemma_name_order(b.entity_type, c.entity_type);
        lemma_name_order(a.entity_type, c.entity_type);
        if a.entity_type == c.entity_type && b.entity_type == a.entity_type {
            if !lex_lt(a.title@, b.title@) && a.title@ != b.title@ {
                lemma_lex_total(a.title@, b.title@);
                lemma_lex_transitive(b.title@, a.title@, c.title@);
            }
        }
    }
}

/// Which nodes the filters keep.
pub open spec fn shown_mask(g: GraphView) -> Seq<bool> {
    Seq::new(g.nodes@.len(), |i: int| views(g.shown_nodes@).contains(g.nodes@[i].id@))
}

/// The nodes the filters keep, as indices into `g.nodes`, ordered by kind
/// name and then title (the overview's order).
pub fn show_order(g: &GraphView) -> (r: Vec<usize>)
    ensures
        is_ranking(g.nodes@, shown_mask(*g), r@),
{
    let mut keep: Vec<bool> = Vec::new();
    let mut i: usize = 0;
    while i < g.nodes.len()
        invariant
            i <= g.nodes.len(),
            keep@ == shown_mask(*g).take(i as int),
        decreases g.nodes.len() - i,
    {
        let k = contains_str(&g.shown_nodes, g.nodes[i].id.as_str());
        keep.push(k);
        assert(keep@ =~= shown_mask(*g).take(i + 1));
        i = i + 1;
    }
    assert(keep@ =~= shown_mask(*g));
    rank_order(&g.nodes, &keep)
}

/// Some node has id `t`.
pub open spec fn has_node(ns: Seq<SNode>, t: Seq<char>) -> bool {
    exists|j: int| 0 <= j < ns.len() && #[trigger] ns[j].id == t
}

/// The position of the node with id `id`, if there is one.
pub fn node_pos(ns: &Vec<Node>, id: &str) -> (r: Option<usize>)
    ensures
        match r {
            Some(k) => k < ns.len() && ns@[k as int].id@ == id@,
            None => !has_node(node_views(ns@), id@),
        },
{
    let mut k: usize = 0;
    while k < ns.len()
        invariant
            k <= ns.len(),
            forall|j: int| 0 <= j < k ==> ns@[j].id@ != id@,
        decreases ns.len() - k,
    {
        if str_eq(ns[k].id.as_str(), id) {
            return Some(k);
        }
        k = k + 1;
    }
    assert(!has_node(node_views(ns@), id@)) by {
        if has_node(node_views(ns@), id@) {
            let j = choose|j: int| 0 <= j < ns.len() && #[trigger] node_views(ns@)[j].id == id@;
            assert(node_views(ns@)[j].id == ns@[j].id@);
        }
    }
    None
}

/// The positions, among the first `n` edges, of those that leave `id` for
/// a known node, in order.
pub open spec fn out_edges(es: Seq<SEdge>, ns: Seq<SNode>, id: Seq<char>, n: int) -> Seq<usize>
    decreases n,
{
    if n <= 0 {
        Seq::empty()
    } else if es[n - 1].source == id && has_node(ns, es[n - 1].target) {
        out_edges(es, ns, id, n - 1).push((n - 1) as usize)
    } else {
        out_edges(es, ns, id, n - 1)
    }
}

/// The shown edges that leave `id` for a known node, as positions in
/// `g.shown_edges`.
pub fn outgoing(g: &GraphView, id: &str) -> (r: Vec<usize>)
    ensures
        r@ == out_edges(edge_views(g.shown_edges@), node_views(g.nodes@), id@, g.shown_edges@.len() as int),
{
    let ghost es = edge_views(g.shown_edges@);
    let mut r: Vec<usize> = Vec::new();
    let mut k: usize = 0;
    while k < g.shown_edges.len()
        invariant
            k <= g.shown_edges.len(),
            es == edge_views(g.shown_edges@),
            r@ == out_edges(es, node_views(g.nodes@), id@, k as int),
        decreases g.shown_edges.len() - k,
    {
        let e = &g.shown_edges[k];
        assert(es[k as int] == e@);
        if str_eq(e.source.as_str(), id) {
            match node_pos(&g.nodes, e.target.as_str()) {
                Some(j) => {
                    assert(node_views(g.nodes@)[j as int].id == e.target@);
                    r.push(k);
                },
                None => {},
            }
        }
        k = k + 1;
    }
    r
}

/// `s` with each `"` written `\"`, as a DOT string holds it.
pub open spec fn dot_escape(s: Seq<char>) -> Seq<char>
    decreases s.len(),
{
    if s.len() == 0 {
        Seq::empty()
    } else {
        (if s[0] == '"' {
            seq!['\\', '"']
        } else {
            seq![s[0]]
        }) + dot_escape(s.drop_first())
    }
}

/// The tags after a title: nothing when there are none or they are hidden,
/// else `lead` and the tags separated by spaces.
pub open spec fn tag_suffix(tags: Seq<Seq<char>>, hide: bool, lead: Seq<char>) -> Seq<char> {
    if tags.len() == 0 || hide {
        Seq::empty()
    } else {
        lead + join(tags, " "@)
    }
}

/// The DOT fill colour of a kind.
pub open spec fn fill_color(k: EntityKind) -> Seq<char> {
    match k {
        EntityKind::Note => "palegreen"@,
        EntityKind::Bookmark => "lightblue"@,
        EntityKind::Task => "lightyellow"@,
    }
}

/// `s` with its `"` escaped for DOT.
fn dot_escape_exec(s: &str) -> (r: String)
    ensures
        r@ == dot_escape(s@),
{
    let cs = chars_of(s);
    let mut r = String::new();
    let mut i: usize = 0;
    assert(cs@.skip(0) =~= cs@);
    while i < cs.len()
        invariant
            i <= cs.len(),
            r@ + dot_escape(cs@.skip(i as int)) == dot_escape(cs@),
        decreases cs.len() - i,
    {
        assert(cs@.skip(i as int).drop_first() =~= cs@.skip(i + 1));
        assert(cs@.skip(i as int)[0] == cs@[i as int]);
        let ghost before = r@;
        if cs[i] == '"' {
            push_char(&mut r, '\\');
            push_char(&mut r, '"');
            assert(before + (seq!['\\', '"'] + dot_escape(cs@.skip(i + 1))) =~= r@ + dot_escape(cs@.skip(i + 1)));
        } else {
            push_char(&mut r, cs[i]);
            assert(before + (seq![cs@[i as int]] + dot_escape(cs@.skip(i + 1))) =~= r@ + dot_escape(cs@.skip(i + 1)));
        }
        i = i + 1;
    }
    assert(cs@.skip(cs.len() as int) =~= Seq::<char>::empty());
    assert(r@ =~= dot_escape(cs@));
    r
}

/// The tags after a title.
fn tag_suffix_exec(tags: &Vec<String>, hide: bool, lead: &str) -> (r: String)
    ensures
        r@ == tag_suffix(views(tags@), hide, lead@),
{
    if tags.len() == 0 || hide {
        String::new()
    } else {
        let j = join_exec(tags, " ");
        concat(lead, j.as_str())
    }
}

/// The DOT statement of a node: its id, its title (with `"` escaped) and
/// tags as label, filled with the colour of its kind.
pub fn dot_node_line(n: &Node, hide_tags: bool) -> (r: String)
    ensures
        r@ == "  \""@ + n.id@ + "\" [label=\""@ + dot_escape(n.title@) + tag_suffix(views(n.tags@), hide_tags, "\\n"@)
            + "\" style=\"rounded,filled\" fillcolor=\""@ + fill_color(n.entity_type) + "\"];"@,
{
    let color = match n.entity_type {
        EntityKind::Note => "palegreen",
        EntityKind::Bookmark => "lightblue",
        EntityKind::Task => "lightyellow",
    };
    let mut r = own("  \"");
    r.append(n.id.as_str());
    r.append("\" [label=\"");
    r.append(dot_escape_exec(n.title.as_str()).as_str());
    r.append(tag_suffix_exec(&n.tags, hide_tags, "\\n").as_str());
    r.append("\" style=\"rounded,filled\" fillcolor=\"");
    r.append(color);
    r.append("\"];");
    r
}

/// The DOT statement of an edge, labelled with its relationship.
pub fn dot_edge_line(e: &Edge) -> (r: String)
    ensures
        r@ == "  \""@ + e.source@ + "\" -> \""@ + e.target@ + "\" [label=\""@ + e.relationship@ + "\"];"@,
{
    let mut r = own("  \"");
    r.append(e.source.as_str());
    r.append("\" -> \"");
    r.append(e.target.as_str());
    r.append("\" [label=\"");
    r.append(e.relationship.as_str());
    r.append("\"];");
    r
}

/// A title character as Mermaid shows it: brackets and parentheses become
/// spaces, `"` becomes `'`.
pub open spec fn mermaid_char(c: char) -> char {
    if c == '(' || c == ')' || c == '[' || c == ']' {
        ' '
    } else if c == '"' {
        '\''
    } else {
        c
    }
}

/// A title as Mermaid shows it.
pub open spec fn mermaid_title(s: Seq<char>) -> Seq<char> {
    s.map_values(|c: char| mermaid_char(c))
}

/// A title as Mermaid shows it.
fn mermaid_title_exec(s: &str) -> (r: String)
    ensures
        r@ == mermaid_title(s@),
{
    let cs = chars_of(s);
    let mut r = String::new();
    let mut i: usize = 0;
    while i < cs.len()
        invariant
            i <= cs.len(),
            cs@ == s@,
            r@ == mermaid_title(cs@.take(i as int)),
        decreases cs.len() - i,
    {
        let c = cs[i];
        let m = if c == '(' || c == ')' || c == '[' || c == ']' {
            ' '
        } else if c == '"' {
            '\''
        } else {
            c
        };
        push_char(&mut r, m);
        assert(cs@.take(i + 1) =~= cs@.take(i as int).push(c));
        assert(r@ =~= mermaid_title(cs@.take(i + 1)));
        i = i + 1;
    }
    assert(cs@.take(cs.len() as int) =~= cs@);
    r
}

/// The Mermaid statement of a node, with its kind as class.
pub fn mermaid_node_line(n: &Node, hide_tags: bool) -> (r: String)
    ensures
        r@ == "    "@ + n.id@ + "["@ + mermaid_title(n.title@) + tag_suffix(views(n.tags@), hide_tags, "<br/>"@) + "]:::"@
            + n.entity_type.name(),
{
    let mut r = own("    ");
    r.append(n.id.as_str());
    r.append("[");
    r.append(mermaid_title_exec(n.title.as_str()).as_str());
    r.append(tag_suffix_exec(&n.tags, hide_tags, "<br/>").as_str());
    r.append("]:::");
    r.append(n.entity_type.as_str());
    r
}

/// The Mermaid statement of an edge, labelled with its relationship.
pub fn mermaid_edge_line(e: &Edge) -> (r: String)
    ensures
        r@ == "    "@ + e.source@ + " -- "@ + e.relationship@ + " --> "@ + e.target@,
{
    let mut r = own("    ");
    r.append(e.source.as_str());
    r.append(" -- ");
    r.append(e.relationship.as_str());
    r.append(" --> ");
    r.append(e.target.as_str());
    r
}


// ---------------------------------------------------------------------------
// Laws
// ---------------------------------------------------------------------------

/// Lemma: every kept edge has both ends among the ids.
proof fn lemma_kept_edges_ends(es: Seq<SEdge>, ids: Seq<Seq<char>>)
    ensures
        forall|i: int| 0 <= i < kept_edges(es, ids).len() ==> ids.contains(#[trigger] kept_edges(es, ids)[i].source)
            && ids.contains(kept_edges(es, ids)[i].target),
    decreases es.len(),
{
    if es.len() > 0 {
        lemma_kept_edges_ends(es.drop_last(), ids);
        let k0 = kept_edges(es.drop_last(), ids);
        let k = kept_edges(es, ids);
        assert forall|i: int| 0 <= i < k.len() implies ids.contains(#[trigger] k[i].source) && ids.contains(k[i].target) by {
            if i < k0.len() {
                assert(k[i] == k0[i]);
            } else {
                assert(k[i] == es.last());
            }
        }
    }
}

/// Lemma: an id that some edge touches stays among the connected ids.
proof fn lemma_connected_keeps(ids: Seq<Seq<char>>, es: Seq<SEdge>, x: Seq<char>)
    requires
        ids.contains(x),
        touches(es, x),
    ensures
        connected_ids(ids, es).contains(x),
    decreases ids.len(),
{
    if ids.last() == x {
        let c = connected_ids(ids, es);
        assert(c[c.len() - 1] == x);
    } else {
        let k = choose|k: int| 0 <= k < ids.len() && ids[k] == x;
        assert(k < ids.len() - 1);
        assert(ids.drop_last()[k] == x);
        lemma_connected_keeps(ids.drop_last(), es, x);
        let c0 = connected_ids(ids.drop_last(), es);
        let j = choose|j: int| 0 <= j < c0.len() && c0[j] == x;
        assert(connected_ids(ids, es)[j] == x);
    }
}

/// Law: every edge the filter keeps joins two nodes the filter keeps,
/// with or without isolated nodes.
pub proof fn law_filtered_edges_join_shown_nodes(
    ns: Seq<SNode>,
    es: Seq<SEdge>,
    et: Option<Seq<char>>,
    tag: Option<Seq<char>>,
    without_isolated: bool,
)
    ensures
        ({
            let (ids, fe) = spec_filter(ns, es, et, tag, without_isolated);
            forall|i: int| 0 <= i < fe.len() ==> ids.contains(#[trigger] fe[i].source) && ids.contains(fe[i].target)
        }),
{
    let ids0 = kept_ids(ns, et, tag);
    let fe = kept_edges(es, ids0);
    lemma_kept_edges_ends(es, ids0);
    if without_isolated {
        assert forall|i: int| 0 <= i < fe.len() implies connected_ids(ids0, fe).contains(#[trigger] fe[i].source)
            && connected_ids(ids0, fe).contains(fe[i].target) by {
            assert(touches(fe, fe[i].source));
            assert(touches(fe, fe[i].target));
            lemma_connected_keeps(ids0, fe, fe[i].source);
            lemma_connected_keeps(ids0, fe, fe[i].target);
        }
    }
}

/// A node of `ns` has id `id` and passes the type and tag filters.
pub open spec fn passing_node(ns: Seq<SNode>, id: Seq<char>, et: Option<Seq<char>>, tag: Option<Seq<char>>) -> bool {
    exists|j: int| 0 <= j < ns.len() && #[trigger] ns[j].id == id && type_ok(et, ns[j].kind) && tag_ok(tag, ns[j].tags)
}

/// Lemma: every kept id is that of a node passing the filters.
proof fn lemma_kept_ids_pass(ns: Seq<SNode>, et: Option<Seq<char>>, tag: Option<Seq<char>>)
    ensures
        forall|i: int| 0 <= i < kept_ids(ns, et, tag).len() ==> passing_node(ns, #[trigger] kept_ids(ns, et, tag)[i], et, tag),
    decreases ns.len(),
{
    if ns.len() > 0 {
        let init = ns.drop_last();
        lemma_kept_ids_pass(init, et, tag);
        let k0 = kept_ids(init, et, tag);
        let k = kept_ids(ns, et, tag);
        assert forall|i: int| 0 <= i < k.len() implies passing_node(ns, #[trigger] k[i], et, tag) by {
            if i < k0.len() {
                assert(k[i] == k0[i]);
                assert(passing_node(init, k0[i], et, tag));
                let j = choose|j: int| 0 <= j < init.len() && #[trigger] init[j].id == k0[i] && type_ok(et, init[j].kind) && tag_ok(tag, init[j].tags);
                assert(ns[j] == init[j]);
            } else {
                assert(k[i] == ns.last().id);
                assert(ns[ns.len() - 1].id == k[i]);
            }
        }
    }
}

/// Lemma: the connected ids are among the ids.
proof fn lemma_connected_subset(ids: Seq<Seq<char>>, es: Seq<SEdge>)
    ensures
        forall|i: int| 0 <= i < connected_ids(ids, es).len() ==> ids.contains(#[trigger] connected_ids(ids, es)[i]),
    decreases ids.len(),
{
    if ids.len() > 0 {
        let init = ids.drop_last();
        lemma_connected_subset(init, es);
        let c0 = connected_ids(init, es);
        let c = connected_ids(ids, es);
        assert forall|i: int| 0 <= i < c.len() implies ids.contains(#[trigger] c[i]) by {
            if i < c0.len() {
                assert(c[i] == c0[i]);
                let j = choose|j: int| 0 <= j < init.len() && init[j] == c0[i];
                assert(ids[j] == init[j]);
            } else {
                assert(c[i] == ids.last());
                assert(ids[ids.len() - 1] == c[i]);
            }
        }
    }
}

/// Law: every node the graph shows is of the type and has the tag asked
/// for (with or without isolated nodes).
pub proof fn law_shown_nodes_pass_filters(
    ns: Seq<SNode>,
    es: Seq<SEdge>,
    et: Option<Seq<char>>,
    tag: Option<Seq<char>>,
    without_isolated: bool,
)
    ensures
        ({
            let (ids, fe) = spec_filter(ns, es, et, tag, without_isolated);
            forall|i: int| 0 <= i < ids.len() ==> passing_node(ns, #[trigger] ids[i], et, tag)
        }),
{
    let ids0 = kept_ids(ns, et, tag);
    lemma_kept_ids_pass(ns, et, tag);
    if without_isolated {
        let fe = kept_edges(es, ids0);
        let c = connected_ids(ids0, fe);
        lemma_connected_subset(ids0, fe);
        assert forall|i: int| 0 <= i < c.len() implies passing_node(ns, #[trigger] c[i], et, tag) by {
            let j = choose|j: int| 0 <= j < ids0.len() && ids0[j] == c[i];
            assert(passing_node(ns, ids0[j], et, tag));
        }
    }
}

/// Lemma: the kept ids are exactly the ids of nodes passing the filters.
proof fn lemma_kept_ids_exact(ns: Seq<SNode>, et: Option<Seq<char>>, tag: Option<Seq<char>>, id: Seq<char>)
    ensures
        kept_ids(ns, et, tag).contains(id) <==> passing_node(ns, id, et, tag),
    decreases ns.len(),
{
    lemma_kept_ids_pass(ns, et, tag);
    let k = kept_ids(ns, et, tag);
    if k.contains(id) {
        let i = choose|i: int| 0 <= i < k.len() && k[i] == id;
        assert(passing_node(ns, k[i], et, tag));
    }
    if ns.len() > 0 && passing_node(ns, id, et, tag) {
        let init = ns.drop_last();
        let j = choose|j: int| 0 <= j < ns.len() && #[trigger] ns[j].id == id && type_ok(et, ns[j].kind) && tag_ok(tag, ns[j].tags);
        if j == ns.len() - 1 {
            assert(k[k.len() - 1] == id);
        } else {
            assert(init[j] == ns[j]);
            assert(passing_node(init, id, et, tag));
            lemma_kept_ids_exact(init, et, tag, id);
            let k0 = kept_ids(init, et, tag);
            let i = choose|i: int| 0 <= i < k0.len() && k0[i] == id;
            assert(k[i] == k0[i]);
        }
    }
}

/// Lemma: the kept edges are exactly the edges with both ends among `ids`.
proof fn lemma_kept_edges_exact(es: Seq<SEdge>, ids: Seq<Seq<char>>, e: SEdge)
    ensures
        kept_edges(es, ids).contains(e) <==> es.contains(e) && ids.contains(e.source) && ids.contains(e.target),
    decreases es.len(),
{
    if es.len() > 0 {
        let init = es.drop_last();
        lemma_kept_edges_exact(init, ids, e);
        let k0 = kept_edges(init, ids);
        let k = kept_edges(es, ids);
        if k.contains(e) {
            let i = choose|i: int| 0 <= i < k.len() && k[i] == e;
            if i < k0.len() {
                assert(k[i] == k0[i]);
                let j = choose|j: int| 0 <= j < init.len() && init[j] == e;
                assert(es[j] == init[j]);
            } else {
                assert(k[i] == es.last());
                assert(es[es.len() - 1] == e);
            }
        }
        if es.contains(e) && ids.contains(e.source) && ids.contains(e.target) {
            let j = choose|j: int| 0 <= j < es.len() && es[j] == e;
            if j == es.len() - 1 {
                assert(k[k.len() - 1] == e);
            } else {
                assert(init[j] == e);
                let i = choose|i: int| 0 <= i < k0.len() && k0[i] == e;
                assert(k[i] == k0[i]);
            }
        }
    }
}

/// Lemma: the connected ids are exactly the ids that some edge touches.
proof fn lemma_connected_exact(ids: Seq<Seq<char>>, es: Seq<SEdge>, x: Seq<char>)
    ensures
        connected_ids(ids, es).contains(x) <==> ids.contains(x) && touches(es, x),
    decreases ids.len(),
{
    if ids.contains(x) && touches(es, x) {
        lemma_connected_keeps(ids, es, x);
    }
    if ids.len() > 0 {
        let init = ids.drop_last();
        lemma_connected_exact(init, es, x);
        let c0 = connected_ids(init, es);
        let c = connected_ids(ids, es);
        if c.contains(x) {
            let i = choose|i: int| 0 <= i < c.len() && c[i] == x;
            if i < c0.len() {
                assert(c[i] == c0[i]);
                let j = choose|j: int| 0 <= j < init.len() && init[j] == x;
                assert(ids[j] == init[j]);
            } else {
                assert(c[i] == ids.last());
                assert(ids[ids.len() - 1] == x);
            }
        }
    }
}

/// Law: what the filter keeps, as sets. A node is shown exactly when it is
/// of the type and has the tag asked for and, without isolated nodes, some
/// kept edge starts or ends at it; an edge is kept exactly when both its
/// ends are such nodes.
pub proof fn law_filter_exact(
    ns: Seq<SNode>,
    es: Seq<SEdge>,
    et: Option<Seq<char>>,
    tag: Option<Seq<char>>,
    without_isolated: bool,
)
    ensures
        ({
            let (ids, fe) = spec_filter(ns, es, et, tag, without_isolated);
            &&& forall|e: SEdge| #[trigger] fe.contains(e) <==> es.contains(e) && passing_node(ns, e.source, et, tag)
                && passing_node(ns, e.target, et, tag)
            &&& forall|id: Seq<char>| #[trigger] ids.contains(id) <==> passing_node(ns, id, et, tag) && (
            without_isolated ==> touches(fe, id))
        }),
{
    let ids0 = kept_ids(ns, et, tag);
    let fe = kept_edges(es, ids0);
    assert forall|e: SEdge| #[trigger] fe.contains(e) <==> es.contains(e) && passing_node(ns, e.source, et, tag)
        && passing_node(ns, e.target, et, tag) by {
        lemma_kept_edges_exact(es, ids0, e);
        lemma_kept_ids_exact(ns, et, tag, e.source);
        lemma_kept_ids_exact(ns, et, tag, e.target);
    }
    let (ids, fe2) = spec_filter(ns, es, et, tag, without_isolated);
    assert forall|id: Seq<char>| #[trigger] ids.contains(id) <==> passing_node(ns, id, et, tag) && (without_isolated
        ==> touches(fe, id)) by {
        lemma_kept_ids_exact(ns, et, tag, id);
        if without_isolated {
            lemma_connected_exact(ids0, fe, id);
        }
    }
}

/// The edge a link `relationship:target` of entity `id` gives, target as
/// written; none for a link without `:`.
pub open spec fn raw_link(id: Seq<char>, l: Seq<char>) -> Option<SEdge> {
    match split_once(l, ':') {
        Some((rel, t)) => Some(SEdge { source: id, target: t, relationship: rel }),
        None => None,
    }
}

/// An edge with its target resolved against the nodes.
pub open spec fn resolved(ns: Seq<SNode>, e: SEdge) -> SEdge {
    SEdge { target: resolve_target(ns, e.target), ..e }
}

/// Lemma: adding an edge adds exactly it.
proof fn lemma_add_edge(es: Seq<SEdge>, e: SEdge, x: SEdge)
    ensures
        add_edge(es, e).contains(x) <==> es.contains(x) || x == e,
{
    if !es.contains(e) {
        let p = es.push(e);
        if p.contains(x) {
            let i = choose|i: int| 0 <= i < p.len() && p[i] == x;
            if i < es.len() {
                assert(es[i] == p[i]);
            }
        }
        if es.contains(x) {
            let i = choose|i: int| 0 <= i < es.len() && es[i] == x;
            assert(p[i] == x);
        }
        assert(p[es.len() as int] == e);
    }
}

/// Lemma: the edges the links of one entity add.
proof fn lemma_link_edges(acc: Seq<SEdge>, id: Seq<char>, links: Seq<Seq<char>>, x: SEdge)
    ensures
        link_edges(acc, id, links).contains(x) <==> acc.contains(x) || exists|k: int|
            0 <= k < links.len() && #[trigger] raw_link(id, links[k]) == Some(x),
    decreases links.len(),
{
    if links.len() > 0 {
        let init = links.drop_last();
        lemma_link_edges(acc, id, init, x);
        let a = link_edges(acc, id, init);
        match split_once(links.last(), ':') {
            Some((rel, t)) => lemma_add_edge(a, SEdge { source: id, target: t, relationship: rel }, x),
            None => {},
        }
        if exists|k: int| 0 <= k < init.len() && #[trigger] raw_link(id, init[k]) == Some(x) {
            let k = choose|k: int| 0 <= k < init.len() && #[trigger] raw_link(id, init[k]) == Some(x);
            assert(links[k] == init[k]);
        }
        if exists|k: int| 0 <= k < links.len() && #[trigger] raw_link(id, links[k]) == Some(x) {
            let k = choose|k: int| 0 <= k < links.len() && #[trigger] raw_link(id, links[k]) == Some(x);
            if k < init.len() {
                assert(init[k] == links[k]);
            } else {
                assert(links[k] == links.last());
            }
        }
        if link_edges(acc, id, links).contains(x) && !acc.contains(x) && !a.contains(x) {
            assert(raw_link(id, links[links.len() - 1]) == Some(x));
        }
    }
}

/// Lemma: the raw edges are those of the links of the entities.
proof fn lemma_raw_edges(es: Seq<SEntry>, x: SEdge)
    ensures
        raw_edges(es).contains(x) <==> exists|i: int, k: int|
            0 <= i < es.len() && 0 <= k < es[i].links.len() && #[trigger] raw_link(es[i].id, es[i].links[k]) == Some(x),
    decreases es.len(),
{
    if es.len() > 0 {
        let init = es.drop_last();
        lemma_raw_edges(init, x);
        let last = es.last();
        lemma_link_edges(raw_edges(init), last.id, last.links, x);
        if exists|i: int, k: int|
            0 <= i < init.len() && 0 <= k < init[i].links.len() && #[trigger] raw_link(init[i].id, init[i].links[k]) == Some(x) {
            let (i, k) = choose|i: int, k: int|
                0 <= i < init.len() && 0 <= k < init[i].links.len() && #[trigger] raw_link(init[i].id, init[i].links[k]) == Some(x);
            assert(es[i] == init[i]);
        }
        if exists|k: int| 0 <= k < last.links.len() && #[trigger] raw_link(last.id, last.links[k]) == Some(x) {
            let k = choose|k: int| 0 <= k < last.links.len() && #[trigger] raw_link(last.id, last.links[k]) == Some(x);
            assert(es[es.len() - 1] == last);
            assert(raw_link(es[es.len() - 1].id, es[es.len() - 1].links[k]) == Some(x));
        }
        if exists|i: int, k: int|
            0 <= i < es.len() && 0 <= k < es[i].links.len() && #[trigger] raw_link(es[i].id, es[i].links[k]) == Some(x) {
            let (i, k) = choose|i: int, k: int|
                0 <= i < es.len() && 0 <= k < es[i].links.len() && #[trigger] raw_link(es[i].id, es[i].links[k]) == Some(x);
            if i < init.len() {
                assert(init[i] == es[i]);
                assert(raw_link(init[i].id, init[i].links[k]) == Some(x));
            } else {
                assert(raw_link(last.id, last.links[k]) == Some(x));
            }
        }
    }
}

/// Lemma: the resolved edges are the raw edges with resolved targets.
proof fn lemma_resolved_edges(ns: Seq<SNode>, raw: Seq<SEdge>, x: SEdge)
    ensures
        resolved_edges(ns, raw).contains(x) <==> exists|j: int| 0 <= j < raw.len() && x == #[trigger] resolved(ns, raw[j]),
    decreases raw.len(),
{
    if raw.len() > 0 {
        let init = raw.drop_last();
        lemma_resolved_edges(ns, init, x);
        lemma_add_edge(resolved_edges(ns, init), resolved(ns, raw.last()), x);
        assert(SEdge { target: resolve_target(ns, raw.last().target), ..raw.last() } == resolved(ns, raw.last()));
        if exists|j: int| 0 <= j < init.len() && x == #[trigger] resolved(ns, init[j]) {
            let j = choose|j: int| 0 <= j < init.len() && x == #[trigger] resolved(ns, init[j]);
            assert(raw[j] == init[j]);
        }
        if exists|j: int| 0 <= j < raw.len() && x == #[trigger] resolved(ns, raw[j]) {
            let j = choose|j: int| 0 <= j < raw.len() && x == #[trigger] resolved(ns, raw[j]);
            if j < init.len() {
                assert(init[j] == raw[j]);
            } else {
                assert(raw[j] == raw.last());
            }
        }
    }
}

/// The link `l` of entity `id` gives the edge `x` of the graph with nodes
/// `ns`.
pub open spec fn link_gives(ns: Seq<SNode>, id: Seq<char>, l: Seq<char>, x: SEdge) -> bool {
    match raw_link(id, l) {
        Some(r) => x == resolved(ns, r),
        None => false,
    }
}

/// Law: the edges of the graph, as a set. An edge is in the graph exactly
/// when some link `relationship:target` of some entity gives it: from the
/// entity's id, with that relationship, to the id of the first node the
/// target is a prefix of (or to the target as written when it is a prefix
/// of none).
pub proof fn law_graph_edges_exact(es: Seq<SEntry>, x: SEdge)
    ensures
        graph_edges(es).contains(x) <==> exists|i: int, k: int|
            0 <= i < es.len() && 0 <= k < es[i].links.len() && #[trigger] link_gives(graph_nodes(es), es[i].id, es[i].links[k], x),
{
    let ns = graph_nodes(es);
    let raw = raw_edges(es);
    lemma_resolved_edges(ns, raw, x);
    if graph_edges(es).contains(x) {
        let j = choose|j: int| 0 <= j < raw.len() && x == #[trigger] resolved(ns, raw[j]);
        assert(raw.contains(raw[j]));
        lemma_raw_edges(es, raw[j]);
        let (i, k) = choose|i: int, k: int|
            0 <= i < es.len() && 0 <= k < es[i].links.len() && #[trigger] raw_link(es[i].id, es[i].links[k]) == Some(raw[j]);
        assert(link_gives(ns, es[i].id, es[i].links[k], x));
    }
    if exists|i: int, k: int|
        0 <= i < es.len() && 0 <= k < es[i].links.len() && #[trigger] link_gives(ns, es[i].id, es[i].links[k], x) {
        let (i, k) = choose|i: int, k: int|
            0 <= i < es.len() && 0 <= k < es[i].links.len() && #[trigger] link_gives(ns, es[i].id, es[i].links[k], x);
        let r = raw_link(es[i].id, es[i].links[k]).unwrap();
        lemma_raw_edges(es, r);
        let j = choose|j: int| 0 <= j < raw.len() && raw[j] == r;
        assert(x == resolved(ns, raw[j]));
    }
}

/// Lemma: no node at or after `i` has the id, so none is found.
proof fn lemma_node_index_none(ns: Seq<SNode>, id: Seq<char>, i: int)
    requires
        0 <= i,
        forall|j: int| i <= j < ns.len() ==> #[trigger] ns[j].id != id,
    ensures
        node_index(ns, id, i) is None,
    decreases ns.len() - i,
{
    if i < ns.len() {
        lemma_node_index_none(ns, id, i + 1);
    }
}

/// Law: the nodes of the graph of entities whose ids are distinct are the
/// nodes of those entities, one each, in their order.
pub proof fn law_graph_nodes_distinct(es: Seq<SEntry>)
    requires
        forall|i: int, j: int| 0 <= i < j < es.len() ==> es[i].id != es[j].id,
    ensures
        graph_nodes(es) == es.map_values(|e: SEntry| node_of(e)),
    decreases es.len(),
{
    if es.len() > 0 {
        let init = es.drop_last();
        law_graph_nodes_distinct(init);
        let ns = init.map_values(|e: SEntry| node_of(e));
        assert forall|j: int| 0 <= j < ns.len() implies #[trigger] ns[j].id != es.last().id by {
            assert(init[j] == es[j]);
        }
        lemma_node_index_none(ns, node_of(es.last()).id, 0);
        assert(ns.push(node_of(es.last())) =~= es.map_values(|e: SEntry| node_of(e)));
    }
}

/// The tag a tag filter `t` asks for, written out: `t` itself when it
/// starts with `#`, else `#` followed by `t`.
pub open spec fn wanted_tag(t: Seq<char>) -> Seq<char> {
    if t.len() > 0 && t[0] == '#' {
        t
    } else {
        seq!['#'] + t
    }
}

/// Law: a tag filter matches tags whole. With a tag filter `t`, every node
/// shown has, among its tags, one equal to `#t` (or `t` when `t` already
/// starts with `#`); and every node of the type asked for that has such a
/// tag is shown, unless isolated nodes are left out. A tag that merely
/// starts with the wanted one (`#golang` for `#go`) does not count.
pub proof fn law_tag_filter_matches_whole_tags(
    ns: Seq<SNode>,
    es: Seq<SEdge>,
    et: Option<Seq<char>>,
    t: Seq<char>,
    without_isolated: bool,
    id: Seq<char>,
)
    ensures
        spec_filter(ns, es, et, Some(t), without_isolated).0.contains(id) ==> exists|j: int|
            0 <= j < ns.len() && ns[j].id == id && #[trigger] ns[j].tags.contains(wanted_tag(t)),
        !without_isolated ==> ((exists|j: int|
            0 <= j < ns.len() && ns[j].id == id && type_ok(et, ns[j].kind) && #[trigger] ns[j].tags.contains(
                wanted_tag(t),
            )) ==> spec_filter(ns, es, et, Some(t), without_isolated).0.contains(id)),
{
    reveal_strlit("#");
    assert(tag_key(t) == wanted_tag(t)) by {
        if t.len() > 0 && t[0] == '#' {
            assert(t.take(1) =~= "#"@);
        } else {
            assert(seq!['#'] =~= "#"@);
            if starts_with(t, "#"@) {
                assert(t.take(1)[0] == t[0]);
            }
        }
    }
    law_filter_exact(ns, es, et, Some(t), without_isolated);
    if spec_filter(ns, es, et, Some(t), without_isolated).0.contains(id) {
        let j = choose|j: int| 0 <= j < ns.len() && #[trigger] ns[j].id == id && type_ok(et, ns[j].kind) && tag_ok(Some(t), ns[j].tags);
        assert(ns[j].tags.contains(wanted_tag(t)));
    }
    if !without_isolated && exists|j: int|
        0 <= j < ns.len() && ns[j].id == id && type_ok(et, ns[j].kind) && #[trigger] ns[j].tags.contains(wanted_tag(t)) {
        let j = choose|j: int|
            0 <= j < ns.len() && ns[j].id == id && type_ok(et, ns[j].kind) && #[trigger] ns[j].tags.contains(wanted_tag(t));
        assert(passing_node(ns, id, et, Some(t)));
    }
}

} // verus!
