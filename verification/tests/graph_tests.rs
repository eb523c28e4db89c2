use znote::commands::{GraphArgs, GraphCommands};
use znote::graph::{
    Edge, GraphView, Node, dot_edge_line, dot_node_line, filter_graph, load_graph, mermaid_edge_line,
    mermaid_node_line, node_pos, outgoing, run, show_order, truncate_id,
};
use znote::models::{EntityKind, Entry};

fn create_test_graph() -> (Vec<Node>, Vec<Edge>) {
    let nodes = vec![
        Node {
            id: "1".to_string(),
            title: "Rust Basics".to_string(),
            entity_type: EntityKind::Note,
            tags: vec!["#rust".to_string()],
        },
        Node {
            id: "2".to_string(),
            title: "Advanced Rust".to_string(),
            entity_type: EntityKind::Note,
            tags: vec!["#rust".to_string(), "#advanced".to_string()],
        },
        Node {
            id: "3".to_string(),
            title: "Learn Go".to_string(),
            entity_type: EntityKind::Task,
            tags: vec!["#go".to_string()],
        },
    ];
    let edges = vec![Edge {
        source: "2".to_string(),
        target: "1".to_string(),
        relationship: "depends_on".to_string(),
    }];
    (nodes, edges)
}

fn contains(ids: &[String], id: &str) -> bool {
    ids.iter().any(|x| x == id)
}

#[test]
fn test_filter_no_args() {
    let (nodes, edges) = create_test_graph();
    let args = GraphArgs { command: None, without_isolated: false, entity_type: None, tag: None, hide_tags: false };
    let (f_nodes, f_edges) = filter_graph(&nodes, &edges, &args);
    assert_eq!(f_nodes.len(), 3);
    assert_eq!(f_edges.len(), 1);
}

#[test]
fn test_filter_without_isolated() {
    let (nodes, edges) = create_test_graph();
    let args = GraphArgs { command: None, without_isolated: true, entity_type: None, tag: None, hide_tags: false };
    let (f_nodes, _f_edges) = filter_graph(&nodes, &edges, &args);
    assert_eq!(f_nodes.len(), 2);
    assert!(!contains(&f_nodes, "3"));
}

#[test]
fn test_filter_by_tag() {
    let (nodes, edges) = create_test_graph();
    let args = GraphArgs {
        command: None,
        without_isolated: false,
        entity_type: None,
        tag: Some("rust".to_string()),
        hide_tags: false,
    };
    let (f_nodes, _f_edges) = filter_graph(&nodes, &edges, &args);
    assert_eq!(f_nodes.len(), 2);
    assert!(contains(&f_nodes, "1"));
    assert!(contains(&f_nodes, "2"));
}

#[test]
fn test_filter_by_type() {
    let (nodes, edges) = create_test_graph();
    let args = GraphArgs {
        command: None,
        without_isolated: false,
        entity_type: Some("task".to_string()),
        tag: None,
        hide_tags: false,
    };
    let (f_nodes, f_edges) = filter_graph(&nodes, &edges, &args);
    assert_eq!(f_nodes.len(), 1);
    assert!(contains(&f_nodes, "3"));
    assert_eq!(f_edges.len(), 0);
}

// ---------------------------------------------------------------------------
// Further cases
// ---------------------------------------------------------------------------

fn entry(kind: EntityKind, id: &str, title: &str, tags: &[&str], links: &[&str]) -> Entry {
    Entry {
        kind,
        id: id.to_string(),
        title: title.to_string(),
        tags: tags.iter().map(|s| s.to_string()).collect(),
        links: links.iter().map(|s| s.to_string()).collect(),
    }
}

#[test]
fn load_graph_resolves_prefixes_and_dedups_edges() {
    let entries = vec![
        entry(EntityKind::Note, "aaaa1111", "A", &["#x"], &["ref:bbbb", "ref:bbbb", "broken", "ref:zzzz"]),
        entry(EntityKind::Bookmark, "bbbb2222", "B", &[], &["see:aaaa1111"]),
        entry(EntityKind::Task, "cccc3333", "C", &[], &[]),
    ];
    let (nodes, edges) = load_graph(&entries);
    assert_eq!(nodes.len(), 3);
    assert_eq!(nodes[1].entity_type, EntityKind::Bookmark);
    assert_eq!(edges.len(), 3);
    assert_eq!(edges[0].source, "aaaa1111");
    assert_eq!(edges[0].target, "bbbb2222");
    assert_eq!(edges[0].relationship, "ref");
    assert_eq!(edges[1].target, "zzzz");
    assert_eq!(edges[2].source, "bbbb2222");
    assert_eq!(edges[2].target, "aaaa1111");
}

#[test]
fn load_graph_keeps_last_entity_of_an_id() {
    let entries = vec![
        entry(EntityKind::Note, "same", "First", &[], &[]),
        entry(EntityKind::Task, "same", "Second", &[], &[]),
    ];
    let (nodes, _edges) = load_graph(&entries);
    assert_eq!(nodes.len(), 1);
    assert_eq!(nodes[0].title, "Second");
    assert_eq!(nodes[0].entity_type, EntityKind::Task);
}

#[test]
fn run_filters_and_picks_the_format() {
    let entries = vec![
        entry(EntityKind::Note, "n1", "One", &["#rust"], &["rel:n2"]),
        entry(EntityKind::Note, "n2", "Two", &["#rust"], &[]),
        entry(EntityKind::Bookmark, "b1", "Three", &[], &[]),
    ];
    let args = GraphArgs {
        command: Some(GraphCommands::Mermaid),
        without_isolated: true,
        entity_type: Some("Notes".to_string()),
        tag: Some("#rust".to_string()),
        hide_tags: false,
    };
    let g = run(&entries, &args);
    assert_eq!(g.format, GraphCommands::Mermaid);
    assert_eq!(g.shown_nodes, vec!["n1".to_string(), "n2".to_string()]);
    assert_eq!(g.shown_edges.len(), 1);
    let args2 = GraphArgs { command: None, without_isolated: false, entity_type: None, tag: None, hide_tags: true };
    assert_eq!(run(&entries, &args2).format, GraphCommands::Show);
}

#[test]
fn truncate_id_takes_eight_bytes() {
    assert_eq!(truncate_id("886a5bea-1234-4567-8901-23456789abcd"), "886a5bea");
    assert_eq!(truncate_id("short"), "short");
    assert_eq!(truncate_id("12345678"), "12345678");
    assert_eq!(truncate_id("abcdéfghij"), "abcdéfg");
}

fn view_of(nodes: Vec<Node>, edges: Vec<Edge>, shown: &[&str]) -> GraphView {
    let shown_edges = edges
        .iter()
        .map(|e| Edge { source: e.source.clone(), target: e.target.clone(), relationship: e.relationship.clone() })
        .collect();
    GraphView {
        nodes,
        edges,
        shown_nodes: shown.iter().map(|s| s.to_string()).collect(),
        shown_edges,
        format: GraphCommands::Show,
    }
}

#[test]
fn overview_orders_by_kind_then_title() {
    let (mut nodes, edges) = create_test_graph();
    nodes.push(Node { id: "4".to_string(), title: "Zed".to_string(), entity_type: EntityKind::Bookmark, tags: vec![] });
    let g = view_of(nodes, edges, &["1", "2", "3", "4"]);
    // bookmark < note < task; within notes by title
    assert_eq!(show_order(&g), vec![3, 1, 0, 2]);
    let g2 = view_of(g.nodes, g.edges, &["3", "1"]);
    assert_eq!(show_order(&g2), vec![0, 2]);
}

#[test]
fn overview_ties_keep_order() {
    let nodes = vec![
        Node { id: "a".to_string(), title: "Same".to_string(), entity_type: EntityKind::Note, tags: vec![] },
        Node { id: "b".to_string(), title: "Same".to_string(), entity_type: EntityKind::Note, tags: vec![] },
    ];
    let g = view_of(nodes, vec![], &["a", "b"]);
    assert_eq!(show_order(&g), vec![0, 1]);
}

#[test]
fn outgoing_edges_and_node_lookup() {
    let (nodes, mut edges) = create_test_graph();
    edges.push(Edge { source: "2".to_string(), target: "missing".to_string(), relationship: "x".to_string() });
    edges.push(Edge { source: "2".to_string(), target: "3".to_string(), relationship: "y".to_string() });
    let g = view_of(nodes, edges, &["1", "2", "3"]);
    assert_eq!(outgoing(&g, "2"), vec![0, 2]);
    assert!(outgoing(&g, "1").is_empty());
    assert_eq!(node_pos(&g.nodes, "3"), Some(2));
    assert_eq!(node_pos(&g.nodes, "9"), None);
}

#[test]
fn dot_lines() {
    let n = Node {
        id: "abc".to_string(),
        title: "Say \"hi\"".to_string(),
        entity_type: EntityKind::Note,
        tags: vec!["#a".to_string(), "#b".to_string()],
    };
    assert_eq!(
        dot_node_line(&n, false),
        "  \"abc\" [label=\"Say \\\"hi\\\"\\n#a #b\" style=\"rounded,filled\" fillcolor=\"palegreen\"];"
    );
    assert_eq!(
        dot_node_line(&n, true),
        "  \"abc\" [label=\"Say \\\"hi\\\"\" style=\"rounded,filled\" fillcolor=\"palegreen\"];"
    );
    let e = Edge { source: "a".to_string(), target: "b".to_string(), relationship: "rel".to_string() };
    assert_eq!(dot_edge_line(&e), "  \"a\" -> \"b\" [label=\"rel\"];");
}

#[test]
fn mermaid_lines() {
    let n = Node {
        id: "t1".to_string(),
        title: "Plan (v2) [draft] \"x\"".to_string(),
        entity_type: EntityKind::Task,
        tags: vec!["#w".to_string()],
    };
    assert_eq!(mermaid_node_line(&n, false), "    t1[Plan  v2   draft  'x'<br/>#w]:::task");
    assert_eq!(mermaid_node_line(&n, true), "    t1[Plan  v2   draft  'x']:::task");
    let e = Edge { source: "a".to_string(), target: "b".to_string(), relationship: "rel".to_string() };
    assert_eq!(mermaid_edge_line(&e), "    a -- rel --> b");
}

#[test]
fn load_graph_distinct_ids_give_one_node_each_in_order() {
    let entries = vec![
        entry(EntityKind::Note, "n1", "One", &["#a"], &["to:t1", "nocolon"]),
        entry(EntityKind::Bookmark, "b1", "Two", &[], &[]),
        entry(EntityKind::Task, "t1", "Three", &[], &["back:n"]),
    ];
    let (nodes, edges) = load_graph(&entries);
    let ids: Vec<&str> = nodes.iter().map(|n| n.id.as_str()).collect();
    assert_eq!(ids, vec!["n1", "b1", "t1"]);
    assert_eq!(nodes[0].tags, vec!["#a".to_string()]);
    let got: Vec<(&str, &str, &str)> =
        edges.iter().map(|e| (e.source.as_str(), e.target.as_str(), e.relationship.as_str())).collect();
    assert_eq!(got, vec![("n1", "t1", "to"), ("t1", "n1", "back")]);
}
