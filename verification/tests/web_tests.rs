use znote::models::{EntityKind, Entry};
use znote::storage::{Folder, Store};
use znote::web::{JoinedEntity, api_links, graph_links, is_authorized, is_starred, joined_item};

#[test]
fn api_authentication_rules() {
    let t = Some("test-token");
    assert!(!is_authorized("/api/notes", t, None, None, None));
    assert!(is_authorized("/api/notes", t, None, None, Some("token=test-token")));
    assert!(is_authorized("/note/some-uuid", t, None, None, None));
    assert!(is_authorized("/api/query", t, None, None, Some("expr=tag:test&token=test-token")));
    assert!(is_authorized("/api/notes", t, Some("test-token"), None, None));
    assert!(is_authorized("/api/notes", t, None, Some("Bearer test-token"), None));
    assert!(!is_authorized("/api/notes", t, Some(""), Some("Basic test-token"), Some("token=wrong&x=test-token")));
    assert!(is_authorized("/api/notes", None, None, None, None));
}

#[test]
fn starred_tags() {
    let tags = vec!["#a".to_string(), "#starred".to_string()];
    assert!(is_starred(&tags, "#starred"));
    assert!(!is_starred(&tags, "#fav"));
}

fn entry(kind: EntityKind, id: &str, title: &str, links: &[&str]) -> Entry {
    Entry {
        kind,
        id: id.into(),
        title: title.into(),
        tags: vec![],
        links: links.iter().map(|s| s.to_string()).collect(),
    }
}

#[test]
fn graph_view_links() {
    let entries = vec![
        entry(EntityKind::Note, "100000ab", "Target Note", &[]),
        entry(EntityKind::Note, "200000cd", "Source Note", &["rel:100000", "x:999", "bad"]),
        entry(EntityKind::Task, "100000aa", "Other", &["dup:1000"]),
    ];
    let links = graph_links(&entries);
    let got: Vec<(&str, &str, &str)> = links.iter().map(|l| (l.source.as_str(), l.target.as_str(), l.label.as_str())).collect();
    assert_eq!(got, vec![("200000cd", "100000aa", "rel"), ("100000aa", "100000aa", "dup")]);
}

#[test]
fn link_view_of_one_entity() {
    let target = entry(EntityKind::Note, "t1", "Target", &[]);
    let source = entry(EntityKind::Bookmark, "s1", "Source", &["ref:t1", "ref:missing"]);
    let store = Store {
        data_dir: "/d".into(),
        notes: Folder { names: vec!["t1.md".into()], texts: vec![None], entries: vec![Some(target)] },
        bookmarks: Folder { names: vec!["s1.md".into()], texts: vec![None], entries: vec![Some(source)] },
        tasks: Folder { names: vec![], texts: vec![], entries: vec![] },
    };
    let out = api_links(&store, "s1");
    assert_eq!(out.outgoing.len(), 1);
    assert_eq!(out.outgoing[0].id, "t1");
    assert_eq!(out.outgoing[0].entity_type, EntityKind::Note);
    assert_eq!(out.outgoing[0].rel, "ref");
    assert_eq!(out.incoming.len(), 0);
    let inc = api_links(&store, "t1");
    assert_eq!(inc.incoming.len(), 1);
    assert_eq!(inc.incoming[0].id, "s1");
    assert_eq!(inc.incoming[0].title, "Source");
}

#[test]
fn joined_rows_pick_note_then_bookmark_then_task() {
    let none = || JoinedEntity { id: None, title: None };
    let n = joined_item(
        Some("parent"),
        Some("ab"),
        JoinedEntity { id: Some("abc1"), title: Some("Note A") },
        JoinedEntity { id: Some("abc2"), title: Some("Bm") },
        none(),
    );
    assert_eq!((n.id.as_str(), n.title.as_str(), n.entity_type, n.rel.as_str()), ("abc1", "Note A", EntityKind::Note, "parent"));
    let b = joined_item(None, Some("ab"), none(), JoinedEntity { id: Some("abc2"), title: None }, none());
    assert_eq!((b.id.as_str(), b.title.as_str(), b.entity_type, b.rel.as_str()), ("abc2", "abc2", EntityKind::Bookmark, "rel"));
    let t = joined_item(Some("x"), None, none(), none(), JoinedEntity { id: Some("t9"), title: Some("Task") });
    assert_eq!((t.id.as_str(), t.entity_type), ("t9", EntityKind::Task));
    let f = joined_item(Some("x"), Some("dangling"), none(), none(), none());
    assert_eq!((f.id.as_str(), f.title.as_str(), f.entity_type), ("dangling", "dangling", EntityKind::Note));
    let g = joined_item(Some("x"), None, none(), none(), none());
    assert_eq!((g.id.as_str(), g.entity_type), ("", EntityKind::Note));
}
