use znote::models::{Bookmark, EntityKind, Note, Task, TaskItem, Timestamp};
use znote::sql::{
    datetime_text, delete_sql, escape_sql, replace_links_sql, replace_tags_sql, save_bookmark_sql,
    save_note_sql, save_task_sql, select_sql, task_tags,
};

fn ts(s: i64) -> Timestamp {
    Timestamp { secs: s, nanos: 0 }
}

fn strings(v: &[&str]) -> Vec<String> {
    v.iter().map(|s| s.to_string()).collect()
}

#[test]
fn quotes_are_doubled() {
    assert_eq!(escape_sql("it's"), "it''s");
    assert_eq!(escape_sql("''"), "''''");
    assert_eq!(escape_sql("plain"), "plain");
    assert_eq!(escape_sql(""), "");
}

#[test]
fn tag_statements() {
    let r = replace_tags_sql("n1", &strings(&["#a", "#o'k"]));
    assert_eq!(
        r,
        strings(&[
            "DELETE FROM tags WHERE entity_id = 'n1'",
            "INSERT INTO tags (entity_id, tag) VALUES ('n1', '#a'), ('n1', '#o''k')",
        ])
    );
    let none = replace_tags_sql("n1", &vec![]);
    assert_eq!(none, strings(&["DELETE FROM tags WHERE entity_id = 'n1'"]));
}

#[test]
fn link_statements() {
    let r = replace_links_sql("n1", &strings(&["parent:abc", "plain"]));
    assert_eq!(
        r,
        strings(&[
            "DELETE FROM links WHERE source_id = 'n1'",
            "INSERT INTO links (source_id, target_id, rel_type) VALUES ('n1', 'abc', 'parent'), ('n1', 'plain', '')",
        ])
    );
}

#[test]
fn select_and_delete_statements() {
    assert_eq!(select_sql(EntityKind::Task, "t'1"), "SELECT * FROM tasks WHERE id = 't''1' LIMIT 1");
    assert_eq!(
        delete_sql(EntityKind::Bookmark, "b1"),
        strings(&[
            "DELETE FROM bookmarks WHERE id = 'b1'",
            "DELETE FROM tags WHERE entity_id = 'b1'",
            "DELETE FROM links WHERE source_id = 'b1'",
        ])
    );
}

#[test]
fn row_statements() {
    let n = Note {
        id: "n1".to_string(),
        title: "Bob's".to_string(),
        content: "body".to_string(),
        tags: vec![],
        links: vec![],
        created_at: ts(0),
        updated_at: ts(0),
    };
    assert_eq!(
        save_note_sql(&n, "2024-01-01 00:00:00", "2024-01-02 00:00:00"),
        "REPLACE INTO notes (id, title, content, created_at, updated_at) VALUES ('n1', 'Bob''s', 'body', '2024-01-01 00:00:00', '2024-01-02 00:00:00')"
    );
    let b = Bookmark {
        id: "b1".to_string(),
        url: "https://x".to_string(),
        title: "X".to_string(),
        description: None,
        tags: vec![],
        links: vec![],
        created_at: ts(0),
        updated_at: ts(0),
    };
    assert_eq!(
        save_bookmark_sql(&b, "c", "u"),
        "REPLACE INTO bookmarks (id, url, title, description, created_at, updated_at) VALUES ('b1', 'https://x', 'X', '', 'c', 'u')"
    );
    let t = Task {
        id: "t1".to_string(),
        title: "T".to_string(),
        description: Some("d".to_string()),
        tags: vec![],
        links: vec![],
        items: vec![],
        created_at: ts(0),
        updated_at: ts(0),
    };
    assert_eq!(
        save_task_sql(&t, "[]", "c", "u"),
        "REPLACE INTO tasks (id, title, description, items, created_at, updated_at) VALUES ('t1', 'T', 'd', '[]', 'c', 'u')"
    );
}

#[test]
fn task_tags_sorted_once() {
    let t = Task {
        id: "t1".to_string(),
        title: "T".to_string(),
        description: None,
        tags: strings(&["#z", "#a"]),
        links: vec![],
        items: vec![
            TaskItem { text: "x".to_string(), completed: false, tags: strings(&["#m", "#a"]) },
            TaskItem { text: "y".to_string(), completed: true, tags: strings(&["#z"]) },
        ],
        created_at: ts(0),
        updated_at: ts(0),
    };
    assert_eq!(task_tags(&t), strings(&["#a", "#m", "#z"]));
}

#[test]
fn datetime_fraction_dropped() {
    assert_eq!(datetime_text("2024-01-01 10:00:00.123456"), "2024-01-01 10:00:00");
    assert_eq!(datetime_text("2024-01-01 10:00:00"), "2024-01-01 10:00:00");
}

#[test]
fn joined_link_queries() {
    let out = znote::sql::outgoing_links_sql("ab12");
    assert!(out.starts_with("SELECT l.rel_type, l.target_id, n.id as n_id"));
    assert!(out.ends_with("WHERE l.source_id = 'ab12' OR l.source_id LIKE 'ab12%'"));
    assert!(out.contains("LEFT JOIN notes n ON n.id LIKE CONCAT(l.target_id, '%')"));
    let inc = znote::sql::incoming_links_sql("ab12");
    assert!(inc.starts_with("SELECT l.source_id, l.rel_type, n.id as n_id"));
    assert!(inc.ends_with("WHERE l.target_id = 'ab12' OR l.target_id LIKE 'ab12%'"));
    assert!(inc.contains("LEFT JOIN tasks t ON t.id LIKE CONCAT(l.source_id, '%')"));
}

#[test]
fn select_statements_and_json_columns() {
    assert!(znote::sql::is_select("  SELECT * FROM notes"));
    assert!(znote::sql::is_select("select 1"));
    assert!(!znote::sql::is_select("REPLACE INTO notes VALUES ('a')"));
    assert!(!znote::sql::is_select(""));
    assert!(znote::sql::json_like("[1, 2]"));
    assert!(znote::sql::json_like("{\"a\": 1}"));
    assert!(!znote::sql::json_like("[1, 2"));
    assert!(!znote::sql::json_like("plain"));
    assert!(!znote::sql::json_like(""));
}
