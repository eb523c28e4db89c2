use znote::models::{Bookmark, Note, Task, Timestamp};

#[test]
fn test_create_note() {
    let title = "Test Note".to_string();
    let content = "This is a test note content.".to_string();
    let tags = vec!["#test".to_string(), "#tdd".to_string()];

    let note = Note::new(title.clone(), content.clone(), tags.clone());

    assert_eq!(note.title, title);
    assert_eq!(note.content, content);
    assert_eq!(note.tags, tags);
    assert!(!note.id.is_empty());
}

#[test]
fn test_create_bookmark() {
    let url = "https://rust-lang.org".to_string();
    let title = "Rust Programming Language".to_string();
    let description = "The official website for Rust.".to_string();
    let tags = vec!["#rust".to_string(), "#lang".to_string()];

    let bookmark = Bookmark::new(url.clone(), title.clone(), Some(description.clone()), tags.clone());

    assert_eq!(bookmark.url, url);
    assert_eq!(bookmark.title, title);
    assert_eq!(bookmark.description, Some(description));
    assert_eq!(bookmark.tags, tags);
    assert!(!bookmark.id.is_empty());
}

#[test]
fn test_create_task() {
    let title = "Project Tasks".to_string();
    let tags = vec!["#work".to_string()];

    let mut task = Task::new(title.clone(), tags.clone());
    task.add_item("Finish TDD setup".to_string(), vec!["#setup".to_string()]);

    assert_eq!(task.title, title);
    assert_eq!(task.tags, tags);
    assert_eq!(task.items.len(), 1);
    assert_eq!(task.items[0].text, "Finish TDD setup");
    assert_eq!(task.items[0].tags, vec!["#setup".to_string()]);
    assert!(!task.items[0].completed);
}

#[test]
fn new_ids_are_hyphenated_uuids() {
    let n = Note::new("t".into(), "c".into(), vec![]);
    assert_eq!(n.id.len(), 36);
    assert_eq!(&n.id[8..9], "-");
    assert_eq!(n.created_at, n.updated_at);
    let m = Note::new("t".into(), "c".into(), vec![]);
    assert_ne!(n.id, m.id);
}

#[test]
fn timestamps_order() {
    let a = Timestamp { secs: 10, nanos: 5 };
    let b = Timestamp { secs: 10, nanos: 6 };
    let c = Timestamp { secs: 11, nanos: 0 };
    assert!(a.earlier_than(&b));
    assert!(b.earlier_than(&c));
    assert!(!c.earlier_than(&a));
    assert!(!a.earlier_than(&a));
}
