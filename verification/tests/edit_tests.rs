use znote::commands::{ItemAddArgs, ItemUpdateArgs, UpdateArgs};
use znote::edit::{
    complete_ids, delete_bookmark, delete_note, delete_task, expand_data_dir, links_from, tags_from, item_add, item_check, item_remove, item_update, parse_links,
    parse_tags, progress, resolve_index, sync, update_bookmark, update_note, update_task, HomeNotSet, SyncUnsupported,
};
use znote::models::{Bookmark, EntityKind, Entry, Note, Task, Timestamp};
use znote::storage::StorageError;
use znote::validate::{Fix, Outcome, ValidationFailed, summarize, validate_bookmark, validate_note, validate_task};

fn strings(v: &[&str]) -> Vec<String> {
    v.iter().map(|s| s.to_string()).collect()
}

const NOW: Timestamp = Timestamp { secs: 1_700_000_000, nanos: 0 };

#[test]
fn tags_and_links_from_the_command_line() {
    assert_eq!(parse_tags("#handler #test"), strings(&["#handler", "#test"]));
    assert_eq!(parse_tags("rust,learning  ,#x"), strings(&["#rust", "#learning", "#x"]));
    assert_eq!(parse_tags(" , "), Vec::<String>::new());
    assert_eq!(parse_links("rel:abc #see:def,##x"), strings(&["rel:abc", "see:def", "#x"]));
}

fn update(id: &str) -> UpdateArgs {
    UpdateArgs { id: id.into(), title: None, content: None, url: None, tags: None, links: None }
}

#[test]
fn note_update() {
    let mut note = Note::new("Original".into(), "Old content".into(), vec![]);
    let created = note.created_at;
    let mut args = update(&note.id);
    args.title = Some("Updated Title".into());
    args.content = Some("New content".into());
    args.tags = Some("#updated".into());
    update_note(&mut note, &args, NOW);
    assert_eq!(note.title, "Updated Title");
    assert_eq!(note.content, "New content");
    assert_eq!(note.tags, strings(&["#updated"]));
    assert_eq!(note.updated_at, NOW);
    assert_eq!(note.created_at, created);
}

#[test]
fn bookmark_update() {
    let mut bm = Bookmark::new("https://old.com".into(), "Old Title".into(), Some("d".into()), vec![]);
    let mut args = update(&bm.id);
    args.title = Some("New Title".into());
    args.url = Some("https://new.com".into());
    args.tags = Some("#updated".into());
    update_bookmark(&mut bm, &args, Some(String::new()), NOW);
    assert_eq!(bm.title, "New Title");
    assert_eq!(bm.url, "https://new.com");
    assert_eq!(bm.tags, strings(&["#updated"]));
    assert_eq!(bm.description, None);
    update_bookmark(&mut bm, &update("x"), Some("text".into()), NOW);
    assert_eq!(bm.description, Some("text".to_string()));
}

#[test]
fn task_update_keeps_items() {
    let mut task = Task::new("Old Task".into(), vec![]);
    task.add_item("one".into(), vec![]);
    let mut args = update(&task.id);
    args.title = Some("Renamed Task".into());
    args.tags = Some("#renamed".into());
    args.content = Some("ignored".into());
    update_task(&mut task, &args, NOW);
    assert_eq!(task.title, "Renamed Task");
    assert_eq!(task.tags, strings(&["#renamed"]));
    assert_eq!(task.items.len(), 1);
    assert_eq!(task.description, None);
}

#[test]
fn item_lifecycle() {
    let mut task = Task::new("Sprint".into(), vec![]);
    let n = item_add(&mut task, &ItemAddArgs { text: "Initial item".into(), tags: Some("initial".into()) });
    assert_eq!(n, 1);
    assert_eq!(task.items[0].tags, strings(&["#initial"]));
    assert!(item_check(&mut task, 1, true, NOW).is_ok());
    assert!(task.items[0].completed);
    assert_eq!(progress(&task), (1, 1));
    let upd = ItemUpdateArgs { index: 1, text: Some("Updated item".into()), tags: None };
    assert!(item_update(&mut task, &upd, NOW).is_ok());
    assert_eq!(task.items[0].text, "Updated item");
    assert_eq!(task.items[0].tags, strings(&["#initial"]));
    let err = item_check(&mut task, 2, true, NOW).unwrap_err();
    assert_eq!((err.index, err.count, err.title.as_str()), (2, 1, "Sprint"));
    assert!(resolve_index(&task, 0).is_err());
    let removed = item_remove(&mut task, 1, NOW).unwrap();
    assert_eq!(removed.text, "Updated item");
    assert_eq!(task.items.len(), 0);
    assert_eq!(progress(&task), (0, 0));
}

#[test]
fn paths_sync_and_home() {
    let names = strings(&["abc123.md"]);
    assert_eq!(delete_note("/d", &names, "abc", false), Ok("/d/notes/abc123.md".to_string()));
    assert_eq!(delete_note("/d", &names, "zzz", false), Err(StorageError::NotFound("zzz".into())));
    assert_eq!(sync(true), Ok(()));
    assert_eq!(sync(false), Err(SyncUnsupported));
    assert_eq!(expand_data_dir("~/.local/share/znote", Some("/home/me")), Ok("/home/me/.local/share/znote".to_string()));
    assert_eq!(expand_data_dir("~/x", None), Err(HomeNotSet));
    assert_eq!(expand_data_dir("/abs", None), Ok("/abs".to_string()));
}

#[test]
fn completion_short_ids() {
    let entries = vec![
        Entry { kind: EntityKind::Note, id: "886a5bea-aaaa".into(), title: "".into(), tags: vec![], links: vec![] },
        Entry { kind: EntityKind::Task, id: "12345678-bbbb".into(), title: "".into(), tags: vec![], links: vec![] },
    ];
    assert_eq!(complete_ids(&entries, "note"), strings(&["886a5bea"]));
    assert_eq!(complete_ids(&entries, "task"), strings(&["12345678"]));
    assert_eq!(complete_ids(&entries, "other"), Vec::<String>::new());
}

#[test]
fn validation_repairs() {
    let mut note = Note::new("n".into(), "c".into(), strings(&["#ok", "nohash"]));
    note.links = strings(&["rel:abc"]);
    note.updated_at = Timestamp { secs: note.created_at.secs - 10, nanos: 0 };
    let report = validate_note(&mut note, "---\ntitle: n\n---\n\nc");
    assert_eq!(report.invalid_link, None);
    assert_eq!(report.fixes, vec![Fix::FormatUpdated, Fix::EmptyLinesRemoved, Fix::TagFixed, Fix::TimestampFixed]);
    assert_eq!(note.tags, strings(&["#ok", "#nohash"]));
    assert_eq!(note.updated_at, note.created_at);
    let raw = format!("---\nznote: note/v1/{}\n---\nc", note.id);
    let again = validate_note(&mut note, &raw);
    assert_eq!(again.fixes, Vec::<Fix>::new());
}

#[test]
fn validation_rejects_bad_links() {
    let mut bm = Bookmark::new("u".into(), "t".into(), None, strings(&["x"]));
    bm.links = strings(&["rel:valid-id", "broken", " :x"]);
    let report = validate_bookmark(&mut bm, "znote: bookmark/v1/abc");
    assert_eq!(report.invalid_link, Some("broken".to_string()));
    assert_eq!(report.fixes, Vec::<Fix>::new());
    assert_eq!(bm.tags, strings(&["x"]));
    let mut task = Task::new("t".into(), vec![]);
    task.add_item("a".into(), strings(&["t1"]));
    task.links = strings(&[" :x"]);
    assert_eq!(validate_task(&mut task, "").invalid_link, Some(" :x".to_string()));
    task.links = vec![];
    let r = validate_task(&mut task, "znote: task/v1/");
    assert_eq!(r.fixes, vec![Fix::ItemTagFixed]);
    assert_eq!(task.items[0].tags, strings(&["#t1"]));
}

#[test]
fn validation_summary() {
    assert_eq!(summarize(0, 0), Ok(Outcome::NoFiles));
    assert_eq!(summarize(3, 0), Ok(Outcome::AllValid(3)));
    assert_eq!(summarize(3, 1), Err(ValidationFailed { invalid: 1, total: 3 }));
}

#[test]
fn delete_paths_per_kind() {
    let names = strings(&["b1.md", "b2.md"]);
    assert_eq!(delete_bookmark("/d", &names, "b1", true), Ok("/d/bookmarks/b1.md".to_string()));
    assert_eq!(delete_task("/d/", &names, "b2", true), Ok("/d/tasks/b2.md".to_string()));
    assert_eq!(delete_task("/d", &names, "b", false), Err(StorageError::Ambiguous("b".into())));
}

#[test]
fn optional_tag_and_link_lists() {
    assert_eq!(tags_from(&Some("rust, #web".to_string())), strings(&["#rust", "#web"]));
    assert!(tags_from(&None).is_empty());
    assert_eq!(links_from(&Some("#parent:abc child:def".to_string())), strings(&["parent:abc", "child:def"]));
    assert!(links_from(&None).is_empty());
}

#[test]
fn checking_moves_progress_and_undoing_restores() {
    let mut task = Task::new("T".into(), vec![]);
    task.add_item("a".into(), vec![]);
    task.add_item("b".into(), strings(&["#x"]));
    let stamp = Timestamp { secs: 9, nanos: 0 };
    assert_eq!(progress(&task), (0, 2));
    item_check(&mut task, 2, true, stamp).unwrap();
    assert_eq!(progress(&task), (1, 2));
    item_check(&mut task, 2, true, stamp).unwrap();
    assert_eq!(progress(&task), (1, 2));
    item_check(&mut task, 2, false, stamp).unwrap();
    assert_eq!(progress(&task), (0, 2));
    assert!(!task.items[1].completed);
    assert_eq!(task.items[1].tags, strings(&["#x"]));
    assert_eq!(task.updated_at, stamp);
}

#[test]
fn validation_flags_a_rule_and_blank_line_in_the_body_each_time() {
    let mut note = Note::new("n".into(), "a\n---\n\nb".into(), strings(&["#ok"]));
    let raw = format!("---\nznote: note/v1/{}\n---\na\n---\n\nb", note.id);
    assert_eq!(validate_note(&mut note, &raw).fixes, vec![Fix::EmptyLinesRemoved]);
    assert_eq!(validate_note(&mut note, &raw).fixes, vec![Fix::EmptyLinesRemoved]);
}
