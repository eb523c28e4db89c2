use znote::hooks::{HookAborted, HookContext, HookEvent, hook_env, hook_outcome, hook_script, hooks_dir};

#[test]
fn test_hook_event_is_blocking() {
    assert!(HookEvent::BeforeSave.is_blocking());
    assert!(HookEvent::BeforeDelete.is_blocking());
    assert!(!HookEvent::AfterSave.is_blocking());
    assert!(!HookEvent::AfterDelete.is_blocking());
}

#[test]
fn hook_names_and_scripts() {
    assert_eq!(HookEvent::BeforeValidate.as_str(), "before_validate");
    assert_eq!(HookEvent::AfterView.as_str(), "after_view");
    assert_eq!(hooks_dir("/data"), "/data/hooks");
    assert_eq!(hooks_dir("/data/"), "/data/hooks");
    assert_eq!(hook_script("/data", HookEvent::BeforeSave), "/data/hooks/before_save.sh");
}

#[test]
fn hook_environment() {
    let ctx = HookContext {
        entity_type: "note",
        id: Some("abc"),
        title: Some("Test"),
        path: None,
        old_content: Some("old content"),
        new_content: Some("new content"),
    };
    let env = hook_env(HookEvent::AfterSave, &ctx, "/data", Some("/tmp/old.md"), Some("/tmp/new.md"));
    let pairs: Vec<(&str, &str)> = env.iter().map(|(k, v)| (k.as_str(), v.as_str())).collect();
    assert_eq!(
        pairs,
        vec![
            ("ZNOTE_EVENT", "after_save"),
            ("ZNOTE_TYPE", "note"),
            ("ZNOTE_ID", "abc"),
            ("ZNOTE_TITLE", "Test"),
            ("ZNOTE_PATH", ""),
            ("ZNOTE_DATA_DIR", "/data"),
            ("ZNOTE_OLD_PATH", "/tmp/old.md"),
            ("ZNOTE_NEW_PATH", "/tmp/new.md"),
        ]
    );
    let bare = HookContext { entity_type: "", id: None, title: None, path: None, old_content: None, new_content: None };
    assert_eq!(hook_env(HookEvent::BeforeValidate, &bare, "/d", None, None).len(), 6);
}

#[test]
fn hook_outcomes() {
    assert_eq!(hook_outcome(HookEvent::BeforeSave, true, Some(0)), Ok(()));
    assert_eq!(
        hook_outcome(HookEvent::BeforeSave, false, Some(1)),
        Err(HookAborted { event: HookEvent::BeforeSave, code: Some(1) })
    );
    assert_eq!(hook_outcome(HookEvent::AfterSave, false, Some(42)), Ok(()));
}

#[test]
fn hook_environment_paths_are_absolute() {
    let ctx = HookContext {
        entity_type: "task",
        id: Some("0123abcd-0000-4000-8000-000000000000"),
        title: None,
        path: Some("/home/u/.znote/tasks/0123abcd-0000-4000-8000-000000000000.md"),
        old_content: None,
        new_content: None,
    };
    let env = hook_env(HookEvent::BeforeDelete, &ctx, "/home/u/.znote", None, None);
    assert_eq!(env.len(), 6);
    assert_eq!(env[2], ("ZNOTE_ID".to_string(), "0123abcd-0000-4000-8000-000000000000".to_string()));
    assert_eq!(env[3], ("ZNOTE_TITLE".to_string(), String::new()));
    assert_eq!(
        env[4],
        ("ZNOTE_PATH".to_string(), "/home/u/.znote/tasks/0123abcd-0000-4000-8000-000000000000.md".to_string())
    );
    assert_eq!(env[5], ("ZNOTE_DATA_DIR".to_string(), "/home/u/.znote".to_string()));
    assert!(env.iter().all(|(k, v)| !(k == "ZNOTE_PATH" || k == "ZNOTE_DATA_DIR") || v.starts_with('/')));
}
