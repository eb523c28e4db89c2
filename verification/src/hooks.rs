//! Lifecycle hooks: shell scripts in `<data_dir>/hooks/` named after the
//! event, run around adds, edits, saves, deletes, views and validations.
//! A `before_*` hook that fails aborts the operation; an `after_*` hook's
//! exit status is ignored.
//!
//! This module decides which script a hook is, what it is told through its
//! environment and what its exit status means; the application runs it.

use vstd::prelude::*;

use crate::storage::{join_path, path_join};
use crate::text::{concat, own, starts_with};

verus! {

/// All lifecycle hook events.
#[derive(Debug, Clone, Copy, PartialEq, Eq, Structural)]
pub enum HookEvent {
    BeforeAdd,
    AfterAdd,
    BeforeEdit,
    AfterEdit,
    BeforeSave,
    AfterSave,
    BeforeDelete,
    AfterDelete,
    BeforeView,
    AfterView,
    BeforeValidate,
    AfterValidate,
}

impl HookEvent {
    /// The event's name: `before_add`, `after_add`, and so on.
    pub open spec fn name(self) -> Seq<char> {
        match self {
            HookEvent::BeforeAdd => "before_add"@,
            HookEvent::AfterAdd => "after_add"@,
            HookEvent::BeforeEdit => "before_edit"@,
            HookEvent::AfterEdit => "after_edit"@,
            HookEvent::BeforeSave => "before_save"@,
            HookEvent::AfterSave => "after_save"@,
            HookEvent::BeforeDelete => "before_delete"@,
            HookEvent::AfterDelete => "after_delete"@,
            HookEvent::BeforeView => "before_view"@,
            HookEvent::AfterView => "after_view"@,
            HookEvent::BeforeValidate => "before_validate"@,
            HookEvent::AfterValidate => "after_validate"@,
        }
    }

    /// The `before_*` events, whose hooks can abort the operation.
    pub open spec fn blocking(self) -> bool {
        match self {
            HookEvent::BeforeAdd | HookEvent::BeforeEdit | HookEvent::BeforeSave
            | HookEvent::BeforeDelete | HookEvent::BeforeView | HookEvent::BeforeValidate => true,
            _ => false,
        }
    }

    /// The event's name.
    pub fn as_str(self) -> (s: &'static str)
        ensures
            s@ == self.name(),
    {
        match self {
            HookEvent::BeforeAdd => "before_add",
            HookEvent::AfterAdd => "after_add",
            HookEvent::BeforeEdit => "before_edit",
            HookEvent::AfterEdit => "after_edit",
            HookEvent::BeforeSave => "before_save",
            HookEvent::AfterSave => "after_save",
            HookEvent::BeforeDelete => "before_delete",
            HookEvent::AfterDelete => "after_delete",
            HookEvent::BeforeView => "before_view",
            HookEvent::AfterView => "after_view",
            HookEvent::BeforeValidate => "before_validate",
            HookEvent::AfterValidate => "after_validate",
        }
    }

    /// `before_*` hooks abort the operation on a non-zero exit.
    pub fn is_blocking(self) -> (b: bool)
        ensures
            b == self.blocking(),
    {
        match self {
            HookEvent::BeforeAdd | HookEvent::BeforeEdit | HookEvent::BeforeSave
            | HookEvent::BeforeDelete | HookEvent::BeforeView | HookEvent::BeforeValidate => true,
            _ => false,
        }
    }
}

/// What a hook is told about the entity concerned.
#[derive(Debug)]
pub struct HookContext<'a> {
    /// `note`, `bookmark` or `task`; empty for validation.
    pub entity_type: &'a str,
    pub id: Option<&'a str>,
    pub title: Option<&'a str>,
    /// Absolute path of the entity's file, when it exists.
    pub path: Option<&'a str>,
    /// Content of the entity before the operation.
    pub old_content: Option<&'a str>,
    /// Content of the entity after the operation (or what will be written).
    pub new_content: Option<&'a str>,
}

/// The hooks directory: `<data_dir>/hooks`.
pub fn hooks_dir(data_dir: &str) -> (r: String)
    ensures
        r@ == path_join(data_dir@, "hooks"@),
{
    join_path(data_dir, "hooks")
}

/// The script of an event's hook: `<data_dir>/hooks/<event>.sh`.
pub fn hook_script(data_dir: &str, event: HookEvent) -> (r: String)
    ensures
        r@ == path_join(path_join(data_dir@, "hooks"@), event.name() + ".sh"@),
{
    let dir = hooks_dir(data_dir);
    let file = concat(event.as_str(), ".sh");
    join_path(dir.as_str(), file.as_str())
}

/// The text of an optional value, empty when absent.
pub open spec fn or_empty(o: Option<&str>) -> Seq<char> {
    match o {
        Some(s) => s@,
        None => Seq::empty(),
    }
}

/// The environment of a hook: `ZNOTE_EVENT`, `ZNOTE_TYPE`, `ZNOTE_ID`,
/// `ZNOTE_TITLE`, `ZNOTE_PATH` and `ZNOTE_DATA_DIR` (absent values empty),
/// then `ZNOTE_OLD_PATH` and `ZNOTE_NEW_PATH` where the old and new
/// content were written to temporary files.
pub open spec fn spec_hook_env(
    event: HookEvent,
    ctx: HookContext,
    data_dir: Seq<char>,
    old_path: Option<&str>,
    new_path: Option<&str>,
) -> Seq<(Seq<char>, Seq<char>)> {
    seq![
        ("ZNOTE_EVENT"@, event.name()),
        ("ZNOTE_TYPE"@, ctx.entity_type@),
        ("ZNOTE_ID"@, or_empty(ctx.id)),
        ("ZNOTE_TITLE"@, or_empty(ctx.title)),
        ("ZNOTE_PATH"@, or_empty(ctx.path)),
        ("ZNOTE_DATA_DIR"@, data_dir),
    ] + match old_path {
        Some(p) => seq![("ZNOTE_OLD_PATH"@, p@)],
        None => Seq::empty(),
    } + match new_path {
        Some(p) => seq![("ZNOTE_NEW_PATH"@, p@)],
        None => Seq::empty(),
    }
}

/// The models of a list of variable settings.
pub open spec fn pair_views(v: Seq<(String, String)>) -> Seq<(Seq<char>, Seq<char>)> {
    v.map_values(|p: (String, String)| (p.0@, p.1@))
}

/// The text of an optional value, empty when absent.
fn or_empty_exec(o: Option<&str>) -> (r: String)
    ensures
        r@ == or_empty(o),
{
    match o {
        Some(s) => own(s),
        None => String::new(),
    }
}

/// An absolute path: one that starts at the root, `/`.
pub open spec fn is_absolute(p: Seq<char>) -> bool {
    p.len() > 0 && p[0] == '/'
}

/// The environment variables a hook script runs with (see
/// [`spec_hook_env`]). The data directory and the entity's path are
/// handed over as absolute paths, so a hook finds them wherever it runs.
pub fn hook_env(
    event: HookEvent,
    ctx: &HookContext,
    data_dir: &str,
    old_path: Option<&str>,
    new_path: Option<&str>,
) -> (r: Vec<(String, String)>)
    requires
        is_absolute(data_dir@),
        ctx.path matches Some(p) ==> is_absolute(p@),
    ensures
        pair_views(r@) == spec_hook_env(event, *ctx, data_dir@, old_path, new_path),
        r@.len() >= 6,
        r@[4].0@ == "ZNOTE_PATH"@,
        ctx.path is Some ==> is_absolute(r@[4].1@),
        ctx.path is None ==> r@[4].1@.len() == 0,
        r@[5].0@ == "ZNOTE_DATA_DIR"@,
        is_absolute(r@[5].1@),
{
    let mut r: Vec<(String, String)> = Vec::new();
    r.push((own("ZNOTE_EVENT"), own(event.as_str())));
    r.push((own("ZNOTE_TYPE"), own(ctx.entity_type)));
    r.push((own("ZNOTE_ID"), or_empty_exec(ctx.id)));
    r.push((own("ZNOTE_TITLE"), or_empty_exec(ctx.title)));
    r.push((own("ZNOTE_PATH"), or_empty_exec(ctx.path)));
    r.push((own("ZNOTE_DATA_DIR"), own(data_dir)));
    match old_path {
        Some(p) => r.push((own("ZNOTE_OLD_PATH"), own(p))),
        None => {},
    }
    match new_path {
        Some(p) => r.push((own("ZNOTE_NEW_PATH"), own(p))),
        None => {},
    }
    assert(pair_views(r@) =~= spec_hook_env(event, *ctx, data_dir@, old_path, new_path));
    assert(pair_views(r@)[4] == (r@[4].0@, r@[4].1@));
    assert(pair_views(r@)[5] == (r@[5].0@, r@[5].1@));
    r
}

/// A blocking hook that failed, aborting the operation: its event and exit
/// code (absent when it was killed by a signal).
#[derive(Debug, Clone, Copy, PartialEq, Eq, Structural)]
pub struct HookAborted {
    pub event: HookEvent,
    pub code: Option<i32>,
}

/// What a hook's exit means: an abort when a `before_*` hook did not
/// succeed; nothing otherwise.
pub fn hook_outcome(event: HookEvent, success: bool, code: Option<i32>) -> (r: Result<(), HookAborted>)
    ensures
        r is Err <==> event.blocking() && !success,
        r matches Err(e) ==> e.event == event && e.code == code,
{
    if event.is_blocking() && !success {
        Err(HookAborted { event, code })
    } else {
        Ok(())
    }
}


/// Law: exactly the `before_*` hooks can abort an operation.
pub proof fn law_blocking_is_before(event: HookEvent)
    ensures
        event.blocking() <==> starts_with(event.name(), "before_"@),
{
    reveal_strlit("before_");
    match event {
        HookEvent::BeforeAdd => reveal_strlit("before_add"),
        HookEvent::AfterAdd => {
            reveal_strlit("after_add");
            assert("after_add"@[0] != "before_"@[0]);
        },
        HookEvent::BeforeEdit => reveal_strlit("before_edit"),
        HookEvent::AfterEdit => {
            reveal_strlit("after_edit");
            assert("after_edit"@[0] != "before_"@[0]);
        },
        HookEvent::BeforeSave => reveal_strlit("before_save"),
        HookEvent::AfterSave => {
            reveal_strlit("after_save");
            assert("after_save"@[0] != "before_"@[0]);
        },
        HookEvent::BeforeDelete => reveal_strlit("before_delete"),
        HookEvent::AfterDelete => {
            reveal_strlit("after_delete");
            assert("after_delete"@[0] != "before_"@[0]);
        },
        HookEvent::BeforeView => reveal_strlit("before_view"),
        HookEvent::AfterView => {
            reveal_strlit("after_view");
            assert("after_view"@[0] != "before_"@[0]);
        },
        HookEvent::BeforeValidate => reveal_strlit("before_validate"),
        HookEvent::AfterValidate => {
            reveal_strlit("after_validate");
            assert("after_validate"@[0] != "before_"@[0]);
        },
    }
    let n = event.name();
    if event.blocking() {
        assert(n.take(7) =~= "before_"@);
    } else {
        assert(n.take(7)[0] == n[0]);
    }
}

} // verus!
