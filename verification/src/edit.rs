//! What the note, bookmark and task commands do to an entity: reading tag
//! and link lists from the command line, applying updates, and managing a
//! task's checklist. The application loads the entity, calls these, saves
//! it and reports.

use vstd::prelude::*;

use crate::commands::{ItemAddArgs, ItemUpdateArgs, UpdateArgs};
use crate::models::{Bookmark, EntityKind, Entry, Note, SEntry, SItem, Task, TaskItem, Timestamp, entry_views, item_views};
use crate::storage::{SStorageError, StorageError, get_path, join_path, path_join, spec_get_path};
use crate::text::{
    Sep, byte_prefix, byte_prefix_exec, chars_of, concat, copy, fields, fits_or_boundary, opt_view,
    own, starts_with, str_fields, str_starts_with, string_of, utf8_len, views,
};
use crate::validate::{fix_tag, fixed_tags};

verus! {

// ---------------------------------------------------------------------------
// Tags and links from the command line
// ---------------------------------------------------------------------------

/// The tags in a list separated by commas or whitespace, each with a
/// leading `#`.
pub open spec fn spec_parse_tags(raw: Seq<char>) -> Seq<Seq<char>> {
    fixed_tags(fields(raw, Sep::WhitespaceOrComma))
}

/// A link without the one `#` that tag parsing put before it.
pub open spec fn strip_hash(l: Seq<char>) -> Seq<char> {
    if starts_with(l, "#"@) {
        l.skip(1)
    } else {
        l
    }
}

/// The links in a list separated by commas or whitespace: read as tags,
/// then each without its leading `#`.
pub open spec fn spec_parse_links(raw: Seq<char>) -> Seq<Seq<char>> {
    spec_parse_tags(raw).map_values(|l: Seq<char>| strip_hash(l))
}

/// Reads a list of tags separated by commas or whitespace, giving each a
/// leading `#`.
pub fn parse_tags(raw: &str) -> (r: Vec<String>)
    ensures
        views(r@) == spec_parse_tags(raw@),
{
    let ws = str_fields(raw, Sep::WhitespaceOrComma);
    let mut r: Vec<String> = Vec::new();
    let mut i: usize = 0;
    while i < ws.len()
        invariant
            i <= ws.len(),
            views(r@) == fixed_tags(views(ws@).take(i as int)),
        decreases ws.len() - i,
    {
        let t = if str_starts_with(ws[i].as_str(), "#") {
            copy(&ws[i])
        } else {
            concat("#", ws[i].as_str())
        };
        let ghost before = views(r@);
        r.push(t);
        assert(views(r@) =~= before.push(fix_tag(ws@[i as int]@)));
        assert(views(ws@).take(i + 1) =~= views(ws@).take(i as int).push(ws@[i as int]@));
        assert(views(r@) =~= fixed_tags(views(ws@).take(i + 1)));
        i = i + 1;
    }
    assert(views(ws@).take(ws.len() as int) =~= views(ws@));
    r
}

/// Reads a list of links separated by commas or whitespace (see
/// [`spec_parse_links`]).
pub fn parse_links(raw: &str) -> (r: Vec<String>)
    ensures
        views(r@) == spec_parse_links(raw@),
{
    let tags = parse_tags(raw);
    proof {
        reveal_strlit("#");
    }
    let mut r: Vec<String> = Vec::new();
    let mut i: usize = 0;
    while i < tags.len()
        invariant
            i <= tags.len(),
            views(r@) == views(tags@).take(i as int).map_values(|l: Seq<char>| strip_hash(l)),
        decreases tags.len() - i,
    {
        proof {
            reveal_strlit("#");
        }
        let l = if str_starts_with(tags[i].as_str(), "#") {
            let v = chars_of(tags[i].as_str());
            let s = string_of(&v, 1, v.len());
            assert(s@ =~= tags@[i as int]@.skip(1));
            s
        } else {
            copy(&tags[i])
        };
        let ghost before = views(r@);
        r.push(l);
        assert(views(r@) =~= before.push(strip_hash(tags@[i as int]@)));
        assert(views(tags@).take(i + 1) =~= views(tags@).take(i as int).push(tags@[i as int]@));
        assert(views(r@) =~= views(tags@).take(i + 1).map_values(|l: Seq<char>| strip_hash(l)));
        i = i + 1;
    }
    assert(views(tags@).take(tags.len() as int) =~= views(tags@));
    r
}

/// The tags given by an optional list: none when absent.
pub open spec fn tags_of(raw: Option<String>) -> Seq<Seq<char>> {
    match raw {
        Some(t) => spec_parse_tags(t@),
        None => Seq::empty(),
    }
}

/// The links given by an optional list: none when absent.
pub open spec fn links_of(raw: Option<String>) -> Seq<Seq<char>> {
    match raw {
        Some(t) => spec_parse_links(t@),
        None => Seq::empty(),
    }
}

/// The tags of an optional list.
pub fn tags_from(raw: &Option<String>) -> (r: Vec<String>)
    ensures
        views(r@) == tags_of(*raw),
{
    match raw {
        Some(t) => parse_tags(t.as_str()),
        None => {
            let r: Vec<String> = Vec::new();
            assert(views(r@) =~= Seq::<Seq<char>>::empty());
            r
        },
    }
}

/// The links of an optional list.
pub fn links_from(raw: &Option<String>) -> (r: Vec<String>)
    ensures
        views(r@) == links_of(*raw),
{
    match raw {
        Some(t) => parse_links(t.as_str()),
        None => {
            let r: Vec<String> = Vec::new();
            assert(views(r@) =~= Seq::<Seq<char>>::empty());
            r
        },
    }
}

// ---------------------------------------------------------------------------
// Updates
// ---------------------------------------------------------------------------

/// `new` when given, else `old`.
pub open spec fn or_keep(new: Option<String>, old: Seq<char>) -> Seq<char> {
    match new {
        Some(s) => s@,
        None => old,
    }
}

/// `parse_tags(new)` when given, else `old`.
pub open spec fn tags_or_keep(new: Option<String>, old: Seq<Seq<char>>) -> Seq<Seq<char>> {
    match new {
        Some(s) => spec_parse_tags(s@),
        None => old,
    }
}

/// `parse_links(new)` when given, else `old`.
pub open spec fn links_or_keep(new: Option<String>, old: Seq<Seq<char>>) -> Seq<Seq<char>> {
    match new {
        Some(s) => spec_parse_links(s@),
        None => old,
    }
}

/// Applies an update to a note: the title, content, tags and links given
/// replace the old ones, and `updated_at` becomes `now`.
pub fn update_note(note: &mut Note, args: &UpdateArgs, now: Timestamp)
    ensures
        final(note).title@ == or_keep(args.title, old(note).title@),
        final(note).content@ == or_keep(args.content, old(note).content@),
        views(final(note).tags@) == tags_or_keep(args.tags, views(old(note).tags@)),
        views(final(note).links@) == links_or_keep(args.links, views(old(note).links@)),
        final(note).updated_at == now,
        final(note).id == old(note).id,
        final(note).created_at == old(note).created_at,
{
    match &args.title {
        Some(t) => note.title = copy(t),
        None => {},
    }
    match &args.content {
        Some(c) => note.content = copy(c),
        None => {},
    }
    match &args.tags {
        Some(t) => note.tags = parse_tags(t.as_str()),
        None => {},
    }
    match &args.links {
        Some(l) => note.links = parse_links(l.as_str()),
        None => {},
    }
    note.updated_at = now;
}

/// Applies an update to a bookmark: the title, URL, tags and links given
/// replace the old ones; `description` is the new description text when
/// one was given (already read from standard input where the argument was
/// `-`), an empty one removing it; `updated_at` becomes `now`.
pub fn update_bookmark(bm: &mut Bookmark, args: &UpdateArgs, description: Option<String>, now: Timestamp)
    ensures
        final(bm).title@ == or_keep(args.title, old(bm).title@),
        final(bm).url@ == or_keep(args.url, old(bm).url@),
        opt_view(final(bm).description) == match description {
            Some(d) => if d@.len() == 0 {
                None
            } else {
                Some(d@)
            },
            None => opt_view(old(bm).description),
        },
        views(final(bm).tags@) == tags_or_keep(args.tags, views(old(bm).tags@)),
        views(final(bm).links@) == links_or_keep(args.links, views(old(bm).links@)),
        final(bm).updated_at == now,
        final(bm).id == old(bm).id,
        final(bm).created_at == old(bm).created_at,
{
    match &args.title {
        Some(t) => bm.title = copy(t),
        None => {},
    }
    match &args.url {
        Some(u) => bm.url = copy(u),
        None => {},
    }
    match description {
        Some(d) => {
            bm.description = if d.as_str().is_empty() {
                None
            } else {
                Some(d)
            };
        },
        None => {},
    }
    match &args.tags {
        Some(t) => bm.tags = parse_tags(t.as_str()),
        None => {},
    }
    match &args.links {
        Some(l) => bm.links = parse_links(l.as_str()),
        None => {},
    }
    bm.updated_at = now;
}

/// Applies an update to a task: the title, tags and links given replace
/// the old ones (content and URL do not apply to tasks), and `updated_at`
/// becomes `now`.
pub fn update_task(task: &mut Task, args: &UpdateArgs, now: Timestamp)
    ensures
        final(task).title@ == or_keep(args.title, old(task).title@),
        views(final(task).tags@) == tags_or_keep(args.tags, views(old(task).tags@)),
        views(final(task).links@) == links_or_keep(args.links, views(old(task).links@)),
        final(task).updated_at == now,
        final(task).id == old(task).id,
        final(task).description == old(task).description,
        final(task).items == old(task).items,
        final(task).created_at == old(task).created_at,
{
    match &args.title {
        Some(t) => task.title = copy(t),
        None => {},
    }
    match &args.tags {
        Some(t) => task.tags = parse_tags(t.as_str()),
        None => {},
    }
    match &args.links {
        Some(l) => task.links = parse_links(l.as_str()),
        None => {},
    }
    task.updated_at = now;
}

// ---------------------------------------------------------------------------
// Checklist items
// ---------------------------------------------------------------------------

/// An item index outside the checklist: the index, the task's title and
/// how many items it has.
#[derive(Debug)]
pub struct IndexOutOfRange {
    pub index: usize,
    pub title: String,
    pub count: usize,
}

/// The 0-based position of the 1-based item `index` of `task`; an error
/// when there is no such item.
pub fn resolve_index(task: &Task, index: usize) -> (r: Result<usize, IndexOutOfRange>)
    ensures
        (index == 0 || index > task.items.len()) <==> r is Err,
        r matches Ok(i) ==> i == index - 1,
        r matches Err(e) ==> e.index == index && e.title@ == task.title@ && e.count == task.items.len(),
{
    if index == 0 || index > task.items.len() {
        Err(IndexOutOfRange { index, title: copy(&task.title), count: task.items.len() })
    } else {
        Ok(index - 1)
    }
}

/// Adds an open item with the given text and tags to the end of the
/// checklist; returns how many items there are now.
pub fn item_add(task: &mut Task, args: &ItemAddArgs) -> (n: usize)
    requires
        old(task).items.len() < usize::MAX,
    ensures
        item_views(final(task).items@) == item_views(old(task).items@).push(
            SItem { text: args.text@, completed: false, tags: tags_of(args.tags) },
        ),
        n == final(task).items.len(),
        final(task).id == old(task).id,
        final(task).title == old(task).title,
        final(task).description == old(task).description,
        final(task).tags == old(task).tags,
        final(task).links == old(task).links,
        final(task).created_at == old(task).created_at,
{
    let tags = tags_from(&args.tags);
    task.add_item(copy(&args.text), tags);
    task.items.len()
}

/// Marks item `index` (1-based) done or not done and sets `updated_at`.
pub fn item_check(task: &mut Task, index: usize, done: bool, now: Timestamp) -> (r: Result<(), IndexOutOfRange>)
    ensures
        (index == 0 || index > old(task).items.len()) <==> r is Err,
        r is Err ==> *final(task) == *old(task),
        r is Ok ==> {
            &&& item_views(final(task).items@) == item_views(old(task).items@).update(
                index - 1,
                SItem { completed: done, ..old(task).items@[index - 1]@ },
            )
            &&& final(task).updated_at == now
            &&& final(task).id == old(task).id
            &&& final(task).title == old(task).title
            &&& final(task).description == old(task).description
            &&& final(task).tags == old(task).tags
            &&& final(task).links == old(task).links
            &&& final(task).created_at == old(task).created_at
        },
{
    let idx = match resolve_index(task, index) {
        Ok(i) => i,
        Err(e) => {
            return Err(e);
        },
    };
    let ghost before = item_views(task.items@);
    let mut it = task.items.remove(idx);
    it.completed = done;
    let ghost nv = it@;
    task.items.insert(idx, it);
    assert(item_views(task.items@) =~= before.update(idx as int, nv));
    task.updated_at = now;
    Ok(())
}

/// Changes the text and, when given, the tags of item `index` (1-based)
/// and sets `updated_at`.
pub fn item_update(task: &mut Task, args: &ItemUpdateArgs, now: Timestamp) -> (r: Result<(), IndexOutOfRange>)
    ensures
        (args.index == 0 || args.index > old(task).items.len()) <==> r is Err,
        r is Err ==> *final(task) == *old(task),
        r is Ok ==> {
            let old_item = old(task).items@[args.index - 1]@;
            &&& item_views(final(task).items@) == item_views(old(task).items@).update(
                args.index - 1,
                SItem {
                    text: or_keep(args.text, old_item.text),
                    tags: tags_or_keep(args.tags, old_item.tags),
                    ..old_item
                },
            )
            &&& final(task).updated_at == now
            &&& final(task).id == old(task).id
            &&& final(task).title == old(task).title
            &&& final(task).description == old(task).description
            &&& final(task).tags == old(task).tags
            &&& final(task).links == old(task).links
            &&& final(task).created_at == old(task).created_at
        },
{
    let idx = match resolve_index(task, args.index) {
        Ok(i) => i,
        Err(e) => {
            return Err(e);
        },
    };
    let ghost before = item_views(task.items@);
    let mut it = task.items.remove(idx);
    match &args.text {
        Some(t) => it.text = copy(t),
        None => {},
    }
    match &args.tags {
        Some(t) => it.tags = parse_tags(t.as_str()),
        None => {},
    }
    let ghost nv = it@;
    task.items.insert(idx, it);
    assert(item_views(task.items@) =~= before.update(idx as int, nv));
    task.updated_at = now;
    Ok(())
}

/// Removes item `index` (1-based), sets `updated_at` and returns the item.
pub fn item_remove(task: &mut Task, index: usize, now: Timestamp) -> (r: Result<TaskItem, IndexOutOfRange>)
    ensures
        (index == 0 || index > old(task).items.len()) <==> r is Err,
        r is Err ==> *final(task) == *old(task),
        r matches Ok(it) ==> {
            &&& it@ == old(task).items@[index - 1]@
            &&& item_views(final(task).items@) == item_views(old(task).items@).remove(index - 1)
            &&& final(task).updated_at == now
            &&& final(task).id == old(task).id
            &&& final(task).title == old(task).title
            &&& final(task).description == old(task).description
            &&& final(task).tags == old(task).tags
            &&& final(task).links == old(task).links
            &&& final(task).created_at == old(task).created_at
        },
{
    let idx = match resolve_index(task, index) {
        Ok(i) => i,
        Err(e) => {
            return Err(e);
        },
    };
    let ghost before = item_views(task.items@);
    let it = task.items.remove(idx);
    assert(item_views(task.items@) =~= before.remove(idx as int));
    task.updated_at = now;
    Ok(it)
}

/// The number of items done among `items`.
pub open spec fn done_count(items: Seq<SItem>) -> nat
    decreases items.len(),
{
    if items.len() == 0 {
        0
    } else {
        done_count(items.drop_last()) + if items.last().completed {
            1nat
        } else {
            0nat
        }
    }
}

/// How far a task is: the number of items done and the number of items.
pub fn progress(task: &Task) -> (r: (usize, usize))
    ensures
        r.0 == done_count(item_views(task.items@)),
        r.1 == task.items.len(),
{
    let ghost iv = item_views(task.items@);
    let mut done: usize = 0;
    let mut i: usize = 0;
    while i < task.items.len()
        invariant
            i <= task.items.len(),
            iv == item_views(task.items@),
            done == done_count(iv.take(i as int)),
            done <= i,
        decreases task.items.len() - i,
    {
        assert(iv.take(i + 1).drop_last() =~= iv.take(i as int));
        assert(iv.take(i + 1).last() == task.items@[i as int]@);
        if task.items[i].completed {
            done = done + 1;
        }
        i = i + 1;
    }
    assert(iv.take(task.items.len() as int) =~= iv);
    (done, task.items.len())
}

// ---------------------------------------------------------------------------
// Files and storage
// ---------------------------------------------------------------------------

/// The file that deleting the note `id` (a prefix) removes, among the files
/// `names` of the notes directory, given whether `<id>.md` exists there.
pub fn delete_note(data_dir: &str, names: &Vec<String>, id: &str, exact: bool) -> (r: Result<String, StorageError>)
    ensures
        match r {
            Ok(p) => spec_get_path(data_dir@, "notes"@, views(names@), id@, exact) == Ok::<Seq<char>, SStorageError>(p@),
            Err(e) => spec_get_path(data_dir@, "notes"@, views(names@), id@, exact) == Err::<Seq<char>, SStorageError>(e@),
        },
{
    get_path(data_dir, "notes", id, names, exact)
}

/// The file that deleting the bookmark `id` (a prefix) removes.
pub fn delete_bookmark(data_dir: &str, names: &Vec<String>, id: &str, exact: bool) -> (r: Result<String, StorageError>)
    ensures
        match r {
            Ok(p) => spec_get_path(data_dir@, "bookmarks"@, views(names@), id@, exact) == Ok::<Seq<char>, SStorageError>(p@),
            Err(e) => spec_get_path(data_dir@, "bookmarks"@, views(names@), id@, exact) == Err::<Seq<char>, SStorageError>(e@),
        },
{
    get_path(data_dir, "bookmarks", id, names, exact)
}

/// The file that deleting the task `id` (a prefix) removes.
pub fn delete_task(data_dir: &str, names: &Vec<String>, id: &str, exact: bool) -> (r: Result<String, StorageError>)
    ensures
        match r {
            Ok(p) => spec_get_path(data_dir@, "tasks"@, views(names@), id@, exact) == Ok::<Seq<char>, SStorageError>(p@),
            Err(e) => spec_get_path(data_dir@, "tasks"@, views(names@), id@, exact) == Err::<Seq<char>, SStorageError>(e@),
        },
{
    get_path(data_dir, "tasks", id, names, exact)
}

/// Syncing needs the dolt storage backend.
#[derive(Debug, Clone, Copy, PartialEq, Eq, Structural)]
pub struct SyncUnsupported;

/// Whether a sync may run: only with the dolt backend.
pub fn sync(dolt_backend: bool) -> (r: Result<(), SyncUnsupported>)
    ensures
        r is Ok <==> dolt_backend,
{
    if dolt_backend {
        Ok(())
    } else {
        Err(SyncUnsupported)
    }
}

/// `$HOME` is needed to expand `~/` and is not set.
#[derive(Debug, Clone, Copy, PartialEq, Eq, Structural)]
pub struct HomeNotSet;

/// The data directory a command line names: a leading `~/` stands for the
/// home directory.
pub fn expand_data_dir(raw: &str, home: Option<&str>) -> (r: Result<String, HomeNotSet>)
    ensures
        !starts_with(raw@, "~/"@) ==> (r matches Ok(p) && p@ == raw@),
        starts_with(raw@, "~/"@) ==> match home {
            Some(h) => (r matches Ok(p) && p@ == path_join(h@, raw@.skip(2))),
            None => r is Err,
        },
{
    proof {
        reveal_strlit("~/");
    }
    if str_starts_with(raw, "~/") {
        match home {
            Some(h) => {
                let v = chars_of(raw);
                let rest = string_of(&v, 2, v.len());
                assert(rest@ =~= raw@.skip(2));
                Ok(join_path(h, rest.as_str()))
            },
            None => Err(HomeNotSet),
        }
    } else {
        Ok(own(raw))
    }
}

/// The first 8 bytes of `s` end on a character boundary.
pub open spec fn has_boundary_at_8(s: Seq<char>) -> bool {
    exists|k: int| 0 <= k <= s.len() && utf8_len(s.take(k)) == 8
}

/// The short ids completion offers for an entity type: the first 8 bytes
/// of the id of each stored entity of that type, in order; none for an
/// unknown type.
pub open spec fn completion_ids(es: Seq<SEntry>, entity: Seq<char>) -> Seq<Seq<char>>
    decreases es.len(),
{
    if es.len() == 0 {
        Seq::empty()
    } else {
        completion_ids(es.drop_last(), entity) + if es.last().kind.name() == entity {
            seq![byte_prefix(es.last().id, 8)]
        } else {
            Seq::empty()
        }
    }
}

/// The short ids of the stored entities of type `entity` (`note`,
/// `bookmark` or `task`), for shell completion.
pub fn complete_ids(entries: &Vec<Entry>, entity: &str) -> (r: Vec<String>)
    requires
        forall|i: int| 0 <= i < entries@.len() && #[trigger] entries@[i].kind.name() == entity@ ==> has_boundary_at_8(entries@[i].id@),
    ensures
        views(r@) == completion_ids(entry_views(entries@), entity@),
{
    let ghost ev = entry_views(entries@);
    let mut r: Vec<String> = Vec::new();
    let mut i: usize = 0;
    while i < entries.len()
        invariant
            i <= entries.len(),
            ev == entry_views(entries@),
            forall|j: int| 0 <= j < entries@.len() && #[trigger] entries@[j].kind.name() == entity@ ==> has_boundary_at_8(entries@[j].id@),
            views(r@) == completion_ids(ev.take(i as int), entity@),
        decreases entries.len() - i,
    {
        assert(ev.take(i + 1).drop_last() =~= ev.take(i as int));
        assert(ev.take(i + 1).last() == entries@[i as int]@);
        let e = &entries[i];
        if crate::text::str_eq(e.kind.as_str(), entity) {
            assert(entries@[i as int].kind.name() == entity@);
            let short = byte_prefix_exec(e.id.as_str(), 8);
            let ghost before = views(r@);
            r.push(short);
            assert(views(r@) =~= before.push(byte_prefix(e.id@, 8)));
        }
        assert(views(r@) =~= completion_ids(ev.take(i + 1), entity@));
        i = i + 1;
    }
    assert(ev.take(entries.len() as int) =~= ev);
    r
}


/// Law: every tag read from the command line starts with `#`.
pub proof fn law_parsed_tags_have_hash(raw: Seq<char>)
    ensures
        forall|i: int| 0 <= i < spec_parse_tags(raw).len() ==> starts_with(#[trigger] spec_parse_tags(raw)[i], "#"@),
{
    reveal_strlit("#");
    let ws = fields(raw, Sep::WhitespaceOrComma);
    assert forall|i: int| 0 <= i < spec_parse_tags(raw).len() implies starts_with(#[trigger] spec_parse_tags(raw)[i], "#"@) by {
        let w = ws[i];
        if !starts_with(w, "#"@) {
            assert(("#"@ + w).take(1) =~= "#"@);
        }
    }
}

/// Lemma: the done count is what the prefix before `k` gives, plus item
/// `k`, plus what follows.
proof fn lemma_done_count_split(items: Seq<SItem>, n: int)
    requires
        0 <= n <= items.len(),
    ensures
        done_count(items) == done_count(items.take(n)) + done_count(items.skip(n)),
    decreases items.len() - n,
{
    if n == items.len() {
        assert(items.take(n) =~= items);
        assert(items.skip(n) =~= Seq::<SItem>::empty());
    } else {
        lemma_done_count_split(items, n + 1);
        let t = items.take(n + 1);
        assert(t.drop_last() =~= items.take(n));
        lemma_done_count_first(items.skip(n));
        assert(items.skip(n).drop_first() =~= items.skip(n + 1));
        assert(items.skip(n)[0] == items[n]);
    }
}

/// Lemma: the done count of a non-empty list is that of its first item
/// and of the rest.
proof fn lemma_done_count_first(items: Seq<SItem>)
    requires
        items.len() > 0,
    ensures
        done_count(items) == (if items[0].completed { 1nat } else { 0nat }) + done_count(items.drop_first()),
    decreases items.len(),
{
    if items.len() > 1 {
        lemma_done_count_first(items.drop_last());
        assert(items.drop_last().drop_first() =~= items.drop_first().drop_last());
        assert(items.drop_last()[0] == items[0]);
        assert(items.drop_first().last() == items.last());
    } else {
        assert(items.drop_first() =~= Seq::<SItem>::empty());
        assert(items.drop_last() =~= Seq::<SItem>::empty());
    }
}

/// Law: checking an open item raises the number of items done by one,
/// unchecking a done item lowers it by one, checking a done item or
/// unchecking an open one leaves it; the number of items stays.
pub proof fn law_check_counts(items: Seq<SItem>, k: int, done: bool)
    requires
        0 <= k < items.len(),
    ensures
        ({
            let after = items.update(k, SItem { completed: done, ..items[k] });
            &&& after.len() == items.len()
            &&& done_count(after) + (if items[k].completed { 1int } else { 0int }) == done_count(items) + (if done { 1int } else { 0int })
        }),
{
    let after = items.update(k, SItem { completed: done, ..items[k] });
    lemma_done_count_split(items, k);
    lemma_done_count_split(after, k);
    assert(after.take(k) =~= items.take(k));
    lemma_done_count_first(items.skip(k));
    lemma_done_count_first(after.skip(k));
    assert(after.skip(k).drop_first() =~= items.skip(k).drop_first());
    assert(items.skip(k)[0] == items[k]);
    assert(after.skip(k)[0] == after[k]);
}

/// Law: checking or unchecking an item and then setting it back to what it
/// was leaves the checklist as it was.
pub proof fn law_check_undone(items: Seq<SItem>, k: int, done: bool)
    requires
        0 <= k < items.len(),
    ensures
        ({
            let after = items.update(k, SItem { completed: done, ..items[k] });
            after.update(k, SItem { completed: items[k].completed, ..after[k] }) == items
        }),
{
    let after = items.update(k, SItem { completed: done, ..items[k] });
    assert(after.update(k, SItem { completed: items[k].completed, ..after[k] }) =~= items);
}

} // verus!
