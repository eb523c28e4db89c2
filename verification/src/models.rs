//! The three kinds of entity (notes, bookmarks, tasks) and their creation.

use vstd::prelude::*;

use crate::text::{copy_all, views};

verus! {

/// A point in time, UTC: seconds since the Unix epoch and the nanoseconds
/// within that second.
#[derive(Debug, Clone, Copy, PartialEq, Eq)]
pub struct Timestamp {
    pub secs: i64,
    pub nanos: u32,
}

/// `a` is strictly earlier than `b`.
pub open spec fn spec_earlier(a: Timestamp, b: Timestamp) -> bool {
    a.secs < b.secs || (a.secs == b.secs && a.nanos < b.nanos)
}

impl Timestamp {
    /// `self` is strictly earlier than `other`.
    pub fn earlier_than(&self, other: &Timestamp) -> (r: bool)
        ensures
            r == spec_earlier(*self, *other),
    {
        self.secs < other.secs || (self.secs == other.secs && self.nanos < other.nanos)
    }
}

/// The current time (`chrono::Utc::now`). It depends on the clock: nothing
/// is stated of it.
#[verifier::external_body]
pub fn now() -> (t: Timestamp) {
    let n = chrono::Utc::now();
    Timestamp { secs: n.timestamp(), nanos: n.timestamp_subsec_nanos() }
}

/// A lower-case hexadecimal digit.
pub open spec fn is_lower_hex(c: char) -> bool {
    ('0' <= c && c <= '9') || ('a' <= c && c <= 'f')
}

/// The shape of a hyphenated UUID: 36 characters, `-` at positions 8, 13, 18
/// and 23, lower-case hexadecimal digits elsewhere.
pub open spec fn is_uuid_text(s: Seq<char>) -> bool {
    &&& s.len() == 36
    &&& forall|i: int|
        0 <= i < 36 ==> if i == 8 || i == 13 || i == 18 || i == 23 {
            s[i] == '-'
        } else {
            is_lower_hex(s[i])
        }
}

/// A fresh random version-4 UUID in hyphenated form
/// (`uuid::Uuid::new_v4().to_string()`). Which one depends on chance; its
/// shape is what uuid's `Display` writes.
#[verifier::external_body]
pub fn new_uuid() -> (s: String)
    ensures
        is_uuid_text(s@),
{
    uuid::Uuid::new_v4().to_string()
}

/// The three kinds of entity.
#[derive(Debug, Clone, Copy, PartialEq, Eq, Structural)]
pub enum EntityKind {
    Note,
    Bookmark,
    Task,
}

impl EntityKind {
    /// The kind's name: `note`, `bookmark` or `task`.
    pub open spec fn name(self) -> Seq<char> {
        match self {
            EntityKind::Note => "note"@,
            EntityKind::Bookmark => "bookmark"@,
            EntityKind::Task => "task"@,
        }
    }

    /// The directory that holds the kind's files: `notes`, `bookmarks` or
    /// `tasks`.
    pub open spec fn dir(self) -> Seq<char> {
        match self {
            EntityKind::Note => "notes"@,
            EntityKind::Bookmark => "bookmarks"@,
            EntityKind::Task => "tasks"@,
        }
    }

    /// The kind's name.
    pub fn as_str(&self) -> (s: &'static str)
        ensures
            s@ == self.name(),
    {
        match self {
            EntityKind::Note => "note",
            EntityKind::Bookmark => "bookmark",
            EntityKind::Task => "task",
        }
    }

    /// The kind's directory name.
    pub fn dir_name(&self) -> (s: &'static str)
        ensures
            s@ == self.dir(),
    {
        match self {
            EntityKind::Note => "notes",
            EntityKind::Bookmark => "bookmarks",
            EntityKind::Task => "tasks",
        }
    }
}

/// A note: free Markdown content with a title, tags and outgoing links.
#[derive(Debug)]
pub struct Note {
    pub id: String,
    pub title: String,
    pub content: String,
    pub tags: Vec<String>,
    pub links: Vec<String>,
    pub created_at: Timestamp,
    pub updated_at: Timestamp,
}

/// A bookmark: a URL with a title and an optional description.
#[derive(Debug)]
pub struct Bookmark {
    pub id: String,
    pub url: String,
    pub title: String,
    pub description: Option<String>,
    pub tags: Vec<String>,
    pub links: Vec<String>,
    pub created_at: Timestamp,
    pub updated_at: Timestamp,
}

/// One checklist item of a task.
#[derive(Debug)]
pub struct TaskItem {
    pub text: String,
    pub completed: bool,
    pub tags: Vec<String>,
}

/// A task: a title, an optional description and a checklist.
#[derive(Debug)]
pub struct Task {
    pub id: String,
    pub title: String,
    pub description: Option<String>,
    pub tags: Vec<String>,
    pub links: Vec<String>,
    pub items: Vec<TaskItem>,
    pub created_at: Timestamp,
    pub updated_at: Timestamp,
}

/// What the graph, link and listing views read of an entity.
#[derive(Debug)]
pub struct Entry {
    pub kind: EntityKind,
    pub id: String,
    pub title: String,
    pub tags: Vec<String>,
    pub links: Vec<String>,
}

/// Mathematical model of an [`Entry`].
pub struct SEntry {
    pub kind: EntityKind,
    pub id: Seq<char>,
    pub title: Seq<char>,
    pub tags: Seq<Seq<char>>,
    pub links: Seq<Seq<char>>,
}

impl View for Entry {
    type V = SEntry;

    open spec fn view(&self) -> SEntry {
        SEntry {
            kind: self.kind,
            id: self.id@,
            title: self.title@,
            tags: views(self.tags@),
            links: views(self.links@),
        }
    }
}

/// The models of a list of entries.
pub open spec fn entry_views(v: Seq<Entry>) -> Seq<SEntry> {
    v.map_values(|e: Entry| e@)
}

/// Mathematical model of a checklist item.
pub struct SItem {
    pub text: Seq<char>,
    pub completed: bool,
    pub tags: Seq<Seq<char>>,
}

impl View for TaskItem {
    type V = SItem;

    open spec fn view(&self) -> SItem {
        SItem { text: self.text@, completed: self.completed, tags: views(self.tags@) }
    }
}

/// The models of a list of items.
pub open spec fn item_views(v: Seq<TaskItem>) -> Seq<SItem> {
    v.map_values(|i: TaskItem| i@)
}

impl Note {
    /// The note's id, title, tags and links.
    pub fn entry(&self) -> (e: Entry)
        ensures
            e@ == (SEntry {
                kind: EntityKind::Note,
                id: self.id@,
                title: self.title@,
                tags: views(self.tags@),
                links: views(self.links@),
            }),
    {
        Entry {
            kind: EntityKind::Note,
            id: self.id.clone(),
            title: self.title.clone(),
            tags: copy_all(&self.tags),
            links: copy_all(&self.links),
        }
    }

    /// A new note with a fresh id, no links, and both timestamps set to now.
    pub fn new(title: String, content: String, tags: Vec<String>) -> (n: Note)
        ensures
            n.title@ == title@,
            n.content@ == content@,
            views(n.tags@) == views(tags@),
            n.links@.len() == 0,
            n.created_at == n.updated_at,
            is_uuid_text(n.id@),
    {
        let now = now();
        Note {
            id: new_uuid(),
            title,
            content,
            tags,
            links: Vec::new(),
            created_at: now,
            updated_at: now,
        }
    }
}

impl Bookmark {
    /// The bookmark's id, title, tags and links.
    pub fn entry(&self) -> (e: Entry)
        ensures
            e@ == (SEntry {
                kind: EntityKind::Bookmark,
                id: self.id@,
                title: self.title@,
                tags: views(self.tags@),
                links: views(self.links@),
            }),
    {
        Entry {
            kind: EntityKind::Bookmark,
            id: self.id.clone(),
            title: self.title.clone(),
            tags: copy_all(&self.tags),
            links: copy_all(&self.links),
        }
    }

    /// A new bookmark with a fresh id, no links, and both timestamps set to
    /// now.
    pub fn new(url: String, title: String, description: Option<String>, tags: Vec<String>) -> (b:
        Bookmark)
        ensures
            b.url@ == url@,
            b.title@ == title@,
            b.description == description,
            views(b.tags@) == views(tags@),
            b.links@.len() == 0,
            b.created_at == b.updated_at,
            is_uuid_text(b.id@),
    {
        let now = now();
        Bookmark {
            id: new_uuid(),
            url,
            title,
            description,
            tags,
            links: Vec::new(),
            created_at: now,
            updated_at: now,
        }
    }
}

impl Task {
    /// The task's id, title, tags and links.
    pub fn entry(&self) -> (e: Entry)
        ensures
            e@ == (SEntry {
                kind: EntityKind::Task,
                id: self.id@,
                title: self.title@,
                tags: views(self.tags@),
                links: views(self.links@),
            }),
    {
        Entry {
            kind: EntityKind::Task,
            id: self.id.clone(),
            title: self.title.clone(),
            tags: copy_all(&self.tags),
            links: copy_all(&self.links),
        }
    }

    /// A new task with a fresh id, no description, links or items, and both
    /// timestamps set to now.
    pub fn new(title: String, tags: Vec<String>) -> (t: Task)
        ensures
            t.title@ == title@,
            t.description is None,
            views(t.tags@) == views(tags@),
            t.links@.len() == 0,
            t.items@.len() == 0,
            t.created_at == t.updated_at,
            is_uuid_text(t.id@),
    {
        let now = now();
        Task {
            id: new_uuid(),
            title,
            description: None,
            tags,
            links: Vec::new(),
            items: Vec::new(),
            created_at: now,
            updated_at: now,
        }
    }

    /// Appends an open checklist item and sets `updated_at` to now.
    pub fn add_item(&mut self, text: String, tags: Vec<String>)
        ensures
            item_views(final(self).items@) == item_views(old(self).items@).push(
                SItem { text: text@, completed: false, tags: views(tags@) },
            ),
            final(self).id == old(self).id,
            final(self).title == old(self).title,
            final(self).description == old(self).description,
            final(self).tags == old(self).tags,
            final(self).links == old(self).links,
            final(self).created_at == old(self).created_at,
    {
        let ghost before = item_views(self.items@);
        self.items.push(TaskItem { text, completed: false, tags });
        assert(item_views(self.items@) =~= before.push(
            SItem { text: text@, completed: false, tags: views(tags@) },
        ));
        self.updated_at = now();
    }
}

} // verus!
