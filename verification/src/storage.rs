//! The on-disk format of entities: a Markdown file that starts with a YAML
//! frontmatter between `---` fences, whose `znote` field reads
//! `type/version/id`. Tags and links are space-separated strings; task
//! items are a GFM checklist in the body.
//!
//! The YAML itself is written and read by serde in the application; this
//! module frames documents, splits them, and turns the parsed fields into
//! entities and back.

use vstd::prelude::*;

use crate::lists::{insert_sorted, strictly_sorted};
use crate::models::{EntityKind, Entry, SEntry, SItem, TaskItem, Timestamp, entry_views, item_views};
use crate::text::{
    Sep, byte_prefix, byte_prefix_exec, chars_of, concat, fits_or_boundary, copy, ends_with, fields, find, join, join_exec, lines, occurs_at,
    opt_view, own, split_char, split_once, starts_with, str_ends_with, str_eq, str_fields,
    str_find, str_lines, str_split_char, str_split_once, str_starts_with, str_trim,
    str_trim_start, str_trim_start_char, string_of, trim, trim_start, trim_start_char, views,
    is_ws, is_sep, no_sep, words_ok, lines_ok, trim_end, lemma_fields_words_ok, lemma_fields_split,
    lemma_fields_join, lemma_join_lacks, lemma_join_last, lemma_lines_join, lemma_lines_paragraph,
    lemma_trimmed_newline,
};

verus! {

/// Why a document could not be read, or an id not resolved.
#[derive(Debug, PartialEq, Eq)]
pub enum StorageError {
    /// The document does not start with `---` and a line break.
    MissingOpeningFence,
    /// The frontmatter has no closing `---` line.
    MissingClosingFence,
    /// The `znote` field is not `type/version/id` (the field as written).
    InvalidZnoteField(String),
    /// The frontmatter is neither of the current nor of the earlier format
    /// (what the YAML reader reported).
    InvalidFrontmatter(String),
    /// No file matches the id prefix (the prefix).
    NotFound(String),
    /// Several files match the id prefix (the prefix).
    Ambiguous(String),
}

/// Mathematical model of a storage error.
pub enum SStorageError {
    MissingOpeningFence,
    MissingClosingFence,
    InvalidZnoteField(Seq<char>),
    InvalidFrontmatter(Seq<char>),
    NotFound(Seq<char>),
    Ambiguous(Seq<char>),
}

impl View for StorageError {
    type V = SStorageError;

    open spec fn view(&self) -> SStorageError {
        match self {
            StorageError::MissingOpeningFence => SStorageError::MissingOpeningFence,
            StorageError::MissingClosingFence => SStorageError::MissingClosingFence,
            StorageError::InvalidZnoteField(z) => SStorageError::InvalidZnoteField(z@),
            StorageError::InvalidFrontmatter(m) => SStorageError::InvalidFrontmatter(m@),
            StorageError::NotFound(p) => SStorageError::NotFound(p@),
            StorageError::Ambiguous(p) => SStorageError::Ambiguous(p@),
        }
    }
}

// ---------------------------------------------------------------------------
// Splitting a document
// ---------------------------------------------------------------------------

/// The frontmatter text and the body of a document that follows the opening
/// fence: the frontmatter ends at the first `\n---\n`, else at the first
/// `\n---\r\n`, else at the first `\n---`.
pub open spec fn split_after_open(a: Seq<char>) -> Result<(Seq<char>, Seq<char>), SStorageError> {
    match find(a, "\n---\n"@) {
        Some(p) => Ok((a.take(p), a.skip(p + 5))),
        None => match find(a, "\n---\r\n"@) {
            Some(p) => Ok((a.take(p), a.skip(p + 6))),
            None => match find(a, "\n---"@) {
                Some(p) => Ok((a.take(p), a.skip(p + 4))),
                None => Err(SStorageError::MissingClosingFence),
            },
        },
    }
}

/// A document split into frontmatter text and body. A leading byte-order
/// mark is ignored; the document must open with `---\n` or `---\r\n`.
pub open spec fn spec_split_frontmatter(raw: Seq<char>) -> Result<
    (Seq<char>, Seq<char>),
    SStorageError,
> {
    let r = trim_start_char(raw, '\u{feff}');
    if starts_with(r, "---\n"@) {
        split_after_open(r.skip(4))
    } else if starts_with(r, "---\r\n"@) {
        split_after_open(r.skip(5))
    } else {
        Err(SStorageError::MissingOpeningFence)
    }
}

/// Splits after the opening fence, from `v[from..]`.
fn split_after_open_exec(v: &Vec<char>, from: usize) -> (r: Result<(String, String), StorageError>)
    requires
        from <= v.len(),
    ensures
        match r {
            Ok((f, b)) => split_after_open(v@.skip(from as int)) == Ok::<
                (Seq<char>, Seq<char>),
                SStorageError,
            >((f@, b@)),
            Err(e) => split_after_open(v@.skip(from as int)) == Err::<
                (Seq<char>, Seq<char>),
                SStorageError,
            >(e@),
        },
{
    let a = string_of(v, from, v.len());
    assert(a@ =~= v@.skip(from as int));
    let av = chars_of(a.as_str());
    proof {
        reveal_strlit("\n---\n");
        reveal_strlit("\n---\r\n");
        reveal_strlit("\n---");
    }
    match str_find(a.as_str(), "\n---\n") {
        Some(p) => {
            proof { lemma_find_bounds(a@, "\n---\n"@); }
            return Ok((string_of(&av, 0, p), string_of(&av, p + 5, av.len())));
        },
        None => {},
    }
    match str_find(a.as_str(), "\n---\r\n") {
        Some(p) => {
            proof { lemma_find_bounds(a@, "\n---\r\n"@); }
            return Ok((string_of(&av, 0, p), string_of(&av, p + 6, av.len())));
        },
        None => {},
    }
    match str_find(a.as_str(), "\n---") {
        Some(p) => {
            proof { lemma_find_bounds(a@, "\n---"@); }
            return Ok((string_of(&av, 0, p), string_of(&av, p + 4, av.len())));
        },
        None => {},
    }
    Err(StorageError::MissingClosingFence)
}

/// Lemma: where `find` succeeds, the pattern fits after the index.
pub proof fn lemma_find_bounds(s: Seq<char>, p: Seq<char>)
    ensures
        find(s, p) matches Some(i) ==> 0 <= i && i + p.len() <= s.len() && occurs_at(s, p, i),
{
    lemma_find_from_bounds(s, p, 0);
}

/// Lemma: where `find_from` succeeds, the pattern occurs there.
proof fn lemma_find_from_bounds(s: Seq<char>, p: Seq<char>, from: int)
    ensures
        crate::text::find_from(s, p, from) matches Some(i) ==> from <= i && i + p.len() <= s.len()
            && occurs_at(s, p, i),
    decreases s.len() + 1 - from,
{
    if from < 0 || from + p.len() > s.len() {
    } else if occurs_at(s, p, from) {
    } else {
        lemma_find_from_bounds(s, p, from + 1);
    }
}

/// Splits a document into its frontmatter text and its body.
pub fn split_frontmatter(raw: &str) -> (r: Result<(String, String), StorageError>)
    ensures
        match r {
            Ok((f, b)) => spec_split_frontmatter(raw@) == Ok::<
                (Seq<char>, Seq<char>),
                SStorageError,
            >((f@, b@)),
            Err(e) => spec_split_frontmatter(raw@) == Err::<
                (Seq<char>, Seq<char>),
                SStorageError,
            >(e@),
        },
{
    let r = str_trim_start_char(raw, '\u{feff}');
    let v = chars_of(r.as_str());
    proof {
        reveal_strlit("---\n");
        reveal_strlit("---\r\n");
    }
    if str_starts_with(r.as_str(), "---\n") {
        assert(v@.skip(4) == r@.skip(4));
        split_after_open_exec(&v, 4)
    } else if str_starts_with(r.as_str(), "---\r\n") {
        assert(v@.skip(5) == r@.skip(5));
        split_after_open_exec(&v, 5)
    } else {
        Err(StorageError::MissingOpeningFence)
    }
}

// ---------------------------------------------------------------------------
// Frontmatter fields
// ---------------------------------------------------------------------------

/// The frontmatter of the current format, as YAML holds it.
#[derive(Debug)]
pub struct Frontmatter {
    /// `type/version/id`, e.g. `note/v1/<uuid>`.
    pub znote: String,
    pub title: String,
    /// Only bookmarks have one.
    pub url: Option<String>,
    /// Space-separated tags.
    pub tags: String,
    /// Space-separated `relationship:target` links.
    pub links: String,
    pub created_at: Timestamp,
    pub updated_at: Timestamp,
}

/// The frontmatter of the earlier format, with lists for tags and links and
/// no `znote` field.
#[derive(Debug)]
pub struct LegacyFrontmatter {
    pub title: String,
    /// Only bookmarks have one; empty for notes and tasks.
    pub url: String,
    pub tags: Vec<String>,
    pub links: Vec<String>,
    pub created_at: Timestamp,
    pub updated_at: Timestamp,
}

/// The three parts of a `znote` field, which must have exactly three.
pub open spec fn spec_parse_znote(z: Seq<char>) -> Result<
    (Seq<char>, Seq<char>, Seq<char>),
    SStorageError,
> {
    let parts = split_char(z, '/');
    if parts.len() == 3 {
        Ok((parts[0], parts[1], parts[2]))
    } else {
        Err(SStorageError::InvalidZnoteField(z))
    }
}

impl Frontmatter {
    /// The entity type, format version and id in the `znote` field.
    pub fn parse_znote(&self) -> (r: Result<(String, String, String), StorageError>)
        ensures
            match r {
                Ok((a, b, c)) => spec_parse_znote(self.znote@) == Ok::<
                    (Seq<char>, Seq<char>, Seq<char>),
                    SStorageError,
                >((a@, b@, c@)),
                Err(e) => spec_parse_znote(self.znote@) == Err::<
                    (Seq<char>, Seq<char>, Seq<char>),
                    SStorageError,
                >(e@),
            },
    {
        let mut parts = str_split_char(self.znote.as_str(), '/');
        if parts.len() != 3 {
            return Err(StorageError::InvalidZnoteField(copy(&self.znote)));
        }
        let ghost pv = views(parts@);
        let c = parts.pop().unwrap();
        let b = parts.pop().unwrap();
        let a = parts.pop().unwrap();
        assert(pv[0] == a@ && pv[1] == b@ && pv[2] == c@);
        Ok((a, b, c))
    }
}

/// Tags or links written as one space-separated string.
pub fn vec_to_space_string(v: &Vec<String>) -> (r: String)
    ensures
        r@ == join(views(v@), " "@),
{
    join_exec(v, " ")
}

/// Tags or links read back from a space-separated string.
pub fn space_string_to_vec(s: &str) -> (r: Vec<String>)
    ensures
        views(r@) == fields(s@, Sep::Whitespace),
{
    str_fields(s, Sep::Whitespace)
}

// ---------------------------------------------------------------------------
// Titles
// ---------------------------------------------------------------------------

/// The title a Markdown heading line gives (levels 1 to 3).
pub open spec fn heading_title(line: Seq<char>) -> Option<Seq<char>> {
    let t = trim_start(line);
    if starts_with(t, "# "@) {
        Some(trim(t.skip(2)))
    } else if starts_with(t, "## "@) {
        Some(trim(t.skip(3)))
    } else if starts_with(t, "### "@) {
        Some(trim(t.skip(4)))
    } else {
        None
    }
}

/// The title of the first heading among `ls`.
pub open spec fn first_heading(ls: Seq<Seq<char>>) -> Option<Seq<char>>
    decreases ls.len(),
{
    if ls.len() == 0 {
        None
    } else {
        match heading_title(ls[0]) {
            Some(t) => Some(t),
            None => first_heading(ls.drop_first()),
        }
    }
}

/// A title that is not blank stands; else the first heading of the content
/// gives it; else `Untitled`.
pub open spec fn spec_extract_title(title: Seq<char>, content: Seq<char>) -> Seq<char> {
    if trim(title).len() > 0 {
        title
    } else {
        match first_heading(lines(content)) {
            Some(t) => t,
            None => "Untitled"@,
        }
    }
}

/// The title a heading line gives.
fn heading_title_exec(line: &str) -> (r: Option<String>)
    ensures
        match r {
            Some(t) => heading_title(line@) == Some(t@),
            None => heading_title(line@) is None,
        },
{
    let t = str_trim_start(line);
    let v = chars_of(t.as_str());
    proof {
        reveal_strlit("# ");
        reveal_strlit("## ");
        reveal_strlit("### ");
    }
    if str_starts_with(t.as_str(), "# ") {
        let rest = string_of(&v, 2, v.len());
        assert(rest@ =~= t@.skip(2));
        Some(str_trim(rest.as_str()))
    } else if str_starts_with(t.as_str(), "## ") {
        let rest = string_of(&v, 3, v.len());
        assert(rest@ =~= t@.skip(3));
        Some(str_trim(rest.as_str()))
    } else if str_starts_with(t.as_str(), "### ") {
        let rest = string_of(&v, 4, v.len());
        assert(rest@ =~= t@.skip(4));
        Some(str_trim(rest.as_str()))
    } else {
        None
    }
}

/// The title of an entity: `title` unless it is blank, else the first
/// heading of `content`, else `Untitled`.
pub fn extract_title(title: &str, content: &str) -> (r: String)
    ensures
        r@ == spec_extract_title(title@, content@),
{
    let t = str_trim(title);
    if !t.as_str().is_empty() {
        return own(title);
    }
    assert(t@.len() == 0);
    let ls = str_lines(content);
    let mut i: usize = 0;
    assert(views(ls@).skip(0) =~= views(ls@));
    while i < ls.len()
        invariant
            i <= ls.len(),
            first_heading(lines(content@)) == first_heading(views(ls@).skip(i as int)),
            views(ls@) == lines(content@),
            trim(title@).len() == 0,
        decreases ls.len() - i,
    {
        assert(views(ls@).skip(i as int).drop_first() =~= views(ls@).skip(i + 1));
        assert(views(ls@).skip(i as int)[0] == ls@[i as int]@);
        match heading_title_exec(ls[i].as_str()) {
            Some(h) => {
                return h;
            },
            None => {},
        }
        i = i + 1;
    }
    own("Untitled")
}

// ---------------------------------------------------------------------------
// Task checklists
// ---------------------------------------------------------------------------

/// The checklist line of an item: `- [x] text  #tag #tag` when done,
/// `- [ ] text` when open and untagged.
pub open spec fn item_line(it: SItem) -> Seq<char> {
    "- ["@ + (if it.completed {
        "x"@
    } else {
        " "@
    }) + "] "@ + it.text + (if it.tags.len() == 0 {
        Seq::empty()
    } else {
        "  "@ + join(it.tags, " "@)
    })
}

/// The checklist lines of a list of items.
pub open spec fn item_lines(items: Seq<SItem>) -> Seq<Seq<char>> {
    items.map_values(|it: SItem| item_line(it))
}

/// The checklist body of a list of items, one line each.
pub open spec fn spec_items_to_body(items: Seq<SItem>) -> Seq<char> {
    join(item_lines(items), "\n"@)
}

/// The checklist line of one item.
fn item_line_exec(it: &TaskItem) -> (r: String)
    ensures
        r@ == item_line(it@),
{
    let mut r = own("- [");
    if it.completed {
        r.append("x");
    } else {
        r.append(" ");
    }
    r.append("] ");
    r.append(it.text.as_str());
    if it.tags.len() > 0 {
        r.append("  ");
        let t = join_exec(&it.tags, " ");
        r.append(t.as_str());
    } else {
        assert(views(it.tags@).len() == 0);
    }
    r
}

/// Writes task items as a GFM checklist, one line per item.
pub fn items_to_body(items: &Vec<TaskItem>) -> (r: String)
    ensures
        r@ == spec_items_to_body(item_views(items@)),
{
    let mut ls: Vec<String> = Vec::new();
    let mut i: usize = 0;
    while i < items.len()
        invariant
            i <= items.len(),
            views(ls@) == item_lines(item_views(items@)).take(i as int),
        decreases items.len() - i,
    {
        let l = item_line_exec(&items[i]);
        let ghost before = views(ls@);
        ls.push(l);
        assert(views(ls@) =~= before.push(l@));
        assert(item_lines(item_views(items@)).take(i + 1) =~= before.push(l@));
        i = i + 1;
    }
    assert(item_lines(item_views(items@)).take(items.len() as int) =~= item_lines(
        item_views(items@),
    ));
    join_exec(&ls, "\n")
}

/// The completion state and the rest of a checklist line (already trimmed),
/// if it is one: `- [ ] `, `- [x] `, `- [X] `, or the same with `--`.
pub open spec fn checklist_prefix(t: Seq<char>) -> Option<(bool, Seq<char>)> {
    if starts_with(t, "- [ ] "@) {
        Some((false, t.skip(6)))
    } else if starts_with(t, "- [x] "@) {
        Some((true, t.skip(6)))
    } else if starts_with(t, "- [X] "@) {
        Some((true, t.skip(6)))
    } else if starts_with(t, "-- [ ] "@) {
        Some((false, t.skip(7)))
    } else if starts_with(t, "-- [x] "@) {
        Some((true, t.skip(7)))
    } else if starts_with(t, "-- [X] "@) {
        Some((true, t.skip(7)))
    } else {
        None
    }
}

/// The words of `ws` that are tags (start with `#`).
pub open spec fn tag_words(ws: Seq<Seq<char>>) -> Seq<Seq<char>>
    decreases ws.len(),
{
    if ws.len() == 0 {
        Seq::empty()
    } else if starts_with(ws[0], "#"@) {
        seq![ws[0]] + tag_words(ws.drop_first())
    } else {
        tag_words(ws.drop_first())
    }
}

/// The words of `ws` that are not tags.
pub open spec fn text_words(ws: Seq<Seq<char>>) -> Seq<Seq<char>>
    decreases ws.len(),
{
    if ws.len() == 0 {
        Seq::empty()
    } else if starts_with(ws[0], "#"@) {
        text_words(ws.drop_first())
    } else {
        seq![ws[0]] + text_words(ws.drop_first())
    }
}

/// The item a checklist line stands for: its words that start with `#` are
/// its tags, the others, joined by single spaces, its text.
pub open spec fn parse_item(completed: bool, rest: Seq<char>) -> SItem {
    let ws = fields(rest, Sep::Whitespace);
    SItem { text: join(text_words(ws), " "@), completed, tags: tag_words(ws) }
}

/// Description lines and items of a body's lines: checklist lines are
/// items, every other line (untrimmed) belongs to the description.
pub open spec fn split_body_lines(ls: Seq<Seq<char>>) -> (Seq<Seq<char>>, Seq<SItem>)
    decreases ls.len(),
{
    if ls.len() == 0 {
        (Seq::empty(), Seq::empty())
    } else {
        let (d, it) = split_body_lines(ls.drop_first());
        match checklist_prefix(trim(ls[0])) {
            Some((c, rest)) => (d, seq![parse_item(c, rest)] + it),
            None => (seq![ls[0]] + d, it),
        }
    }
}

/// The description (trimmed, absent when empty) and items of a task body.
pub open spec fn spec_body_to_components(body: Seq<char>) -> (Option<Seq<char>>, Seq<SItem>) {
    let (d, items) = split_body_lines(lines(body));
    let desc = trim(join(d, "\n"@));
    (if desc.len() == 0 {
        None
    } else {
        Some(desc)
    }, items)
}

/// The item of a checklist line's rest.
fn parse_item_exec(completed: bool, rest: &str) -> (r: TaskItem)
    ensures
        r@ == parse_item(completed, rest@),
{
    let ws = str_fields(rest, Sep::Whitespace);
    let mut tags: Vec<String> = Vec::new();
    let mut text_parts: Vec<String> = Vec::new();
    let mut i: usize = 0;
    assert(views(ws@).skip(0) =~= views(ws@));
    while i < ws.len()
        invariant
            i <= ws.len(),
            views(tags@) + tag_words(views(ws@).skip(i as int)) == tag_words(views(ws@)),
            views(text_parts@) + text_words(views(ws@).skip(i as int)) == text_words(views(ws@)),
        decreases ws.len() - i,
    {
        let ghost rest_ws = views(ws@).skip(i as int);
        assert(rest_ws.drop_first() =~= views(ws@).skip(i + 1));
        assert(rest_ws[0] == ws@[i as int]@);
        let w = copy(&ws[i]);
        let ghost tb = views(tags@);
        let ghost xb = views(text_parts@);
        if str_starts_with(w.as_str(), "#") {
            tags.push(w);
            assert(views(tags@) =~= tb.push(ws@[i as int]@));
            assert(tb + (seq![ws@[i as int]@] + tag_words(views(ws@).skip(i + 1))) =~= views(
                tags@,
            ) + tag_words(views(ws@).skip(i + 1)));
        } else {
            text_parts.push(w);
            assert(views(text_parts@) =~= xb.push(ws@[i as int]@));
            assert(xb + (seq![ws@[i as int]@] + text_words(views(ws@).skip(i + 1))) =~= views(
                text_parts@,
            ) + text_words(views(ws@).skip(i + 1)));
        }
        i = i + 1;
    }
    assert(views(ws@).skip(i as int) =~= Seq::<Seq<char>>::empty());
    assert(views(tags@) + Seq::<Seq<char>>::empty() =~= views(tags@));
    assert(views(text_parts@) + Seq::<Seq<char>>::empty() =~= views(text_parts@));
    let text = join_exec(&text_parts, " ");
    TaskItem { text, completed, tags }
}

/// The completion state and the rest of a trimmed checklist line.
fn checklist_prefix_exec(t: &str) -> (r: Option<(bool, String)>)
    ensures
        match r {
            Some((c, rest)) => checklist_prefix(t@) == Some((c, rest@)),
            None => checklist_prefix(t@) is None,
        },
{
    let v = chars_of(t);
    proof {
        reveal_strlit("- [ ] ");
        reveal_strlit("- [x] ");
        reveal_strlit("- [X] ");
        reveal_strlit("-- [ ] ");
        reveal_strlit("-- [x] ");
        reveal_strlit("-- [X] ");
    }
    let (c, n) = if str_starts_with(t, "- [ ] ") {
        (false, 6)
    } else if str_starts_with(t, "- [x] ") {
        (true, 6)
    } else if str_starts_with(t, "- [X] ") {
        (true, 6)
    } else if str_starts_with(t, "-- [ ] ") {
        (false, 7)
    } else if str_starts_with(t, "-- [x] ") {
        (true, 7)
    } else if str_starts_with(t, "-- [X] ") {
        (true, 7)
    } else {
        return None;
    };
    let rest = string_of(&v, n, v.len());
    assert(rest@ =~= t@.skip(n as int));
    Some((c, rest))
}

/// Reads a task body back: checklist lines become items (their `#` words
/// the tags), all other lines the description.
pub fn body_to_components(body: &str) -> (r: (Option<String>, Vec<TaskItem>))
    ensures
        (match r.0 {
            Some(d) => Some(d@),
            None => None,
        }, item_views(r.1@)) == spec_body_to_components(body@),
{
    let ls = str_lines(body);
    let mut desc_lines: Vec<String> = Vec::new();
    let mut items: Vec<TaskItem> = Vec::new();
    let mut i: usize = 0;
    assert(views(ls@).skip(0) =~= views(ls@));
    while i < ls.len()
        invariant
            i <= ls.len(),
            views(ls@) == lines(body@),
            ({
                let (d, it) = split_body_lines(views(ls@).skip(i as int));
                (views(desc_lines@) + d, item_views(items@) + it) == split_body_lines(
                    views(ls@),
                )
            }),
        decreases ls.len() - i,
    {
        let ghost rest_ls = views(ls@).skip(i as int);
        assert(rest_ls.drop_first() =~= views(ls@).skip(i + 1));
        assert(rest_ls[0] == ls@[i as int]@);
        let ghost (d1, it1) = split_body_lines(views(ls@).skip(i + 1));
        let t = str_trim(ls[i].as_str());
        match checklist_prefix_exec(t.as_str()) {
            Some((c, rest)) => {
                let item = parse_item_exec(c, rest.as_str());
                let ghost ib = item_views(items@);
                items.push(item);
                assert(item_views(items@) =~= ib.push(item@));
                assert(ib + (seq![item@] + it1) =~= item_views(items@) + it1);
            },
            None => {
                let l = copy(&ls[i]);
                let ghost db = views(desc_lines@);
                desc_lines.push(l);
                assert(views(desc_lines@) =~= db.push(l@));
                assert(db + (seq![l@] + d1) =~= views(desc_lines@) + d1);
            },
        }
        i = i + 1;
    }
    assert(views(ls@).skip(i as int) =~= Seq::<Seq<char>>::empty());
    assert(views(desc_lines@) + Seq::<Seq<char>>::empty() =~= views(desc_lines@));
    assert(item_views(items@) + Seq::<SItem>::empty() =~= item_views(items@));
    let joined = join_exec(&desc_lines, "\n");
    let desc = str_trim(joined.as_str());
    if desc.as_str().is_empty() {
        (None, items)
    } else {
        (Some(desc), items)
    }
}

// ---------------------------------------------------------------------------
// Paths and ids
// ---------------------------------------------------------------------------

/// `a` joined with `b` as `Path::join` does on Unix: an absolute `b`
/// replaces `a`; otherwise a `/` separates them unless `a` is empty or
/// already ends with one.
pub open spec fn path_join(a: Seq<char>, b: Seq<char>) -> Seq<char> {
    if starts_with(b, "/"@) || a.len() == 0 {
        b
    } else if ends_with(a, "/"@) {
        a + b
    } else {
        a + "/"@ + b
    }
}

/// `a` joined with `b` (see [`path_join`]).
pub fn join_path(a: &str, b: &str) -> (r: String)
    ensures
        r@ == path_join(a@, b@),
{
    if str_starts_with(b, "/") || a.is_empty() {
        own(b)
    } else if str_ends_with(a, "/") {
        concat(a, b)
    } else {
        let a2 = concat(a, "/");
        concat(a2.as_str(), b)
    }
}

/// The id a file name stands for: the name without its `.md` extension,
/// for a name that has one and something before it.
pub open spec fn md_stem(name: Seq<char>) -> Option<Seq<char>> {
    if ends_with(name, ".md"@) && name.len() > 3 {
        Some(name.take(name.len() - 3))
    } else {
        None
    }
}

/// The ids of the files among `names` that start with `prefix`, in order.
pub open spec fn matching_ids(names: Seq<Seq<char>>, prefix: Seq<char>) -> Seq<Seq<char>>
    decreases names.len(),
{
    if names.len() == 0 {
        Seq::empty()
    } else {
        matching_ids(names.drop_last(), prefix) + match md_stem(names.last()) {
            Some(st) => if starts_with(st, prefix) {
                seq![st]
            } else {
                Seq::empty()
            },
            None => Seq::empty(),
        }
    }
}

/// The full id that an id prefix names in a directory holding the files
/// `names`, where `exact` tells whether the path `<dir>/<prefix>.md`
/// exists: the prefix itself when it does (a prefix may name a path below
/// the directory, such as `sub/abc`), else the one id among the files that
/// starts with it; no id is an error, and so are several.
pub open spec fn spec_resolve_id_with(names: Seq<Seq<char>>, prefix: Seq<char>, exact: bool) -> Result<
    Seq<char>,
    SStorageError,
> {
    if exact {
        Ok(prefix)
    } else {
        let m = matching_ids(names, prefix);
        if m.len() == 0 {
            Err(SStorageError::NotFound(prefix))
        } else if m.len() == 1 {
            Ok(m[0])
        } else {
            Err(SStorageError::Ambiguous(prefix))
        }
    }
}

/// [`spec_resolve_id_with`] where what exists is what the directory
/// listing `names` shows: `<prefix>.md` is one of its files.
pub open spec fn spec_resolve_id(names: Seq<Seq<char>>, prefix: Seq<char>) -> Result<
    Seq<char>,
    SStorageError,
> {
    spec_resolve_id_with(names, prefix, names.contains(prefix + ".md"@))
}

/// Index of the first name equal to `name`.
pub fn index_of_name(names: &Vec<String>, name: &str) -> (r: Option<usize>)
    ensures
        match r {
            Some(i) => i < names.len() && names@[i as int]@ == name@ && forall|j: int|
                0 <= j < i ==> names@[j]@ != name@,
            None => !views(names@).contains(name@),
        },
{
    let mut i: usize = 0;
    while i < names.len()
        invariant
            i <= names.len(),
            forall|j: int| 0 <= j < i ==> names@[j]@ != name@,
        decreases names.len() - i,
    {
        if str_eq(names[i].as_str(), name) {
            return Some(i);
        }
        i = i + 1;
    }
    proof {
        if views(names@).contains(name@) {
            let j = choose|j: int| 0 <= j < views(names@).len() && views(names@)[j] == name@;
            assert(names@[j]@ == name@);
        }
    }
    None
}

/// The id a file name stands for.
fn md_stem_exec(name: &str) -> (r: Option<String>)
    ensures
        opt_view(r) == md_stem(name@),
{
    let v = chars_of(name);
    if str_ends_with(name, ".md") && v.len() > 3 {
        let st = string_of(&v, 0, v.len() - 3);
        assert(st@ =~= name@.take(name@.len() - 3));
        Some(st)
    } else {
        None
    }
}

/// Resolves an id prefix among the files `names` of a directory, given
/// whether the path `<dir>/<prefix>.md` exists (see
/// [`spec_resolve_id_with`]).
pub fn resolve_id(names: &Vec<String>, prefix: &str, exact: bool) -> (r: Result<String, StorageError>)
    ensures
        match r {
            Ok(id) => spec_resolve_id_with(views(names@), prefix@, exact) == Ok::<Seq<char>, SStorageError>(
                id@,
            ),
            Err(e) => spec_resolve_id_with(views(names@), prefix@, exact) == Err::<Seq<char>, SStorageError>(
                e@,
            ),
        },
{
    if exact {
        return Ok(own(prefix));
    }
    let mut found: Vec<String> = Vec::new();
    let mut i: usize = 0;
    while i < names.len()
        invariant
            i <= names.len(),
            views(found@) == matching_ids(views(names@).take(i as int), prefix@),
        decreases names.len() - i,
    {
        let ghost next = views(names@).take(i + 1);
        assert(next.drop_last() =~= views(names@).take(i as int));
        assert(next.last() == names@[i as int]@);
        let ghost before = views(found@);
        match md_stem_exec(names[i].as_str()) {
            Some(st) => {
                if str_starts_with(st.as_str(), prefix) {
                    found.push(st);
                    assert(views(found@) =~= matching_ids(next, prefix@));
                } else {
                    assert(views(found@) =~= matching_ids(next, prefix@));
                }
            },
            None => {
                assert(views(found@) =~= matching_ids(next, prefix@));
            },
        }
        i = i + 1;
    }
    assert(views(names@).take(names.len() as int) =~= views(names@));
    if found.len() == 0 {
        Err(StorageError::NotFound(own(prefix)))
    } else if found.len() == 1 {
        let id = found.pop().unwrap();
        Ok(id)
    } else {
        Err(StorageError::Ambiguous(own(prefix)))
    }
}

/// Resolves an id prefix among the files `names` of a directory, an exact
/// match being one of those files (see [`spec_resolve_id`]).
pub fn resolve_listed(names: &Vec<String>, prefix: &str) -> (r: Result<String, StorageError>)
    ensures
        match r {
            Ok(id) => spec_resolve_id(views(names@), prefix@) == Ok::<Seq<char>, SStorageError>(
                id@,
            ),
            Err(e) => spec_resolve_id(views(names@), prefix@) == Err::<Seq<char>, SStorageError>(
                e@,
            ),
        },
{
    let file = concat(prefix, ".md");
    let exact = match index_of_name(names, file.as_str()) {
        Some(k) => {
            assert(views(names@)[k as int] == file@);
            true
        },
        None => false,
    };
    resolve_id(names, prefix, exact)
}

// ---------------------------------------------------------------------------
// What the data directory holds
// ---------------------------------------------------------------------------

/// The files of one kind of entity: their names and, at the same index,
/// their text (`None` where a file could not be read) and the entity read
/// from it (`None` where it could not be read or parsed).
#[derive(Debug)]
pub struct Folder {
    pub names: Vec<String>,
    pub texts: Vec<Option<String>>,
    pub entries: Vec<Option<Entry>>,
}

impl Folder {
    /// Names, texts and entities go together.
    pub open spec fn wf(&self) -> bool {
        self.names.len() == self.texts.len() && self.names.len() == self.entries.len()
    }

    /// The file names.
    pub open spec fn name_views(&self) -> Seq<Seq<char>> {
        views(self.names@)
    }
}

/// The data directory: its path and its three entity folders.
#[derive(Debug)]
pub struct Store {
    pub data_dir: String,
    pub notes: Folder,
    pub bookmarks: Folder,
    pub tasks: Folder,
}

impl Store {
    /// The folder of a kind.
    pub open spec fn folder(&self, kind: EntityKind) -> Folder {
        match kind {
            EntityKind::Note => self.notes,
            EntityKind::Bookmark => self.bookmarks,
            EntityKind::Task => self.tasks,
        }
    }

    /// All three folders are well formed.
    pub open spec fn wf(&self) -> bool {
        self.notes.wf() && self.bookmarks.wf() && self.tasks.wf()
    }

    /// The folder of a kind.
    pub fn folder_of(&self, kind: EntityKind) -> (f: &Folder)
        ensures
            *f == self.folder(kind),
    {
        match kind {
            EntityKind::Note => &self.notes,
            EntityKind::Bookmark => &self.bookmarks,
            EntityKind::Task => &self.tasks,
        }
    }
}

/// Index of the first name equal to `n` at or after `i`.
pub open spec fn first_index_from(ns: Seq<Seq<char>>, n: Seq<char>, i: int) -> Option<int>
    decreases ns.len() - i,
{
    if i < 0 || i >= ns.len() {
        None
    } else if ns[i] == n {
        Some(i)
    } else {
        first_index_from(ns, n, i + 1)
    }
}

/// Lemma: the first index found by a scan is the one `first_index_from`
/// gives.
pub proof fn lemma_first_index(ns: Seq<Seq<char>>, n: Seq<char>, k: int, i: int)
    requires
        0 <= i <= k < ns.len(),
        ns[k] == n,
        forall|j: int| 0 <= j < k ==> ns[j] != n,
    ensures
        first_index_from(ns, n, i) == Some(k),
    decreases k - i,
{
    if i < k {
        lemma_first_index(ns, n, k, i + 1);
    }
}

/// Lemma: a name absent from the list has no index.
pub proof fn lemma_no_index(ns: Seq<Seq<char>>, n: Seq<char>, i: int)
    requires
        0 <= i,
        !ns.contains(n),
    ensures
        first_index_from(ns, n, i) is None,
    decreases ns.len() - i,
{
    if i < ns.len() {
        assert(ns[i] != n);
        lemma_no_index(ns, n, i + 1);
    }
}

/// The entity read from the file `name` of a folder, if it is there and
/// was parsed.
pub open spec fn folder_entry(f: Folder, name: Seq<char>) -> Option<SEntry> {
    match first_index_from(f.name_views(), name, 0) {
        Some(i) => match f.entries@[i] {
            Some(e) => Some(e@),
            None => None,
        },
        None => None,
    }
}

/// The entity of `kind` that `prefix` names, when it resolves and its file
/// was parsed.
pub open spec fn spec_load(store: Store, kind: EntityKind, prefix: Seq<char>) -> Option<SEntry> {
    match spec_resolve_id(store.folder(kind).name_views(), prefix) {
        Ok(full) => folder_entry(store.folder(kind), full + ".md"@),
        Err(_) => None,
    }
}

/// The note that `prefix` names, else the bookmark, else the task.
pub open spec fn spec_load_any(store: Store, prefix: Seq<char>) -> Option<SEntry> {
    match spec_load(store, EntityKind::Note, prefix) {
        Some(e) => Some(e),
        None => match spec_load(store, EntityKind::Bookmark, prefix) {
            Some(e) => Some(e),
            None => spec_load(store, EntityKind::Task, prefix),
        },
    }
}

/// The parsed entities of a folder, in order.
pub open spec fn folder_listed(es: Seq<Option<Entry>>) -> Seq<SEntry>
    decreases es.len(),
{
    if es.len() == 0 {
        Seq::empty()
    } else {
        folder_listed(es.drop_last()) + match es.last() {
            Some(e) => seq![e@],
            None => Seq::empty(),
        }
    }
}

/// All parsed entities: notes, then bookmarks, then tasks.
pub open spec fn spec_listed(store: Store) -> Seq<SEntry> {
    folder_listed(store.notes.entries@) + folder_listed(store.bookmarks.entries@) + folder_listed(
        store.tasks.entries@,
    )
}

/// Copy of an entry.
pub fn copy_entry(e: &Entry) -> (r: Entry)
    ensures
        r@ == e@,
{
    Entry {
        kind: e.kind,
        id: copy(&e.id),
        title: copy(&e.title),
        tags: crate::text::copy_all(&e.tags),
        links: crate::text::copy_all(&e.links),
    }
}

/// The entity of `kind` that `prefix` names (see [`spec_load`]).
pub fn load_entry<'a>(store: &'a Store, kind: EntityKind, prefix: &str) -> (r: Option<&'a Entry>)
    requires
        store.wf(),
    ensures
        match r {
            Some(e) => spec_load(*store, kind, prefix@) == Some(e@),
            None => spec_load(*store, kind, prefix@) is None,
        },
{
    let f = store.folder_of(kind);
    let full = match resolve_listed(&f.names, prefix) {
        Ok(full) => full,
        Err(_) => {
            return None;
        },
    };
    let name = concat(full.as_str(), ".md");
    match index_of_name(&f.names, name.as_str()) {
        Some(i) => {
            proof {
                lemma_first_index(f.name_views(), name@, i as int, 0);
            }
            match &f.entries[i] {
                Some(e) => Some(e),
                None => None,
            }
        },
        None => {
            proof {
                lemma_no_index(f.name_views(), name@, 0);
            }
            None
        },
    }
}

/// The note that `prefix` names, else the bookmark, else the task.
pub fn load_any<'a>(store: &'a Store, prefix: &str) -> (r: Option<&'a Entry>)
    requires
        store.wf(),
    ensures
        match r {
            Some(e) => spec_load_any(*store, prefix@) == Some(e@),
            None => spec_load_any(*store, prefix@) is None,
        },
{
    match load_entry(store, EntityKind::Note, prefix) {
        Some(e) => Some(e),
        None => match load_entry(store, EntityKind::Bookmark, prefix) {
            Some(e) => Some(e),
            None => load_entry(store, EntityKind::Task, prefix),
        },
    }
}

/// Appends copies of the parsed entities of a folder to `out`.
fn list_folder(f: &Folder, out: &mut Vec<Entry>)
    ensures
        entry_views(final(out)@) == entry_views(old(out)@) + folder_listed(f.entries@),
{
    let mut i: usize = 0;
    assert(f.entries@.take(0) =~= Seq::<Option<Entry>>::empty());
    assert(entry_views(out@) =~= entry_views(old(out)@) + Seq::<SEntry>::empty());
    while i < f.entries.len()
        invariant
            i <= f.entries.len(),
            entry_views(out@) == entry_views(old(out)@) + folder_listed(f.entries@.take(i as int)),
        decreases f.entries.len() - i,
    {
        let ghost next = f.entries@.take(i + 1);
        assert(next.drop_last() =~= f.entries@.take(i as int));
        assert(next.last() == f.entries@[i as int]);
        let ghost before = entry_views(out@);
        match &f.entries[i] {
            Some(e) => {
                out.push(copy_entry(e));
                assert(entry_views(out@) =~= before.push(e@));
            },
            None => {},
        }
        assert(entry_views(out@) =~= entry_views(old(out)@) + folder_listed(next));
        i = i + 1;
    }
    assert(f.entries@.take(f.entries.len() as int) =~= f.entries@);
}

impl Store {
    /// All parsed entities: notes, then bookmarks, then tasks.
    pub fn listed(&self) -> (r: Vec<Entry>)
        ensures
            entry_views(r@) == spec_listed(*self),
    {
        let mut out: Vec<Entry> = Vec::new();
        list_folder(&self.notes, &mut out);
        list_folder(&self.bookmarks, &mut out);
        list_folder(&self.tasks, &mut out);
        assert(entry_views(out@) =~= spec_listed(*self));
        out
    }
}

/// The path of the file of entity `id` (a prefix) of a category:
/// `<data_dir>/<category>/<full id>.md`, where `exact` tells whether
/// `<data_dir>/<category>/<id>.md` exists.
pub open spec fn spec_get_path(data_dir: Seq<char>, category: Seq<char>, names: Seq<Seq<char>>, id: Seq<char>, exact: bool) -> Result<Seq<char>, SStorageError> {
    match spec_resolve_id_with(names, id, exact) {
        Ok(full) => Ok(path_join(path_join(data_dir, category), full + ".md"@)),
        Err(e) => Err(e),
    }
}

/// The path of the file of the entity whose id starts with `id`, in the
/// directory `category` of `data_dir` that holds the files `names`, given
/// whether `<data_dir>/<category>/<id>.md` exists.
pub fn get_path(data_dir: &str, category: &str, id: &str, names: &Vec<String>, exact: bool) -> (r: Result<String, StorageError>)
    ensures
        match r {
            Ok(p) => spec_get_path(data_dir@, category@, views(names@), id@, exact) == Ok::<Seq<char>, SStorageError>(p@),
            Err(e) => spec_get_path(data_dir@, category@, views(names@), id@, exact) == Err::<Seq<char>, SStorageError>(e@),
        },
{
    let full = resolve_id(names, id, exact)?;
    let dir = join_path(data_dir, category);
    let file = concat(full.as_str(), ".md");
    Ok(join_path(dir.as_str(), file.as_str()))
}

/// The kind of the first folder, in the order notes, bookmarks, tasks, in
/// which `id` resolves.
pub open spec fn spec_entity_kind(store: Store, id: Seq<char>) -> Option<EntityKind> {
    if spec_resolve_id(store.notes.name_views(), id) is Ok {
        Some(EntityKind::Note)
    } else if spec_resolve_id(store.bookmarks.name_views(), id) is Ok {
        Some(EntityKind::Bookmark)
    } else if spec_resolve_id(store.tasks.name_views(), id) is Ok {
        Some(EntityKind::Task)
    } else {
        None
    }
}

/// The kind of the entity that `id` names.
pub fn entity_kind(store: &Store, id: &str) -> (r: Option<EntityKind>)
    ensures
        r == spec_entity_kind(*store, id@),
{
    if resolve_listed(&store.notes.names, id).is_ok() {
        Some(EntityKind::Note)
    } else if resolve_listed(&store.bookmarks.names, id).is_ok() {
        Some(EntityKind::Bookmark)
    } else if resolve_listed(&store.tasks.names, id).is_ok() {
        Some(EntityKind::Task)
    } else {
        None
    }
}

/// The name of the kind of the entity that `id` names: `note`, `bookmark`
/// or `task`.
pub fn get_entity_type(store: &Store, id: &str) -> (r: Option<&'static str>)
    ensures
        match r {
            Some(s) => spec_entity_kind(*store, id@) matches Some(k) && s@ == k.name(),
            None => spec_entity_kind(*store, id@) is None,
        },
{
    match entity_kind(store, id) {
        Some(k) => Some(k.as_str()),
        None => None,
    }
}

/// How a link is shown: `[kind] relationship: target` where the kind is
/// that of the entity the target names, or `unknown`; a link without `:`
/// as it is.
pub open spec fn formatted_link(store: Store, link: Seq<char>) -> Seq<char> {
    match split_once(link, ':') {
        Some((rel, target)) => "["@ + match spec_entity_kind(store, target) {
            Some(k) => k.name(),
            None => "unknown"@,
        } + "] "@ + rel + ": "@ + target,
        None => link,
    }
}

/// Each link as it is shown (see [`formatted_link`]).
pub fn format_links(store: &Store, links: &Vec<String>) -> (r: Vec<String>)
    ensures
        views(r@) == views(links@).map_values(|l: Seq<char>| formatted_link(*store, l)),
{
    let mut r: Vec<String> = Vec::new();
    let mut i: usize = 0;
    while i < links.len()
        invariant
            i <= links.len(),
            views(r@) == views(links@).take(i as int).map_values(|l: Seq<char>| formatted_link(*store, l)),
        decreases links.len() - i,
    {
        let s = match str_split_once(links[i].as_str(), ':') {
            Some((rel, target)) => {
                let kind = match get_entity_type(store, target.as_str()) {
                    Some(k) => k,
                    None => "unknown",
                };
                let mut s = own("[");
                s.append(kind);
                s.append("] ");
                s.append(rel.as_str());
                s.append(": ");
                s.append(target.as_str());
                s
            },
            None => copy(&links[i]),
        };
        let ghost before = views(r@);
        r.push(s);
        assert(views(r@) =~= before.push(s@));
        assert(views(links@).take(i + 1) =~= views(links@).take(i as int).push(links@[i as int]@));
        assert(views(r@) =~= views(links@).take(i + 1).map_values(|l: Seq<char>| formatted_link(*store, l)));
        i = i + 1;
    }
    assert(views(links@).take(links.len() as int) =~= views(links@));
    r
}

// ---------------------------------------------------------------------------
// Incoming links
// ---------------------------------------------------------------------------

/// A link `relationship:t` points at `target` when either id is a prefix
/// of the other.
pub open spec fn points_at(t: Seq<char>, target: Seq<char>) -> bool {
    starts_with(target, t) || starts_with(t, target)
}

/// The lines for the links among `links` of the entity `id` of `kind`
/// that point at `target`: `[kind] relationship: <first 8 bytes of id>`.
pub open spec fn link_lines(kind: EntityKind, id: Seq<char>, links: Seq<Seq<char>>, target: Seq<char>) -> Seq<Seq<char>>
    decreases links.len(),
{
    if links.len() == 0 {
        Seq::empty()
    } else {
        link_lines(kind, id, links.drop_last(), target) + match split_once(links.last(), ':') {
            Some((rel, t)) => if points_at(t, target) {
                seq!["["@ + kind.name() + "] "@ + rel + ": "@ + byte_prefix(id, 8)]
            } else {
                Seq::empty()
            },
            None => Seq::empty(),
        }
    }
}

/// The incoming-link lines an entity gives for `target`; none when its own
/// id starts with `target`.
pub open spec fn entry_lines(e: SEntry, target: Seq<char>) -> Seq<Seq<char>> {
    if starts_with(e.id, target) {
        Seq::empty()
    } else {
        link_lines(e.kind, e.id, e.links, target)
    }
}

/// The incoming-link lines of all entities, in order, repeats included.
pub open spec fn incoming_lines(es: Seq<SEntry>, target: Seq<char>) -> Seq<Seq<char>>
    decreases es.len(),
{
    if es.len() == 0 {
        Seq::empty()
    } else {
        incoming_lines(es.drop_last(), target) + entry_lines(es.last(), target)
    }
}

/// Every entity that gives a line has an id whose first 8 bytes end on a
/// character boundary (or that is no longer).
pub open spec fn ids_truncatable(es: Seq<SEntry>, target: Seq<char>) -> bool {
    forall|i: int| 0 <= i < es.len() && #[trigger] entry_lines(es[i], target).len() > 0 ==> fits_or_boundary(es[i].id, 8)
}

/// Link `l` reads `relationship:t` with `t` pointing at `target`.
pub open spec fn link_points(l: Seq<char>, target: Seq<char>) -> bool {
    split_once(l, ':') matches Some((rel, t)) && points_at(t, target)
}

/// Lemma: an entity's links give a line exactly when one of them points
/// at the target.
proof fn lemma_link_lines_nonempty(kind: EntityKind, id: Seq<char>, links: Seq<Seq<char>>, target: Seq<char>)
    ensures
        link_lines(kind, id, links, target).len() > 0 <==> exists|j: int| 0 <= j < links.len() && #[trigger] link_points(links[j], target),
    decreases links.len(),
{
    if links.len() > 0 {
        let init = links.drop_last();
        lemma_link_lines_nonempty(kind, id, init, target);
        if exists|j: int| 0 <= j < init.len() && #[trigger] link_points(init[j], target) {
            let j = choose|j: int| 0 <= j < init.len() && #[trigger] link_points(init[j], target);
            assert(links[j] == init[j]);
        }
        if exists|j: int| 0 <= j < links.len() && #[trigger] link_points(links[j], target) {
            let j = choose|j: int| 0 <= j < links.len() && #[trigger] link_points(links[j], target);
            if j < links.len() - 1 {
                assert(init[j] == links[j]);
            }
        }
        let last = links[links.len() - 1];
        assert(last == links.last());
        let tail: Seq<Seq<char>> = match split_once(last, ':') {
            Some((rel, t)) => if points_at(t, target) {
                seq!["["@ + kind.name() + "] "@ + rel + ": "@ + byte_prefix(id, 8)]
            } else {
                Seq::empty()
            },
            None => Seq::empty(),
        };
        assert(link_lines(kind, id, links, target) == link_lines(kind, id, init, target) + tail);
        assert(tail.len() > 0 <==> link_points(last, target));
        if link_points(last, target) {
            assert(link_points(links[links.len() - 1], target));
        }
    }
}

/// Whether an entity gives an incoming-link line for `target` (see
/// [`entry_lines`]): its id does not start with `target` and one of its
/// links points at it.
pub fn gives_incoming_line(e: &Entry, target: &str) -> (r: bool)
    ensures
        r == (entry_lines(e@, target@).len() > 0),
{
    proof {
        lemma_link_lines_nonempty(e.kind, e.id@, views(e.links@), target@);
    }
    if str_starts_with(e.id.as_str(), target) {
        return false;
    }
    let ghost lv = views(e.links@);
    let mut i: usize = 0;
    while i < e.links.len()
        invariant
            i <= e.links.len(),
            lv == views(e.links@),
            !starts_with(e@.id, target@),
            entry_lines(e@, target@).len() > 0 <==> exists|j: int| 0 <= j < lv.len() && #[trigger] link_points(lv[j], target@),
            forall|j: int| 0 <= j < i ==> !link_points(#[trigger] lv[j], target@),
        decreases e.links.len() - i,
    {
        assert(lv[i as int] == e.links@[i as int]@);
        match str_split_once(e.links[i].as_str(), ':') {
            Some((_rel, t)) => {
                if str_starts_with(target, t.as_str()) || str_starts_with(t.as_str(), target) {
                    assert(link_points(lv[i as int], target@));
                    return true;
                }
            },
            None => {},
        }
        i = i + 1;
    }
    false
}

/// The links from other entities that point at `target`, as
/// `[kind] relationship: <short id>` lines, sorted, each once. `entries`
/// are the stored notes, bookmarks and tasks.
pub fn get_incoming_links(entries: &Vec<Entry>, target: &str) -> (r: Vec<String>)
    requires
        ids_truncatable(entry_views(entries@), target@),
    ensures
        strictly_sorted(views(r@)),
        forall|y: Seq<char>| #[trigger] views(r@).contains(y) <==> incoming_lines(entry_views(entries@), target@).contains(y),
{
    let ghost ev = entry_views(entries@);
    let mut out: Vec<String> = Vec::new();
    let mut i: usize = 0;
    while i < entries.len()
        invariant
            i <= entries.len(),
            ev == entry_views(entries@),
            ids_truncatable(ev, target@),
            strictly_sorted(views(out@)),
            forall|y: Seq<char>| #[trigger] views(out@).contains(y) <==> incoming_lines(ev.take(i as int), target@).contains(y),
        decreases entries.len() - i,
    {
        let ghost next = ev.take(i + 1);
        assert(next.drop_last() =~= ev.take(i as int));
        assert(next.last() == entries@[i as int]@);
        let e = &entries[i];
        let ghost base = incoming_lines(ev.take(i as int), target@);
        if !str_starts_with(e.id.as_str(), target) {
            let mut j: usize = 0;
            assert(views(e.links@).take(0) =~= Seq::<Seq<char>>::empty());
            while j < e.links.len()
                invariant
                    j <= e.links.len(),
                    ev == entry_views(entries@),
                    i < entries.len(),
                    *e == entries@[i as int],
                    !starts_with(e.id@, target@),
                    ids_truncatable(ev, target@),
                    strictly_sorted(views(out@)),
                    forall|y: Seq<char>| #[trigger] views(out@).contains(y) <==> (base + link_lines(e.kind, e.id@, views(e.links@).take(j as int), target@)).contains(y),
                decreases e.links.len() - j,
            {
                let ghost lt = views(e.links@).take(j + 1);
                assert(lt.drop_last() =~= views(e.links@).take(j as int));
                assert(lt.last() == e.links@[j as int]@);
                let ghost prev = link_lines(e.kind, e.id@, views(e.links@).take(j as int), target@);
                match str_split_once(e.links[j].as_str(), ':') {
                    Some((rel, t)) => {
                        if str_starts_with(target, t.as_str()) || str_starts_with(t.as_str(), target) {
                            proof {
                                assert(ev[i as int] == e@);
                                assert(link_lines(e.kind, e.id@, views(e.links@), target@).len() > 0) by {
                                    lemma_link_lines_prefix(e.kind, e.id@, views(e.links@), target@, j + 1);
                                }
                                assert(entry_lines(ev[i as int], target@).len() > 0);
                            }
                            let short = byte_prefix_exec(e.id.as_str(), 8);
                            let mut line = own("[");
                            line.append(e.kind.as_str());
                            line.append("] ");
                            line.append(rel.as_str());
                            line.append(": ");
                            line.append(short.as_str());
                            let ghost lv = line@;
                            insert_sorted(&mut out, line);
                            assert(link_lines(e.kind, e.id@, lt, target@) =~= prev.push(lv));
                            assert forall|y: Seq<char>| #[trigger] views(out@).contains(y) <==> (base + link_lines(e.kind, e.id@, lt, target@)).contains(y) by {
                                lemma_contains_append_push(base, prev, lv, y);
                            }
                        } else {
                            assert(link_lines(e.kind, e.id@, lt, target@) =~= prev);
                        }
                    },
                    None => {
                        assert(link_lines(e.kind, e.id@, lt, target@) =~= prev);
                    },
                }
                j = j + 1;
            }
            assert(views(e.links@).take(e.links.len() as int) =~= views(e.links@));
            assert(incoming_lines(next, target@) =~= base + link_lines(e.kind, e.id@, views(e.links@), target@));
        } else {
            assert(incoming_lines(next, target@) =~= base);
        }
        i = i + 1;
    }
    assert(ev.take(entries.len() as int) =~= ev);
    out
}

/// Lemma: a line produced by an early link is produced for the whole list.
proof fn lemma_link_lines_prefix(kind: EntityKind, id: Seq<char>, links: Seq<Seq<char>>, target: Seq<char>, n: int)
    requires
        0 < n <= links.len(),
        link_lines(kind, id, links.take(n), target).len() > 0,
    ensures
        link_lines(kind, id, links, target).len() > 0,
    decreases links.len() - n,
{
    if n < links.len() {
        assert(links.take(n + 1).drop_last() =~= links.take(n));
        lemma_link_lines_prefix(kind, id, links, target, n + 1);
    } else {
        assert(links.take(n) =~= links);
    }
}

/// Lemma: membership in `a + b.push(x)`.
proof fn lemma_contains_append_push(a: Seq<Seq<char>>, b: Seq<Seq<char>>, x: Seq<char>, y: Seq<char>)
    ensures
        (a + b.push(x)).contains(y) <==> (a + b).contains(y) || y == x,
{
    let l = a + b.push(x);
    let m = a + b;
    if l.contains(y) {
        let k = choose|k: int| 0 <= k < l.len() && l[k] == y;
        if k < m.len() {
            assert(m[k] == y);
        }
    }
    if m.contains(y) {
        let k = choose|k: int| 0 <= k < m.len() && m[k] == y;
        assert(l[k] == y);
    }
    if y == x {
        assert(l[l.len() - 1] == y);
    }
}

// ---------------------------------------------------------------------------
// The checklist round trip
// ---------------------------------------------------------------------------

/// A checklist item that its line reads back as: its text is words
/// separated by single spaces, none of which starts with `#`; its tags are
/// non-empty, hold no whitespace and start with `#`; and it has a text or
/// a tag.
pub open spec fn item_ok(it: SItem) -> bool {
    let ws = fields(it.text, Sep::Whitespace);
    &&& join(ws, " "@) == it.text
    &&& forall|i: int| 0 <= i < ws.len() ==> !starts_with(#[trigger] ws[i], "#"@)
    &&& words_ok(it.tags, Sep::Whitespace)
    &&& forall|i: int| 0 <= i < it.tags.len() ==> starts_with(#[trigger] it.tags[i], "#"@)
    &&& (it.text.len() > 0 || it.tags.len() > 0)
}

/// Lemma: tag and text words of a concatenation.
proof fn lemma_words_append(a: Seq<Seq<char>>, b: Seq<Seq<char>>)
    ensures
        tag_words(a + b) == tag_words(a) + tag_words(b),
        text_words(a + b) == text_words(a) + text_words(b),
    decreases a.len(),
{
    if a.len() == 0 {
        assert(a + b =~= b);
    } else {
        assert((a + b)[0] == a[0]);
        assert((a + b).drop_first() =~= a.drop_first() + b);
        lemma_words_append(a.drop_first(), b);
    }
}

/// Lemma: words that all start with `#` are all tags.
proof fn lemma_words_all_tags(ws: Seq<Seq<char>>)
    requires
        forall|i: int| 0 <= i < ws.len() ==> starts_with(#[trigger] ws[i], "#"@),
    ensures
        tag_words(ws) == ws,
        text_words(ws) == Seq::<Seq<char>>::empty(),
    decreases ws.len(),
{
    if ws.len() > 0 {
        assert(starts_with(ws[0], "#"@));
        assert forall|i: int| 0 <= i < ws.drop_first().len() implies starts_with(#[trigger] ws.drop_first()[i], "#"@) by {
            assert(ws.drop_first()[i] == ws[i + 1]);
        }
        lemma_words_all_tags(ws.drop_first());
        assert(seq![ws[0]] + ws.drop_first() =~= ws);
    }
}

/// Lemma: words none of which starts with `#` are all text.
proof fn lemma_words_no_tags(ws: Seq<Seq<char>>)
    requires
        forall|i: int| 0 <= i < ws.len() ==> !starts_with(#[trigger] ws[i], "#"@),
    ensures
        tag_words(ws) == Seq::<Seq<char>>::empty(),
        text_words(ws) == ws,
    decreases ws.len(),
{
    if ws.len() > 0 {
        assert(!starts_with(ws[0], "#"@));
        assert forall|i: int| 0 <= i < ws.drop_first().len() implies !starts_with(#[trigger] ws.drop_first()[i], "#"@) by {
            assert(ws.drop_first()[i] == ws[i + 1]);
        }
        lemma_words_no_tags(ws.drop_first());
        assert(seq![ws[0]] + ws.drop_first() =~= ws);
    }
}

/// Lemma: a character in neither part is not in their concatenation.
proof fn lemma_concat_lacks(a: Seq<char>, b: Seq<char>, c: char)
    requires
        !a.contains(c),
        !b.contains(c),
    ensures
        !(a + b).contains(c),
{
    if (a + b).contains(c) {
        let k = choose|k: int| 0 <= k < (a + b).len() && (a + b)[k] == c;
        if k < a.len() {
            assert(a[k] == c);
        } else {
            assert(b[k - a.len()] == c);
        }
    }
}

/// Lemma: words without whitespace hold no line break.
proof fn lemma_words_lack_nl(ws: Seq<Seq<char>>)
    requires
        words_ok(ws, Sep::Whitespace),
    ensures
        forall|i: int| 0 <= i < ws.len() ==> !(#[trigger] ws[i]).contains('\n'),
{
    assert forall|i: int| 0 <= i < ws.len() implies !(#[trigger] ws[i]).contains('\n') by {
        assert(ws[i].len() > 0 && no_sep(ws[i], Sep::Whitespace));
        if ws[i].contains('\n') {
            let k = choose|k: int| 0 <= k < ws[i].len() && ws[i][k] == '\n';
            assert(!is_sep(Sep::Whitespace, ws[i][k]));
        }
    }
}

/// Lemma: the checklist line of a well-formed item is a line of its own
/// that reads back as the item.
proof fn lemma_item_line(it: SItem)
    requires
        item_ok(it),
    ensures
        item_line(it).len() > 0,
        !item_line(it).contains('\n'),
        item_line(it).last() != '\r',
        trim(item_line(it)) == item_line(it),
        checklist_prefix(item_line(it)) == Some((it.completed, item_line(it).skip(6))),
        parse_item(it.completed, item_line(it).skip(6)) == it,
{
    reveal_strlit("- [");
    reveal_strlit("x");
    reveal_strlit(" ");
    reveal_strlit("] ");
    reveal_strlit("  ");
    reveal_strlit("- [ ] ");
    reveal_strlit("- [x] ");
    reveal_strlit("#");
    let x = if it.completed {
        "x"@
    } else {
        " "@
    };
    let ws = fields(it.text, Sep::Whitespace);
    let j = join(it.tags, " "@);
    let tp = if it.tags.len() == 0 {
        Seq::<char>::empty()
    } else {
        "  "@ + j
    };
    let line = item_line(it);
    assert(line =~= "- ["@ + x + "] "@ + it.text + tp);
    let rest = it.text + tp;
    assert(line.skip(6) =~= rest);
    // the prefix
    if it.completed {
        assert(line.take(6) =~= "- [x] "@);
        assert(!starts_with(line, "- [ ] "@)) by {
            assert(line[3] == 'x');
            assert("- [ ] "@[3] == ' ');
            assert(line.take(6)[3] == line[3]);
        }
    } else {
        assert(line.take(6) =~= "- [ ] "@);
    }
    // the words
    lemma_fields_words_ok(it.text, Sep::Whitespace, Seq::empty());
    assert(words_ok(ws, Sep::Whitespace));
    lemma_words_no_tags(ws);
    lemma_words_all_tags(it.tags);
    if it.tags.len() == 0 {
        assert(rest =~= it.text);
        assert(tag_words(ws) =~= it.tags);
    } else {
        assert(rest =~= it.text + seq![' '] + (seq![' '] + j));
        lemma_fields_split(it.text, ' ', seq![' '] + j, Sep::Whitespace, Seq::empty());
        lemma_fields_join(it.tags, ' ', Sep::Whitespace);
        assert(" "@ =~= seq![' ']);
        let sj = seq![' '] + j;
        assert(sj[0] == ' ');
        assert(sj.drop_first() =~= j);
        assert(fields(sj, Sep::Whitespace) =~= fields(j, Sep::Whitespace));
        assert(fields(rest, Sep::Whitespace) =~= ws + it.tags);
        lemma_words_append(ws, it.tags);
        assert(tag_words(ws + it.tags) =~= it.tags);
        assert(text_words(ws + it.tags) =~= ws);
    }
    // no line break
    assert(" "@ =~= seq![' ']);
    lemma_words_lack_nl(ws);
    lemma_join_lacks(ws, " "@, '\n');
    assert(!" "@.contains('\n')) by {
        if " "@.contains('\n') {
            let k = choose|k: int| 0 <= k < " "@.len() && " "@[k] == '\n';
        }
    }
    assert(!it.text.contains('\n'));
    assert(!tp.contains('\n')) by {
        if it.tags.len() > 0 {
            lemma_words_lack_nl(it.tags);
            lemma_join_lacks(it.tags, " "@, '\n');
            assert(!"  "@.contains('\n')) by {
                if "  "@.contains('\n') {
                    let k = choose|k: int| 0 <= k < "  "@.len() && "  "@[k] == '\n';
                }
            }
            lemma_concat_lacks("  "@, j, '\n');
        }
    }
    let head = "- ["@ + x + "] "@;
    assert(!head.contains('\n')) by {
        if head.contains('\n') {
            let k = choose|k: int| 0 <= k < head.len() && head[k] == '\n';
        }
    }
    lemma_concat_lacks(head, it.text, '\n');
    lemma_concat_lacks(head + it.text, tp, '\n');
    assert(line =~= head + it.text + tp);
    // the last character is no whitespace
    if it.tags.len() > 0 {
        let lt = it.tags.last();
        assert(lt == it.tags[it.tags.len() - 1]);
        assert(lt.len() > 0 && no_sep(lt, Sep::Whitespace));
        lemma_join_last(it.tags, " "@);
        assert(line.last() == j.last());
        assert(!is_ws(lt[lt.len() - 1]));
    } else {
        assert(it.text.len() > 0);
        assert(ws.len() > 0);
        let lw = ws.last();
        assert(lw == ws[ws.len() - 1]);
        assert(lw.len() > 0 && no_sep(lw, Sep::Whitespace));
        lemma_join_last(ws, " "@);
        assert(line.last() == it.text.last());
        assert(!is_ws(lw[lw.len() - 1]));
    }
    assert(!is_ws(line[0]));
    assert(trim_start(line) == line);
    assert(trim_end(line) == line);
}

/// Lemma: the lines of well-formed items are all items.
proof fn lemma_split_item_lines(items: Seq<SItem>)
    requires
        forall|i: int| 0 <= i < items.len() ==> item_ok(#[trigger] items[i]),
    ensures
        split_body_lines(item_lines(items)) == (Seq::<Seq<char>>::empty(), items),
    decreases items.len(),
{
    if items.len() > 0 {
        let ls = item_lines(items);
        assert(ls[0] == item_line(items[0]));
        lemma_item_line(items[0]);
        assert(ls.drop_first() =~= item_lines(items.drop_first()));
        assert forall|i: int| 0 <= i < items.drop_first().len() implies item_ok(#[trigger] items.drop_first()[i]) by {
            assert(items.drop_first()[i] == items[i + 1]);
        }
        lemma_split_item_lines(items.drop_first());
        assert(seq![items[0]] + items.drop_first() =~= items);
    } else {
        assert(item_lines(items) =~= Seq::<Seq<char>>::empty());
    }
}

/// Law: a task's items written as a checklist read back as the same
/// items, with no description, when every item is well formed (see
/// [`item_ok`]).
pub proof fn law_checklist_round_trip(items: Seq<SItem>)
    requires
        forall|i: int| 0 <= i < items.len() ==> item_ok(#[trigger] items[i]),
    ensures
        spec_body_to_components(spec_items_to_body(items)) == (None::<Seq<char>>, items),
{
    let ls = item_lines(items);
    assert(lines_ok(ls)) by {
        assert forall|i: int| 0 <= i < ls.len() implies (#[trigger] ls[i]).len() > 0 && !ls[i].contains('\n') && ls[i].last() != '\r' by {
            assert(ls[i] == item_line(items[i]));
            lemma_item_line(items[i]);
        }
    }
    lemma_lines_join(ls);
    lemma_split_item_lines(items);
    assert(join(Seq::<Seq<char>>::empty(), "\n"@) =~= Seq::<char>::empty());
    assert(trim(Seq::<char>::empty()) =~= Seq::<char>::empty());
}

/// Lemma: the description lines and items of two runs of lines are those
/// of each, in order.
proof fn lemma_split_body_append(a: Seq<Seq<char>>, b: Seq<Seq<char>>)
    ensures
        split_body_lines(a + b) == (split_body_lines(a).0 + split_body_lines(b).0, split_body_lines(a).1
            + split_body_lines(b).1),
    decreases a.len(),
{
    if a.len() == 0 {
        assert(a + b =~= b);
        assert(Seq::<Seq<char>>::empty() + split_body_lines(b).0 =~= split_body_lines(b).0);
        assert(Seq::<SItem>::empty() + split_body_lines(b).1 =~= split_body_lines(b).1);
    } else {
        assert((a + b)[0] == a[0]);
        assert((a + b).drop_first() =~= a.drop_first() + b);
        lemma_split_body_append(a.drop_first(), b);
        let (da, ia) = split_body_lines(a.drop_first());
        let (db, ib) = split_body_lines(b);
        match checklist_prefix(trim(a[0])) {
            Some((c, rest)) => {
                assert(seq![parse_item(c, rest)] + (ia + ib) =~= (seq![parse_item(c, rest)] + ia) + ib);
            },
            None => {
                assert(seq![a[0]] + (da + db) =~= (seq![a[0]] + da) + db);
            },
        }
    }
}

/// Lemma: lines none of which is a checklist line are all description.
proof fn lemma_split_desc_lines(ls: Seq<Seq<char>>)
    requires
        forall|i: int| 0 <= i < ls.len() ==> checklist_prefix(trim(#[trigger] ls[i])) is None,
    ensures
        split_body_lines(ls) == (ls, Seq::<SItem>::empty()),
    decreases ls.len(),
{
    if ls.len() > 0 {
        assert(checklist_prefix(trim(ls[0])) is None);
        assert forall|i: int| 0 <= i < ls.drop_first().len() implies checklist_prefix(trim(#[trigger] ls.drop_first()[i])) is None by {
            assert(ls.drop_first()[i] == ls[i + 1]);
        }
        lemma_split_desc_lines(ls.drop_first());
        assert(seq![ls[0]] + ls.drop_first() =~= ls);
    }
}

/// A description that reads back as itself from a task body: not empty,
/// left as it is by trimming, its lines joined by line breaks giving it
/// back (no `\r` before a line break), and no line a checklist line.
pub open spec fn description_ok(d: Seq<char>) -> bool {
    &&& d.len() > 0
    &&& trim(d) == d
    &&& join(lines(d), "\n"@) == d
    &&& forall|i: int| 0 <= i < lines(d).len() ==> checklist_prefix(trim(#[trigger] lines(d)[i])) is None
}

/// Lemma: a task body made of a description, an empty line and a
/// checklist reads back as that description and those items.
pub proof fn lemma_body_with_description(d: Seq<char>, items: Seq<SItem>)
    requires
        description_ok(d),
        forall|i: int| 0 <= i < items.len() ==> item_ok(#[trigger] items[i]),
    ensures
        spec_body_to_components(d + "\n\n"@ + spec_items_to_body(items)) == (Some(d), items),
{
    reveal_strlit("\n");
    lemma_trimmed_newline(d);
    let x = spec_items_to_body(items);
    lemma_lines_paragraph(d, x);
    let ls = item_lines(items);
    assert(lines_ok(ls)) by {
        assert forall|i: int| 0 <= i < ls.len() implies (#[trigger] ls[i]).len() > 0 && !ls[i].contains('\n') && ls[i].last() != '\r' by {
            assert(ls[i] == item_line(items[i]));
            lemma_item_line(items[i]);
        }
    }
    lemma_lines_join(ls);
    lemma_split_item_lines(items);
    let e = Seq::<char>::empty();
    let dl = lines(d);
    let a = dl + seq![e];
    assert forall|i: int| 0 <= i < a.len() implies checklist_prefix(trim(#[trigger] a[i])) is None by {
        if i < dl.len() {
            assert(a[i] == dl[i]);
        } else {
            assert(a[i] == e);
            assert(trim(e) =~= e);
            reveal_strlit("- [ ] ");
            reveal_strlit("- [x] ");
            reveal_strlit("- [X] ");
            reveal_strlit("-- [ ] ");
            reveal_strlit("-- [x] ");
            reveal_strlit("-- [X] ");
        }
    }
    lemma_split_desc_lines(a);
    lemma_split_body_append(a, ls);
    assert(a + Seq::<Seq<char>>::empty() =~= a);
    assert(Seq::<SItem>::empty() + items =~= items);
    assert(dl.len() > 0) by {
        if dl.len() == 0 {
            assert(join(dl, "\n"@) =~= Seq::<char>::empty());
        }
    }
    assert(a.drop_last() =~= dl);
    assert(join(a, "\n"@) == join(dl, "\n"@) + "\n"@ + e);
    assert(join(a, "\n"@) =~= d + seq!['\n']);
}

/// The file name `name` stands for an id that starts with `prefix`.
pub open spec fn names_match(name: Seq<char>, prefix: Seq<char>) -> bool {
    md_stem(name) matches Some(st) && starts_with(st, prefix)
}

/// Lemma: without a file whose id starts with the prefix, no id matches.
proof fn lemma_no_matching_ids(names: Seq<Seq<char>>, prefix: Seq<char>)
    requires
        forall|i: int| 0 <= i < names.len() ==> !names_match(#[trigger] names[i], prefix),
    ensures
        matching_ids(names, prefix) == Seq::<Seq<char>>::empty(),
    decreases names.len(),
{
    if names.len() > 0 {
        assert(!names_match(names[names.len() - 1], prefix));
        lemma_no_matching_ids(names.drop_last(), prefix);
        assert(matching_ids(names, prefix) =~= Seq::<Seq<char>>::empty());
    }
}

/// Lemma: with exactly one file whose id starts with the prefix, that id
/// is the only match.
proof fn lemma_one_matching_id(names: Seq<Seq<char>>, prefix: Seq<char>, id: Seq<char>)
    requires
        names.no_duplicates(),
        names.contains(id + ".md"@),
        names_match(id + ".md"@, prefix),
        md_stem(id + ".md"@) == Some(id),
        forall|i: int| 0 <= i < names.len() && names_match(#[trigger] names[i], prefix) ==> names[i] == id + ".md"@,
    ensures
        matching_ids(names, prefix) == seq![id],
    decreases names.len(),
{
    let n = id + ".md"@;
    let last = names[names.len() - 1];
    let init = names.drop_last();
    assert forall|i: int| 0 <= i < init.len() && names_match(#[trigger] init[i], prefix) implies init[i] == n by {
        assert(init[i] == names[i]);
    }
    if last == n {
        assert forall|i: int| 0 <= i < init.len() implies !names_match(#[trigger] init[i], prefix) by {
            assert(init[i] == names[i]);
            if names_match(init[i], prefix) {
                assert(names[i] == names[names.len() - 1]);
            }
        }
        lemma_no_matching_ids(init, prefix);
        assert(matching_ids(names, prefix) =~= seq![id]);
    } else {
        let k = choose|k: int| 0 <= k < names.len() && names[k] == n;
        assert(k < names.len() - 1);
        assert(init[k] == n);
        assert(init.no_duplicates()) by {
            assert forall|a: int, b: int| 0 <= a < init.len() && 0 <= b < init.len() && a != b implies init[a] != init[b] by {
                assert(init[a] == names[a] && init[b] == names[b]);
            }
        }
        lemma_one_matching_id(init, prefix, id);
        assert(!names_match(last, prefix));
        assert(matching_ids(names, prefix) =~= seq![id]);
    }
}

/// Law: an id prefix resolves to the one stored entity whose id starts
/// with it, when no other file's id starts with it (file names in a
/// directory are distinct; the prefix is not empty unless no file is named
/// just `.md`).
pub proof fn law_unique_prefix_resolves(names: Seq<Seq<char>>, prefix: Seq<char>, id: Seq<char>)
    requires
        names.no_duplicates(),
        names.contains(id + ".md"@),
        id.len() > 0,
        starts_with(id, prefix),
        prefix.len() > 0 || !names.contains(".md"@),
        forall|i: int| 0 <= i < names.len() && names_match(#[trigger] names[i], prefix) ==> names[i] == id + ".md"@,
    ensures
        spec_resolve_id(names, prefix) == Ok::<Seq<char>, SStorageError>(id),
{
    reveal_strlit(".md");
    let n = id + ".md"@;
    assert(n.skip(n.len() - 3) =~= ".md"@);
    assert(n.take(n.len() - 3) =~= id);
    assert(md_stem(n) == Some(id));
    if names.contains(prefix + ".md"@) {
        let p = prefix + ".md"@;
        let k = choose|k: int| 0 <= k < names.len() && names[k] == p;
        if prefix.len() > 0 {
            assert(p.skip(p.len() - 3) =~= ".md"@);
            assert(p.take(p.len() - 3) =~= prefix);
            assert(starts_with(prefix, prefix)) by {
                assert(prefix.take(prefix.len() as int) =~= prefix);
            }
            assert(names_match(names[k], prefix));
            assert(p == n);
            assert(prefix =~= p.take(p.len() - 3));
            assert(id =~= n.take(n.len() - 3));
        } else {
            assert(p =~= ".md"@);
        }
    } else {
        lemma_one_matching_id(names, prefix, id);
    }
}

/// Lemma: a pattern no longer than `m` starts `m + r` exactly when it
/// starts `m`; and `m + r` without `m` is `r`.
proof fn lemma_marker_prefix(m: Seq<char>, r: Seq<char>, p: Seq<char>)
    requires
        p.len() <= m.len(),
    ensures
        starts_with(m + r, p) == starts_with(m, p),
        (m + r).skip(m.len() as int) == r,
{
    assert((m + r).take(p.len() as int) =~= m.take(p.len() as int));
    assert((m + r).skip(m.len() as int) =~= r);
}

/// Lemma: `m` does not start with `p` where they differ at `k`.
proof fn lemma_differs_at(m: Seq<char>, p: Seq<char>, k: int)
    requires
        0 <= k < p.len() <= m.len(),
        m[k] != p[k],
    ensures
        !starts_with(m, p),
{
    assert(m.take(p.len() as int)[k] == m[k]);
}

/// Lemma: a sequence starts with itself.
proof fn lemma_starts_self(m: Seq<char>)
    ensures
        starts_with(m, m),
{
    assert(m.take(m.len() as int) =~= m);
}

/// Law: the checklist markers. A checklist line, trimmed, is read by its
/// marker: `- [ ] ` (or `-- [ ] `) opens an item that is not done, and
/// `- [x] `, `- [X] ` (or `-- [x] `, `-- [X] `) one that is done, the rest of
/// the line, whatever it is, being the item's text and tags.
pub proof fn law_checklist_markers(r: Seq<char>)
    ensures
        checklist_prefix("- [ ] "@ + r) == Some((false, r)),
        checklist_prefix("- [x] "@ + r) == Some((true, r)),
        checklist_prefix("- [X] "@ + r) == Some((true, r)),
        checklist_prefix("-- [ ] "@ + r) == Some((false, r)),
        checklist_prefix("-- [x] "@ + r) == Some((true, r)),
        checklist_prefix("-- [X] "@ + r) == Some((true, r)),
{
    let o = "- [ ] "@;
    let x = "- [x] "@;
    let xx = "- [X] "@;
    let o2 = "-- [ ] "@;
    let x2 = "-- [x] "@;
    let xx2 = "-- [X] "@;
    reveal_strlit("- [ ] ");
    reveal_strlit("- [x] ");
    reveal_strlit("- [X] ");
    reveal_strlit("-- [ ] ");
    reveal_strlit("-- [x] ");
    reveal_strlit("-- [X] ");
    lemma_starts_self(o);
    lemma_starts_self(x);
    lemma_starts_self(xx);
    lemma_starts_self(o2);
    lemma_starts_self(x2);
    lemma_starts_self(xx2);
    // "- [ ] "
    lemma_marker_prefix(o, r, o);
    // "- [x] "
    lemma_marker_prefix(x, r, o);
    lemma_marker_prefix(x, r, x);
    lemma_differs_at(x, o, 3);
    // "- [X] "
    lemma_marker_prefix(xx, r, o);
    lemma_marker_prefix(xx, r, x);
    lemma_marker_prefix(xx, r, xx);
    lemma_differs_at(xx, o, 3);
    lemma_differs_at(xx, x, 3);
    // "-- [ ] " and the rest: the second character is `-`, not ` `.
    lemma_marker_prefix(o2, r, o);
    lemma_marker_prefix(o2, r, x);
    lemma_marker_prefix(o2, r, xx);
    lemma_marker_prefix(o2, r, o2);
    lemma_differs_at(o2, o, 1);
    lemma_differs_at(o2, x, 1);
    lemma_differs_at(o2, xx, 1);
    lemma_marker_prefix(x2, r, o);
    lemma_marker_prefix(x2, r, x);
    lemma_marker_prefix(x2, r, xx);
    lemma_marker_prefix(x2, r, o2);
    lemma_marker_prefix(x2, r, x2);
    lemma_differs_at(x2, o, 1);
    lemma_differs_at(x2, x, 1);
    lemma_differs_at(x2, xx, 1);
    lemma_differs_at(x2, o2, 4);
    lemma_marker_prefix(xx2, r, o);
    lemma_marker_prefix(xx2, r, x);
    lemma_marker_prefix(xx2, r, xx);
    lemma_marker_prefix(xx2, r, o2);
    lemma_marker_prefix(xx2, r, x2);
    lemma_marker_prefix(xx2, r, xx2);
    lemma_differs_at(xx2, o, 1);
    lemma_differs_at(xx2, x, 1);
    lemma_differs_at(xx2, xx, 1);
    lemma_differs_at(xx2, o2, 4);
    lemma_differs_at(xx2, x2, 4);
}

/// Law: a checked line of a task body, `- [x] ` or `- [X] ` after trimming,
/// is read as a done item, and an unchecked one, `- [ ] `, as an open item;
/// either way the line becomes the first item of what follows and is not
/// part of the description.
pub proof fn law_checked_line_is_done(ls: Seq<Seq<char>>, r: Seq<char>)
    requires
        ls.len() > 0,
        trim(ls[0]) == "- [x] "@ + r || trim(ls[0]) == "- [X] "@ + r || trim(ls[0]) == "- [ ] "@ + r,
    ensures
        split_body_lines(ls).0 == split_body_lines(ls.drop_first()).0,
        split_body_lines(ls).1 == seq![parse_item(trim(ls[0]) != "- [ ] "@ + r, r)] + split_body_lines(ls.drop_first()).1,
        split_body_lines(ls).1[0].completed <==> trim(ls[0]) != "- [ ] "@ + r,
{
    law_checklist_markers(r);
    reveal_strlit("- [ ] ");
    reveal_strlit("- [x] ");
    reveal_strlit("- [X] ");
    assert("- [x] "@ + r != "- [ ] "@ + r) by {
        assert(("- [x] "@ + r)[3] != ("- [ ] "@ + r)[3]);
    }
    assert("- [X] "@ + r != "- [ ] "@ + r) by {
        assert(("- [X] "@ + r)[3] != ("- [ ] "@ + r)[3]);
    }
}

} // verus!
