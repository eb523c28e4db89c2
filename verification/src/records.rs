//! Entities read from and written to their files. A file is
//! `---\n<YAML frontmatter>---\n<body>`; the application turns the YAML
//! into a [`Frontmatter`] (or, for files of the earlier format, a
//! [`LegacyFrontmatter`]) and back, and this module does the rest.

use vstd::prelude::*;

use crate::models::{Bookmark, EntityKind, Note, SItem, Task, TaskItem, Timestamp, item_views};
use crate::storage::{
    Frontmatter, LegacyFrontmatter, SStorageError, StorageError, body_to_components, extract_title,
    items_to_body, space_string_to_vec, spec_body_to_components, spec_extract_title,
    spec_items_to_body, spec_parse_znote, spec_split_frontmatter, vec_to_space_string, item_ok,
    law_checklist_round_trip, description_ok, lemma_body_with_description,
};
use crate::text::{
    Sep, concat, contains_sub, copy, copy_all, ends_with, fields, join, lemma_fields_join,
    lemma_find_first, lemma_find_none, lemma_split_no_sep, lemma_split_sep, occurs_at, opt_view,
    own, split_char, str_eq, str_split_char, str_trim_start_char, trim_start_char, views,
    words_ok,
};

verus! {

// ---------------------------------------------------------------------------
// Bookmark titles
// ---------------------------------------------------------------------------

/// The parts of a parsed URL that a bookmark title is made from.
#[derive(Debug)]
pub struct ParsedUrl {
    /// The scheme, lower-cased, without `:`.
    pub scheme: String,
    /// The host, when the URL has one.
    pub host: Option<String>,
    /// The path.
    pub path: String,
    /// The whole URL as written back, its password removed.
    pub text: String,
}

/// What `url::Url::parse` makes of a string, read through [`ParsedUrl`]'s
/// fields after `set_password(None)`: scheme, host, path and the URL
/// written back; `None` when the string is not an absolute URL.
pub uninterp spec fn parsed_url(raw: Seq<char>) -> Option<(Seq<char>, Option<Seq<char>>, Seq<char>, Seq<char>)>;

/// The model of a parsed URL.
pub open spec fn parsed_view(p: Option<ParsedUrl>) -> Option<(Seq<char>, Option<Seq<char>>, Seq<char>, Seq<char>)> {
    match p {
        Some(u) => Some((u.scheme@, opt_view(u.host), u.path@, u.text@)),
        None => None,
    }
}

/// Parses `raw` with `url::Url::parse`, removes any password with
/// `set_password(None)` and reads `scheme()`, `host_str()`, `path()` and
/// the URL written back (`to_string()`). The result is named
/// [`parsed_url`]: it depends on the text alone; what the URL standard
/// makes of it is not stated here.
#[verifier::external_body]
fn parse_url(raw: &str) -> (r: Option<ParsedUrl>)
    ensures
        parsed_view(r) == parsed_url(raw@),
{
    match url::Url::parse(raw) {
        Ok(mut u) => {
            let _ = u.set_password(None);
            let host = match u.host_str() {
                Some(h) => Some(h.to_string()),
                None => None,
            };
            Some(ParsedUrl { scheme: u.scheme().to_string(), host, path: u.path().to_string(), text: u.to_string() })
        },
        Err(_) => None,
    }
}

/// The pieces among `ps` that are neither empty nor `.`, in order.
pub open spec fn kept_parts(ps: Seq<Seq<char>>) -> Seq<Seq<char>>
    decreases ps.len(),
{
    if ps.len() == 0 {
        Seq::empty()
    } else {
        kept_parts(ps.drop_last()) + if ps.last().len() > 0 && ps.last() != "."@ {
            seq![ps.last()]
        } else {
            Seq::empty()
        }
    }
}

/// The non-empty components of a path other than `.`, in order.
pub open spec fn path_parts(path: Seq<char>) -> Seq<Seq<char>> {
    kept_parts(split_char(path, '/'))
}

/// The file name of a path (`Path::file_name`): its last component, unless
/// there is none or it is `..`.
pub open spec fn file_name(path: Seq<char>) -> Option<Seq<char>> {
    let ps = path_parts(path);
    if ps.len() == 0 || ps.last() == ".."@ {
        None
    } else {
        Some(ps.last())
    }
}

/// A title for a bookmark made from its URL, given what the URL parser made
/// of it: the host of a web URL (the URL itself when it has none), the file
/// name of a file URL (else `Local File`), the URL written back without its
/// password otherwise, and `Untitled Bookmark` when it does not parse.
pub open spec fn spec_safe_title(raw: Seq<char>, parsed: Option<(Seq<char>, Option<Seq<char>>, Seq<char>, Seq<char>)>) -> Seq<char> {
    match parsed {
        None => "Untitled Bookmark"@,
        Some((scheme, host, path, text)) => if scheme == "http"@ || scheme == "https"@ {
            match host {
                Some(h) => h,
                None => raw,
            }
        } else if scheme == "file"@ {
            match file_name(path) {
                Some(n) => n,
                None => "Local File"@,
            }
        } else {
            text
        },
    }
}

/// The file name of a path (see [`file_name`]).
fn file_name_exec(path: &str) -> (r: Option<String>)
    ensures
        opt_view(r) == file_name(path@),
{
    let parts = str_split_char(path, '/');
    let ghost pv = views(parts@);
    let mut kept: Vec<String> = Vec::new();
    let mut i: usize = 0;
    proof {
        reveal_strlit(".");
    }
    assert(pv.take(0) =~= Seq::<Seq<char>>::empty());
    while i < parts.len()
        invariant
            i <= parts.len(),
            pv == views(parts@),
            views(kept@) == kept_parts(pv.take(i as int)),
        decreases parts.len() - i,
    {
        let ghost next = pv.take(i + 1);
        assert(next.drop_last() =~= pv.take(i as int));
        assert(next.last() == parts@[i as int]@);
        let ghost before = views(kept@);
        if !parts[i].as_str().is_empty() && !str_eq(parts[i].as_str(), ".") {
            kept.push(copy(&parts[i]));
            assert(views(kept@) =~= before.push(parts@[i as int]@));
        }
        assert(views(kept@) =~= kept_parts(next));
        i = i + 1;
    }
    assert(pv.take(parts.len() as int) =~= pv);
    if kept.len() == 0 {
        return None;
    }
    let last = kept.pop().unwrap();
    if str_eq(last.as_str(), "..") {
        None
    } else {
        Some(last)
    }
}

/// The title for a bookmark of URL `raw`, given what the URL parser made of
/// it (see [`spec_safe_title`]).
pub fn safe_title_of(raw: &str, parsed: &Option<ParsedUrl>) -> (r: String)
    ensures
        r@ == spec_safe_title(raw@, parsed_view(*parsed)),
{
    match parsed {
        None => own("Untitled Bookmark"),
        Some(u) => {
            if str_eq(u.scheme.as_str(), "http") || str_eq(u.scheme.as_str(), "https") {
                match &u.host {
                    Some(h) => copy(h),
                    None => own(raw),
                }
            } else if str_eq(u.scheme.as_str(), "file") {
                match file_name_exec(u.path.as_str()) {
                    Some(n) => n,
                    None => own("Local File"),
                }
            } else {
                copy(&u.text)
            }
        },
    }
}

/// A title for a bookmark that has none, made from its URL without
/// revealing a password in it.
pub fn generate_safe_bookmark_title(raw: &str) -> (r: String)
    ensures
        r@ == spec_safe_title(raw@, parsed_url(raw@)),
{
    let parsed = parse_url(raw);
    safe_title_of(raw, &parsed)
}

// ---------------------------------------------------------------------------
// Reading entities
// ---------------------------------------------------------------------------

/// What the YAML reader made of a frontmatter.
#[derive(Debug)]
pub enum ParsedFrontmatter {
    /// A frontmatter of the current format.
    Current(Frontmatter),
    /// A frontmatter of the earlier format.
    Legacy(LegacyFrontmatter),
    /// Neither; the reader's message.
    Invalid(String),
}

/// A body without the line breaks at its start.
pub open spec fn body_text(body: Seq<char>) -> Seq<char> {
    trim_start_char(body, '\n')
}

/// The id in the `znote` field of a frontmatter.
pub open spec fn znote_id(fm: Frontmatter) -> Seq<char> {
    match spec_parse_znote(fm.znote@) {
        Ok((_, _, id)) => id,
        Err(_) => Seq::empty(),
    }
}

/// The note of a current-format frontmatter and the body that follows it.
pub open spec fn note_from(fm: Frontmatter, body: Seq<char>, n: Note) -> bool {
    &&& n.id@ == znote_id(fm)
    &&& n.content@ == body_text(body)
    &&& n.title@ == spec_extract_title(fm.title@, body_text(body))
    &&& views(n.tags@) == fields(fm.tags@, Sep::Whitespace)
    &&& views(n.links@) == fields(fm.links@, Sep::Whitespace)
    &&& n.created_at == fm.created_at
    &&& n.updated_at == fm.updated_at
}

/// Reads a note from its current-format frontmatter and body; the `znote`
/// field must name its id.
pub fn note_from_frontmatter(fm: &Frontmatter, body: &str) -> (r: Result<Note, StorageError>)
    ensures
        spec_parse_znote(fm.znote@) is Ok <==> r is Ok,
        r matches Ok(n) ==> note_from(*fm, body@, n),
        r matches Err(e) ==> spec_parse_znote(fm.znote@) == Err::<(Seq<char>, Seq<char>, Seq<char>), SStorageError>(e@),
{
    let (_t, _v, id) = fm.parse_znote()?;
    let content = str_trim_start_char(body, '\n');
    let title = extract_title(fm.title.as_str(), content.as_str());
    Ok(Note {
        id,
        title,
        content,
        tags: space_string_to_vec(fm.tags.as_str()),
        links: space_string_to_vec(fm.links.as_str()),
        created_at: fm.created_at,
        updated_at: fm.updated_at,
    })
}

/// Reads a note from an earlier-format frontmatter and body; its id is the
/// one its file name gives.
pub fn note_from_legacy(fm: &LegacyFrontmatter, file_id: &str, body: &str) -> (n: Note)
    ensures
        n.id@ == file_id@,
        n.content@ == body_text(body@),
        n.title@ == spec_extract_title(fm.title@, body_text(body@)),
        views(n.tags@) == views(fm.tags@),
        views(n.links@) == views(fm.links@),
        n.created_at == fm.created_at,
        n.updated_at == fm.updated_at,
{
    let content = str_trim_start_char(body, '\n');
    let title = extract_title(fm.title.as_str(), content.as_str());
    Note {
        id: own(file_id),
        title,
        content,
        tags: copy_all(&fm.tags),
        links: copy_all(&fm.links),
        created_at: fm.created_at,
        updated_at: fm.updated_at,
    }
}

/// Reads a note whose file name gives `file_id`: from a current-format
/// frontmatter if there is one, else from an earlier-format one.
pub fn note_from_parsed(parsed: &ParsedFrontmatter, file_id: &str, body: &str) -> (r: Result<Note, StorageError>)
    ensures
        match parsed {
            ParsedFrontmatter::Current(fm) => (spec_parse_znote(fm.znote@) is Ok <==> r is Ok) && (r matches Ok(n) ==> note_from(*fm, body@, n)),
            ParsedFrontmatter::Legacy(fm) => r matches Ok(n) && n.id@ == file_id@ && n.content@ == body_text(body@)
                && n.title@ == spec_extract_title(fm.title@, body_text(body@)) && views(n.tags@) == views(fm.tags@)
                && views(n.links@) == views(fm.links@) && n.created_at == fm.created_at && n.updated_at == fm.updated_at,
            ParsedFrontmatter::Invalid(m) => r matches Err(e) && e@ == SStorageError::InvalidFrontmatter(m@),
        },
{
    match parsed {
        ParsedFrontmatter::Current(fm) => note_from_frontmatter(fm, body),
        ParsedFrontmatter::Legacy(fm) => Ok(note_from_legacy(fm, file_id, body)),
        ParsedFrontmatter::Invalid(m) => Err(StorageError::InvalidFrontmatter(copy(m))),
    }
}

/// The title of a bookmark: the one extracted from its frontmatter title
/// and body, unless that is `Untitled` and it has a URL, which then gives
/// the title.
pub open spec fn bookmark_title(title: Seq<char>, body: Seq<char>, url: Seq<char>) -> Seq<char> {
    let ext = spec_extract_title(title, body_text(body));
    if ext == "Untitled"@ && url.len() > 0 {
        spec_safe_title(url, parsed_url(url))
    } else {
        ext
    }
}

/// The description of a bookmark: its body without leading line breaks,
/// absent when that is empty.
pub open spec fn description_of(body: Seq<char>) -> Option<Seq<char>> {
    if body_text(body).len() == 0 {
        None
    } else {
        Some(body_text(body))
    }
}

/// The title and description of a bookmark read from its file.
fn bookmark_parts(title: &str, body: &str, url: &str) -> (r: (String, Option<String>))
    ensures
        r.0@ == bookmark_title(title@, body@, url@),
        opt_view(r.1) == description_of(body@),
{
    let text = str_trim_start_char(body, '\n');
    let ext = extract_title(title, text.as_str());
    proof {
        reveal_strlit("Untitled");
    }
    let t = if str_eq(ext.as_str(), "Untitled") && !url.is_empty() {
        generate_safe_bookmark_title(url)
    } else {
        ext
    };
    let d = if text.as_str().is_empty() {
        None
    } else {
        Some(text)
    };
    (t, d)
}

/// The URL in a current-format frontmatter, empty when absent.
pub open spec fn url_of(fm: Frontmatter) -> Seq<char> {
    match fm.url {
        Some(u) => u@,
        None => Seq::empty(),
    }
}

/// The bookmark of a current-format frontmatter and the body that follows
/// it.
pub open spec fn bookmark_from(fm: Frontmatter, body: Seq<char>, b: Bookmark) -> bool {
    &&& b.id@ == znote_id(fm)
    &&& b.url@ == url_of(fm)
    &&& b.title@ == bookmark_title(fm.title@, body, url_of(fm))
    &&& opt_view(b.description) == description_of(body)
    &&& views(b.tags@) == fields(fm.tags@, Sep::Whitespace)
    &&& views(b.links@) == fields(fm.links@, Sep::Whitespace)
    &&& b.created_at == fm.created_at
    &&& b.updated_at == fm.updated_at
}

/// Reads a bookmark from its current-format frontmatter and body.
pub fn bookmark_from_frontmatter(fm: &Frontmatter, body: &str) -> (r: Result<Bookmark, StorageError>)
    ensures
        spec_parse_znote(fm.znote@) is Ok <==> r is Ok,
        r matches Ok(b) ==> bookmark_from(*fm, body@, b),
        r matches Err(e) ==> spec_parse_znote(fm.znote@) == Err::<(Seq<char>, Seq<char>, Seq<char>), SStorageError>(e@),
{
    let (_t, _v, id) = fm.parse_znote()?;
    let url = match &fm.url {
        Some(u) => copy(u),
        None => String::new(),
    };
    let (title, description) = bookmark_parts(fm.title.as_str(), body, url.as_str());
    Ok(Bookmark {
        id,
        url,
        title,
        description,
        tags: space_string_to_vec(fm.tags.as_str()),
        links: space_string_to_vec(fm.links.as_str()),
        created_at: fm.created_at,
        updated_at: fm.updated_at,
    })
}

/// Reads a bookmark from an earlier-format frontmatter and body.
pub fn bookmark_from_legacy(fm: &LegacyFrontmatter, file_id: &str, body: &str) -> (b: Bookmark)
    ensures
        b.id@ == file_id@,
        b.url@ == fm.url@,
        b.title@ == bookmark_title(fm.title@, body@, fm.url@),
        opt_view(b.description) == description_of(body@),
        views(b.tags@) == views(fm.tags@),
        views(b.links@) == views(fm.links@),
        b.created_at == fm.created_at,
        b.updated_at == fm.updated_at,
{
    let (title, description) = bookmark_parts(fm.title.as_str(), body, fm.url.as_str());
    Bookmark {
        id: own(file_id),
        url: copy(&fm.url),
        title,
        description,
        tags: copy_all(&fm.tags),
        links: copy_all(&fm.links),
        created_at: fm.created_at,
        updated_at: fm.updated_at,
    }
}

/// Reads a bookmark whose file name gives `file_id`.
pub fn bookmark_from_parsed(parsed: &ParsedFrontmatter, file_id: &str, body: &str) -> (r: Result<Bookmark, StorageError>)
    ensures
        match parsed {
            ParsedFrontmatter::Current(fm) => (spec_parse_znote(fm.znote@) is Ok <==> r is Ok) && (r matches Ok(b) ==> bookmark_from(*fm, body@, b)),
            ParsedFrontmatter::Legacy(fm) => r matches Ok(b) && b.id@ == file_id@ && b.url@ == fm.url@
                && b.title@ == bookmark_title(fm.title@, body@, fm.url@) && opt_view(b.description) == description_of(body@)
                && views(b.tags@) == views(fm.tags@) && views(b.links@) == views(fm.links@)
                && b.created_at == fm.created_at && b.updated_at == fm.updated_at,
            ParsedFrontmatter::Invalid(m) => r matches Err(e) && e@ == SStorageError::InvalidFrontmatter(m@),
        },
{
    match parsed {
        ParsedFrontmatter::Current(fm) => bookmark_from_frontmatter(fm, body),
        ParsedFrontmatter::Legacy(fm) => Ok(bookmark_from_legacy(fm, file_id, body)),
        ParsedFrontmatter::Invalid(m) => Err(StorageError::InvalidFrontmatter(copy(m))),
    }
}

/// The task of a current-format frontmatter and the body that follows it:
/// the body's checklist gives the items, its other lines the description.
pub open spec fn task_from(fm: Frontmatter, body: Seq<char>, t: Task) -> bool {
    &&& t.id@ == znote_id(fm)
    &&& t.title@ == spec_extract_title(fm.title@, body_text(body))
    &&& (opt_view(t.description), item_views(t.items@)) == spec_body_to_components(body)
    &&& views(t.tags@) == fields(fm.tags@, Sep::Whitespace)
    &&& views(t.links@) == fields(fm.links@, Sep::Whitespace)
    &&& t.created_at == fm.created_at
    &&& t.updated_at == fm.updated_at
}

/// Reads a task from its current-format frontmatter and body.
pub fn task_from_frontmatter(fm: &Frontmatter, body: &str) -> (r: Result<Task, StorageError>)
    ensures
        spec_parse_znote(fm.znote@) is Ok <==> r is Ok,
        r matches Ok(t) ==> task_from(*fm, body@, t),
        r matches Err(e) ==> spec_parse_znote(fm.znote@) == Err::<(Seq<char>, Seq<char>, Seq<char>), SStorageError>(e@),
{
    let (description, items) = body_to_components(body);
    let (_t, _v, id) = fm.parse_znote()?;
    let text = str_trim_start_char(body, '\n');
    let title = extract_title(fm.title.as_str(), text.as_str());
    Ok(Task {
        id,
        title,
        description,
        tags: space_string_to_vec(fm.tags.as_str()),
        links: space_string_to_vec(fm.links.as_str()),
        items,
        created_at: fm.created_at,
        updated_at: fm.updated_at,
    })
}

/// Reads a task from an earlier-format frontmatter and body.
pub fn task_from_legacy(fm: &LegacyFrontmatter, file_id: &str, body: &str) -> (t: Task)
    ensures
        t.id@ == file_id@,
        t.title@ == spec_extract_title(fm.title@, body_text(body@)),
        (opt_view(t.description), item_views(t.items@)) == spec_body_to_components(body@),
        views(t.tags@) == views(fm.tags@),
        views(t.links@) == views(fm.links@),
        t.created_at == fm.created_at,
        t.updated_at == fm.updated_at,
{
    let (description, items) = body_to_components(body);
    let text = str_trim_start_char(body, '\n');
    let title = extract_title(fm.title.as_str(), text.as_str());
    Task {
        id: own(file_id),
        title,
        description,
        tags: copy_all(&fm.tags),
        links: copy_all(&fm.links),
        items,
        created_at: fm.created_at,
        updated_at: fm.updated_at,
    }
}

/// Reads a task whose file name gives `file_id`.
pub fn task_from_parsed(parsed: &ParsedFrontmatter, file_id: &str, body: &str) -> (r: Result<Task, StorageError>)
    ensures
        match parsed {
            ParsedFrontmatter::Current(fm) => (spec_parse_znote(fm.znote@) is Ok <==> r is Ok) && (r matches Ok(t) ==> task_from(*fm, body@, t)),
            ParsedFrontmatter::Legacy(fm) => r matches Ok(t) && t.id@ == file_id@
                && t.title@ == spec_extract_title(fm.title@, body_text(body@))
                && (opt_view(t.description), item_views(t.items@)) == spec_body_to_components(body@)
                && views(t.tags@) == views(fm.tags@) && views(t.links@) == views(fm.links@)
                && t.created_at == fm.created_at && t.updated_at == fm.updated_at,
            ParsedFrontmatter::Invalid(m) => r matches Err(e) && e@ == SStorageError::InvalidFrontmatter(m@),
        },
{
    match parsed {
        ParsedFrontmatter::Current(fm) => task_from_frontmatter(fm, body),
        ParsedFrontmatter::Legacy(fm) => Ok(task_from_legacy(fm, file_id, body)),
        ParsedFrontmatter::Invalid(m) => Err(StorageError::InvalidFrontmatter(copy(m))),
    }
}

// ---------------------------------------------------------------------------
// Writing entities
// ---------------------------------------------------------------------------

/// The frontmatter written for an entity of `kind`.
pub open spec fn frontmatter_of(
    kind: EntityKind,
    id: Seq<char>,
    title: Seq<char>,
    url: Option<Seq<char>>,
    tags: Seq<Seq<char>>,
    links: Seq<Seq<char>>,
    created: Timestamp,
    updated: Timestamp,
    fm: Frontmatter,
) -> bool {
    &&& fm.znote@ == kind.name() + "/v1/"@ + id
    &&& fm.title@ == title
    &&& opt_view(fm.url) == url
    &&& fm.tags@ == join(tags, " "@)
    &&& fm.links@ == join(links, " "@)
    &&& fm.created_at == created
    &&& fm.updated_at == updated
}

/// The `znote` field of an entity: `<kind>/v1/<id>`.
fn znote_field(kind: EntityKind, id: &str) -> (r: String)
    ensures
        r@ == kind.name() + "/v1/"@ + id@,
{
    let a = concat(kind.as_str(), "/v1/");
    concat(a.as_str(), id)
}

/// The frontmatter written for a note.
pub fn note_frontmatter(n: &Note) -> (fm: Frontmatter)
    ensures
        frontmatter_of(EntityKind::Note, n.id@, n.title@, None, views(n.tags@), views(n.links@), n.created_at, n.updated_at, fm),
{
    Frontmatter {
        znote: znote_field(EntityKind::Note, n.id.as_str()),
        title: copy(&n.title),
        url: None,
        tags: vec_to_space_string(&n.tags),
        links: vec_to_space_string(&n.links),
        created_at: n.created_at,
        updated_at: n.updated_at,
    }
}

/// The frontmatter written for a bookmark.
pub fn bookmark_frontmatter(b: &Bookmark) -> (fm: Frontmatter)
    ensures
        frontmatter_of(EntityKind::Bookmark, b.id@, b.title@, Some(b.url@), views(b.tags@), views(b.links@), b.created_at, b.updated_at, fm),
{
    Frontmatter {
        znote: znote_field(EntityKind::Bookmark, b.id.as_str()),
        title: copy(&b.title),
        url: Some(copy(&b.url)),
        tags: vec_to_space_string(&b.tags),
        links: vec_to_space_string(&b.links),
        created_at: b.created_at,
        updated_at: b.updated_at,
    }
}

/// The frontmatter written for a task.
pub fn task_frontmatter(t: &Task) -> (fm: Frontmatter)
    ensures
        frontmatter_of(EntityKind::Task, t.id@, t.title@, None, views(t.tags@), views(t.links@), t.created_at, t.updated_at, fm),
{
    Frontmatter {
        znote: znote_field(EntityKind::Task, t.id.as_str()),
        title: copy(&t.title),
        url: None,
        tags: vec_to_space_string(&t.tags),
        links: vec_to_space_string(&t.links),
        created_at: t.created_at,
        updated_at: t.updated_at,
    }
}

/// A document: the YAML frontmatter between fences, then the body.
pub open spec fn document(yaml: Seq<char>, body: Seq<char>) -> Seq<char> {
    "---\n"@ + yaml + "---\n"@ + body
}

/// A document from its YAML frontmatter and body.
fn document_exec(yaml: &str, body: &str) -> (r: String)
    ensures
        r@ == document(yaml@, body@),
{
    let mut r = own("---\n");
    r.append(yaml);
    r.append("---\n");
    r.append(body);
    r
}

/// The file text of a note, given the YAML of its frontmatter
/// ([`note_frontmatter`]): the content follows the frontmatter.
pub fn serialize_note(note: &Note, yaml: &str) -> (r: String)
    ensures
        r@ == document(yaml@, note.content@),
{
    document_exec(yaml, note.content.as_str())
}

/// The body of a bookmark's file: its description, or nothing.
pub open spec fn bookmark_body(b: Bookmark) -> Seq<char> {
    match b.description {
        Some(d) => d@,
        None => Seq::empty(),
    }
}

/// The file text of a bookmark, given the YAML of its frontmatter: the
/// description, if any, follows the frontmatter.
pub fn serialize_bookmark(bm: &Bookmark, yaml: &str) -> (r: String)
    ensures
        r@ == document(yaml@, bookmark_body(*bm)),
{
    match &bm.description {
        Some(d) => document_exec(yaml, d.as_str()),
        None => {
            proof {
                reveal_strlit("");
            }
            document_exec(yaml, "")
        },
    }
}

/// The body of a task's file: its checklist, after its description and an
/// empty line when it has a non-empty one.
pub open spec fn task_body(t: Task) -> Seq<char> {
    let items = spec_items_to_body(item_views(t.items@));
    match t.description {
        Some(d) => if d@.len() == 0 {
            items
        } else {
            d@ + "\n\n"@ + items
        },
        None => items,
    }
}

/// The file text of a task, given the YAML of its frontmatter.
pub fn serialize_task(task: &Task, yaml: &str) -> (r: String)
    ensures
        r@ == document(yaml@, task_body(*task)),
{
    let items = items_to_body(&task.items);
    let body = match &task.description {
        Some(d) => if d.as_str().is_empty() {
            items
        } else {
            let a = concat(d.as_str(), "\n\n");
            concat(a.as_str(), items.as_str())
        },
        None => items,
    };
    document_exec(yaml, body.as_str())
}

// ---------------------------------------------------------------------------
// Laws
// ---------------------------------------------------------------------------

/// Law: a file written from a YAML frontmatter splits back into that
/// frontmatter and the body. The YAML must end with a line break (the
/// YAML writer ends every document with one) and must not hold a `---`
/// line of its own; the frontmatter comes back without its final line
/// break.
pub proof fn law_document_splits(yaml: Seq<char>, body: Seq<char>)
    requires
        ends_with(yaml, "\n"@),
        !contains_sub(yaml, "\n---\n"@),
    ensures
        spec_split_frontmatter(document(yaml, body)) == Ok::<(Seq<char>, Seq<char>), SStorageError>(
            (yaml.drop_last(), body),
        ),
{
    reveal_strlit("---\n");
    reveal_strlit("\n---\n");
    reveal_strlit("\n");
    let doc = document(yaml, body);
    let l = yaml.len() as int;
    assert(doc[0] == '-');
    assert(trim_start_char(doc, '\u{feff}') == doc);
    assert(doc.take(4) =~= "---\n"@);
    let a = doc.skip(4);
    assert(a =~= yaml + "---\n"@ + body);
    let pat = "\n---\n"@;
    assert(yaml[l - 1] == '\n') by {
        assert(yaml.skip(l - 1)[0] == yaml[l - 1]);
    }
    assert(a.subrange(l - 1, l + 4) =~= pat);
    assert forall|j: int| 0 <= j < l - 1 implies !occurs_at(a, pat, j) by {
        if j + 5 <= l {
            lemma_find_none(yaml, pat, 0, j);
            assert(a.subrange(j, j + 5) =~= yaml.subrange(j, j + 5));
        } else if j + 5 <= a.len() {
            assert(a.subrange(j, j + 5)[l - 1 - j] == '\n');
        }
    }
    lemma_find_first(a, pat, 0, l - 1);
    assert(a.take(l - 1) =~= yaml.drop_last());
    assert(a.skip(l - 1 + 5) =~= body);
}

/// Law: the `znote` field written for an entity reads back as its kind,
/// the format version `v1` and its id, for an id without `/`.
pub proof fn law_znote_round_trip(kind: EntityKind, id: Seq<char>)
    requires
        !id.contains('/'),
    ensures
        spec_parse_znote(kind.name() + "/v1/"@ + id) == Ok::<(Seq<char>, Seq<char>, Seq<char>), SStorageError>(
            (kind.name(), "v1"@, id),
        ),
{
    reveal_strlit("/v1/");
    reveal_strlit("v1");
    reveal_strlit("note");
    reveal_strlit("bookmark");
    reveal_strlit("task");
    let n = kind.name();
    let z = n + "/v1/"@ + id;
    assert(!n.contains('/')) by {
        if n.contains('/') {
            let k = choose|k: int| 0 <= k < n.len() && n[k] == '/';
        }
    }
    let v = "v1"@;
    assert(!v.contains('/')) by {
        if v.contains('/') {
            let k = choose|k: int| 0 <= k < v.len() && v[k] == '/';
        }
    }
    assert(z =~= n + seq!['/'] + (v + seq!['/'] + id));
    lemma_split_sep(n, '/', v + seq!['/'] + id, Seq::empty());
    lemma_split_sep(v, '/', id, Seq::empty());
    lemma_split_no_sep(id, '/', Seq::empty());
    assert(Seq::<char>::empty() + n =~= n);
    assert(Seq::<char>::empty() + v =~= v);
    assert(Seq::<char>::empty() + id =~= id);
    assert(split_char(z, '/') =~= seq![n, v, id]);
}

/// Law: tags or links written as a space-separated string read back as the
/// same list, when each is non-empty and holds no whitespace.
pub proof fn law_space_string_round_trip(ts: Seq<Seq<char>>)
    requires
        words_ok(ts, Sep::Whitespace),
    ensures
        fields(join(ts, " "@), Sep::Whitespace) == ts,
{
    reveal_strlit(" ");
    assert(" "@ =~= seq![' ']);
    lemma_fields_join(ts, ' ', Sep::Whitespace);
}

/// Lemma: a body that does not start with a line break is its own text.
proof fn lemma_body_text(body: Seq<char>)
    requires
        !(body.len() > 0 && body[0] == '\n'),
    ensures
        body_text(body) == body,
{
}

/// Law: a note written to a file and read back is the same note, when its
/// title is not blank, its content does not start with a line break, its
/// tags and links are non-empty and hold no whitespace, and its id holds
/// no `/`. (The YAML between writing the frontmatter and reading it back
/// is the application's; this law starts from the frontmatter written and
/// ends with the note read from the same frontmatter and body.)
pub proof fn law_note_round_trip(note: Note, fm: Frontmatter, back: Note)
    requires
        frontmatter_of(EntityKind::Note, note.id@, note.title@, None, views(note.tags@), views(note.links@), note.created_at, note.updated_at, fm),
        note_from(fm, note.content@, back),
        crate::text::trim(note.title@).len() > 0,
        !(note.content@.len() > 0 && note.content@[0] == '\n'),
        words_ok(views(note.tags@), Sep::Whitespace),
        words_ok(views(note.links@), Sep::Whitespace),
        !note.id@.contains('/'),
    ensures
        back.id@ == note.id@,
        back.title@ == note.title@,
        back.content@ == note.content@,
        views(back.tags@) == views(note.tags@),
        views(back.links@) == views(note.links@),
        back.created_at == note.created_at,
        back.updated_at == note.updated_at,
{
    law_znote_round_trip(EntityKind::Note, note.id@);
    law_space_string_round_trip(views(note.tags@));
    law_space_string_round_trip(views(note.links@));
    lemma_body_text(note.content@);
}

/// Law: a bookmark written to a file and read back is the same bookmark,
/// when its title is not blank, and not `Untitled` unless its URL is
/// empty (that title is replaced by one made from the URL), its description, if
/// any, is not empty and does not start with a line break, its tags and
/// links are non-empty and hold no whitespace, and its id holds no `/`.
pub proof fn law_bookmark_round_trip(bm: Bookmark, fm: Frontmatter, back: Bookmark)
    requires
        frontmatter_of(EntityKind::Bookmark, bm.id@, bm.title@, Some(bm.url@), views(bm.tags@), views(bm.links@), bm.created_at, bm.updated_at, fm),
        bookmark_from(fm, bookmark_body(bm), back),
        crate::text::trim(bm.title@).len() > 0,
        bm.title@ != "Untitled"@ || bm.url@.len() == 0,
        bm.description matches Some(d) ==> d@.len() > 0 && d@[0] != '\n',
        words_ok(views(bm.tags@), Sep::Whitespace),
        words_ok(views(bm.links@), Sep::Whitespace),
        !bm.id@.contains('/'),
    ensures
        back.id@ == bm.id@,
        back.url@ == bm.url@,
        back.title@ == bm.title@,
        opt_view(back.description) == opt_view(bm.description),
        views(back.tags@) == views(bm.tags@),
        views(back.links@) == views(bm.links@),
        back.created_at == bm.created_at,
        back.updated_at == bm.updated_at,
{
    law_znote_round_trip(EntityKind::Bookmark, bm.id@);
    law_space_string_round_trip(views(bm.tags@));
    law_space_string_round_trip(views(bm.links@));
    lemma_body_text(bookmark_body(bm));
}

/// Law: a task written to a file and read back is the same task, when its
/// title is not blank, its description, if any, reads back as itself (see
/// [`description_ok`]), its items are well formed (see [`item_ok`]), its
/// tags and links are non-empty and hold no whitespace, and its id holds
/// no `/`.
pub proof fn law_task_round_trip(task: Task, fm: Frontmatter, back: Task)
    requires
        frontmatter_of(EntityKind::Task, task.id@, task.title@, None, views(task.tags@), views(task.links@), task.created_at, task.updated_at, fm),
        task_from(fm, task_body(task), back),
        task.description matches Some(d) ==> description_ok(d@),
        crate::text::trim(task.title@).len() > 0,
        forall|i: int| 0 <= i < task.items@.len() ==> item_ok(#[trigger] item_views(task.items@)[i]),
        words_ok(views(task.tags@), Sep::Whitespace),
        words_ok(views(task.links@), Sep::Whitespace),
        !task.id@.contains('/'),
    ensures
        back.id@ == task.id@,
        back.title@ == task.title@,
        opt_view(back.description) == opt_view(task.description),
        item_views(back.items@) == item_views(task.items@),
        views(back.tags@) == views(task.tags@),
        views(back.links@) == views(task.links@),
        back.created_at == task.created_at,
        back.updated_at == task.updated_at,
{
    law_znote_round_trip(EntityKind::Task, task.id@);
    law_space_string_round_trip(views(task.tags@));
    law_space_string_round_trip(views(task.links@));
    match task.description {
        Some(d) => lemma_body_with_description(d@, item_views(task.items@)),
        None => law_checklist_round_trip(item_views(task.items@)),
    }
}

} // verus!
