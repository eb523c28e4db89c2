//! The SQL statements of the dolt storage backend: every value is written
//! as a quoted SQL string with its quotes doubled. The application sends
//! the statements to the dolt SQL server and reads the rows back.

use vstd::prelude::*;

use crate::lists::{insert_all, strictly_sorted};
use crate::models::{Bookmark, EntityKind, Note, SItem, Task, item_views};
use crate::text::{
    chars_of, concat, index_of_char, join, join_exec, lowercase, own, push_char, split_once,
    starts_with, str_split_once, str_starts_with, str_trim_start, string_of, to_lowercase,
    trim_start, views,
};

verus! {

// ---------------------------------------------------------------------------
// Quoting
// ---------------------------------------------------------------------------

/// `v` with every `'` doubled, as an SQL string literal holds it.
pub open spec fn escape(v: Seq<char>) -> Seq<char>
    decreases v.len(),
{
    if v.len() == 0 {
        Seq::empty()
    } else {
        (if v[0] == '\'' {
            seq!['\'', '\'']
        } else {
            seq![v[0]]
        }) + escape(v.drop_first())
    }
}

/// The value an SQL string literal's contents stand for: each `''` is one
/// `'`.
pub open spec fn unescape(s: Seq<char>) -> Seq<char>
    decreases s.len(),
{
    if s.len() == 0 {
        Seq::empty()
    } else if s.len() >= 2 && s[0] == '\'' && s[1] == '\'' {
        seq!['\''] + unescape(s.skip(2))
    } else {
        seq![s[0]] + unescape(s.drop_first())
    }
}

/// `v` quoted for SQL: `'` then `v` with its quotes doubled, then `'`.
pub open spec fn quoted(v: Seq<char>) -> Seq<char> {
    "'"@ + escape(v) + "'"@
}

/// Doubles the quotes of `v` (`str::replace('\'', "''")`).
pub fn escape_sql(v: &str) -> (r: String)
    ensures
        r@ == escape(v@),
{
    let cs = chars_of(v);
    let mut r = String::new();
    let mut i: usize = 0;
    assert(cs@.skip(0) =~= cs@);
    while i < cs.len()
        invariant
            i <= cs.len(),
            r@ + escape(cs@.skip(i as int)) == escape(cs@),
        decreases cs.len() - i,
    {
        assert(cs@.skip(i as int).drop_first() =~= cs@.skip(i + 1));
        assert(cs@.skip(i as int)[0] == cs@[i as int]);
        let ghost before = r@;
        if cs[i] == '\'' {
            push_char(&mut r, '\'');
            push_char(&mut r, '\'');
            assert(before + (seq!['\'', '\''] + escape(cs@.skip(i + 1))) =~= r@ + escape(cs@.skip(i + 1)));
        } else {
            push_char(&mut r, cs[i]);
            assert(before + (seq![cs@[i as int]] + escape(cs@.skip(i + 1))) =~= r@ + escape(cs@.skip(i + 1)));
        }
        i = i + 1;
    }
    assert(escape(cs@.skip(i as int)) =~= Seq::<char>::empty());
    assert(r@ + Seq::<char>::empty() =~= r@);
    r
}

/// `v` quoted for SQL.
fn quote(v: &str) -> (r: String)
    ensures
        r@ == quoted(v@),
{
    let e = escape_sql(v);
    let a = concat("'", e.as_str());
    concat(a.as_str(), "'")
}

/// Law: a value written as an SQL string literal reads back as the same
/// value, quotes included.
pub proof fn law_escape_round_trip(v: Seq<char>)
    ensures
        unescape(escape(v)) == v,
    decreases v.len(),
{
    if v.len() > 0 {
        law_escape_round_trip(v.drop_first());
        let e = escape(v);
        let rest = escape(v.drop_first());
        if v[0] == '\'' {
            assert(e.skip(2) =~= rest);
        } else {
            assert(e.drop_first() =~= rest);
        }
        assert(seq![v[0]] + v.drop_first() =~= v);
    }
}


// ---------------------------------------------------------------------------
// Statements
// ---------------------------------------------------------------------------

/// The row of a tag: `('<entity id>', '<tag>')`.
pub open spec fn tag_row(id: Seq<char>, tag: Seq<char>) -> Seq<char> {
    "("@ + quoted(id) + ", "@ + quoted(tag) + ")"@
}

/// The relationship and target of a link; a link without `:` has an empty
/// relationship.
pub open spec fn link_parts(l: Seq<char>) -> (Seq<char>, Seq<char>) {
    match split_once(l, ':') {
        Some((r, t)) => (r, t),
        None => (Seq::empty(), l),
    }
}

/// The row of a link: `('<source id>', '<target>', '<relationship>')`.
pub open spec fn link_row(id: Seq<char>, l: Seq<char>) -> Seq<char> {
    "("@ + quoted(id) + ", "@ + quoted(link_parts(l).1) + ", "@ + quoted(link_parts(l).0) + ")"@
}

/// The statements that replace the tags of an entity: delete them all,
/// then insert the new ones, if any.
pub open spec fn spec_replace_tags(id: Seq<char>, tags: Seq<Seq<char>>) -> Seq<Seq<char>> {
    seq!["DELETE FROM tags WHERE entity_id = "@ + quoted(id)] + if tags.len() == 0 {
        Seq::empty()
    } else {
        seq![
            "INSERT INTO tags (entity_id, tag) VALUES "@ + join(
                tags.map_values(|t: Seq<char>| tag_row(id, t)),
                ", "@,
            ),
        ]
    }
}

/// The statements that replace the links of an entity.
pub open spec fn spec_replace_links(id: Seq<char>, links: Seq<Seq<char>>) -> Seq<Seq<char>> {
    seq!["DELETE FROM links WHERE source_id = "@ + quoted(id)] + if links.len() == 0 {
        Seq::empty()
    } else {
        seq![
            "INSERT INTO links (source_id, target_id, rel_type) VALUES "@ + join(
                links.map_values(|l: Seq<char>| link_row(id, l)),
                ", "@,
            ),
        ]
    }
}

/// The row of a tag.
fn tag_row_exec(id: &str, tag: &str) -> (r: String)
    ensures
        r@ == tag_row(id@, tag@),
{
    let mut r = own("(");
    r.append(quote(id).as_str());
    r.append(", ");
    r.append(quote(tag).as_str());
    r.append(")");
    r
}

/// The row of a link.
fn link_row_exec(id: &str, l: &str) -> (r: String)
    ensures
        r@ == link_row(id@, l@),
{
    let (rel, target) = match str_split_once(l, ':') {
        Some((r, t)) => (r, t),
        None => (String::new(), own(l)),
    };
    let mut r = own("(");
    r.append(quote(id).as_str());
    r.append(", ");
    r.append(quote(target.as_str()).as_str());
    r.append(", ");
    r.append(quote(rel.as_str()).as_str());
    r.append(")");
    r
}

/// The statements that replace the tags of entity `id` with `tags`.
pub fn replace_tags_sql(id: &str, tags: &Vec<String>) -> (r: Vec<String>)
    ensures
        views(r@) == spec_replace_tags(id@, views(tags@)),
{
    let mut r: Vec<String> = Vec::new();
    r.push(concat("DELETE FROM tags WHERE entity_id = ", quote(id).as_str()));
    if tags.len() > 0 {
        let mut rows: Vec<String> = Vec::new();
        let mut i: usize = 0;
        while i < tags.len()
            invariant
                i <= tags.len(),
                views(rows@) == views(tags@).take(i as int).map_values(|t: Seq<char>| tag_row(id@, t)),
            decreases tags.len() - i,
        {
            let row = tag_row_exec(id, tags[i].as_str());
            let ghost before = views(rows@);
            rows.push(row);
            assert(views(rows@) =~= before.push(row@));
            assert(views(tags@).take(i + 1) =~= views(tags@).take(i as int).push(tags@[i as int]@));
            assert(views(rows@) =~= views(tags@).take(i + 1).map_values(|t: Seq<char>| tag_row(id@, t)));
            i = i + 1;
        }
        assert(views(tags@).take(tags.len() as int) =~= views(tags@));
        let values = join_exec(&rows, ", ");
        r.push(concat("INSERT INTO tags (entity_id, tag) VALUES ", values.as_str()));
    }
    assert(views(r@) =~= spec_replace_tags(id@, views(tags@)));
    r
}

/// The statements that replace the links of entity `id` with `links`.
pub fn replace_links_sql(id: &str, links: &Vec<String>) -> (r: Vec<String>)
    ensures
        views(r@) == spec_replace_links(id@, views(links@)),
{
    let mut r: Vec<String> = Vec::new();
    r.push(concat("DELETE FROM links WHERE source_id = ", quote(id).as_str()));
    if links.len() > 0 {
        let mut rows: Vec<String> = Vec::new();
        let mut i: usize = 0;
        while i < links.len()
            invariant
                i <= links.len(),
                views(rows@) == views(links@).take(i as int).map_values(|l: Seq<char>| link_row(id@, l)),
            decreases links.len() - i,
        {
            let row = link_row_exec(id, links[i].as_str());
            let ghost before = views(rows@);
            rows.push(row);
            assert(views(rows@) =~= before.push(row@));
            assert(views(links@).take(i + 1) =~= views(links@).take(i as int).push(links@[i as int]@));
            assert(views(rows@) =~= views(links@).take(i + 1).map_values(|l: Seq<char>| link_row(id@, l)));
            i = i + 1;
        }
        assert(views(links@).take(links.len() as int) =~= views(links@));
        let values = join_exec(&rows, ", ");
        r.push(concat("INSERT INTO links (source_id, target_id, rel_type) VALUES ", values.as_str()));
    }
    assert(views(r@) =~= spec_replace_links(id@, views(links@)));
    r
}

/// The query that reads the row of entity `id` of a kind.
pub open spec fn spec_select_sql(kind: EntityKind, id: Seq<char>) -> Seq<char> {
    "SELECT * FROM "@ + kind.dir() + " WHERE id = "@ + quoted(id) + " LIMIT 1"@
}

/// The query that reads the row of entity `id` of a kind.
pub fn select_sql(kind: EntityKind, id: &str) -> (r: String)
    ensures
        r@ == spec_select_sql(kind, id@),
{
    let mut r = own("SELECT * FROM ");
    r.append(kind.dir_name());
    r.append(" WHERE id = ");
    r.append(quote(id).as_str());
    r.append(" LIMIT 1");
    r
}

/// The statements that delete entity `id` of a kind with its tags and
/// links.
pub open spec fn spec_delete_sql(kind: EntityKind, id: Seq<char>) -> Seq<Seq<char>> {
    seq![
        "DELETE FROM "@ + kind.dir() + " WHERE id = "@ + quoted(id),
        "DELETE FROM tags WHERE entity_id = "@ + quoted(id),
        "DELETE FROM links WHERE source_id = "@ + quoted(id),
    ]
}

/// The statements that delete entity `id` of a kind with its tags and
/// links.
pub fn delete_sql(kind: EntityKind, id: &str) -> (r: Vec<String>)
    ensures
        views(r@) == spec_delete_sql(kind, id@),
{
    let q = quote(id);
    let mut first = own("DELETE FROM ");
    first.append(kind.dir_name());
    first.append(" WHERE id = ");
    first.append(q.as_str());
    let mut r: Vec<String> = Vec::new();
    r.push(first);
    r.push(concat("DELETE FROM tags WHERE entity_id = ", q.as_str()));
    r.push(concat("DELETE FROM links WHERE source_id = ", q.as_str()));
    assert(views(r@) =~= spec_delete_sql(kind, id@));
    r
}

/// The text of an optional description, empty when absent.
pub open spec fn desc_text(d: Option<String>) -> Seq<char> {
    match d {
        Some(s) => s@,
        None => Seq::empty(),
    }
}

/// The statement that writes the row of a note; `created` and `updated`
/// are its timestamps as `YYYY-MM-DD hh:mm:ss`.
pub fn save_note_sql(n: &Note, created: &str, updated: &str) -> (r: String)
    ensures
        r@ == "REPLACE INTO notes (id, title, content, created_at, updated_at) VALUES ("@ + quoted(n.id@)
            + ", "@ + quoted(n.title@) + ", "@ + quoted(n.content@) + ", '"@ + created@ + "', '"@ + updated@
            + "')"@,
{
    let mut r = own("REPLACE INTO notes (id, title, content, created_at, updated_at) VALUES (");
    r.append(quote(n.id.as_str()).as_str());
    r.append(", ");
    r.append(quote(n.title.as_str()).as_str());
    r.append(", ");
    r.append(quote(n.content.as_str()).as_str());
    r.append(", '");
    r.append(created);
    r.append("', '");
    r.append(updated);
    r.append("')");
    r
}

/// The statement that writes the row of a bookmark.
pub fn save_bookmark_sql(b: &Bookmark, created: &str, updated: &str) -> (r: String)
    ensures
        r@ == "REPLACE INTO bookmarks (id, url, title, description, created_at, updated_at) VALUES ("@
            + quoted(b.id@) + ", "@ + quoted(b.url@) + ", "@ + quoted(b.title@) + ", "@ + quoted(
            desc_text(b.description),
        ) + ", '"@ + created@ + "', '"@ + updated@ + "')"@,
{
    let d = match &b.description {
        Some(d) => quote(d.as_str()),
        None => quote(""),
    };
    proof {
        reveal_strlit("");
    }
    let mut r = own("REPLACE INTO bookmarks (id, url, title, description, created_at, updated_at) VALUES (");
    r.append(quote(b.id.as_str()).as_str());
    r.append(", ");
    r.append(quote(b.url.as_str()).as_str());
    r.append(", ");
    r.append(quote(b.title.as_str()).as_str());
    r.append(", ");
    r.append(d.as_str());
    r.append(", '");
    r.append(created);
    r.append("', '");
    r.append(updated);
    r.append("')");
    r
}

/// The statement that writes the row of a task; `items_json` is its
/// checklist as JSON.
pub fn save_task_sql(t: &Task, items_json: &str, created: &str, updated: &str) -> (r: String)
    ensures
        r@ == "REPLACE INTO tasks (id, title, description, items, created_at, updated_at) VALUES ("@
            + quoted(t.id@) + ", "@ + quoted(t.title@) + ", "@ + quoted(desc_text(t.description))
            + ", "@ + quoted(items_json@) + ", '"@ + created@ + "', '"@ + updated@ + "')"@,
{
    let d = match &t.description {
        Some(d) => quote(d.as_str()),
        None => quote(""),
    };
    proof {
        reveal_strlit("");
    }
    let mut r = own("REPLACE INTO tasks (id, title, description, items, created_at, updated_at) VALUES (");
    r.append(quote(t.id.as_str()).as_str());
    r.append(", ");
    r.append(quote(t.title.as_str()).as_str());
    r.append(", ");
    r.append(d.as_str());
    r.append(", ");
    r.append(quote(items_json).as_str());
    r.append(", '");
    r.append(created);
    r.append("', '");
    r.append(updated);
    r.append("')");
    r
}

/// All the tags of a task and of its items.
pub open spec fn all_task_tags(tags: Seq<Seq<char>>, items: Seq<SItem>) -> Set<Seq<char>> {
    tags.to_set().union(Set::new(|t: Seq<char>| exists|i: int| 0 <= i < items.len() && #[trigger] items[i].tags.contains(t)))
}

/// The tags stored for a task: its own and those of its items, sorted,
/// each once.
pub fn task_tags(t: &Task) -> (r: Vec<String>)
    ensures
        strictly_sorted(views(r@)),
        forall|x: Seq<char>| #[trigger] views(r@).contains(x) <==> all_task_tags(views(t.tags@), item_views(t.items@)).contains(x),
{
    let ghost iv = item_views(t.items@);
    let mut r: Vec<String> = Vec::new();
    insert_all(&mut r, &t.tags);
    let mut k: usize = 0;
    while k < t.items.len()
        invariant
            k <= t.items.len(),
            iv == item_views(t.items@),
            strictly_sorted(views(r@)),
            forall|x: Seq<char>| #[trigger] views(r@).contains(x) <==> views(t.tags@).contains(x) || (exists|j: int| 0 <= j < k && #[trigger] iv[j].tags.contains(x)),
        decreases t.items.len() - k,
    {
        assert(iv[k as int].tags == views(t.items@[k as int].tags@));
        insert_all(&mut r, &t.items[k].tags);
        proof {
            assert forall|x: Seq<char>| #[trigger] views(r@).contains(x) <==> views(t.tags@).contains(x) || (exists|j: int| 0 <= j < k + 1 && #[trigger] iv[j].tags.contains(x)) by {
                if exists|j: int| 0 <= j < k + 1 && #[trigger] iv[j].tags.contains(x) {
                    let j = choose|j: int| 0 <= j < k + 1 && #[trigger] iv[j].tags.contains(x);
                    if j == k {
                        assert(views(t.items@[k as int].tags@).contains(x));
                    }
                }
                if views(t.items@[k as int].tags@).contains(x) {
                    assert(iv[k as int].tags.contains(x));
                }
            }
        }
        k = k + 1;
    }
    proof {
        assert forall|x: Seq<char>| #[trigger] views(r@).contains(x) <==> all_task_tags(views(t.tags@), item_views(t.items@)).contains(x) by {
            if views(t.tags@).contains(x) {
                assert(views(t.tags@).to_set().contains(x));
            }
            if views(t.tags@).to_set().contains(x) {
                assert(views(t.tags@).contains(x));
            }
        }
    }
    r
}

/// The date and time part of a timestamp read from the database: what
/// comes before the first `.` (fractions of a second dropped).
pub fn datetime_text(raw: &str) -> (r: String)
    ensures
        r@ == match index_of_char(raw@, '.') {
            Some(i) => raw@.take(i),
            None => raw@,
        },
{
    match str_split_once(raw, '.') {
        Some((before, _after)) => before,
        None => own(raw),
    }
}

/// The query for the links that leave `id`, or an entity whose id starts
/// with it, each joined with the note, bookmark and task whose id starts
/// with the link's target. `id` goes into the query as it is given.
pub open spec fn spec_outgoing_links_sql(id: Seq<char>) -> Seq<char> {
    "SELECT l.rel_type, l.target_id, n.id as n_id, n.title as n_title, b.id as b_id, b.title as b_title, t.id as t_id, t.title as t_title FROM links l LEFT JOIN notes n ON n.id LIKE CONCAT(l.target_id, '%') LEFT JOIN bookmarks b ON b.id LIKE CONCAT(l.target_id, '%') LEFT JOIN tasks t ON t.id LIKE CONCAT(l.target_id, '%') WHERE l.source_id = '"@
        + id + "' OR l.source_id LIKE '"@ + id + "%'"@
}

/// The query for the links that point at `id`, or at a prefix or
/// extension of it, each joined with the note, bookmark and task whose id
/// starts with the link's source.
pub open spec fn spec_incoming_links_sql(id: Seq<char>) -> Seq<char> {
    "SELECT l.source_id, l.rel_type, n.id as n_id, n.title as n_title, b.id as b_id, b.title as b_title, t.id as t_id, t.title as t_title FROM links l LEFT JOIN notes n ON n.id LIKE CONCAT(l.source_id, '%') LEFT JOIN bookmarks b ON b.id LIKE CONCAT(l.source_id, '%') LEFT JOIN tasks t ON t.id LIKE CONCAT(l.source_id, '%') WHERE l.target_id = '"@
        + id + "' OR l.target_id LIKE '"@ + id + "%'"@
}

/// The query for the links that leave `id` (see
/// [`spec_outgoing_links_sql`]).
pub fn outgoing_links_sql(id: &str) -> (r: String)
    ensures
        r@ == spec_outgoing_links_sql(id@),
{
    let mut r = own(
        "SELECT l.rel_type, l.target_id, n.id as n_id, n.title as n_title, b.id as b_id, b.title as b_title, t.id as t_id, t.title as t_title FROM links l LEFT JOIN notes n ON n.id LIKE CONCAT(l.target_id, '%') LEFT JOIN bookmarks b ON b.id LIKE CONCAT(l.target_id, '%') LEFT JOIN tasks t ON t.id LIKE CONCAT(l.target_id, '%') WHERE l.source_id = '",
    );
    r.append(id);
    r.append("' OR l.source_id LIKE '");
    r.append(id);
    r.append("%'");
    r
}

/// The query for the links that point at `id` (see
/// [`spec_incoming_links_sql`]).
pub fn incoming_links_sql(id: &str) -> (r: String)
    ensures
        r@ == spec_incoming_links_sql(id@),
{
    let mut r = own(
        "SELECT l.source_id, l.rel_type, n.id as n_id, n.title as n_title, b.id as b_id, b.title as b_title, t.id as t_id, t.title as t_title FROM links l LEFT JOIN notes n ON n.id LIKE CONCAT(l.source_id, '%') LEFT JOIN bookmarks b ON b.id LIKE CONCAT(l.source_id, '%') LEFT JOIN tasks t ON t.id LIKE CONCAT(l.source_id, '%') WHERE l.target_id = '",
    );
    r.append(id);
    r.append("' OR l.target_id LIKE '");
    r.append(id);
    r.append("%'");
    r
}

/// A statement is a query that returns rows: after leading whitespace, it
/// starts with `select` in any case (lower-cased with `str::to_lowercase`).
pub open spec fn spec_is_select(q: Seq<char>) -> bool {
    starts_with(lowercase(trim_start(q)), "select"@)
}

/// Whether a statement returns rows (see [`spec_is_select`]).
pub fn is_select(q: &str) -> (r: bool)
    ensures
        r == spec_is_select(q@),
{
    let t = str_trim_start(q);
    let l = to_lowercase(t.as_str());
    str_starts_with(l.as_str(), "select")
}

/// Text that a column value holds and that is read as JSON: it starts with
/// `[` and ends with `]`, or starts with `{` and ends with `}`.
pub open spec fn spec_json_like(s: Seq<char>) -> bool {
    s.len() > 0 && ((s[0] == '[' && s.last() == ']') || (s[0] == '{' && s.last() == '}'))
}

/// Whether a column's text is read as JSON (see [`spec_json_like`]).
pub fn json_like(s: &str) -> (r: bool)
    ensures
        r == spec_json_like(s@),
{
    let v = chars_of(s);
    if v.len() == 0 {
        return false;
    }
    let first = v[0];
    let last = v[v.len() - 1];
    (first == '[' && last == ']') || (first == '{' && last == '}')
}

} // verus!
