//! Validation of stored entities: every link must read
//! `relationship:target`; tags without `#`, an `updated_at` before
//! `created_at`, files in the earlier format and empty lines after a
//! frontmatter fence are repaired.
//!
//! The application walks the data directory, loads each file, prints the
//! report of [`validate_note`], [`validate_bookmark`] or [`validate_task`]
//! and saves the entity when something was fixed.

use vstd::prelude::*;

use crate::records::document;
use crate::models::{Bookmark, EntityKind, Note, SItem, Task, TaskItem, Timestamp, item_views, spec_earlier};
use crate::text::{
    concat, contains_sub, copy, lemma_contains_sub_within, opt_view, split_once, starts_with, str_contains, str_split_once,
    str_starts_with, str_trim, trim, views,
};

verus! {

/// One repair made while validating an entity.
#[derive(Debug, Clone, Copy, PartialEq, Eq, Structural)]
pub enum Fix {
    /// The file lacks the `znote: type/v1/` field of the current format;
    /// saving rewrites it.
    FormatUpdated,
    /// A frontmatter fence is followed by an empty line.
    EmptyLinesRemoved,
    /// A tag of the entity lacked its leading `#`.
    TagFixed,
    /// A tag of a checklist item lacked its leading `#`.
    ItemTagFixed,
    /// `updated_at` was before `created_at`; it is set to `created_at`.
    TimestampFixed,
}

/// What validating one entity found.
#[derive(Debug)]
pub struct Report {
    /// The repairs, in the order they were made.
    pub fixes: Vec<Fix>,
    /// The first link that is not `relationship:target`. When there is one
    /// the entity is invalid and left as it was.
    pub invalid_link: Option<String>,
}

/// A link reads `relationship:target`, neither part blank.
pub open spec fn link_ok(l: Seq<char>) -> bool {
    match split_once(l, ':') {
        Some((r, t)) => trim(r).len() > 0 && trim(t).len() > 0,
        None => false,
    }
}

/// The first link of `ls` that is not well formed.
pub open spec fn first_bad_link(ls: Seq<Seq<char>>) -> Option<Seq<char>>
    decreases ls.len(),
{
    if ls.len() == 0 {
        None
    } else if !link_ok(ls[0]) {
        Some(ls[0])
    } else {
        first_bad_link(ls.drop_first())
    }
}

/// The text that a file of the current format holds: `znote: note/v1/` for
/// a note.
pub open spec fn format_marker(kind: EntityKind) -> Seq<char> {
    "znote: "@ + kind.name() + "/v1/"@
}

/// The repairs that the raw file text calls for.
pub open spec fn file_fixes(kind: EntityKind, raw: Seq<char>) -> Seq<Fix> {
    (if contains_sub(raw, format_marker(kind)) {
        Seq::empty()
    } else {
        seq![Fix::FormatUpdated]
    }) + (if contains_sub(raw, "---\n\n"@) || contains_sub(raw, "---\r\n\r\n"@) {
        seq![Fix::EmptyLinesRemoved]
    } else {
        Seq::empty()
    })
}

/// A tag with its leading `#`.
pub open spec fn fix_tag(t: Seq<char>) -> Seq<char> {
    if starts_with(t, "#"@) {
        t
    } else {
        "#"@ + t
    }
}

/// Tags, each with its leading `#`.
pub open spec fn fixed_tags(ts: Seq<Seq<char>>) -> Seq<Seq<char>> {
    ts.map_values(|t: Seq<char>| fix_tag(t))
}

/// One `f` for each tag of `ts` that lacks its `#`.
pub open spec fn tag_fixes(ts: Seq<Seq<char>>, f: Fix) -> Seq<Fix>
    decreases ts.len(),
{
    if ts.len() == 0 {
        Seq::empty()
    } else {
        tag_fixes(ts.drop_last(), f) + (if starts_with(ts.last(), "#"@) {
            Seq::empty()
        } else {
            seq![f]
        })
    }
}

/// Checklist items whose tags all have their `#`.
pub open spec fn fixed_items(items: Seq<SItem>) -> Seq<SItem> {
    items.map_values(|it: SItem| SItem { tags: fixed_tags(it.tags), ..it })
}

/// One `ItemTagFixed` for each item tag that lacks its `#`.
pub open spec fn item_tag_fixes(items: Seq<SItem>) -> Seq<Fix>
    decreases items.len(),
{
    if items.len() == 0 {
        Seq::empty()
    } else {
        item_tag_fixes(items.drop_last()) + tag_fixes(items.last().tags, Fix::ItemTagFixed)
    }
}

/// `TimestampFixed` when `updated` is before `created`.
pub open spec fn time_fixes(created: Timestamp, updated: Timestamp) -> Seq<Fix> {
    if spec_earlier(updated, created) {
        seq![Fix::TimestampFixed]
    } else {
        Seq::empty()
    }
}

/// `updated`, or `created` when `updated` is before it.
pub open spec fn fixed_updated(created: Timestamp, updated: Timestamp) -> Timestamp {
    if spec_earlier(updated, created) {
        created
    } else {
        updated
    }
}

/// Checks each link in turn; returns the first that is not well formed.
fn check_links(links: &Vec<String>) -> (r: Option<String>)
    ensures
        opt_view(r) == first_bad_link(views(links@)),
{
    let mut i: usize = 0;
    assert(views(links@).skip(0) =~= views(links@));
    while i < links.len()
        invariant
            i <= links.len(),
            first_bad_link(views(links@)) == first_bad_link(views(links@).skip(i as int)),
        decreases links.len() - i,
    {
        let ghost rest = views(links@).skip(i as int);
        assert(rest.drop_first() =~= views(links@).skip(i + 1));
        assert(rest[0] == links@[i as int]@);
        let ok = match str_split_once(links[i].as_str(), ':') {
            Some((r, t)) => {
                let rt = str_trim(r.as_str());
                let tt = str_trim(t.as_str());
                !rt.as_str().is_empty() && !tt.as_str().is_empty()
            },
            None => false,
        };
        if !ok {
            return Some(copy(&links[i]));
        }
        i = i + 1;
    }
    assert(views(links@).skip(i as int) =~= Seq::<Seq<char>>::empty());
    None
}

/// The repairs that the raw file text calls for.
fn file_fixes_exec(kind: EntityKind, raw: &str) -> (r: Vec<Fix>)
    ensures
        r@ == file_fixes(kind, raw@),
{
    let m1 = concat("znote: ", kind.as_str());
    let marker = concat(m1.as_str(), "/v1/");
    let mut r: Vec<Fix> = Vec::new();
    if !str_contains(raw, marker.as_str()) {
        r.push(Fix::FormatUpdated);
    }
    if str_contains(raw, "---\n\n") || str_contains(raw, "---\r\n\r\n") {
        r.push(Fix::EmptyLinesRemoved);
    }
    assert(r@ =~= file_fixes(kind, raw@));
    r
}

/// The tags with their `#`; one `f` is added to `fixes` per repaired tag.
fn fix_tags(tags: &Vec<String>, f: Fix, fixes: &mut Vec<Fix>) -> (r: Vec<String>)
    ensures
        views(r@) == fixed_tags(views(tags@)),
        final(fixes)@ == old(fixes)@ + tag_fixes(views(tags@), f),
{
    let mut r: Vec<String> = Vec::new();
    let mut i: usize = 0;
    assert(old(fixes)@ + tag_fixes(views(tags@).take(0), f) =~= old(fixes)@);
    while i < tags.len()
        invariant
            i <= tags.len(),
            views(r@) == fixed_tags(views(tags@).take(i as int)),
            fixes@ == old(fixes)@ + tag_fixes(views(tags@).take(i as int), f),
        decreases tags.len() - i,
    {
        let ghost pre = views(tags@).take(i as int);
        let ghost next = views(tags@).take(i + 1);
        assert(next.drop_last() =~= pre);
        assert(next.last() == tags@[i as int]@);
        let ghost rb = views(r@);
        let ghost fb = fixes@;
        let t = if str_starts_with(tags[i].as_str(), "#") {
            assert(tag_fixes(next, f) =~= tag_fixes(pre, f));
            copy(&tags[i])
        } else {
            fixes.push(f);
            assert(tag_fixes(next, f) =~= tag_fixes(pre, f).push(f));
            assert(old(fixes)@ + tag_fixes(next, f) =~= fixes@);
            concat("#", tags[i].as_str())
        };
        assert(t@ == fix_tag(tags@[i as int]@));
        r.push(t);
        assert(views(r@) =~= rb.push(t@));
        assert(fixed_tags(next) =~= fixed_tags(pre).push(fix_tag(tags@[i as int]@)));
        i = i + 1;
    }
    assert(views(tags@).take(tags.len() as int) =~= views(tags@));
    r
}

/// The items with all their tags given a `#`; one `ItemTagFixed` is added
/// to `fixes` per repaired tag.
fn fix_item_tags(items: &Vec<TaskItem>, fixes: &mut Vec<Fix>) -> (r: Vec<TaskItem>)
    ensures
        item_views(r@) == fixed_items(item_views(items@)),
        final(fixes)@ == old(fixes)@ + item_tag_fixes(item_views(items@)),
{
    let mut r: Vec<TaskItem> = Vec::new();
    let mut i: usize = 0;
    assert(old(fixes)@ + item_tag_fixes(item_views(items@).take(0)) =~= old(fixes)@);
    while i < items.len()
        invariant
            i <= items.len(),
            item_views(r@) == fixed_items(item_views(items@).take(i as int)),
            fixes@ == old(fixes)@ + item_tag_fixes(item_views(items@).take(i as int)),
        decreases items.len() - i,
    {
        let ghost pre = item_views(items@).take(i as int);
        let ghost next = item_views(items@).take(i + 1);
        assert(next.drop_last() =~= pre);
        assert(next.last() == items@[i as int]@);
        let ghost rb = item_views(r@);
        let ghost fb = fixes@;
        let tags = fix_tags(&items[i].tags, Fix::ItemTagFixed, fixes);
        let item = TaskItem { text: copy(&items[i].text), completed: items[i].completed, tags };
        r.push(item);
        assert(item_views(r@) =~= rb.push(item@));
        assert(item_views(r@) =~= fixed_items(next));
        assert(fb + tag_fixes(items@[i as int]@.tags, Fix::ItemTagFixed) == fixes@);
        assert(old(fixes)@ + item_tag_fixes(next) =~= fixes@);
        i = i + 1;
    }
    assert(item_views(items@).take(items.len() as int) =~= item_views(items@));
    r
}

/// Validates a note read from `raw`. With a malformed link the note is left
/// as it was and the report names the link; otherwise its tags get their
/// `#` and its `updated_at` is moved up to `created_at` where it was
/// earlier. The report lists the repairs.
pub fn validate_note(note: &mut Note, raw: &str) -> (r: Report)
    ensures
        opt_view(r.invalid_link) == first_bad_link(views(old(note).links@)),
        r.invalid_link is Some ==> r.fixes@ == file_fixes(EntityKind::Note, raw@) && *final(note)
            == *old(note),
        r.invalid_link is None ==> {
            &&& r.fixes@ == file_fixes(EntityKind::Note, raw@) + tag_fixes(
                views(old(note).tags@),
                Fix::TagFixed,
            ) + time_fixes(old(note).created_at, old(note).updated_at)
            &&& views(final(note).tags@) == fixed_tags(views(old(note).tags@))
            &&& final(note).updated_at == fixed_updated(old(note).created_at, old(note).updated_at)
            &&& final(note).id == old(note).id
            &&& final(note).title == old(note).title
            &&& final(note).content == old(note).content
            &&& final(note).links == old(note).links
            &&& final(note).created_at == old(note).created_at
        },
{
    let mut fixes = file_fixes_exec(EntityKind::Note, raw);
    let bad = check_links(&note.links);
    if bad.is_some() {
        return Report { fixes, invalid_link: bad };
    }
    let ghost f0 = fixes@;
    let tags = fix_tags(&note.tags, Fix::TagFixed, &mut fixes);
    note.tags = tags;
    if note.updated_at.earlier_than(&note.created_at) {
        note.updated_at = note.created_at;
        fixes.push(Fix::TimestampFixed);
    }
    Report { fixes, invalid_link: None }
}

/// Validates a bookmark read from `raw`, as [`validate_note`] does a note.
pub fn validate_bookmark(bm: &mut Bookmark, raw: &str) -> (r: Report)
    ensures
        opt_view(r.invalid_link) == first_bad_link(views(old(bm).links@)),
        r.invalid_link is Some ==> r.fixes@ == file_fixes(EntityKind::Bookmark, raw@) && *final(bm)
            == *old(bm),
        r.invalid_link is None ==> {
            &&& r.fixes@ == file_fixes(EntityKind::Bookmark, raw@) + tag_fixes(
                views(old(bm).tags@),
                Fix::TagFixed,
            ) + time_fixes(old(bm).created_at, old(bm).updated_at)
            &&& views(final(bm).tags@) == fixed_tags(views(old(bm).tags@))
            &&& final(bm).updated_at == fixed_updated(old(bm).created_at, old(bm).updated_at)
            &&& final(bm).id == old(bm).id
            &&& final(bm).url == old(bm).url
            &&& final(bm).title == old(bm).title
            &&& final(bm).description == old(bm).description
            &&& final(bm).links == old(bm).links
            &&& final(bm).created_at == old(bm).created_at
        },
{
    let mut fixes = file_fixes_exec(EntityKind::Bookmark, raw);
    let bad = check_links(&bm.links);
    if bad.is_some() {
        return Report { fixes, invalid_link: bad };
    }
    let tags = fix_tags(&bm.tags, Fix::TagFixed, &mut fixes);
    bm.tags = tags;
    if bm.updated_at.earlier_than(&bm.created_at) {
        bm.updated_at = bm.created_at;
        fixes.push(Fix::TimestampFixed);
    }
    Report { fixes, invalid_link: None }
}

/// Validates a task read from `raw`, as [`validate_note`] does a note; the
/// tags of its checklist items get their `#` too.
pub fn validate_task(task: &mut Task, raw: &str) -> (r: Report)
    ensures
        opt_view(r.invalid_link) == first_bad_link(views(old(task).links@)),
        r.invalid_link is Some ==> r.fixes@ == file_fixes(EntityKind::Task, raw@) && *final(task)
            == *old(task),
        r.invalid_link is None ==> {
            &&& r.fixes@ == file_fixes(EntityKind::Task, raw@) + tag_fixes(
                views(old(task).tags@),
                Fix::TagFixed,
            ) + item_tag_fixes(item_views(old(task).items@)) + time_fixes(
                old(task).created_at,
                old(task).updated_at,
            )
            &&& views(final(task).tags@) == fixed_tags(views(old(task).tags@))
            &&& item_views(final(task).items@) == fixed_items(item_views(old(task).items@))
            &&& final(task).updated_at == fixed_updated(old(task).created_at, old(task).updated_at)
            &&& final(task).id == old(task).id
            &&& final(task).title == old(task).title
            &&& final(task).description == old(task).description
            &&& final(task).links == old(task).links
            &&& final(task).created_at == old(task).created_at
        },
{
    let mut fixes = file_fixes_exec(EntityKind::Task, raw);
    let bad = check_links(&task.links);
    if bad.is_some() {
        return Report { fixes, invalid_link: bad };
    }
    let tags = fix_tags(&task.tags, Fix::TagFixed, &mut fixes);
    task.tags = tags;
    let items = fix_item_tags(&task.items, &mut fixes);
    task.items = items;
    if task.updated_at.earlier_than(&task.created_at) {
        task.updated_at = task.created_at;
        fixes.push(Fix::TimestampFixed);
    }
    Report { fixes, invalid_link: None }
}

/// How a validation run ended, when no file was invalid.
#[derive(Debug, Clone, Copy, PartialEq, Eq, Structural)]
pub enum Outcome {
    /// There was no Markdown file to validate.
    NoFiles,
    /// This many files were validated.
    AllValid(usize),
}

/// A validation run that found invalid files: how many, of how many.
#[derive(Debug, Clone, Copy, PartialEq, Eq, Structural)]
pub struct ValidationFailed {
    pub invalid: usize,
    pub total: usize,
}

/// The end of a validation run over `total` files of which `invalid` were
/// invalid: a failure when any was.
pub fn summarize(total: usize, invalid: usize) -> (r: Result<Outcome, ValidationFailed>)
    ensures
        invalid > 0 <==> r is Err,
        r matches Err(e) ==> e.invalid == invalid && e.total == total,
        invalid == 0 && total == 0 ==> r == Ok::<Outcome, ValidationFailed>(Outcome::NoFiles),
        invalid == 0 && total > 0 ==> r == Ok::<Outcome, ValidationFailed>(
            Outcome::AllValid(total),
        ),
{
    if invalid > 0 {
        Err(ValidationFailed { invalid, total })
    } else if total == 0 {
        Ok(Outcome::NoFiles)
    } else {
        Ok(Outcome::AllValid(total))
    }
}


/// Lemma: tags that all have their `#` need no fixing.
proof fn lemma_no_tag_fixes(ts: Seq<Seq<char>>, f: Fix)
    requires
        forall|i: int| 0 <= i < ts.len() ==> starts_with(#[trigger] ts[i], "#"@),
    ensures
        tag_fixes(ts, f) == Seq::<Fix>::empty(),
    decreases ts.len(),
{
    if ts.len() > 0 {
        assert(ts.last() == ts[ts.len() - 1]);
        assert forall|i: int| 0 <= i < ts.drop_last().len() implies starts_with(#[trigger] ts.drop_last()[i], "#"@) by {
            assert(ts.drop_last()[i] == ts[i]);
        }
        lemma_no_tag_fixes(ts.drop_last(), f);
    }
}

/// Lemma: a fixed tag has its `#`.
proof fn lemma_fix_tag_hash(t: Seq<char>)
    ensures
        starts_with(fix_tag(t), "#"@),
        fix_tag(fix_tag(t)) == fix_tag(t),
{
    reveal_strlit("#");
    if !starts_with(t, "#"@) {
        assert(("#"@ + t).take(1) =~= "#"@);
    }
}

/// Law: repairs are made once: validating what validation repaired fixes
/// no tag, no item tag and no timestamp again, and leaves the tags, items
/// and timestamps as they are.
pub proof fn law_fixes_idempotent(ts: Seq<Seq<char>>, items: Seq<SItem>, created: Timestamp, updated: Timestamp)
    ensures
        tag_fixes(fixed_tags(ts), Fix::TagFixed) == Seq::<Fix>::empty(),
        fixed_tags(fixed_tags(ts)) == fixed_tags(ts),
        item_tag_fixes(fixed_items(items)) == Seq::<Fix>::empty(),
        fixed_items(fixed_items(items)) == fixed_items(items),
        time_fixes(created, fixed_updated(created, updated)) == Seq::<Fix>::empty(),
        fixed_updated(created, fixed_updated(created, updated)) == fixed_updated(created, updated),
{
    assert forall|i: int| 0 <= i < fixed_tags(ts).len() implies starts_with(#[trigger] fixed_tags(ts)[i], "#"@) by {
        lemma_fix_tag_hash(ts[i]);
    }
    lemma_no_tag_fixes(fixed_tags(ts), Fix::TagFixed);
    assert forall|i: int| 0 <= i < ts.len() implies #[trigger] fixed_tags(fixed_tags(ts))[i] == fixed_tags(ts)[i] by {
        lemma_fix_tag_hash(ts[i]);
    }
    assert(fixed_tags(fixed_tags(ts)) =~= fixed_tags(ts));
    lemma_items_idempotent(items);
}

/// Lemma: fixed items need no fixing again.
proof fn lemma_items_idempotent(items: Seq<SItem>)
    ensures
        item_tag_fixes(fixed_items(items)) == Seq::<Fix>::empty(),
        fixed_items(fixed_items(items)) == fixed_items(items),
    decreases items.len(),
{
    let fi = fixed_items(items);
    assert forall|i: int| 0 <= i < items.len() implies #[trigger] fixed_items(fi)[i] == fi[i] by {
        let ts = items[i].tags;
        assert forall|k: int| 0 <= k < ts.len() implies #[trigger] fixed_tags(fixed_tags(ts))[k] == fixed_tags(ts)[k] by {
            lemma_fix_tag_hash(ts[k]);
        }
        assert(fixed_tags(fixed_tags(ts)) =~= fixed_tags(ts));
    }
    assert(fixed_items(fi) =~= fi);
    if items.len() > 0 {
        lemma_items_idempotent(items.drop_last());
        assert(fixed_items(items).drop_last() =~= fixed_items(items.drop_last()));
        let ts = items.last().tags;
        assert forall|k: int| 0 <= k < fixed_tags(ts).len() implies starts_with(#[trigger] fixed_tags(ts)[k], "#"@) by {
            lemma_fix_tag_hash(ts[k]);
        }
        lemma_no_tag_fixes(fixed_tags(ts), Fix::ItemTagFixed);
        assert(fi.last().tags == fixed_tags(ts));
    }
}

/// Law: validation settles a file. Once validation has repaired an entity
/// and saved it as a document whose frontmatter holds the `znote` field of
/// the current format, and the file holds no empty line after a `---`
/// line, validating that file again finds nothing to repair: no format
/// update, no empty lines, no tag, no checklist item tag (a task's) and no
/// timestamp.
pub proof fn law_revalidation_clean(
    kind: EntityKind,
    yaml: Seq<char>,
    body: Seq<char>,
    ts: Seq<Seq<char>>,
    items: Seq<SItem>,
    created: Timestamp,
    updated: Timestamp,
)
    requires
        contains_sub(yaml, format_marker(kind)),
        !contains_sub(document(yaml, body), "---\n\n"@),
        !contains_sub(document(yaml, body), "---\r\n\r\n"@),
    ensures
        file_fixes(kind, document(yaml, body)) + tag_fixes(fixed_tags(ts), Fix::TagFixed) + item_tag_fixes(
            fixed_items(items),
        ) + time_fixes(created, fixed_updated(created, updated)) == Seq::<Fix>::empty(),
{
    lemma_contains_sub_within("---\n"@, yaml, "---\n"@ + body, format_marker(kind));
    assert("---\n"@ + yaml + ("---\n"@ + body) =~= document(yaml, body));
    law_fixes_idempotent(ts, items, created, updated);
    assert(file_fixes(kind, document(yaml, body)) =~= Seq::<Fix>::empty());
    assert(Seq::<Fix>::empty() + Seq::<Fix>::empty() + Seq::<Fix>::empty() + Seq::<Fix>::empty() =~= Seq::<Fix>::empty());
}

/// A link in the form `relationship:target`: split at its first `:`,
/// neither part blank once trimmed.
pub open spec fn well_formed_link(l: Seq<char>) -> bool {
    &&& split_once(l, ':') is Some
    &&& trim(split_once(l, ':').unwrap().0).len() > 0
    &&& trim(split_once(l, ':').unwrap().1).len() > 0
}

/// Law: validation rejects exactly the links that are not
/// `relationship:target`. It finds no bad link if and only if every link
/// splits at a `:` into a relationship and a target that are both
/// non-blank; and the bad link it reports is the first link that does not.
pub proof fn law_bad_link_is_first_malformed(ls: Seq<Seq<char>>)
    ensures
        first_bad_link(ls) is None <==> forall|i: int| 0 <= i < ls.len() ==> well_formed_link(#[trigger] ls[i]),
        first_bad_link(ls) matches Some(l) ==> exists|i: int|
            0 <= i < ls.len() && ls[i] == l && !well_formed_link(#[trigger] ls[i]) && forall|j: int|
                0 <= j < i ==> well_formed_link(#[trigger] ls[j]),
    decreases ls.len(),
{
    if ls.len() > 0 {
        let rest = ls.drop_first();
        law_bad_link_is_first_malformed(rest);
        assert(link_ok(ls[0]) <==> well_formed_link(ls[0]));
        if link_ok(ls[0]) {
            assert forall|i: int| 0 <= i < rest.len() implies #[trigger] rest[i] == ls[i + 1] by {}
            if first_bad_link(rest) is None {
                assert forall|i: int| 0 <= i < ls.len() implies well_formed_link(#[trigger] ls[i]) by {
                    if i > 0 {
                        assert(well_formed_link(rest[i - 1]));
                    }
                }
            } else {
                let l = first_bad_link(rest).unwrap();
                let i = choose|i: int|
                    0 <= i < rest.len() && rest[i] == l && !well_formed_link(#[trigger] rest[i]) && forall|j: int|
                        0 <= j < i ==> well_formed_link(#[trigger] rest[j]);
                assert(ls[i + 1] == l);
                assert forall|j: int| 0 <= j < i + 1 implies well_formed_link(#[trigger] ls[j]) by {
                    if j > 0 {
                        assert(well_formed_link(rest[j - 1]));
                    }
                }
                assert(!well_formed_link(rest[i]));
            }
        }
    }
}

/// Law: a link whose target is blank is reported, whatever its
/// relationship: validating a note, bookmark or task with the single link
/// `relationship:` + blank finds it invalid.
pub proof fn law_blank_target_rejected(r: Seq<char>, t: Seq<char>)
    requires
        !r.contains(':'),
        trim(t).len() == 0,
    ensures
        first_bad_link(seq![r + ":"@ + t]) == Some(r + ":"@ + t),
{
    reveal_strlit(":");
    assert(":"@ =~= seq![':']);
    law_bad_link_is_first_malformed(seq![r + ":"@ + t]);
    crate::text::lemma_split_once_at(r, t, ':');
}

} // verus!
