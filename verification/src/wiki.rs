//! Wiki links in entity text: `[[target]]`, `[[target#section]]`,
//! `[[target|alias]]` and their embedding form with a leading `!`.
//!
//! A link is recognised at a position when the text there reads, in order:
//! an optional `!`; `[[`; a non-empty target without `]`, `|` or `#`;
//! optionally `#` and a non-empty section name without `]` or `|`;
//! optionally `|` and a non-empty alias without `]`; and `]]`. Each part
//! takes as much text as it can. Links are found left to right and do not
//! overlap.

use vstd::prelude::*;

use crate::models::EntityKind;
use crate::storage::{
    Folder, Store, first_index_from, index_of_name, lemma_first_index, lemma_no_index,
    resolve_listed, spec_resolve_id, spec_split_frontmatter, split_frontmatter,
};
use crate::style::dimmed;
use crate::text::{
    chars_of, concat, contains_sub, join, opt_view, join_exec, lines, lowercase, own, skip_char_run,
    starts_with, str_lines, str_starts_with, str_trim, str_trim_char, str_trim_start_char,
    string_of, to_lowercase, trim, trim_char, trim_start_char, views,
};

verus! {

// ---------------------------------------------------------------------------
// Recognising links
// ---------------------------------------------------------------------------

/// The characters each part of a link may hold.
pub enum Part {
    /// The target: anything but `]`, `|` and `#`.
    Target,
    /// The section name: anything but `]` and `|`.
    Section,
    /// The alias: anything but `]`.
    Alias,
}

/// `c` may stand in the given part of a link.
pub open spec fn part_char(part: Part, c: char) -> bool {
    match part {
        Part::Target => c != ']' && c != '|' && c != '#',
        Part::Section => c != ']' && c != '|',
        Part::Alias => c != ']',
    }
}

/// End of the longest run of `part` characters of `s` from `i`.
pub open spec fn run_end(s: Seq<char>, i: int, part: Part) -> int
    decreases s.len() - i,
{
    if i < 0 || i >= s.len() || !part_char(part, s[i]) {
        i
    } else {
        run_end(s, i + 1, part)
    }
}

/// A wiki link as written: its parts untrimmed.
pub struct SLink {
    pub embed: bool,
    pub target: Seq<char>,
    pub section: Option<Seq<char>>,
    pub alias: Option<Seq<char>>,
}

/// `s[i..]` starts with `c`.
pub open spec fn char_at(s: Seq<char>, i: int, c: char) -> bool {
    0 <= i < s.len() && s[i] == c
}

/// The optional `|alias` and closing `]]` from `j`.
pub open spec fn link_tail(s: Seq<char>, j: int) -> Option<(Option<Seq<char>>, int)> {
    if char_at(s, j, '|') {
        let a = run_end(s, j + 1, Part::Alias);
        if a == j + 1 || !(char_at(s, a, ']') && char_at(s, a + 1, ']')) {
            None
        } else {
            Some((Some(s.subrange(j + 1, a)), a + 2))
        }
    } else if char_at(s, j, ']') && char_at(s, j + 1, ']') {
        Some((None, j + 2))
    } else {
        None
    }
}

/// The link that starts at `p` in `s`, and the index just after it.
pub open spec fn link_at(s: Seq<char>, p: int) -> Option<(SLink, int)> {
    let embed = char_at(s, p, '!');
    let i = if embed {
        p + 1
    } else {
        p
    };
    if !(char_at(s, i, '[') && char_at(s, i + 1, '[')) {
        None
    } else {
        let t = run_end(s, i + 2, Part::Target);
        if t == i + 2 {
            None
        } else if char_at(s, t, '#') {
            let h = run_end(s, t + 1, Part::Section);
            if h == t + 1 {
                None
            } else {
                match link_tail(s, h) {
                    Some((alias, e)) => Some(
                        (
                            SLink {
                                embed,
                                target: s.subrange(i + 2, t),
                                section: Some(s.subrange(t + 1, h)),
                                alias,
                            },
                            e,
                        ),
                    ),
                    None => None,
                }
            }
        } else {
            match link_tail(s, t) {
                Some((alias, e)) => Some(
                    (SLink { embed, target: s.subrange(i + 2, t), section: None, alias }, e),
                ),
                None => None,
            }
        }
    }
}

/// Lemma: a run ends within the text, not before it starts.
pub proof fn lemma_run_end(s: Seq<char>, i: int, part: Part)
    requires
        0 <= i <= s.len(),
    ensures
        i <= run_end(s, i, part) <= s.len(),
        forall|k: int| i <= k < run_end(s, i, part) ==> part_char(part, #[trigger] s[k]),
        run_end(s, i, part) < s.len() ==> !part_char(part, s[run_end(s, i, part)]),
    decreases s.len() - i,
{
    if i < s.len() && part_char(part, s[i]) {
        lemma_run_end(s, i + 1, part);
    }
}

/// Lemma: a link ends after its start, within the text.
pub proof fn lemma_link_at_end(s: Seq<char>, p: int)
    requires
        0 <= p,
    ensures
        link_at(s, p) matches Some((l, e)) ==> p + 5 <= e <= s.len(),
{
    let i = if char_at(s, p, '!') {
        p + 1
    } else {
        p
    };
    if char_at(s, i, '[') && char_at(s, i + 1, '[') {
        lemma_run_end(s, i + 2, Part::Target);
        let t = run_end(s, i + 2, Part::Target);
        if char_at(s, t, '#') {
            lemma_run_end(s, t + 1, Part::Section);
            let h = run_end(s, t + 1, Part::Section);
            if char_at(s, h, '|') {
                lemma_run_end(s, h + 1, Part::Alias);
            }
        } else if char_at(s, t, '|') {
            lemma_run_end(s, t + 1, Part::Alias);
        }
    }
}

/// The Markdown that a link becomes for the web interface: an embed stays
/// `![[target#section]]` (parts trimmed), a link becomes
/// `[label](target)` with the alias, else the target, as its label.
pub open spec fn markdown_of(l: SLink) -> Seq<char> {
    let target = trim(l.target);
    if l.embed {
        match l.section {
            Some(h) => "![["@ + target + "#"@ + trim(h) + "]]"@,
            None => "![["@ + target + "]]"@,
        }
    } else {
        let label = match l.alias {
            Some(a) => trim(a),
            None => target,
        };
        "["@ + label + "]("@ + target + ")"@
    }
}

/// `s[pos..]` with each wiki link turned into Markdown.
pub open spec fn wiki_to_markdown(s: Seq<char>, pos: int) -> Seq<char>
    decreases s.len() - pos,
{
    if pos < 0 || pos >= s.len() {
        Seq::empty()
    } else {
        proof {
            lemma_link_at_end(s, pos);
        }
        match link_at(s, pos) {
            Some((l, e)) => markdown_of(l) + wiki_to_markdown(s, e),
            None => seq![s[pos]] + wiki_to_markdown(s, pos + 1),
        }
    }
}

/// A wiki link as written.
#[derive(Debug)]
pub struct WikiLink {
    pub embed: bool,
    pub target: String,
    pub section: Option<String>,
    pub alias: Option<String>,
}

impl View for WikiLink {
    type V = SLink;

    open spec fn view(&self) -> SLink {
        SLink {
            embed: self.embed,
            target: self.target@,
            section: match self.section {
                Some(h) => Some(h@),
                None => None,
            },
            alias: match self.alias {
                Some(a) => Some(a@),
                None => None,
            },
        }
    }
}

/// End of the longest run of `part` characters of `v` from `i`.
fn run_end_exec(v: &Vec<char>, i: usize, part: &Part) -> (r: usize)
    requires
        i <= v.len(),
    ensures
        r == run_end(v@, i as int, *part),
{
    let mut k = i;
    while k < v.len()
        invariant
            i <= k <= v.len(),
            run_end(v@, i as int, *part) == run_end(v@, k as int, *part),
        decreases v.len() - k,
    {
        let c = v[k];
        let ok = match part {
            Part::Target => c != ']' && c != '|' && c != '#',
            Part::Section => c != ']' && c != '|',
            Part::Alias => c != ']',
        };
        if !ok {
            return k;
        }
        k = k + 1;
    }
    k
}

/// `v[i] == c`.
fn char_at_exec(v: &Vec<char>, i: usize, c: char) -> (r: bool)
    ensures
        r == char_at(v@, i as int, c),
{
    i < v.len() && v[i] == c
}

/// The optional `|alias` and closing `]]` from `j`.
fn link_tail_exec(v: &Vec<char>, j: usize) -> (r: Option<(Option<String>, usize)>)
    requires
        j <= v.len(),
    ensures
        match r {
            Some((a, e)) => link_tail(v@, j as int) == Some((
                match a {
                    Some(x) => Some(x@),
                    None => None::<Seq<char>>,
                },
                e as int,
            )),
            None => link_tail(v@, j as int) is None,
        },
{
    if char_at_exec(v, j, '|') {
        let a = run_end_exec(v, j + 1, &Part::Alias);
        proof {
            lemma_run_end(v@, j + 1, Part::Alias);
        }
        if a == j + 1 || !(char_at_exec(v, a, ']') && char_at_exec(v, a + 1, ']')) {
            None
        } else {
            Some((Some(string_of(v, j + 1, a)), a + 2))
        }
    } else if char_at_exec(v, j, ']') && char_at_exec(v, j + 1, ']') {
        Some((None, j + 2))
    } else {
        None
    }
}

/// The link that starts at `p` in `v`, and the index just after it.
pub fn link_at_exec(v: &Vec<char>, p: usize) -> (r: Option<(WikiLink, usize)>)
    requires
        p <= v.len(),
    ensures
        match r {
            Some((l, e)) => link_at(v@, p as int) == Some((l@, e as int)),
            None => link_at(v@, p as int) is None,
        },
{
    let embed = char_at_exec(v, p, '!');
    let i = if embed {
        p + 1
    } else {
        p
    };
    if !(char_at_exec(v, i, '[') && char_at_exec(v, i + 1, '[')) {
        return None;
    }
    let t = run_end_exec(v, i + 2, &Part::Target);
    proof {
        lemma_run_end(v@, i + 2, Part::Target);
    }
    if t == i + 2 {
        return None;
    }
    let target = string_of(v, i + 2, t);
    if char_at_exec(v, t, '#') {
        let h = run_end_exec(v, t + 1, &Part::Section);
        proof {
            lemma_run_end(v@, t + 1, Part::Section);
        }
        if h == t + 1 {
            return None;
        }
        let section = string_of(v, t + 1, h);
        match link_tail_exec(v, h) {
            Some((alias, e)) => Some((WikiLink { embed, target, section: Some(section), alias }, e)),
            None => None,
        }
    } else {
        match link_tail_exec(v, t) {
            Some((alias, e)) => Some((WikiLink { embed, target, section: None, alias }, e)),
            None => None,
        }
    }
}

/// The Markdown form of one link.
fn markdown_of_exec(l: &WikiLink) -> (r: String)
    ensures
        r@ == markdown_of(l@),
{
    let target = str_trim(l.target.as_str());
    if l.embed {
        match &l.section {
            Some(h) => {
                let h = str_trim(h.as_str());
                let mut r = own("![[");
                r.append(target.as_str());
                r.append("#");
                r.append(h.as_str());
                r.append("]]");
                r
            },
            None => {
                let mut r = own("![[");
                r.append(target.as_str());
                r.append("]]");
                r
            },
        }
    } else {
        let label = match &l.alias {
            Some(a) => str_trim(a.as_str()),
            None => str_trim(l.target.as_str()),
        };
        let mut r = own("[");
        r.append(label.as_str());
        r.append("](");
        r.append(target.as_str());
        r.append(")");
        r
    }
}

/// Turns the wiki links of `content` into Markdown for the web interface:
/// embeds stay `![[target#section]]`, other links become `[label](target)`.
pub fn render_wiki_links(content: &str) -> (r: String)
    ensures
        r@ == wiki_to_markdown(content@, 0),
{
    let v = chars_of(content);
    let mut out = String::new();
    let mut pos: usize = 0;
    while pos < v.len()
        invariant
            pos <= v.len(),
            out@ + wiki_to_markdown(v@, pos as int) == wiki_to_markdown(v@, 0),
        decreases v.len() - pos,
    {
        proof {
            lemma_link_at_end(v@, pos as int);
        }
        match link_at_exec(&v, pos) {
            Some((l, e)) => {
                let m = markdown_of_exec(&l);
                let ghost before = out@;
                out.append(m.as_str());
                assert(before + (m@ + wiki_to_markdown(v@, e as int)) =~= out@ + wiki_to_markdown(
                    v@,
                    e as int,
                ));
                pos = e;
            },
            None => {
                let ghost before = out@;
                crate::text::push_char(&mut out, v[pos]);
                assert(before + (seq![v@[pos as int]] + wiki_to_markdown(v@, pos + 1)) =~= out@
                    + wiki_to_markdown(v@, pos + 1));
                pos = pos + 1;
            },
        }
    }
    assert(out@ + Seq::<char>::empty() =~= out@);
    out
}

// ---------------------------------------------------------------------------
// Sections
// ---------------------------------------------------------------------------

/// A Markdown heading line starts with `#`.
pub open spec fn is_heading(l: Seq<char>) -> bool {
    starts_with(l, "#"@)
}

/// The number of `#` that a line starts with.
pub open spec fn heading_level(l: Seq<char>) -> int {
    l.len() - trim_start_char(l, '#').len()
}

/// The text of a heading line, without its `#` and surrounding whitespace.
pub open spec fn heading_text(l: Seq<char>) -> Seq<char> {
    trim(trim_start_char(l, '#'))
}

/// The first heading at or after `from` whose lower-cased text is `target`.
pub open spec fn section_start(ls: Seq<Seq<char>>, target: Seq<char>, from: int) -> Option<int>
    decreases ls.len() - from,
{
    if from < 0 || from >= ls.len() {
        None
    } else if is_heading(ls[from]) && lowercase(heading_text(ls[from])) == target {
        Some(from)
    } else {
        section_start(ls, target, from + 1)
    }
}

/// The first heading at or after `from` of level `bound` or less, else the
/// number of lines.
pub open spec fn section_end(ls: Seq<Seq<char>>, from: int, bound: int) -> int
    decreases ls.len() - from,
{
    if from < 0 || from >= ls.len() {
        ls.len() as int
    } else if is_heading(ls[from]) && heading_level(ls[from]) <= bound {
        from
    } else {
        section_end(ls, from + 1, bound)
    }
}

/// The section of `body` under the first heading whose text is `header`
/// (case and surrounding whitespace aside): that heading line and the
/// lines after it up to the next heading of the same or a higher level,
/// joined, without line breaks at either end.
pub open spec fn spec_find_section(body: Seq<char>, header: Seq<char>) -> Option<Seq<char>> {
    let ls = lines(body);
    match section_start(ls, lowercase(trim(header)), 0) {
        Some(i) => Some(
            trim_char(join(ls.subrange(i, section_end(ls, i + 1, heading_level(ls[i]))), "\n"@), '\n'),
        ),
        None => None,
    }
}

/// Level and text of a heading line.
fn heading_parts(l: &str) -> (r: (usize, String))
    ensures
        r.0 == heading_level(l@),
        r.1@ == heading_text(l@),
{
    let v = chars_of(l);
    let lo = skip_char_run(&v, 0, '#');
    assert(v@.skip(0) =~= v@);
    let rest = string_of(&v, lo, v.len());
    assert(rest@ =~= v@.skip(lo as int));
    (lo, str_trim(rest.as_str()))
}

/// The first heading line of `ls` whose lower-cased text is `target`.
fn section_start_exec(ls: &Vec<String>, target: &String) -> (r: Option<usize>)
    ensures
        match r {
            Some(k) => section_start(views(ls@), target@, 0) == Some(k as int) && k < ls.len(),
            None => section_start(views(ls@), target@, 0) is None,
        },
{
    let ghost lsv = views(ls@);
    let mut i: usize = 0;
    while i < ls.len()
        invariant
            i <= ls.len(),
            lsv == views(ls@),
            section_start(lsv, target@, 0) == section_start(lsv, target@, i as int),
        decreases ls.len() - i,
    {
        assert(lsv[i as int] == ls@[i as int]@);
        let (_lv, text) = heading_parts(ls[i].as_str());
        let low = to_lowercase(text.as_str());
        if crate::text::str_starts_with(ls[i].as_str(), "#") && crate::text::str_eq(
            low.as_str(),
            target.as_str(),
        ) {
            return Some(i);
        }
        i = i + 1;
    }
    None
}

/// The first heading line of `ls` at or after `from` whose level is
/// `bound` or less, else the number of lines.
fn section_end_exec(ls: &Vec<String>, from: usize, bound: usize) -> (r: usize)
    requires
        from <= ls.len(),
    ensures
        from <= r <= ls.len(),
        r == section_end(views(ls@), from as int, bound as int),
{
    let ghost lsv = views(ls@);
    let mut j: usize = from;
    while j < ls.len()
        invariant
            from <= j <= ls.len(),
            lsv == views(ls@),
            section_end(lsv, from as int, bound as int) == section_end(lsv, j as int, bound as int),
        decreases ls.len() - j,
    {
        assert(lsv[j as int] == ls@[j as int]@);
        let (lv, _t) = heading_parts(ls[j].as_str());
        if crate::text::str_starts_with(ls[j].as_str(), "#") && lv <= bound {
            return j;
        }
        j = j + 1;
    }
    j
}

/// The section of `body` under the heading `header`, if it has one.
pub fn find_section(body: &str, header: &str) -> (r: Option<String>)
    ensures
        opt_view(r) == spec_find_section(body@, header@),
{
    let ls = str_lines(body);
    let ht = str_trim(header);
    let target = to_lowercase(ht.as_str());
    let ghost lsv = views(ls@);
    let k = match section_start_exec(&ls, &target) {
        Some(k) => k,
        None => {
            return None;
        },
    };
    assert(lsv[k as int] == ls@[k as int]@);
    let (bound, _t) = heading_parts(ls[k].as_str());
    let j = section_end_exec(&ls, k + 1, bound);
    let mut part: Vec<String> = Vec::new();
    let mut m: usize = k;
    while m < j
        invariant
            k <= m <= j <= ls.len(),
            lsv == views(ls@),
            views(part@) == lsv.subrange(k as int, m as int),
        decreases j - m,
    {
        let ghost before = views(part@);
        let x = crate::text::copy(&ls[m]);
        part.push(x);
        assert(lsv[m as int] == ls@[m as int]@);
        assert(views(part@) =~= before.push(x@));
        assert(lsv.subrange(k as int, m + 1) =~= lsv.subrange(k as int, m as int).push(lsv[m as int]));
        m = m + 1;
    }
    let joined = join_exec(&part, "\n");
    Some(str_trim_char(joined.as_str(), '\n'))
}

/// The section of `body` under the heading `header` (see
/// [`spec_find_section`]); where there is none, a dimmed
/// `Warning: Section not found:` followed by a space and `header`.
pub fn extract_section(body: &str, header: &str) -> (r: String)
    ensures
        spec_find_section(body@, header@) matches Some(s) ==> r@ == s,
        spec_find_section(body@, header@) is None ==> (r@ == "Warning: Section not found: "@
            + header@ || r@ == "\x1B[2mWarning: Section not found:\x1B[0m "@ + header@),
{
    match find_section(body, header) {
        Some(s) => s,
        None => {
            proof {
                reveal_strlit("Warning: Section not found:");
                reveal_strlit("\x1B[0m");
                crate::text::lemma_find_absent("Warning: Section not found:"@, "\x1B[0m"@, 0);
            }
            let w = dimmed("Warning: Section not found:");
            proof {
                reveal_strlit("Warning: Section not found:");
                reveal_strlit("\x1B[0m");
                reveal_strlit("Warning: Section not found: ");
                reveal_strlit("\x1B[2mWarning: Section not found:\x1B[0m ");
                reveal_strlit("\x1B[2m");
                reveal_strlit(" ");
            }
            let w2 = concat(w.as_str(), " ");
            concat(w2.as_str(), header)
        },
    }
}

// ---------------------------------------------------------------------------
// Embedding
// ---------------------------------------------------------------------------

/// The text of the file `name` of a folder, when it is there and was read.
pub open spec fn folder_text(f: Folder, name: Seq<char>) -> Option<Seq<char>> {
    match first_index_from(f.name_views(), name, 0) {
        Some(i) => opt_view(f.texts@[i]),
        None => None,
    }
}

/// What an embed shows of an entity.
pub enum SResolved {
    /// Text: the body, or the named section of it.
    Body(Seq<char>),
    /// A bookmark embedded whole: its title and url.
    Bookmark(Seq<char>, Seq<char>),
    /// The entity has no section of this name.
    MissingSection(Seq<char>),
}

/// The value of a `key` line of a frontmatter: the rest of the line,
/// trimmed, then without surrounding `'` and then `"` characters.
pub open spec fn field_value(rest: Seq<char>) -> Seq<char> {
    trim_char(trim_char(trim(rest), '\''), '"')
}

/// The value of the last frontmatter line that starts with `key`, or
/// nothing.
pub open spec fn fm_field(ls: Seq<Seq<char>>, key: Seq<char>) -> Seq<char>
    decreases ls.len(),
{
    if ls.len() == 0 {
        Seq::empty()
    } else if starts_with(ls.last(), key) {
        field_value(ls.last().skip(key.len() as int))
    } else {
        fm_field(ls.drop_last(), key)
    }
}

/// `text`, or its section `header` when one is asked for.
pub open spec fn with_section(text: Seq<char>, header: Option<Seq<char>>) -> SResolved {
    match header {
        Some(h) => match spec_find_section(text, h) {
            Some(sec) => SResolved::Body(sec),
            None => SResolved::MissingSection(h),
        },
        None => SResolved::Body(text),
    }
}

/// What an embed shows of the file text `raw` of an entity of `kind`: a
/// bookmark embedded whole shows the `title:` and `url:` lines of its
/// frontmatter; otherwise the body after the frontmatter (line breaks at its
/// start dropped), or the whole text where there is no frontmatter, or the
/// asked-for section of either.
pub open spec fn body_of(kind: EntityKind, raw: Seq<char>, header: Option<Seq<char>>) -> SResolved {
    match spec_split_frontmatter(raw) {
        Ok((fm, b)) => if kind == EntityKind::Bookmark && header is None {
            SResolved::Bookmark(fm_field(lines(fm), "title: "@), fm_field(lines(fm), "url: "@))
        } else {
            with_section(trim_start_char(b, '\n'), header)
        },
        Err(_) => with_section(trim_start_char(raw, '\u{feff}'), header),
    }
}

/// What an embed of `prefix` shows from `kind`'s folder, if the id resolves
/// there and the file was read.
pub open spec fn resolve_in(store: Store, kind: EntityKind, prefix: Seq<char>, header: Option<Seq<char>>) -> Option<SResolved> {
    let f = store.folder(kind);
    match spec_resolve_id(f.name_views(), prefix) {
        Ok(full) => match folder_text(f, full + ".md"@) {
            Some(raw) => Some(body_of(kind, raw, header)),
            None => None,
        },
        Err(_) => None,
    }
}

/// What an embed of `prefix` shows: from the notes, else the bookmarks,
/// else the tasks.
pub open spec fn spec_resolve_body(store: Store, prefix: Seq<char>, header: Option<Seq<char>>) -> Option<SResolved> {
    match resolve_in(store, EntityKind::Note, prefix, header) {
        Some(r) => Some(r),
        None => match resolve_in(store, EntityKind::Bookmark, prefix, header) {
            Some(r) => Some(r),
            None => resolve_in(store, EntityKind::Task, prefix, header),
        },
    }
}

/// What an embed shows of an entity.
#[derive(Debug)]
pub enum Resolved {
    /// Text: the body, or the named section of it.
    Body(String),
    /// A bookmark embedded whole.
    Bookmark { title: String, url: String },
    /// The entity has no section of this name (the name).
    MissingSection(String),
}

impl View for Resolved {
    type V = SResolved;

    open spec fn view(&self) -> SResolved {
        match self {
            Resolved::Body(b) => SResolved::Body(b@),
            Resolved::Bookmark { title, url } => SResolved::Bookmark(title@, url@),
            Resolved::MissingSection(h) => SResolved::MissingSection(h@),
        }
    }
}

/// The value of the last frontmatter line that starts with `key`.
fn fm_field_exec(ls: &Vec<String>, key: &str) -> (r: String)
    ensures
        r@ == fm_field(views(ls@), key@),
{
    let ghost lv = views(ls@);
    let mut i: usize = ls.len();
    assert(lv.take(ls.len() as int) =~= lv);
    while i > 0
        invariant
            i <= ls.len(),
            lv == views(ls@),
            fm_field(lv, key@) == fm_field(lv.take(i as int), key@),
        decreases i,
    {
        let ghost t = lv.take(i as int);
        assert(t.drop_last() =~= lv.take(i - 1));
        assert(t.last() == ls@[i - 1]@);
        if str_starts_with(ls[i - 1].as_str(), key) {
            let v = chars_of(ls[i - 1].as_str());
            let k = chars_of(key);
            let rest = string_of(&v, k.len(), v.len());
            assert(rest@ =~= ls@[i - 1]@.skip(key@.len() as int));
            let a = str_trim(rest.as_str());
            let b = str_trim_char(a.as_str(), '\'');
            return str_trim_char(b.as_str(), '"');
        }
        i = i - 1;
    }
    String::new()
}

/// `text`, or its section `header`.
fn with_section_exec(text: &str, header: Option<&str>) -> (r: Resolved)
    ensures
        r@ == with_section(text@, match header {
            Some(h) => Some(h@),
            None => None,
        }),
{
    match header {
        Some(h) => match find_section(text, h) {
            Some(sec) => Resolved::Body(sec),
            None => Resolved::MissingSection(own(h)),
        },
        None => Resolved::Body(own(text)),
    }
}

/// What an embed shows of the file text `raw` of an entity of `kind`.
fn body_of_exec(kind: EntityKind, raw: &str, header: Option<&str>) -> (r: Resolved)
    ensures
        r@ == body_of(kind, raw@, match header {
            Some(h) => Some(h@),
            None => None,
        }),
{
    match split_frontmatter(raw) {
        Ok((fm, b)) => {
            if kind == EntityKind::Bookmark && header.is_none() {
                let ls = str_lines(fm.as_str());
                proof {
                    reveal_strlit("title: ");
                    reveal_strlit("url: ");
                }
                let title = fm_field_exec(&ls, "title: ");
                let url = fm_field_exec(&ls, "url: ");
                Resolved::Bookmark { title, url }
            } else {
                let body = str_trim_start_char(b.as_str(), '\n');
                with_section_exec(body.as_str(), header)
            }
        },
        Err(_) => {
            let r = str_trim_start_char(raw, '\u{feff}');
            with_section_exec(r.as_str(), header)
        },
    }
}

/// What an embed of `prefix` shows from one folder.
fn resolve_in_exec(store: &Store, kind: EntityKind, prefix: &str, header: Option<&str>) -> (r: Option<Resolved>)
    requires
        store.wf(),
    ensures
        match r {
            Some(x) => resolve_in(*store, kind, prefix@, match header {
                Some(h) => Some(h@),
                None => None,
            }) == Some(x@),
            None => resolve_in(*store, kind, prefix@, match header {
                Some(h) => Some(h@),
                None => None,
            }) is None,
        },
{
    let f = store.folder_of(kind);
    let full = match resolve_listed(&f.names, prefix) {
        Ok(full) => full,
        Err(_) => {
            return None;
        },
    };
    let name = concat(full.as_str(), ".md");
    match index_of_name(&f.names, name.as_str()) {
        Some(i) => {
            proof {
                lemma_first_index(f.name_views(), name@, i as int, 0);
            }
            match &f.texts[i] {
                Some(raw) => Some(body_of_exec(kind, raw.as_str(), header)),
                None => None,
            }
        },
        None => {
            proof {
                lemma_no_index(f.name_views(), name@, 0);
            }
            None
        },
    }
}

/// What an embed of the entity `prefix` shows, optionally only its section
/// `header`; `None` when no note, bookmark or task matches.
pub fn resolve_entity_body(store: &Store, prefix: &str, header: Option<&str>) -> (r: Option<Resolved>)
    requires
        store.wf(),
    ensures
        match r {
            Some(x) => spec_resolve_body(*store, prefix@, match header {
                Some(h) => Some(h@),
                None => None,
            }) == Some(x@),
            None => spec_resolve_body(*store, prefix@, match header {
                Some(h) => Some(h@),
                None => None,
            }) is None,
        },
{
    match resolve_in_exec(store, EntityKind::Note, prefix, header) {
        Some(r) => Some(r),
        None => match resolve_in_exec(store, EntityKind::Bookmark, prefix, header) {
            Some(r) => Some(r),
            None => resolve_in_exec(store, EntityKind::Task, prefix, header),
        },
    }
}

// ---------------------------------------------------------------------------
// Rendering for the terminal
// ---------------------------------------------------------------------------

/// A piece of rendered content, styled when it is printed.
pub enum SPiece {
    /// Text shown as it is.
    Text(Seq<char>),
    /// A link, shown by its label.
    Link(Seq<char>),
    /// An embed whose target matches nothing (the target).
    MissingEmbed(Seq<char>),
    /// An embedded bookmark or missing section, shown as it is.
    Embed(SResolved),
    /// Embedded content past the nesting limit, shown unrendered.
    Limit(SResolved),
}

/// A piece of rendered content, styled when it is printed.
#[derive(Debug)]
pub enum Piece {
    /// Text shown as it is.
    Text(String),
    /// A link, shown by its label.
    Link(String),
    /// An embed whose target matches nothing (the target).
    MissingEmbed(String),
    /// An embedded bookmark or missing section, shown as it is.
    Embed(Resolved),
    /// Embedded content past the nesting limit, shown unrendered.
    Limit(Resolved),
}

impl View for Piece {
    type V = SPiece;

    open spec fn view(&self) -> SPiece {
        match self {
            Piece::Text(t) => SPiece::Text(t@),
            Piece::Link(l) => SPiece::Link(l@),
            Piece::MissingEmbed(t) => SPiece::MissingEmbed(t@),
            Piece::Embed(r) => SPiece::Embed(r@),
            Piece::Limit(r) => SPiece::Limit(r@),
        }
    }
}

/// The models of a list of pieces.
pub open spec fn piece_views(v: Seq<Piece>) -> Seq<SPiece> {
    v.map_values(|p: Piece| p@)
}

/// The start of the first link at or after `pos`.
pub open spec fn next_link(s: Seq<char>, pos: int) -> Option<int>
    decreases s.len() - pos,
{
    if pos < 0 || pos >= s.len() {
        None
    } else if link_at(s, pos) is Some {
        Some(pos)
    } else {
        next_link(s, pos + 1)
    }
}

/// Lemma: `next_link` finds a link at or after its start.
pub proof fn lemma_next_link(s: Seq<char>, pos: int)
    requires
        0 <= pos,
    ensures
        next_link(s, pos) matches Some(q) ==> pos <= q < s.len() && link_at(s, q) is Some,
    decreases s.len() - pos,
{
    if pos < s.len() && link_at(s, pos) is None {
        lemma_next_link(s, pos + 1);
    }
}

/// The label a plain link is shown by: its alias, else its section, else
/// its target, trimmed.
pub open spec fn link_label(l: SLink) -> Seq<char> {
    match l.alias {
        Some(a) => trim(a),
        None => match l.section {
            Some(h) => trim(h),
            None => trim(l.target),
        },
    }
}

/// The trimmed section of a link.
pub open spec fn trimmed_section(l: SLink) -> Option<Seq<char>> {
    match l.section {
        Some(h) => Some(trim(h)),
        None => None,
    }
}

/// The pieces that `s[pos..]` renders to at nesting `depth`: text between
/// links as it is, each link by [`link_pieces`].
pub open spec fn render_from(store: Store, s: Seq<char>, pos: int, depth: nat) -> Seq<SPiece>
    decreases (if depth == 0 { 1nat } else { 0nat }), s.len() - pos,
{
    if pos < 0 || pos >= s.len() {
        Seq::empty()
    } else {
        proof {
            lemma_next_link(s, pos);
        }
        match next_link(s, pos) {
            None => seq![SPiece::Text(s.skip(pos))],
            Some(q) => {
                proof {
                    lemma_link_at_end(s, q);
                }
                let (l, e) = link_at(s, q).unwrap();
                (if q > pos {
                    seq![SPiece::Text(s.subrange(pos, q))]
                } else {
                    Seq::empty()
                }) + link_pieces(store, l, depth) + render_from(store, s, e, depth)
            },
        }
    }
}

/// The text an embedded bookmark shows, colours aside: its title, then a
/// line `url: <url>`.
pub open spec fn bookmark_text(title: Seq<char>, url: Seq<char>) -> Seq<char> {
    title + "\n"@ + "url: "@ + url
}

/// The pieces a link renders to at nesting `depth`. A plain link shows its
/// label. An embed shows what its target resolves to followed by a line
/// break: body text, or a bookmark's [`bookmark_text`], rendered in turn
/// one level deeper; a missing section as it is; or, from the second level
/// on, the content unrendered behind the nesting limit. An embed of
/// nothing shows a warning with the target.
pub open spec fn link_pieces(store: Store, l: SLink, depth: nat) -> Seq<SPiece>
    decreases (if depth == 0 { 1nat } else { 0nat }), 0int,
{
    if !l.embed {
        seq![SPiece::Link(link_label(l))]
    } else {
        match spec_resolve_body(store, trim(l.target), trimmed_section(l)) {
            None => seq![SPiece::MissingEmbed(trim(l.target))],
            Some(r) => (if depth >= 1 {
                seq![SPiece::Limit(r)]
            } else {
                match r {
                    SResolved::Body(b) => render_from(store, trim_char(b, '\n'), 0, depth + 1),
                    SResolved::Bookmark(t, u) => render_from(store, trim_char(bookmark_text(t, u), '\n'), 0, depth + 1),
                    _ => seq![SPiece::Embed(r)],
                }
            }) + seq![SPiece::Text("\n"@)],
        }
    }
}

/// The pieces `v` renders to at nesting `depth` (see [`render_from`]).
fn render_pieces(store: &Store, v: &Vec<char>, depth: usize) -> (r: Vec<Piece>)
    requires
        store.wf(),
        depth <= 1,
    ensures
        piece_views(r@) == render_from(*store, v@, 0, depth as nat),
    decreases (if depth == 0 { 1nat } else { 0nat }),
{
    let mut out: Vec<Piece> = Vec::new();
    let mut pos: usize = 0;
    while pos < v.len()
        invariant
            pos <= v.len(),
            depth <= 1,
            store.wf(),
            piece_views(out@) + render_from(*store, v@, pos as int, depth as nat) == render_from(
                *store,
                v@,
                0,
                depth as nat,
            ),
        decreases v.len() - pos,
    {
        let mut q = pos;
        while q < v.len() && link_at_exec(v, q).is_none()
            invariant
                pos <= q <= v.len(),
                next_link(v@, pos as int) == next_link(v@, q as int),
            decreases v.len() - q,
        {
            q = q + 1;
        }
        let ghost before = piece_views(out@);
        if q > pos {
            let t = string_of(v, pos, q);
            out.push(Piece::Text(t));
        }
        if q == v.len() {
            assert(next_link(v@, pos as int) is None);
            assert(v@.subrange(pos as int, q as int) =~= v@.skip(pos as int));
            assert(piece_views(out@) =~= before + render_from(*store, v@, pos as int, depth as nat));
            pos = q;
        } else {
            let (l, e) = link_at_exec(v, q).unwrap();
            proof {
                lemma_link_at_end(v@, q as int);
            }
            let ghost mid = piece_views(out@);
            assert(mid =~= before + (if q > pos {
                seq![SPiece::Text(v@.subrange(pos as int, q as int))]
            } else {
                Seq::<SPiece>::empty()
            }));
            let mut lp = link_pieces_exec(store, &l, depth);
            out.append(&mut lp);
            assert(piece_views(out@) =~= mid + link_pieces(*store, l@, depth as nat));
            pos = e;
        }
    }
    assert(piece_views(out@) + Seq::<SPiece>::empty() =~= piece_views(out@));
    out
}

/// The pieces one link renders to at nesting `depth` (see
/// [`link_pieces`]).
fn link_pieces_exec(store: &Store, l: &WikiLink, depth: usize) -> (r: Vec<Piece>)
    requires
        store.wf(),
        depth <= 1,
    ensures
        piece_views(r@) == link_pieces(*store, l@, depth as nat),
    decreases (if depth == 0 { 1nat } else { 0nat }), 0int,
{
    let target = str_trim(l.target.as_str());
    let mut r: Vec<Piece> = Vec::new();
    if !l.embed {
        let label = match &l.alias {
            Some(a) => str_trim(a.as_str()),
            None => match &l.section {
                Some(h) => str_trim(h.as_str()),
                None => target,
            },
        };
        r.push(Piece::Link(label));
        assert(piece_views(r@) =~= seq![SPiece::Link(link_label(l@))]);
        return r;
    }
    let section = match &l.section {
        Some(h) => Some(str_trim(h.as_str())),
        None => None,
    };
    let header = match &section {
        Some(h) => Some(h.as_str()),
        None => None,
    };
    match resolve_entity_body(store, target.as_str(), header) {
        None => {
            r.push(Piece::MissingEmbed(target));
        },
        Some(res) => {
            if depth >= 1 {
                r.push(Piece::Limit(res));
            } else {
                match res {
                    Resolved::Body(b) => {
                        let t = str_trim_char(b.as_str(), '\n');
                        let tv = chars_of(t.as_str());
                        r = render_pieces(store, &tv, depth + 1);
                    },
                    Resolved::Bookmark { title, url } => {
                        let a = concat(title.as_str(), "\n");
                        let b = concat(a.as_str(), "url: ");
                        let c = concat(b.as_str(), url.as_str());
                        let t = str_trim_char(c.as_str(), '\n');
                        let tv = chars_of(t.as_str());
                        r = render_pieces(store, &tv, depth + 1);
                    },
                    other => {
                        r.push(Piece::Embed(other));
                    },
                }
            }
            let ghost before = piece_views(r@);
            r.push(Piece::Text(own("\n")));
            assert(piece_views(r@) =~= before + seq![SPiece::Text("\n"@)]);
        },
    }
    assert(piece_views(r@) =~= link_pieces(*store, l@, depth as nat));
    r
}

/// Renders `content` for the terminal: text as it is, links by their
/// label, embeds by the body or section of the entity they name, nested at
/// most one level (see [`render_from`]).
pub fn render_content(store: &Store, content: &str) -> (r: Vec<Piece>)
    requires
        store.wf(),
    ensures
        piece_views(r@) == render_from(*store, content@, 0, 0),
{
    let v = chars_of(content);
    render_pieces(store, &v, 0)
}


/// Law: text without a complete wiki link is shown unchanged by the web
/// interface.
pub proof fn law_linkless_text_unchanged(s: Seq<char>)
    requires
        linkless(s),
    ensures
        wiki_to_markdown(s, 0) == s,
{
    lemma_plain_from(s, 0);
    assert(s.skip(0) =~= s);
}

/// Law: text without `[[` holds no wiki link, and the web interface shows
/// it unchanged.
pub proof fn law_plain_text_unchanged(s: Seq<char>)
    requires
        !contains_sub(s, "[["@),
    ensures
        wiki_to_markdown(s, 0) == s,
{
    assert forall|p: int| 0 <= p < s.len() implies #[trigger] link_at(s, p) is None by {
        lemma_no_link_at(s, p);
    }
    law_linkless_text_unchanged(s);
}

/// Lemma: without a link, the rest of the text is copied.
proof fn lemma_plain_from(s: Seq<char>, pos: int)
    requires
        0 <= pos <= s.len(),
        linkless(s),
    ensures
        wiki_to_markdown(s, pos) == s.skip(pos),
    decreases s.len() - pos,
{
    if pos < s.len() {
        assert(link_at(s, pos) is None);
        lemma_plain_from(s, pos + 1);
        assert(seq![s[pos]] + s.skip(pos + 1) =~= s.skip(pos));
    }
}

/// Lemma: text without `[[` holds no link at any position.
proof fn lemma_no_link_at(s: Seq<char>, pos: int)
    requires
        0 <= pos < s.len(),
        !contains_sub(s, "[["@),
    ensures
        link_at(s, pos) is None,
{
    reveal_strlit("[[");
    let i = if char_at(s, pos, '!') {
        pos + 1
    } else {
        pos
    };
    if char_at(s, i, '[') && char_at(s, i + 1, '[') {
        crate::text::lemma_find_none(s, "[["@, 0, i);
        assert(s.subrange(i, i + 2) =~= "[["@);
    }
}

/// Text in which no complete wiki link starts anywhere.
pub open spec fn linkless(s: Seq<char>) -> bool {
    forall|p: int| 0 <= p < s.len() ==> #[trigger] link_at(s, p) is None
}

/// Lemma: linkless text has no next link.
proof fn lemma_linkless_no_next(s: Seq<char>, pos: int)
    requires
        0 <= pos,
        linkless(s),
    ensures
        next_link(s, pos) is None,
    decreases s.len() - pos,
{
    if pos < s.len() {
        assert(link_at(s, pos) is None);
        lemma_linkless_no_next(s, pos + 1);
    }
}

/// Law: text without a complete wiki link is shown unchanged by the
/// terminal: it renders, at any nesting depth, to one piece of text that is
/// the whole of it (to nothing when it is empty).
pub proof fn law_linkless_text_rendered(store: Store, s: Seq<char>, depth: nat)
    requires
        linkless(s),
    ensures
        render_from(store, s, 0, depth) == (if s.len() == 0 {
            Seq::<SPiece>::empty()
        } else {
            seq![SPiece::Text(s)]
        }),
{
    lemma_linkless_no_next(s, 0);
    assert(s.skip(0) =~= s);
}

/// Law: text without `[[` holds no complete wiki link, so the terminal
/// shows it unchanged (see [`law_linkless_text_rendered`]).
pub proof fn law_plain_text_rendered(store: Store, s: Seq<char>, depth: nat)
    requires
        !contains_sub(s, "[["@),
    ensures
        linkless(s),
        render_from(store, s, 0, depth) == (if s.len() == 0 {
            Seq::<SPiece>::empty()
        } else {
            seq![SPiece::Text(s)]
        }),
{
    assert forall|p: int| 0 <= p < s.len() implies #[trigger] link_at(s, p) is None by {
        lemma_no_link_at(s, p);
    }
    law_linkless_text_rendered(store, s, depth);
}

/// A piece that embedded content may hold: text, a link label, a missing
/// embed warning, or content behind the nesting limit.
pub open spec fn shallow_piece(p: SPiece) -> bool {
    p is Text || p is Link || p is MissingEmbed || p is Limit
}

/// Law: embeds recurse one level deep. Inside embedded content (nesting
/// depth 1) an embed is never expanded or shown whole: every piece is
/// text, a link label, a missing-embed warning, or content behind the
/// nesting limit.
pub proof fn law_embeds_one_level(store: Store, s: Seq<char>, pos: int)
    ensures
        forall|i: int| 0 <= i < render_from(store, s, pos, 1).len() ==> shallow_piece(#[trigger] render_from(store, s, pos, 1)[i]),
    decreases s.len() - pos,
{
    if 0 <= pos < s.len() {
        lemma_next_link(s, pos);
        match next_link(s, pos) {
            None => {},
            Some(q) => {
                lemma_link_at_end(s, q);
                let (l, e) = link_at(s, q).unwrap();
                law_embeds_one_level(store, s, e);
                let head: Seq<SPiece> = if q > pos {
                    seq![SPiece::Text(s.subrange(pos, q))]
                } else {
                    Seq::empty()
                };
                let mid = link_pieces(store, l, 1);
                let tail = render_from(store, s, e, 1);
                assert(render_from(store, s, pos, 1) == head + mid + tail);
                assert forall|i: int| 0 <= i < mid.len() implies shallow_piece(#[trigger] mid[i]) by {}
                assert forall|i: int| 0 <= i < (head + mid + tail).len() implies shallow_piece(#[trigger] (head + mid + tail)[i]) by {
                    if i < head.len() {
                    } else if i < head.len() + mid.len() {
                        assert((head + mid + tail)[i] == mid[i - head.len()]);
                    } else {
                        assert((head + mid + tail)[i] == tail[i - head.len() - mid.len()]);
                    }
                }
            },
        }
    }
}

} // verus!
