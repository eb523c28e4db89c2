use znote::models::{EntityKind, Entry};
use znote::storage::{Folder, Store};
use znote::wiki::{Piece, Resolved, extract_section, find_section, render_content, render_wiki_links, resolve_entity_body};

#[test]
fn test_extract_section() {
    let body = "\
# Top Level
top level text

## Sub 1
text sub 1

### Deep 1
deep text 1

## Sub 2
text sub 2";

    let section = extract_section(body, "Sub 1");
    assert_eq!(section, "## Sub 1\ntext sub 1\n\n### Deep 1\ndeep text 1");

    let section = extract_section(body, "Top Level");
    assert_eq!(
        section,
        "# Top Level\ntop level text\n\n## Sub 1\ntext sub 1\n\n### Deep 1\ndeep text 1\n\n## Sub 2\ntext sub 2"
    );

    let section = extract_section(body, "Sub 2");
    assert_eq!(section, "## Sub 2\ntext sub 2");

    let section = extract_section(body, "missing");
    assert!(section.contains("Warning: Section not found"));
}

#[test]
fn find_section_ignores_case_and_spaces() {
    let body = "intro\n## My Part  \nline\n### Sub\nmore\n## Next\nafter";
    assert_eq!(find_section(body, "  my part"), Some("## My Part  \nline\n### Sub\nmore".to_string()));
    assert_eq!(find_section(body, "nope"), None);
}

/// The wiki-link syntax as the regular expression of the web server and
/// the terminal renderer writes it, applied with the `regex` crate.
fn regex_markdown(content: &str) -> String {
    let re = regex::Regex::new(
        r"(?P<embed>!?)(?:\[\[)(?P<target>[^\]|#]+)(?:#(?P<header>[^\]|]+))?(?:\|(?P<alias>[^\]]+))?(?:\]\])",
    )
    .unwrap();
    let mut result = String::new();
    let mut last_end = 0;
    for caps in re.captures_iter(content) {
        let m = caps.get(0).unwrap();
        result.push_str(&content[last_end..m.start()]);
        last_end = m.end();
        let is_embed = caps.name("embed").map(|m| m.as_str() == "!").unwrap_or(false);
        let target = caps.name("target").unwrap().as_str().trim();
        let header = caps.name("header").map(|m| m.as_str().trim());
        let alias = caps.name("alias").map(|m| m.as_str().trim());
        let label = alias.unwrap_or(target);
        if is_embed {
            if let Some(h) = header {
                result.push_str(&format!("![[{}#{}]]", target, h));
            } else {
                result.push_str(&format!("![[{}]]", target));
            }
        } else {
            result.push_str(&format!("[{}]({})", label, target));
        }
    }
    result.push_str(&content[last_end..]);
    result
}

#[test]
fn render_wiki_links_agrees_with_the_regex() {
    let cases = [
        "plain text",
        "[[abc]]",
        "see [[abc|The ABC]] and ![[def#Intro]] ok",
        "![[x]] and ![[y#h|alias]]",
        "[[a#b]] [[ a | b ]]",
        "[[]] [[#x]] [[a#]] [[a|]] [[a]",
        "[[a]]]] [[[b]]",
        "!![[c]]",
        "[[a#b#c]] [[a|b|c]] [[a|b#c]]",
        "[[multi\nline]] [[é ü|ñ]]",
        "[[a]] [[b",
        "x![[y",
        "[[a#b|c]]d[[e]]",
    ];
    for c in cases.iter() {
        assert_eq!(render_wiki_links(c), regex_markdown(c), "input: {:?}", c);
    }
}

#[test]
fn render_wiki_links_examples() {
    assert_eq!(render_wiki_links("go [[886a5bea|Home]]!"), "go [Home](886a5bea)!");
    assert_eq!(render_wiki_links("![[886a5bea#Setup]]"), "![[886a5bea#Setup]]");
    assert_eq!(render_wiki_links("[[abc]]"), "[abc](abc)");
}

fn folder(names: &[&str], texts: &[Option<&str>]) -> Folder {
    Folder {
        names: names.iter().map(|s| s.to_string()).collect(),
        texts: texts.iter().map(|t| t.map(|x| x.to_string())).collect(),
        entries: names.iter().map(|_| None::<Entry>).collect(),
    }
}

fn store() -> Store {
    Store {
        data_dir: "/data".to_string(),
        notes: folder(
            &["aaaa1111.md", "aaab2222.md", "nested01.md"],
            &[
                Some("---\nznote: note/v1/aaaa1111\n---\n\nNote body\n## Part\npart text\n"),
                Some("no frontmatter here"),
                Some("---\nznote: note/v1/nested01\n---\nouter ![[aaaa1111]] end"),
            ],
        ),
        bookmarks: folder(
            &["bbbb1111.md"],
            &[Some("---\ntitle: 'Rust Site'\nurl: \"https://rust-lang.org\"\n---\ndesc")],
        ),
        tasks: folder(&[], &[]),
    }
}

#[test]
fn resolve_entity_body_cases() {
    let st = store();
    match resolve_entity_body(&st, "aaaa", None) {
        Some(Resolved::Body(b)) => assert_eq!(b, "Note body\n## Part\npart text\n"),
        other => panic!("unexpected {:?}", other),
    }
    match resolve_entity_body(&st, "aaaa1111", Some("part")) {
        Some(Resolved::Body(b)) => assert_eq!(b, "## Part\npart text"),
        other => panic!("unexpected {:?}", other),
    }
    match resolve_entity_body(&st, "aaaa1111", Some("none")) {
        Some(Resolved::MissingSection(h)) => assert_eq!(h, "none"),
        other => panic!("unexpected {:?}", other),
    }
    match resolve_entity_body(&st, "aaab", None) {
        Some(Resolved::Body(b)) => assert_eq!(b, "no frontmatter here"),
        other => panic!("unexpected {:?}", other),
    }
    match resolve_entity_body(&st, "bbbb", None) {
        Some(Resolved::Bookmark { title, url }) => {
            assert_eq!(title, "Rust Site");
            assert_eq!(url, "https://rust-lang.org");
        },
        other => panic!("unexpected {:?}", other),
    }
    // an ambiguous prefix and an unknown one resolve to nothing
    assert!(resolve_entity_body(&st, "aaa", None).is_none());
    assert!(resolve_entity_body(&st, "zzzz", None).is_none());
}

#[test]
fn render_content_links_embeds_and_limit() {
    let st = store();
    let pieces = render_content(&st, "Start [[aaaa1111|Alias]] ![[aaaa1111#Part]] ![[zzzz]] ![[nested01]]");
    let mut shown = Vec::new();
    for p in &pieces {
        match p {
            Piece::Text(t) => shown.push(format!("T({})", t)),
            Piece::Link(l) => shown.push(format!("L({})", l)),
            Piece::MissingEmbed(t) => shown.push(format!("M({})", t)),
            Piece::Embed(_) => shown.push("E".to_string()),
            Piece::Limit(Resolved::Body(b)) => shown.push(format!("X({})", b)),
            Piece::Limit(_) => shown.push("X".to_string()),
        }
    }
    assert_eq!(
        shown,
        vec![
            "T(Start )",
            "L(Alias)",
            "T( )",
            "T(## Part\npart text)",
            "T(\n)",
            "T( )",
            "M(zzzz)",
            "T( )",
            "T(outer )",
            "X(Note body\n## Part\npart text\n)",
            "T(\n)",
            "T( end)",
            "T(\n)",
        ]
    );
}

fn texts_of(pieces: &[Piece]) -> Vec<String> {
    pieces
        .iter()
        .map(|p| match p {
            Piece::Text(t) => format!("T({})", t),
            Piece::Link(l) => format!("L({})", l),
            Piece::MissingEmbed(t) => format!("M({})", t),
            Piece::Embed(_) => "E".to_string(),
            Piece::Limit(_) => "X".to_string(),
        })
        .collect()
}

#[test]
fn render_content_renders_embedded_bookmarks() {
    let st = store();
    let pieces = render_content(&st, "![[bbbb1111]]");
    assert_eq!(texts_of(&pieces), vec!["T(Rust Site\nurl: https://rust-lang.org)", "T(\n)"]);

    let mut st = store();
    st.bookmarks = folder(
        &["cccc1111.md"],
        &[Some("---\ntitle: See [[aaaa1111|the note]]\nurl: https://x.org\n---\n")],
    );
    let pieces = render_content(&st, "![[cccc]]");
    assert_eq!(
        texts_of(&pieces),
        vec!["T(See )", "L(the note)", "T(\nurl: https://x.org)", "T(\n)"]
    );
    let pieces = render_content(&st, "![[nested01]]");
    assert_eq!(texts_of(&pieces), vec!["T(outer )", "X", "T(\n)", "T( end)", "T(\n)"]);
}

#[test]
fn links_show_alias_then_section_then_target() {
    let st = store();
    let p = render_content(&st, "[[t#sec]][[t]]");
    match (&p[0], &p[1]) {
        (Piece::Link(a), Piece::Link(b)) => {
            assert_eq!(a, "sec");
            assert_eq!(b, "t");
        },
        _ => panic!("unexpected"),
    }
    let _ = EntityKind::Note;
}

#[test]
fn render_content_leaves_plain_text_whole() {
    let st = store();
    let pieces = render_content(&st, "No links here, [only] one bracket [ and ] ! marks");
    assert_eq!(pieces.len(), 1);
    match &pieces[0] {
        Piece::Text(t) => assert_eq!(t, "No links here, [only] one bracket [ and ] ! marks"),
        _ => panic!("plain text rendered as something else"),
    }
    assert!(render_content(&st, "").is_empty());
}

#[test]
fn render_content_leaves_incomplete_links_as_text() {
    let st = store();
    let text = "open [[aaaa1111 never closed, ![[ and [[|]] and [[#]]";
    assert_eq!(texts_of(&render_content(&st, text)), vec![format!("T({})", text)]);
}
