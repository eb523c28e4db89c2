use znote::models::EntityKind;
use znote::query::{
    Expr, QueryError, SearchIndex, SearchMatch, Token, eval, filter_pattern, find_files, lex, matched_ids, parse,
    search_patterns, target_of_file,
};

fn tag(v: &str) -> Expr {
    Expr::Filter { kind: "tag".into(), value: v.into() }
}

fn link(v: &str) -> Expr {
    Expr::Filter { kind: "link".into(), value: v.into() }
}

#[test]
fn test_lex_simple() {
    let tokens = lex("tag:rust AND tag:docs").unwrap();
    assert_eq!(
        tokens,
        vec![
            Token::Filter("tag".into(), "rust".into()),
            Token::And,
            Token::Filter("tag".into(), "docs".into()),
        ]
    );
}

#[test]
fn test_lex_parens_or_not() {
    let tokens = lex("NOT (tag:rust OR link:docs)").unwrap();
    assert_eq!(
        tokens,
        vec![
            Token::Not,
            Token::LParen,
            Token::Filter("tag".into(), "rust".into()),
            Token::Or,
            Token::Filter("link".into(), "docs".into()),
            Token::RParen,
        ]
    );
}

#[test]
fn test_lex_unknown_filter_errors() {
    assert!(lex("foo:bar").is_err());
}

#[test]
fn test_lex_bare_word_errors() {
    assert!(lex("rust").is_err());
}

#[test]
fn test_parse_simple_and() {
    let expr = parse("tag:rust AND tag:docs").unwrap();
    assert_eq!(expr, Expr::And(Box::new(tag("rust")), Box::new(tag("docs"))));
}

#[test]
fn test_parse_or_precedence() {
    let expr = parse("tag:a OR tag:b AND tag:c").unwrap();
    assert_eq!(
        expr,
        Expr::Or(Box::new(tag("a")), Box::new(Expr::And(Box::new(tag("b")), Box::new(tag("c")))))
    );
}

#[test]
fn test_parse_parens_override_precedence() {
    let expr = parse("(tag:a OR tag:b) AND tag:c").unwrap();
    assert_eq!(
        expr,
        Expr::And(Box::new(Expr::Or(Box::new(tag("a")), Box::new(tag("b")))), Box::new(tag("c")),)
    );
}

#[test]
fn test_parse_not() {
    let expr = parse("NOT tag:rust").unwrap();
    assert_eq!(expr, Expr::Not(Box::new(tag("rust"))));
}

#[test]
fn test_parse_complex() {
    let expr = parse("link:website AND (tag:rust OR NOT tag:docs)").unwrap();
    assert_eq!(
        expr,
        Expr::And(
            Box::new(link("website")),
            Box::new(Expr::Or(Box::new(tag("rust")), Box::new(Expr::Not(Box::new(tag("docs")))),))
        )
    );
}

#[test]
fn test_parse_type_filter() {
    let expr = parse("type:note AND tag:rust").unwrap();
    assert_eq!(
        expr,
        Expr::And(
            Box::new(Expr::Filter { kind: "type".into(), value: "note".into() }),
            Box::new(tag("rust")),
        )
    );
}

#[test]
fn test_parse_unclosed_paren_errors() {
    assert!(parse("(tag:rust AND tag:docs").is_err());
}

#[test]
fn test_parse_unexpected_token_errors() {
    assert!(parse("AND tag:rust").is_err());
}

#[test]
fn test_parse_trailing_token_errors() {
    assert!(parse("tag:rust AND").is_err());
}

// ---------------------------------------------------------------------------
// Further cases
// ---------------------------------------------------------------------------

#[test]
fn lex_is_case_insensitive_for_operators_and_filters() {
    let tokens = lex("  Tag:Rust and NOT Type:NOTE ").unwrap();
    assert_eq!(
        tokens,
        vec![
            Token::Filter("tag".into(), "rust".into()),
            Token::And,
            Token::Not,
            Token::Filter("type".into(), "note".into()),
        ]
    );
}

#[test]
fn lex_errors_name_the_word() {
    assert_eq!(lex("foo:bar"), Err(QueryError::UnknownFilter("foo".into())));
    assert_eq!(lex("rust"), Err(QueryError::UnexpectedWord("rust".into())));
}

#[test]
fn parse_errors_are_precise() {
    assert_eq!(parse("(tag:rust AND tag:docs"), Err(QueryError::ExpectedClosingParen));
    assert_eq!(parse("AND tag:rust"), Err(QueryError::UnexpectedToken(Some(Token::And))));
    assert_eq!(parse("tag:rust AND"), Err(QueryError::UnexpectedToken(None)));
    assert_eq!(parse("tag:a tag:b"), Err(QueryError::TrailingToken(Token::Filter("tag".into(), "b".into()))));
}

#[test]
fn filter_patterns_match_frontmatter_lines() {
    assert_eq!(
        filter_pattern("tag", "rust").unwrap(),
        r#"^tags:.*(?:[\s'"]|^)#rust(?:[\s'"]|$)"#
    );
    assert_eq!(filter_pattern("link", "docs").unwrap(), r#"^links:.*(?:[\s'"]|^)docs:"#);
    assert_eq!(filter_pattern("type", "note"), None);
}

fn index() -> SearchIndex {
    let all: Vec<String> = vec![
        "notes/aaa.md".into(),
        "notes/bbb.md".into(),
        "bookmarks/ccc.md".into(),
        "tasks/ddd.md".into(),
    ];
    SearchIndex {
        all_files: all,
        matches: vec![
            SearchMatch {
                pattern: filter_pattern("tag", "rust").unwrap(),
                files: vec!["notes/aaa.md".into(), "bookmarks/ccc.md".into()],
            },
            SearchMatch {
                pattern: filter_pattern("tag", "docs").unwrap(),
                files: vec!["bookmarks/ccc.md".into(), "tasks/ddd.md".into()],
            },
            SearchMatch { pattern: filter_pattern("link", "website").unwrap(), files: vec!["notes/bbb.md".into()] },
        ],
    }
}

fn sorted(mut v: Vec<String>) -> Vec<String> {
    v.sort();
    v
}

#[test]
fn eval_and_or_not() {
    let idx = index();
    let r = find_files("tag:rust AND tag:docs", &idx).unwrap();
    assert_eq!(sorted(r), vec!["bookmarks/ccc.md".to_string()]);
    let r = find_files("tag:rust OR link:website", &idx).unwrap();
    assert_eq!(sorted(r), vec!["bookmarks/ccc.md".to_string(), "notes/aaa.md".into(), "notes/bbb.md".into()]);
    let r = find_files("NOT tag:rust", &idx).unwrap();
    assert_eq!(sorted(r), vec!["notes/bbb.md".to_string(), "tasks/ddd.md".into()]);
    let r = find_files("type:note AND NOT link:website", &idx).unwrap();
    assert_eq!(sorted(r), vec!["notes/aaa.md".to_string()]);
    let r = find_files("id:bb", &idx).unwrap();
    assert_eq!(sorted(r), vec!["notes/bbb.md".to_string()]);
}

#[test]
fn eval_errors() {
    let idx = index();
    assert_eq!(find_files("type:movie", &idx), Err(QueryError::UnknownType("movie".into())));
    let missing = filter_pattern("tag", "zzz").unwrap();
    assert_eq!(find_files("tag:zzz", &idx), Err(QueryError::MissingSearchResult(missing)));
    // an empty left side of AND does not evaluate its right side
    assert_eq!(find_files("type:note AND NOT type:note AND tag:zzz", &idx).unwrap(), Vec::<String>::new());
    // a non-empty left side refuses an id filter on its right
    assert_eq!(find_files("tag:rust AND id:aaa", &idx), Err(QueryError::UnknownFilterKind("id".into())));
    let e = parse("tag:rust").unwrap();
    assert_eq!(eval(&e, &idx).map(sorted), Ok(vec!["bookmarks/ccc.md".to_string(), "notes/aaa.md".into()]));
}

#[test]
fn search_patterns_lists_each_tag_and_link_pattern() {
    let e = parse("tag:rust AND (link:website OR NOT type:task)").unwrap();
    let ps = search_patterns(&e);
    assert!(ps.contains(&filter_pattern("tag", "rust").unwrap()));
    assert!(ps.contains(&filter_pattern("link", "website").unwrap()));
    assert_eq!(ps.len(), 2);
}

#[test]
fn matched_files_name_entities() {
    assert_eq!(target_of_file("notes/abc.md"), Some((EntityKind::Note, "abc".to_string())));
    assert_eq!(target_of_file("tasks/t1.md.md"), Some((EntityKind::Task, "t1".to_string())));
    assert_eq!(target_of_file("bookmarks/b-2"), Some((EntityKind::Bookmark, "b-2".to_string())));
    assert_eq!(target_of_file("other/x.md"), None);
    assert_eq!(target_of_file("README.md"), None);
    assert_eq!(target_of_file("notes/sub/x.md"), Some((EntityKind::Note, "sub/x".to_string())));
}

#[test]
fn matched_ids_by_kind_in_order() {
    let files: Vec<String> = ["bookmarks/b1.md", "notes/n1.md", "notes/n2.md", "tasks/t1.md", "x/y.md"]
        .iter()
        .map(|s| s.to_string())
        .collect();
    assert_eq!(matched_ids(&files, EntityKind::Note), vec!["n1".to_string(), "n2".to_string()]);
    assert_eq!(matched_ids(&files, EntityKind::Bookmark), vec!["b1".to_string()]);
    assert_eq!(matched_ids(&files, EntityKind::Task), vec!["t1".to_string()]);
}
