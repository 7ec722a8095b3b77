use odm::progen::{
    check_unique_ids, escape_fts_query, file_stem, format_context_human, format_find_human,
    format_get_human, format_ls_human, is_fts_syntax_error, md_lookup_name, note_id_title, parse_markdown,
    parse_wikilinks, path_id, search_plan, split_frontmatter, ContextHit, FindHit, GetResult,
    LsHit, NoteRef, SearchPlan,
};

#[test]
fn escape_fts_quotes_operators() {
    assert_eq!(escape_fts_query("AND").as_deref(), Some("\"AND\""));
    assert_eq!(escape_fts_query("foo OR bar").as_deref(), Some("\"foo\" \"OR\" \"bar\""));
    assert_eq!(escape_fts_query(r#"say "hi""#).as_deref(), Some(r#""say" """hi""""#));
    assert_eq!(escape_fts_query("   ").as_deref(), None);
}

#[test]
fn escape_fts_drops_nul_only_tokens() {
    assert_eq!(escape_fts_query("\0 a\0b").as_deref(), Some("\"ab\""));
    assert_eq!(escape_fts_query("\0\0").as_deref(), None);
}

#[test]
fn frontmatter_id_and_wikilinks() {
    let text = "---\nid: n1\ntitle: Hello\n---\nSee [[Other Note]] and [[foo|bar]].\n";
    let n = parse_markdown("a/b.md", "/x/a/b.md", text);
    assert_eq!(n.id.as_str(), "n1");
    assert_eq!(n.title.as_deref(), Some("Hello"));
    assert_eq!(n.wikilinks, vec!["Other Note", "foo"]);
}

#[test]
fn path_id_fallback() {
    let n = parse_markdown("notes/hi.md", "/v/notes/hi.md", "hi\n");
    assert_eq!(n.id.as_str(), "notes/hi");
}

#[test]
fn title_from_heading_then_stem() {
    let n = parse_markdown("notes/hi.md", "/v/notes/hi.md", "intro\n  #  Big Title  \nmore\n");
    assert_eq!(n.title.as_deref(), Some("Big Title"));
    let n = parse_markdown("notes/hi.md", "/v/notes/hi.md", "no heading\n#nospace\n");
    assert_eq!(n.title.as_deref(), Some("hi"));
}

#[test]
fn frontmatter_title_empty_falls_back() {
    let n = parse_markdown("x.md", "/v/x.md", "---\ntitle: \"\"\nid: \"\"\n---\n# Real\n");
    assert_eq!(n.title.as_deref(), Some("Real"));
    assert_eq!(n.id.as_str(), "x");
}

#[test]
fn split_frontmatter_shapes() {
    let (fm, body) = split_frontmatter("---\na: 1\n---\nbody\n");
    assert_eq!(fm.as_deref(), Some("a: 1"));
    assert_eq!(body, "body\n");
    let (fm, body) = split_frontmatter("---\nno close\n");
    assert!(fm.is_none());
    assert_eq!(body, "---\nno close\n");
    let (fm, body) = split_frontmatter("plain");
    assert!(fm.is_none());
    assert_eq!(body, "plain");
}

#[test]
fn wikilinks_trim_and_dedup() {
    assert_eq!(parse_wikilinks("[[ a ]] [[a]] [[b#h]] [[   ]] [[c|x]]"), vec!["a", "b", "c"]);
}

#[test]
fn path_id_strips_md_and_backslashes() {
    assert_eq!(path_id("a\\b.md"), "a/b");
    assert_eq!(path_id("readme.txt"), "readme.txt");
}

#[test]
fn file_stem_rules() {
    assert_eq!(file_stem("notes/hi.md").as_deref(), Some("hi"));
    assert_eq!(file_stem("notes/.hidden").as_deref(), Some(".hidden"));
    assert_eq!(file_stem("a/b.c.d").as_deref(), Some("b.c"));
    assert_eq!(file_stem("a/..").as_deref(), None);
    assert_eq!(file_stem("").as_deref(), None);
}

#[test]
fn duplicate_ids_name_both_paths() {
    let notes = vec![
        ("a".to_string(), "x.md".to_string()),
        ("b".to_string(), "y.md".to_string()),
        ("a".to_string(), "z.md".to_string()),
    ];
    let err = check_unique_ids(&notes).unwrap_err();
    assert_eq!(err.message(), "duplicate note id 'a': x.md and z.md");
    assert!(check_unique_ids(&notes[..2].to_vec()).is_ok());
}

#[test]
fn md_lookup_and_syntax_errors() {
    assert_eq!(md_lookup_name("n1"), "n1.md");
    assert_eq!(md_lookup_name("n1.md"), "n1.md");
    assert!(is_fts_syntax_error("fts5: syntax error near \"(\""));
    assert!(is_fts_syntax_error("x fts5: parse error"));
    assert!(!is_fts_syntax_error("no such table"));
}

#[test]
fn search_plans() {
    assert!(matches!(search_plan("  "), SearchPlan::All));
    assert!(matches!(search_plan("\0"), SearchPlan::Nothing));
    match search_plan("a b") {
        SearchPlan::Match(q) => assert_eq!(q, "\"a\" \"b\""),
        _ => panic!("expected a match plan"),
    }
}

#[test]
fn progen_formatters() {
    assert_eq!(format_find_human(&vec![]), "(no matches)\n");
    let hits = vec![FindHit { progen: "p".into(), id: "i".into(), path: "a.md".into(), title: "T".into() }];
    assert_eq!(format_find_human(&hits), "p\ti\ta.md\tT\n");
    assert_eq!(format_ls_human(&vec![]), "(no notes)\n");
    let ls = vec![LsHit { id: "i".into(), path: "a.md".into(), title: "T".into() }];
    assert_eq!(format_ls_human(&ls), "i\ta.md\tT\n");
    let g = GetResult { progen: "p".into(), id: "i".into(), path: "a.md".into(), title: "T".into(), body: "B".into() };
    assert_eq!(format_get_human(&g), "---\nprogen: p\nid: i\npath: a.md\ntitle: T\n---\nB");
    let c = ContextHit {
        anchor: g,
        outgoing: vec![NoteRef { id: "o".into(), title: "O".into() }],
        incoming: vec![],
    };
    assert_eq!(
        format_context_human(&c),
        "# context i\n\n---\nprogen: p\nid: i\npath: a.md\ntitle: T\n---\nB\n\n## outgoing\n- o (O)\n\n## incoming\n(none)\n"
    );
}

#[test]
fn note_id_title_prefers_nonempty_frontmatter() {
    assert_eq!(
        note_id_title("notes/a.md", "# Head\nx\n", Some("custom".into()), Some("T".into())),
        ("custom".to_string(), Some("T".to_string()))
    );
    assert_eq!(
        note_id_title("notes/a.md", "# Head\nx\n", Some(String::new()), Some(String::new())),
        ("notes/a".to_string(), Some("Head".to_string()))
    );
    assert_eq!(note_id_title("notes/a.md", "plain\n", None, None), ("notes/a".to_string(), Some("a".to_string())));
}
