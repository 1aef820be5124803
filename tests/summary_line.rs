use changelog_summary::{parse_summary, parse_tags, Parser, ParserError};

fn tags_of(text: &str) -> Vec<String> {
    parse_tags(text).0
}

#[test]
fn every_keyword_in_brackets() {
    for c in ["Added", "Changed", "Fixed", "Improved", "Removed"] {
        let line = format!("[{}]text", c);
        let e = parse_summary(&line).unwrap();
        assert_eq!(e.category(), c);
        assert_eq!(e.prefix(), "");
        assert!(e.tags().is_empty());
        assert_eq!(e.text(), "text");
        let out = Parser.parse_commit_message(&line).unwrap();
        assert_eq!(out, format!("- [{}]text (Prefix: '', Tags: [])", c));
    }
}

#[test]
fn prefix_category_and_tags() {
    let e = parse_summary("AB-123 [Fixed]resolved bug :ui,crash:").unwrap();
    assert_eq!(e.prefix(), "AB-123");
    assert_eq!(e.category(), "Fixed");
    assert_eq!(e.tags(), &vec!["ui".to_string(), "crash".to_string()]);
    assert_eq!(e.text(), "resolved bug");
    let out = Parser
        .parse_commit_message("AB-123 [Fixed]resolved bug :ui,crash:")
        .unwrap();
    assert_eq!(
        out,
        "- [Fixed]resolved bug (Prefix: 'AB-123', Tags: [\"ui\", \"crash\"])"
    );
}

#[test]
fn unknown_category_is_refused_with_the_line() {
    match Parser.parse_commit_message("Unknown category text") {
        Err(ParserError::SummaryParsing(line)) => assert_eq!(line, "Unknown category text"),
        other => panic!("unexpected result {:?}", other),
    }
}

#[test]
fn empty_message_is_too_short() {
    assert!(matches!(
        Parser.parse_commit_message(""),
        Err(ParserError::CommitMessageLength)
    ));
}

#[test]
fn extraction_again_finds_nothing() {
    for text in ["resolved bug :ui,crash:", "a :x: b :y,z: c", "no markers here", " ::"] {
        let (_, cleaned) = parse_tags(text);
        let (tags, again) = parse_tags(&cleaned);
        assert!(tags.is_empty());
        assert_eq!(again, cleaned);
    }
}

#[test]
fn extraction_can_bring_a_new_marker_together() {
    let (tags, cleaned) = parse_tags("  :a::x:");
    assert_eq!(tags, vec!["a".to_string()]);
    assert_eq!(cleaned, " :x:");
    assert_eq!(tags_of(&cleaned), vec!["x".to_string()]);
}

#[test]
fn one_marker_gives_the_trimmed_pieces() {
    for p in ["ui", "ui,crash", " a , b ,c ", "", ",", "x,,y", " \t"] {
        let text = format!(" :{}:", p);
        let (tags, cleaned) = parse_tags(&text);
        let expected: Vec<String> = p.split(',').map(|x| x.trim().to_string()).collect();
        assert_eq!(tags, expected);
        assert_eq!(cleaned, "");
    }
}

#[test]
fn rendering_keeps_the_fields() {
    let e = parse_summary("XY-9 Added thing :t1, t2:").unwrap();
    let out = e.render();
    assert_eq!(out, e.render());
    assert_eq!(&out[3..3 + e.category().len()], e.category());
    assert!(out.contains(&format!("(Prefix: '{}'", e.prefix())));
    assert!(out.ends_with("Tags: [\"t1\", \"t2\"])"));
    assert_eq!(out, "- [Added] thing (Prefix: 'XY-9', Tags: [\"t1\", \"t2\"])");
}

#[test]
fn empty_marker_gives_one_empty_tag() {
    let (tags, cleaned) = parse_tags("abc ::");
    assert_eq!(tags, vec![String::new()]);
    assert_eq!(cleaned, "abc");
}

#[test]
fn text_without_markers_is_unchanged() {
    let (tags, cleaned) = parse_tags("plain: text, no marker");
    assert!(tags.is_empty());
    assert_eq!(cleaned, "plain: text, no marker");
}

#[test]
fn markers_are_taken_in_order() {
    let (tags, cleaned) = parse_tags("a :x, y: b :z: c");
    assert_eq!(tags, vec!["x".to_string(), "y".to_string(), "z".to_string()]);
    assert_eq!(cleaned, "a b c");
}

#[test]
fn marker_closes_at_the_first_colon() {
    let (tags, cleaned) = parse_tags("t :a:b:");
    assert_eq!(tags, vec!["a".to_string()]);
    assert_eq!(cleaned, "tb:");
}

#[test]
fn unicode_white_space_is_trimmed() {
    let (tags, _) = parse_tags("t :\u{3000}k\u{a0}, \u{2003}v:");
    assert_eq!(tags, vec!["k".to_string(), "v".to_string()]);
}

#[test]
fn tags_are_quoted_and_escaped() {
    let out = Parser
        .parse_commit_message("Fixed x :a\"b,c\\d:")
        .unwrap();
    assert_eq!(out, "- [Fixed] x (Prefix: '', Tags: [\"a\\\"b\", \"c\\\\d\"])");
}

#[test]
fn only_the_first_line_is_read() {
    let out = Parser
        .parse_commit_message("Changed api\r\n\nbody [Removed] text\n")
        .unwrap();
    assert_eq!(out, "- [Changed] api (Prefix: '', Tags: [])");
    match Parser.parse_commit_message("\nFixed later") {
        Err(ParserError::SummaryParsing(line)) => assert_eq!(line, ""),
        other => panic!("unexpected result {:?}", other),
    }
}

#[test]
fn keyword_without_brackets_or_separator() {
    let e = parse_summary("Improvedspeed").unwrap();
    assert_eq!(e.category(), "Improved");
    assert_eq!(e.text(), "speed");
    let e = parse_summary("AB-1\t\t[Removed old").unwrap();
    assert_eq!(e.prefix(), "AB-1");
    assert_eq!(e.category(), "Removed");
    assert_eq!(e.text(), " old");
    let e = parse_summary("Fixed").unwrap();
    assert_eq!(e.text(), "");
}

#[test]
fn incomplete_prefix_is_no_prefix() {
    assert!(parse_summary("AB- Fixed x").is_none());
    assert!(parse_summary("AB Fixed x").is_none());
    assert!(parse_summary("fixed x").is_none());
    assert!(parse_summary("Add x").is_none());
    assert!(parse_summary("  Added x").is_some());
}

#[test]
fn error_messages() {
    assert_eq!(
        ParserError::SummaryParsing("bad".to_string()).message(),
        "Could not parse commit message summary: bad"
    );
    assert_eq!(
        ParserError::CommitMessageLength.message(),
        "Commit message length too small."
    );
}
