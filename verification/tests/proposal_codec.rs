use auto_commit::codec::encode_proposal_json;
use auto_commit::codec::parse_proposal_json;
use auto_commit::proposal::CommitProposal;

#[test]
fn commit_to_string_formats_title_and_description() {
    let commit = CommitProposal::new(
        "Fix bug".to_string(),
        "Detailed description".to_string(),
    );
    assert_eq!(commit.to_string(), "Fix bug\n\nDetailed description");
}

#[test]
fn render_with_empty_description_keeps_blank_line() {
    let commit = CommitProposal::new("Add feature".to_string(), String::new());
    assert_eq!(commit.to_string(), "Add feature\n\n");
}

#[test]
fn encode_emits_canonical_object() {
    let p = CommitProposal::new("Add foo".to_string(), "Implements foo.".to_string());
    assert_eq!(
        encode_proposal_json(&p),
        "{\"title\":\"Add foo\",\"description\":\"Implements foo.\"}"
    );
}

#[test]
fn encode_escapes_specials_and_controls() {
    let p = CommitProposal::new(
        "say \"hi\"".to_string(),
        "line1\nline2\ttab\\slash\u{0001}end".to_string(),
    );
    assert_eq!(
        encode_proposal_json(&p),
        "{\"title\":\"say \\\"hi\\\"\",\"description\":\"line1\\nline2\\ttab\\\\slash\\u0001end\"}"
    );
}

#[test]
fn parse_accepts_plain_object() {
    let p = parse_proposal_json("{\"title\":\"Add foo\",\"description\":\"Implements foo.\"}")
        .unwrap();
    assert_eq!(p.title, "Add foo");
    assert_eq!(p.description, "Implements foo.");
}

#[test]
fn parse_accepts_whitespace_and_reordered_members() {
    let p = parse_proposal_json(
        " {\n  \"description\" : \"d text\" ,\t\"title\" : \"t text\"\n} ",
    )
    .unwrap();
    assert_eq!(p.title, "t text");
    assert_eq!(p.description, "d text");
}

#[test]
fn parse_decodes_escapes_and_unicode() {
    let p = parse_proposal_json(
        "{\"title\":\"\\u0041dd \\\"x\\\"\",\"description\":\"tab\\t pair \\ud83d\\ude00\"}",
    )
    .unwrap();
    assert_eq!(p.title, "Add \"x\"");
    assert_eq!(p.description, "tab\t pair \u{1F600}");
}

#[test]
fn parse_rejects_invalid_json() {
    assert!(parse_proposal_json("not json at all").is_none());
    assert!(parse_proposal_json("").is_none());
    assert!(parse_proposal_json("{\"title\":\"x\",\"description\":\"y\"").is_none());
}

#[test]
fn parse_rejects_missing_description() {
    assert!(parse_proposal_json("{\"title\":\"x\"}").is_none());
}

#[test]
fn parse_rejects_extra_member() {
    assert!(
        parse_proposal_json("{\"title\":\"x\",\"description\":\"y\",\"extra\":\"z\"}").is_none()
    );
}

#[test]
fn parse_rejects_empty_title() {
    assert!(parse_proposal_json("{\"title\":\"\",\"description\":\"y\"}").is_none());
}

#[test]
fn parse_rejects_lone_surrogate_and_bad_escape() {
    assert!(parse_proposal_json("{\"title\":\"\\ud800\",\"description\":\"y\"}").is_none());
    assert!(parse_proposal_json("{\"title\":\"\\q\",\"description\":\"y\"}").is_none());
}

#[test]
fn encoded_proposal_is_read_back_by_serde_json() {
    let p = CommitProposal::new(
        "Fix ⚙ \"gear\"".to_string(),
        "line1\nline2\twith \\ and \u{0007}bell".to_string(),
    );
    let encoded = encode_proposal_json(&p);
    let v: serde_json::Value = serde_json::from_str(&encoded).unwrap();
    assert_eq!(v.get("title").unwrap().as_str().unwrap(), p.title);
    assert_eq!(v.get("description").unwrap().as_str().unwrap(), p.description);
    assert_eq!(v.as_object().unwrap().len(), 2);
}

#[test]
fn serde_json_output_is_accepted_by_the_parser() {
    let mut m = serde_json::Map::new();
    m.insert(
        "title".to_string(),
        serde_json::Value::String("Fix ⚙ \"gear\"".to_string()),
    );
    m.insert(
        "description".to_string(),
        serde_json::Value::String("line1\nline2\twith \\ and \u{0007}bell".to_string()),
    );
    let text = serde_json::Value::Object(m).to_string();
    let p = parse_proposal_json(&text).unwrap();
    assert_eq!(p.title, "Fix ⚙ \"gear\"");
    assert_eq!(p.description, "line1\nline2\twith \\ and \u{0007}bell");
}

#[test]
fn proposal_roundtrips_through_schema() {
    let cases = [
        ("Fix bug", "Detailed description"),
        ("t", ""),
        ("say \"hi\"\\now", "multi\nline\twith 控制\u{0002}chars"),
        ("日本語のタイトル", "絵文字 \u{1F600} もとどおり"),
    ];
    for (t, d) in cases {
        let p = CommitProposal::new(t.to_string(), d.to_string());
        let back = parse_proposal_json(&encode_proposal_json(&p)).unwrap();
        assert_eq!(back.title, t);
        assert_eq!(back.description, d);
    }
}
