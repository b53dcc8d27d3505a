use ecosystem_readmes::entry::{entry_from_fields, extract, parse_entry, DocumentFields, ParseError, RegistryEntry};

#[test]
fn github_entry_extracts_its_url() {
    let e = parse_entry(b"title = \"Foo\"\n\n[[repo]]\nurl = \"https://github.com/acme/foo\"\n").unwrap();
    let (name, urls) = extract(&e);
    assert_eq!(name, "Foo");
    assert_eq!(urls, vec!["https://github.com/acme/foo"]);
}

#[test]
fn other_host_extracts_nothing() {
    let e = parse_entry(b"title = \"Bar\"\n\n[[repo]]\nurl = \"https://gitlab.com/acme/bar\"\n").unwrap();
    let (name, urls) = extract(&e);
    assert_eq!(name, "Bar");
    assert!(urls.is_empty());
}

#[test]
fn missing_title_is_an_error() {
    let r = parse_entry(b"[[repo]]\nurl = \"https://github.com/acme/foo\"\n");
    assert_eq!(r.err(), Some(ParseError::MissingField("title".to_string())));
}

#[test]
fn title_of_wrong_type_is_missing() {
    let r = parse_entry(b"title = 7\n");
    assert_eq!(r.err(), Some(ParseError::MissingField("title".to_string())));
}

#[test]
fn malformed_document_is_an_error() {
    let r = parse_entry(b"title = \"Foo\n[[repo\n");
    assert_eq!(r.err(), Some(ParseError::MalformedDocument));
}

#[test]
fn missing_or_wrong_typed_repo_gives_no_records() {
    let e = parse_entry(b"title = \"Foo\"\n").unwrap();
    assert_eq!(e.title, "Foo");
    assert!(e.repo_urls.is_empty());
    let e = parse_entry(b"title = \"Foo\"\nrepo = \"https://github.com/acme/foo\"\n").unwrap();
    assert!(e.repo_urls.is_empty());
}

#[test]
fn records_without_string_url_are_dropped() {
    let e = parse_entry(
        b"title = \"Foo\"\n[[repo]]\nname = \"x\"\n[[repo]]\nurl = 3\n[[repo]]\nurl = \"https://github.com/a/b\"\n",
    )
    .unwrap();
    assert_eq!(e.repo_urls, vec![None, None, Some("https://github.com/a/b".to_string())]);
    let (_, urls) = extract(&e);
    assert_eq!(urls, vec!["https://github.com/a/b"]);
}

#[test]
fn invalid_utf8_is_replaced_not_rejected() {
    let e = parse_entry(b"title = \"F\xffo\"\n").unwrap();
    assert_eq!(e.title, "F\u{FFFD}o");
}

#[test]
fn empty_content_has_no_title() {
    assert_eq!(parse_entry(b"").err(), Some(ParseError::MissingField("title".to_string())));
}

#[test]
fn fields_without_repo_give_empty_records() {
    let f = DocumentFields { title: Some("P".to_string()), repo_urls: None };
    let e = entry_from_fields(f).unwrap();
    assert_eq!(e.title, "P");
    assert!(e.repo_urls.is_empty());
    let f = DocumentFields { title: None, repo_urls: Some(vec![]) };
    assert_eq!(entry_from_fields(f).err(), Some(ParseError::MissingField("title".to_string())));
}

#[test]
fn extraction_keeps_declaration_order() {
    let e = RegistryEntry {
        title: "T".to_string(),
        repo_urls: vec![
            Some("https://github.com/z/last".to_string()),
            Some("https://example.org/github.com/mirror".to_string()),
            Some("https://bitbucket.org/q".to_string()),
        ],
    };
    let (name, urls) = extract(&e);
    assert_eq!(name, "T");
    assert_eq!(urls, vec!["https://github.com/z/last", "https://example.org/github.com/mirror"]);
}
