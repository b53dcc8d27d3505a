use ecosystem_readmes::changes::{change_set, FileDelta, PathFilter};
use ecosystem_readmes::entry::ParseError;
use ecosystem_readmes::index::ProjectIndex;
use ecosystem_readmes::pipeline::{build, index_files};
use ecosystem_readmes::session::{first_step, is_yes, next_step, Step};

fn file(path: &str, content: &str) -> (String, Vec<u8>) {
    (path.to_string(), content.as_bytes().to_vec())
}

fn pairs(idx: &ProjectIndex) -> Vec<(String, Vec<String>)> {
    idx.entries().clone()
}

#[test]
fn full_pipeline_for_github_entry() {
    let out = index_files(&vec![file(
        "data/ecosystems/f/foo.toml",
        "title = \"Foo\"\n[[repo]]\nurl = \"https://github.com/acme/foo\"\n",
    )]);
    assert_eq!(
        pairs(&out.index),
        vec![(
            "Foo".to_string(),
            vec![
                "https://raw.githubusercontent.com/acme/foo/main/README.md".to_string(),
                "https://raw.githubusercontent.com/acme/foo/master/README.md".to_string(),
            ]
        )]
    );
    assert!(out.skipped.is_empty());
}

#[test]
fn non_github_entry_is_omitted() {
    let out = index_files(&vec![file(
        "data/ecosystems/b/bar.toml",
        "title = \"Bar\"\n[[repo]]\nurl = \"https://gitlab.com/acme/bar\"\n",
    )]);
    assert_eq!(out.index.len(), 0);
    assert!(out.skipped.is_empty());
}

#[test]
fn missing_title_is_skipped_and_run_continues() {
    let out = index_files(&vec![
        file("data/ecosystems/x/x.toml", "[[repo]]\nurl = \"https://github.com/x/x\"\n"),
        file("data/ecosystems/y/y.toml", "title = \"Y\"\n[[repo]]\nurl = \"https://github.com/y/y\"\n"),
    ]);
    assert_eq!(out.skipped, vec![("data/ecosystems/x/x.toml".to_string(), ParseError::MissingField("title".to_string()))]);
    assert_eq!(out.index.len(), 1);
    assert_eq!(out.index.entries()[0].0, "Y");
}

#[test]
fn same_title_in_two_files_is_concatenated() {
    let out = index_files(&vec![
        file("data/ecosystems/a.toml", "title = \"Foo\"\n[[repo]]\nurl = \"https://github.com/a/one\"\n"),
        file("data/ecosystems/b.toml", "title = \"Other\"\n[[repo]]\nurl = \"https://github.com/o/o\"\n"),
        file(
            "data/ecosystems/c.toml",
            "title = \"Foo\"\n[[repo]]\nurl = \"https://github.com/b/two\"\n[[repo]]\nurl = \"https://github.com/a/one\"\n",
        ),
    ]);
    let p = pairs(&out.index);
    assert_eq!(p.len(), 2);
    assert_eq!(p[0].0, "Foo");
    assert_eq!(p[1].0, "Other");
    assert_eq!(
        p[0].1,
        vec![
            "https://raw.githubusercontent.com/a/one/main/README.md",
            "https://raw.githubusercontent.com/a/one/master/README.md",
            "https://raw.githubusercontent.com/b/two/main/README.md",
            "https://raw.githubusercontent.com/b/two/master/README.md",
            "https://raw.githubusercontent.com/a/one/main/README.md",
            "https://raw.githubusercontent.com/a/one/master/README.md",
        ]
    );
    let cands = out.index.candidates_for(&"Foo".to_string()).unwrap();
    assert_eq!(cands.len(), 6);
    assert!(out.index.candidates_for(&"Missing".to_string()).is_none());
}

#[test]
fn malformed_file_is_reported() {
    let out = index_files(&vec![file("data/ecosystems/m.toml", "title = = 1")]);
    assert_eq!(out.skipped, vec![("data/ecosystems/m.toml".to_string(), ParseError::MalformedDocument)]);
    assert_eq!(out.index.len(), 0);
}

#[test]
fn pipeline_twice_gives_same_index() {
    let files = vec![
        file("data/ecosystems/a.toml", "title = \"A\"\n[[repo]]\nurl = \"https://github.com/a/a\"\n"),
        file("data/ecosystems/b.toml", "title = \"B\"\n"),
    ];
    assert_eq!(pairs(&index_files(&files).index), pairs(&index_files(&files).index));
}

#[test]
fn build_on_no_entries_is_empty() {
    assert_eq!(build(&vec![]).len(), 0);
}

#[test]
fn index_add_appends_and_ignores_empty() {
    let mut idx = ProjectIndex::new();
    idx.add("P".to_string(), vec!["u1".to_string()]);
    idx.add("Q".to_string(), vec![]);
    idx.add("P".to_string(), vec!["u1".to_string(), "u2".to_string()]);
    assert_eq!(
        pairs(&idx),
        vec![("P".to_string(), vec!["u1".to_string(), "u1".to_string(), "u2".to_string()])]
    );
}

fn delta(path: &str, old: Option<&str>, new: Option<&str>) -> FileDelta {
    FileDelta { path: path.to_string(), old_blob: old.map(String::from), new_blob: new.map(String::from) }
}

#[test]
fn change_set_filters_by_extension_and_root() {
    let f = PathFilter::registry();
    let ds = vec![
        delta("data/ecosystems/a/a.toml", Some("1"), Some("2")),
        delta("data/ecosystems/b/b.toml", None, Some("3")),
        delta("data/ecosystems/c/c.toml", Some("4"), None),
        delta("data/ecosystems/d/d.toml", Some("5"), Some("5")),
        delta("data/ecosystems/e/e.json", None, Some("6")),
        delta("data/ecosystemsX/f.toml", None, Some("7")),
        delta("data/ecosystems.toml", None, Some("8")),
        delta("other/ecosystems/g.toml", None, Some("9")),
        delta("data/ecosystems/noext", None, Some("10")),
        delta("data/ecosystems/.toml", None, Some("11")),
        delta("data/ecosystems/h.tomlx", None, Some("12")),
    ];
    assert_eq!(change_set(&ds, &f), vec!["data/ecosystems/a/a.toml", "data/ecosystems/b/b.toml"]);
}

#[test]
fn change_set_of_identical_snapshots_is_empty() {
    let f = PathFilter::registry();
    let ds = vec![delta("data/ecosystems/a.toml", Some("1"), Some("1"))];
    assert!(change_set(&ds, &f).is_empty());
    assert!(change_set(&vec![], &f).is_empty());
}

#[test]
fn filter_accepts_registry_paths_only() {
    let f = PathFilter::registry();
    assert!(f.accepts("data/ecosystems/x/y.toml"));
    assert!(!f.accepts("data/ecosystems/x/y.yaml"));
    assert!(!f.accepts("data/y.toml"));
}

#[test]
fn session_steps_follow_answers() {
    assert_eq!(first_step(0), Step::Exhausted);
    assert_eq!(first_step(2), Step::Fetch(0));
    assert_eq!(next_step(0, 2, false, false), Step::Fetch(1));
    assert_eq!(next_step(0, 2, true, true), Step::Fetch(1));
    assert_eq!(next_step(0, 2, true, false), Step::Declined);
    assert_eq!(next_step(1, 2, true, true), Step::Exhausted);
    assert_eq!(next_step(1, 2, false, false), Step::Exhausted);
}

#[test]
fn only_exact_yes_goes_on() {
    assert!(is_yes("yes"));
    assert!(!is_yes("y"));
    assert!(!is_yes("yes please"));
    assert!(!is_yes(""));
}

#[test]
fn persisted_index_round_trips() {
    let out = index_files(&vec![
        file("data/ecosystems/a.toml", "title = \"Zed\"\n[[repo]]\nurl = \"https://github.com/z/z\"\n[[repo]]\nurl = \"https://github.com/z/z\"\n"),
        file("data/ecosystems/b.toml", "title = \"Alpha\"\n[[repo]]\nurl = \"https://github.com/a/a\"\n"),
    ]);
    let mut map = serde_json::Map::new();
    for (name, candidates) in out.index.entries() {
        let list = candidates.iter().cloned().map(serde_json::Value::String).collect();
        map.insert(name.clone(), serde_json::Value::Array(list));
    }
    let text = serde_json::to_string(&map).unwrap();
    let back: serde_json::Map<String, serde_json::Value> = serde_json::from_str(&text).unwrap();
    let mut decoded = ProjectIndex::new();
    for (name, value) in back {
        let list = value.as_array().unwrap().iter().map(|v| v.as_str().unwrap().to_string()).collect();
        decoded.add(name, list);
    }
    assert_eq!(pairs(&decoded), pairs(&out.index));
    assert_eq!(pairs(&decoded)[0].0, "Zed");
    assert_eq!(pairs(&decoded)[0].1.len(), 4);
}
