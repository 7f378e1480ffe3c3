use margo::codec::line_for;
use margo::index_entry::{Dependency, DependencyKind, Root};
use margo::name::CrateName;
use margo::parse::parse_entry;
use margo::store::Index;

fn entry(name: &str, vers: &str) -> Root {
    Root {
        name: CrateName::try_from(name).unwrap(),
        vers: vers.to_string(),
        deps: Vec::new(),
        cksum: "00".to_string(),
        features: Vec::new(),
        yanked: false,
        links: None,
        v: 2,
        features2: Vec::new(),
        rust_version: None,
    }
}

fn rich_entry() -> Root {
    Root {
        name: CrateName::try_from("alpha").unwrap(),
        vers: "1.0.0".to_string(),
        deps: vec![
            Dependency {
                name: "serde".to_string(),
                req: "^1".to_string(),
                features: vec!["derive".to_string()],
                optional: false,
                default_features: true,
                target: None,
                kind: DependencyKind::Normal,
                registry: Some("https://github.com/rust-lang/crates.io-index".to_string()),
                package: None,
            },
            Dependency {
                name: "cc".to_string(),
                req: "1.0".to_string(),
                features: Vec::new(),
                optional: true,
                default_features: false,
                target: Some("cfg(windows)".to_string()),
                kind: DependencyKind::Build,
                registry: None,
                package: Some("cc-orig".to_string()),
            },
        ],
        cksum: "deadbeef".to_string(),
        features: vec![
            ("default".to_string(), vec!["std".to_string()]),
            ("std".to_string(), Vec::new()),
        ],
        yanked: false,
        links: Some("z".to_string()),
        v: 2,
        features2: Vec::new(),
        rust_version: Some("1.70".to_string()),
    }
}

#[test]
fn line_has_expected_shape() {
    let line = line_for(&entry("alpha", "1.0.0"));
    assert_eq!(
        line,
        "{\"name\":\"alpha\",\"vers\":\"1.0.0\",\"deps\":[],\"cksum\":\"00\",\
         \"features\":{},\"yanked\":false,\"v\":2}"
    );
}

#[test]
fn line_round_trips_through_parse() {
    let e = rich_entry();
    let line = line_for(&e);
    let back = parse_entry(line.as_str()).unwrap();
    assert_eq!(line_for(&back), line);
    assert_eq!(back.name.as_str(), "alpha");
    assert_eq!(back.vers, "1.0.0");
    assert_eq!(back.deps.len(), 2);
    assert_eq!(back.deps[0].name, "serde");
    assert_eq!(back.deps[1].target.as_deref(), Some("cfg(windows)"));
    assert_eq!(back.links.as_deref(), Some("z"));
    assert_eq!(back.rust_version.as_deref(), Some("1.70"));
}

#[test]
fn escapes_round_trip() {
    let mut e = entry("alpha", "1.0.0");
    e.features = vec![(
        "weird".to_string(),
        vec!["a\"b".to_string(), "c\\d".to_string(), "e\nf".to_string(), "\u{1}".to_string()],
    )];
    let line = line_for(&e);
    let back = parse_entry(line.as_str()).unwrap();
    assert_eq!(back.features[0].1[0], "a\"b");
    assert_eq!(back.features[0].1[1], "c\\d");
    assert_eq!(back.features[0].1[2], "e\nf");
    assert_eq!(back.features[0].1[3], "\u{1}");
    assert_eq!(line_for(&back), line);
}

#[test]
fn rejects_bad_lines() {
    assert!(parse_entry("").is_none());
    assert!(parse_entry("{}").is_none());
    assert!(parse_entry("{\"name\":\"1bad\",\"vers\":\"1\",\"deps\":[],\"cksum\":\"00\",\"features\":{},\"yanked\":false,\"v\":2}").is_none());
    let good = line_for(&entry("alpha", "1.0.0"));
    let mut trailing = String::from(good.as_str());
    trailing.push('x');
    assert!(parse_entry(trailing.as_str()).is_none());
}

#[test]
fn write_then_parse_yields_sorted_index() {
    let mut idx = Index::new();
    idx.insert(entry("alpha", "2.0.0"));
    idx.insert(entry("alpha", "1.0.0"));
    idx.insert(entry("alpha", "10.0.0"));
    let text = idx.write_index();
    let back = Index::parse_index(text.as_str()).unwrap();
    let vers: Vec<&str> = back.records().iter().map(|e| e.vers.as_str()).collect();
    // lexical, not semantic-version-aware: "10.0.0" sorts before "2.0.0"
    assert_eq!(vers, vec!["1.0.0", "10.0.0", "2.0.0"]);
    assert_eq!(back.write_index(), text);
}

#[test]
fn blank_lines_are_skipped() {
    let mut idx = Index::new();
    idx.insert(entry("alpha", "1.0.0"));
    let mut text = idx.write_index();
    text.push('\n');
    let back = Index::parse_index(text.as_str()).unwrap();
    assert_eq!(back.records().len(), 1);
}

#[test]
fn parse_reports_first_bad_line() {
    let mut idx = Index::new();
    idx.insert(entry("alpha", "1.0.0"));
    let mut text = idx.write_index();
    text.push_str("not json\n");
    let err = Index::parse_index(text.as_str()).unwrap_err();
    assert_eq!(err.line, 1);
}

#[test]
fn insert_is_idempotent() {
    let mut idx = Index::new();
    idx.insert(entry("alpha", "1.0.0"));
    let once = idx.write_index();
    idx.insert(entry("alpha", "1.0.0"));
    assert_eq!(idx.write_index(), once);
    assert_eq!(idx.records().len(), 1);
}

#[test]
fn insert_overwrites_same_version() {
    let mut idx = Index::new();
    idx.insert(entry("alpha", "1.0.0"));
    let mut changed = entry("alpha", "1.0.0");
    changed.cksum = "ff".to_string();
    idx.insert(changed);
    assert_eq!(idx.records().len(), 1);
    assert_eq!(idx.records()[0].cksum, "ff");
}

#[test]
fn yank_and_unyank_invert() {
    let mut idx = Index::new();
    idx.insert(entry("alpha", "1.0.0"));
    let before = idx.write_index();
    idx.set_yanked("1.0.0", true).unwrap();
    assert!(idx.records()[0].yanked);
    // yanking an already-yanked version succeeds as a no-op
    let yanked_text = idx.write_index();
    idx.set_yanked("1.0.0", true).unwrap();
    assert_eq!(idx.write_index(), yanked_text);
    idx.set_yanked("1.0.0", false).unwrap();
    assert_eq!(idx.write_index(), before);
}

#[test]
fn yank_missing_version_fails() {
    let mut idx = Index::new();
    idx.insert(entry("alpha", "1.0.0"));
    assert!(idx.set_yanked("2.0.0", true).is_err());
    assert!(idx.set_yanked("1.0.0", true).is_ok());
}

#[test]
fn remove_deletes_only_that_version() {
    let mut idx = Index::new();
    idx.insert(entry("alpha", "1.0.0"));
    idx.insert(entry("alpha", "1.1.0"));
    idx.remove("1.0.0").unwrap();
    assert_eq!(idx.records().len(), 1);
    assert_eq!(idx.records()[0].vers, "1.1.0");
    assert!(idx.remove("1.0.0").is_err());
    // removing the last record leaves an empty but present file text
    idx.remove("1.1.0").unwrap();
    assert_eq!(idx.write_index(), "");
    assert!(Index::parse_index("").unwrap().records().is_empty());
}
