use margo::config::{ConfigV1, ConfigV1Html};
use margo::name::CrateName;
use margo::registry::{list_all_from, AddError, Global, IndexOpError, Registry};
use margo::store::Index;
use sha2::Digest;

fn config(base_url: &str) -> ConfigV1 {
    ConfigV1 {
        base_url: base_url.to_string(),
        auth_required: false,
        html: ConfigV1Html {
            enabled: false,
            suggested_registry_name: None,
        },
    }
}

fn targz(entries: &[(&str, &[u8])]) -> Vec<u8> {
    let gz = flate2::write::GzEncoder::new(Vec::new(), flate2::Compression::default());
    let mut tar = tar::Builder::new(gz);
    for (path, data) in entries {
        let mut header = tar::Header::new_gnu();
        header.set_size(data.len() as u64);
        header.set_mode(0o644);
        header.set_cksum();
        tar.append_data(&mut header, path, *data).unwrap();
    }
    tar.into_inner().unwrap().finish().unwrap()
}

fn package(name: &str, vers: &str) -> Vec<u8> {
    let manifest = format!(
        "[package]\nname = \"{}\"\nversion = \"{}\"\n",
        name, vers
    );
    let root = format!("{}-{}", name, vers);
    let manifest_path = format!("{}/Cargo.toml", root);
    let lib_path = format!("{}/src/lib.rs", root);
    targz(&[
        (manifest_path.as_str(), manifest.as_bytes()),
        (lib_path.as_str(), b"pub const ID: u8 = 1;"),
    ])
}

#[test]
fn initialize_derives_public_config() {
    let (r, files) = Registry::initialize(config("https://example.com/"));
    assert_eq!(
        files.dl,
        "https://example.com/crates/{lowerprefix}/{crate}/{version}.crate"
    );
    assert_eq!(
        files.config_json,
        "{\"dl\":\"https://example.com/crates/{lowerprefix}/{crate}/{version}.crate\",\
         \"api\":null,\"auth-required\":false}"
    );
    assert_eq!(r.config.base_url, "https://example.com/");
}

#[test]
fn initialize_then_open_round_trips() {
    let (_, files) = Registry::initialize(config("https://example.com/"));
    let reopened = Registry::open(files.config_toml.as_str()).unwrap();
    assert_eq!(reopened.config.base_url, "https://example.com/");
    assert!(!reopened.config.auth_required);
    assert!(!reopened.config.html.enabled);
}

#[test]
fn open_rejects_garbage() {
    assert!(Registry::open("this is not even toml [").is_err());
    assert!(Registry::open("version = \"2\"\nbase_url = \"https://x.example/\"\n").is_err());
    assert!(Registry::open("version = \"1\"\nbase_url = \"not a url\"\n").is_err());
}

#[test]
fn add_computes_checksum_and_paths() {
    let global = Global::new().unwrap();
    let r = Registry::initialize(config("https://example.com/")).0;
    let pkg = package("alpha", "1.0.0");
    let out = r.add(&global, pkg.as_slice(), None).unwrap();
    assert_eq!(out.name.as_str(), "alpha");
    assert_eq!(out.vers, "1.0.0");
    assert_eq!(out.index_path, vec!["al", "ph", "alpha"]);
    assert_eq!(out.crate_path, vec!["crates", "al", "ph", "alpha", "1.0.0.crate"]);
    let expected = hex::encode(sha2::Sha256::digest(pkg.as_slice()));
    let idx = Index::parse_index(out.index_text.as_str()).unwrap();
    assert_eq!(idx.records().len(), 1);
    assert_eq!(idx.records()[0].cksum, expected);
    assert_eq!(idx.records()[0].v, 2);
    assert!(!idx.records()[0].yanked);
}

#[test]
fn adding_duplicate_crate() {
    let global = Global::new().unwrap();
    let r = Registry::initialize(config("http://example.com")).0;
    let pkg = package("duplicated", "1.0.0");
    let first = r.add(&global, pkg.as_slice(), None).unwrap();
    let second = r
        .add(&global, pkg.as_slice(), Some(first.index_text.as_str()))
        .unwrap();
    assert_eq!(1, second.index_text.lines().count());
}

#[test]
fn add_resolves_dependency_registries() {
    let global = Global::new().unwrap();
    let r = Registry::initialize(config("https://example.com/")).0;
    let manifest = "[package]\n\
                    name = \"alpha\"\n\
                    version = \"1.0.0\"\n\
                    \n\
                    [dependencies.plain]\n\
                    version = \"1\"\n\
                    \n\
                    [dependencies.ours]\n\
                    version = \"2\"\n\
                    registry-index = \"https://example.com\"\n\
                    \n\
                    [dependencies.other]\n\
                    version = \"3\"\n\
                    registry-index = \"https://other.example/index\"\n";
    let pkg = targz(&[("alpha-1.0.0/Cargo.toml", manifest.as_bytes())]);
    let out = r.add(&global, pkg.as_slice(), None).unwrap();
    let idx = Index::parse_index(out.index_text.as_str()).unwrap();
    let deps = &idx.records()[0].deps;
    assert_eq!(deps.len(), 3);
    // table keys come out in ascending order: other, ours, plain
    assert_eq!(deps[0].name, "other");
    assert_eq!(
        deps[0].registry.as_deref(),
        Some("https://other.example/index")
    );
    // an explicit source equal to the base URL (after parsing) is "this registry"
    assert_eq!(deps[1].name, "ours");
    assert_eq!(deps[1].registry, None);
    // no explicit source resolves to the public upstream
    assert_eq!(deps[2].name, "plain");
    assert_eq!(
        deps[2].registry.as_deref(),
        Some("https://github.com/rust-lang/crates.io-index")
    );
}

#[test]
fn add_tags_build_and_target_groups() {
    let global = Global::new().unwrap();
    let r = Registry::initialize(config("https://example.com/")).0;
    let manifest = "[package]\n\
                    name = \"alpha\"\n\
                    version = \"1.0.0\"\n\
                    \n\
                    [dependencies.normal1]\n\
                    version = \"1\"\n\
                    \n\
                    [build-dependencies.builder]\n\
                    version = \"1\"\n\
                    \n\
                    [target.\"cfg(windows)\".dependencies.winny]\n\
                    version = \"1\"\n";
    let pkg = targz(&[("alpha-1.0.0/Cargo.toml", manifest.as_bytes())]);
    let out = r.add(&global, pkg.as_slice(), None).unwrap();
    let idx = Index::parse_index(out.index_text.as_str()).unwrap();
    let deps = &idx.records()[0].deps;
    assert_eq!(deps.len(), 3);
    assert_eq!(deps[0].name, "normal1");
    assert!(matches!(
        deps[0].kind,
        margo::index_entry::DependencyKind::Normal
    ));
    assert_eq!(deps[1].name, "builder");
    assert!(matches!(
        deps[1].kind,
        margo::index_entry::DependencyKind::Build
    ));
    assert_eq!(deps[2].name, "winny");
    assert_eq!(deps[2].target.as_deref(), Some("cfg(windows)"));
}

#[test]
fn add_reports_each_failure() {
    let global = Global::new().unwrap();
    let r = Registry::initialize(config("https://example.com/")).0;
    // not a gzip stream at all
    assert!(matches!(
        r.add(&global, b"garbage", None),
        Err(AddError::CargoTomlExtract { .. })
    ));
    // no manifest inside
    let no_manifest = targz(&[("alpha-1.0.0/src/lib.rs", b"".as_slice())]);
    assert!(matches!(
        r.add(&global, no_manifest.as_slice(), None),
        Err(AddError::CargoTomlMissing)
    ));
    // an entry outside the root directory
    let escaping = targz(&[
        ("alpha-1.0.0/src/lib.rs", b"".as_slice()),
        ("elsewhere/Cargo.toml", b"[package]".as_slice()),
    ]);
    assert!(matches!(
        r.add(&global, escaping.as_slice(), None),
        Err(AddError::CargoTomlExtract { .. })
    ));
    // manifest is not UTF-8
    let bad_utf8 = targz(&[("alpha-1.0.0/Cargo.toml", [0xffu8, 0xfe].as_slice())]);
    assert!(matches!(
        r.add(&global, bad_utf8.as_slice(), None),
        Err(AddError::CargoTomlUtf8)
    ));
    // manifest is not valid TOML
    let bad_toml = targz(&[("alpha-1.0.0/Cargo.toml", b"not = = toml".as_slice())]);
    assert!(matches!(
        r.add(&global, bad_toml.as_slice(), None),
        Err(AddError::CargoTomlMalformed)
    ));
    // manifest lacks the package section
    let no_pkg = targz(&[("alpha-1.0.0/Cargo.toml", b"[dependencies]\n".as_slice())]);
    assert!(matches!(
        r.add(&global, no_pkg.as_slice(), None),
        Err(AddError::CargoTomlMalformed)
    ));
    // a broken prior index
    let pkg = package("alpha", "1.0.0");
    assert!(matches!(
        r.add(&global, pkg.as_slice(), Some("junk line")),
        Err(AddError::IndexParse { line: 0 })
    ));
}

#[test]
fn yank_unyank_and_remove_flow() {
    let global = Global::new().unwrap();
    let r = Registry::initialize(config("https://example.com/")).0;
    let name = CrateName::try_from("alpha").unwrap();
    let pkg = package("alpha", "1.0.0");
    let added = r.add(&global, pkg.as_slice(), None).unwrap();

    // yank: the record stays, flagged
    let yanked = r
        .yank(&name, "1.0.0", Some(added.index_text.as_str()))
        .unwrap();
    let idx = Index::parse_index(yanked.index_text.as_str()).unwrap();
    assert!(idx.records()[0].yanked);
    let snapshot = list_all_from(vec![idx]);
    assert!(snapshot.get("alpha").unwrap().records()[0].yanked);

    // unyank restores
    let unyanked = r
        .unyank(&name, "1.0.0", Some(yanked.index_text.as_str()))
        .unwrap();
    assert_eq!(unyanked.index_text, added.index_text);

    // yanking a version that is not there fails
    assert!(matches!(
        r.yank(&name, "9.9.9", Some(added.index_text.as_str())),
        Err(IndexOpError::VersionNotFound)
    ));

    // remove is permanent but the index file text persists (empty)
    let removed = r
        .remove(&name, "1.0.0", Some(added.index_text.as_str()))
        .unwrap();
    assert_eq!(removed.index_text, "");
    assert_eq!(removed.index_path, added.index_path);
    // the archive path from `add` is untouched by remove: nothing in
    // the outcome names it, so the stored archive file stays
    assert_eq!(added.crate_path, vec!["crates", "al", "ph", "alpha", "1.0.0.crate"]);
    let empty = Index::parse_index(removed.index_text.as_str()).unwrap();
    let snapshot = list_all_from(vec![empty]);
    assert!(snapshot.get("alpha").is_none());
    assert!(matches!(
        r.remove(&name, "1.0.0", Some(removed.index_text.as_str())),
        Err(IndexOpError::VersionNotFound)
    ));
}

#[test]
fn list_all_collects_crates() {
    let global = Global::new().unwrap();
    let r = Registry::initialize(config("https://example.com/")).0;
    let a1 = r
        .add(&global, package("alpha", "1.0.0").as_slice(), None)
        .unwrap();
    let a2 = r
        .add(
            &global,
            package("alpha", "1.1.0").as_slice(),
            Some(a1.index_text.as_str()),
        )
        .unwrap();
    let b1 = r
        .add(&global, package("beta", "0.1.0").as_slice(), None)
        .unwrap();
    let files = vec![
        "al/ph/alpha/1.0.0.crate".to_string(),
        "al/ph/alpha/1.1.0.crate".to_string(),
        "be/ta/beta/0.1.0.crate".to_string(),
        "be/ta/beta/stray.txt".to_string(),
    ];
    let index_files = r.list_index_files(&files);
    assert_eq!(index_files, vec!["al/ph/alpha", "be/ta/beta"]);
    let alpha_idx = Index::parse_index(a2.index_text.as_str()).unwrap();
    let beta_idx = Index::parse_index(b1.index_text.as_str()).unwrap();
    let snapshot = list_all_from(vec![alpha_idx, beta_idx]);
    assert_eq!(snapshot.len(), 2);
    assert_eq!(snapshot.key_at(0).as_str(), "alpha");
    assert_eq!(snapshot.key_at(1).as_str(), "beta");
    let alpha = snapshot.get("alpha").unwrap();
    assert_eq!(alpha.records().len(), 2);
    assert_eq!(alpha.records()[0].vers, "1.0.0");
    assert_eq!(alpha.records()[1].vers, "1.1.0");
}

#[test]
fn checksum_matches_reference_implementation() {
    assert_eq!(
        margo::checksum::checksum_hex(b""),
        "e3b0c44298fc1c149afbf4c8996fb92427ae41e4649b934ca495991b7852b855"
    );
    let data = b"some archive bytes";
    assert_eq!(
        margo::checksum::checksum_hex(data),
        hex::encode(sha2::Sha256::digest(data.as_slice()))
    );
}

#[test]
fn url_normalization_matches_parser() {
    assert_eq!(
        margo::urls::normalize_url("https://example.com").as_deref(),
        Some("https://example.com/")
    );
    assert_eq!(
        margo::urls::normalize_url("https://example.com/x/").as_deref(),
        Some("https://example.com/x/")
    );
    assert!(margo::urls::normalize_url("not a url").is_none());
}

#[test]
fn config_files_render_exactly() {
    let c = ConfigV1 {
        base_url: "https://example.com/".to_string(),
        auth_required: true,
        html: ConfigV1Html {
            enabled: true,
            suggested_registry_name: Some("my-awesome-registry".to_string()),
        },
    };
    let toml_text = margo::config::write_config_toml(&c);
    assert_eq!(
        toml_text,
        "version = \"1\"\nbase_url = \"https://example.com/\"\nauth_required = true\n\n\
         [html]\nenabled = true\nsuggested_registry_name = \"my-awesome-registry\"\n"
    );
    let back = Registry::open(toml_text.as_str()).unwrap();
    assert!(back.config.auth_required);
    assert!(back.config.html.enabled);
    assert_eq!(
        back.config.html.suggested_registry_name(),
        "my-awesome-registry"
    );
    let fallback = ConfigV1Html {
        enabled: true,
        suggested_registry_name: None,
    };
    assert_eq!(fallback.suggested_registry_name(), "my-awesome-registry");
}
