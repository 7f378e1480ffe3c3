//! The package manifest, as the registry reads it.
//!
//! Only the normalized manifest that a packaging tool writes into an
//! archive is understood here: dependencies are tables with a
//! `version` entry, groups are `dependencies`, `build-dependencies`
//! and per-target tables, and unknown keys are ignored.  The TOML text
//! itself is decoded by `toml_tree`; everything in this module is
//! verified against the resulting value tree.

use vstd::prelude::*;
use crate::name::{valid_crate_name, CrateName};
use crate::toml_tree::TomlValue;
use crate::urls::{normalize_url, url_normal_of};
use crate::strs::str_eq;

verus! {

/// The `[package]` section: name, version, and the optional `links`
/// and minimum-toolchain declarations.
#[derive(Debug)]
pub struct Package {
    pub name: CrateName,
    pub version: String,
    pub links: Option<String>,
    pub rust_version: Option<String>,
}

/// The mathematical value of a `Package`.
#[verifier::ext_equal]
pub struct PackageV {
    pub name: Seq<char>,
    pub version: Seq<char>,
    pub links: Option<Seq<char>>,
    pub rust_version: Option<Seq<char>>,
}

impl View for Package {
    type V = PackageV;

    open spec fn view(&self) -> PackageV {
        PackageV {
            name: self.name@,
            version: self.version@,
            links: crate::index_entry::opt_view(self.links),
            rust_version: crate::index_entry::opt_view(self.rust_version),
        }
    }
}

/// One declared dependency, as the manifest writes it.  An explicit
/// source registry is kept as the normalized URL text.
#[derive(Debug)]
pub struct Dependency {
    pub version: String,
    pub features: Vec<String>,
    pub optional: bool,
    pub default_features: bool,
    pub registry_index: Option<String>,
    pub package: Option<String>,
}

/// The mathematical value of a manifest `Dependency`.
#[verifier::ext_equal]
pub struct ManifestDepV {
    pub version: Seq<char>,
    pub features: Seq<Seq<char>>,
    pub optional: bool,
    pub default_features: bool,
    pub registry_index: Option<Seq<char>>,
    pub package: Option<Seq<char>>,
}

impl View for Dependency {
    type V = ManifestDepV;

    open spec fn view(&self) -> ManifestDepV {
        ManifestDepV {
            version: self.version@,
            features: self.features.deep_view(),
            optional: self.optional,
            default_features: self.default_features,
            registry_index: crate::index_entry::opt_view(self.registry_index),
            package: crate::index_entry::opt_view(self.package),
        }
    }
}

/// One per-target group: its dependencies.
#[derive(Debug)]
pub struct Target {
    pub dependencies: Vec<(String, Dependency)>,
}

/// The view of a name-to-dependency list.
pub open spec fn dmap_view(m: Seq<(String, Dependency)>) -> Seq<(Seq<char>, ManifestDepV)> {
    Seq::new(m.len(), |i: int| (m[i].0@, m[i].1@))
}

/// The mathematical value of a `Target`.
#[verifier::ext_equal]
pub struct TargetV {
    pub dependencies: Seq<(Seq<char>, ManifestDepV)>,
}

impl View for Target {
    type V = TargetV;

    open spec fn view(&self) -> TargetV {
        TargetV { dependencies: dmap_view(self.dependencies@) }
    }
}

/// The whole manifest, as far as the registry reads it.
#[derive(Debug)]
pub struct Root {
    pub package: Package,
    pub features: Vec<(String, Vec<String>)>,
    pub dependencies: Vec<(String, Dependency)>,
    pub build_dependencies: Vec<(String, Dependency)>,
    pub target: Vec<(String, Target)>,
}

/// The view of a name-to-target list.
pub open spec fn tmap_view(m: Seq<(String, Target)>) -> Seq<(Seq<char>, TargetV)> {
    Seq::new(m.len(), |i: int| (m[i].0@, m[i].1@))
}

/// The mathematical value of a manifest `Root`.
#[verifier::ext_equal]
pub struct ManifestV {
    pub package: PackageV,
    pub features: Seq<(Seq<char>, Seq<Seq<char>>)>,
    pub dependencies: Seq<(Seq<char>, ManifestDepV)>,
    pub build_dependencies: Seq<(Seq<char>, ManifestDepV)>,
    pub target: Seq<(Seq<char>, TargetV)>,
}

impl View for Root {
    type V = ManifestV;

    open spec fn view(&self) -> ManifestV {
        ManifestV {
            package: self.package@,
            features: crate::index_entry::fmap_view(self.features@),
            dependencies: dmap_view(self.dependencies@),
            build_dependencies: dmap_view(self.build_dependencies@),
            target: tmap_view(self.target@),
        }
    }
}

/// The manifest could not be interpreted.
#[derive(Debug, PartialEq, Eq, Structural, Clone, Copy)]
pub struct ManifestError;

/// The first value under this key, if any.
pub open spec fn sp_obj_get(items: Seq<(String, TomlValue)>, key: Seq<char>) -> Option<TomlValue>
    decreases items.len(),
{
    if items.len() == 0 {
        None
    } else if items[0].0@ == key {
        Some(items[0].1)
    } else {
        sp_obj_get(items.skip(1), key)
    }
}

/// The strings of an array value; `None` when the value is not an
/// array of strings.
pub open spec fn sp_str_items(items: Seq<TomlValue>, i: int) -> Option<Seq<Seq<char>>>
    decreases items.len() - i,
{
    if i < 0 || i >= items.len() {
        Some(Seq::empty())
    } else {
        match items[i] {
            TomlValue::Text(s) => match sp_str_items(items, i + 1) {
                None => None,
                Some(rest) => Some(seq![s@] + rest),
            },
            _ => None,
        }
    }
}

/// A string-list value.
pub open spec fn sp_str_list(v: TomlValue) -> Option<Seq<Seq<char>>> {
    match v {
        TomlValue::Arr(a) => sp_str_items(a@, 0),
        _ => None,
    }
}

/// A feature table: every value a string list, keys in table order.
pub open spec fn sp_feature_items(items: Seq<(String, TomlValue)>, i: int) -> Option<
    Seq<(Seq<char>, Seq<Seq<char>>)>,
>
    decreases items.len() - i,
{
    if i < 0 || i >= items.len() {
        Some(Seq::empty())
    } else {
        match sp_str_list(items[i].1) {
            None => None,
            Some(fs) => match sp_feature_items(items, i + 1) {
                None => None,
                Some(rest) => Some(seq![(items[i].0@, fs)] + rest),
            },
        }
    }
}

/// One dependency table: a required `version` string, optional
/// `features`, `optional`, `default-features` (true unless written),
/// `registry-index` (kept normalized; a text that does not parse as a
/// URL is an error) and `package`.  Unknown keys are ignored.
pub open spec fn sp_dependency(v: TomlValue) -> Option<ManifestDepV> {
    match v {
        TomlValue::Obj(items) => {
            let version = match sp_obj_get(items@, "version"@) {
                Some(TomlValue::Text(s)) => Some(s@),
                _ => None,
            };
            let features = match sp_obj_get(items@, "features"@) {
                None => Some(Seq::<Seq<char>>::empty()),
                Some(fv) => sp_str_list(fv),
            };
            let optional = match sp_obj_get(items@, "optional"@) {
                None => Some(false),
                Some(TomlValue::Bool(b)) => Some(b),
                Some(_) => None,
            };
            let default_features = match sp_obj_get(items@, "default-features"@) {
                None => Some(true),
                Some(TomlValue::Bool(b)) => Some(b),
                Some(_) => None,
            };
            let registry_index = match sp_obj_get(items@, "registry-index"@) {
                None => Some(None),
                Some(TomlValue::Text(s)) => match url_normal_of(s@) {
                    Some(u) => Some(Some(u)),
                    None => None,
                },
                Some(_) => None,
            };
            let package = match sp_obj_get(items@, "package"@) {
                None => Some(None),
                Some(TomlValue::Text(s)) => Some(Some(s@)),
                Some(_) => None,
            };
            if version is Some && features is Some && optional is Some && default_features is Some
                && registry_index is Some && package is Some {
                Some(
                    ManifestDepV {
                        version: version->Some_0,
                        features: features->Some_0,
                        optional: optional->Some_0,
                        default_features: default_features->Some_0,
                        registry_index: registry_index->Some_0,
                        package: package->Some_0,
                    },
                )
            } else {
                None
            }
        },
        _ => None,
    }
}

/// A dependency table group: every value a dependency table, keys in
/// table order.
pub open spec fn sp_dep_items(items: Seq<(String, TomlValue)>, i: int) -> Option<
    Seq<(Seq<char>, ManifestDepV)>,
>
    decreases items.len() - i,
{
    if i < 0 || i >= items.len() {
        Some(Seq::empty())
    } else {
        match sp_dependency(items[i].1) {
            None => None,
            Some(d) => match sp_dep_items(items, i + 1) {
                None => None,
                Some(rest) => Some(seq![(items[i].0@, d)] + rest),
            },
        }
    }
}

/// An optional dependency-group value under a key: absent means
/// empty.
pub open spec fn sp_dep_group(items: Seq<(String, TomlValue)>, key: Seq<char>) -> Option<
    Seq<(Seq<char>, ManifestDepV)>,
> {
    match sp_obj_get(items, key) {
        None => Some(Seq::empty()),
        Some(TomlValue::Obj(d)) => sp_dep_items(d@, 0),
        Some(_) => None,
    }
}

/// One per-target group: its optional `dependencies` table.
pub open spec fn sp_target(v: TomlValue) -> Option<TargetV> {
    match v {
        TomlValue::Obj(items) => match sp_dep_group(items@, "dependencies"@) {
            None => None,
            Some(d) => Some(TargetV { dependencies: d }),
        },
        _ => None,
    }
}

/// The per-target table: every value a target group.
pub open spec fn sp_target_items(items: Seq<(String, TomlValue)>, i: int) -> Option<
    Seq<(Seq<char>, TargetV)>,
>
    decreases items.len() - i,
{
    if i < 0 || i >= items.len() {
        Some(Seq::empty())
    } else {
        match sp_target(items[i].1) {
            None => None,
            Some(t) => match sp_target_items(items, i + 1) {
                None => None,
                Some(rest) => Some(seq![(items[i].0@, t)] + rest),
            },
        }
    }
}

/// The `[package]` section: a required valid crate name, a required
/// version string, optional `links` and `rust-version` strings.
pub open spec fn sp_package(v: TomlValue) -> Option<PackageV> {
    match v {
        TomlValue::Obj(items) => {
            let name = match sp_obj_get(items@, "name"@) {
                Some(TomlValue::Text(s)) => if valid_crate_name(s@) {
                    Some(s@)
                } else {
                    None
                },
                _ => None,
            };
            let version = match sp_obj_get(items@, "version"@) {
                Some(TomlValue::Text(s)) => Some(s@),
                _ => None,
            };
            let links = match sp_obj_get(items@, "links"@) {
                None => Some(None),
                Some(TomlValue::Text(s)) => Some(Some(s@)),
                Some(_) => None,
            };
            let rust_version = match sp_obj_get(items@, "rust-version"@) {
                None => Some(None),
                Some(TomlValue::Text(s)) => Some(Some(s@)),
                Some(_) => None,
            };
            if name is Some && version is Some && links is Some && rust_version is Some {
                Some(
                    PackageV {
                        name: name->Some_0,
                        version: version->Some_0,
                        links: links->Some_0,
                        rust_version: rust_version->Some_0,
                    },
                )
            } else {
                None
            }
        },
        _ => None,
    }
}

/// The whole manifest: a required `[package]`, optional `features`,
/// `dependencies`, `build-dependencies` and `target` tables, absent
/// tables meaning empty.  Unknown keys are ignored.
pub open spec fn sp_manifest(doc: TomlValue) -> Option<ManifestV> {
    match doc {
        TomlValue::Obj(items) => {
            let package = match sp_obj_get(items@, "package"@) {
                Some(p) => sp_package(p),
                None => None,
            };
            let features = match sp_obj_get(items@, "features"@) {
                None => Some(Seq::<(Seq<char>, Seq<Seq<char>>)>::empty()),
                Some(TomlValue::Obj(f)) => sp_feature_items(f@, 0),
                Some(_) => None,
            };
            let dependencies = sp_dep_group(items@, "dependencies"@);
            let build_dependencies = sp_dep_group(items@, "build-dependencies"@);
            let target = match sp_obj_get(items@, "target"@) {
                None => Some(Seq::<(Seq<char>, TargetV)>::empty()),
                Some(TomlValue::Obj(t)) => sp_target_items(t@, 0),
                Some(_) => None,
            };
            if package is Some && features is Some && dependencies is Some
                && build_dependencies is Some && target is Some {
                Some(
                    ManifestV {
                        package: package->Some_0,
                        features: features->Some_0,
                        dependencies: dependencies->Some_0,
                        build_dependencies: build_dependencies->Some_0,
                        target: target->Some_0,
                    },
                )
            } else {
                None
            }
        },
        _ => None,
    }
}

/// Looks up the first value under `key`, exactly `sp_obj_get`.
pub fn obj_get_pub<'a>(items: &'a Vec<(String, TomlValue)>, key: &str) -> (r: Option<&'a TomlValue>)
    ensures
        match r {
            Some(v) => sp_obj_get(items@, key@) == Some(*v),
            None => sp_obj_get(items@, key@) is None,
        },
{
    let n = items.len();
    let mut i: usize = 0;
    proof {
        assert(items@.skip(0) =~= items@);
    }
    while i < n
        invariant
            n == items@.len(),
            0 <= i <= n,
            sp_obj_get(items@, key@) == sp_obj_get(items@.skip(i as int), key@),
        decreases n - i,
    {
        proof {
            assert(items@.skip(i as int)[0] == items@[i as int]);
        }
        if str_eq(items[i].0.as_str(), key) {
            return Some(&items[i].1);
        }
        proof {
            assert(items@.skip(i as int).skip(1) =~= items@.skip(i as int + 1));
        }
        i += 1;
    }
    None
}

/// Reads a string-list value, exactly `sp_str_list`.
fn str_list(v: &TomlValue) -> (r: Option<Vec<String>>)
    ensures
        match r {
            Some(out) => sp_str_list(*v) == Some(out.deep_view()),
            None => sp_str_list(*v) is None,
        },
{
    match v {
        TomlValue::Arr(a) => {
            let n = a.len();
            let mut out: Vec<String> = Vec::new();
            let mut i: usize = 0;
            while i < n
                invariant
                    n == a@.len(),
                    0 <= i <= n,
                    sp_str_list(*v) == sp_str_items(a@, 0),
                    match sp_str_items(a@, i as int) {
                        Some(rest) => sp_str_items(a@, 0) == Some(out.deep_view() + rest),
                        None => sp_str_items(a@, 0) is None,
                    },
                decreases n - i,
            {
                match &a[i] {
                    TomlValue::Text(s) => {
                        let ghost d0 = out.deep_view();
                        out.push(s.clone());
                        proof {
                            assert(out.deep_view() =~= d0 + seq![s@]);
                            match sp_str_items(a@, i as int + 1) {
                                Some(rest) => {
                                    assert(d0 + (seq![s@] + rest) =~= out.deep_view() + rest);
                                },
                                None => {},
                            }
                        }
                    },
                    _ => {
                        return None;
                    },
                }
                i += 1;
            }
            proof {
                assert(sp_str_items(a@, n as int) == Some(Seq::<Seq<char>>::empty()));
                assert(out.deep_view() + Seq::<Seq<char>>::empty() =~= out.deep_view());
            }
            Some(out)
        },
        _ => None,
    }
}

/// Reads one dependency table, exactly `sp_dependency`.
#[verifier::rlimit(60)]
pub fn parse_dependency(v: &TomlValue) -> (r: Option<Dependency>)
    ensures
        match r {
            Some(d) => sp_dependency(*v) == Some(d@),
            None => sp_dependency(*v) is None,
        },
{
    match v {
        TomlValue::Obj(items) => {
            let version: String = match obj_get_pub(items, "version") {
                Some(TomlValue::Text(s)) => s.clone(),
                _ => {
                    return None;
                },
            };
            let features: Vec<String> = match obj_get_pub(items, "features") {
                None => {
                    let fs: Vec<String> = Vec::new();
                    proof {
                        assert(fs.deep_view() =~= Seq::<Seq<char>>::empty());
                    }
                    fs
                },
                Some(fv) => match str_list(fv) {
                    Some(fs) => fs,
                    None => {
                        return None;
                    },
                },
            };
            let optional: bool = match obj_get_pub(items, "optional") {
                None => false,
                Some(TomlValue::Bool(b)) => *b,
                Some(_) => {
                    return None;
                },
            };
            let default_features: bool = match obj_get_pub(items, "default-features") {
                None => true,
                Some(TomlValue::Bool(b)) => *b,
                Some(_) => {
                    return None;
                },
            };
            let registry_index: Option<String> = match obj_get_pub(items, "registry-index") {
                None => None,
                Some(TomlValue::Text(s)) => match normalize_url(s.as_str()) {
                    Some(u) => Some(u),
                    None => {
                        return None;
                    },
                },
                Some(_) => {
                    return None;
                },
            };
            let package: Option<String> = match obj_get_pub(items, "package") {
                None => None,
                Some(TomlValue::Text(s)) => Some(s.clone()),
                Some(_) => {
                    return None;
                },
            };
            Some(
                Dependency {
                    version,
                    features,
                    optional,
                    default_features,
                    registry_index,
                    package,
                },
            )
        },
        _ => None,
    }
}

/// Reads a dependency group's table, exactly `sp_dep_items`.
fn parse_dep_items(items: &Vec<(String, TomlValue)>) -> (r: Option<Vec<(String, Dependency)>>)
    ensures
        match r {
            Some(out) => sp_dep_items(items@, 0) == Some(dmap_view(out@)),
            None => sp_dep_items(items@, 0) is None,
        },
{
    let n = items.len();
    let mut out: Vec<(String, Dependency)> = Vec::new();
    let mut i: usize = 0;
    while i < n
        invariant
            n == items@.len(),
            0 <= i <= n,
            match sp_dep_items(items@, i as int) {
                Some(rest) => sp_dep_items(items@, 0) == Some(dmap_view(out@) + rest),
                None => sp_dep_items(items@, 0) is None,
            },
        decreases n - i,
    {
        match parse_dependency(&items[i].1) {
            Some(d) => {
                let ghost d0 = dmap_view(out@);
                let ghost dv = d@;
                let key = items[i].0.clone();
                out.push((key, d));
                proof {
                    assert(dmap_view(out@) =~= d0 + seq![(items@[i as int].0@, dv)]);
                    match sp_dep_items(items@, i as int + 1) {
                        Some(rest) => {
                            assert(d0 + (seq![(items@[i as int].0@, dv)] + rest) =~= dmap_view(out@)
                                + rest);
                        },
                        None => {},
                    }
                }
            },
            None => {
                return None;
            },
        }
        i += 1;
    }
    proof {
        assert(sp_dep_items(items@, n as int) == Some(
            Seq::<(Seq<char>, ManifestDepV)>::empty(),
        ));
        assert(dmap_view(out@) + Seq::<(Seq<char>, ManifestDepV)>::empty() =~= dmap_view(out@));
    }
    Some(out)
}

/// Reads an optional dependency group under `key`, exactly
/// `sp_dep_group`.
fn parse_dep_group(items: &Vec<(String, TomlValue)>, key: &str) -> (r: Option<
    Vec<(String, Dependency)>,
>)
    ensures
        match r {
            Some(out) => sp_dep_group(items@, key@) == Some(dmap_view(out@)),
            None => sp_dep_group(items@, key@) is None,
        },
{
    match obj_get_pub(items, key) {
        None => {
            let out: Vec<(String, Dependency)> = Vec::new();
            proof {
                assert(dmap_view(out@) =~= Seq::<(Seq<char>, ManifestDepV)>::empty());
            }
            Some(out)
        },
        Some(TomlValue::Obj(d)) => parse_dep_items(d),
        Some(_) => None,
    }
}

/// Reads the feature table's pairs, exactly `sp_feature_items`.
fn parse_feature_items(items: &Vec<(String, TomlValue)>) -> (r: Option<
    Vec<(String, Vec<String>)>,
>)
    ensures
        match r {
            Some(out) => sp_feature_items(items@, 0) == Some(crate::index_entry::fmap_view(out@)),
            None => sp_feature_items(items@, 0) is None,
        },
{
    let n = items.len();
    let mut out: Vec<(String, Vec<String>)> = Vec::new();
    let mut i: usize = 0;
    while i < n
        invariant
            n == items@.len(),
            0 <= i <= n,
            match sp_feature_items(items@, i as int) {
                Some(rest) => sp_feature_items(items@, 0) == Some(
                    crate::index_entry::fmap_view(out@) + rest,
                ),
                None => sp_feature_items(items@, 0) is None,
            },
        decreases n - i,
    {
        match str_list(&items[i].1) {
            Some(fs) => {
                let ghost d0 = crate::index_entry::fmap_view(out@);
                let ghost fv = fs.deep_view();
                let key = items[i].0.clone();
                out.push((key, fs));
                proof {
                    assert(crate::index_entry::fmap_view(out@) =~= d0 + seq![
                        (items@[i as int].0@, fv),
                    ]);
                    match sp_feature_items(items@, i as int + 1) {
                        Some(rest) => {
                            assert(d0 + (seq![(items@[i as int].0@, fv)] + rest)
                                =~= crate::index_entry::fmap_view(out@) + rest);
                        },
                        None => {},
                    }
                }
            },
            None => {
                return None;
            },
        }
        i += 1;
    }
    proof {
        assert(sp_feature_items(items@, n as int) == Some(
            Seq::<(Seq<char>, Seq<Seq<char>>)>::empty(),
        ));
        assert(crate::index_entry::fmap_view(out@) + Seq::<(Seq<char>, Seq<Seq<char>>)>::empty()
            =~= crate::index_entry::fmap_view(out@));
    }
    Some(out)
}

/// Reads the per-target table, exactly `sp_target_items`.
fn parse_target_items(items: &Vec<(String, TomlValue)>) -> (r: Option<Vec<(String, Target)>>)
    ensures
        match r {
            Some(out) => sp_target_items(items@, 0) == Some(tmap_view(out@)),
            None => sp_target_items(items@, 0) is None,
        },
{
    let n = items.len();
    let mut out: Vec<(String, Target)> = Vec::new();
    let mut i: usize = 0;
    while i < n
        invariant
            n == items@.len(),
            0 <= i <= n,
            match sp_target_items(items@, i as int) {
                Some(rest) => sp_target_items(items@, 0) == Some(tmap_view(out@) + rest),
                None => sp_target_items(items@, 0) is None,
            },
        decreases n - i,
    {
        let t: Target = match &items[i].1 {
            TomlValue::Obj(ti) => match parse_dep_group(ti, "dependencies") {
                Some(d) => Target { dependencies: d },
                None => {
                    return None;
                },
            },
            _ => {
                return None;
            },
        };
        let ghost d0 = tmap_view(out@);
        let ghost tv = t@;
        let key = items[i].0.clone();
        out.push((key, t));
        proof {
            assert(tmap_view(out@) =~= d0 + seq![(items@[i as int].0@, tv)]);
            match sp_target_items(items@, i as int + 1) {
                Some(rest) => {
                    assert(d0 + (seq![(items@[i as int].0@, tv)] + rest) =~= tmap_view(out@)
                        + rest);
                },
                None => {},
            }
        }
        i += 1;
    }
    proof {
        assert(sp_target_items(items@, n as int) == Some(Seq::<(Seq<char>, TargetV)>::empty()));
        assert(tmap_view(out@) + Seq::<(Seq<char>, TargetV)>::empty() =~= tmap_view(out@));
    }
    Some(out)
}

/// Reads the `[package]` section, exactly `sp_package`.
#[verifier::rlimit(60)]
fn parse_package(v: &TomlValue) -> (r: Option<Package>)
    ensures
        match r {
            Some(p) => sp_package(*v) == Some(p@) && p.name.wf(),
            None => sp_package(*v) is None,
        },
{
    match v {
        TomlValue::Obj(items) => {
            let name: CrateName = match obj_get_pub(items, "name") {
                Some(TomlValue::Text(s)) => match CrateName::try_from(s.as_str()) {
                    Ok(n) => n,
                    Err(_) => {
                        return None;
                    },
                },
                _ => {
                    return None;
                },
            };
            let version: String = match obj_get_pub(items, "version") {
                Some(TomlValue::Text(s)) => s.clone(),
                _ => {
                    return None;
                },
            };
            let links: Option<String> = match obj_get_pub(items, "links") {
                None => None,
                Some(TomlValue::Text(s)) => Some(s.clone()),
                Some(_) => {
                    return None;
                },
            };
            let rust_version: Option<String> = match obj_get_pub(items, "rust-version") {
                None => None,
                Some(TomlValue::Text(s)) => Some(s.clone()),
                Some(_) => {
                    return None;
                },
            };
            Some(Package { name, version, links, rust_version })
        },
        _ => None,
    }
}

/// Reads a whole manifest from its value tree, exactly `sp_manifest`.
#[verifier::rlimit(60)]
pub fn parse_manifest(doc: &TomlValue) -> (r: Result<Root, ManifestError>)
    ensures
        match r {
            Ok(m) => sp_manifest(*doc) == Some(m@) && m.package.name.wf(),
            Err(_) => sp_manifest(*doc) is None,
        },
{
    match doc {
        TomlValue::Obj(items) => {
            let package: Package = match obj_get_pub(items, "package") {
                Some(p) => match parse_package(p) {
                    Some(p) => p,
                    None => {
                        return Err(ManifestError);
                    },
                },
                None => {
                    return Err(ManifestError);
                },
            };
            let features: Vec<(String, Vec<String>)> = match obj_get_pub(items, "features") {
                None => {
                    let empty: Vec<(String, Vec<String>)> = Vec::new();
                    proof {
                        assert(crate::index_entry::fmap_view(empty@) =~= Seq::<
                            (Seq<char>, Seq<Seq<char>>),
                        >::empty());
                    }
                    empty
                },
                Some(TomlValue::Obj(f)) => match parse_feature_items(f) {
                    Some(fs) => fs,
                    None => {
                        return Err(ManifestError);
                    },
                },
                Some(_) => {
                    return Err(ManifestError);
                },
            };
            let dependencies = match parse_dep_group(items, "dependencies") {
                Some(d) => d,
                None => {
                    return Err(ManifestError);
                },
            };
            let build_dependencies = match parse_dep_group(items, "build-dependencies") {
                Some(d) => d,
                None => {
                    return Err(ManifestError);
                },
            };
            let target: Vec<(String, Target)> = match obj_get_pub(items, "target") {
                None => {
                    let empty: Vec<(String, Target)> = Vec::new();
                    proof {
                        assert(tmap_view(empty@) =~= Seq::<(Seq<char>, TargetV)>::empty());
                    }
                    empty
                },
                Some(TomlValue::Obj(t)) => match parse_target_items(t) {
                    Some(ts) => ts,
                    None => {
                        return Err(ManifestError);
                    },
                },
                Some(_) => {
                    return Err(ManifestError);
                },
            };
            Ok(Root { package, features, dependencies, build_dependencies, target })
        },
        _ => Err(ManifestError),
    }
}

} // verus!
