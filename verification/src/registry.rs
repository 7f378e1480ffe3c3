//! The registry engine: turning an uploaded archive into an index
//! record, deriving both file paths from the crate name, and the
//! add / yank / unyank / remove / list operations over index texts.
//!
//! Every function here maps plain values to plain values; the caller
//! performs the file reads and writes.  Paths are handed out as
//! segments relative to the registry root.

use vstd::prelude::*;
use crate::archive::{extract_root_cargo_toml, sp_extract, entries_of, ExtractRootCargoTomlError};
use crate::cargo_toml::{sp_manifest, parse_manifest, ManifestV, ManifestDepV, TargetV};
use crate::checksum::{checksum_hex, spec_checksum_hex};
use crate::config::{config_toml_text, parse_config, sp_config_of, write_config_toml, ConfigV1};
use crate::config_json;
use crate::index_entry::{DepV, Dependency, DependencyKind, Root, RootV};
use crate::name::{spec_prefix_dirs, CrateName};
use crate::store::{
    index_text, spec_insert, spec_parse_index, spec_remove, spec_set_yanked, Index,
    VersionNotFound,
};
use crate::strs::{lex_lt, str_eq, str_lt};
use crate::toml_tree::{parse_toml, toml_doc_of};
use crate::urls::{normalize_url, url_normal_of};

verus! {

/// The assumed public upstream: dependencies with no explicit source
/// resolve to this index.
pub const CRATES_IO_INDEX_URL: &'static str = "https://github.com/rust-lang/crates.io-index";

/// Values computed once at startup and passed by reference: the
/// normalized default upstream index URL.
#[derive(Debug)]
pub struct Global {
    pub crates_io_index_url: String,
}

impl View for Global {
    type V = Seq<char>;

    open spec fn view(&self) -> Seq<char> {
        self.crates_io_index_url@
    }
}

/// The default upstream URL could not be normalized.
#[derive(Debug, PartialEq, Eq, Structural, Clone, Copy)]
pub enum GlobalError {
    CratesIoIndexUrl,
}

impl Global {
    /// Normalizes the default upstream index URL once.
    pub fn new() -> (r: Result<Global, GlobalError>)
        ensures
            match r {
                Ok(g) => url_normal_of(CRATES_IO_INDEX_URL@) == Some(g@),
                Err(_) => url_normal_of(CRATES_IO_INDEX_URL@) is None,
            },
    {
        match normalize_url(CRATES_IO_INDEX_URL) {
            Some(u) => Ok(Global { crates_io_index_url: u }),
            None => Err(GlobalError::CratesIoIndexUrl),
        }
    }
}

/// Where a dependency's registry entry points: no explicit source
/// resolves to the default upstream; an explicit source equal to this
/// registry's base URL resolves to "this registry" (absent); any
/// other explicit source passes through unchanged.
pub open spec fn sp_adapt_index(
    gurl: Seq<char>,
    base: Seq<char>,
    reg: Option<Seq<char>>,
) -> Option<Seq<char>> {
    match reg {
        None => Some(gurl),
        Some(u) => if u == base {
            None
        } else {
            Some(u)
        },
    }
}

/// Resolves a dependency's source registry, exactly `sp_adapt_index`.
pub fn adapt_index(global: &Global, config: &ConfigV1, registry_index: Option<String>) -> (r:
    Option<String>)
    ensures
        crate::index_entry::opt_view(r) == sp_adapt_index(
            global@,
            config@.base_url,
            crate::index_entry::opt_view(registry_index),
        ),
{
    match registry_index {
        None => Some(global.crates_io_index_url.clone()),
        Some(u) => {
            if str_eq(u.as_str(), config.base_url.as_str()) {
                None
            } else {
                Some(u)
            }
        },
    }
}

/// One manifest dependency as an index record dependency: an ordinary
/// dependency with its registry resolved.
pub open spec fn sp_adapt_dependency(
    gurl: Seq<char>,
    base: Seq<char>,
    name: Seq<char>,
    d: ManifestDepV,
) -> DepV {
    DepV {
        name: name,
        req: d.version,
        features: d.features,
        optional: d.optional,
        default_features: d.default_features,
        target: None,
        kind: DependencyKind::Normal,
        registry: sp_adapt_index(gurl, base, d.registry_index),
        package: d.package,
    }
}

/// Adapts one manifest dependency, exactly `sp_adapt_dependency`.
pub fn adapt_dependency(
    global: &Global,
    config: &ConfigV1,
    dep: crate::cargo_toml::Dependency,
    name: String,
) -> (r: Dependency)
    ensures
        r@ == sp_adapt_dependency(global@, config@.base_url, name@, dep@),
{
    let crate::cargo_toml::Dependency {
        version,
        features,
        optional,
        default_features,
        registry_index,
        package,
    } = dep;
    Dependency {
        name,
        req: version,
        features,
        optional,
        default_features,
        target: None,
        kind: DependencyKind::Normal,
        registry: adapt_index(global, config, registry_index),
        package,
    }
}

/// The dependencies of the per-target groups from `i` on, flattened
/// in manifest order, each tagged with its group's cfg string.
pub open spec fn sp_target_deps(
    gurl: Seq<char>,
    base: Seq<char>,
    ts: Seq<(Seq<char>, TargetV)>,
    i: int,
) -> Seq<DepV>
    decreases ts.len() - i,
{
    if i < 0 || i >= ts.len() {
        Seq::empty()
    } else {
        Seq::new(
            ts[i].1.dependencies.len(),
            |j: int|
                DepV {
                    target: Some(ts[i].0),
                    ..sp_adapt_dependency(
                        gurl,
                        base,
                        ts[i].1.dependencies[j].0,
                        ts[i].1.dependencies[j].1,
                    )
                },
        ) + sp_target_deps(gurl, base, ts, i + 1)
    }
}

/// All dependencies of an adapted record: the ordinary group, then
/// the build group re-tagged `Build`, then every per-target group in
/// manifest order.
pub open spec fn sp_deps_list(gurl: Seq<char>, base: Seq<char>, m: ManifestV) -> Seq<DepV> {
    Seq::new(
        m.dependencies.len(),
        |i: int| sp_adapt_dependency(gurl, base, m.dependencies[i].0, m.dependencies[i].1),
    ) + Seq::new(
        m.build_dependencies.len(),
        |i: int|
            DepV {
                kind: DependencyKind::Build,
                ..sp_adapt_dependency(
                    gurl,
                    base,
                    m.build_dependencies[i].0,
                    m.build_dependencies[i].1,
                )
            },
    ) + sp_target_deps(gurl, base, m.target, 0)
}

/// The index record an accepted manifest becomes: name and version
/// from the package, the flattened dependency list, the caller's
/// checksum, features copied verbatim, not yanked, schema version 2,
/// no extended features, `links` and toolchain passed through.
pub open spec fn sp_adapt_manifest(
    gurl: Seq<char>,
    base: Seq<char>,
    m: ManifestV,
    cksum: Seq<char>,
) -> RootV {
    RootV {
        name: m.package.name,
        vers: m.package.version,
        deps: sp_deps_list(gurl, base, m),
        cksum: cksum,
        features: m.features,
        yanked: false,
        links: m.package.links,
        v: 2,
        features2: Seq::empty(),
        rust_version: m.package.rust_version,
    }
}

/// Adapts a whole manifest into an index record, exactly
/// `sp_adapt_manifest`.
#[verifier::rlimit(100)]
pub fn adapt_cargo_toml_to_index_entry(
    global: &Global,
    config: &ConfigV1,
    cargo_toml: crate::cargo_toml::Root,
    checksum_hex: String,
) -> (r: Root)
    requires
        crate::name::valid_crate_name(cargo_toml@.package.name),
    ensures
        r@ == sp_adapt_manifest(global@, config@.base_url, cargo_toml@, checksum_hex@),
        r.name.wf(),
{
    let ghost mv = cargo_toml@;
    let ghost gurl = global@;
    let ghost base = config@.base_url;
    let crate::cargo_toml::Root { package, features, dependencies, build_dependencies, target } =
        cargo_toml;
    let mut deps: Vec<Dependency> = Vec::new();
    let ghost part1: Seq<DepV> = Seq::new(
        mv.dependencies.len(),
        |i: int| sp_adapt_dependency(gurl, base, mv.dependencies[i].0, mv.dependencies[i].1),
    );
    let n1 = dependencies.len();
    let mut deps_in = dependencies;
    let mut i: usize = 0;
    // the groups are consumed front to back; removal from the front
    // keeps the remaining items aligned with the spec sequence
    while i < n1
        invariant
            n1 == mv.dependencies.len(),
            0 <= i <= n1,
            deps_in@.len() == n1 - i,
            forall|k: int|
                0 <= k < deps_in@.len() ==> (#[trigger] deps_in@[k]).0@ == mv.dependencies[
                    i + k
                ].0 && deps_in@[k].1@ == mv.dependencies[i + k].1,
            part1 == Seq::new(
                mv.dependencies.len(),
                |x: int| sp_adapt_dependency(gurl, base, mv.dependencies[x].0, mv.dependencies[x].1),
            ),
            gurl == global@,
            base == config@.base_url,
            deps.deep_view() == part1.take(i as int),
        decreases n1 - i,
    {
        let ghost din0 = deps_in@;
        proof {
            assert(din0[0].0@ == mv.dependencies[i as int].0);
            assert(din0[0].1@ == mv.dependencies[i as int].1);
        }
        let (name, d) = deps_in.remove(0);
        let a = adapt_dependency(global, config, d, name);
        let ghost av = a@;
        let ghost dv0 = deps.deep_view();
        deps.push(a);
        proof {
            assert(av == part1[i as int]);
            assert(deps.deep_view() =~~= dv0.push(av));
            assert(dv0.push(av) =~~= part1.take(i as int + 1));
            assert(deps.deep_view() == part1.take(i as int + 1));
            assert forall|k: int| 0 <= k < deps_in@.len() implies (#[trigger] deps_in@[k]).0@
                == mv.dependencies[i + 1 + k].0 && deps_in@[k].1@ == mv.dependencies[i + 1 + k].1
            by {
                assert(deps_in@[k] == din0[k + 1]);
            }
        }
        i += 1;
    }
    proof {
        assert(part1.take(n1 as int) =~= part1);
    }
    let ghost part2: Seq<DepV> = Seq::new(
        mv.build_dependencies.len(),
        |x: int|
            DepV {
                kind: DependencyKind::Build,
                ..sp_adapt_dependency(
                    gurl,
                    base,
                    mv.build_dependencies[x].0,
                    mv.build_dependencies[x].1,
                )
            },
    );
    let n2 = build_dependencies.len();
    let mut build_in = build_dependencies;
    let mut j: usize = 0;
    while j < n2
        invariant
            n2 == mv.build_dependencies.len(),
            0 <= j <= n2,
            build_in@.len() == n2 - j,
            forall|k: int|
                0 <= k < build_in@.len() ==> (#[trigger] build_in@[k]).0@ == mv.build_dependencies[
                    j + k
                ].0 && build_in@[k].1@ == mv.build_dependencies[j + k].1,
            part2 == Seq::new(
                mv.build_dependencies.len(),
                |x: int|
                    DepV {
                        kind: DependencyKind::Build,
                        ..sp_adapt_dependency(
                            gurl,
                            base,
                            mv.build_dependencies[x].0,
                            mv.build_dependencies[x].1,
                        )
                    },
            ),
            gurl == global@,
            base == config@.base_url,
            deps.deep_view() == part1 + part2.take(j as int),
        decreases n2 - j,
    {
        let ghost bin0 = build_in@;
        proof {
            assert(bin0[0].0@ == mv.build_dependencies[j as int].0);
            assert(bin0[0].1@ == mv.build_dependencies[j as int].1);
        }
        let (name, d) = build_in.remove(0);
        let mut a = adapt_dependency(global, config, d, name);
        a.kind = DependencyKind::Build;
        let ghost av = a@;
        let ghost dv0 = deps.deep_view();
        deps.push(a);
        proof {
            assert(av == part2[j as int]);
            assert(deps.deep_view() =~~= dv0.push(av));
            assert(dv0.push(av) =~~= part1 + part2.take(j as int + 1));
            assert(deps.deep_view() == part1 + part2.take(j as int + 1));
            assert forall|k: int| 0 <= k < build_in@.len() implies (#[trigger] build_in@[k]).0@
                == mv.build_dependencies[j + 1 + k].0 && build_in@[k].1@ == mv.build_dependencies[
                j + 1 + k
            ].1 by {
                assert(build_in@[k] == bin0[k + 1]);
            }
        }
        j += 1;
    }
    proof {
        assert(part2.take(n2 as int) =~= part2);
    }
    let ghost base12: Seq<DepV> = part1 + part2;
    let nt = target.len();
    let mut target_in = target;
    let mut t: usize = 0;
    while t < nt
        invariant
            nt == mv.target.len(),
            0 <= t <= nt,
            target_in@.len() == nt - t,
            forall|k: int|
                0 <= k < target_in@.len() ==> (#[trigger] target_in@[k]).0@ == mv.target[t + k].0
                    && target_in@[k].1@ == mv.target[t + k].1,
            gurl == global@,
            base == config@.base_url,
            base12 == part1 + part2,
            deps.deep_view() + sp_target_deps(gurl, base, mv.target, t as int) == base12
                + sp_target_deps(gurl, base, mv.target, 0),
        decreases nt - t,
    {
        let ghost tin0 = target_in@;
        proof {
            assert(tin0[0].0@ == mv.target[t as int].0);
            assert(tin0[0].1@ == mv.target[t as int].1);
        }
        let (cfg_name, tg) = target_in.remove(0);
        proof {
            assert forall|k: int| 0 <= k < target_in@.len() implies (#[trigger] target_in@[k]).0@
                == mv.target[t + 1 + k].0 && target_in@[k].1@ == mv.target[t + 1 + k].1 by {
                assert(target_in@[k] == tin0[k + 1]);
            }
        }
        let ghost chunk: Seq<DepV> = Seq::new(
            mv.target[t as int].1.dependencies.len(),
            |x: int|
                DepV {
                    target: Some(mv.target[t as int].0),
                    ..sp_adapt_dependency(
                        gurl,
                        base,
                        mv.target[t as int].1.dependencies[x].0,
                        mv.target[t as int].1.dependencies[x].1,
                    )
                },
        );
        let ghost before = deps.deep_view();
        let nd = tg.dependencies.len();
        let mut tdeps_in = tg.dependencies;
        let mut d: usize = 0;
        while d < nd
            invariant
                nd == mv.target[t as int].1.dependencies.len(),
                0 <= d <= nd,
                tdeps_in@.len() == nd - d,
                forall|k: int|
                    0 <= k < tdeps_in@.len() ==> (#[trigger] tdeps_in@[k]).0@ == mv.target[
                        t as int
                    ].1.dependencies[d + k].0 && tdeps_in@[k].1@ == mv.target[
                        t as int
                    ].1.dependencies[d + k].1,
                0 <= t < nt == mv.target.len(),
                chunk == Seq::new(
                    mv.target[t as int].1.dependencies.len(),
                    |x: int|
                        DepV {
                            target: Some(mv.target[t as int].0),
                            ..sp_adapt_dependency(
                                gurl,
                                base,
                                mv.target[t as int].1.dependencies[x].0,
                                mv.target[t as int].1.dependencies[x].1,
                            )
                        },
                ),
                gurl == global@,
                base == config@.base_url,
                cfg_name@ == mv.target[t as int].0,
                deps.deep_view() == before + chunk.take(d as int),
            decreases nd - d,
        {
            let ghost xin0 = tdeps_in@;
            proof {
                assert(xin0[0].0@ == mv.target[t as int].1.dependencies[d as int].0);
                assert(xin0[0].1@ == mv.target[t as int].1.dependencies[d as int].1);
            }
            let (name, dp) = tdeps_in.remove(0);
            let mut a = adapt_dependency(global, config, dp, name);
            a.target = Some(cfg_name.clone());
            let ghost av = a@;
            let ghost dv0 = deps.deep_view();
            deps.push(a);
            proof {
                assert(av == chunk[d as int]);
                assert(deps.deep_view() =~~= dv0.push(av));
                assert(dv0.push(av) =~~= before + chunk.take(d as int + 1));
                assert(deps.deep_view() == before + chunk.take(d as int + 1));
                assert forall|k: int| 0 <= k < tdeps_in@.len() implies (#[trigger] tdeps_in@[k]).0@
                    == mv.target[t as int].1.dependencies[d + 1 + k].0 && tdeps_in@[k].1@
                    == mv.target[t as int].1.dependencies[d + 1 + k].1 by {
                    assert(tdeps_in@[k] == xin0[k + 1]);
                }
            }
            d += 1;
        }
        proof {
            assert(chunk.take(nd as int) =~= chunk);
            assert(sp_target_deps(gurl, base, mv.target, t as int) == chunk + sp_target_deps(
                gurl,
                base,
                mv.target,
                t as int + 1,
            ));
            assert((before + chunk) + sp_target_deps(gurl, base, mv.target, t as int + 1)
                =~= before + (chunk + sp_target_deps(gurl, base, mv.target, t as int + 1)));
        }
        t += 1;
    }
    proof {
        assert(sp_target_deps(gurl, base, mv.target, nt as int) =~= Seq::<DepV>::empty());
        assert(deps.deep_view() + Seq::<DepV>::empty() =~= deps.deep_view());
        assert(deps.deep_view() =~= base12 + sp_target_deps(gurl, base, mv.target, 0));
    }
    let features2: Vec<(String, Vec<String>)> = Vec::new();
    let r = Root {
        name: package.name,
        vers: package.version,
        deps,
        cksum: checksum_hex,
        features,
        yanked: false,
        links: package.links,
        v: 2,
        features2,
        rust_version: package.rust_version,
    };
    proof {
        assert(crate::index_entry::fmap_view(Seq::<(String, Vec<String>)>::empty()) =~= Seq::<
            (Seq<char>, Seq<Seq<char>>),
        >::empty());
        assert(r@ =~= sp_adapt_manifest(gurl, base, mv, checksum_hex@));
    }
    r
}

/// The view of an optional borrowed text.
pub open spec fn opt_str_view(p: Option<&str>) -> Option<Seq<char>> {
    match p {
        Some(s) => Some(s@),
        None => None,
    }
}

/// A prior index file's records: an absent file means no published
/// versions, not an error.
pub open spec fn sp_prior(p: Option<Seq<char>>) -> Result<Seq<RootV>, int> {
    match p {
        None => Ok(Seq::empty()),
        Some(t) => spec_parse_index(t),
    }
}

/// Why adding an archive was refused.
#[derive(Debug, PartialEq, Eq, Structural, Clone, Copy)]
pub enum AddError {
    /// The archive could not be read or is not laid out as a package.
    CargoTomlExtract { source: ExtractRootCargoTomlError },
    /// The archive holds no manifest.
    CargoTomlMissing,
    /// The manifest is not valid UTF-8.
    CargoTomlUtf8,
    /// The manifest is not valid TOML or not a package manifest.
    CargoTomlMalformed,
    /// The crate's existing index file does not decode.
    IndexParse { line: usize },
}

/// Relies on std::str::from_utf8: succeeds exactly on valid UTF-8 and
/// decodes the bytes.
#[verifier::external_body]
fn bytes_to_string(v: &[u8]) -> (r: Option<String>)
    ensures
        match r {
            Some(s) => vstd::utf8::encode_utf8(s@) == v@ && vstd::utf8::valid_utf8(v@),
            None => !vstd::utf8::valid_utf8(v@),
        },
{
    match std::str::from_utf8(v) {
        Ok(s) => Some(String::from(s)),
        Err(_) => None,
    }
}

/// What the manifest inside an archive means: the archive is decoded,
/// its layout checked, the manifest decoded as UTF-8 and TOML, and
/// interpreted — with the exact error each step fails with.
pub open spec fn sp_manifest_of_bytes(bytes: Seq<u8>) -> Result<ManifestV, AddError> {
    match entries_of(bytes) {
        None => Err(AddError::CargoTomlExtract { source: ExtractRootCargoTomlError::Stream }),
        Some(es) => match sp_extract(es) {
            Err(_) => Err(
                AddError::CargoTomlExtract { source: ExtractRootCargoTomlError::Malformed },
            ),
            Ok(None) => Err(AddError::CargoTomlMissing),
            Ok(Some(mb)) => if !vstd::utf8::valid_utf8(mb) {
                Err(AddError::CargoTomlUtf8)
            } else {
                match toml_doc_of(vstd::utf8::decode_utf8(mb)) {
                    None => Err(AddError::CargoTomlMalformed),
                    Some(doc) => match sp_manifest(doc) {
                        None => Err(AddError::CargoTomlMalformed),
                        Some(m) => Ok(m),
                    },
                }
            },
        },
    }
}

/// The registry engine: its loaded configuration.  File contents go
/// in and come out as values; the caller owns the directory tree.
#[derive(Debug)]
pub struct Registry {
    pub config: ConfigV1,
}

/// What `initialize` writes: the internal configuration file, the
/// derived download template, and the public configuration file.
#[derive(Debug)]
pub struct InitFiles {
    pub dl: String,
    pub config_toml: String,
    pub config_json: String,
}

/// The registry's internal configuration could not be understood.
#[derive(Debug, PartialEq, Eq, Structural, Clone, Copy)]
pub enum OpenError {
    Deserialize,
}

/// What a mutating index operation yields: the index file's path
/// segments (relative to the registry root) and its new content.
#[derive(Debug)]
pub struct IndexUpdate {
    pub index_path: Vec<String>,
    pub index_text: String,
}

/// Why a yank, unyank or remove was refused.
#[derive(Debug, PartialEq, Eq, Structural, Clone, Copy)]
pub enum IndexOpError {
    /// The named version is not in the index.
    VersionNotFound,
    /// The crate's existing index file does not decode.
    Parse { line: usize },
}

/// What `add` yields: the record's name and version, and both files
/// to write — the merged index and where it goes, and where the
/// archive bytes go.
#[derive(Debug)]
pub struct AddOutcome {
    pub name: CrateName,
    pub vers: String,
    pub index_path: Vec<String>,
    pub index_text: String,
    pub crate_path: Vec<String>,
}

impl Registry {
    /// Accepts a configuration and derives everything `initialize`
    /// writes: the internal file, and the public file whose download
    /// template interpolates the base URL with the shard, crate and
    /// version placeholders and whose dynamic interface is null.
    pub fn initialize(config: ConfigV1) -> (r: (Registry, InitFiles))
        ensures
            r.0.config@ == config@,
            r.1.config_toml@ == config_toml_text(config@),
            r.1.dl@ == config@.base_url + "crates/{lowerprefix}/{crate}/{version}.crate"@,
            r.1.config_json@ == config_json::spec_render(r.1.dl@, None, config@.auth_required),
    {
        let config_toml = write_config_toml(&config);
        let dl = String::from_str(config.base_url.as_str()).concat(
            "crates/{lowerprefix}/{crate}/{version}.crate",
        );
        let public = config_json::Root {
            dl: dl.clone(),
            api: None,
            auth_required: config.auth_required,
        };
        let config_json = public.render();
        proof {
            assert(public.dl@ == dl@);
        }
        (Registry { config }, InitFiles { dl, config_toml, config_json })
    }

    /// Reads the registry back from its internal configuration text.
    /// Only that file is authoritative; the public file is derived and
    /// never read back.
    pub fn open(config_toml: &str) -> (r: Result<Registry, OpenError>)
        ensures
            match r {
                Ok(reg) => toml_doc_of(config_toml@) matches Some(doc) && sp_config_of(doc)
                    == Some(reg.config@),
                Err(_) => match toml_doc_of(config_toml@) {
                    None => true,
                    Some(doc) => sp_config_of(doc) is None,
                },
            },
    {
        match parse_toml(config_toml) {
            None => Err(OpenError::Deserialize),
            Some(doc) => match parse_config(&doc) {
                Some(config) => Ok(Registry { config }),
                None => Err(OpenError::Deserialize),
            },
        }
    }

    /// The directory all archives live under.
    pub fn crate_dir(&self) -> (r: String)
        ensures
            r@ == "crates"@,
    {
        String::from_str("crates")
    }

    /// The crate's index file: its shard directories, then the name.
    pub fn index_file_path_for(&self, name: &CrateName) -> (r: Vec<String>)
        requires
            name.wf(),
        ensures
            r.deep_view() == spec_prefix_dirs(name@).push(name@),
    {
        let mut p: Vec<String> = Vec::new();
        name.append_prefix_directories(&mut p);
        p.push(name.as_str().to_owned());
        proof {
            assert(p.deep_view() =~~= spec_prefix_dirs(name@).push(name@));
        }
        p
    }

    /// The crate's archive directory: `crates`, the shard
    /// directories, then the name.
    pub fn crate_dir_for(&self, name: &CrateName) -> (r: Vec<String>)
        requires
            name.wf(),
        ensures
            r.deep_view() == seq!["crates"@] + spec_prefix_dirs(name@) + seq![name@],
    {
        let mut p: Vec<String> = Vec::new();
        p.push(self.crate_dir());
        proof {
            assert(p.deep_view() =~~= seq!["crates"@]);
        }
        name.append_prefix_directories(&mut p);
        let ghost mid = p.deep_view();
        proof {
            assert(mid == seq!["crates"@] + spec_prefix_dirs(name@));
        }
        p.push(name.as_str().to_owned());
        proof {
            assert(p.deep_view() =~~= mid.push(name@));
            assert(mid.push(name@) =~~= seq!["crates"@] + spec_prefix_dirs(name@) + seq![name@]);
        }
        p
    }

    /// Where one version's archive is stored: the crate's archive
    /// directory, then `<version>.crate`.
    pub fn crate_file_path_for(&self, name: &CrateName, version: &str) -> (r: Vec<String>)
        requires
            name.wf(),
        ensures
            r.deep_view() == seq!["crates"@] + spec_prefix_dirs(name@) + seq![
                name@,
                version@ + ".crate"@,
            ],
    {
        let mut p = self.crate_dir_for(name);
        let ghost mid = p.deep_view();
        p.push(String::from_str(version).concat(".crate"));
        proof {
            assert(p.deep_view() =~~= mid.push(version@ + ".crate"@));
            assert(mid.push(version@ + ".crate"@) =~~= seq!["crates"@] + spec_prefix_dirs(name@)
                + seq![name@, version@ + ".crate"@]);
        }
        p
    }

    /// Parses a prior index file; an absent file is an empty index.
    fn parse_prior(prior: Option<&str>) -> (r: Result<Index, IndexOpError>)
        ensures
            match r {
                Ok(idx) => sp_prior(opt_str_view(prior)) == Ok::<Seq<RootV>, int>(idx@)
                    && idx.wf(),
                Err(IndexOpError::Parse { line }) => sp_prior(opt_str_view(prior)) == Err::<
                    Seq<RootV>,
                    int,
                >(line as int),
                Err(IndexOpError::VersionNotFound) => false,
            },
    {
        match prior {
            None => Ok(Index::new()),
            Some(t) => match Index::parse_index(t) {
                Ok(idx) => Ok(idx),
                Err(e) => Err(IndexOpError::Parse { line: e.line }),
            },
        }
    }

    /// Adds an archive: checksums the bytes, extracts and adapts the
    /// manifest, merges the record into the crate's index (overwriting
    /// the same version), and says where the index text and the raw
    /// bytes belong.  The caller writes the index before the archive.
    pub fn add(&self, global: &Global, crate_file: &[u8], prior_index: Option<&str>) -> (r: Result<
        AddOutcome,
        AddError,
    >)
        ensures
            ({
                let mres = sp_manifest_of_bytes(crate_file@);
                let pres = sp_prior(opt_str_view(prior_index));
                match r {
                    Ok(out) => {
                        &&& mres is Ok
                        &&& pres is Ok
                        &&& ({
                            let entry = sp_adapt_manifest(
                                global@,
                                self.config@.base_url,
                                mres->Ok_0,
                                spec_checksum_hex(crate_file@),
                            );
                            &&& out.name@ == entry.name
                            &&& out.vers@ == entry.vers
                            &&& out.index_text@ == index_text(spec_insert(pres->Ok_0, entry))
                            &&& out.index_path.deep_view() == spec_prefix_dirs(entry.name).push(
                                entry.name,
                            )
                            &&& out.crate_path.deep_view() == seq!["crates"@] + spec_prefix_dirs(
                                entry.name,
                            ) + seq![entry.name, entry.vers + ".crate"@]
                        })
                    },
                    Err(e) => match mres {
                        Err(e0) => e == e0,
                        Ok(_) => pres matches Err(l) && e == (AddError::IndexParse {
                            line: l as usize,
                        }),
                    },
                }
            }),
    {
        let cks = checksum_hex(crate_file);
        let manifest_bytes = match extract_root_cargo_toml(crate_file) {
            Ok(Some(b)) => b,
            Ok(None) => {
                return Err(AddError::CargoTomlMissing);
            },
            Err(e) => {
                return Err(AddError::CargoTomlExtract { source: e });
            },
        };
        let manifest_text = match bytes_to_string(manifest_bytes.as_slice()) {
            Some(t) => t,
            None => {
                return Err(AddError::CargoTomlUtf8);
            },
        };
        proof {
            vstd::utf8::encode_utf8_decode_utf8(manifest_text@);
        }
        let doc = match parse_toml(manifest_text.as_str()) {
            Some(d) => d,
            None => {
                return Err(AddError::CargoTomlMalformed);
            },
        };
        let manifest = match parse_manifest(&doc) {
            Ok(m) => m,
            Err(_) => {
                return Err(AddError::CargoTomlMalformed);
            },
        };
        let entry = adapt_cargo_toml_to_index_entry(global, &self.config, manifest, cks);
        let name = entry.name.duplicate();
        let vers = entry.vers.clone();
        let mut idx = match Self::parse_prior(prior_index) {
            Ok(i) => i,
            Err(IndexOpError::Parse { line }) => {
                return Err(AddError::IndexParse { line });
            },
            Err(IndexOpError::VersionNotFound) => {
                return Err(AddError::CargoTomlMalformed);
            },
        };
        idx.insert(entry);
        let index_text_out = idx.write_index();
        let index_path = self.index_file_path_for(&name);
        let crate_path = self.crate_file_path_for(&name, vers.as_str());
        Ok(AddOutcome { name, vers, index_path, index_text: index_text_out, crate_path })
    }

    /// Sets the yanked flag of one version in the crate's index.
    fn set_yanked_op(&self, name: &CrateName, version: &str, prior: Option<&str>, flag: bool)
        -> (r: Result<IndexUpdate, IndexOpError>)
        requires
            name.wf(),
        ensures
            ({
                let pres = sp_prior(opt_str_view(prior));
                match r {
                    Ok(up) => {
                        &&& pres is Ok
                        &&& spec_set_yanked(pres->Ok_0, version@, flag) matches Some(y)
                            && up.index_text@ == index_text(y)
                        &&& up.index_path.deep_view() == spec_prefix_dirs(name@).push(name@)
                    },
                    Err(IndexOpError::VersionNotFound) => pres is Ok && spec_set_yanked(
                        pres->Ok_0,
                        version@,
                        flag,
                    ) is None,
                    Err(IndexOpError::Parse { line }) => pres == Err::<Seq<RootV>, int>(
                        line as int,
                    ),
                }
            }),
    {
        let mut idx = Self::parse_prior(prior)?;
        match idx.set_yanked(version, flag) {
            Ok(()) => Ok(
                IndexUpdate {
                    index_path: self.index_file_path_for(name),
                    index_text: idx.write_index(),
                },
            ),
            Err(_) => Err(IndexOpError::VersionNotFound),
        }
    }

    /// Marks one version yanked: the record stays, only its flag
    /// changes.  Fails when the version is not in the index.
    pub fn yank(&self, name: &CrateName, version: &str, prior: Option<&str>) -> (r: Result<
        IndexUpdate,
        IndexOpError,
    >)
        requires
            name.wf(),
        ensures
            ({
                let pres = sp_prior(opt_str_view(prior));
                match r {
                    Ok(up) => {
                        &&& pres is Ok
                        &&& spec_set_yanked(pres->Ok_0, version@, true) matches Some(y)
                            && up.index_text@ == index_text(y)
                        &&& up.index_path.deep_view() == spec_prefix_dirs(name@).push(name@)
                    },
                    Err(IndexOpError::VersionNotFound) => pres is Ok && spec_set_yanked(
                        pres->Ok_0,
                        version@,
                        true,
                    ) is None,
                    Err(IndexOpError::Parse { line }) => pres == Err::<Seq<RootV>, int>(
                        line as int,
                    ),
                }
            }),
    {
        self.set_yanked_op(name, version, prior, true)
    }

    /// Clears one version's yanked flag.  Fails when the version is
    /// not in the index.
    pub fn unyank(&self, name: &CrateName, version: &str, prior: Option<&str>) -> (r: Result<
        IndexUpdate,
        IndexOpError,
    >)
        requires
            name.wf(),
        ensures
            ({
                let pres = sp_prior(opt_str_view(prior));
                match r {
                    Ok(up) => {
                        &&& pres is Ok
                        &&& spec_set_yanked(pres->Ok_0, version@, false) matches Some(y)
                            && up.index_text@ == index_text(y)
                        &&& up.index_path.deep_view() == spec_prefix_dirs(name@).push(name@)
                    },
                    Err(IndexOpError::VersionNotFound) => pres is Ok && spec_set_yanked(
                        pres->Ok_0,
                        version@,
                        false,
                    ) is None,
                    Err(IndexOpError::Parse { line }) => pres == Err::<Seq<RootV>, int>(
                        line as int,
                    ),
                }
            }),
    {
        self.set_yanked_op(name, version, prior, false)
    }

    /// Deletes one version's record from the crate's index; the index
    /// file persists even when it becomes empty, and the stored
    /// archive is deliberately not touched.  Fails when the version
    /// is not in the index.
    pub fn remove(&self, name: &CrateName, version: &str, prior: Option<&str>) -> (r: Result<
        IndexUpdate,
        IndexOpError,
    >)
        requires
            name.wf(),
        ensures
            ({
                let pres = sp_prior(opt_str_view(prior));
                match r {
                    Ok(up) => {
                        &&& pres is Ok
                        &&& spec_remove(pres->Ok_0, version@) matches Some(y) && up.index_text@
                            == index_text(y)
                        &&& up.index_path.deep_view() == spec_prefix_dirs(name@).push(name@)
                    },
                    Err(IndexOpError::VersionNotFound) => pres is Ok && spec_remove(
                        pres->Ok_0,
                        version@,
                    ) is None,
                    Err(IndexOpError::Parse { line }) => pres == Err::<Seq<RootV>, int>(
                        line as int,
                    ),
                }
            }),
    {
        let mut idx = Self::parse_prior(prior)?;
        match idx.remove(version) {
            Ok(()) => Ok(
                IndexUpdate {
                    index_path: self.index_file_path_for(name),
                    index_text: idx.write_index(),
                },
            ),
            Err(_) => Err(IndexOpError::VersionNotFound),
        }
    }
}

/// A path's last component carries the archive extension: it ends in
/// `.crate` with a non-empty stem.
pub open spec fn has_crate_ext(f: Seq<char>) -> bool {
    let segs = crate::archive::seg_split(f);
    &&& segs.len() > 0
    &&& segs.last().len() > 6
    &&& segs.last().subrange(segs.last().len() - 6, segs.last().len() as int) == ".crate"@
}

/// Path components joined with `/`.
pub open spec fn join_slash(xs: Seq<Seq<char>>) -> Seq<char>
    decreases xs.len(),
{
    if xs.len() == 0 {
        Seq::empty()
    } else if xs.len() == 1 {
        xs[0]
    } else {
        xs[0] + "/"@ + join_slash(xs.skip(1))
    }
}

/// The directory of an archive file, as a path relative to the
/// archive tree: its components without the file name.
pub open spec fn parent_of(f: Seq<char>) -> Seq<char> {
    let segs = crate::archive::seg_split(f);
    if segs.len() == 0 {
        Seq::empty()
    } else {
        join_slash(segs.take(segs.len() - 1))
    }
}

/// Whether `p` stands in the list.
pub open spec fn in_list(r: Seq<Seq<char>>, p: Seq<char>) -> bool {
    exists|k: int| 0 <= k < r.len() && r[k] == p
}

/// Joining one more component appends a slash (except to an empty
/// join) and the component.
proof fn lemma_join_slash_push(xs: Seq<Seq<char>>, y: Seq<char>)
    ensures
        join_slash(xs.push(y)) == join_slash(xs) + (if xs.len() == 0 {
            Seq::<char>::empty()
        } else {
            "/"@
        }) + y,
    decreases xs.len(),
{
    if xs.len() == 0 {
        assert(xs.push(y) =~= seq![y]);
        assert(join_slash(xs) + Seq::<char>::empty() + y =~= y);
    } else {
        lemma_join_slash_push(xs.skip(1), y);
        assert(xs.push(y).skip(1) =~= xs.skip(1).push(y));
        if xs.len() == 1 {
            assert(xs.skip(1).len() == 0);
            assert(join_slash(xs.push(y)) == xs[0] + "/"@ + join_slash(xs.skip(1).push(y)));
            assert(xs[0] + "/"@ + y =~= join_slash(xs) + "/"@ + y);
        } else {
            assert(join_slash(xs.push(y)) == xs[0] + "/"@ + join_slash(xs.skip(1).push(y)));
            assert(xs[0] + "/"@ + (join_slash(xs.skip(1)) + "/"@ + y) =~= (xs[0] + "/"@
                + join_slash(xs.skip(1))) + "/"@ + y);
        }
    }
}

/// Whether the path's last component ends in `.crate` with a
/// non-empty stem, exactly `has_crate_ext`.
fn crate_ext_at(f: &str) -> (r: bool)
    ensures
        r == has_crate_ext(f@),
{
    let segs = crate::archive::split_segments(f);
    if segs.len() == 0 {
        return false;
    }
    let last: &String = &segs[segs.len() - 1];
    let n = last.as_str().unicode_len();
    proof {
        assert(segs.deep_view()[segs@.len() - 1] == segs@[segs@.len() - 1]@);
        assert(crate::archive::seg_split(f@).last() == last@);
        reveal_strlit(".crate");
    }
    if n <= 6 {
        return false;
    }
    let s = last.as_str();
    let r = s.get_char(n - 6) == '.' && s.get_char(n - 5) == 'c' && s.get_char(n - 4) == 'r'
        && s.get_char(n - 3) == 'a' && s.get_char(n - 2) == 't' && s.get_char(n - 1) == 'e';
    proof {
        let sv = last@;
        if r {
            assert(sv.subrange(sv.len() - 6, sv.len() as int) =~= ".crate"@);
        } else {
            if sv.subrange(sv.len() - 6, sv.len() as int) == ".crate"@ {
                assert(sv.subrange(sv.len() - 6, sv.len() as int)[0] == sv[sv.len() - 6]);
                assert(sv.subrange(sv.len() - 6, sv.len() as int)[1] == sv[sv.len() - 5]);
                assert(sv.subrange(sv.len() - 6, sv.len() as int)[2] == sv[sv.len() - 4]);
                assert(sv.subrange(sv.len() - 6, sv.len() as int)[3] == sv[sv.len() - 3]);
                assert(sv.subrange(sv.len() - 6, sv.len() as int)[4] == sv[sv.len() - 2]);
                assert(sv.subrange(sv.len() - 6, sv.len() as int)[5] == sv[sv.len() - 1]);
            }
        }
    }
    r
}

/// The directory part of an archive path, joined with `/`, exactly
/// `parent_of`.
fn parent_path(f: &str) -> (r: String)
    ensures
        r@ == parent_of(f@),
{
    let segs = crate::archive::split_segments(f);
    let ghost sv = crate::archive::seg_split(f@);
    let mut out = String::new();
    let m = if segs.len() == 0 { 0 } else { segs.len() - 1 };
    let mut i: usize = 0;
    proof {
        assert(sv.take(0) =~= Seq::<Seq<char>>::empty());
    }
    while i < m
        invariant
            segs.deep_view() == sv,
            m == (if sv.len() == 0 { 0int } else { sv.len() - 1 }),
            0 <= i <= m,
            out@ == join_slash(sv.take(i as int)),
        decreases m - i,
    {
        proof { reveal_strlit("/"); }
        if i > 0 {
            out.append("/");
        }
        out.append(segs[i].as_str());
        proof {
            assert(segs.deep_view()[i as int] == segs@[i as int]@);
            assert(sv.take(i as int).push(sv[i as int]) =~= sv.take(i as int + 1));
            lemma_join_slash_push(sv.take(i as int), sv[i as int]);
            assert(out@ =~= join_slash(sv.take(i as int + 1)));
        }
        i += 1;
    }
    proof {
        if sv.len() > 0 {
            assert(sv.take(m as int) =~= sv.take(sv.len() - 1));
        }
    }
    out
}

impl Registry {
    /// Maps discovered archive files back to their index files: for
    /// each path (relative to the archive tree) that carries the
    /// archive extension, its directory — deduplicated, in ascending
    /// order.  Multiple versions of one crate share one index file.
    pub fn list_index_files(&self, files: &Vec<String>) -> (r: Vec<String>)
        ensures
            forall|i: int, j: int|
                0 <= i < j < r@.len() ==> lex_lt(
                    #[trigger] r.deep_view()[i],
                    #[trigger] r.deep_view()[j],
                ),
            forall|p: Seq<char>|
                in_list(r.deep_view(), p) <==> (exists|k: int|
                    0 <= k < files@.len() && has_crate_ext(#[trigger] files.deep_view()[k])
                        && parent_of(files.deep_view()[k]) == p),
    {
        let n = files.len();
        let mut out: Vec<String> = Vec::new();
        let mut i: usize = 0;
        while i < n
            invariant
                n == files@.len(),
                0 <= i <= n,
                forall|a: int, b: int|
                    0 <= a < b < out@.len() ==> lex_lt(
                        #[trigger] out.deep_view()[a],
                        #[trigger] out.deep_view()[b],
                    ),
                forall|p: Seq<char>|
                    in_list(out.deep_view(), p) <==> (exists|k: int|
                        0 <= k < i && has_crate_ext(#[trigger] files.deep_view()[k]) && parent_of(
                            files.deep_view()[k],
                        ) == p),
            decreases n - i,
        {
            proof {
                assert(files.deep_view()[i as int] == files@[i as int]@);
            }
            let ghost before = out.deep_view();
            if crate_ext_at(files[i].as_str()) {
                let q = parent_path(files[i].as_str());
                let m = out.len();
                let mut p: usize = 0;
                loop
                    invariant
                        m == out@.len(),
                        before == out.deep_view(),
                        0 <= p <= m,
                        forall|a: int|
                            0 <= a < p ==> lex_lt(#[trigger] out.deep_view()[a], q@),
                    ensures
                        0 <= p <= m,
                        before == out.deep_view(),
                        forall|a: int|
                            0 <= a < p ==> lex_lt(#[trigger] out.deep_view()[a], q@),
                        p < m ==> !lex_lt(out.deep_view()[p as int], q@),
                    decreases m - p,
                {
                    if p >= m {
                        break;
                    }
                    proof {
                        assert(out.deep_view()[p as int] == out@[p as int]@);
                    }
                    if !str_lt(out[p].as_str(), q.as_str()) {
                        break;
                    }
                    p += 1;
                }
                let dup = if p < out.len() {
                    proof {
                        assert(out.deep_view()[p as int] == out@[p as int]@);
                    }
                    str_eq(out[p].as_str(), q.as_str())
                } else {
                    false
                };
                if !dup {
                    let ghost qv = q@;
                    out.insert(p, q);
                    proof {
                        assert(out.deep_view() =~~= before.take(p as int).push(qv) + before.skip(
                            p as int,
                        ));
                        let now = out.deep_view();
                        assert(now.len() == before.len() + 1);
                        assert forall|a: int| 0 <= a < now.len() implies (a < p ==> now[a]
                            == before[a]) && (a == p ==> now[a] == qv) && (a > p ==> now[a]
                            == before[a - 1]) by {}
                        assert forall|a: int, b: int| 0 <= a < b < now.len() implies lex_lt(
                            (#[trigger] now[a]),
                            (#[trigger] now[b]),
                        ) by {
                            if a < p && b < p {
                            } else if a == p && b > p {
                                assert(now[b] == before[b - 1]);
                                assert(!lex_lt(before[p as int], qv));
                                assert(before[p as int] != qv);
                                assert(lex_lt(qv, before[p as int])) by {
                                    crate::strs::lemma_lex_total(qv, before[p as int]);
                                }
                                if b - 1 > p {
                                    assert(lex_lt(before[p as int], before[b - 1]));
                                    crate::strs::lemma_lex_trans(
                                        qv,
                                        before[p as int],
                                        before[b - 1],
                                    );
                                    assert(lex_lt(qv, before[b - 1])) by {
                                        if qv == before[b - 1] {
                                            crate::strs::lemma_lex_antisym(
                                                qv,
                                                before[p as int],
                                            );
                                        }
                                    }
                                }
                            } else if a < p && b == p {
                            } else if a < p && b > p {
                                if b - 1 > a {
                                } else {
                                    assert(lex_lt(now[a], qv));
                                    assert(lex_lt(qv, before[p as int])) by {
                                        crate::strs::lemma_lex_total(qv, before[p as int]);
                                    }
                                }
                            } else {
                                assert(now[a] == before[a - 1] && now[b] == before[b - 1]);
                            }
                        }
                        assert forall|x: Seq<char>| in_list(now, x) implies (in_list(before, x)
                            || x == qv) by {
                            let k = choose|k: int| 0 <= k < now.len() && now[k] == x;
                            if k < p {
                                assert(before[k] == x);
                            } else if k > p {
                                assert(before[k - 1] == x);
                            }
                        }
                        assert forall|x: Seq<char>| in_list(before, x) || x == qv implies in_list(
                            now,
                            x,
                        ) by {
                            if in_list(before, x) {
                                let k = choose|k: int| 0 <= k < before.len() && before[k] == x;
                                if k < p {
                                    assert(now[k] == x);
                                } else {
                                    assert(now[k + 1] == x);
                                }
                            } else {
                                assert(now[p as int] == x);
                            }
                        }
                    }
                } else {
                    proof {
                        assert(in_list(before, q@)) by {
                            assert(out.deep_view()[p as int] == q@);
                        }
                    }
                }
                proof {
                    assert(parent_of(files.deep_view()[i as int]) == q@);
                    assert forall|x: Seq<char>| in_list(out.deep_view(), x) implies (exists|k: int|
                        0 <= k < i + 1 && has_crate_ext(#[trigger] files.deep_view()[k])
                            && parent_of(files.deep_view()[k]) == x) by {
                        if x == q@ {
                            assert(has_crate_ext(files.deep_view()[i as int]));
                        } else {
                            assert(in_list(before, x));
                        }
                    }
                    assert forall|x: Seq<char>| (exists|k: int|
                        0 <= k < i + 1 && has_crate_ext(#[trigger] files.deep_view()[k])
                            && parent_of(files.deep_view()[k]) == x) implies in_list(
                        out.deep_view(),
                        x,
                    ) by {
                        let k = choose|k: int|
                            0 <= k < i + 1 && has_crate_ext(#[trigger] files.deep_view()[k])
                                && parent_of(files.deep_view()[k]) == x;
                        if k < i {
                            assert(in_list(before, x));
                        }
                    }
                }
            } else {
                proof {
                    assert forall|x: Seq<char>| in_list(out.deep_view(), x) implies (exists|k: int|
                        0 <= k < i + 1 && has_crate_ext(#[trigger] files.deep_view()[k])
                            && parent_of(files.deep_view()[k]) == x) by {}
                    assert forall|x: Seq<char>| (exists|k: int|
                        0 <= k < i + 1 && has_crate_ext(#[trigger] files.deep_view()[k])
                            && parent_of(files.deep_view()[k]) == x) implies in_list(
                        out.deep_view(),
                        x,
                    ) by {
                        let k = choose|k: int|
                            0 <= k < i + 1 && has_crate_ext(#[trigger] files.deep_view()[k])
                                && parent_of(files.deep_view()[k]) == x;
                        assert(k < i);
                    }
                }
            }
            i += 1;
        }
        out
    }
}

/// The full in-memory snapshot: every crate's index, keyed by name in
/// ascending order.
#[derive(Debug)]
pub struct ListAll {
    items: Vec<(CrateName, Index)>,
}

impl View for ListAll {
    type V = Seq<(Seq<char>, Seq<RootV>)>;

    closed spec fn view(&self) -> Seq<(Seq<char>, Seq<RootV>)> {
        self.items.deep_view()
    }
}

impl ListAll {
    /// Keys are strictly ascending, so each crate appears once.
    pub open spec fn wf(&self) -> bool {
        forall|i: int, j: int|
            0 <= i < j < self@.len() ==> lex_lt(#[trigger] self@[i].0, #[trigger] self@[j].0)
    }

    /// How many crates the snapshot holds.
    pub fn len(&self) -> (r: usize)
        ensures
            r == self@.len(),
    {
        self.items.len()
    }

    /// The name at one position.
    pub fn key_at(&self, i: usize) -> (r: &CrateName)
        requires
            i < self@.len(),
        ensures
            r@ == self@[i as int].0,
    {
        &self.items[i].0
    }

    /// The index at one position.
    pub fn index_at(&self, i: usize) -> (r: &Index)
        requires
            i < self@.len(),
        ensures
            r@ == self@[i as int].1,
    {
        &self.items[i].1
    }

    /// The index of the named crate, if the snapshot holds it.
    pub fn get(&self, name: &str) -> (r: Option<&Index>)
        ensures
            match r {
                Some(idx) => exists|j: int|
                    0 <= j < self@.len() && (#[trigger] self@[j]).0 == name@ && self@[j].1 == idx@,
                None => forall|j: int| 0 <= j < self@.len() ==> (#[trigger] self@[j]).0 != name@,
            },
    {
        let n = self.items.len();
        let mut i: usize = 0;
        while i < n
            invariant
                n == self@.len(),
                0 <= i <= n,
                forall|j: int| 0 <= j < i ==> (#[trigger] self@[j]).0 != name@,
            decreases n - i,
        {
            proof {
                assert(self@[i as int].0 == self.items@[i as int].0@);
                assert(self@[i as int].1 == self.items@[i as int].1@);
            }
            if str_eq(self.items[i].0.as_str(), name) {
                return Some(&self.items[i].1);
            }
            i += 1;
        }
        None
    }
}

/// A pair stands in the snapshot sequence.
pub open spec fn pair_in(s: Seq<(Seq<char>, Seq<RootV>)>, x: (Seq<char>, Seq<RootV>)) -> bool {
    exists|k: int| 0 <= k < s.len() && s[k] == x
}

/// A key stands in the snapshot sequence.
pub open spec fn key_in(s: Seq<(Seq<char>, Seq<RootV>)>, k: Seq<char>) -> bool {
    exists|j: int| 0 <= j < s.len() && (#[trigger] s[j]).0 == k
}

/// The pair is one non-empty input index among the first `n`, keyed
/// by its first record's name.
pub open spec fn la_pair_from(
    x: (Seq<char>, Seq<RootV>),
    ixs: Seq<Seq<RootV>>,
    n: int,
) -> bool {
    exists|k: int| 0 <= k < n && (#[trigger] ixs[k]).len() > 0 && x == (ixs[k][0].name, ixs[k])
}

/// Every snapshot pair comes from a non-empty input index.
pub open spec fn la_from_inputs(
    s: Seq<(Seq<char>, Seq<RootV>)>,
    ixs: Seq<Seq<RootV>>,
    n: int,
) -> bool {
    forall|j: int| 0 <= j < s.len() ==> #[trigger] la_pair_from(s[j], ixs, n)
}

/// A snapshot drawn from the first inputs is also drawn from a longer
/// prefix of them.
proof fn lemma_la_from_inputs_mono(
    s: Seq<(Seq<char>, Seq<RootV>)>,
    ixs: Seq<Seq<RootV>>,
    n1: int,
    n2: int,
)
    requires
        la_from_inputs(s, ixs, n1),
        0 <= n1 <= n2,
    ensures
        la_from_inputs(s, ixs, n2),
{
    assert forall|j: int| 0 <= j < s.len() implies #[trigger] la_pair_from(s[j], ixs, n2) by {
        assert(la_pair_from(s[j], ixs, n1));
        let k0 = choose|k: int|
            0 <= k < n1 && (#[trigger] ixs[k]).len() > 0 && s[j] == (ixs[k][0].name, ixs[k]);
        assert(0 <= k0 < n2 && ixs[k0].len() > 0 && s[j] == (ixs[k0][0].name, ixs[k0]));
    }
}

/// Inserting the pair of input `i` extends the drawn-from argument by
/// one input.
proof fn lemma_la_from_inputs_step(
    before: Seq<(Seq<char>, Seq<RootV>)>,
    now: Seq<(Seq<char>, Seq<RootV>)>,
    ixs: Seq<Seq<RootV>>,
    i: int,
    kv: Seq<char>,
    iv: Seq<RootV>,
)
    requires
        la_from_inputs(before, ixs, i),
        0 <= i < ixs.len(),
        ixs[i].len() > 0,
        kv == ixs[i][0].name,
        iv == ixs[i],
        forall|j: int|
            0 <= j < now.len() ==> (#[trigger] now[j]) == (kv, iv) || pair_in(before, now[j]),
    ensures
        la_from_inputs(now, ixs, i + 1),
{
    assert forall|j: int| 0 <= j < now.len() implies #[trigger] la_pair_from(now[j], ixs, i + 1)
    by {
        if now[j] == (kv, iv) {
            assert(0 <= i < i + 1 && ixs[i].len() > 0 && now[j] == (ixs[i][0].name, ixs[i]));
        } else {
            assert(pair_in(before, now[j]));
            let a = choose|a: int| 0 <= a < before.len() && before[a] == now[j];
            assert(la_pair_from(before[a], ixs, i));
            let k0 = choose|k: int|
                0 <= k < i && (#[trigger] ixs[k]).len() > 0 && before[a] == (
                    ixs[k][0].name,
                    ixs[k],
                );
            assert(0 <= k0 < i + 1 && ixs[k0].len() > 0 && now[j] == (ixs[k0][0].name, ixs[k0]));
        }
    }
}

/// Every non-empty input index's key stands in the snapshot.
pub open spec fn la_covers(s: Seq<(Seq<char>, Seq<RootV>)>, ixs: Seq<Seq<RootV>>, n: int) -> bool {
    forall|k: int|
        0 <= k < n && (#[trigger] ixs[k]).len() > 0 ==> key_in(s, ixs[k][0].name)
}

/// Keys are strictly ascending.
pub open spec fn la_sorted(s: Seq<(Seq<char>, Seq<RootV>)>) -> bool {
    forall|i: int, j: int| 0 <= i < j < s.len() ==> lex_lt(#[trigger] s[i].0, #[trigger] s[j].0)
}

/// Inserting a keyed pair at its scan position keeps the keys sorted,
/// adds exactly that pair, and keeps every old key.
proof fn lemma_la_insert(
    before: Seq<(Seq<char>, Seq<RootV>)>,
    kv: Seq<char>,
    iv: Seq<RootV>,
    p: int,
    dup: bool,
    now: Seq<(Seq<char>, Seq<RootV>)>,
)
    requires
        0 <= p <= before.len(),
        la_sorted(before),
        forall|a: int| 0 <= a < p ==> lex_lt((#[trigger] before[a]).0, kv),
        p < before.len() ==> !lex_lt(before[p].0, kv),
        dup <==> (p < before.len() && before[p].0 == kv),
        now == (if dup {
            before.take(p).push((kv, iv)) + before.skip(p + 1)
        } else {
            before.take(p).push((kv, iv)) + before.skip(p)
        }),
    ensures
        la_sorted(now),
        0 <= p < now.len() && now[p] == (kv, iv),
        forall|j: int|
            0 <= j < now.len() ==> (#[trigger] now[j]) == (kv, iv) || pair_in(before, now[j]),
        forall|a: int| 0 <= a < before.len() ==> key_in(now, (#[trigger] before[a]).0),
{
    if p < before.len() && !dup {
        assert(before[p].0 != kv);
        assert(lex_lt(kv, before[p].0)) by {
            crate::strs::lemma_lex_total(kv, before[p].0);
        }
    }
    assert forall|a: int| 0 <= a < now.len() implies (a < p ==> (#[trigger] now[a]) == before[a])
        && (a == p ==> now[a] == (kv, iv)) && (a > p ==> now[a] == before[
        a - (if dup { 0int } else { 1int })
    ]) by {}
    assert forall|a: int, b: int| 0 <= a < b < now.len() implies lex_lt(
        (#[trigger] now[a]).0,
        (#[trigger] now[b]).0,
    ) by {
        let a2 = a - (if dup { 0int } else { 1int });
        let b2 = b - (if dup { 0int } else { 1int });
        if a < p && b < p {
        } else if a < p && b == p {
        } else if a == p && b > p {
            assert(now[b] == before[b2]);
            assert(b2 >= p);
            if dup {
                assert(b2 > p);
                assert(lex_lt(before[p].0, before[b2].0));
                assert(lex_lt(kv, before[b2].0));
            } else {
                assert(lex_lt(kv, before[p].0));
                if b2 > p {
                    assert(lex_lt(before[p].0, before[b2].0));
                    crate::strs::lemma_lex_trans(kv, before[p].0, before[b2].0);
                    assert(lex_lt(kv, before[b2].0)) by {
                        if kv == before[b2].0 {
                            crate::strs::lemma_lex_antisym(kv, before[p].0);
                        }
                    }
                }
            }
        } else if a < p && b > p {
            assert(now[a] == before[a] && now[b] == before[b2]);
            if a < b2 {
            } else {
                assert(a == b2);
                assert(lex_lt(before[a].0, kv));
                assert(!dup);
                assert(lex_lt(kv, before[p].0));
                assert(a < p);
                assert(b2 >= p);
                assert(false);
            }
        } else {
            assert(a > p && b > p);
            assert(now[a] == before[a2] && now[b] == before[b2]);
        }
    }
    assert forall|j: int| 0 <= j < now.len() implies (#[trigger] now[j]) == (kv, iv) || pair_in(
        before,
        now[j],
    ) by {
        if j < p {
            assert(before[j] == now[j]);
        } else if j > p {
            let j2 = j - (if dup { 0int } else { 1int });
            assert(before[j2] == now[j]);
        }
    }
    assert forall|a: int| 0 <= a < before.len() implies key_in(now, (#[trigger] before[a]).0) by {
        if a < p {
            assert(now[a].0 == before[a].0);
        } else if dup && a == p {
            assert(now[p].0 == kv);
            assert(before[p].0 == kv);
        } else {
            let j = a + (if dup { 0int } else { 1int });
            assert(now[j].0 == before[a].0);
        }
    }
}

/// Assembles the snapshot from parsed indexes: each non-empty index
/// is keyed by its first record's name; empty indexes are skipped;
/// keys come out in ascending order, and a later index with the same
/// key replaces an earlier one.
pub fn list_all_from(indexes: Vec<Index>) -> (r: ListAll)
    ensures
        r.wf(),
        la_from_inputs(r@, indexes.deep_view(), indexes.deep_view().len() as int),
        la_covers(r@, indexes.deep_view(), indexes.deep_view().len() as int),
{
    let ghost ixs = indexes.deep_view();
    let n = indexes.len();
    let mut rest = indexes;
    let mut out = ListAll { items: Vec::new() };
    let mut i: usize = 0;
    proof {
        assert(out@ =~= Seq::<(Seq<char>, Seq<RootV>)>::empty());
        assert(la_from_inputs(out@, ixs, 0));
    }
    while i < n
        invariant
            n == ixs.len(),
            0 <= i <= n,
            rest@.len() == n - i,
            forall|k: int| 0 <= k < rest@.len() ==> (#[trigger] rest@[k])@ == ixs[i + k],
            la_sorted(out@),
            la_from_inputs(out@, ixs, i as int),
            la_covers(out@, ixs, i as int),
        decreases n - i,
    {
        let ghost rin0 = rest@;
        proof {
            assert(rin0[0]@ == ixs[i as int]);
        }
        let idx = rest.remove(0);
        proof {
            assert forall|k: int| 0 <= k < rest@.len() implies (#[trigger] rest@[k])@ == ixs[
                i + 1 + k
            ] by {
                assert(rest@[k] == rin0[k + 1]);
            }
        }
        let ghost before = out@;
        if idx.len() > 0 {
            let key: CrateName = {
                let recs = idx.records();
                proof {
                    assert(recs.deep_view()[0] == recs@[0]@);
                }
                recs[0].name.duplicate()
            };
            proof {
                assert(key@ == ixs[i as int][0].name);
            }
            let ghost kv = key@;
            let ghost iv = idx@;
            let m = out.items.len();
            let mut p: usize = 0;
            loop
                invariant
                    m == out@.len(),
                    before == out@,
                    kv == key@,
                    0 <= p <= m,
                    forall|a: int| 0 <= a < p ==> lex_lt((#[trigger] out@[a]).0, kv),
                ensures
                    0 <= p <= m,
                    before == out@,
                    forall|a: int| 0 <= a < p ==> lex_lt((#[trigger] out@[a]).0, kv),
                    p < m ==> !lex_lt(out@[p as int].0, kv),
                decreases m - p,
            {
                if p >= m {
                    break;
                }
                proof {
                    assert(out@[p as int].0 == out.items@[p as int].0@);
                }
                if !str_lt(out.items[p].0.as_str(), key.as_str()) {
                    break;
                }
                p += 1;
            }
            let dup = if p < out.items.len() {
                proof {
                    assert(out@[p as int].0 == out.items@[p as int].0@);
                }
                str_eq(out.items[p].0.as_str(), key.as_str())
            } else {
                false
            };
            if dup {
                let _old = out.items.remove(p);
                out.items.insert(p, (key, idx));
            } else {
                out.items.insert(p, (key, idx));
            }
            proof {
                if dup {
                    assert(out@ =~~= before.take(p as int).push((kv, iv)) + before.skip(
                        p as int + 1,
                    ));
                } else {
                    assert(out@ =~~= before.take(p as int).push((kv, iv)) + before.skip(p as int));
                }
                lemma_la_insert(before, kv, iv, p as int, dup, out@);
                lemma_la_from_inputs_step(before, out@, ixs, i as int, kv, iv);
                assert forall|k: int| 0 <= k < i + 1 && (#[trigger] ixs[k]).len() > 0 implies
                    key_in(out@, ixs[k][0].name) by {
                    if k == i {
                        assert(out@[p as int].0 == kv);
                    } else {
                        assert(key_in(before, ixs[k][0].name));
                        let j0 = choose|j: int|
                            0 <= j < before.len() && (#[trigger] before[j]).0 == ixs[k][0].name;
                        assert(key_in(out@, before[j0].0));
                    }
                }
                assert(la_covers(out@, ixs, i as int + 1));
            }
        } else {
            proof {
                lemma_la_from_inputs_mono(out@, ixs, i as int, i as int + 1);
                assert forall|k: int| 0 <= k < i + 1 && (#[trigger] ixs[k]).len() > 0 implies
                    key_in(out@, ixs[k][0].name) by {
                    assert(k < i);
                    assert(key_in(out@, ixs[k][0].name));
                }
                assert(la_covers(out@, ixs, i as int + 1));
            }
        }
        i += 1;
    }
    out
}

} // verus!
