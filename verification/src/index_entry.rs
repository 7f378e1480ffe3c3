//! One index record: everything published about one version of one
//! crate, as it stands on one line of the crate's index file.

use vstd::prelude::*;
use crate::name::CrateName;

verus! {

/// How a dependency is used by the depending crate.
#[derive(Debug, Clone, Copy, PartialEq, Eq, Structural)]
pub enum DependencyKind {
    /// Stored in the index, but never produced by this registry's adapter.
    Dev,
    Build,
    Normal,
}

/// One declared dependency of a published version.
#[derive(Debug)]
pub struct Dependency {
    /// Name the depending crate uses (the rename, if renamed).
    pub name: String,
    /// The version requirement string.
    pub req: String,
    /// Features enabled for this dependency.
    pub features: Vec<String>,
    /// Whether the dependency is optional.
    pub optional: bool,
    /// Whether default features are enabled.
    pub default_features: bool,
    /// Target-cfg string the dependency is restricted to, if any.
    pub target: Option<String>,
    /// The dependency kind.
    pub kind: DependencyKind,
    /// Index URL of the registry the dependency comes from; absent
    /// means "this registry".
    pub registry: Option<String>,
    /// The original package name, if the dependency is renamed.
    pub package: Option<String>,
}

/// The mathematical value of a `Dependency`.
#[verifier::ext_equal]
pub struct DepV {
    pub name: Seq<char>,
    pub req: Seq<char>,
    pub features: Seq<Seq<char>>,
    pub optional: bool,
    pub default_features: bool,
    pub target: Option<Seq<char>>,
    pub kind: DependencyKind,
    pub registry: Option<Seq<char>>,
    pub package: Option<Seq<char>>,
}

/// The view of an optional string.
pub open spec fn opt_view(o: Option<String>) -> Option<Seq<char>> {
    match o {
        Some(s) => Some(s@),
        None => None,
    }
}

impl View for Dependency {
    type V = DepV;

    open spec fn view(&self) -> DepV {
        DepV {
            name: self.name@,
            req: self.req@,
            features: self.features.deep_view(),
            optional: self.optional,
            default_features: self.default_features,
            target: opt_view(self.target),
            kind: self.kind,
            registry: opt_view(self.registry),
            package: opt_view(self.package),
        }
    }
}

/// One published version of one crate.  Serialized as one JSON object
/// on one line of the crate's index file.
#[derive(Debug)]
pub struct Root {
    /// The name of the package.
    pub name: CrateName,
    /// The version this record describes.
    pub vers: String,
    /// Direct dependencies of the package.
    pub deps: Vec<Dependency>,
    /// Hex SHA-256 checksum of the stored archive.
    pub cksum: String,
    /// Features defined by the package, each naming what it enables.
    pub features: Vec<(String, Vec<String>)>,
    /// Whether this version has been yanked.
    pub yanked: bool,
    /// The `links` value from the package's manifest, if any.
    pub links: Option<String>,
    /// The schema version of this record.
    pub v: u32,
    /// Features with extended syntax.  This registry folds everything
    /// into `features` and keeps this map empty.
    pub features2: Vec<(String, Vec<String>)>,
    /// The minimal supported toolchain version, if declared.
    pub rust_version: Option<String>,
}

/// The mathematical value of a `Root`.
#[verifier::ext_equal]
pub struct RootV {
    pub name: Seq<char>,
    pub vers: Seq<char>,
    pub deps: Seq<DepV>,
    pub cksum: Seq<char>,
    pub features: Seq<(Seq<char>, Seq<Seq<char>>)>,
    pub yanked: bool,
    pub links: Option<Seq<char>>,
    pub v: u32,
    pub features2: Seq<(Seq<char>, Seq<Seq<char>>)>,
    pub rust_version: Option<Seq<char>>,
}

/// The view of a feature map held as key/value pairs.
pub open spec fn fmap_view(m: Seq<(String, Vec<String>)>) -> Seq<(Seq<char>, Seq<Seq<char>>)> {
    Seq::new(m.len(), |i: int| (m[i].0@, m[i].1.deep_view()))
}

impl View for Root {
    type V = RootV;

    open spec fn view(&self) -> RootV {
        RootV {
            name: self.name@,
            vers: self.vers@,
            deps: self.deps.deep_view(),
            cksum: self.cksum@,
            features: fmap_view(self.features@),
            yanked: self.yanked,
            links: opt_view(self.links),
            v: self.v,
            features2: fmap_view(self.features2@),
            rust_version: opt_view(self.rust_version),
        }
    }
}

impl DeepView for Dependency {
    type V = DepV;

    open spec fn deep_view(&self) -> DepV {
        self.view()
    }
}

impl DeepView for Root {
    type V = RootV;

    open spec fn deep_view(&self) -> RootV {
        self.view()
    }
}

} // verus!
