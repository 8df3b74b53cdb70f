//! What the view reads of `cargo metadata`.

use vstd::prelude::*;

verus! {

/// The kind of a dependency edge.
#[derive(Clone, Copy, PartialEq, Eq, Structural, Debug)]
pub enum DependencyKind {
    Normal,
    Development,
    Build,
    Unknown,
}

/// A dependency as the manifest of a package declares it.
#[derive(Debug, PartialEq, Eq)]
pub struct Dependency {
    pub name: String,
    /// The name that it goes by in this package, where it is not its own.
    pub rename: Option<String>,
    pub optional: bool,
}

/// What a target is built as, as far as the view tells targets apart.
#[derive(Clone, Copy, PartialEq, Eq, Structural, Debug)]
pub enum TargetKind {
    Bin,
    CustomBuild,
    Other,
}

/// One target of a package.
#[derive(Debug, PartialEq, Eq)]
pub struct Target {
    pub name: String,
    pub kind: Vec<TargetKind>,
}

/// One package of the graph.
#[derive(Debug, PartialEq, Eq)]
pub struct Package {
    pub id: String,
    pub name: String,
    pub version: String,
    pub dependencies: Vec<Dependency>,
}

/// One dependency of a resolved node.
#[derive(Debug, PartialEq, Eq)]
pub struct NodeDep {
    pub name: String,
    pub pkg: String,
    pub dep_kinds: Vec<DependencyKind>,
}

/// A package in the resolved graph, with the features that are on.
#[derive(Debug, PartialEq, Eq)]
pub struct Node {
    pub id: String,
    pub deps: Vec<NodeDep>,
    pub features: Vec<String>,
}

/// The resolved dependency graph.
#[derive(Debug, PartialEq, Eq)]
pub struct Resolve {
    pub nodes: Vec<Node>,
    pub root: Option<String>,
}

/// The package at the root of the workspace.
#[derive(Debug, PartialEq, Eq)]
pub struct RootPackage {
    pub name: String,
    pub targets: Vec<Target>,
    /// The binary that `cargo run` runs where nothing else says which.
    pub default_run: Option<String>,
}

/// The output of `cargo metadata`.
#[derive(Debug, PartialEq, Eq)]
pub struct Metadata {
    pub packages: Vec<Package>,
    pub workspace_members: Vec<String>,
    pub resolve: Option<Resolve>,
    pub root_package: Option<RootPackage>,
    pub target_directory: String,
}

} // verus!
