//! The resolved dependency graph as it is handed in, one snapshot or several merged into one.

use vstd::prelude::*;
use crate::text::{clone_optional, clone_strings};

verus! {

/// An opaque token that names one resolved package instance.
#[derive(Debug, PartialEq, Eq, Hash)]
pub struct PackageId {
    pub repr: String,
}

impl View for PackageId {
    type V = Seq<char>;

    open spec fn view(&self) -> Seq<char> {
        self.repr@
    }
}

impl DeepView for PackageId {
    type V = Seq<char>;

    open spec fn deep_view(&self) -> Seq<char> {
        self.repr@
    }
}

impl Clone for PackageId {
    fn clone(&self) -> (r: Self)
        ensures
            r@ == self@,
    {
        PackageId { repr: self.repr.clone() }
    }
}

/// A copy of a list of identifiers.
pub fn clone_ids(v: &Vec<PackageId>) -> (r: Vec<PackageId>)
    ensures
        r.deep_view() == v.deep_view(),
{
    let r = v.clone();
    assert(r.deep_view() =~= v.deep_view());
    r
}

/// What a declared dependency is needed for.
#[derive(Clone, Copy, Debug, PartialEq, Eq, Structural)]
pub enum DependencyKind {
    Normal,
    Development,
    Build,
    Unknown,
}

/// A dependency requirement as a manifest declares it.
#[derive(Debug, PartialEq, Eq)]
pub struct Dependency {
    pub name: String,
    pub source: Option<String>,
    pub req: String,
    pub kind: DependencyKind,
    pub optional: bool,
    pub uses_default_features: bool,
    pub features: Vec<String>,
    pub target: Option<String>,
    pub rename: Option<String>,
}

pub struct DependencyView {
    pub name: Seq<char>,
    pub source: Option<Seq<char>>,
    pub req: Seq<char>,
    pub kind: DependencyKind,
    pub optional: bool,
    pub uses_default_features: bool,
    pub features: Seq<Seq<char>>,
    pub target: Option<Seq<char>>,
    pub rename: Option<Seq<char>>,
}

impl DeepView for Dependency {
    type V = DependencyView;

    open spec fn deep_view(&self) -> DependencyView {
        DependencyView {
            name: self.name@,
            source: self.source.deep_view(),
            req: self.req@,
            kind: self.kind,
            optional: self.optional,
            uses_default_features: self.uses_default_features,
            features: self.features.deep_view(),
            target: self.target.deep_view(),
            rename: self.rename.deep_view(),
        }
    }
}

impl View for Dependency {
    type V = DependencyView;

    open spec fn view(&self) -> DependencyView {
        self.deep_view()
    }
}

impl Clone for Dependency {
    fn clone(&self) -> (r: Self)
        ensures
            r@ == self@,
    {
        Dependency {
            name: self.name.clone(),
            source: clone_optional(&self.source),
            req: self.req.clone(),
            kind: self.kind,
            optional: self.optional,
            uses_default_features: self.uses_default_features,
            features: clone_strings(&self.features),
            target: clone_optional(&self.target),
            rename: clone_optional(&self.rename),
        }
    }
}

/// One compilation target of a package.
#[derive(Debug, PartialEq, Eq)]
pub struct Target {
    pub name: String,
    pub kind: Vec<String>,
    pub crate_types: Vec<String>,
    pub src_path: String,
}

pub struct TargetView {
    pub name: Seq<char>,
    pub kind: Seq<Seq<char>>,
    pub crate_types: Seq<Seq<char>>,
    pub src_path: Seq<char>,
}

impl DeepView for Target {
    type V = TargetView;

    open spec fn deep_view(&self) -> TargetView {
        TargetView {
            name: self.name@,
            kind: self.kind.deep_view(),
            crate_types: self.crate_types.deep_view(),
            src_path: self.src_path@,
        }
    }
}

impl View for Target {
    type V = TargetView;

    open spec fn view(&self) -> TargetView {
        self.deep_view()
    }
}

impl Clone for Target {
    fn clone(&self) -> (r: Self)
        ensures
            r@ == self@,
    {
        Target {
            name: self.name.clone(),
            kind: clone_strings(&self.kind),
            crate_types: clone_strings(&self.crate_types),
            src_path: self.src_path.clone(),
        }
    }
}

/// A feature of a package with the features it switches on.
#[derive(Debug, PartialEq, Eq)]
pub struct FeatureRule {
    pub name: String,
    pub enables: Vec<String>,
}

impl DeepView for FeatureRule {
    type V = (Seq<char>, Seq<Seq<char>>);

    open spec fn deep_view(&self) -> (Seq<char>, Seq<Seq<char>>) {
        (self.name@, self.enables.deep_view())
    }
}

impl View for FeatureRule {
    type V = (Seq<char>, Seq<Seq<char>>);

    open spec fn view(&self) -> (Seq<char>, Seq<Seq<char>>) {
        self.deep_view()
    }
}

impl Clone for FeatureRule {
    fn clone(&self) -> (r: Self)
        ensures
            r@ == self@,
    {
        FeatureRule { name: self.name.clone(), enables: clone_strings(&self.enables) }
    }
}

/// The facts that a manifest gives of one package.
#[derive(Debug, PartialEq, Eq)]
pub struct Package {
    pub name: String,
    pub version: String,
    pub id: PackageId,
    pub source: Option<String>,
    pub manifest_path: String,
    pub edition: String,
    pub authors: Vec<String>,
    pub dependencies: Vec<Dependency>,
    pub targets: Vec<Target>,
    pub features: Vec<FeatureRule>,
}

pub struct PackageView {
    pub name: Seq<char>,
    pub version: Seq<char>,
    pub id: Seq<char>,
    pub source: Option<Seq<char>>,
    pub manifest_path: Seq<char>,
    pub edition: Seq<char>,
    pub authors: Seq<Seq<char>>,
    pub dependencies: Seq<DependencyView>,
    pub targets: Seq<TargetView>,
    pub features: Seq<(Seq<char>, Seq<Seq<char>>)>,
}

impl DeepView for Package {
    type V = PackageView;

    open spec fn deep_view(&self) -> PackageView {
        PackageView {
            name: self.name@,
            version: self.version@,
            id: self.id@,
            source: self.source.deep_view(),
            manifest_path: self.manifest_path@,
            edition: self.edition@,
            authors: self.authors.deep_view(),
            dependencies: self.dependencies.deep_view(),
            targets: self.targets.deep_view(),
            features: self.features.deep_view(),
        }
    }
}

impl View for Package {
    type V = PackageView;

    open spec fn view(&self) -> PackageView {
        self.deep_view()
    }
}

impl Clone for Package {
    fn clone(&self) -> (r: Self)
        ensures
            r@ == self@,
    {
        let dependencies = self.dependencies.clone();
        let targets = self.targets.clone();
        let features = self.features.clone();
        assert(dependencies.deep_view() =~= self.dependencies.deep_view());
        assert(targets.deep_view() =~= self.targets.deep_view());
        assert(features.deep_view() =~= self.features.deep_view());
        Package {
            name: self.name.clone(),
            version: self.version.clone(),
            id: self.id.clone(),
            source: clone_optional(&self.source),
            manifest_path: self.manifest_path.clone(),
            edition: self.edition.clone(),
            authors: clone_strings(&self.authors),
            dependencies,
            targets,
            features,
        }
    }
}

/// An edge of the resolved graph: the name under which a package is used, and the package.
#[derive(Debug, PartialEq, Eq)]
pub struct NodeDep {
    pub name: String,
    pub pkg: PackageId,
}

impl DeepView for NodeDep {
    type V = (Seq<char>, Seq<char>);

    open spec fn deep_view(&self) -> (Seq<char>, Seq<char>) {
        (self.name@, self.pkg@)
    }
}

impl View for NodeDep {
    type V = (Seq<char>, Seq<char>);

    open spec fn view(&self) -> (Seq<char>, Seq<char>) {
        self.deep_view()
    }
}

impl Clone for NodeDep {
    fn clone(&self) -> (r: Self)
        ensures
            r@ == self@,
    {
        NodeDep { name: self.name.clone(), pkg: self.pkg.clone() }
    }
}

/// What the resolved graph says of one package: its edges and its activated features.
#[derive(Debug, PartialEq, Eq)]
pub struct Node {
    pub id: PackageId,
    pub dependencies: Vec<PackageId>,
    pub deps: Vec<NodeDep>,
    pub features: Vec<String>,
}

pub struct NodeView {
    pub id: Seq<char>,
    pub dependencies: Seq<Seq<char>>,
    pub deps: Seq<(Seq<char>, Seq<char>)>,
    pub features: Seq<Seq<char>>,
}

impl DeepView for Node {
    type V = NodeView;

    open spec fn deep_view(&self) -> NodeView {
        NodeView {
            id: self.id@,
            dependencies: self.dependencies.deep_view(),
            deps: self.deps.deep_view(),
            features: self.features.deep_view(),
        }
    }
}

impl View for Node {
    type V = NodeView;

    open spec fn view(&self) -> NodeView {
        self.deep_view()
    }
}

impl Clone for Node {
    fn clone(&self) -> (r: Self)
        ensures
            r@ == self@,
    {
        let deps = self.deps.clone();
        assert(deps.deep_view() =~= self.deps.deep_view());
        Node {
            id: self.id.clone(),
            dependencies: clone_ids(&self.dependencies),
            deps,
            features: clone_strings(&self.features),
        }
    }
}


/// The resolved graph of one snapshot.
#[derive(Debug, PartialEq, Eq)]
pub struct Resolve {
    pub root: Option<PackageId>,
    pub nodes: Vec<Node>,
}

pub struct ResolveView {
    pub root: Option<Seq<char>>,
    pub nodes: Seq<NodeView>,
}

impl DeepView for Resolve {
    type V = ResolveView;

    open spec fn deep_view(&self) -> ResolveView {
        ResolveView { root: self.root.deep_view(), nodes: self.nodes.deep_view() }
    }
}

impl View for Resolve {
    type V = ResolveView;

    open spec fn view(&self) -> ResolveView {
        self.deep_view()
    }
}

/// One raw metadata snapshot: the packages, the workspace members, and the
/// resolved graph where one was computed.
#[derive(Debug, PartialEq, Eq)]
pub struct Metadata {
    pub packages: Vec<Package>,
    pub workspace_members: Vec<PackageId>,
    pub resolve: Option<Resolve>,
}

pub struct MetadataView {
    pub packages: Seq<PackageView>,
    pub workspace_members: Seq<Seq<char>>,
    pub resolve: Option<ResolveView>,
}

impl DeepView for Metadata {
    type V = MetadataView;

    open spec fn deep_view(&self) -> MetadataView {
        MetadataView {
            packages: self.packages.deep_view(),
            workspace_members: self.workspace_members.deep_view(),
            resolve: self.resolve.deep_view(),
        }
    }
}

impl View for Metadata {
    type V = MetadataView;

    open spec fn view(&self) -> MetadataView {
        self.deep_view()
    }
}

/// What can be wrong with the metadata that is handed in.
#[derive(Debug, PartialEq, Eq)]
pub enum MetadataError {
    /// A snapshot comes without a resolved graph.
    NoResolve,
    /// After shortening, two packages have the same identifier.
    DuplicatePackageId,
    /// After shortening, two nodes of the graph have the same identifier.
    DuplicateNodeId,
}

/// The packages of the first `n` snapshots, one snapshot after the other.
pub open spec fn packages_of(snapshots: Seq<MetadataView>, n: int) -> Seq<PackageView>
    decreases n,
{
    if n <= 0 {
        Seq::empty()
    } else {
        packages_of(snapshots, n - 1) + snapshots[n - 1].packages
    }
}

/// The workspace members of the first `n` snapshots, one snapshot after the other.
pub open spec fn members_of(snapshots: Seq<MetadataView>, n: int) -> Seq<Seq<char>>
    decreases n,
{
    if n <= 0 {
        Seq::empty()
    } else {
        members_of(snapshots, n - 1) + snapshots[n - 1].workspace_members
    }
}

/// The graph nodes of the first `n` snapshots, one snapshot after the other.
/// A snapshot without a resolved graph adds none.
pub open spec fn nodes_of(snapshots: Seq<MetadataView>, n: int) -> Seq<NodeView>
    decreases n,
{
    if n <= 0 {
        Seq::empty()
    } else {
        nodes_of(snapshots, n - 1) + (match snapshots[n - 1].resolve {
            Some(resolve) => resolve.nodes,
            None => Seq::empty(),
        })
    }
}

/// The root of a merged set: its one workspace member, if it has exactly one.
pub open spec fn single_member(members: Seq<Seq<char>>) -> Option<Seq<char>> {
    if members.len() == 1 {
        Some(members[0])
    } else {
        None
    }
}

/// Whether a snapshot names a root that is not among its workspace members.
pub open spec fn root_is_no_member(snapshot: MetadataView) -> bool {
    snapshot.resolve matches Some(resolve) && resolve.root matches Some(root)
        && !snapshot.workspace_members.contains(root)
}

/// The merged metadata of one or more snapshots.
#[derive(Debug, PartialEq, Eq)]
pub struct MergedMetadata {
    pub workspace_members: Vec<PackageId>,
    pub packages: Vec<Package>,
    pub root: Option<PackageId>,
    pub nodes: Vec<Node>,
}

pub struct MergedMetadataView {
    pub workspace_members: Seq<Seq<char>>,
    pub packages: Seq<PackageView>,
    pub root: Option<Seq<char>>,
    pub nodes: Seq<NodeView>,
}

impl DeepView for MergedMetadata {
    type V = MergedMetadataView;

    open spec fn deep_view(&self) -> MergedMetadataView {
        MergedMetadataView {
            workspace_members: self.workspace_members.deep_view(),
            packages: self.packages.deep_view(),
            root: self.root.deep_view(),
            nodes: self.nodes.deep_view(),
        }
    }
}

impl View for MergedMetadata {
    type V = MergedMetadataView;

    open spec fn view(&self) -> MergedMetadataView {
        self.deep_view()
    }
}

/// Whether a list of identifiers holds the given one.
pub fn contains_id(ids: &Vec<PackageId>, id: &str) -> (r: bool)
    ensures
        r == ids.deep_view().contains(id@),
{
    let mut i: usize = 0;
    while i < ids.len()
        invariant
            i <= ids.len(),
            forall|j: int| 0 <= j < i ==> ids.deep_view()[j] != id@,
        decreases ids.len() - i,
    {
        if crate::text::same_text(ids[i].repr.as_str(), id) {
            assert(ids.deep_view()[i as int] == id@);
            return true;
        }
        i = i + 1;
    }
    false
}

impl Metadata {
    /// Whether this snapshot names a root that its list of workspace members
    /// lacks: an inconsistency that merging tolerates and a caller may report.
    pub fn root_missing_from_members(&self) -> (r: bool)
        ensures
            r == root_is_no_member(self@),
    {
        match &self.resolve {
            Some(resolve) => match &resolve.root {
                Some(root) => !contains_id(&self.workspace_members, root.repr.as_str()),
                None => false,
            },
            None => false,
        }
    }
}

impl MergedMetadata {
    /// Merges snapshots by putting their packages, graph nodes and workspace
    /// members one after the other. The merged set has a root only if it has
    /// exactly one workspace member. A snapshot without a resolved graph is
    /// refused.
    pub fn merge(metadatas: Vec<Metadata>) -> (r: Result<MergedMetadata, MetadataError>)
        requires
            metadatas.len() > 0,
        ensures
            r is Ok <==> forall|i: int| 0 <= i < metadatas.len() ==> (#[trigger] metadatas[i]).resolve is Some,
            r matches Ok(merged) ==> {
                &&& merged@.packages == packages_of(metadatas.deep_view(), metadatas.len() as int)
                &&& merged@.nodes == nodes_of(metadatas.deep_view(), metadatas.len() as int)
                &&& merged@.workspace_members == members_of(metadatas.deep_view(), metadatas.len() as int)
                &&& merged@.root == single_member(merged@.workspace_members)
            },
            r matches Err(e) ==> e == MetadataError::NoResolve,
    {
        let ghost snapshots = metadatas.deep_view();
        let ghost all = metadatas@;
        let mut workspace_members: Vec<PackageId> = Vec::new();
        let mut packages: Vec<Package> = Vec::new();
        let mut nodes: Vec<Node> = Vec::new();
        for metadata in it: metadatas
            invariant
                it.seq() == all,
                snapshots.len() == all.len(),
                forall|i: int| 0 <= i < all.len() ==> snapshots[i] == (#[trigger] all[i]).deep_view(),
                forall|i: int| 0 <= i < it.index() ==> (#[trigger] it.seq()[i]).resolve is Some,
                packages.deep_view() == packages_of(snapshots, it.index() as int),
                nodes.deep_view() == nodes_of(snapshots, it.index() as int),
                workspace_members.deep_view() == members_of(snapshots, it.index() as int),
        {
            let Metadata { packages: mut more_packages, workspace_members: mut more_members, resolve } = metadata;
            let mut resolve = match resolve {
                Some(resolve) => resolve,
                None => {
                    return Err(MetadataError::NoResolve);
                },
            };
            let ghost before = (packages.deep_view(), nodes.deep_view(), workspace_members.deep_view());
            workspace_members.append(&mut more_members);
            packages.append(&mut more_packages);
            nodes.append(&mut resolve.nodes);
            proof {
                let m = snapshots[it.index() as int];
                assert(m == metadata.deep_view());
                assert(packages.deep_view() =~= before.0 + m.packages);
                assert(nodes.deep_view() =~= before.1 + m.resolve->0.nodes);
                assert(workspace_members.deep_view() =~= before.2 + m.workspace_members);
            }
        }
        let root = if workspace_members.len() == 1 {
            Some(workspace_members[0].clone())
        } else {
            None
        };
        Ok(MergedMetadata { packages, root, workspace_members, nodes })
    }
}

} // verus!
