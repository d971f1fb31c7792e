//! The build record of a package: its facts, its source and its resolved dependencies.

use vstd::prelude::*;
use crate::bindings::{
    file_name_of, parent_of, path_difference, path_file_name, path_parent, path_without_prefix,
    strip_path_prefix,
};
use crate::config::{Config, SourceView};
use crate::index::IndexedMetadata;
use crate::metadata::{
    contains_id, DependencyKind, DependencyView, FeatureRule, Package, PackageId, PackageView, Target,
    TargetView,
};
use crate::resolve::{
    edge_packages, ResolveError, ResolvedDependencies, ResolvedDependency, ResolvedDependencyView,
};
use crate::source::{
    classified, configured_source, relative_directory_of, ResolvedSource, ResolvedSourceView,
    SourceWarning,
};
use crate::text::{clone_strings, ends_with, has_suffix, same_text};

verus! {

/// A build target of a package.
#[derive(Debug, PartialEq, Eq)]
pub struct BuildTarget {
    /// The name of the build target.
    pub name: String,
    /// The path of the target's source file, relative to the package directory.
    pub src_path: String,
}

impl DeepView for BuildTarget {
    type V = (Seq<char>, Seq<char>);

    open spec fn deep_view(&self) -> (Seq<char>, Seq<char>) {
        (self.name@, self.src_path@)
    }
}

impl View for BuildTarget {
    type V = (Seq<char>, Seq<char>);

    open spec fn view(&self) -> (Seq<char>, Seq<char>) {
        self.deep_view()
    }
}

/// The build target for a target whose source file has the canonical path
/// `src_path`, in a package with the canonical directory `package_dir`:
/// the target's name with the path relative to the package directory, or
/// none where the file does not lie in that directory.
pub open spec fn build_target_of(target: TargetView, src_path: Seq<char>, package_dir: Seq<char>) -> Option<
    (Seq<char>, Seq<char>),
> {
    match path_without_prefix(src_path, package_dir) {
        Some(relative) => Some((target.name, relative)),
        None => None,
    }
}

/// The build target of a target whose source file may not exist.
pub open spec fn optional_build_target(
    target: TargetView,
    src_path: Option<Seq<char>>,
    package_dir: Seq<char>,
) -> Option<(Seq<char>, Seq<char>)> {
    match src_path {
        Some(src_path) => build_target_of(target, src_path, package_dir),
        None => None,
    }
}

impl BuildTarget {
    /// The build target of `target`. `src_path` is the canonical path of
    /// the target's source file and `package_path` the canonical path of
    /// the package directory.
    pub fn new(target: &Target, src_path: &str, package_path: &str) -> (r: Option<BuildTarget>)
        ensures
            r.deep_view() == build_target_of(target@, src_path@, package_path@),
    {
        match strip_path_prefix(src_path, package_path) {
            Some(relative) => Some(BuildTarget { name: target.name.clone(), src_path: relative }),
            None => None,
        }
    }
}

/// The canonical paths that belong to a package: what only the file system
/// can tell of it.
#[derive(Debug, PartialEq, Eq)]
pub struct PackagePaths {
    /// The canonical path of the directory of the build file.
    pub output_dir: String,
    /// The canonical path of the package directory.
    pub package_dir: String,
    /// For each target of the package, in their order, the canonical path
    /// of its source file, where the file exists.
    pub target_paths: Vec<Option<String>>,
}

pub struct PackagePathsView {
    pub output_dir: Seq<char>,
    pub package_dir: Seq<char>,
    pub target_paths: Seq<Option<Seq<char>>>,
}

impl DeepView for PackagePaths {
    type V = PackagePathsView;

    open spec fn deep_view(&self) -> PackagePathsView {
        PackagePathsView {
            output_dir: self.output_dir@,
            package_dir: self.package_dir@,
            target_paths: self.target_paths.deep_view(),
        }
    }
}

impl View for PackagePaths {
    type V = PackagePathsView;

    open spec fn view(&self) -> PackagePathsView {
        self.deep_view()
    }
}

/// The declared dependencies that make up one list of a build record.
#[derive(Clone, Copy, Debug, PartialEq, Eq, Structural)]
pub enum DependencyGroup {
    /// Dependencies of the package itself, and those of unknown kind.
    Normal,
    /// Dependencies of the build script.
    Build,
    /// Dependencies of tests and examples.
    Dev,
}

/// Whether a dependency of the given kind belongs to a group.
pub open spec fn in_group(group: DependencyGroup, kind: DependencyKind) -> bool {
    match group {
        DependencyGroup::Normal => kind == DependencyKind::Normal || kind == DependencyKind::Unknown,
        DependencyGroup::Build => kind == DependencyKind::Build,
        DependencyGroup::Dev => kind == DependencyKind::Development,
    }
}

/// For each declared dependency, whether it belongs to the group.
pub open spec fn group_marks(deps: Seq<DependencyView>, group: DependencyGroup) -> Seq<bool> {
    Seq::new(deps.len(), |i: int| in_group(group, deps[i].kind))
}

/// Whether a target has the given kind.
pub open spec fn has_kind(target: TargetView, kind: Seq<char>) -> bool {
    target.kind.contains(kind)
}

/// The parts that a target can play in a build record.
#[derive(Clone, Copy, Debug, PartialEq, Eq, Structural)]
pub enum TargetRole {
    /// The library: a target of kind `lib` or `proc-macro`.
    Library,
    /// The build script: a target of kind `custom-build`.
    BuildScript,
    /// A procedural macro: a target of kind `proc-macro`.
    ProcMacro,
    /// A binary: a target of kind `bin`.
    Binary,
    /// A library of some crate type: a target with a kind that ends in `lib`.
    AnyLibrary,
}

/// Whether a target plays the given part.
pub open spec fn plays(target: TargetView, role: TargetRole) -> bool {
    match role {
        TargetRole::Library => has_kind(target, "lib"@) || has_kind(target, "proc-macro"@),
        TargetRole::BuildScript => has_kind(target, "custom-build"@),
        TargetRole::ProcMacro => has_kind(target, "proc-macro"@),
        TargetRole::Binary => has_kind(target, "bin"@),
        TargetRole::AnyLibrary => exists|i: int| 0 <= i < target.kind.len() && has_suffix(#[trigger] target.kind[i], "lib"@),
    }
}

/// The position of the first target that plays the given part; the number
/// of targets where none does.
pub open spec fn first_playing(targets: Seq<TargetView>, role: TargetRole) -> int
    decreases targets.len(),
{
    if targets.len() == 0 {
        0
    } else if plays(targets[0], role) {
        0
    } else {
        1 + first_playing(targets.drop_first(), role)
    }
}

/// The build target of the first target that plays the given part.
pub open spec fn first_build_target(
    targets: Seq<TargetView>,
    paths: PackagePathsView,
    role: TargetRole,
) -> Option<(Seq<char>, Seq<char>)> {
    let i = first_playing(targets, role);
    if i < targets.len() {
        optional_build_target(targets[i], paths.target_paths[i], paths.package_dir)
    } else {
        None
    }
}

/// The build targets of the binaries among the first `n` targets, in their order.
pub open spec fn binaries_upto(targets: Seq<TargetView>, paths: PackagePathsView, n: int) -> Seq<
    (Seq<char>, Seq<char>),
>
    decreases n,
{
    if n <= 0 {
        Seq::empty()
    } else {
        let before = binaries_upto(targets, paths, n - 1);
        if plays(targets[n - 1], TargetRole::Binary) {
            match optional_build_target(targets[n - 1], paths.target_paths[n - 1], paths.package_dir) {
                Some(binary) => before.push(binary),
                None => before,
            }
        } else {
            before
        }
    }
}

/// `seen` extended by those entries of `more` that it lacks, each once, in their order.
pub open spec fn with_new(seen: Seq<Seq<char>>, more: Seq<Seq<char>>) -> Seq<Seq<char>>
    decreases more.len(),
{
    if more.len() == 0 {
        seen
    } else {
        let before = with_new(seen, more.drop_last());
        if before.contains(more.last()) {
            before
        } else {
            before.push(more.last())
        }
    }
}

/// The crate types of the library targets among the first `n` targets,
/// each once, in the order in which they first occur.
pub open spec fn crate_types_upto(targets: Seq<TargetView>, n: int) -> Seq<Seq<char>>
    decreases n,
{
    if n <= 0 {
        Seq::empty()
    } else {
        let before = crate_types_upto(targets, n - 1);
        if plays(targets[n - 1], TargetRole::AnyLibrary) {
            with_new(before, targets[n - 1].crate_types)
        } else {
            before
        }
    }
}

/// Whether a list of strings holds the given one.
pub fn contains_text(list: &Vec<String>, text: &str) -> (r: bool)
    ensures
        r == list.deep_view().contains(text@),
{
    let mut i: usize = 0;
    while i < list.len()
        invariant
            i <= list.len(),
            forall|j: int| 0 <= j < i ==> list.deep_view()[j] != text@,
        decreases list.len() - i,
    {
        if same_text(list[i].as_str(), text) {
            assert(list.deep_view()[i as int] == text@);
            return true;
        }
        i = i + 1;
    }
    false
}

/// Whether a target plays the given part.
pub fn target_plays(target: &Target, role: TargetRole) -> (r: bool)
    ensures
        r == plays(target@, role),
{
    match role {
        TargetRole::Library => contains_text(&target.kind, "lib") || contains_text(&target.kind, "proc-macro"),
        TargetRole::BuildScript => contains_text(&target.kind, "custom-build"),
        TargetRole::ProcMacro => contains_text(&target.kind, "proc-macro"),
        TargetRole::Binary => contains_text(&target.kind, "bin"),
        TargetRole::AnyLibrary => {
            let mut i: usize = 0;
            while i < target.kind.len()
                invariant
                    i <= target.kind.len(),
                    role == TargetRole::AnyLibrary,
                    forall|j: int| 0 <= j < i ==> !has_suffix(#[trigger] target@.kind[j], "lib"@),
                decreases target.kind.len() - i,
            {
                assert(target@.kind[i as int] == target.kind[i as int]@);
                if ends_with(target.kind[i].as_str(), "lib") {
                    return true;
                }
                i = i + 1;
            }
            false
        },
    }
}

/// The build target of a target whose source file may not exist.
fn build_target_at(target: &Target, src_path: &Option<String>, package_dir: &str) -> (r: Option<BuildTarget>)
    ensures
        r.deep_view() == optional_build_target(target@, src_path.deep_view(), package_dir@),
{
    match src_path {
        Some(src_path) => BuildTarget::new(target, src_path.as_str(), package_dir),
        None => None,
    }
}

/// The build target of the first target that plays the given part.
fn find_build_target(targets: &Vec<Target>, paths: &PackagePaths, role: TargetRole) -> (r: Option<BuildTarget>)
    requires
        paths.target_paths.len() == targets.len(),
    ensures
        r.deep_view() == first_build_target(targets.deep_view(), paths@, role),
{
    let ghost all = targets.deep_view();
    let mut i: usize = 0;
    assert(all.skip(0) =~= all);
    while i < targets.len()
        invariant
            i <= targets.len(),
            all == targets.deep_view(),
            paths.target_paths.len() == targets.len(),
            first_playing(all, role) == i + first_playing(all.skip(i as int), role),
        decreases targets.len() - i,
    {
        assert(all.skip(i as int)[0] == all[i as int]);
        assert(all[i as int] == targets[i as int]@);
        assert(all.skip(i as int).drop_first() =~= all.skip(i + 1));
        if target_plays(&targets[i], role) {
            assert(paths@.target_paths[i as int] == paths.target_paths[i as int].deep_view());
            return build_target_at(&targets[i], &paths.target_paths[i], paths.package_dir.as_str());
        }
        i = i + 1;
    }
    assert(all.skip(targets.len() as int).len() == 0);
    None
}

/// Whether some target plays the given part.
fn any_target_plays(targets: &Vec<Target>, role: TargetRole) -> (r: bool)
    ensures
        r == exists|i: int| 0 <= i < targets.len() && plays(#[trigger] targets.deep_view()[i], role),
{
    let mut i: usize = 0;
    while i < targets.len()
        invariant
            i <= targets.len(),
            forall|j: int| 0 <= j < i ==> !plays(#[trigger] targets.deep_view()[j], role),
        decreases targets.len() - i,
    {
        assert(targets.deep_view()[i as int] == targets[i as int]@);
        if target_plays(&targets[i], role) {
            return true;
        }
        i = i + 1;
    }
    false
}

/// The build targets of the binaries, in their order.
fn binaries_of(targets: &Vec<Target>, paths: &PackagePaths) -> (r: Vec<BuildTarget>)
    requires
        paths.target_paths.len() == targets.len(),
    ensures
        r.deep_view() == binaries_upto(targets.deep_view(), paths@, targets.len() as int),
{
    let ghost all = targets.deep_view();
    let mut out: Vec<BuildTarget> = Vec::new();
    let mut i: usize = 0;
    assert(out.deep_view() =~= binaries_upto(all, paths@, 0));
    while i < targets.len()
        invariant
            i <= targets.len(),
            all == targets.deep_view(),
            paths.target_paths.len() == targets.len(),
            out.deep_view() == binaries_upto(all, paths@, i as int),
        decreases targets.len() - i,
    {
        assert(all[i as int] == targets[i as int]@);
        assert(paths@.target_paths[i as int] == paths.target_paths[i as int].deep_view());
        if target_plays(&targets[i], TargetRole::Binary) {
            match build_target_at(&targets[i], &paths.target_paths[i], paths.package_dir.as_str()) {
                Some(binary) => {
                    let ghost before = out.deep_view();
                    out.push(binary);
                    assert(out.deep_view() =~= before.push(binary@));
                },
                None => {},
            }
        }
        i = i + 1;
    }
    out
}

/// The crate types of the library targets, each once.
fn lib_crate_types_of(targets: &Vec<Target>) -> (r: Vec<String>)
    ensures
        r.deep_view() == crate_types_upto(targets.deep_view(), targets.len() as int),
{
    let ghost all = targets.deep_view();
    let mut out: Vec<String> = Vec::new();
    let mut i: usize = 0;
    assert(out.deep_view() =~= crate_types_upto(all, 0));
    while i < targets.len()
        invariant
            i <= targets.len(),
            all == targets.deep_view(),
            out.deep_view() == crate_types_upto(all, i as int),
        decreases targets.len() - i,
    {
        assert(all[i as int] == targets[i as int]@);
        if target_plays(&targets[i], TargetRole::AnyLibrary) {
            let types = &targets[i].crate_types;
            let ghost more = types.deep_view();
            let ghost seen = out.deep_view();
            let mut k: usize = 0;
            assert(more.take(0) =~= Seq::<Seq<char>>::empty());
            while k < types.len()
                invariant
                    k <= types.len(),
                    more == types.deep_view(),
                    out.deep_view() == with_new(seen, more.take(k as int)),
                decreases types.len() - k,
            {
                proof {
                    assert(more.take(k + 1).drop_last() =~= more.take(k as int));
                    assert(more.take(k + 1).last() == more[k as int]);
                    assert(more[k as int] == types[k as int]@);
                }
                if !contains_text(&out, types[k].as_str()) {
                    let ghost before = out.deep_view();
                    out.push(types[k].clone());
                    assert(out.deep_view() =~= before.push(more[k as int]));
                }
                k = k + 1;
            }
            assert(more.take(types.len() as int) =~= more);
        }
        i = i + 1;
    }
    out
}

/// For each declared dependency of a package, whether it belongs to the group.
pub fn marks_of(package: &Package, group: DependencyGroup) -> (r: Vec<bool>)
    ensures
        r@ == group_marks(package@.dependencies, group),
{
    let mut out: Vec<bool> = Vec::new();
    let mut i: usize = 0;
    while i < package.dependencies.len()
        invariant
            i <= package.dependencies.len(),
            out.len() == i,
            forall|j: int| 0 <= j < i ==> out[j] == in_group(group, package@.dependencies[j].kind),
        decreases package.dependencies.len() - i,
    {
        let kind = package.dependencies[i].kind;
        assert(package@.dependencies[i as int] == package.dependencies[i as int]@);
        let mark = match group {
            DependencyGroup::Normal => kind == DependencyKind::Normal || kind == DependencyKind::Unknown,
            DependencyGroup::Build => kind == DependencyKind::Build,
            DependencyGroup::Dev => kind == DependencyKind::Development,
        };
        out.push(mark);
        i = i + 1;
    }
    assert(out@ =~= group_marks(package@.dependencies, group));
    out
}

/// All that is needed to write the build rule of a package.
#[derive(Debug, PartialEq, Eq)]
pub struct CrateDerivation {
    pub package_id: PackageId,
    pub crate_name: String,
    pub edition: String,
    pub authors: Vec<String>,
    pub version: String,
    pub source: ResolvedSource,
    /// The crate types of the library targets, such as `lib`, `dylib`, `rlib`.
    pub lib_crate_types: Vec<String>,
    pub dependencies: Vec<ResolvedDependency>,
    pub build_dependencies: Vec<ResolvedDependency>,
    pub dev_dependencies: Vec<ResolvedDependency>,
    /// Which feature switches on which other features.
    pub features: Vec<FeatureRule>,
    /// The features that the resolved graph activated.
    pub resolved_default_features: Vec<String>,
    /// The build target of the build script.
    pub build: Option<BuildTarget>,
    /// The build target of the library.
    pub lib: Option<BuildTarget>,
    pub binaries: Vec<BuildTarget>,
    pub proc_macro: bool,
    /// Whether this is the root package or a member of the workspace.
    pub is_root_or_workspace_member: bool,
}

pub struct CrateDerivationView {
    pub package_id: Seq<char>,
    pub crate_name: Seq<char>,
    pub edition: Seq<char>,
    pub authors: Seq<Seq<char>>,
    pub version: Seq<char>,
    pub source: ResolvedSourceView,
    pub lib_crate_types: Seq<Seq<char>>,
    pub dependencies: Seq<ResolvedDependencyView>,
    pub build_dependencies: Seq<ResolvedDependencyView>,
    pub dev_dependencies: Seq<ResolvedDependencyView>,
    pub features: Seq<(Seq<char>, Seq<Seq<char>>)>,
    pub resolved_default_features: Seq<Seq<char>>,
    pub build: Option<(Seq<char>, Seq<char>)>,
    pub lib: Option<(Seq<char>, Seq<char>)>,
    pub binaries: Seq<(Seq<char>, Seq<char>)>,
    pub proc_macro: bool,
    pub is_root_or_workspace_member: bool,
}

impl DeepView for CrateDerivation {
    type V = CrateDerivationView;

    open spec fn deep_view(&self) -> CrateDerivationView {
        CrateDerivationView {
            package_id: self.package_id@,
            crate_name: self.crate_name@,
            edition: self.edition@,
            authors: self.authors.deep_view(),
            version: self.version@,
            source: self.source@,
            lib_crate_types: self.lib_crate_types.deep_view(),
            dependencies: self.dependencies.deep_view(),
            build_dependencies: self.build_dependencies.deep_view(),
            dev_dependencies: self.dev_dependencies.deep_view(),
            features: self.features.deep_view(),
            resolved_default_features: self.resolved_default_features.deep_view(),
            build: self.build.deep_view(),
            lib: self.lib.deep_view(),
            binaries: self.binaries.deep_view(),
            proc_macro: self.proc_macro,
            is_root_or_workspace_member: self.is_root_or_workspace_member,
        }
    }
}

impl View for CrateDerivation {
    type V = CrateDerivationView;

    open spec fn view(&self) -> CrateDerivationView {
        self.deep_view()
    }
}

/// What a caller may want to report of a build record that was built.
#[derive(Clone, Copy, Debug, PartialEq, Eq, Structural)]
pub struct DerivationWarnings {
    /// Why the declared source was not used and the local directory was taken.
    pub source: Option<SourceWarning>,
    /// Sources are configured, but none for this workspace member.
    pub no_configured_source: bool,
}

/// Whether a package is the root or a member of the workspace.
pub open spec fn is_member(root: Option<Seq<char>>, members: Seq<Seq<char>>, id: Seq<char>) -> bool {
    root == Some(id) || members.contains(id)
}

/// The name under which a source may be configured for a package: the
/// name of the directory that holds its manifest.
pub open spec fn member_name(manifest_path: Seq<char>) -> Option<Seq<char>> {
    match path_parent(manifest_path) {
        Some(dir) => path_file_name(dir),
        None => None,
    }
}

/// The source that is configured for a package. Only the root and the
/// members of the workspace can have one.
pub open spec fn configured_for(
    sources: Map<Seq<char>, SourceView>,
    member: bool,
    manifest_path: Seq<char>,
) -> Option<SourceView> {
    if member {
        match member_name(manifest_path) {
            Some(name) => if sources.contains_key(name) {
                Some(sources[name])
            } else {
                None
            },
            None => None,
        }
    } else {
        None
    }
}

/// The source of a package: the configured one, which always wins, or
/// else the one that its declaration gives.
pub open spec fn source_of(
    package: PackageView,
    paths: PackagePathsView,
    sources: Map<Seq<char>, SourceView>,
    member: bool,
) -> (ResolvedSourceView, DerivationWarnings) {
    let configured = configured_for(sources, member, package.manifest_path);
    let no_configured_source = member && sources.dom().len() != 0 && configured is None;
    match configured {
        Some(source) => (configured_source(source), DerivationWarnings { source: None, no_configured_source }),
        None => {
            let decided = classified(
                package,
                relative_directory_of(
                    paths.package_dir,
                    paths.output_dir,
                    path_difference(paths.package_dir, paths.output_dir),
                ),
            );
            (decided.0, DerivationWarnings { source: decided.1, no_configured_source })
        },
    }
}

/// The build record of a package whose node and edges are all there and
/// none of whose requirements is ambiguous.
pub open spec fn derivation_of(
    metadata: &IndexedMetadata,
    package: PackageView,
    paths: PackagePathsView,
    sources: Map<Seq<char>, SourceView>,
) -> CrateDerivationView {
    let node = metadata.nodes()[package.id];
    let edges = edge_packages(metadata.packages(), node.deps);
    let member = is_member(metadata.spec_root(), metadata.spec_workspace_members(), package.id);
    CrateDerivationView {
        package_id: package.id,
        crate_name: package.name,
        edition: package.edition,
        authors: package.authors,
        version: package.version,
        source: source_of(package, paths, sources, member).0,
        lib_crate_types: crate_types_upto(package.targets, package.targets.len() as int),
        dependencies: crate::resolve::resolved_list(
            edges,
            package.dependencies,
            group_marks(package.dependencies, DependencyGroup::Normal),
        ),
        build_dependencies: crate::resolve::resolved_list(
            edges,
            package.dependencies,
            group_marks(package.dependencies, DependencyGroup::Build),
        ),
        dev_dependencies: crate::resolve::resolved_list(
            edges,
            package.dependencies,
            group_marks(package.dependencies, DependencyGroup::Dev),
        ),
        features: package.features,
        resolved_default_features: node.features,
        build: first_build_target(package.targets, paths, TargetRole::BuildScript),
        lib: first_build_target(package.targets, paths, TargetRole::Library),
        binaries: binaries_upto(package.targets, paths, package.targets.len() as int),
        proc_macro: exists|i: int|
            0 <= i < package.targets.len() && plays(#[trigger] package.targets[i], TargetRole::ProcMacro),
        is_root_or_workspace_member: member,
    }
}

/// What building the record of a package owes. Without a graph node for
/// the package, or without the package of one of its edges, there is no
/// record; neither where a requirement is ambiguous, be it of the build
/// script, of the package or of its tests, asked in this order. Else the
/// record is `derivation_of`, with what there is to report.
pub open spec fn resolve_outcome(
    metadata: &IndexedMetadata,
    package: PackageView,
    paths: PackagePathsView,
    sources: Map<Seq<char>, SourceView>,
    r: Result<(CrateDerivation, DerivationWarnings), ResolveError>,
) -> bool {
    let nodes = metadata.nodes();
    let packages = metadata.packages();
    if !nodes.contains_key(package.id) {
        r matches Err(ResolveError::MissingNode { package_id }) && package_id@ == package.id
    } else {
        let deps = nodes[package.id].deps;
        if exists|i: int| 0 <= i < deps.len() && !packages.contains_key((#[trigger] deps[i]).1) {
            r matches Err(ResolveError::MissingPackage { package_id }) && exists|i: int|
                {
                    &&& 0 <= i < deps.len()
                    &&& package_id@ == (#[trigger] deps[i]).1
                    &&& !packages.contains_key(package_id@)
                    &&& forall|j: int| 0 <= j < i ==> packages.contains_key((#[trigger] deps[j]).1)
                }
        } else {
            let edges = edge_packages(packages, deps);
            let declared = package.dependencies;
            let build = group_marks(declared, DependencyGroup::Build);
            let normal = group_marks(declared, DependencyGroup::Normal);
            let dev = group_marks(declared, DependencyGroup::Dev);
            if crate::resolve::any_ambiguous(edges, declared, build) {
                r matches Err(e) && crate::resolve::names_first_ambiguous(edges, declared, build, e)
            } else if crate::resolve::any_ambiguous(edges, declared, normal) {
                r matches Err(e) && crate::resolve::names_first_ambiguous(edges, declared, normal, e)
            } else if crate::resolve::any_ambiguous(edges, declared, dev) {
                r matches Err(e) && crate::resolve::names_first_ambiguous(edges, declared, dev, e)
            } else {
                let member = is_member(metadata.spec_root(), metadata.spec_workspace_members(), package.id);
                r matches Ok(built) && built.0@ == derivation_of(metadata, package, paths, sources) && built.1
                    == source_of(package, paths, sources, member).1
            }
        }
    }
}

/// A copy of a list of feature rules.
fn clone_features(v: &Vec<FeatureRule>) -> (r: Vec<FeatureRule>)
    ensures
        r.deep_view() == v.deep_view(),
{
    let r = v.clone();
    assert(r.deep_view() =~= v.deep_view());
    r
}

impl CrateDerivation {
    /// Builds the record of a package from the indexed metadata, the
    /// configured sources and the canonical paths of the package.
    pub fn resolve(
        paths: &PackagePaths,
        crate2nix_json: &Config,
        metadata: &IndexedMetadata,
        package: &Package,
    ) -> (r: Result<(CrateDerivation, DerivationWarnings), ResolveError>)
        requires
            metadata.wf(),
            crate2nix_json.wf(),
            paths.target_paths.len() == package.targets.len(),
        ensures
            resolve_outcome(metadata, package@, paths@, crate2nix_json.spec_sources(), r),
    {
        let resolved_dependencies = match ResolvedDependencies::new(metadata, package) {
            Ok(resolved) => resolved,
            Err(e) => {
                return Err(e);
            },
        };
        let node = match metadata.node_by_id(&package.id) {
            Some(node) => node,
            None => {
                return Err(ResolveError::MissingNode { package_id: package.id.clone() });
            },
        };
        let build_dependencies = match resolved_dependencies.resolve_selected(
            &marks_of(package, DependencyGroup::Build),
        ) {
            Ok(list) => list,
            Err(e) => {
                return Err(e);
            },
        };
        let dependencies = match resolved_dependencies.resolve_selected(
            &marks_of(package, DependencyGroup::Normal),
        ) {
            Ok(list) => list,
            Err(e) => {
                return Err(e);
            },
        };
        let dev_dependencies = match resolved_dependencies.resolve_selected(
            &marks_of(package, DependencyGroup::Dev),
        ) {
            Ok(list) => list,
            Err(e) => {
                return Err(e);
            },
        };

        let is_root = match metadata.root() {
            Some(root) => same_text(root.repr.as_str(), package.id.repr.as_str()),
            None => false,
        };
        let is_root_or_workspace_member = is_root || contains_id(
            metadata.workspace_members(),
            package.id.repr.as_str(),
        );

        // The name of the directory is read off the path as the metadata
        // gives it: a configured source is found by the name under which
        // the workspace lists the member, which resolving links would lose.
        let configured = if is_root_or_workspace_member {
            let name = match parent_of(package.manifest_path.as_str()) {
                Some(dir) => file_name_of(dir.as_str()),
                None => None,
            };
            match name {
                Some(name) => crate2nix_json.get(name.as_str()),
                None => None,
            }
        } else {
            None
        };
        let no_configured_source = is_root_or_workspace_member && !crate2nix_json.is_empty()
            && configured.is_none();
        let (source, source_warning) = match configured {
            Some(source) => (ResolvedSource::from(source.clone()), None),
            None => ResolvedSource::new(paths.output_dir.as_str(), package, paths.package_dir.as_str()),
        };

        let lib = find_build_target(&package.targets, paths, TargetRole::Library);
        let build = find_build_target(&package.targets, paths, TargetRole::BuildScript);
        let proc_macro = any_target_plays(&package.targets, TargetRole::ProcMacro);
        let binaries = binaries_of(&package.targets, paths);

        let derivation = CrateDerivation {
            crate_name: package.name.clone(),
            edition: package.edition.clone(),
            authors: clone_strings(&package.authors),
            package_id: package.id.clone(),
            version: package.version.clone(),
            source,
            features: clone_features(&package.features),
            resolved_default_features: clone_strings(&node.features),
            lib_crate_types: lib_crate_types_of(&package.targets),
            dependencies,
            build_dependencies,
            dev_dependencies,
            build,
            lib,
            proc_macro,
            binaries,
            is_root_or_workspace_member,
        };
        Ok((derivation, DerivationWarnings { source: source_warning, no_configured_source }))
    }
}

/// Whether a build record can be built for a package: its node and the
/// packages of its edges are there, and none of its requirements is ambiguous.
pub open spec fn is_resolvable(metadata: &IndexedMetadata, package: PackageView) -> bool {
    let nodes = metadata.nodes();
    let packages = metadata.packages();
    &&& nodes.contains_key(package.id)
    &&& forall|i: int|
        0 <= i < nodes[package.id].deps.len() ==> packages.contains_key((#[trigger] nodes[package.id].deps[i]).1)
    &&& {
        let edges = edge_packages(packages, nodes[package.id].deps);
        let declared = package.dependencies;
        &&& !crate::resolve::any_ambiguous(edges, declared, group_marks(declared, DependencyGroup::Build))
        &&& !crate::resolve::any_ambiguous(edges, declared, group_marks(declared, DependencyGroup::Normal))
        &&& !crate::resolve::any_ambiguous(edges, declared, group_marks(declared, DependencyGroup::Dev))
    }
}

/// A build record is built exactly for a package that can be resolved.
pub proof fn lemma_resolve_outcome(
    metadata: &IndexedMetadata,
    package: PackageView,
    paths: PackagePathsView,
    sources: Map<Seq<char>, SourceView>,
    r: Result<(CrateDerivation, DerivationWarnings), ResolveError>,
)
    requires
        resolve_outcome(metadata, package, paths, sources, r),
    ensures
        r is Ok <==> is_resolvable(metadata, package),
{
}

} // verus!
