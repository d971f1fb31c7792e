use crate2nix::config::{Config, Source};
use crate2nix::derivation::{BuildTarget, CrateDerivation, DependencyGroup, PackagePaths};
use crate2nix::index::IndexedMetadata;
use crate2nix::metadata::{
    Dependency, DependencyKind, FeatureRule, Metadata, Node, NodeDep, Package, PackageId, Resolve, Target,
};
use crate2nix::resolve::{
    normalize_package_name, sources_match, strip_metadata, ResolveError, ResolvedDependencies,
};
use crate2nix::source::{CratesIoSource, ResolvedSource, SourceWarning};

const CRATES_IO: &str = "registry+https://github.com/rust-lang/crates.io-index";

fn crates_io_package_id(name: &str, version: &str) -> PackageId {
    PackageId { repr: format!("{} {} ({})", name, version, CRATES_IO) }
}

fn package(name: &str, version: &str) -> Package {
    Package {
        name: name.to_string(),
        version: version.to_string(),
        id: crates_io_package_id(name, version),
        source: None,
        manifest_path: format!("/work/{}/Cargo.toml", name),
        edition: "2018".to_string(),
        authors: vec![],
        dependencies: vec![],
        targets: vec![],
        features: vec![],
    }
}

fn node(package_id: &PackageId) -> Node {
    Node { id: package_id.clone(), dependencies: vec![], deps: vec![], features: vec![] }
}

fn dependency_from_package(package: &Package) -> Dependency {
    Dependency {
        name: package.name.clone(),
        source: package.source.clone(),
        req: format!("={}", package.version),
        kind: DependencyKind::Normal,
        optional: false,
        uses_default_features: true,
        features: vec![],
        target: None,
        rename: None,
    }
}

/// Packages and nodes under construction; the first package is the root.
struct MetadataEnv {
    packages: Vec<Package>,
    nodes: Vec<Node>,
}

impl MetadataEnv {
    fn with_root(name: &str) -> MetadataEnv {
        let root = package(name, "0.1.0");
        let root_node = node(&root.id);
        MetadataEnv { packages: vec![root], nodes: vec![root_node] }
    }

    /// Adds a package with its node and makes the root depend on it.
    fn add_dependency(&mut self, dep_package: Package, dep: Dependency, node_dep_name: &str) {
        self.nodes[0].dependencies.push(dep_package.id.clone());
        self.nodes[0].deps.push(NodeDep { name: node_dep_name.to_string(), pkg: dep_package.id.clone() });
        self.packages[0].dependencies.push(dep);
        self.nodes.push(node(&dep_package.id));
        self.packages.push(dep_package);
    }

    fn metadata(&self) -> Metadata {
        Metadata {
            packages: self.packages.clone(),
            workspace_members: vec![],
            resolve: Some(Resolve { root: Some(self.packages[0].id.clone()), nodes: self.nodes.clone() }),
        }
    }

    fn indexed_metadata(&self) -> IndexedMetadata {
        let mut metadata = self.metadata();
        metadata.workspace_members = vec![self.packages[0].id.clone()];
        IndexedMetadata::new_from(metadata).unwrap()
    }
}

fn double_futures() -> MetadataEnv {
    let mut env = MetadataEnv::with_root("main");
    let old = package("futures", "0.1.0");
    let mut old_dep = dependency_from_package(&old);
    old_dep.rename = Some("futures01".to_string());
    env.add_dependency(old, old_dep, "futures01");
    let new = package("futures", "0.3.0");
    let mut new_dep = dependency_from_package(&new);
    new_dep.uses_default_features = false;
    new_dep.features = vec!["compat".to_string()];
    env.add_dependency(new, new_dep, "futures");
    env
}

fn paths_for(package: &Package) -> PackagePaths {
    PackagePaths {
        output_dir: "/work".to_string(),
        package_dir: format!("/work/{}", package.name),
        target_paths: package.targets.iter().map(|t| Some(t.src_path.clone())).collect(),
    }
}

fn normal(d: &Dependency) -> bool {
    d.kind == DependencyKind::Normal || d.kind == DependencyKind::Unknown
}

#[test]
fn minimal_resolve() {
    let package = package("main", "1.2.3");
    let node = node(&package.id);
    let metadata = Metadata {
        packages: vec![package.clone()],
        workspace_members: vec![package.id.clone()],
        resolve: Some(Resolve { root: Some(package.id.clone()), nodes: vec![node] }),
    };
    let indexed = IndexedMetadata::new_from(metadata).unwrap();
    println!("indexed root: {:#?}", indexed.root());

    let root_package = indexed.root_package().expect("root package");
    let (crate_derivation, warnings) =
        CrateDerivation::resolve(&paths_for(root_package), &Config::default(), &indexed, root_package).unwrap();
    println!("crate_derivation: {:#?}", crate_derivation);

    assert_eq!(crate_derivation.crate_name, "main");
    assert_eq!(crate_derivation.version, "1.2.3");
    assert_eq!(crate_derivation.is_root_or_workspace_member, true);
    let empty: Vec<String> = vec![];
    assert_eq!(crate_derivation.lib_crate_types, empty);
    assert_eq!(warnings.source, None);
    assert!(!warnings.no_configured_source);
    assert_eq!(
        crate_derivation.source,
        ResolvedSource::LocalDirectory(crate2nix::source::LocalDirectorySource { path: "./main".to_string() })
    );
}

#[test]
fn configured_source_is_used_instead_of_local_directory() {
    // The member is found by the name of the directory as the workspace
    // lists it, whatever that directory is a link to.
    let mut main = package("main", "0.1.0");
    main.manifest_path = "/virtual/workspace/some_crate/Cargo.toml".to_string();
    let metadata = Metadata {
        packages: vec![main.clone()],
        workspace_members: vec![main.id.clone()],
        resolve: Some(Resolve { root: Some(main.id.clone()), nodes: vec![node(&main.id)] }),
    };
    let indexed = IndexedMetadata::new_from(metadata).unwrap();
    let root_package = indexed.root_package().expect("root package");

    let mut crate2nix_json = Config::default();
    let source = Source::CratesIo {
        name: "some_crate".to_string(),
        version: "1.2.3".to_string(),
        sha256: "123".to_string(),
    };
    assert_eq!(crate2nix_json.upsert_source(None, source.clone()), Ok(None));
    let paths = PackagePaths {
        output_dir: "/work".to_string(),
        package_dir: "/nix/store/simulated".to_string(),
        target_paths: vec![],
    };
    let (crate_derivation, warnings) =
        CrateDerivation::resolve(&paths, &crate2nix_json, &indexed, root_package).unwrap();
    println!("crate_derivation: {:#?}", crate_derivation);

    assert!(crate_derivation.is_root_or_workspace_member);
    assert_eq!(
        crate_derivation.source,
        ResolvedSource::CratesIo(CratesIoSource {
            name: "some_crate".to_string(),
            version: "1.2.3".to_string(),
            sha256: Some("123".to_string()),
        })
    );
    assert!(!warnings.no_configured_source);
}

#[test]
fn missing_configured_source_is_reported() {
    let main = package("main", "0.1.0");
    let metadata = Metadata {
        packages: vec![main.clone()],
        workspace_members: vec![main.id.clone()],
        resolve: Some(Resolve { root: Some(main.id.clone()), nodes: vec![node(&main.id)] }),
    };
    let indexed = IndexedMetadata::new_from(metadata).unwrap();
    let root_package = indexed.root_package().unwrap();
    let mut crate2nix_json = Config::default();
    let other = Source::LocalDirectory { path: "/elsewhere".to_string() };
    assert_eq!(crate2nix_json.upsert_source(Some("other".to_string()), other), Ok(None));
    let (derivation, warnings) =
        CrateDerivation::resolve(&paths_for(root_package), &crate2nix_json, &indexed, root_package).unwrap();
    assert!(warnings.no_configured_source);
    assert!(matches!(derivation.source, ResolvedSource::LocalDirectory(_)));
}

#[test]
fn double_crate_with_rename() {
    let env = double_futures();
    let indexed = env.indexed_metadata();
    let root_package = indexed.root_package().expect("root package");
    let (crate_derivation, _) =
        CrateDerivation::resolve(&paths_for(root_package), &Config::default(), &indexed, root_package).unwrap();
    println!("crate_derivation: {:#?}", crate_derivation);
    assert_eq!(crate_derivation.dependencies.len(), 2);
    // One resolved dependency for each declared requirement, in the order of the identifiers.
    assert_eq!(crate_derivation.dependencies[0].package_id.repr, "futures 0.1.0");
    assert_eq!(crate_derivation.dependencies[0].rename, Some("futures01".to_string()));
    assert_eq!(crate_derivation.dependencies[1].package_id.repr, "futures 0.3.0");
    assert_eq!(crate_derivation.dependencies[1].features, vec!["compat".to_string()]);
    assert!(!crate_derivation.dependencies[1].uses_default_features);
    assert!(crate_derivation.build_dependencies.is_empty());
    assert!(crate_derivation.dev_dependencies.is_empty());
}

#[test]
fn resolved_dependencies_new_with_double_crate() {
    let env = double_futures();
    let indexed = env.indexed_metadata();
    let root_package = indexed.root_package().expect("root package");
    let resolved_deps = ResolvedDependencies::new(&indexed, root_package).unwrap();
    assert_eq!(resolved_deps.len(), 1);
    assert!(resolved_deps.contains_key("futures"));
    assert_eq!(resolved_deps.count("futures"), 2);
}

#[test]
fn resolved_dependencies_filtered_dependencies_with_double_crate() {
    let env = double_futures();
    let indexed = env.indexed_metadata();
    let root_package = indexed.root_package().expect("root package");
    let resolved_deps = ResolvedDependencies::new(&indexed, root_package).unwrap();
    let filtered_deps = resolved_deps.filtered_dependencies(normal).unwrap();
    assert_eq!(filtered_deps.len(), 2);
}

#[test]
fn filter_selects_by_kind() {
    let mut env = MetadataEnv::with_root("main");
    let a = package("a", "1.0.0");
    let mut a_dep = dependency_from_package(&a);
    a_dep.kind = DependencyKind::Build;
    env.add_dependency(a, a_dep, "a");
    let b = package("b", "1.0.0");
    let mut b_dep = dependency_from_package(&b);
    b_dep.kind = DependencyKind::Development;
    env.add_dependency(b, b_dep, "b");
    let c = package("c", "1.0.0");
    let mut c_dep = dependency_from_package(&c);
    c_dep.kind = DependencyKind::Unknown;
    env.add_dependency(c, c_dep, "c");

    let indexed = env.indexed_metadata();
    let root = indexed.root_package().unwrap();
    let (d, _) = CrateDerivation::resolve(&paths_for(root), &Config::default(), &indexed, root).unwrap();
    let ids = |list: &Vec<crate2nix::resolve::ResolvedDependency>| -> Vec<String> {
        list.iter().map(|d| d.package_id.repr.clone()).collect()
    };
    assert_eq!(ids(&d.build_dependencies), vec!["a"]);
    assert_eq!(ids(&d.dev_dependencies), vec!["b"]);
    assert_eq!(ids(&d.dependencies), vec!["c"]);
    assert_eq!(crate2nix::derivation::marks_of(root, DependencyGroup::Build), vec![true, false, false]);
    assert_eq!(crate2nix::derivation::marks_of(root, DependencyGroup::Dev), vec![false, true, false]);
    assert_eq!(crate2nix::derivation::marks_of(root, DependencyGroup::Normal), vec![false, false, true]);
}

#[test]
fn requirement_without_candidate_is_dropped() {
    let mut env = MetadataEnv::with_root("main");
    let a = package("a", "1.0.0");
    let a_dep = dependency_from_package(&a);
    env.add_dependency(a, a_dep, "a");
    // Declared, but not in the graph: an optional dependency that is not activated.
    let absent = package("absent", "1.0.0");
    env.packages[0].dependencies.push(dependency_from_package(&absent));
    // In the graph, but no version satisfies the requirement.
    let mut unmet = dependency_from_package(&package("a", "2.0.0"));
    unmet.rename = Some("a2".to_string());
    env.packages[0].dependencies.push(unmet);

    let indexed = env.indexed_metadata();
    let root = indexed.root_package().unwrap();
    let resolved = ResolvedDependencies::new(&indexed, root).unwrap();
    let list = resolved.filtered_dependencies(normal).unwrap();
    assert_eq!(list.len(), 1);
    assert_eq!(list[0].name, "a");
    assert_eq!(resolved.resolve_selected(&vec![false, true, true]).unwrap().len(), 0);
}

#[test]
fn ambiguous_requirement_is_a_failure() {
    let mut env = MetadataEnv::with_root("main");
    let mut one = package("foo", "1.0.0");
    one.source = Some(CRATES_IO.to_string());
    let mut two = package("foo", "2.0.0");
    two.source = Some(CRATES_IO.to_string());
    let mut dep = dependency_from_package(&one);
    dep.req = "*".to_string();
    env.add_dependency(one, dep, "foo");
    // The second package hangs on the graph without a requirement of its own.
    env.nodes[0].deps.push(NodeDep { name: "foo".to_string(), pkg: two.id.clone() });
    env.nodes.push(node(&two.id));
    env.packages.push(two);

    let indexed = env.indexed_metadata();
    let root = indexed.root_package().unwrap();
    let resolved = ResolvedDependencies::new(&indexed, root).unwrap();
    assert_eq!(
        resolved.filtered_dependencies(normal),
        Err(ResolveError::AmbiguousDependency { name: "foo".to_string() })
    );
    // A requirement that does not count cannot be ambiguous.
    assert_eq!(resolved.filtered_dependencies(|d| d.kind == DependencyKind::Build), Ok(vec![]));
    let failed = CrateDerivation::resolve(&paths_for(root), &Config::default(), &indexed, root);
    assert_eq!(failed.err(), Some(ResolveError::AmbiguousDependency { name: "foo".to_string() }));
}

#[test]
fn source_breaks_the_tie_between_revisions() {
    let mut env = MetadataEnv::with_root("main");
    let mut one = package("lib", "0.1.0");
    one.id = PackageId { repr: "lib 0.1.0 (git+https://github.com/x/lib?rev=aaa#aaa111)".to_string() };
    one.source = Some("git+https://github.com/x/lib?rev=aaa#aaa111".to_string());
    let mut two = package("lib", "0.1.0");
    two.id = PackageId { repr: "lib 0.1.0 (git+https://github.com/x/lib?rev=bbb#bbb222)".to_string() };
    two.source = Some("git+https://github.com/x/lib?rev=bbb#bbb222".to_string());

    let mut first = dependency_from_package(&one);
    first.source = Some("git+https://github.com/x/lib?rev=aaa".to_string());
    first.rename = Some("lib_a".to_string());
    let mut second = dependency_from_package(&two);
    second.source = Some("git+https://github.com/x/lib?rev=bbb".to_string());
    second.rename = Some("lib_b".to_string());
    env.add_dependency(one.clone(), first, "lib_a");
    env.add_dependency(two.clone(), second, "lib_b");

    let indexed = env.indexed_metadata();
    let root = indexed.root_package().unwrap();
    let resolved = ResolvedDependencies::new(&indexed, root).unwrap();
    let list = resolved.filtered_dependencies(normal).unwrap();
    assert_eq!(list.len(), 2);
    assert_eq!(list[0].package_id, one.id);
    assert_eq!(list[0].rename, Some("lib_a".to_string()));
    assert_eq!(list[1].package_id, two.id);
    assert_eq!(list[1].rename, Some("lib_b".to_string()));
}

#[test]
fn prerelease_is_matched_after_stripping() {
    let mut env = MetadataEnv::with_root("main");
    let pre = package("pre", "1.0.0-alpha.1+build.5");
    let mut dep = dependency_from_package(&pre);
    dep.req = "*".to_string();
    env.add_dependency(pre, dep, "pre");
    let indexed = env.indexed_metadata();
    let root = indexed.root_package().unwrap();
    let resolved = ResolvedDependencies::new(&indexed, root).unwrap();
    let list = resolved.filtered_dependencies(normal).unwrap();
    assert_eq!(list.len(), 1);
    assert_eq!(list[0].package_id.repr, "pre");
}

#[test]
fn resolved_dependencies_are_sorted_by_package_id() {
    let mut env = MetadataEnv::with_root("main");
    for name in ["zeta", "alpha", "mid"] {
        let p = package(name, "1.0.0");
        let d = dependency_from_package(&p);
        env.add_dependency(p, d, name);
    }
    let indexed = env.indexed_metadata();
    let root = indexed.root_package().unwrap();
    let resolved = ResolvedDependencies::new(&indexed, root).unwrap();
    let list = resolved.filtered_dependencies(normal).unwrap();
    let ids: Vec<&str> = list.iter().map(|d| d.package_id.repr.as_str()).collect();
    assert_eq!(ids, vec!["alpha", "mid", "zeta"]);
}

#[test]
fn missing_node_is_a_failure() {
    let main = package("main", "0.1.0");
    let metadata = Metadata {
        packages: vec![main.clone()],
        workspace_members: vec![main.id.clone()],
        resolve: Some(Resolve { root: Some(main.id.clone()), nodes: vec![] }),
    };
    let indexed = IndexedMetadata::new_from(metadata).unwrap();
    let root = indexed.root_package().unwrap();
    assert_eq!(
        ResolvedDependencies::new(&indexed, root).err(),
        Some(ResolveError::MissingNode { package_id: PackageId { repr: "main".to_string() } })
    );
    assert!(matches!(
        CrateDerivation::resolve(&paths_for(root), &Config::default(), &indexed, root),
        Err(ResolveError::MissingNode { .. })
    ));
}

#[test]
fn missing_edge_package_is_a_failure() {
    let main = package("main", "0.1.0");
    let mut main_node = node(&main.id);
    let gone = PackageId { repr: "gone 1.0.0".to_string() };
    main_node.deps.push(NodeDep { name: "gone".to_string(), pkg: gone.clone() });
    let metadata = Metadata {
        packages: vec![main.clone()],
        workspace_members: vec![main.id.clone()],
        resolve: Some(Resolve { root: Some(main.id.clone()), nodes: vec![main_node] }),
    };
    let indexed = IndexedMetadata::new_from(metadata).unwrap();
    let root = indexed.root_package().unwrap();
    assert_eq!(
        ResolvedDependencies::new(&indexed, root).err(),
        Some(ResolveError::MissingPackage { package_id: gone })
    );
}

#[test]
fn package_names_are_normalized() {
    assert_eq!(normalize_package_name("my-crate-name"), "my_crate_name");
    assert_eq!(normalize_package_name("plain"), "plain");
    assert_eq!(normalize_package_name(""), "");
}

#[test]
fn hyphenated_dependency_finds_its_package() {
    let mut env = MetadataEnv::with_root("main");
    let p = package("with-hyphen", "1.0.0");
    let d = dependency_from_package(&p);
    env.add_dependency(p, d, "with_hyphen");
    let indexed = env.indexed_metadata();
    let root = indexed.root_package().unwrap();
    let resolved = ResolvedDependencies::new(&indexed, root).unwrap();
    assert!(resolved.contains_key("with_hyphen"));
    assert!(!resolved.contains_key("with-hyphen"));
    assert_eq!(resolved.filtered_dependencies(normal).unwrap().len(), 1);
}

#[test]
fn version_metadata_is_stripped() {
    assert_eq!(strip_metadata("1.2.3"), "1.2.3");
    assert_eq!(strip_metadata("1.2.3-alpha.1"), "1.2.3");
    assert_eq!(strip_metadata("1.2.3+build"), "1.2.3");
    assert_eq!(strip_metadata("1.2.3-rc-1+b"), "1.2.3");
    assert_eq!(strip_metadata(""), "");
}

#[test]
fn sources_are_compared_by_place_and_parameters() {
    let s = |t: &str| Some(t.to_string());
    assert!(sources_match(&None, &None));
    assert!(!sources_match(&None, &s(CRATES_IO)));
    assert!(!sources_match(&s(CRATES_IO), &None));
    assert!(sources_match(&s(CRATES_IO), &s(CRATES_IO)));
    assert!(sources_match(&s("git+https://h.org/r?rev=a"), &s("git+https://h.org/r?rev=a#a123")));
    assert!(sources_match(&s("git+https://h.org/r"), &s("git+https://h.org/r?rev=a#a123")));
    assert!(!sources_match(&s("git+https://h.org/r?rev=a"), &s("git+https://h.org/r?rev=b#b123")));
    assert!(!sources_match(&s("git+https://h.org/r?rev=a"), &s("git+https://h.org/r#a123")));
    assert!(!sources_match(&s("git+https://h.org/r?rev=a"), &s("git+https://h.org/other?rev=a")));
    assert!(!sources_match(&s("git+https://h.org/r?rev=a"), &s("git+https://other.org/r?rev=a")));
    assert!(!sources_match(&s("git+https://h.org/r?rev=a"), &s("git+http://h.org/r?rev=a")));
    // Of several values for one key of the package the last counts.
    assert!(sources_match(&s("git+https://h.org/r?rev=b"), &s("git+https://h.org/r?rev=a&rev=b")));
    assert!(!sources_match(&s("git+https://h.org/r?rev=a"), &s("git+https://h.org/r?rev=a&rev=b")));
    assert!(!sources_match(&s("no url"), &s("no url")));
}

#[test]
fn build_targets_and_crate_types_are_read_off_the_targets() {
    let mut main = package("main", "0.1.0");
    main.features = vec![FeatureRule { name: "default".to_string(), enables: vec!["std".to_string()] }];
    main.authors = vec!["someone".to_string()];
    let target = |name: &str, kind: &[&str], types: &[&str], path: &str| Target {
        name: name.to_string(),
        kind: kind.iter().map(|s| s.to_string()).collect(),
        crate_types: types.iter().map(|s| s.to_string()).collect(),
        src_path: path.to_string(),
    };
    main.targets = vec![
        target("main", &["bin"], &["bin"], "/work/main/src/main.rs"),
        target("mainlib", &["cdylib", "rlib"], &["cdylib", "rlib"], "/work/main/src/lib.rs"),
        target("macros", &["proc-macro"], &["proc-macro"], "/work/main/macros/lib.rs"),
        target("plain", &["lib"], &["lib", "rlib"], "/work/main/plain/lib.rs"),
        target("build-script-build", &["custom-build"], &["bin"], "/work/main/build.rs"),
        target("tool", &["bin"], &["bin"], "/elsewhere/tool.rs"),
        target("ghost", &["bin"], &["bin"], "/work/main/src/ghost.rs"),
    ];
    let mut main_node = node(&main.id);
    main_node.features = vec!["default".to_string(), "std".to_string()];
    let metadata = Metadata {
        packages: vec![main.clone()],
        workspace_members: vec![],
        resolve: Some(Resolve { root: None, nodes: vec![main_node] }),
    };
    let indexed = IndexedMetadata::new_from(metadata).unwrap();
    let p = indexed.package_at(0);
    let mut paths = paths_for(p);
    // The last source file does not exist.
    paths.target_paths[6] = None;
    let (d, _) = CrateDerivation::resolve(&paths, &Config::default(), &indexed, p).unwrap();
    assert!(!d.is_root_or_workspace_member);
    assert!(d.proc_macro);
    assert_eq!(
        d.lib,
        Some(BuildTarget { name: "macros".to_string(), src_path: "macros/lib.rs".to_string() })
    );
    assert_eq!(
        d.build,
        Some(BuildTarget { name: "build-script-build".to_string(), src_path: "build.rs".to_string() })
    );
    assert_eq!(
        d.binaries,
        vec![BuildTarget { name: "main".to_string(), src_path: "src/main.rs".to_string() }]
    );
    assert_eq!(d.lib_crate_types, vec!["cdylib", "rlib", "lib"]);
    assert_eq!(d.features, main.features);
    assert_eq!(d.resolved_default_features, vec!["default", "std"]);
    assert_eq!(d.authors, vec!["someone"]);
    assert_eq!(d.edition, "2018");
    assert_eq!(d.package_id.repr, "main");
}

#[test]
fn build_target_is_relative_to_the_package() {
    let t = Target {
        name: "x".to_string(),
        kind: vec!["lib".to_string()],
        crate_types: vec!["lib".to_string()],
        src_path: "/a/b/src/lib.rs".to_string(),
    };
    assert_eq!(
        BuildTarget::new(&t, "/a/b/src/lib.rs", "/a/b"),
        Some(BuildTarget { name: "x".to_string(), src_path: "src/lib.rs".to_string() })
    );
    assert_eq!(BuildTarget::new(&t, "/a/b/src/lib.rs", "/a/c"), None);
    // Whole components count, not characters.
    assert_eq!(BuildTarget::new(&t, "/a/bb/lib.rs", "/a/b"), None);
}

#[test]
fn git_source_warning_is_passed_on() {
    let mut main = package("main", "0.1.0");
    main.source = Some("git+https://github.com/x/main".to_string());
    let metadata = Metadata {
        packages: vec![main.clone()],
        workspace_members: vec![],
        resolve: Some(Resolve { root: None, nodes: vec![node(&main.id)] }),
    };
    let indexed = IndexedMetadata::new_from(metadata).unwrap();
    let p = indexed.package_at(0);
    let (d, warnings) = CrateDerivation::resolve(&paths_for(p), &Config::default(), &indexed, p).unwrap();
    assert_eq!(warnings.source, Some(SourceWarning::NoRevision));
    assert!(matches!(d.source, ResolvedSource::LocalDirectory(_)));
}
