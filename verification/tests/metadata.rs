use crate2nix::index::IndexedMetadata;
use crate2nix::metadata::{
    Dependency, DependencyKind, MergedMetadata, Metadata, MetadataError, Node, NodeDep, Package, PackageId,
    Resolve,
};
use crate2nix::shortener::PackageIdShortener;

fn crates_io_package_id(name: &str, version: &str) -> PackageId {
    PackageId {
        repr: format!("{} {} (registry+https://github.com/rust-lang/crates.io-index)", name, version),
    }
}

/// A package with the least data that makes it a package.
fn package(name: &str, version: &str) -> Package {
    Package {
        name: name.to_string(),
        version: version.to_string(),
        id: crates_io_package_id(name, version),
        source: None,
        manifest_path: format!("/tmp/crate2nix_crate_{}_{}/Cargo.toml", name, version),
        edition: "2018".to_string(),
        authors: vec![],
        dependencies: vec![],
        targets: vec![],
        features: vec![],
    }
}

fn package_with_id(name: &str, version: &str, id: &str) -> Package {
    let mut p = package(name, version);
    p.id = PackageId { repr: id.to_string() };
    p
}

fn node(package_id: &str) -> Node {
    Node { id: PackageId { repr: package_id.to_string() }, dependencies: vec![], deps: vec![], features: vec![] }
}

fn empty_resolve() -> Resolve {
    Resolve { root: None, nodes: vec![] }
}

fn empty_metadata() -> Metadata {
    Metadata { packages: vec![], workspace_members: vec![], resolve: None }
}

fn id(repr: &str) -> PackageId {
    PackageId { repr: repr.to_string() }
}

#[test]
fn test_package() {
    println!("{:#?}", package("test", "0.1.0"));
}

#[test]
fn test_valid_node() {
    println!("{:#?}", node("bogus package id"));
}

#[test]
fn test_valid_empty_resolve() {
    println!("{:#?}", empty_resolve());
}

#[test]
fn test_valid_empty_metadata() {
    println!("{:#?}", empty_metadata());
}

#[test]
fn echo_foo_test() {
    println!("echo_foo_test");
}

#[test]
fn package_helper_builds_registry_identifier() {
    let p = package("test", "0.1.0");
    assert_eq!(p.id.repr, "test 0.1.0 (registry+https://github.com/rust-lang/crates.io-index)");
    assert_eq!(p.name, "test");
    assert_eq!(p.version, "0.1.0");
}

#[test]
fn merge_concatenates_snapshots() {
    let mut first = empty_metadata();
    first.packages = vec![package("a", "1.0.0")];
    first.workspace_members = vec![id("a-id")];
    first.resolve = Some(Resolve { root: Some(id("a-id")), nodes: vec![node("a-id")] });
    let mut second = empty_metadata();
    second.packages = vec![package("b", "2.0.0"), package("c", "3.0.0")];
    second.workspace_members = vec![id("b-id")];
    second.resolve = Some(Resolve { root: None, nodes: vec![node("b-id"), node("c-id")] });

    let merged = MergedMetadata::merge(vec![first, second]).unwrap();
    let names: Vec<&str> = merged.packages.iter().map(|p| p.name.as_str()).collect();
    assert_eq!(names, vec!["a", "b", "c"]);
    let nodes: Vec<&str> = merged.nodes.iter().map(|n| n.id.repr.as_str()).collect();
    assert_eq!(nodes, vec!["a-id", "b-id", "c-id"]);
    assert_eq!(merged.workspace_members, vec![id("a-id"), id("b-id")]);
    // Two workspace members: there is no single root.
    assert_eq!(merged.root, None);
}

#[test]
fn merge_of_one_member_has_that_member_as_root() {
    let mut only = empty_metadata();
    only.packages = vec![package("a", "1.0.0")];
    only.workspace_members = vec![id("a-id")];
    only.resolve = Some(empty_resolve());
    let merged = MergedMetadata::merge(vec![only]).unwrap();
    assert_eq!(merged.root, Some(id("a-id")));
}

#[test]
fn merge_without_members_has_no_root() {
    let mut only = empty_metadata();
    only.resolve = Some(Resolve { root: Some(id("a-id")), nodes: vec![] });
    let merged = MergedMetadata::merge(vec![only]).unwrap();
    assert_eq!(merged.root, None);
}

#[test]
fn merge_refuses_snapshot_without_resolve() {
    let mut first = empty_metadata();
    first.resolve = Some(empty_resolve());
    let second = empty_metadata();
    assert_eq!(MergedMetadata::merge(vec![first, second]), Err(MetadataError::NoResolve));
}

#[test]
fn root_missing_from_members_is_noticed() {
    let mut m = empty_metadata();
    m.resolve = Some(Resolve { root: Some(id("a-id")), nodes: vec![] });
    assert!(m.root_missing_from_members());
    m.workspace_members = vec![id("b-id"), id("a-id")];
    assert!(!m.root_missing_from_members());
    m.resolve = Some(empty_resolve());
    assert!(!m.root_missing_from_members());
    m.resolve = None;
    assert!(!m.root_missing_from_members());
}

#[test]
fn shortener_uses_bare_names_without_collisions() {
    let packages = vec![package("alpha", "1.0.0"), package("beta", "1.0.0"), package("gamma", "0.3.1")];
    let shortener = PackageIdShortener::new(&packages);
    for p in &packages {
        let short = shortener.shorten(&p.id);
        assert_eq!(short.repr, p.name);
        assert_eq!(shortener.lengthen_ref(&short), &p.id);
        assert_eq!(shortener.shorten_ref(&p.id), &short);
        assert_eq!(shortener.shorten_owned(p.id.clone()), short);
    }
}

#[test]
fn shortener_uses_name_and_version_for_colliding_names() {
    let packages = vec![package("futures", "0.1.0"), package("futures", "0.3.0"), package("other", "1.0.0")];
    let shortener = PackageIdShortener::new(&packages);
    assert_eq!(shortener.shorten(&packages[0].id).repr, "futures 0.1.0");
    assert_eq!(shortener.shorten(&packages[1].id).repr, "futures 0.3.0");
    assert_eq!(shortener.shorten(&packages[2].id).repr, "other");
    for p in &packages {
        let short = shortener.shorten(&p.id);
        assert_eq!(shortener.lengthen_ref(&short), &p.id);
    }
}

#[test]
fn shortener_keeps_full_ids_on_true_collision() {
    let packages = vec![
        package_with_id("dup", "1.0.0", "dup 1.0.0 (registry+https://example.com/one)"),
        package_with_id("dup", "1.0.0", "dup 1.0.0 (registry+https://example.com/two)"),
        package_with_id("dup", "2.0.0", "dup 2.0.0 (registry+https://example.com/one)"),
        package("single", "1.0.0"),
    ];
    let shortener = PackageIdShortener::new(&packages);
    // One clash in the group spoils the whole group.
    for p in &packages[0..3] {
        assert_eq!(shortener.shorten(&p.id), p.id);
        assert_eq!(shortener.lengthen_ref(&p.id), &p.id);
    }
    assert_eq!(shortener.shorten(&packages[3].id).repr, "single");
}

#[test]
fn shortener_leaves_unknown_ids_alone() {
    let packages = vec![package("alpha", "1.0.0")];
    let shortener = PackageIdShortener::new(&packages);
    let unknown = id("something else");
    assert_eq!(shortener.shorten(&unknown), unknown);
    assert_eq!(shortener.lengthen_ref(&unknown), &unknown);
}

#[test]
fn index_shortens_every_identifier() {
    let main = package("main", "1.2.3");
    let dep = package("dep", "0.1.0");
    let mut main_node = node(&main.id.repr);
    main_node.dependencies = vec![dep.id.clone()];
    main_node.deps = vec![NodeDep { name: "dep".to_string(), pkg: dep.id.clone() }];
    let dep_node = node(&dep.id.repr);
    let metadata = Metadata {
        packages: vec![main.clone(), dep.clone()],
        workspace_members: vec![main.id.clone()],
        resolve: Some(Resolve { root: Some(main.id.clone()), nodes: vec![main_node, dep_node] }),
    };
    let indexed = IndexedMetadata::new_from(metadata).unwrap();
    assert_eq!(indexed.root(), Some(&id("main")));
    assert_eq!(indexed.workspace_members(), &vec![id("main")]);
    let root = indexed.root_package().expect("root package");
    assert_eq!(root.name, "main");
    assert_eq!(root.id, id("main"));
    let node = indexed.node_by_id(&id("main")).expect("node");
    assert_eq!(node.dependencies, vec![id("dep")]);
    assert_eq!(node.deps[0].pkg, id("dep"));
    assert!(indexed.package_by_id(&id("dep")).is_some());
    assert!(indexed.package_by_id(&dep.id).is_none());
    // The packages are walked in the order of their identifiers.
    assert_eq!(indexed.package_count(), 2);
    assert_eq!(indexed.package_at(0).name, "dep");
    assert_eq!(indexed.package_at(1).name, "main");
    assert_eq!(indexed.id_shortener().lengthen_ref(&id("dep")), &dep.id);
}

#[test]
fn index_refuses_duplicate_package_ids() {
    let a = package("same", "1.0.0");
    let metadata = Metadata {
        packages: vec![a.clone(), a.clone()],
        workspace_members: vec![],
        resolve: Some(empty_resolve()),
    };
    assert!(matches!(IndexedMetadata::new_from(metadata), Err(MetadataError::DuplicatePackageId)));
}

#[test]
fn index_refuses_ids_that_collapse_after_shortening() {
    // The full identifier of one package is the short form of the other.
    let a = package_with_id("x", "1.0.0", "full id of x");
    let b = package_with_id("y", "1.0.0", "y 1.0.0");
    let c = package_with_id("y", "1.0.0", "x");
    let metadata = Metadata {
        packages: vec![a, b, c],
        workspace_members: vec![],
        resolve: Some(empty_resolve()),
    };
    assert!(matches!(IndexedMetadata::new_from(metadata), Err(MetadataError::DuplicatePackageId)));
}

#[test]
fn index_refuses_duplicate_node_ids() {
    let a = package("a", "1.0.0");
    let metadata = Metadata {
        packages: vec![a.clone()],
        workspace_members: vec![],
        resolve: Some(Resolve { root: None, nodes: vec![node(&a.id.repr), node(&a.id.repr)] }),
    };
    assert!(matches!(IndexedMetadata::new_from(metadata), Err(MetadataError::DuplicateNodeId)));
}

#[test]
fn index_refuses_metadata_without_resolve() {
    assert!(matches!(IndexedMetadata::new_from(empty_metadata()), Err(MetadataError::NoResolve)));
}

#[test]
fn dependency_kinds_are_distinct() {
    let d = Dependency {
        name: "x".to_string(),
        source: None,
        req: "*".to_string(),
        kind: DependencyKind::Build,
        optional: false,
        uses_default_features: true,
        features: vec![],
        target: None,
        rename: None,
    };
    assert_eq!(d.clone(), d);
    assert_ne!(DependencyKind::Build, DependencyKind::Normal);
}
