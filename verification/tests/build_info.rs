use crate2nix::build_info::{
    extract_hashes_from_lockfile, fill_crates_sha256, missing_hashes, BuildInfo, GenerateConfig, GenerateInfo,
};
use crate2nix::config::Config;
use crate2nix::derivation::{CrateDerivation, PackagePaths};
use crate2nix::index::IndexedMetadata;
use crate2nix::lock::{EncodableDependency, EncodableResolve};
use crate2nix::metadata::{
    Dependency, DependencyKind, MergedMetadata, Metadata, Node, NodeDep, Package, PackageId, Resolve,
};
use crate2nix::prune::prune;
use crate2nix::resolve::{ResolveError, ResolvedDependency};
use crate2nix::shortener::PackageIdShortener;
use crate2nix::sorted_map::SortedMap;
use crate2nix::source::{CratesIoSource, LocalDirectorySource, ResolvedSource};

const REG: &str = "registry+https://github.com/rust-lang/crates.io-index";

fn package(name: &str, deps: &[(&str, DependencyKind)]) -> Package {
    Package {
        name: name.to_string(),
        version: "1.0.0".to_string(),
        id: PackageId { repr: format!("{} 1.0.0 ({})", name, REG) },
        source: Some(REG.to_string()),
        manifest_path: format!("/work/{}/Cargo.toml", name),
        edition: "2021".to_string(),
        authors: vec![],
        dependencies: deps
            .iter()
            .map(|(dep, kind)| Dependency {
                name: dep.to_string(),
                source: Some(REG.to_string()),
                req: "^1".to_string(),
                kind: *kind,
                optional: false,
                uses_default_features: true,
                features: vec![],
                target: None,
                rename: None,
            })
            .collect(),
        targets: vec![],
        features: vec![],
    }
}

fn node(package: &Package, deps: &[&Package]) -> Node {
    Node {
        id: package.id.clone(),
        dependencies: deps.iter().map(|d| d.id.clone()).collect(),
        deps: deps.iter().map(|d| NodeDep { name: d.name.clone(), pkg: d.id.clone() }).collect(),
        features: vec![],
    }
}

fn config() -> GenerateConfig {
    GenerateConfig {
        cargo_toml: vec!["./Cargo.toml".to_string()],
        use_cargo_lock_checksums: true,
        output: "/work/Cargo.nix".to_string(),
        crate_hashes_json: "/work/crate-hashes.json".to_string(),
        registry_hashes_json: "/work/registry-hashes.json".to_string(),
        nixpkgs_path: "<nixpkgs>".to_string(),
        other_metadata_options: vec![],
        read_crate_hashes: true,
    }
}

fn paths(indexed: &IndexedMetadata) -> Vec<PackagePaths> {
    (0..indexed.package_count())
        .map(|i| PackagePaths {
            output_dir: "/work".to_string(),
            package_dir: format!("/work/{}", indexed.package_at(i).name),
            target_paths: vec![],
        })
        .collect()
}

/// main -> a -> b (build), main -> c (dev), and d that nothing needs.
fn sample() -> Metadata {
    let main = package("main", &[("a", DependencyKind::Normal), ("c", DependencyKind::Development)]);
    let a = package("a", &[("b", DependencyKind::Build)]);
    let b = package("b", &[]);
    let c = package("c", &[]);
    let d = package("d", &[("b", DependencyKind::Normal)]);
    let nodes = vec![node(&main, &[&a, &c]), node(&a, &[&b]), node(&b, &[]), node(&c, &[]), node(&d, &[&b])];
    Metadata {
        workspace_members: vec![main.id.clone()],
        resolve: Some(Resolve { root: Some(main.id.clone()), nodes }),
        packages: vec![main, a, b, c, d],
    }
}

fn names(crates: &[CrateDerivation]) -> Vec<&str> {
    crates.iter().map(|c| c.crate_name.as_str()).collect()
}

#[test]
fn build_info_holds_a_record_for_every_package() {
    let indexed = IndexedMetadata::new_from(sample()).unwrap();
    let all_paths = paths(&indexed);
    let info = GenerateInfo::new("0.1.0".to_string(), vec![]);
    let (mut build_info, warnings) =
        BuildInfo::new(&info, &config(), indexed, &Config::default(), &all_paths).unwrap();
    assert_eq!(names(&build_info.crates), vec!["a", "b", "c", "d", "main"]);
    assert_eq!(warnings.len(), 5);
    assert_eq!(build_info.root_package_id, Some(PackageId { repr: "main".to_string() }));
    assert_eq!(build_info.workspace_members.len(), 1);
    assert_eq!(build_info.workspace_members.get("main"), Some(&PackageId { repr: "main".to_string() }));
    assert_eq!(build_info.registries.len(), 0);
    assert_eq!(build_info.info, info);
    assert_eq!(build_info.config, config());
    let main = &build_info.crates[4];
    assert_eq!(main.dependencies.len(), 1);
    assert_eq!(main.dependencies[0].package_id.repr, "a");
    assert_eq!(main.dev_dependencies[0].package_id.repr, "c");
    assert_eq!(build_info.crates[0].build_dependencies[0].package_id.repr, "b");

    build_info.prune_unneeded_crates();
    assert_eq!(names(&build_info.crates), vec!["a", "b", "c", "main"]);
}

#[test]
fn build_info_fails_with_the_first_failure() {
    let mut metadata = sample();
    // The node of `c` is lost.
    if let Some(resolve) = metadata.resolve.as_mut() {
        resolve.nodes.remove(3);
    }
    let indexed = IndexedMetadata::new_from(metadata).unwrap();
    let all_paths = paths(&indexed);
    let info = GenerateInfo::new("0.1.0".to_string(), vec![]);
    let failed = BuildInfo::new(&info, &config(), indexed, &Config::default(), &all_paths);
    assert_eq!(failed.err(), Some(ResolveError::MissingNode { package_id: PackageId { repr: "c".to_string() } }));
}

fn record(id: &str, deps: &[&str], build: &[&str], dev: &[&str]) -> CrateDerivation {
    let list = |ids: &[&str]| -> Vec<ResolvedDependency> {
        ids.iter()
            .map(|id| ResolvedDependency {
                name: id.to_string(),
                rename: None,
                package_id: PackageId { repr: id.to_string() },
                target: None,
                optional: false,
                uses_default_features: true,
                features: vec![],
            })
            .collect()
    };
    CrateDerivation {
        package_id: PackageId { repr: id.to_string() },
        crate_name: id.to_string(),
        edition: "2021".to_string(),
        authors: vec![],
        version: "1.0.0".to_string(),
        source: ResolvedSource::CratesIo(CratesIoSource {
            name: id.to_string(),
            version: "1.0.0".to_string(),
            sha256: None,
        }),
        lib_crate_types: vec![],
        dependencies: list(deps),
        build_dependencies: list(build),
        dev_dependencies: list(dev),
        features: vec![],
        resolved_default_features: vec![],
        build: None,
        lib: None,
        binaries: vec![],
        proc_macro: false,
        is_root_or_workspace_member: false,
    }
}

#[test]
fn prune_keeps_what_is_reached_from_the_roots() {
    let crates = || {
        vec![
            record("z", &["y"], &[], &[]),
            record("root", &["a"], &["b"], &["c"]),
            record("a", &["root", "a", "gone"], &[], &[]),
            record("b", &[], &[], &["e"]),
            record("c", &[], &[], &[]),
            record("d", &["a"], &[], &[]),
            record("e", &[], &[], &[]),
            record("y", &["z"], &[], &[]),
        ]
    };
    let roots = |ids: &[&str]| -> Vec<String> { ids.iter().map(|s| s.to_string()).collect() };
    assert_eq!(names(&prune(crates(), &roots(&["root"]))), vec!["root", "a", "b", "c", "e"]);
    assert_eq!(names(&prune(crates(), &roots(&["d", "absent"]))), vec!["root", "a", "b", "c", "d", "e"]);
    assert_eq!(names(&prune(crates(), &roots(&["y", "y"]))), vec!["z", "y"]);
    assert_eq!(names(&prune(crates(), &roots(&[]))), Vec::<&str>::new());
    assert_eq!(names(&prune(vec![], &roots(&["root"]))), Vec::<&str>::new());
}

#[test]
fn hashes_are_filled_from_the_lock_data_first() {
    let mut p = package("a", &[]);
    p.id = PackageId { repr: "a (full)".to_string() };
    let shortener = PackageIdShortener::new(&vec![p]);
    let mut crates = vec![
        record("a", &[], &[], &[]),
        record("b", &[], &[], &[]),
        record("c", &[], &[], &[]),
        record("d", &[], &[], &[]),
    ];
    crates[2].source = crates[2].source.with_sha256("already".to_string());
    crates[3].source = ResolvedSource::LocalDirectory(LocalDirectorySource { path: "./d".to_string() });
    let mut prefetched: SortedMap<String> = SortedMap::new();
    prefetched.insert("a (full)".to_string(), "fetched a".to_string());
    prefetched.insert("c".to_string(), "fetched c".to_string());
    prefetched.insert("d".to_string(), "fetched d".to_string());
    prefetched.insert("e".to_string(), "fetched e".to_string());
    let mut lock: SortedMap<String> = SortedMap::new();
    lock.insert("b".to_string(), "locked b".to_string());
    lock.insert("e".to_string(), "locked e".to_string());
    crates.push(record("e", &[], &[], &[]));
    crates.push(record("f", &[], &[], &[]));
    fill_crates_sha256(&mut crates, &prefetched, &lock, &shortener);
    let hashes: Vec<Option<&String>> = crates.iter().map(|c| c.source.sha256()).collect();
    assert_eq!(
        hashes,
        vec![
            Some(&"fetched a".to_string()),
            Some(&"locked b".to_string()),
            Some(&"already".to_string()),
            None,
            Some(&"locked e".to_string()),
            None,
        ]
    );
}

#[test]
fn lock_hashes_are_extracted_under_short_ids() {
    let metadata = sample();
    let merged = MergedMetadata::merge(vec![metadata]).unwrap();
    let shortener = PackageIdShortener::new(&merged.packages);
    let lock_package = |name: &str, checksum: Option<&str>| EncodableDependency {
        name: name.to_string(),
        version: "1.0.0".to_string(),
        source: Some(REG.to_string()),
        checksum: checksum.map(|s| s.to_string()),
        dependencies: None,
        replace: None,
    };
    let lock = EncodableResolve {
        package: vec![lock_package("a", Some("aa")), lock_package("b", Some("bb")), lock_package("c", None)],
        root: None,
        metadata: None,
    };
    let crates = vec![record("a", &[], &[], &[]), record("c", &[], &[], &[]), record("main", &[], &[], &[])];
    let (hashes, missing) = extract_hashes_from_lockfile(&config(), &merged, &vec![lock], &crates, &shortener);
    assert_eq!(hashes.len(), 2);
    assert_eq!(hashes.get("a"), Some(&"aa".to_string()));
    assert_eq!(hashes.get("b"), Some(&"bb".to_string()));
    assert_eq!(missing, vec!["c 1.0.0", "main 1.0.0"]);
    assert_eq!(missing_hashes(&crates, &hashes), missing);

    let mut off = config();
    off.use_cargo_lock_checksums = false;
    let (hashes, missing) = extract_hashes_from_lockfile(&off, &merged, &vec![], &crates, &shortener);
    assert_eq!(hashes.len(), 0);
    assert!(missing.is_empty());
}
