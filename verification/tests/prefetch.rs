use crate2nix::derivation::CrateDerivation;
use crate2nix::metadata::{Package, PackageId};
use crate2nix::prefetch::{
    finish_prefetch, get_command_output, git_hash_from_field, prefetchable_sources, same_texts, FetchOutput,
    HashSource, HashWithSource, PrefetchAction, PrefetchError, PrefetchEvent, PrefetchOutcome, Prefetcher,
};
use crate2nix::shortener::PackageIdShortener;
use crate2nix::sorted_map::SortedMap;
use crate2nix::source::{CratesIoSource, GitSource, LocalDirectorySource, RegistrySource, ResolvedSource};

fn record(id: &str, source: ResolvedSource) -> CrateDerivation {
    CrateDerivation {
        package_id: PackageId { repr: id.to_string() },
        crate_name: id.to_string(),
        edition: "2021".to_string(),
        authors: vec![],
        version: "1.0.0".to_string(),
        source,
        lib_crate_types: vec![],
        dependencies: vec![],
        build_dependencies: vec![],
        dev_dependencies: vec![],
        features: vec![],
        resolved_default_features: vec![],
        build: None,
        lib: None,
        binaries: vec![],
        proc_macro: false,
        is_root_or_workspace_member: false,
    }
}

fn crates_io(name: &str, sha256: Option<&str>) -> ResolvedSource {
    ResolvedSource::CratesIo(CratesIoSource {
        name: name.to_string(),
        version: "1.0.0".to_string(),
        sha256: sha256.map(|s| s.to_string()),
    })
}

fn git(rev: &str) -> ResolvedSource {
    ResolvedSource::Git(GitSource {
        url: "https://h.org/repo".to_string(),
        rev: rev.to_string(),
        git_ref: None,
        sha256: None,
    })
}

fn map(entries: &[(&str, &str)]) -> SortedMap<String> {
    let mut m = SortedMap::new();
    for (k, v) in entries {
        m.insert(k.to_string(), v.to_string());
    }
    m
}

fn entries(m: &SortedMap<String>) -> Vec<(String, String)> {
    (0..m.len()).map(|i| (m.key_at(i).clone(), m.value_at(i).clone())).collect()
}

fn pairs(list: &[(&str, &str)]) -> Vec<(String, String)> {
    list.iter().map(|(k, v)| (k.to_string(), v.to_string())).collect()
}

/// A mapping in which `short` stands for `short (full)`.
fn shortener(shorts: &[&str]) -> PackageIdShortener {
    let packages: Vec<Package> = shorts
        .iter()
        .map(|name| Package {
            name: name.to_string(),
            version: "1.0.0".to_string(),
            id: PackageId { repr: format!("{} (full)", name) },
            source: None,
            manifest_path: String::new(),
            edition: String::new(),
            authors: vec![],
            dependencies: vec![],
            targets: vec![],
            features: vec![],
        })
        .collect();
    PackageIdShortener::new(&packages)
}

fn ok(stdout: &str) -> FetchOutput {
    FetchOutput { success: true, code: 0, stdout: Some(stdout.to_string()) }
}

fn hashes_of(records: &[CrateDerivation]) -> Vec<Option<String>> {
    records.iter().map(|r| r.source.sha256().cloned()).collect()
}

/// Runs the prefetcher to its end; every fetch prints `answer(program, args)`.
/// Returns what came out and the commands that were started.
fn run(
    mut prefetcher: Prefetcher,
    answer: impl Fn(&str, &[String]) -> FetchOutput,
) -> (PrefetchOutcome, Vec<Vec<String>>) {
    let mut started: Vec<Vec<String>> = Vec::new();
    let mut running: std::collections::VecDeque<FetchOutput> = std::collections::VecDeque::new();
    let mut action = prefetcher.step(&PrefetchEvent::Begin).unwrap();
    loop {
        action = match action {
            PrefetchAction::Start { command, .. } => {
                running.push_back(answer(&command.program, &command.args));
                let mut line = vec![command.program.clone()];
                line.extend(command.args.iter().cloned());
                started.push(line);
                prefetcher.step(&PrefetchEvent::Started).unwrap()
            }
            PrefetchAction::AwaitOldest => {
                let output = running.pop_front().expect("a running fetch");
                prefetcher.step(&PrefetchEvent::Completed(output)).unwrap()
            }
            PrefetchAction::Finish => break,
        }
    }
    assert!(running.is_empty());
    (prefetcher.finish(), started)
}

#[test]
fn shared_git_source_is_fetched_once() {
    let records = vec![record("a", git("abc")), record("local", ResolvedSource::LocalDirectory(
        LocalDirectorySource { path: "./x".to_string() },
    )), record("b", git("abc"))];
    let ids = shortener(&["a", "b", "local"]);
    let prefetcher = Prefetcher::new(4, &map(&[]), map(&[]), records, &ids);
    let (outcome, started) = run(prefetcher, |_, _| ok("{\"sha256\": \"githash\", \"url\": \"x\"}\n"));
    assert_eq!(
        started,
        vec![vec!["nix-prefetch-git", "--url", "https://h.org/repo", "--fetch-submodules", "--rev", "abc"]]
    );
    assert_eq!(
        hashes_of(&outcome.crate_derivations),
        vec![Some("githash".to_string()), None, Some("githash".to_string())]
    );
    assert_eq!(entries(&outcome.hashes), pairs(&[("a (full)", "githash"), ("b (full)", "githash")]));
    assert!(outcome.changed);
}

#[test]
fn second_run_fetches_nothing_and_gives_the_same_hashes() {
    let records = || {
        vec![
            record("locked", crates_io("locked", None)),
            record("fetched", crates_io("fetched", None)),
            record("g1", git("abc")),
            record("g2", git("abc")),
            record("cached", crates_io("cached", None)),
            record("preset", crates_io("preset", Some("from config"))),
        ]
    };
    let ids = shortener(&["locked", "fetched", "g1", "g2", "cached", "preset"]);
    let lock = map(&[("locked", "lockhash")]);
    let old = map(&[("cached (full)", " cachedhash\n"), ("stale (full)", "gone")]);

    let first = Prefetcher::new(2, &lock, old, records(), &ids);
    let (first_outcome, first_started) = run(first, |program, args| {
        if program == "nix-prefetch-git" {
            ok("{\"sha256\": \" githash \"}")
        } else {
            ok(&format!("  hash-of-{}\n", args[2]))
        }
    });
    assert_eq!(first_started.len(), 2);
    assert!(first_outcome.changed);
    assert_eq!(
        entries(&first_outcome.hashes),
        pairs(&[
            ("cached (full)", "cachedhash"),
            ("fetched (full)", "hash-of-fetched-1.0.0"),
            ("g1 (full)", "githash"),
            ("g2 (full)", "githash"),
        ])
    );
    assert_eq!(
        hashes_of(&first_outcome.crate_derivations),
        vec![
            Some("lockhash".to_string()),
            Some("hash-of-fetched-1.0.0".to_string()),
            Some("githash".to_string()),
            Some("githash".to_string()),
            Some("cachedhash".to_string()),
            Some("from config".to_string()),
        ]
    );

    let cache = map(&entries(&first_outcome.hashes).iter().map(|(k, v)| (k.as_str(), v.as_str())).collect::<Vec<_>>());
    let second = Prefetcher::new(2, &lock, cache, records(), &ids);
    assert_eq!(second.next_action(), PrefetchAction::Finish);
    let (second_outcome, second_started) = run(second, |_, _| unreachable!("no fetch in the second run"));
    assert!(second_started.is_empty());
    assert!(!second_outcome.changed);
    assert_eq!(entries(&second_outcome.hashes), entries(&first_outcome.hashes));
    assert_eq!(hashes_of(&second_outcome.crate_derivations), hashes_of(&first_outcome.crate_derivations));
}

#[test]
fn fetches_are_bounded_and_awaited_oldest_first() {
    let records = vec![
        record("a", crates_io("a", None)),
        record("b", crates_io("b", None)),
        record("c", crates_io("c", None)),
    ];
    let ids = shortener(&[]);
    let mut p = Prefetcher::new(2, &map(&[]), map(&[]), records, &ids);
    let start = |action: PrefetchAction| match action {
        PrefetchAction::Start { command, number, total } => (command.args[2].clone(), number, total),
        other => panic!("expected a start, got {:?}", other),
    };
    assert_eq!(start(p.step(&PrefetchEvent::Begin).unwrap()), ("a-1.0.0".to_string(), 1, 3));
    assert_eq!(start(p.step(&PrefetchEvent::Started).unwrap()), ("b-1.0.0".to_string(), 2, 3));
    // Two fetches run: the third waits for the oldest to end.
    assert_eq!(p.step(&PrefetchEvent::Started), Ok(PrefetchAction::AwaitOldest));
    assert_eq!(p.started(), Err(PrefetchError::UnexpectedEvent));
    assert_eq!(start(p.step(&PrefetchEvent::Completed(ok("ha"))).unwrap()), ("c-1.0.0".to_string(), 3, 3));
    assert_eq!(p.step(&PrefetchEvent::Started), Ok(PrefetchAction::AwaitOldest));
    assert_eq!(p.step(&PrefetchEvent::Completed(ok("hb"))), Ok(PrefetchAction::AwaitOldest));
    assert_eq!(p.step(&PrefetchEvent::Completed(ok("hc"))), Ok(PrefetchAction::Finish));
    assert_eq!(p.step(&PrefetchEvent::Completed(ok("hd"))), Err(PrefetchError::UnexpectedEvent));
    assert_eq!(p.step(&PrefetchEvent::Started), Err(PrefetchError::UnexpectedEvent));
    let outcome = p.finish();
    assert_eq!(entries(&outcome.hashes), pairs(&[("a", "ha"), ("b", "hb"), ("c", "hc")]));
    assert_eq!(
        hashes_of(&outcome.crate_derivations),
        vec![Some("ha".to_string()), Some("hb".to_string()), Some("hc".to_string())]
    );
}

#[test]
fn failed_fetch_is_a_failure() {
    let fresh = || {
        let mut p = Prefetcher::new(1, &map(&[]), map(&[]), vec![record("a", git("abc"))], &shortener(&[]));
        assert!(matches!(p.step(&PrefetchEvent::Begin), Ok(PrefetchAction::Start { .. })));
        assert_eq!(p.step(&PrefetchEvent::Started), Ok(PrefetchAction::AwaitOldest));
        p
    };
    let failed = FetchOutput { success: false, code: 3, stdout: Some("{\"sha256\": \"x\"}".to_string()) };
    assert_eq!(fresh().step(&PrefetchEvent::Completed(failed)), Err(PrefetchError::CommandFailed { code: 3 }));
    let no_text = FetchOutput { success: true, code: 0, stdout: None };
    assert_eq!(fresh().step(&PrefetchEvent::Completed(no_text)), Err(PrefetchError::NotUtf8));
    assert_eq!(fresh().step(&PrefetchEvent::Completed(ok("no json"))), Err(PrefetchError::NoHashInOutput));
    assert_eq!(fresh().step(&PrefetchEvent::Completed(ok("{\"sha\": \"x\"}"))), Err(PrefetchError::NoHashInOutput));
    assert_eq!(fresh().step(&PrefetchEvent::Completed(ok("{\"sha256\": 5}"))), Err(PrefetchError::NoHashInOutput));
    let mut p = fresh();
    assert_eq!(p.completed(&ok("bad")), Err(PrefetchError::NoHashInOutput));
    // The failed fetch is outstanding no longer.
    assert_eq!(p.next_action(), PrefetchAction::Finish);
    assert_eq!(hashes_of(&p.finish().crate_derivations), vec![None]);
}

#[test]
fn command_output_is_trimmed() {
    assert_eq!(get_command_output(&ok("  abc \n")), Ok("abc".to_string()));
    assert_eq!(
        get_command_output(&FetchOutput { success: false, code: -1, stdout: Some("x".to_string()) }),
        Err(PrefetchError::CommandFailed { code: -1 })
    );
    assert_eq!(git_hash_from_field(Some(" h ".to_string())), Ok("h".to_string()));
    assert_eq!(git_hash_from_field(None), Err(PrefetchError::NoHashInOutput));
    assert_eq!(finish_prefetch(&crates_io("a", None), &ok(" {\"sha256\": \"x\"} ")), Ok("{\"sha256\": \"x\"}".to_string()));
    assert_eq!(finish_prefetch(&git("r"), &ok(" {\"sha256\": \"x\"} ")), Ok("x".to_string()));
}

#[test]
fn known_hashes_are_found_in_order_of_trust() {
    let records = vec![
        record("a", git("one")),
        record("b", git("one")),
        record("c", crates_io("c", None)),
        record("d", crates_io("d", Some("attached"))),
        record("e", crates_io("d", None)),
        record("f", crates_io("f", Some("complete"))),
        record("r", ResolvedSource::Registry(RegistrySource {
            registry: "https://r".to_string(),
            name: "r".to_string(),
            version: "1.0.0".to_string(),
            sha256: None,
        })),
        record("g", crates_io("g", None)),
    ];
    let full_ids: Vec<String> = records.iter().map(|r| format!("{} (full)", r.package_id.repr)).collect();
    let lock = map(&[("b", "locked")]);
    let old = map(&[("a (full)", "cached a"), ("c (full)", "cached c"), ("c", "not asked by short id")]);
    let bundles = prefetchable_sources(&records, &full_ids, &lock, &old);
    let summary: Vec<(Vec<usize>, Option<(String, HashSource)>)> = bundles
        .iter()
        .map(|b| (b.derivations.clone(), b.hash.as_ref().map(|h| (h.sha256.clone(), h.source))))
        .collect();
    assert_eq!(
        summary,
        vec![
            // The lock data are asked first, for every record of the source.
            (vec![0, 1], Some(("locked".to_string(), HashSource::CargoLock))),
            (vec![2], Some(("cached c".to_string(), HashSource::Prefetched))),
            (vec![3, 4], Some(("attached".to_string(), HashSource::Attached))),
            (vec![7], None),
        ]
    );
    assert_eq!(bundles[0].source, git("one"));
    assert_eq!(bundles[2].source, crates_io("d", None));
    assert_eq!(
        bundles[0].hash,
        Some(HashWithSource { sha256: "locked".to_string(), source: HashSource::CargoLock })
    );
}

#[test]
fn only_fetched_hashes_are_kept_for_the_cache() {
    let records = vec![
        record("a", git("one")),
        record("b", git("one")),
        record("d", crates_io("d", Some("attached"))),
        record("e", crates_io("d", None)),
    ];
    let ids = shortener(&["a", "b", "d", "e"]);
    let p = Prefetcher::new(1, &map(&[("b", " locked ")]), map(&[]), records, &ids);
    let (outcome, started) = run(p, |_, _| unreachable!());
    assert!(started.is_empty());
    assert_eq!(outcome.hashes.len(), 0);
    assert!(!outcome.changed);
    assert_eq!(
        hashes_of(&outcome.crate_derivations),
        vec![
            Some("locked".to_string()),
            Some("locked".to_string()),
            Some("attached".to_string()),
            Some("attached".to_string())
        ]
    );
}

#[test]
fn maps_of_texts_are_compared() {
    assert!(same_texts(&map(&[]), &map(&[])));
    assert!(same_texts(&map(&[("a", "1"), ("b", "2")]), &map(&[("b", "2"), ("a", "1")])));
    assert!(!same_texts(&map(&[("a", "1")]), &map(&[("a", "2")])));
    assert!(!same_texts(&map(&[("a", "1")]), &map(&[("b", "1")])));
    assert!(!same_texts(&map(&[("a", "1")]), &map(&[("a", "1"), ("b", "2")])));
    assert!(!same_texts(&map(&[("a", "1"), ("b", "2")]), &map(&[("a", "1")])));
}
