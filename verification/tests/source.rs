use crate2nix::bindings::UrlParts;
use crate2nix::config::{NixFile, Source};
use crate2nix::metadata::{Package, PackageId};
use crate2nix::source::{
    CratesIoSource, FetchCommand, GitSource, LocalDirectorySource, NixSource, RegistrySource, ResolvedSource,
    SourceWarning,
};

fn package_with_source(source: Option<&str>) -> Package {
    Package {
        name: "pkg".to_string(),
        version: "1.0.0".to_string(),
        id: PackageId { repr: "pkg 1.0.0".to_string() },
        source: source.map(|s| s.to_string()),
        manifest_path: "/work/pkg/Cargo.toml".to_string(),
        edition: "2021".to_string(),
        authors: vec![],
        dependencies: vec![],
        targets: vec![],
        features: vec![],
    }
}

fn classify(source: Option<&str>) -> (ResolvedSource, Option<SourceWarning>) {
    ResolvedSource::new("/work", &package_with_source(source), "/work/pkg")
}

fn local(path: &str) -> ResolvedSource {
    ResolvedSource::LocalDirectory(LocalDirectorySource { path: path.to_string() })
}

fn git(url: &str, rev: &str, git_ref: Option<&str>) -> ResolvedSource {
    ResolvedSource::Git(GitSource {
        url: url.to_string(),
        rev: rev.to_string(),
        git_ref: git_ref.map(|s| s.to_string()),
        sha256: None,
    })
}

#[test]
fn default_registry_is_recognized() {
    assert_eq!(
        classify(Some("registry+https://github.com/rust-lang/crates.io-index")),
        (
            ResolvedSource::CratesIo(CratesIoSource {
                name: "pkg".to_string(),
                version: "1.0.0".to_string(),
                sha256: None
            }),
            None
        )
    );
}

#[test]
fn other_registries_keep_their_location() {
    let registry = |location: &str| {
        ResolvedSource::Registry(RegistrySource {
            registry: location.to_string(),
            name: "pkg".to_string(),
            version: "1.0.0".to_string(),
            sha256: None,
        })
    };
    assert_eq!(classify(Some("registry+https://my.registry/index")), (registry("https://my.registry/index"), None));
    assert_eq!(
        classify(Some("sparse+https://my.registry/index/")),
        (registry("https://my.registry/index/"), None)
    );
}

#[test]
fn git_revision_comes_from_the_rev_parameter() {
    assert_eq!(
        classify(Some("git+https://github.com/foo/bar?rev=abc123")),
        (git("https://github.com/foo/bar", "abc123", None), None)
    );
}

#[test]
fn git_revision_comes_from_the_fragment_and_branch_from_its_parameter() {
    assert_eq!(
        classify(Some("git+https://github.com/foo/bar?branch=dev#0123abc")),
        (git("https://github.com/foo/bar", "0123abc", Some("dev")), None)
    );
}

#[test]
fn rev_parameter_wins_over_fragment() {
    assert_eq!(
        classify(Some("git+https://github.com/foo/bar?rev=short#0123456789abcdef")),
        (git("https://github.com/foo/bar", "short", None), None)
    );
    // The order of the parameters does not matter.
    assert_eq!(
        classify(Some("git+https://github.com/foo/bar?rev=r1&branch=b1")),
        (git("https://github.com/foo/bar", "r1", Some("b1")), None)
    );
    assert_eq!(
        classify(Some("git+https://github.com/foo/bar?branch=b1&rev=r1")),
        (git("https://github.com/foo/bar", "r1", Some("b1")), None)
    );
}

#[test]
fn git_without_revision_falls_back_to_local_directory() {
    assert_eq!(
        classify(Some("git+https://github.com/foo/bar")),
        (local("./pkg"), Some(SourceWarning::NoRevision))
    );
    assert_eq!(
        classify(Some("git+https://github.com/foo/bar?branch=dev")),
        (local("./pkg"), Some(SourceWarning::NoRevision))
    );
}

#[test]
fn bad_git_url_falls_back_to_local_directory() {
    assert_eq!(classify(Some("git+no url at all")), (local("./pkg"), Some(SourceWarning::BadUrl)));
}

#[test]
fn unknown_form_falls_back_to_local_directory() {
    assert_eq!(classify(Some("path+file:///work/pkg")), (local("./pkg"), Some(SourceWarning::UnknownForm)));
    assert_eq!(
        ResolvedSource::git_or_local_directory("/work", &package_with_source(None), "/work/pkg", "hg+x"),
        (local("./pkg"), Some(SourceWarning::UnknownForm))
    );
    assert_eq!(
        ResolvedSource::fallback_to_local_directory("/work", "/work/pkg", SourceWarning::BadUrl),
        (local("./pkg"), Some(SourceWarning::BadUrl))
    );
}

#[test]
fn package_without_source_is_local() {
    assert_eq!(classify(None), (local("./pkg"), None));
}

#[test]
fn relative_directory_cases() {
    assert_eq!(ResolvedSource::relative_directory("/a/b", "/a/b"), "./.");
    assert_eq!(ResolvedSource::relative_directory("/a/b/c", "/a/b"), "./c");
    assert_eq!(ResolvedSource::relative_directory("/a/b/c/d", "/a/b"), "./c/d");
    assert_eq!(ResolvedSource::relative_directory("/a", "/a/b"), "../.");
    assert_eq!(ResolvedSource::relative_directory("/a/x", "/a/b"), "../x");
    assert_eq!(ResolvedSource::relative_directory("/a/x", "/a/b/c"), "../../x");
    assert_eq!(ResolvedSource::relative_directory("/", "/a/b"), "../..");
}

#[test]
fn relative_directory_from_a_given_difference() {
    let from = |d: Option<&str>| ResolvedSource::relative_directory_from("/p", "/o", d.map(|s| s.to_string()));
    assert_eq!(from(Some("..")), "../.");
    assert_eq!(from(Some("../")), "../.");
    assert_eq!(from(Some("../x")), "../x");
    assert_eq!(from(Some("x/y")), "./x/y");
    assert_eq!(from(Some("..x")), "./..x");
    assert_eq!(from(Some("/abs")), "/abs");
    assert_eq!(from(Some("")), "./");
    assert_eq!(from(None), "/p");
    assert_eq!(ResolvedSource::relative_directory_from("rel", "/o", None), "./rel");
    assert_eq!(ResolvedSource::relative_directory_from("/same", "/same", Some("x".to_string())), "./.");
}

#[test]
fn git_source_from_parts_reads_query_and_fragment() {
    let parts = |query: &[(&str, &str)], fragment: Option<&str>| UrlParts {
        scheme: "https".to_string(),
        domain: Some("h.org".to_string()),
        path: "/r".to_string(),
        query: query.iter().map(|(k, v)| (k.to_string(), v.to_string())).collect(),
        fragment: fragment.map(|s| s.to_string()),
        location: "https://h.org/r".to_string(),
    };
    assert_eq!(ResolvedSource::git_source_from_parts(None), Err(SourceWarning::BadUrl));
    assert_eq!(ResolvedSource::git_source_from_parts(Some(parts(&[], None))), Err(SourceWarning::NoRevision));
    assert_eq!(
        ResolvedSource::git_source_from_parts(Some(parts(&[("rev", "a"), ("rev", "b")], Some("f")))),
        Ok(git("https://h.org/r", "a", None))
    );
    assert_eq!(
        ResolvedSource::git_source_from_parts(Some(parts(&[("branch", "x"), ("branch", "y")], Some("f")))),
        Ok(git("https://h.org/r", "f", Some("x")))
    );
}

#[test]
fn hashes_are_set_and_erased() {
    let plain = git("https://h.org/r", "abc", Some("dev"));
    assert_eq!(plain.sha256(), None);
    let hashed = plain.with_sha256("h1".to_string());
    assert_eq!(hashed.sha256(), Some(&"h1".to_string()));
    assert_eq!(hashed.without_sha256(), plain);
    assert!(hashed.same_identity(&plain));
    assert!(!hashed.same_identity(&git("https://h.org/r", "abc", None)));
    assert!(!hashed.same_identity(&git("https://h.org/r", "abd", Some("dev"))));

    let crates_io = ResolvedSource::CratesIo(CratesIoSource {
        name: "n".to_string(),
        version: "1.0.0".to_string(),
        sha256: None,
    });
    assert_eq!(crates_io.with_sha256("x".to_string()).sha256(), Some(&"x".to_string()));
    assert!(!crates_io.same_identity(&plain));

    // A directory carries no hash.
    let dir = local("./x");
    assert_eq!(dir.with_sha256("h".to_string()), dir);
    assert_eq!(dir.sha256(), None);
    assert!(dir.same_identity(&local("./x")));
    assert!(!dir.same_identity(&local("./y")));
    assert!(!dir.is_fetchable());
    assert!(crates_io.is_fetchable());
    assert!(plain.is_fetchable());
}

#[test]
fn configured_sources_are_taken_as_they_stand() {
    assert_eq!(
        ResolvedSource::from(Source::Git {
            url: "https://h.org/r".to_string(),
            rev: "abc".to_string(),
            sha256: "h".to_string()
        }),
        git("https://h.org/r", "abc", None).with_sha256("h".to_string())
    );
    assert_eq!(
        ResolvedSource::from(Source::Nix { file: NixFile::Import("./x.nix".to_string()), attr: None }),
        ResolvedSource::Nix(NixSource { file: NixFile::Import("./x.nix".to_string()), attr: None })
    );
    assert_eq!(ResolvedSource::from(Source::LocalDirectory { path: "/p".to_string() }), local("/p"));
}

#[test]
fn fetch_commands() {
    let crates_io = CratesIoSource { name: "serde".to_string(), version: "1.0.0".to_string(), sha256: None };
    assert_eq!(crates_io.url(), "https://static.crates.io/crates/serde/serde-1.0.0.crate");
    assert_eq!(
        ResolvedSource::CratesIo(crates_io).start_prefetch(),
        Some(FetchCommand {
            program: "nix-prefetch-url".to_string(),
            args: vec![
                "https://static.crates.io/crates/serde/serde-1.0.0.crate".to_string(),
                "--name".to_string(),
                "serde-1.0.0".to_string()
            ],
        })
    );
    assert_eq!(
        git("https://h.org/r", "abc", None).start_prefetch(),
        Some(FetchCommand {
            program: "nix-prefetch-git".to_string(),
            args: vec!["--url", "https://h.org/r", "--fetch-submodules", "--rev", "abc"]
                .into_iter()
                .map(String::from)
                .collect(),
        })
    );
    assert_eq!(
        git("https://h.org/r", "abc", Some("dev")).start_prefetch().unwrap().args,
        vec!["--url", "https://h.org/r", "--fetch-submodules", "--rev", "abc", "--branch-name", "dev"]
    );
    assert_eq!(local("./x").start_prefetch(), None);
}
