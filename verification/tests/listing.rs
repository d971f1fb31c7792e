use crate2nix::config::{Config, NixFile, Source};
use crate2nix::nix_build::{dump_with_lines, nix_build};
use crate2nix::normalize_manifest::{is_workspace_reference, prune_workspace_references, TomlValue};
use crate2nix::source::{
    CratesIoSource, GitSource, LocalDirectorySource, NixSource, RegistrySource, ResolvedSource,
};
use crate2nix::text::{blanks_of, decimal_of, pad_left, pad_right};

#[test]
fn numbers_are_written_in_decimal() {
    for n in [0usize, 1, 9, 10, 11, 99, 100, 12345, 1_000_000, usize::MAX] {
        assert_eq!(decimal_of(n), format!("{}", n));
    }
}

#[test]
fn texts_are_padded_by_characters() {
    assert_eq!(pad_left("ab", 5), format!("{:>5}", "ab"));
    assert_eq!(pad_left("abcdef", 5), "abcdef");
    assert_eq!(pad_left("äb", 4), format!("{:>4}", "äb"));
    assert_eq!(pad_right("ab", 5), format!("{:5}", "ab"));
    assert_eq!(pad_right("", 3), "   ");
    assert_eq!(pad_right("abc", 3), "abc");
    assert_eq!(blanks_of(0), "");
    assert_eq!(blanks_of(4), "    ");
}

#[test]
fn lines_are_shown_behind_their_numbers() {
    assert_eq!(dump_with_lines(1, "{ pkgs }:"), format!("{:>5}: {}", 1, "{ pkgs }:"));
    assert_eq!(dump_with_lines(42, ""), "   42: ");
    assert_eq!(dump_with_lines(123456, "x"), "123456: x");
}

#[test]
fn build_tool_arguments() {
    let features = vec!["default".to_string(), "with \"quotes\"".to_string()];
    assert_eq!(
        nix_build("rootCrate.build", &features),
        vec![
            "--show-trace",
            "build",
            "-f",
            "default.nix",
            "rootCrate.build",
            "--arg",
            "rootFeatures",
            "[ \"default\" \"with \\\"quotes\\\"\" ]",
        ]
    );
    assert_eq!(nix_build("x", &vec![])[7], "[  ]");
    assert_eq!(nix_build("x", &vec!["a".to_string()])[7], "[ \"a\" ]");
}

#[test]
fn resolved_sources_are_shown() {
    let crates_io = ResolvedSource::CratesIo(CratesIoSource {
        name: "serde".to_string(),
        version: "1.0.0".to_string(),
        sha256: None,
    });
    assert_eq!(crates_io.to_string(), "https://static.crates.io/crates/serde/serde-1.0.0.crate");
    let git = |git_ref: Option<&str>| {
        ResolvedSource::Git(GitSource {
            url: "https://h.org/r".to_string(),
            rev: "abc".to_string(),
            git_ref: git_ref.map(|s| s.to_string()),
            sha256: Some("h".to_string()),
        })
    };
    assert_eq!(git(None).to_string(), "https://h.org/r#abc");
    assert_eq!(git(Some("dev")).to_string(), "https://h.org/r#abc branch: dev");
    assert_eq!(
        ResolvedSource::LocalDirectory(LocalDirectorySource { path: "./x".to_string() }).to_string(),
        "./x"
    );
    let nix = |attr: Option<&str>| {
        ResolvedSource::Nix(NixSource {
            file: NixFile::Package("./p.nix".to_string()),
            attr: attr.map(|s| s.to_string()),
        })
    };
    assert_eq!(nix(None).to_string(), "pkgs.callPackage ./p.nix {}");
    assert_eq!(nix(Some("a.b")).to_string(), "(pkgs.callPackage ./p.nix {}).a.b");
    let registry = ResolvedSource::Registry(RegistrySource {
        registry: "https://r.org".to_string(),
        name: "n".to_string(),
        version: "1.0.0".to_string(),
        sha256: None,
    });
    assert_eq!(registry.to_string(), "https://r.org n 1.0.0");
}

fn sources() -> Vec<(&'static str, Source)> {
    vec![
        (
            "serde",
            Source::CratesIo { name: "serde".to_string(), version: "1.0.0".to_string(), sha256: "h1".to_string() },
        ),
        (
            "repo",
            Source::Git { url: "https://h.org/r.git".to_string(), rev: "abc".to_string(), sha256: "h2".to_string() },
        ),
        ("imported", Source::Nix { file: NixFile::Import("./s.nix".to_string()), attr: None }),
        (
            "attr",
            Source::Nix { file: NixFile::Import("./s.nix".to_string()), attr: Some("a.b".to_string()) },
        ),
        ("dir", Source::LocalDirectory { path: "/p".to_string() }),
    ]
}

#[test]
fn configured_sources_are_shown() {
    let shown: Vec<String> = sources().iter().map(|(_, s)| s.to_string()).collect();
    assert_eq!(
        shown,
        vec![
            "serde 1.0.0 from crates.io: h1",
            "https://h.org/r.git#abc via git: h2",
            "import ./s.nix",
            "(import ./s.nix).a.b",
            "/p",
        ]
    );
    let commands: Vec<String> = sources().iter().map(|(name, s)| s.as_command(name)).collect();
    assert_eq!(
        commands,
        vec![
            "cratesIo --name 'serde' 'serde' '1.0.0'",
            "git --name 'repo' 'https://h.org/r.git' --rev abc",
            "nix --name 'imported' --import './s.nix'",
            "nix --name 'attr' --import './s.nix' 'a.b'",
            "path --name 'dir' /p",
        ]
    );
}

#[test]
fn sources_are_listed_in_a_column() {
    let mut config = Config::default();
    assert_eq!(config.print_sources(), Vec::<String>::new());
    for (name, source) in sources().into_iter().take(2) {
        assert_eq!(config.upsert_source(Some(name.to_string()), source), Ok(None));
    }
    assert_eq!(
        config.print_sources(),
        vec![
            "repo  https://h.org/r.git#abc via git: h2",
            "",
            "      crate2nix source add git --name 'repo' 'https://h.org/r.git' --rev abc",
            "",
            "serde serde 1.0.0 from crates.io: h1",
            "",
            "      crate2nix source add cratesIo --name 'serde' 'serde' '1.0.0'",
            "",
        ]
    );
}

fn table(entries: Vec<(&str, TomlValue)>) -> TomlValue {
    TomlValue::Table(entries.into_iter().map(|(k, v)| (k.to_string(), v)).collect())
}

#[test]
fn workspace_references_are_pruned() {
    let inherit = || table(vec![("workspace", TomlValue::Boolean(true))]);
    let manifest = table(vec![
        (
            "package",
            table(vec![
                ("name", TomlValue::Scalar(0)),
                ("version", inherit()),
                ("workspace", TomlValue::Scalar(1)),
            ]),
        ),
        ("dependencies", table(vec![("itertools", inherit())])),
        ("lints", inherit()),
        ("empty", table(vec![])),
        ("workspace", TomlValue::Boolean(false)),
        (
            "list",
            TomlValue::Array(vec![inherit(), TomlValue::Scalar(2), table(vec![]), TomlValue::Array(vec![inherit()])]),
        ),
        ("workspace", TomlValue::Boolean(true)),
    ]);
    assert_eq!(
        prune_workspace_references(manifest),
        Some(table(vec![
            ("package", table(vec![("name", TomlValue::Scalar(0)), ("workspace", TomlValue::Scalar(1))])),
            ("empty", table(vec![])),
            ("workspace", TomlValue::Boolean(false)),
            ("list", TomlValue::Array(vec![TomlValue::Scalar(2), table(vec![]), TomlValue::Array(vec![])])),
        ]))
    );
    assert_eq!(prune_workspace_references(inherit()), None);
    assert_eq!(prune_workspace_references(table(vec![])), Some(table(vec![])));
    assert_eq!(prune_workspace_references(TomlValue::Boolean(true)), Some(TomlValue::Boolean(true)));
    assert_eq!(prune_workspace_references(TomlValue::Scalar(7)), Some(TomlValue::Scalar(7)));
    assert!(is_workspace_reference("workspace", &TomlValue::Boolean(true)));
    assert!(!is_workspace_reference("workspace", &TomlValue::Boolean(false)));
    assert!(!is_workspace_reference("Workspace", &TomlValue::Boolean(true)));
    assert!(!is_workspace_reference("workspace", &TomlValue::Scalar(1)));
}

/// A manifest of a workspace member after the values of the workspace were
/// filled in: only the reference of the lints is left.
fn expanded_manifest() -> TomlValue {
    table(vec![
        ("dependencies", table(vec![("itertools", TomlValue::Scalar(0))])),
        ("lints", table(vec![("workspace", TomlValue::Boolean(true))])),
        (
            "package",
            table(vec![
                ("edition", TomlValue::Scalar(1)),
                ("name", TomlValue::Scalar(2)),
                ("version", TomlValue::Scalar(3)),
            ]),
        ),
    ])
}

#[test]
fn normalizes_a_package_manifest_in_a_workspace() {
    let normalized = prune_workspace_references(expanded_manifest());
    assert_eq!(
        normalized,
        Some(table(vec![
            ("dependencies", table(vec![("itertools", TomlValue::Scalar(0))])),
            (
                "package",
                table(vec![
                    ("edition", TomlValue::Scalar(1)),
                    ("name", TomlValue::Scalar(2)),
                    ("version", TomlValue::Scalar(3)),
                ]),
            ),
        ]))
    );
}

#[test]
fn produces_consistent_output_for_normalized_manifest() {
    let normalized = prune_workspace_references(expanded_manifest());
    for _ in 1..10 {
        let normalized_again = prune_workspace_references(expanded_manifest());
        assert_eq!(normalized_again, normalized);
    }
}
