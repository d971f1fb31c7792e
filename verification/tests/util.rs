use crate2nix::build_info::{
    cargo_metadata, convert_lock_hashes, nix_hash, nix_hash_from_bytes, shorten_hash_keys, ChecksumError,
    GenerateConfig, GenerateInfo,
};
use crate2nix::config::{strip_suffix, tail_after, Config, NixFile, Source, SourceType};
use crate2nix::lock::{EncodableDependency, EncodablePackageId, EncodableResolve};
use crate2nix::metadata::{MergedMetadata, Package, PackageId};
use crate2nix::shortener::PackageIdShortener;
use crate2nix::sorted_map::SortedMap;
use crate2nix::text::{
    char_is_whitespace, chars_of, compare, ends_with, replace_char, same_text, skip_chars, starts_with,
    string_of, trim, TextOrder,
};
use crate2nix::util::{find_duplicates, CommitHash};

fn strings(list: &[&str]) -> Vec<String> {
    list.iter().map(|s| s.to_string()).collect()
}

#[test]
fn duplicates_are_all_occurrences_after_the_first() {
    assert_eq!(find_duplicates(&strings(&[])), strings(&[]));
    assert_eq!(find_duplicates(&strings(&["a", "b"])), strings(&[]));
    assert_eq!(find_duplicates(&strings(&["a", "b", "a"])), strings(&["a"]));
    assert_eq!(find_duplicates(&strings(&["a", "b", "a", "b", "a"])), strings(&["a", "b", "a"]));
}

#[test]
fn commit_hashes_are_normalized() {
    let hash = CommitHash::parse("  0123456789ABCDEF0123456789abcdef01234567\n").unwrap();
    assert_eq!(hash.as_ref(), "0123456789abcdef0123456789abcdef01234567");
    assert_eq!(hash.to_string(), "0123456789abcdef0123456789abcdef01234567");
    assert!(CommitHash::parse("0123456789abcdef0123456789abcdef0123456").is_none());
    assert!(CommitHash::parse("0123456789abcdef0123456789abcdef012345678").is_none());
    assert!(CommitHash::parse("g123456789abcdef0123456789abcdef01234567").is_none());
    assert!(CommitHash::parse("").is_none());
    assert!(CommitHash::from_normalized("0123456789abcdef0123456789abcdef01234567".to_string()).is_some());
    assert!(CommitHash::from_normalized(" 123456789abcdef0123456789abcdef01234567".to_string()).is_none());
}

#[test]
fn strings_are_ordered_as_std_orders_them() {
    let samples = ["", "a", "ab", "b", "B", "é", "e", "ü", "z", "\u{10000}", "\u{ffff}", "a b", "a-b", "a_b"];
    for a in samples {
        for b in samples {
            let want = match a.cmp(b) {
                std::cmp::Ordering::Less => TextOrder::Before,
                std::cmp::Ordering::Equal => TextOrder::Same,
                std::cmp::Ordering::Greater => TextOrder::After,
            };
            assert_eq!(compare(a, b), want, "{:?} against {:?}", a, b);
            assert_eq!(same_text(a, b), a == b);
        }
    }
}

#[test]
fn text_helpers_agree_with_std() {
    assert_eq!(string_of(&chars_of("héllo")), "héllo");
    assert!(starts_with("git+https", "git+"));
    assert!(!starts_with("git", "git+"));
    assert!(starts_with("x", ""));
    assert!(ends_with("dylib", "lib"));
    assert!(!ends_with("li", "lib"));
    assert_eq!(skip_chars("héllo", 2), "llo");
    assert_eq!(replace_char("a-b-c", '-', '_'), "a_b_c");
    assert_eq!(trim("  a b \n\t"), "a b");
    assert_eq!(trim("\u{a0}\u{3000}x\u{2003}"), "x");
    assert_eq!(trim(" \n "), "");
    assert_eq!(trim(""), "");
    for c in ['\u{0}', ' ', '\t', '\n', '\u{b}', '\u{c}', '\r', '\u{85}', '\u{a0}', '\u{1680}', '\u{2000}',
        '\u{200a}', '\u{200b}', '\u{2028}', '\u{2029}', '\u{202f}', '\u{205f}', '\u{3000}', 'a', '\u{feff}',
        '\u{180e}', '\u{1c}', '\u{1f}']
    {
        assert_eq!(char_is_whitespace(c), c.is_whitespace(), "for {:?}", c);
    }
}

#[test]
fn whitespace_agrees_with_std_everywhere() {
    for n in 0u32..0x11_0000 {
        if let Some(c) = char::from_u32(n) {
            assert_eq!(char_is_whitespace(c), c.is_whitespace(), "for {:?}", c);
        }
    }
}

#[test]
fn sorted_map_behaves_like_a_map() {
    let mut m: SortedMap<u32> = SortedMap::new();
    assert_eq!(m.len(), 0);
    m.insert("b".to_string(), 2);
    m.insert("a".to_string(), 1);
    m.insert("c".to_string(), 3);
    m.insert("b".to_string(), 20);
    assert_eq!(m.len(), 3);
    assert_eq!(m.get("a"), Some(&1));
    assert_eq!(m.get("b"), Some(&20));
    assert_eq!(m.get("d"), None);
    assert!(m.contains_key("c"));
    assert_eq!((m.key_at(0).as_str(), *m.value_at(0)), ("a", 1));
    assert_eq!((m.key_at(2).as_str(), *m.value_at(2)), ("c", 3));
    assert_eq!(m.remove("a"), Some(1));
    assert_eq!(m.remove("a"), None);
    assert_eq!(m.len(), 2);
    assert_eq!(m.key_at(0), "b");
}

#[test]
fn nix_file_is_written_as_option_and_as_expression() {
    assert_eq!(NixFile::Import("./a.nix".to_string()).as_command(), "--import './a.nix'");
    assert_eq!(NixFile::Package("./a.nix".to_string()).as_command(), "--package './a.nix'");
    assert_eq!(NixFile::Import("./a.nix".to_string()).to_string(), "import ./a.nix");
    assert_eq!(NixFile::Package("./a.nix".to_string()).to_string(), "pkgs.callPackage ./a.nix {}");
}

#[test]
fn source_types_are_read() {
    assert_eq!(SourceType::from_str("cratesIo"), Some(SourceType::CratesIo));
    assert_eq!(SourceType::from_str("git"), Some(SourceType::Git));
    assert_eq!(SourceType::from_str("Git"), None);
    assert_eq!(SourceType::from_str(""), None);
}

#[test]
fn sources_are_named() {
    let crates_io = Source::CratesIo { name: "n".to_string(), version: "1.0.0".to_string(), sha256: "h".to_string() };
    assert_eq!(crates_io.name(), Some("n".to_string()));
    let git = |url: &str| Source::Git { url: url.to_string(), rev: "r".to_string(), sha256: "h".to_string() };
    assert_eq!(git("https://github.com/kolloch/crate2nix.git").name(), Some("crate2nix".to_string()));
    assert_eq!(git("https://github.com/kolloch/crate2nix").name(), Some("crate2nix".to_string()));
    assert_eq!(git("https://github.com/").name(), Some("".to_string()));
    assert_eq!(git("not a url").name(), None);
    let nix = |attr: Option<&str>| Source::Nix {
        file: NixFile::Import("./x.nix".to_string()),
        attr: attr.map(|s| s.to_string()),
    };
    assert_eq!(nix(Some("a.b.c")).name(), Some("c".to_string()));
    assert_eq!(nix(Some("c")).name(), Some("c".to_string()));
    assert_eq!(nix(None).name(), None);
    assert_eq!(Source::LocalDirectory { path: "/p".to_string() }.name(), None);
    assert_eq!(tail_after("a/b/c", '/'), "c");
    assert_eq!(tail_after("abc", '/'), "abc");
    assert_eq!(tail_after("abc/", '/'), "");
    assert_eq!(strip_suffix("x.git", ".git"), "x");
    assert_eq!(strip_suffix("x.gi", ".git"), "x.gi");
    assert_eq!(strip_suffix(".git", ".git"), "");
}

#[test]
fn config_upserts_sources() {
    let mut config = Config::default();
    assert!(config.is_empty());
    let a = Source::LocalDirectory { path: "/a".to_string() };
    let b = Source::LocalDirectory { path: "/b".to_string() };
    // Without any name nothing is entered.
    assert_eq!(config.upsert_source(None, a.clone()), Err(a.clone()));
    assert!(config.is_empty());
    assert_eq!(config.upsert_source(Some("x".to_string()), a.clone()), Ok(None));
    assert_eq!(config.upsert_source(Some("x".to_string()), b.clone()), Ok(Some(a)));
    assert_eq!(config.get("x"), Some(&b));
    assert_eq!(config.get("y"), None);
    assert!(!config.is_empty());
}

#[test]
fn lock_package_ids_are_written_and_read() {
    let id = |name: &str, version: Option<&str>, source: Option<&str>| EncodablePackageId {
        name: name.to_string(),
        version: version.map(|s| s.to_string()),
        source: source.map(|s| s.to_string()),
    };
    let full = id("serde", Some("1.0.0"), Some("registry+https://github.com/rust-lang/crates.io-index"));
    assert_eq!(full.to_string(), "serde 1.0.0 (registry+https://github.com/rust-lang/crates.io-index)");
    assert_eq!(EncodablePackageId::from_str(&full.to_string()), Some(full));
    assert_eq!(id("serde", Some("1.0.0"), None).to_string(), "serde 1.0.0");
    assert_eq!(EncodablePackageId::from_str("serde 1.0.0"), Some(id("serde", Some("1.0.0"), None)));
    assert_eq!(EncodablePackageId::from_str("serde"), Some(id("serde", None, None)));
    assert_eq!(EncodablePackageId::from_str(""), Some(id("", None, None)));
    assert_eq!(EncodablePackageId::from_str("a b ()"), Some(id("a", Some("b"), Some(""))));
    assert_eq!(EncodablePackageId::from_str("a  (x)"), Some(id("a", Some(""), Some("x"))));
    assert_eq!(EncodablePackageId::from_str("a b c"), None);
    assert_eq!(EncodablePackageId::from_str("a b (c"), None);
    assert_eq!(EncodablePackageId::from_str("a b c)"), None);
    assert_eq!(EncodablePackageId::from_str("a b "), None);
    assert_eq!(EncodablePackageId::from_str("a b ("), None);
    assert_eq!(EncodablePackageId::from_str("a b (x y) z)"), Some(id("a", Some("b"), Some("x y) z"))));
}

fn lock_package(name: &str, version: &str, source: Option<&str>, checksum: Option<&str>) -> EncodableDependency {
    EncodableDependency {
        name: name.to_string(),
        version: version.to_string(),
        source: source.map(|s| s.to_string()),
        checksum: checksum.map(|s| s.to_string()),
        dependencies: None,
        replace: None,
    }
}

fn package(name: &str, version: &str, source: Option<&str>) -> Package {
    Package {
        name: name.to_string(),
        version: version.to_string(),
        id: PackageId { repr: format!("{} {}", name, version) },
        source: source.map(|s| s.to_string()),
        manifest_path: format!("/work/{}/Cargo.toml", name),
        edition: "2021".to_string(),
        authors: vec![],
        dependencies: vec![],
        targets: vec![],
        features: vec![],
    }
}

#[test]
fn lock_hashes_are_found_by_name_source_and_version() {
    const REG: &str = "registry+https://github.com/rust-lang/crates.io-index";
    let merged = MergedMetadata {
        workspace_members: vec![],
        packages: vec![
            package("a", "1.0.0", Some(REG)),
            package("b", "1.0.0", Some(REG)),
            package("c", "1.0.0", Some(REG)),
            package("local", "1.0.0", None),
            package("old", "0.1.0", Some(REG)),
        ],
        root: None,
        nodes: vec![],
    };
    let mut table: SortedMap<String> = SortedMap::new();
    table.insert(format!("checksum old 0.1.0 ({})", REG), "0ld".to_string());
    table.insert(format!("checksum b 1.0.0 ({})", REG), "from table".to_string());
    let lock = EncodableResolve {
        package: vec![
            lock_package("a", "1.0.0", Some(REG), Some("aaaa")),
            lock_package("b", "1.0.0", Some(REG), Some("<none>")),
            lock_package("c", "2.0.0", Some(REG), Some("wrong version")),
            lock_package("c", "1.0.0", Some("registry+https://other"), Some("wrong source")),
            lock_package("local", "1.0.0", None, Some("no source")),
            lock_package("old", "0.1.0", Some(REG), None),
            lock_package("unknown", "1.0.0", Some(REG), Some("no package")),
        ],
        root: None,
        metadata: Some(table),
    };
    let mut hashes: SortedMap<String> = SortedMap::new();
    hashes.insert("kept".to_string(), "before".to_string());
    lock.get_hashes_by_package_id(&merged, &mut hashes);
    assert_eq!(hashes.len(), 3);
    assert_eq!(hashes.get("a 1.0.0"), Some(&"aaaa".to_string()));
    assert_eq!(hashes.get("old 0.1.0"), Some(&"0ld".to_string()));
    assert_eq!(hashes.get("kept"), Some(&"before".to_string()));
    assert_eq!(hashes.get("b 1.0.0"), None);
}

#[test]
fn checksums_are_written_in_base_32() {
    for (hex, base32) in [
        (
            "ab335240fd942ab8191c5e628cd4ff3903c577bda961fb75df08e0303a00527b",
            "0ysj00x31q08vxsznqd9pmvwa0rrzza8qqjy3hcvhallzm054cxb",
        ),
        ("47b2d8f260c2d48116044bc43fe3de0f", "0gvvikzi2b0hb83m62c3rdicj7"),
        ("47B2D8F260C2D48116044BC43FE3DE0F", "0gvvikzi2b0hb83m62c3rdicj7"),
    ] {
        assert_eq!(nix_hash(hex), Ok(base32.to_string()));
    }
    assert_eq!(nix_hash(""), Err(ChecksumError::Empty));
    assert_eq!(nix_hash("abc"), Err(ChecksumError::NotHex));
    assert_eq!(nix_hash("zz"), Err(ChecksumError::NotHex));
    assert_eq!(nix_hash("ää"), Err(ChecksumError::NotHex));
    assert_eq!(nix_hash_from_bytes(None), Err(ChecksumError::NotHex));
    assert_eq!(nix_hash_from_bytes(Some(vec![])), Err(ChecksumError::Empty));
    assert_eq!(nix_hash_from_bytes(Some(vec![0x47, 0xb2])), nix_hash("47b2"));
}

#[test]
fn lock_hashes_are_converted_and_shortened() {
    let mut lock: SortedMap<String> = SortedMap::new();
    lock.insert("a 1.0.0 (full)".to_string(), "47b2d8f260c2d48116044bc43fe3de0f".to_string());
    let converted = convert_lock_hashes(&lock).unwrap();
    assert_eq!(converted.get("a 1.0.0 (full)"), Some(&"0gvvikzi2b0hb83m62c3rdicj7".to_string()));

    lock.insert("b".to_string(), "nothex".to_string());
    lock.insert("c".to_string(), "".to_string());
    let failed = convert_lock_hashes(&lock);
    assert_eq!(failed.err(), Some(("nothex".to_string(), ChecksumError::NotHex)));

    let mut p = package("a", "1.0.0", None);
    p.id = PackageId { repr: "a 1.0.0 (full)".to_string() };
    let shortener = PackageIdShortener::new(&vec![p]);
    let short = shorten_hash_keys(&converted, &shortener);
    assert_eq!(short.len(), 1);
    assert_eq!(short.get("a"), Some(&"0gvvikzi2b0hb83m62c3rdicj7".to_string()));
}

#[test]
fn metadata_options_end_with_locked() {
    let config = GenerateConfig {
        cargo_toml: strings(&["./Cargo.toml"]),
        use_cargo_lock_checksums: true,
        output: "./Cargo.nix".to_string(),
        crate_hashes_json: "./crate-hashes.json".to_string(),
        registry_hashes_json: "./registry-hashes.json".to_string(),
        nixpkgs_path: "<nixpkgs>".to_string(),
        other_metadata_options: strings(&["--all-features"]),
        read_crate_hashes: true,
    };
    assert_eq!(cargo_metadata(&config), strings(&["--all-features", "--locked"]));
    assert_eq!(config.clone(), config);
    let info = GenerateInfo::new("0.1.0".to_string(), strings(&["generate"]));
    assert_eq!(info.clone(), info);
    assert_eq!(info.crate2nix_version, "0.1.0");
}
