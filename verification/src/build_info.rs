//! The whole of what a build file is written from.

use vstd::prelude::*;
use vstd::string::StringExecFns;
use crate::bindings::{hex_bytes, hex_decode, is_hex, nix_base32, to_nix_base32};
use crate::config::Config;
use crate::derivation::{
    derivation_of, is_member, is_resolvable, resolve_outcome, source_of, CrateDerivation,
    CrateDerivationView, DerivationWarnings, PackagePaths,
};
use crate::index::IndexedMetadata;
use crate::metadata::{PackageId, PackageView};
use crate::prefetch::text_views;
use crate::resolve::ResolveError;
use crate::shortener::PackageIdShortener;
use crate::sorted_map::SortedMap;
use crate::text::clone_strings;

verus! {

/// What is known of the run that writes the build file.
#[derive(Debug, PartialEq, Eq)]
pub struct GenerateInfo {
    /// The version of this program.
    pub crate2nix_version: String,
    /// The arguments that were given to it.
    pub crate2nix_arguments: Vec<String>,
}

impl GenerateInfo {
    /// Takes the version of the program and its arguments.
    pub fn new(crate2nix_version: String, crate2nix_arguments: Vec<String>) -> (r: GenerateInfo)
        ensures
            r.crate2nix_version@ == crate2nix_version@,
            r.crate2nix_arguments.deep_view() == crate2nix_arguments.deep_view(),
    {
        GenerateInfo { crate2nix_version, crate2nix_arguments }
    }
}

impl Clone for GenerateInfo {
    fn clone(&self) -> (r: Self)
        ensures
            r.crate2nix_version@ == self.crate2nix_version@,
            r.crate2nix_arguments.deep_view() == self.crate2nix_arguments.deep_view(),
    {
        GenerateInfo {
            crate2nix_version: self.crate2nix_version.clone(),
            crate2nix_arguments: clone_strings(&self.crate2nix_arguments),
        }
    }
}

/// How the build file is to be written.
#[derive(Debug, PartialEq, Eq)]
pub struct GenerateConfig {
    /// The paths of the manifests.
    pub cargo_toml: Vec<String>,
    /// Whether the checksums of the lock data are used, so that they need not be fetched.
    pub use_cargo_lock_checksums: bool,
    /// The path of the build file that is written.
    pub output: String,
    /// The path of the file that holds the fetched hashes.
    pub crate_hashes_json: String,
    /// The path of the file that holds the hashes of registries.
    pub registry_hashes_json: String,
    /// The nix expression for the package collection to use.
    pub nixpkgs_path: String,
    /// Further arguments for the program that gives the metadata.
    pub other_metadata_options: Vec<String>,
    /// Whether the file of fetched hashes is read.
    pub read_crate_hashes: bool,
}

impl Clone for GenerateConfig {
    fn clone(&self) -> (r: Self)
        ensures
            r.cargo_toml.deep_view() == self.cargo_toml.deep_view(),
            r.use_cargo_lock_checksums == self.use_cargo_lock_checksums,
            r.output@ == self.output@,
            r.crate_hashes_json@ == self.crate_hashes_json@,
            r.registry_hashes_json@ == self.registry_hashes_json@,
            r.nixpkgs_path@ == self.nixpkgs_path@,
            r.other_metadata_options.deep_view() == self.other_metadata_options.deep_view(),
            r.read_crate_hashes == self.read_crate_hashes,
    {
        GenerateConfig {
            cargo_toml: clone_strings(&self.cargo_toml),
            use_cargo_lock_checksums: self.use_cargo_lock_checksums,
            output: self.output.clone(),
            crate_hashes_json: self.crate_hashes_json.clone(),
            registry_hashes_json: self.registry_hashes_json.clone(),
            nixpkgs_path: self.nixpkgs_path.clone(),
            other_metadata_options: clone_strings(&self.other_metadata_options),
            read_crate_hashes: self.read_crate_hashes,
        }
    }
}

/// The arguments for the program that gives the metadata: those of the
/// configuration, and `--locked`, so that the lock data are not touched.
pub fn cargo_metadata(config: &GenerateConfig) -> (r: Vec<String>)
    ensures
        r.deep_view() == config.other_metadata_options.deep_view().push("--locked"@),
{
    let mut other_options = clone_strings(&config.other_metadata_options);
    let ghost before = other_options.deep_view();
    other_options.push(String::from_str("--locked"));
    assert(other_options.deep_view() =~= before.push("--locked"@));
    other_options
}

/// Why a checksum of the lock data cannot be used.
#[derive(Clone, Copy, Debug, PartialEq, Eq, Structural)]
pub enum ChecksumError {
    /// The checksum is not made of pairs of hexadecimal digits.
    NotHex,
    /// The checksum is empty.
    Empty,
    /// The checksum has more bits than a machine word can count.
    TooLong,
}

/// The bytes of a checksum in the notation of nix.
pub open spec fn nix_hash_of_bytes(bytes: Option<Seq<u8>>) -> Result<Seq<char>, ChecksumError> {
    match bytes {
        None => Err(ChecksumError::NotHex),
        Some(bytes) => if bytes.len() == 0 {
            Err(ChecksumError::Empty)
        } else if bytes.len() > usize::MAX / 8 {
            Err(ChecksumError::TooLong)
        } else {
            Ok(nix_base32(bytes))
        },
    }
}

/// A checksum of the lock data in the notation of nix: its bytes in base 32.
pub open spec fn nix_hash_of(checksum: Seq<char>) -> Result<Seq<char>, ChecksumError> {
    nix_hash_of_bytes(if is_hex(checksum) {
        Some(hex_bytes(checksum))
    } else {
        None
    })
}

/// The bytes of a checksum in the notation of nix, given what decoding the checksum gave.
pub fn nix_hash_from_bytes(bytes: Option<Vec<u8>>) -> (r: Result<String, ChecksumError>)
    ensures
        r.is_ok() == nix_hash_of_bytes(bytes.deep_view()).is_ok(),
        r matches Ok(hash) ==> Ok::<Seq<char>, ChecksumError>(hash@) == nix_hash_of_bytes(bytes.deep_view()),
        r matches Err(e) ==> Err::<Seq<char>, ChecksumError>(e) == nix_hash_of_bytes(bytes.deep_view()),
{
    match bytes {
        None => Err(ChecksumError::NotHex),
        Some(bytes) => {
            assert(bytes.deep_view() =~= bytes@);
            if bytes.len() == 0 {
                Err(ChecksumError::Empty)
            } else if bytes.len() > usize::MAX / 8 {
                Err(ChecksumError::TooLong)
            } else {
                Ok(to_nix_base32(&bytes))
            }
        },
    }
}

/// Writes a checksum of the lock data in the notation of nix.
pub fn nix_hash(checksum: &str) -> (r: Result<String, ChecksumError>)
    ensures
        r.is_ok() == nix_hash_of(checksum@).is_ok(),
        r matches Ok(hash) ==> Ok::<Seq<char>, ChecksumError>(hash@) == nix_hash_of(checksum@),
        r matches Err(e) ==> Err::<Seq<char>, ChecksumError>(e) == nix_hash_of(checksum@),
{
    let bytes = hex_decode(checksum);
    proof {
        if bytes is Some {
            assert(bytes->0.deep_view() =~= bytes->0@);
        }
    }
    nix_hash_from_bytes(bytes)
}

/// The first `n` checksums of a map in the notation of nix, under their keys.
pub open spec fn nix_hashes_upto(keys: Seq<Seq<char>>, values: Seq<String>, n: int) -> Map<Seq<char>, Seq<char>>
    decreases n,
{
    if n <= 0 {
        Map::empty()
    } else {
        match nix_hash_of(values[n - 1]@) {
            Ok(hash) => nix_hashes_upto(keys, values, n - 1).insert(keys[n - 1], hash),
            Err(_) => nix_hashes_upto(keys, values, n - 1),
        }
    }
}

/// Writes the checksums of the lock data in the notation of nix. The
/// first checksum, in the order of the keys, that cannot be written so is
/// returned with what is wrong with it.
pub fn convert_lock_hashes(from_lock_file: &SortedMap<String>) -> (r: Result<
    SortedMap<String>,
    (String, ChecksumError),
>)
    requires
        from_lock_file.wf(),
    ensures
        r is Ok <==> forall|i: int|
            0 <= i < from_lock_file.values().len() ==> nix_hash_of((#[trigger] from_lock_file.values()[i])@)
                is Ok,
        r matches Ok(converted) ==> converted.wf() && text_views(converted@) == nix_hashes_upto(
            from_lock_file.keys(),
            from_lock_file.values(),
            from_lock_file.keys().len() as int,
        ),
        r matches Err(bad) ==> exists|i: int|
            {
                &&& 0 <= i < from_lock_file.values().len()
                &&& bad.0@ == (#[trigger] from_lock_file.values()[i])@
                &&& nix_hash_of(bad.0@) == Err::<Seq<char>, ChecksumError>(bad.1)
                &&& forall|j: int| 0 <= j < i ==> nix_hash_of((#[trigger] from_lock_file.values()[j])@) is Ok
            },
{
    proof {
        from_lock_file.lemma_entries();
    }
    let mut out: SortedMap<String> = SortedMap::new();
    let n = from_lock_file.len();
    let mut i: usize = 0;
    assert(text_views(out@) =~= nix_hashes_upto(from_lock_file.keys(), from_lock_file.values(), 0));
    while i < n
        invariant
            i <= n,
            n == from_lock_file.keys().len(),
            n == from_lock_file.values().len(),
            out.wf(),
            forall|j: int| 0 <= j < i ==> nix_hash_of((#[trigger] from_lock_file.values()[j])@) is Ok,
            text_views(out@) == nix_hashes_upto(from_lock_file.keys(), from_lock_file.values(), i as int),
        decreases n - i,
    {
        let checksum = from_lock_file.value_at(i);
        match nix_hash(checksum.as_str()) {
            Ok(hash) => {
                let ghost before = out@;
                out.insert(from_lock_file.key_at(i).clone(), hash);
                assert(text_views(out@) =~= text_views(before).insert(from_lock_file.keys()[i as int], hash@));
            },
            Err(e) => {
                return Err((checksum.clone(), e));
            },
        }
        i = i + 1;
    }
    Ok(out)
}

/// The first `n` entries of a map of hashes, each under the short form of its key.
pub open spec fn shortened_keys_upto(
    keys: Seq<Seq<char>>,
    values: Seq<String>,
    shortener: PackageIdShortener,
    n: int,
) -> Map<Seq<char>, Seq<char>>
    decreases n,
{
    if n <= 0 {
        Map::empty()
    } else {
        shortened_keys_upto(keys, values, shortener, n - 1).insert(shortener.shortened(keys[n - 1]), values[n - 1]@)
    }
}

/// Puts the hashes of the lock data under the short forms of their package
/// identifiers. Of two identifiers with one short form the later, in the
/// order of strings, gives the hash.
pub fn shorten_hash_keys(hashes: &SortedMap<String>, shortener: &PackageIdShortener) -> (r: SortedMap<String>)
    requires
        hashes.wf(),
        shortener.wf(),
    ensures
        r.wf(),
        text_views(r@) == shortened_keys_upto(hashes.keys(), hashes.values(), *shortener, hashes.keys().len() as int),
{
    proof {
        hashes.lemma_entries();
    }
    let mut out: SortedMap<String> = SortedMap::new();
    let n = hashes.len();
    let mut i: usize = 0;
    assert(text_views(out@) =~= shortened_keys_upto(hashes.keys(), hashes.values(), *shortener, 0));
    while i < n
        invariant
            i <= n,
            n == hashes.keys().len(),
            n == hashes.values().len(),
            out.wf(),
            shortener.wf(),
            text_views(out@) == shortened_keys_upto(hashes.keys(), hashes.values(), *shortener, i as int),
        decreases n - i,
    {
        let id = PackageId { repr: hashes.key_at(i).clone() };
        let short = shortener.shorten_owned(id);
        let ghost before = out@;
        let value = hashes.value_at(i).clone();
        out.insert(short.repr, value);
        assert(text_views(out@) =~= text_views(before).insert(
            shortener.shortened(hashes.keys()[i as int]),
            hashes.values()[i as int]@,
        ));
        i = i + 1;
    }
    out
}

/// Whether a record is of the default registry, without hash, and without checksum in the lock data.
pub open spec fn lacks_checksum(record: CrateDerivationView, hashes: Map<Seq<char>, Seq<char>>) -> bool {
    record.source is CratesIo && record.source.sha256() is None && !hashes.contains_key(record.package_id)
}

/// The name and version of those of the first `n` records that lack a checksum.
pub open spec fn missing_upto(records: Seq<CrateDerivationView>, hashes: Map<Seq<char>, Seq<char>>, n: int) -> Seq<
    Seq<char>,
>
    decreases n,
{
    if n <= 0 {
        Seq::empty()
    } else if lacks_checksum(records[n - 1], hashes) {
        missing_upto(records, hashes, n - 1).push(records[n - 1].crate_name + " "@ + records[n - 1].version)
    } else {
        missing_upto(records, hashes, n - 1)
    }
}

/// The packages of the default registry for which the lock data hold no
/// checksum, each by name and version: something that should not happen
/// and that a caller may report.
pub fn missing_hashes(crates: &Vec<CrateDerivation>, hashes: &SortedMap<String>) -> (r: Vec<String>)
    requires
        hashes.wf(),
    ensures
        r.deep_view() == missing_upto(crates.deep_view(), text_views(hashes@), crates.len() as int),
{
    let ghost all = crates.deep_view();
    let mut out: Vec<String> = Vec::new();
    let mut i: usize = 0;
    assert(out.deep_view() =~= missing_upto(all, text_views(hashes@), 0));
    while i < crates.len()
        invariant
            i <= crates.len(),
            hashes.wf(),
            all == crates.deep_view(),
            out.deep_view() == missing_upto(all, text_views(hashes@), i as int),
        decreases crates.len() - i,
    {
        let record = &crates[i];
        assert(all[i as int] == record@);
        let lacking = match &record.source {
            crate::source::ResolvedSource::CratesIo(source) => source.sha256.is_none() && !hashes.contains_key(
                record.package_id.repr.as_str(),
            ),
            _ => false,
        };
        if lacking {
            let mut text = record.crate_name.clone();
            text.append(" ");
            text.append(record.version.as_str());
            let ghost before = out.deep_view();
            out.push(text);
            assert(out.deep_view() =~= before.push(all[i as int].crate_name + " "@ + all[i as int].version));
        }
        i = i + 1;
    }
    out
}

/// The hash that a record without hash gets: the one of the lock data,
/// which is held under the identifier of the record, or else the fetched
/// one, which is held under the full identifier.
pub open spec fn hash_for(
    record: CrateDerivationView,
    full_id: Seq<char>,
    prefetched: Map<Seq<char>, Seq<char>>,
    lock: Map<Seq<char>, Seq<char>>,
) -> Option<Seq<char>> {
    if lock.contains_key(record.package_id) {
        Some(lock[record.package_id])
    } else if prefetched.contains_key(full_id) {
        Some(prefetched[full_id])
    } else {
        None
    }
}

/// A record with the hash that is known for it, where it has none yet.
pub open spec fn filled(
    record: CrateDerivationView,
    full_id: Seq<char>,
    prefetched: Map<Seq<char>, Seq<char>>,
    lock: Map<Seq<char>, Seq<char>>,
) -> CrateDerivationView {
    if record.source.sha256() is None {
        match hash_for(record, full_id, prefetched, lock) {
            Some(hash) => CrateDerivationView { source: record.source.with_hash(Some(hash)), ..record },
            None => record,
        }
    } else {
        record
    }
}

/// Puts the known hashes on the records that are without hash.
pub fn fill_crates_sha256(
    crates: &mut Vec<CrateDerivation>,
    prefetched: &SortedMap<String>,
    from_lock_file: &SortedMap<String>,
    id_shortener: &PackageIdShortener,
)
    requires
        prefetched.wf(),
        from_lock_file.wf(),
        id_shortener.wf(),
    ensures
        final(crates).len() == old(crates).len(),
        forall|i: int|
            0 <= i < old(crates).len() ==> (#[trigger] final(crates).deep_view()[i]) == filled(
                old(crates).deep_view()[i],
                id_shortener.lengthened(old(crates).deep_view()[i].package_id),
                text_views(prefetched@),
                text_views(from_lock_file@),
            ),
{
    let ghost start = crates.deep_view();
    let mut i: usize = 0;
    while i < crates.len()
        invariant
            i <= crates.len(),
            crates.len() == start.len(),
            prefetched.wf(),
            from_lock_file.wf(),
            id_shortener.wf(),
            forall|k: int| i <= k < start.len() ==> (#[trigger] crates.deep_view()[k]) == start[k],
            forall|k: int|
                0 <= k < i ==> (#[trigger] crates.deep_view()[k]) == filled(
                    start[k],
                    id_shortener.lengthened(start[k].package_id),
                    text_views(prefetched@),
                    text_views(from_lock_file@),
                ),
        decreases crates.len() - i,
    {
        let ghost before = crates.deep_view();
        assert(before[i as int] == crates[i as int]@);
        if crates[i].source.sha256().is_none() {
            let found: Option<String> = match from_lock_file.get(crates[i].package_id.repr.as_str()) {
                Some(hash) => Some(hash.clone()),
                None => {
                    let full = id_shortener.lengthen_ref(&crates[i].package_id);
                    match prefetched.get(full.repr.as_str()) {
                        Some(hash) => Some(hash.clone()),
                        None => None,
                    }
                },
            };
            match found {
                Some(hash) => {
                    let updated = crates[i].source.with_sha256(hash);
                    crates[i].source = updated;
                },
                None => {},
            }
        }
        proof {
            let now = crates.deep_view();
            assert forall|k: int| 0 <= k < start.len() && k != i implies #[trigger] now[k] == before[k] by {
                assert(now[k] == crates[k]@);
            }
            assert(now[i as int] == crates[i as int]@);
        }
        i = i + 1;
    }
}

/// The build records of all packages, with what else the build file is written from.
pub struct BuildInfo {
    /// The identifier of the root package.
    pub root_package_id: Option<PackageId>,
    /// The identifiers of the workspace members by the names of their packages.
    pub workspace_members: SortedMap<PackageId>,
    /// The registries that the packages come from.
    pub registries: SortedMap<String>,
    /// The build records of the packages that the build needs.
    pub crates: Vec<CrateDerivation>,
    /// The metadata that the records were built from.
    pub indexed_metadata: IndexedMetadata,
    pub info: GenerateInfo,
    pub config: GenerateConfig,
}

/// The workspace members among the first `n`, by the names of their
/// packages; a member without package is left out.
pub open spec fn members_by_name_upto(
    members: Seq<Seq<char>>,
    packages: Map<Seq<char>, PackageView>,
    n: int,
) -> Map<Seq<char>, Seq<char>>
    decreases n,
{
    if n <= 0 {
        Map::empty()
    } else if packages.contains_key(members[n - 1]) {
        members_by_name_upto(members, packages, n - 1).insert(packages[members[n - 1]].name, members[n - 1])
    } else {
        members_by_name_upto(members, packages, n - 1)
    }
}

impl BuildInfo {
    /// The maps are in order.
    pub open spec fn wf(&self) -> bool {
        self.workspace_members.wf() && self.registries.wf() && self.indexed_metadata.wf()
    }

    /// Builds the records of all packages of the metadata, in the order of
    /// their identifiers. `paths` holds the canonical paths of each
    /// package, in the same order. The first package for which no record
    /// can be built ends the work with its failure.
    pub fn new(
        info: &GenerateInfo,
        config: &GenerateConfig,
        metadata: IndexedMetadata,
        crate2nix_json: &Config,
        paths: &Vec<PackagePaths>,
    ) -> (r: Result<(BuildInfo, Vec<DerivationWarnings>), ResolveError>)
        requires
            metadata.wf(),
            crate2nix_json.wf(),
            paths.len() == metadata.package_keys().len(),
            forall|i: int|
                0 <= i < paths.len() ==> (#[trigger] paths[i]).target_paths.len() == metadata.packages()[metadata.package_keys()[i]].targets.len(),
        ensures
            r is Ok <==> forall|i: int|
                0 <= i < metadata.package_keys().len() ==> is_resolvable(
                    &metadata,
                    metadata.packages()[#[trigger] metadata.package_keys()[i]],
                ),
            r matches Ok(built) ==> {
                &&& built.0.wf()
                &&& built.0.indexed_metadata == metadata
                &&& built.0.root_package_id.deep_view() == metadata.spec_root()
                &&& crate::shortener::id_views(built.0.workspace_members@) == members_by_name_upto(
                    metadata.spec_workspace_members(),
                    metadata.packages(),
                    metadata.spec_workspace_members().len() as int,
                )
                &&& built.0.registries@ == Map::<Seq<char>, String>::empty()
                &&& built.0.info.crate2nix_version@ == info.crate2nix_version@
                &&& built.0.info.crate2nix_arguments.deep_view() == info.crate2nix_arguments.deep_view()
                &&& built.0.config.output@ == config.output@
                &&& built.0.config.nixpkgs_path@ == config.nixpkgs_path@
                &&& built.0.config.cargo_toml.deep_view() == config.cargo_toml.deep_view()
                &&& built.0.crates.len() == metadata.package_keys().len()
                &&& built.1.len() == metadata.package_keys().len()
                &&& forall|i: int|
                    0 <= i < metadata.package_keys().len() ==> {
                        let package = metadata.packages()[metadata.package_keys()[i]];
                        &&& (#[trigger] built.0.crates[i])@ == derivation_of(
                            &metadata,
                            package,
                            paths[i]@,
                            crate2nix_json.spec_sources(),
                        )
                        &&& built.1[i] == source_of(
                            package,
                            paths[i]@,
                            crate2nix_json.spec_sources(),
                            is_member(metadata.spec_root(), metadata.spec_workspace_members(), package.id),
                        ).1
                    }
            },
            r matches Err(e) ==> exists|i: int|
                {
                    &&& 0 <= i < metadata.package_keys().len()
                    &&& resolve_outcome(
                        &metadata,
                        metadata.packages()[#[trigger] metadata.package_keys()[i]],
                        paths[i]@,
                        crate2nix_json.spec_sources(),
                        Err(e),
                    )
                    &&& forall|j: int|
                        0 <= j < i ==> is_resolvable(
                            &metadata,
                            metadata.packages()[#[trigger] metadata.package_keys()[j]],
                        )
                },
    {
        let n = metadata.package_count();
        let mut crates: Vec<CrateDerivation> = Vec::new();
        let mut warnings: Vec<DerivationWarnings> = Vec::new();
        let mut i: usize = 0;
        while i < n
            invariant
                i <= n,
                n == metadata.package_keys().len(),
                metadata.wf(),
                crate2nix_json.wf(),
                paths.len() == n,
                forall|k: int|
                    0 <= k < paths.len() ==> (#[trigger] paths[k]).target_paths.len() == metadata.packages()[metadata.package_keys()[k]].targets.len(),
                crates.len() == i,
                warnings.len() == i,
                forall|k: int|
                    0 <= k < i ==> is_resolvable(&metadata, metadata.packages()[#[trigger] metadata.package_keys()[k]]),
                forall|k: int|
                    0 <= k < i ==> {
                        let package = metadata.packages()[metadata.package_keys()[k]];
                        &&& (#[trigger] crates[k])@ == derivation_of(
                            &metadata,
                            package,
                            paths[k]@,
                            crate2nix_json.spec_sources(),
                        )
                        &&& warnings[k] == source_of(
                            package,
                            paths[k]@,
                            crate2nix_json.spec_sources(),
                            is_member(metadata.spec_root(), metadata.spec_workspace_members(), package.id),
                        ).1
                    },
            decreases n - i,
        {
            let package = metadata.package_at(i);
            let resolved = CrateDerivation::resolve(&paths[i], crate2nix_json, &metadata, package);
            proof {
                crate::derivation::lemma_resolve_outcome(
                    &metadata,
                    package@,
                    paths[i as int]@,
                    crate2nix_json.spec_sources(),
                    resolved,
                );
            }
            match resolved {
                Ok((derivation, warning)) => {
                    crates.push(derivation);
                    warnings.push(warning);
                },
                Err(e) => {
                    return Err(e);
                },
            }
            i = i + 1;
        }
        let mut workspace_members: SortedMap<PackageId> = SortedMap::new();
        let members = metadata.workspace_members();
        let mut k: usize = 0;
        assert(crate::shortener::id_views(workspace_members@) =~= members_by_name_upto(
            metadata.spec_workspace_members(),
            metadata.packages(),
            0,
        ));
        while k < members.len()
            invariant
                k <= members.len(),
                metadata.wf(),
                members.deep_view() == metadata.spec_workspace_members(),
                workspace_members.wf(),
                crate::shortener::id_views(workspace_members@) == members_by_name_upto(
                    metadata.spec_workspace_members(),
                    metadata.packages(),
                    k as int,
                ),
            decreases members.len() - k,
        {
            assert(members.deep_view()[k as int] == members[k as int]@);
            match metadata.package_by_id(&members[k]) {
                Some(package) => {
                    let ghost before = workspace_members@;
                    let id = members[k].clone();
                    workspace_members.insert(package.name.clone(), id);
                    assert(crate::shortener::id_views(workspace_members@) =~= crate::shortener::id_views(
                        before,
                    ).insert(package@.name, id@));
                },
                None => {},
            }
            k = k + 1;
        }
        let root_package_id = match metadata.root() {
            Some(root) => Some(root.clone()),
            None => None,
        };
        let built = BuildInfo {
            root_package_id,
            workspace_members,
            registries: SortedMap::new(),
            crates,
            indexed_metadata: metadata,
            info: info.clone(),
            config: config.clone(),
        };
        Ok((built, warnings))
    }
}

/// The identifiers from which the records that a build needs are
/// reached: the root, then the workspace members in the order of their names.
pub open spec fn root_ids(root: Option<Seq<char>>, members: Seq<PackageId>) -> Seq<Seq<char>> {
    (match root {
        Some(root) => seq![root],
        None => Seq::empty(),
    }) + Seq::new(members.len(), |i: int| members[i]@)
}

impl BuildInfo {
    /// Drops the records that the build does not need: those that cannot
    /// be reached from the root and the workspace members along the
    /// dependencies.
    pub fn prune_unneeded_crates(&mut self)
        requires
            old(self).wf(),
        ensures
            final(self).wf(),
            final(self).crates.deep_view() == old(self).crates.deep_view().filter(
                crate::prune::needed(
                    old(self).crates.deep_view(),
                    root_ids(old(self).root_package_id.deep_view(), old(self).workspace_members.values()),
                ),
            ),
            final(self).root_package_id == old(self).root_package_id,
            final(self).workspace_members == old(self).workspace_members,
            final(self).registries == old(self).registries,
            final(self).indexed_metadata == old(self).indexed_metadata,
            final(self).info == old(self).info,
            final(self).config == old(self).config,
    {
        proof {
            self.workspace_members.lemma_entries();
        }
        let mut roots: Vec<String> = Vec::new();
        match &self.root_package_id {
            Some(root) => {
                roots.push(root.repr.clone());
            },
            None => {},
        }
        let ghost first = roots.deep_view();
        let n = self.workspace_members.len();
        let mut i: usize = 0;
        assert(roots.deep_view() =~= first + Seq::new(0, |k: int| self.workspace_members.values()[k]@));
        while i < n
            invariant
                i <= n,
                n == self.workspace_members.values().len(),
                n == self.workspace_members.keys().len(),
                roots.deep_view() == first + Seq::new(i as nat, |k: int| self.workspace_members.values()[k]@),
            decreases n - i,
        {
            let ghost before = roots.deep_view();
            let id = self.workspace_members.value_at(i).repr.clone();
            roots.push(id);
            assert(roots.deep_view() =~= before.push(self.workspace_members.values()[i as int]@));
            assert(roots.deep_view() =~= first + Seq::new(
                (i + 1) as nat,
                |k: int| self.workspace_members.values()[k]@,
            ));
            i = i + 1;
        }
        assert(roots.deep_view() =~= root_ids(
            self.root_package_id.deep_view(),
            self.workspace_members.values(),
        ));
        let mut crates: Vec<CrateDerivation> = Vec::new();
        std::mem::swap(&mut crates, &mut self.crates);
        self.crates = crate::prune::prune(crates, &roots);
    }
}

/// The hashes of the lock data under the short identifiers of the
/// packages, in the notation of the lock data, with the packages of the
/// default registry that have none.
pub fn extract_hashes_from_lockfile(
    config: &GenerateConfig,
    merged: &crate::metadata::MergedMetadata,
    lock_files: &Vec<crate::lock::EncodableResolve>,
    crates: &Vec<CrateDerivation>,
    id_shortener: &PackageIdShortener,
) -> (r: (SortedMap<String>, Vec<String>))
    requires
        id_shortener.wf(),
        forall|i: int| 0 <= i < lock_files.len() ==> (#[trigger] lock_files[i]).wf(),
    ensures
        r.0.wf(),
        !config.use_cargo_lock_checksums ==> r.0@ == Map::<Seq<char>, String>::empty() && r.1.len() == 0,
        config.use_cargo_lock_checksums ==> exists|full: SortedMap<String>|
            {
                &&& full.wf()
                &&& text_views(full@) == lock_hashes_upto(lock_files@, merged@.packages, lock_files.len() as int)
                &&& #[trigger] text_views(r.0@) == shortened_keys_upto(
                    full.keys(),
                    full.values(),
                    *id_shortener,
                    full.keys().len() as int,
                )
                &&& r.1.deep_view() == missing_upto(crates.deep_view(), text_views(r.0@), crates.len() as int)
            },
{
    if !config.use_cargo_lock_checksums {
        return (SortedMap::new(), Vec::new());
    }
    let mut hashes: SortedMap<String> = SortedMap::new();
    let mut i: usize = 0;
    assert(text_views(hashes@) =~= lock_hashes_upto(lock_files@, merged@.packages, 0));
    while i < lock_files.len()
        invariant
            i <= lock_files.len(),
            hashes.wf(),
            forall|k: int| 0 <= k < lock_files.len() ==> (#[trigger] lock_files[k]).wf(),
            text_views(hashes@) == lock_hashes_upto(lock_files@, merged@.packages, i as int),
        decreases lock_files.len() - i,
    {
        lock_files[i].get_hashes_by_package_id(merged, &mut hashes);
        i = i + 1;
    }
    let hashes_with_shortened_ids = shorten_hash_keys(&hashes, id_shortener);
    let missing = missing_hashes(crates, &hashes_with_shortened_ids);
    (hashes_with_shortened_ids, missing)
}

/// The hashes that the first `n` sets of lock data give, a later set
/// replacing what an earlier one holds for the same package.
pub open spec fn lock_hashes_upto(
    lock_files: Seq<crate::lock::EncodableResolve>,
    packages: Seq<PackageView>,
    n: int,
) -> Map<Seq<char>, Seq<char>>
    decreases n,
{
    if n <= 0 {
        Map::empty()
    } else {
        crate::lock::hashes_upto(
            lock_files[n - 1].package.deep_view(),
            packages,
            lock_files[n - 1].table(),
            lock_hashes_upto(lock_files, packages, n - 1),
            lock_files[n - 1].package.len() as int,
        )
    }
}

} // verus!
