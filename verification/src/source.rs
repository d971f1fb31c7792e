//! Where the source code of a package comes from, and how that is decided.

use vstd::prelude::*;
use vstd::string::StringExecFns;
use crate::bindings::{diff_paths, parse_url, path_difference, url_parts, UrlParts, UrlPartsView};
use crate::config::{NixFile, NixFileView, Source, SourceView};
use crate::metadata::{Package, PackageView};
use crate::text::{clone_optional, same_text, skip_chars, starts_with, has_prefix};

verus! {

/// A package of the default registry.
#[derive(Debug, PartialEq, Eq)]
pub struct CratesIoSource {
    pub name: String,
    pub version: String,
    pub sha256: Option<String>,
}

/// A package of another registry.
#[derive(Debug, PartialEq, Eq)]
pub struct RegistrySource {
    /// The location of the registry's index.
    pub registry: String,
    pub name: String,
    pub version: String,
    pub sha256: Option<String>,
}

/// A revision of a git repository.
#[derive(Debug, PartialEq, Eq)]
pub struct GitSource {
    /// The location of the repository, without query string and fragment.
    pub url: String,
    pub rev: String,
    /// The branch that holds the revision, where one was named.
    pub git_ref: Option<String>,
    pub sha256: Option<String>,
}

/// A directory, relative to the directory of the generated build file.
#[derive(Debug, PartialEq, Eq)]
pub struct LocalDirectorySource {
    pub path: String,
}

/// The value of a nix expression.
#[derive(Debug, PartialEq, Eq)]
pub struct NixSource {
    pub file: NixFile,
    pub attr: Option<String>,
}

/// How to get at the source code of a package.
#[derive(Debug, PartialEq, Eq)]
pub enum ResolvedSource {
    CratesIo(CratesIoSource),
    Registry(RegistrySource),
    Git(GitSource),
    LocalDirectory(LocalDirectorySource),
    Nix(NixSource),
}

pub enum ResolvedSourceView {
    CratesIo { name: Seq<char>, version: Seq<char>, sha256: Option<Seq<char>> },
    Registry { registry: Seq<char>, name: Seq<char>, version: Seq<char>, sha256: Option<Seq<char>> },
    Git { url: Seq<char>, rev: Seq<char>, git_ref: Option<Seq<char>>, sha256: Option<Seq<char>> },
    LocalDirectory { path: Seq<char> },
    Nix { file: NixFileView, attr: Option<Seq<char>> },
}

impl DeepView for ResolvedSource {
    type V = ResolvedSourceView;

    open spec fn deep_view(&self) -> ResolvedSourceView {
        match self {
            ResolvedSource::CratesIo(s) => ResolvedSourceView::CratesIo {
                name: s.name@,
                version: s.version@,
                sha256: s.sha256.deep_view(),
            },
            ResolvedSource::Registry(s) => ResolvedSourceView::Registry {
                registry: s.registry@,
                name: s.name@,
                version: s.version@,
                sha256: s.sha256.deep_view(),
            },
            ResolvedSource::Git(s) => ResolvedSourceView::Git {
                url: s.url@,
                rev: s.rev@,
                git_ref: s.git_ref.deep_view(),
                sha256: s.sha256.deep_view(),
            },
            ResolvedSource::LocalDirectory(s) => ResolvedSourceView::LocalDirectory { path: s.path@ },
            ResolvedSource::Nix(s) => ResolvedSourceView::Nix { file: s.file@, attr: s.attr.deep_view() },
        }
    }
}

impl View for ResolvedSource {
    type V = ResolvedSourceView;

    open spec fn view(&self) -> ResolvedSourceView {
        self.deep_view()
    }
}

impl ResolvedSourceView {
    /// The content hash that the source carries, if any.
    pub open spec fn sha256(self) -> Option<Seq<char>> {
        match self {
            ResolvedSourceView::CratesIo { sha256, .. } => sha256,
            ResolvedSourceView::Registry { sha256, .. } => sha256,
            ResolvedSourceView::Git { sha256, .. } => sha256,
            _ => None,
        }
    }

    /// Whether a content hash can be fetched for this kind of source: for
    /// a package of the default registry and for a git revision. The hash
    /// of a package of another registry comes with the lock data only.
    pub open spec fn is_fetchable(self) -> bool {
        self is CratesIo || self is Git
    }

    /// The source with the given content hash, where its kind carries one.
    pub open spec fn with_hash(self, hash: Option<Seq<char>>) -> ResolvedSourceView {
        match self {
            ResolvedSourceView::CratesIo { name, version, .. } => ResolvedSourceView::CratesIo {
                name,
                version,
                sha256: hash,
            },
            ResolvedSourceView::Registry { registry, name, version, .. } => ResolvedSourceView::Registry {
                registry,
                name,
                version,
                sha256: hash,
            },
            ResolvedSourceView::Git { url, rev, git_ref, .. } => ResolvedSourceView::Git {
                url,
                rev,
                git_ref,
                sha256: hash,
            },
            other => other,
        }
    }

    /// The identity of the source: the source without its content hash. Two
    /// sources are fetched as one exactly if their identities are equal.
    pub open spec fn identity(self) -> ResolvedSourceView {
        self.with_hash(None)
    }
}

impl Clone for ResolvedSource {
    fn clone(&self) -> (r: Self)
        ensures
            r@ == self@,
    {
        match self {
            ResolvedSource::CratesIo(s) => ResolvedSource::CratesIo(
                CratesIoSource {
                    name: s.name.clone(),
                    version: s.version.clone(),
                    sha256: clone_optional(&s.sha256),
                },
            ),
            ResolvedSource::Registry(s) => ResolvedSource::Registry(
                RegistrySource {
                    registry: s.registry.clone(),
                    name: s.name.clone(),
                    version: s.version.clone(),
                    sha256: clone_optional(&s.sha256),
                },
            ),
            ResolvedSource::Git(s) => ResolvedSource::Git(
                GitSource {
                    url: s.url.clone(),
                    rev: s.rev.clone(),
                    git_ref: clone_optional(&s.git_ref),
                    sha256: clone_optional(&s.sha256),
                },
            ),
            ResolvedSource::LocalDirectory(s) => ResolvedSource::LocalDirectory(
                LocalDirectorySource { path: s.path.clone() },
            ),
            ResolvedSource::Nix(s) => ResolvedSource::Nix(
                NixSource { file: s.file.clone(), attr: clone_optional(&s.attr) },
            ),
        }
    }
}

/// The resolved form of a configured source. A configured hash is kept; a
/// configured git source names no branch.
pub open spec fn configured_source(source: SourceView) -> ResolvedSourceView {
    match source {
        SourceView::Git { url, rev, sha256 } => ResolvedSourceView::Git {
            url,
            rev,
            git_ref: None,
            sha256: Some(sha256),
        },
        SourceView::CratesIo { name, version, sha256 } => ResolvedSourceView::CratesIo {
            name,
            version,
            sha256: Some(sha256),
        },
        SourceView::Nix { file, attr } => ResolvedSourceView::Nix { file, attr },
        SourceView::LocalDirectory { path } => ResolvedSourceView::LocalDirectory { path },
    }
}

impl ResolvedSource {
    /// Takes a configured source as it stands.
    pub fn from(source: Source) -> (r: ResolvedSource)
        ensures
            r@ == configured_source(source@),
    {
        match source {
            Source::Git { url, rev, sha256 } => ResolvedSource::Git(
                GitSource { url, rev, git_ref: None, sha256: Some(sha256) },
            ),
            Source::CratesIo { name, version, sha256 } => ResolvedSource::CratesIo(
                CratesIoSource { name, version, sha256: Some(sha256) },
            ),
            Source::Nix { file, attr } => ResolvedSource::Nix(NixSource { file, attr }),
            Source::LocalDirectory { path } => ResolvedSource::LocalDirectory(LocalDirectorySource { path }),
        }
    }

    /// The content hash of the source, if it has one.
    pub fn sha256(&self) -> (r: Option<&String>)
        ensures
            r.deep_view() == self@.sha256(),
    {
        match self {
            ResolvedSource::CratesIo(s) => s.sha256.as_ref(),
            ResolvedSource::Registry(s) => s.sha256.as_ref(),
            ResolvedSource::Git(s) => s.sha256.as_ref(),
            _ => None,
        }
    }

    /// A copy with the given content hash; a source of a kind that carries
    /// no hash is copied as it is.
    pub fn with_sha256(&self, sha256: String) -> (r: ResolvedSource)
        ensures
            r@ == self@.with_hash(Some(sha256@)),
    {
        match self {
            ResolvedSource::CratesIo(s) => ResolvedSource::CratesIo(
                CratesIoSource { name: s.name.clone(), version: s.version.clone(), sha256: Some(sha256) },
            ),
            ResolvedSource::Registry(s) => ResolvedSource::Registry(
                RegistrySource {
                    registry: s.registry.clone(),
                    name: s.name.clone(),
                    version: s.version.clone(),
                    sha256: Some(sha256),
                },
            ),
            ResolvedSource::Git(s) => ResolvedSource::Git(
                GitSource {
                    url: s.url.clone(),
                    rev: s.rev.clone(),
                    git_ref: clone_optional(&s.git_ref),
                    sha256: Some(sha256),
                },
            ),
            _ => self.clone(),
        }
    }

    /// A copy without content hash: the identity of the source.
    pub fn without_sha256(&self) -> (r: ResolvedSource)
        ensures
            r@ == self@.identity(),
    {
        match self {
            ResolvedSource::CratesIo(s) => ResolvedSource::CratesIo(
                CratesIoSource { name: s.name.clone(), version: s.version.clone(), sha256: None },
            ),
            ResolvedSource::Registry(s) => ResolvedSource::Registry(
                RegistrySource {
                    registry: s.registry.clone(),
                    name: s.name.clone(),
                    version: s.version.clone(),
                    sha256: None,
                },
            ),
            ResolvedSource::Git(s) => ResolvedSource::Git(
                GitSource {
                    url: s.url.clone(),
                    rev: s.rev.clone(),
                    git_ref: clone_optional(&s.git_ref),
                    sha256: None,
                },
            ),
            _ => self.clone(),
        }
    }
}


/// Why a declared source could not be used, so that the package is taken
/// from its local directory.
#[derive(Clone, Copy, Debug, PartialEq, Eq, Structural)]
pub enum SourceWarning {
    /// The declared source has none of the known forms.
    UnknownForm,
    /// The location of the repository is no URL.
    BadUrl,
    /// The declared source names no revision.
    NoRevision,
}

/// The value of the first pair of a query string that has the given key.
pub open spec fn first_value(query: Seq<(Seq<char>, Seq<char>)>, key: Seq<char>) -> Option<Seq<char>>
    decreases query.len(),
{
    if query.len() == 0 {
        None
    } else if query[0].0 == key {
        Some(query[0].1)
    } else {
        first_value(query.drop_first(), key)
    }
}

/// The revision that a repository URL names: its `rev` parameter, or else its fragment.
pub open spec fn revision_of(parts: UrlPartsView) -> Option<Seq<char>> {
    match first_value(parts.query, "rev"@) {
        Some(rev) => Some(rev),
        None => parts.fragment,
    }
}

/// The git source that the parts of a repository URL describe: the URL
/// without query string and fragment, the revision, and the branch that a
/// `branch` parameter names. The hash is not known yet.
pub open spec fn git_source_of(parts: Option<UrlPartsView>) -> Result<ResolvedSourceView, SourceWarning> {
    match parts {
        None => Err(SourceWarning::BadUrl),
        Some(parts) => match revision_of(parts) {
            None => Err(SourceWarning::NoRevision),
            Some(rev) => Ok(
                ResolvedSourceView::Git {
                    url: parts.location,
                    rev,
                    git_ref: first_value(parts.query, "branch"@),
                    sha256: None,
                },
            ),
        },
    }
}

/// The path under which a directory is written into the build file, given
/// the way that leads to it from the directory of the build file (`difference`;
/// where there is none, the path of the directory itself is used).
/// The directory of the build file itself is `./.`. A way that is the parent
/// directory alone becomes `../.`; one that begins by going up, and an
/// absolute one, stays as it is; every other is prefixed with `./`.
pub open spec fn relative_directory_of(
    package_dir: Seq<char>,
    output_dir: Seq<char>,
    difference: Option<Seq<char>>,
) -> Seq<char> {
    if package_dir == output_dir {
        "./."@
    } else {
        let path = match difference {
            Some(path) => path,
            None => package_dir,
        };
        if path == ".."@ || path == "../"@ {
            "../."@
        } else if has_prefix(path, "../"@) || has_prefix(path, "/"@) {
            path
        } else {
            "./"@ + path
        }
    }
}

/// What is decided for a package: the source that its declaration names, or
/// the local directory together with the reason why the declaration was not used.
pub open spec fn classified(
    package: PackageView,
    local: Seq<char>,
) -> (ResolvedSourceView, Option<SourceWarning>) {
    let fallback = ResolvedSourceView::LocalDirectory { path: local };
    match package.source {
        None => (fallback, None),
        Some(source) => {
            if source == "registry+https://github.com/rust-lang/crates.io-index"@ {
                (
                    ResolvedSourceView::CratesIo { name: package.name, version: package.version, sha256: None },
                    None,
                )
            } else if has_prefix(source, "sparse+"@) {
                (
                    ResolvedSourceView::Registry {
                        registry: source.skip("sparse+"@.len() as int),
                        name: package.name,
                        version: package.version,
                        sha256: None,
                    },
                    None,
                )
            } else if has_prefix(source, "registry+"@) {
                (
                    ResolvedSourceView::Registry {
                        registry: source.skip("registry+"@.len() as int),
                        name: package.name,
                        version: package.version,
                        sha256: None,
                    },
                    None,
                )
            } else if has_prefix(source, "git+"@) {
                match git_source_of(url_parts(source.skip("git+"@.len() as int))) {
                    Ok(git) => (git, None),
                    Err(warning) => (fallback, Some(warning)),
                }
            } else {
                (fallback, Some(SourceWarning::UnknownForm))
            }
        },
    }
}

/// The value of the first pair with the given key.
pub fn find_value(query: &Vec<(String, String)>, key: &str) -> (r: Option<String>)
    ensures
        r.deep_view() == first_value(query.deep_view(), key@),
{
    let ghost all = query.deep_view();
    assert(all.skip(0) =~= all);
    let mut i: usize = 0;
    while i < query.len()
        invariant
            i <= query.len(),
            all == query.deep_view(),
            first_value(all, key@) == first_value(all.skip(i as int), key@),
        decreases query.len() - i,
    {
        assert(all.skip(i as int)[0] == all[i as int]);
        assert(all[i as int] == query[i as int].deep_view());
        assert(all.skip(i as int).drop_first() =~= all.skip(i + 1));
        if same_text(query[i].0.as_str(), key) {
            return Some(query[i].1.clone());
        }
        i = i + 1;
    }
    None
}

impl ResolvedSource {
    /// Builds the git source that the parts of a repository URL describe.
    /// `parts` is what parsing the URL gave. Without a URL, and without a
    /// revision in it, there is no git source, and the reason is returned.
    pub fn git_source_from_parts(parts: Option<UrlParts>) -> (r: Result<ResolvedSource, SourceWarning>)
        ensures
            r.is_ok() == git_source_of(parts.deep_view()).is_ok(),
            r matches Ok(source) ==> Ok::<ResolvedSourceView, SourceWarning>(source@) == git_source_of(parts.deep_view()),
            r matches Err(warning) ==> Err::<ResolvedSourceView, SourceWarning>(warning) == git_source_of(
                parts.deep_view(),
            ),
    {
        let parts = match parts {
            Some(parts) => parts,
            None => {
                return Err(SourceWarning::BadUrl);
            },
        };
        let branch = find_value(&parts.query, "branch");
        let rev = match find_value(&parts.query, "rev") {
            Some(rev) => rev,
            None => match parts.fragment {
                Some(fragment) => fragment,
                None => {
                    return Err(SourceWarning::NoRevision);
                },
            },
        };
        Ok(ResolvedSource::Git(GitSource { url: parts.location, rev, git_ref: branch, sha256: None }))
    }

    /// The path under which a package directory is written into the build
    /// file, given the way that leads to it from the directory of the build
    /// file.
    pub fn relative_directory_from(
        package_dir: &str,
        output_dir: &str,
        difference: Option<String>,
    ) -> (r: String)
        ensures
            r@ == relative_directory_of(package_dir@, output_dir@, difference.deep_view()),
    {
        if same_text(package_dir, output_dir) {
            return String::from_str("./.");
        }
        let path = match difference {
            Some(path) => path,
            None => String::from_str(package_dir),
        };
        if same_text(path.as_str(), "..") || same_text(path.as_str(), "../") {
            String::from_str("../.")
        } else if starts_with(path.as_str(), "../") || starts_with(path.as_str(), "/") {
            path
        } else {
            let mut r = String::from_str("./");
            r.append(path.as_str());
            r
        }
    }

    /// The path of a package directory relative to the directory of the
    /// build file. Both are given in canonical form.
    pub fn relative_directory(package_dir: &str, output_dir: &str) -> (r: String)
        ensures
            r@ == relative_directory_of(package_dir@, output_dir@, path_difference(package_dir@, output_dir@)),
    {
        let difference = diff_paths(package_dir, output_dir);
        Self::relative_directory_from(package_dir, output_dir, difference)
    }

    /// Decides where the source of a package comes from: the default
    /// registry, another registry, a git repository, or its directory. A
    /// declaration that cannot be used gives the directory and a warning.
    /// `package_dir` and `output_dir` are the canonical paths of the
    /// package's directory and of the directory of the build file.
    pub fn new(output_dir: &str, package: &Package, package_dir: &str) -> (r: (ResolvedSource, Option<SourceWarning>))
        ensures
            (r.0@, r.1) == classified(
                package@,
                relative_directory_of(package_dir@, output_dir@, path_difference(package_dir@, output_dir@)),
            ),
    {
        match &package.source {
            None => (
                ResolvedSource::LocalDirectory(
                    LocalDirectorySource { path: Self::relative_directory(package_dir, output_dir) },
                ),
                None,
            ),
            Some(source) => {
                if same_text(source.as_str(), "registry+https://github.com/rust-lang/crates.io-index") {
                    (
                        ResolvedSource::CratesIo(
                            CratesIoSource {
                                name: package.name.clone(),
                                version: package.version.clone(),
                                sha256: None,
                            },
                        ),
                        None,
                    )
                } else if starts_with(source.as_str(), "sparse+") {
                    (
                        ResolvedSource::Registry(
                            RegistrySource {
                                registry: skip_chars(source.as_str(), "sparse+".unicode_len()),
                                name: package.name.clone(),
                                version: package.version.clone(),
                                sha256: None,
                            },
                        ),
                        None,
                    )
                } else if starts_with(source.as_str(), "registry+") {
                    (
                        ResolvedSource::Registry(
                            RegistrySource {
                                registry: skip_chars(source.as_str(), "registry+".unicode_len()),
                                name: package.name.clone(),
                                version: package.version.clone(),
                                sha256: None,
                            },
                        ),
                        None,
                    )
                } else {
                    Self::git_or_local_directory(output_dir, package, package_dir, source.as_str())
                }
            },
        }
    }

    /// Reads a declared source as a git source; where that fails, the
    /// package is taken from its directory.
    pub fn git_or_local_directory(
        output_dir: &str,
        package: &Package,
        package_dir: &str,
        source: &str,
    ) -> (r: (ResolvedSource, Option<SourceWarning>))
        ensures
            r.0@ == (if has_prefix(source@, "git+"@) {
                match git_source_of(url_parts(source@.skip("git+"@.len() as int))) {
                    Ok(git) => git,
                    Err(_) => ResolvedSourceView::LocalDirectory {
                        path: relative_directory_of(
                            package_dir@,
                            output_dir@,
                            path_difference(package_dir@, output_dir@),
                        ),
                    },
                }
            } else {
                ResolvedSourceView::LocalDirectory {
                    path: relative_directory_of(
                        package_dir@,
                        output_dir@,
                        path_difference(package_dir@, output_dir@),
                    ),
                }
            }),
            r.1 == (if has_prefix(source@, "git+"@) {
                match git_source_of(url_parts(source@.skip("git+"@.len() as int))) {
                    Ok(_) => None,
                    Err(warning) => Some(warning),
                }
            } else {
                Some(SourceWarning::UnknownForm)
            }),
    {
        if !starts_with(source, "git+") {
            return Self::fallback_to_local_directory(output_dir, package_dir, SourceWarning::UnknownForm);
        }
        let location = skip_chars(source, "git+".unicode_len());
        match Self::git_source_from_parts(parse_url(location.as_str())) {
            Ok(git) => (git, None),
            Err(warning) => Self::fallback_to_local_directory(output_dir, package_dir, warning),
        }
    }

    /// The local directory of a package, together with the reason why its
    /// declared source was not used.
    pub fn fallback_to_local_directory(
        output_dir: &str,
        package_dir: &str,
        warning: SourceWarning,
    ) -> (r: (ResolvedSource, Option<SourceWarning>))
        ensures
            r.0@ == (ResolvedSourceView::LocalDirectory {
                path: relative_directory_of(
                    package_dir@,
                    output_dir@,
                    path_difference(package_dir@, output_dir@),
                ),
            }),
            r.1 == Some(warning),
    {
        let path = Self::relative_directory(package_dir, output_dir);
        (ResolvedSource::LocalDirectory(LocalDirectorySource { path }), Some(warning))
    }
}


/// Whether two nix files are the same.
pub fn same_nix_file(a: &NixFile, b: &NixFile) -> (r: bool)
    ensures
        r == (a@ == b@),
{
    match (a, b) {
        (NixFile::Import(x), NixFile::Import(y)) => same_text(x.as_str(), y.as_str()),
        (NixFile::Package(x), NixFile::Package(y)) => same_text(x.as_str(), y.as_str()),
        _ => false,
    }
}

impl ResolvedSource {
    /// Whether a content hash can be fetched for this source.
    pub fn is_fetchable(&self) -> (r: bool)
        ensures
            r == self@.is_fetchable(),
    {
        match self {
            ResolvedSource::CratesIo(_) => true,
            ResolvedSource::Git(_) => true,
            _ => false,
        }
    }

    /// Whether two sources are the same but for their content hashes.
    pub fn same_identity(&self, other: &ResolvedSource) -> (r: bool)
        ensures
            r == (self@.identity() == other@.identity()),
    {
        match (self, other) {
            (ResolvedSource::CratesIo(a), ResolvedSource::CratesIo(b)) => {
                same_text(a.name.as_str(), b.name.as_str()) && same_text(a.version.as_str(), b.version.as_str())
            },
            (ResolvedSource::Registry(a), ResolvedSource::Registry(b)) => {
                same_text(a.registry.as_str(), b.registry.as_str()) && same_text(
                    a.name.as_str(),
                    b.name.as_str(),
                ) && same_text(a.version.as_str(), b.version.as_str())
            },
            (ResolvedSource::Git(a), ResolvedSource::Git(b)) => {
                same_text(a.url.as_str(), b.url.as_str()) && same_text(a.rev.as_str(), b.rev.as_str())
                    && crate::resolve::same_optional(&a.git_ref, &b.git_ref)
            },
            (ResolvedSource::LocalDirectory(a), ResolvedSource::LocalDirectory(b)) => same_text(
                a.path.as_str(),
                b.path.as_str(),
            ),
            (ResolvedSource::Nix(a), ResolvedSource::Nix(b)) => {
                same_nix_file(&a.file, &b.file) && crate::resolve::same_optional(&a.attr, &b.attr)
            },
            _ => false,
        }
    }
}


/// The address from which the default registry hands out a package.
pub open spec fn crates_io_url(name: Seq<char>, version: Seq<char>) -> Seq<char> {
    "https://static.crates.io/crates/"@ + name + "/"@ + name + "-"@ + version + ".crate"@
}

/// The name of a package followed by a hyphen and its version.
pub open spec fn name_with_version(name: Seq<char>, version: Seq<char>) -> Seq<char> {
    name + "-"@ + version
}

impl CratesIoSource {
    /// The address from which the package can be had.
    pub fn url(&self) -> (r: String)
        ensures
            r@ == crates_io_url(self.name@, self.version@),
    {
        let mut r = String::from_str("https://static.crates.io/crates/");
        r.append(self.name.as_str());
        r.append("/");
        r.append(self.name.as_str());
        r.append("-");
        r.append(self.version.as_str());
        r.append(".crate");
        r
    }
}

/// An invocation of a program that fetches a source and prints its content hash.
#[derive(Debug, PartialEq, Eq)]
pub struct FetchCommand {
    pub program: String,
    pub args: Vec<String>,
}

impl DeepView for FetchCommand {
    type V = (Seq<char>, Seq<Seq<char>>);

    open spec fn deep_view(&self) -> (Seq<char>, Seq<Seq<char>>) {
        (self.program@, self.args.deep_view())
    }
}

impl View for FetchCommand {
    type V = (Seq<char>, Seq<Seq<char>>);

    open spec fn view(&self) -> (Seq<char>, Seq<Seq<char>>) {
        self.deep_view()
    }
}

/// The command that fetches a source: for a package of the default
/// registry its address and the name of the download; for a git revision
/// the repository, the revision and, where one is named, the branch. A
/// source of another kind is not fetched.
pub open spec fn fetch_command_of(source: ResolvedSourceView) -> Option<(Seq<char>, Seq<Seq<char>>)> {
    match source {
        ResolvedSourceView::CratesIo { name, version, .. } => Some(
            (
                "nix-prefetch-url"@,
                seq![crates_io_url(name, version), "--name"@, name_with_version(name, version)],
            ),
        ),
        ResolvedSourceView::Git { url, rev, git_ref, .. } => Some(
            (
                "nix-prefetch-git"@,
                seq!["--url"@, url, "--fetch-submodules"@, "--rev"@, rev] + (match git_ref {
                    Some(branch) => seq!["--branch-name"@, branch],
                    None => Seq::empty(),
                }),
            ),
        ),
        _ => None,
    }
}

impl ResolvedSource {
    /// The command that fetches the source and prints its content hash.
    pub fn start_prefetch(&self) -> (r: Option<FetchCommand>)
        ensures
            r.deep_view() == fetch_command_of(self@),
    {
        match self {
            ResolvedSource::CratesIo(source) => {
                let mut name = source.name.clone();
                name.append("-");
                name.append(source.version.as_str());
                let mut args: Vec<String> = Vec::new();
                args.push(source.url());
                args.push(String::from_str("--name"));
                args.push(name);
                let command = FetchCommand { program: String::from_str("nix-prefetch-url"), args };
                proof {
                    let want = fetch_command_of(self@).unwrap();
                    assert(command@.1 =~= want.1);
                }
                Some(command)
            },
            ResolvedSource::Git(source) => {
                let mut args: Vec<String> = Vec::new();
                args.push(String::from_str("--url"));
                args.push(source.url.clone());
                args.push(String::from_str("--fetch-submodules"));
                args.push(String::from_str("--rev"));
                args.push(source.rev.clone());
                match &source.git_ref {
                    Some(branch) => {
                        args.push(String::from_str("--branch-name"));
                        args.push(branch.clone());
                    },
                    None => {},
                }
                let command = FetchCommand { program: String::from_str("nix-prefetch-git"), args };
                proof {
                    let want = fetch_command_of(self@).unwrap();
                    assert(command@.1 =~= want.1);
                }
                Some(command)
            },
            _ => None,
        }
    }
}


/// A source as a line of text for a reader.
pub open spec fn source_text(source: ResolvedSourceView) -> Seq<char> {
    match source {
        ResolvedSourceView::CratesIo { name, version, .. } => crates_io_url(name, version),
        ResolvedSourceView::Registry { registry, name, version, .. } => registry + " "@ + name + " "@ + version,
        ResolvedSourceView::Git { url, rev, git_ref, .. } => url + "#"@ + rev + (match git_ref {
            Some(branch) => " branch: "@ + branch,
            None => Seq::empty(),
        }),
        ResolvedSourceView::LocalDirectory { path } => path,
        ResolvedSourceView::Nix { file, attr } => match attr {
            Some(attr) => "("@ + file.expression() + ")."@ + attr,
            None => file.expression(),
        },
    }
}

impl ResolvedSource {
    /// The source as a line of text for a reader.
    pub fn to_string(&self) -> (r: String)
        ensures
            r@ == source_text(self@),
    {
        match self {
            ResolvedSource::CratesIo(source) => source.url(),
            ResolvedSource::Registry(source) => {
                let mut r = source.registry.clone();
                r.append(" ");
                r.append(source.name.as_str());
                r.append(" ");
                r.append(source.version.as_str());
                r
            },
            ResolvedSource::Git(source) => {
                let mut r = source.url.clone();
                r.append("#");
                r.append(source.rev.as_str());
                match &source.git_ref {
                    Some(branch) => {
                        r.append(" branch: ");
                        r.append(branch.as_str());
                    },
                    None => {},
                }
                assert(r@ =~= source_text(self@));
                r
            },
            ResolvedSource::LocalDirectory(source) => source.path.clone(),
            ResolvedSource::Nix(source) => match &source.attr {
                Some(attr) => {
                    let mut r = String::from_str("(");
                    r.append(source.file.to_string().as_str());
                    r.append(").");
                    r.append(attr.as_str());
                    r
                },
                None => source.file.to_string(),
            },
        }
    }
}


/// A repository URL with a `rev` parameter gives that revision; without a
/// `branch` parameter no branch is named.
pub proof fn law_rev_parameter_gives_the_revision(parts: UrlPartsView, rev: Seq<char>)
    requires
        first_value(parts.query, "rev"@) == Some(rev),
    ensures
        git_source_of(Some(parts)) == Ok::<ResolvedSourceView, SourceWarning>(
            ResolvedSourceView::Git {
                url: parts.location,
                rev,
                git_ref: first_value(parts.query, "branch"@),
                sha256: None,
            },
        ),
{
}

/// A repository URL without `rev` parameter but with a fragment gives the
/// fragment as revision, and the branch that its `branch` parameter names.
pub proof fn law_fragment_gives_the_revision(parts: UrlPartsView, fragment: Seq<char>)
    requires
        first_value(parts.query, "rev"@) is None,
        parts.fragment == Some(fragment),
    ensures
        git_source_of(Some(parts)) == Ok::<ResolvedSourceView, SourceWarning>(
            ResolvedSourceView::Git {
                url: parts.location,
                rev: fragment,
                git_ref: first_value(parts.query, "branch"@),
                sha256: None,
            },
        ),
{
}

/// A package whose declared source is a repository that names no
/// revision, neither as parameter nor as fragment, is taken from its
/// local directory, with a warning: classification does not fail.
pub proof fn law_missing_revision_falls_back(package: PackageView, local: Seq<char>, source: Seq<char>)
    requires
        package.source == Some(source),
        source != "registry+https://github.com/rust-lang/crates.io-index"@,
        !has_prefix(source, "sparse+"@),
        !has_prefix(source, "registry+"@),
        has_prefix(source, "git+"@),
        url_parts(source.skip("git+"@.len() as int)) matches Some(parts) ==> first_value(parts.query, "rev"@)
            is None && parts.fragment is None,
    ensures
        classified(package, local).0 == (ResolvedSourceView::LocalDirectory { path: local }),
        classified(package, local).1 is Some,
{
}

} // verus!
