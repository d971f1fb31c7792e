//! Sources that a user configured for workspace members.

use vstd::prelude::*;
use vstd::string::StringExecFns;
use crate::text::clone_optional;

verus! {

/// A nix file that is either imported or called as a package.
#[derive(Debug, PartialEq, Eq, Hash)]
pub enum NixFile {
    /// A file path that is imported.
    Import(String),
    /// A file path that is handed to `pkgs.callPackage`.
    Package(String),
}

pub enum NixFileView {
    Import(Seq<char>),
    Package(Seq<char>),
}

impl DeepView for NixFile {
    type V = NixFileView;

    open spec fn deep_view(&self) -> NixFileView {
        match self {
            NixFile::Import(path) => NixFileView::Import(path@),
            NixFile::Package(path) => NixFileView::Package(path@),
        }
    }
}

impl View for NixFile {
    type V = NixFileView;

    open spec fn view(&self) -> NixFileView {
        self.deep_view()
    }
}

impl Clone for NixFile {
    fn clone(&self) -> (r: Self)
        ensures
            r@ == self@,
    {
        match self {
            NixFile::Import(path) => NixFile::Import(path.clone()),
            NixFile::Package(path) => NixFile::Package(path.clone()),
        }
    }
}

impl NixFileView {
    /// The command line option that chooses this file.
    pub open spec fn command(self) -> Seq<char> {
        match self {
            NixFileView::Import(path) => "--import '"@ + path + "'"@,
            NixFileView::Package(path) => "--package '"@ + path + "'"@,
        }
    }

    /// The nix expression that evaluates this file.
    pub open spec fn expression(self) -> Seq<char> {
        match self {
            NixFileView::Import(path) => "import "@ + path,
            NixFileView::Package(path) => "pkgs.callPackage "@ + path + " {}"@,
        }
    }
}

impl NixFile {
    /// The chosen file as a command line option.
    pub fn as_command(&self) -> (r: String)
        ensures
            r@ == self@.command(),
    {
        match self {
            NixFile::Import(path) => {
                let mut r = String::from_str("--import '");
                r.append(path.as_str());
                r.append("'");
                r
            },
            NixFile::Package(path) => {
                let mut r = String::from_str("--package '");
                r.append(path.as_str());
                r.append("'");
                r
            },
        }
    }

    /// The chosen file as a nix expression.
    pub fn to_string(&self) -> (r: String)
        ensures
            r@ == self@.expression(),
    {
        match self {
            NixFile::Import(path) => {
                let mut r = String::from_str("import ");
                r.append(path.as_str());
                r
            },
            NixFile::Package(path) => {
                let mut r = String::from_str("pkgs.callPackage ");
                r.append(path.as_str());
                r.append(" {}");
                r
            },
        }
    }
}

/// A source outside the tree that stands in for a workspace member.
#[derive(Debug, PartialEq, Eq)]
pub enum Source {
    /// The source comes from the default registry.
    CratesIo { name: String, version: String, sha256: String },
    /// The source comes from a git repository.
    Git { url: String, rev: String, sha256: String },
    /// The source is the value of a nix expression.
    Nix { file: NixFile, attr: Option<String> },
    /// The source is already at hand in a directory.
    LocalDirectory { path: String },
}

pub enum SourceView {
    CratesIo { name: Seq<char>, version: Seq<char>, sha256: Seq<char> },
    Git { url: Seq<char>, rev: Seq<char>, sha256: Seq<char> },
    Nix { file: NixFileView, attr: Option<Seq<char>> },
    LocalDirectory { path: Seq<char> },
}

impl DeepView for Source {
    type V = SourceView;

    open spec fn deep_view(&self) -> SourceView {
        match self {
            Source::CratesIo { name, version, sha256 } => SourceView::CratesIo {
                name: name@,
                version: version@,
                sha256: sha256@,
            },
            Source::Git { url, rev, sha256 } => SourceView::Git { url: url@, rev: rev@, sha256: sha256@ },
            Source::Nix { file, attr } => SourceView::Nix { file: file@, attr: attr.deep_view() },
            Source::LocalDirectory { path } => SourceView::LocalDirectory { path: path@ },
        }
    }
}

impl View for Source {
    type V = SourceView;

    open spec fn view(&self) -> SourceView {
        self.deep_view()
    }
}

impl Clone for Source {
    fn clone(&self) -> (r: Self)
        ensures
            r@ == self@,
    {
        match self {
            Source::CratesIo { name, version, sha256 } => Source::CratesIo {
                name: name.clone(),
                version: version.clone(),
                sha256: sha256.clone(),
            },
            Source::Git { url, rev, sha256 } => Source::Git {
                url: url.clone(),
                rev: rev.clone(),
                sha256: sha256.clone(),
            },
            Source::Nix { file, attr } => Source::Nix { file: file.clone(), attr: clone_optional(attr) },
            Source::LocalDirectory { path } => Source::LocalDirectory { path: path.clone() },
        }
    }
}

/// The kinds of source that can be added by name.
#[derive(Clone, Copy, Debug, PartialEq, Eq, Structural)]
pub enum SourceType {
    /// Corresponds to `Source::CratesIo`.
    CratesIo,
    /// Corresponds to `Source::Git`.
    Git,
}

impl SourceType {
    /// Reads the name of a kind of source: `cratesIo` or `git`.
    pub fn from_str(s: &str) -> (r: Option<SourceType>)
        ensures
            r == (if s@ == "cratesIo"@ {
                Some(SourceType::CratesIo)
            } else if s@ == "git"@ {
                Some(SourceType::Git)
            } else {
                None
            }),
    {
        if crate::text::same_text(s, "cratesIo") {
            Some(SourceType::CratesIo)
        } else if crate::text::same_text(s, "git") {
            Some(SourceType::Git)
        } else {
            None
        }
    }
}


/// The views of the sources that a map holds.
pub open spec fn source_views(m: Map<Seq<char>, Source>) -> Map<Seq<char>, SourceView> {
    m.map_values(|s: Source| s@)
}

/// What comes behind the last `separator` of `s`; all of `s` where it holds none.
pub open spec fn after_last(s: Seq<char>, separator: char) -> Seq<char>
    decreases s.len(),
{
    if s.len() == 0 {
        s
    } else if s.last() == separator {
        Seq::empty()
    } else {
        after_last(s.drop_last(), separator).push(s.last())
    }
}

/// `s` without the ending `suffix`, where it ends with it.
pub open spec fn without_suffix(s: Seq<char>, suffix: Seq<char>) -> Seq<char> {
    if crate::text::has_suffix(s, suffix) {
        s.take(s.len() - suffix.len())
    } else {
        s
    }
}

/// The name under which a source is entered where no name is given: the
/// crate's name; for a repository the last segment of its path without
/// `.git`; for a nix expression the last part of the attribute path.
pub open spec fn source_name(source: SourceView, url_path: Option<Seq<char>>) -> Option<Seq<char>> {
    match source {
        SourceView::CratesIo { name, .. } => Some(name),
        SourceView::Git { .. } => match url_path {
            Some(path) => Some(without_suffix(after_last(path, '/'), ".git"@)),
            None => None,
        },
        SourceView::Nix { attr: Some(attr), .. } => Some(after_last(attr, '.')),
        _ => None,
    }
}

/// The name that a source gives itself, the path of a repository being
/// read off its URL.
pub open spec fn own_name(source: SourceView) -> Option<Seq<char>> {
    source_name(
        source,
        match source {
            SourceView::Git { url, .. } => match crate::bindings::url_parts(url) {
                Some(parts) => Some(parts.path),
                None => None,
            },
            _ => None,
        },
    )
}

/// What comes behind the last `separator` of `s`.
pub fn tail_after(s: &str, separator: char) -> (r: String)
    ensures
        r@ == after_last(s@, separator),
{
    let v = crate::text::chars_of(s);
    let mut i: usize = v.len();
    assert(v@.take(i as int) =~= v@);
    assert(v@.subrange(i as int, v.len() as int) =~= Seq::<char>::empty());
    while i > 0 && v[i - 1] != separator
        invariant
            i <= v.len(),
            after_last(v@, separator) == after_last(v@.take(i as int), separator) + v@.subrange(
                i as int,
                v.len() as int,
            ),
        decreases i,
    {
        proof {
            let front = v@.take(i as int);
            assert(front.last() == v[i - 1]);
            assert(front.drop_last() =~= v@.take(i - 1));
            assert(after_last(v@.take(i - 1), separator).push(v[i - 1]) + v@.subrange(i as int, v.len() as int)
                =~= after_last(v@.take(i - 1), separator) + v@.subrange(i - 1, v.len() as int));
        }
        i = i - 1;
    }
    proof {
        let front = v@.take(i as int);
        if i > 0 {
            assert(front.last() == v[i - 1]);
        }
        assert(after_last(front, separator) =~= Seq::<char>::empty());
        assert(Seq::<char>::empty() + v@.subrange(i as int, v.len() as int) =~= v@.subrange(
            i as int,
            v.len() as int,
        ));
    }
    crate::text::string_of_range(&v, i, v.len())
}

/// `s` without the ending `suffix`, where it ends with it.
pub fn strip_suffix(s: &str, suffix: &str) -> (r: String)
    ensures
        r@ == without_suffix(s@, suffix@),
{
    if crate::text::ends_with(s, suffix) {
        let v = crate::text::chars_of(s);
        let n = suffix.unicode_len();
        let r = crate::text::string_of_range(&v, 0, v.len() - n);
        assert(v@.subrange(0, v.len() - n) =~= v@.take(v.len() - n));
        r
    } else {
        String::from_str(s)
    }
}

impl Source {
    /// The name under which the source is entered where no name is given,
    /// `url_path` being the path of the repository's URL where the source
    /// is a repository with a well-formed URL.
    pub fn name_from(&self, url_path: Option<String>) -> (r: Option<String>)
        ensures
            r.deep_view() == source_name(self@, url_path.deep_view()),
    {
        match self {
            Source::CratesIo { name, .. } => Some(name.clone()),
            Source::Git { .. } => match url_path {
                Some(path) => {
                    let last = tail_after(path.as_str(), '/');
                    Some(strip_suffix(last.as_str(), ".git"))
                },
                None => None,
            },
            Source::Nix { attr: Some(attr), .. } => Some(tail_after(attr.as_str(), '.')),
            _ => None,
        }
    }

    /// The name under which the source is entered where no name is given.
    pub fn name(&self) -> (r: Option<String>)
        ensures
            r.deep_view() == own_name(self@),
    {
        let url_path = match self {
            Source::Git { url, .. } => match crate::bindings::parse_url(url.as_str()) {
                Some(parts) => Some(parts.path),
                None => None,
            },
            _ => None,
        };
        self.name_from(url_path)
    }
}

/// The sources that are configured, by the name of the workspace member
/// that each stands in for.
pub struct Config {
    sources: crate::sorted_map::SortedMap<Source>,
}

impl Config {
    /// The map of sources is in order.
    pub closed spec fn wf(&self) -> bool {
        self.sources.wf()
    }

    /// The sources by name.
    pub closed spec fn spec_sources(&self) -> Map<Seq<char>, SourceView> {
        source_views(self.sources@)
    }

    /// A configuration without sources.
    pub fn default() -> (r: Config)
        ensures
            r.wf(),
            r.spec_sources() == Map::<Seq<char>, SourceView>::empty(),
            r.names() == Seq::<Seq<char>>::empty(),
            r.listed() == Seq::<Source>::empty(),
    {
        let r = Config { sources: crate::sorted_map::SortedMap::new() };
        proof {
            r.sources.lemma_entries();
            assert(r.spec_sources() =~= Map::<Seq<char>, SourceView>::empty());
            assert(r.names() =~= Seq::<Seq<char>>::empty());
            assert(r.listed() =~= Seq::<Source>::empty());
        }
        r
    }

    /// Whether no source is configured.
    pub fn is_empty(&self) -> (r: bool)
        requires
            self.wf(),
        ensures
            r == (self.spec_sources().dom().len() == 0),
    {
        proof {
            self.sources.lemma_entries();
            assert(self.spec_sources().dom() =~= self.sources@.dom());
        }
        self.sources.len() == 0
    }

    /// The source that is configured under `name`.
    pub fn get(&self, name: &str) -> (r: Option<&Source>)
        requires
            self.wf(),
        ensures
            r is Some <==> self.spec_sources().contains_key(name@),
            r matches Some(s) ==> s@ == self.spec_sources()[name@],
    {
        self.sources.get(name)
    }

    /// Enters a source under `name`, in place of the source that was
    /// entered under that name before, which is returned.
    pub fn insert_source(&mut self, name: String, source: Source) -> (r: Option<Source>)
        requires
            old(self).wf(),
        ensures
            final(self).wf(),
            final(self).spec_sources() == old(self).spec_sources().insert(name@, source@),
            r is Some <==> old(self).spec_sources().contains_key(name@),
            r matches Some(s) ==> s@ == old(self).spec_sources()[name@],
    {
        let ghost before = self.sources@;
        let previous = self.sources.remove(name.as_str());
        let ghost between = self.sources@;
        self.sources.insert(name, source);
        proof {
            assert(self.sources@ =~= before.insert(name@, source));
            assert(source_views(self.sources@) =~= source_views(before).insert(name@, source@));
        }
        previous
    }

    /// Adds or replaces a source, under the given name or else under the
    /// name that the source itself gives. Returns the source that was
    /// entered under that name before. Without any name nothing is entered
    /// and the source comes back as the error.
    pub fn upsert_source(&mut self, explicit_name: Option<String>, source: Source) -> (r: Result<
        Option<Source>,
        Source,
    >)
        requires
            old(self).wf(),
        ensures
            final(self).wf(),
            match r {
                Ok(previous) => exists|name: Seq<char>|
                    {
                        &&& #[trigger] final(self).spec_sources() == old(self).spec_sources().insert(
                            name,
                            source@,
                        )
                        &&& Some(name) == (match explicit_name {
                            Some(given) => Some(given@),
                            None => own_name(source@),
                        })
                        &&& previous is Some <==> old(self).spec_sources().contains_key(name)
                        &&& previous matches Some(s) ==> s@ == old(self).spec_sources()[name]
                    },
                Err(rejected) => {
                    &&& explicit_name is None
                    &&& own_name(source@) is None
                    &&& rejected@ == source@
                    &&& final(self).spec_sources() == old(self).spec_sources()
                },
            },
    {
        let name = match explicit_name {
            Some(name) => name,
            None => match source.name() {
                Some(name) => name,
                None => {
                    return Err(source);
                },
            },
        };
        let ghost key = name@;
        let previous = self.insert_source(name, source);
        assert(self.spec_sources() == old(self).spec_sources().insert(key, source@));
        Ok(previous)
    }
}


/// A configured source as a line of text for a reader.
pub open spec fn configured_text(source: SourceView) -> Seq<char> {
    match source {
        SourceView::CratesIo { name, version, sha256 } => name + " "@ + version + " from crates.io: "@ + sha256,
        SourceView::Git { url, rev, sha256 } => url + "#"@ + rev + " via git: "@ + sha256,
        SourceView::Nix { file, attr } => match attr {
            Some(attr) => "("@ + file.expression() + ")."@ + attr,
            None => file.expression(),
        },
        SourceView::LocalDirectory { path } => path,
    }
}

/// The arguments with which a configured source is added again under `name`.
pub open spec fn add_command(source: SourceView, name: Seq<char>) -> Seq<char> {
    match source {
        SourceView::CratesIo { name: crate_name, version, .. } => "cratesIo --name '"@ + name + "' '"@ + crate_name
            + "' '"@ + version + "'"@,
        SourceView::Git { url, rev, .. } => "git --name '"@ + name + "' '"@ + url + "' --rev "@ + rev,
        SourceView::Nix { file, attr } => match attr {
            Some(attr) => "nix --name '"@ + name + "' "@ + file.command() + " '"@ + attr + "'"@,
            None => "nix --name '"@ + name + "' "@ + file.command(),
        },
        SourceView::LocalDirectory { path } => "path --name '"@ + name + "' "@ + path,
    }
}

impl Source {
    /// The source as a line of text for a reader.
    pub fn to_string(&self) -> (r: String)
        ensures
            r@ == configured_text(self@),
    {
        match self {
            Source::CratesIo { name, version, sha256 } => {
                let mut r = name.clone();
                r.append(" ");
                r.append(version.as_str());
                r.append(" from crates.io: ");
                r.append(sha256.as_str());
                r
            },
            Source::Git { url, rev, sha256 } => {
                let mut r = url.clone();
                r.append("#");
                r.append(rev.as_str());
                r.append(" via git: ");
                r.append(sha256.as_str());
                r
            },
            Source::Nix { file, attr } => match attr {
                Some(attr) => {
                    let mut r = String::from_str("(");
                    r.append(file.to_string().as_str());
                    r.append(").");
                    r.append(attr.as_str());
                    r
                },
                None => file.to_string(),
            },
            Source::LocalDirectory { path } => path.clone(),
        }
    }

    /// The arguments with which this source is added again under `name`.
    pub fn as_command(&self, name: &str) -> (r: String)
        ensures
            r@ == add_command(self@, name@),
    {
        match self {
            Source::CratesIo { name: crate_name, version, .. } => {
                let mut r = String::from_str("cratesIo --name '");
                r.append(name);
                r.append("' '");
                r.append(crate_name.as_str());
                r.append("' '");
                r.append(version.as_str());
                r.append("'");
                r
            },
            Source::Git { url, rev, .. } => {
                let mut r = String::from_str("git --name '");
                r.append(name);
                r.append("' '");
                r.append(url.as_str());
                r.append("' --rev ");
                r.append(rev.as_str());
                r
            },
            Source::Nix { file, attr } => {
                let mut r = String::from_str("nix --name '");
                r.append(name);
                r.append("' ");
                r.append(file.as_command().as_str());
                match attr {
                    Some(attr) => {
                        r.append(" '");
                        r.append(attr.as_str());
                        r.append("'");
                    },
                    None => {},
                }
                assert(r@ =~= add_command(self@, name@));
                r
            },
            Source::LocalDirectory { path } => {
                let mut r = String::from_str("path --name '");
                r.append(name);
                r.append("' ");
                r.append(path.as_str());
                r
            },
        }
    }
}


/// The number of bytes of the longest of the first `n` names.
pub open spec fn widest_upto(names: Seq<Seq<char>>, n: int) -> nat
    decreases n,
{
    if n <= 0 {
        0
    } else {
        let before = widest_upto(names, n - 1);
        let here = vstd::utf8::encode_utf8(names[n - 1]).len();
        if here > before {
            here
        } else {
            before
        }
    }
}

/// The lines that show the first `n` sources: for each its name, set in a
/// column of `width` characters, and the source; an empty line; the
/// command that adds the source again, set behind the column; an empty line.
pub open spec fn listing_upto(names: Seq<Seq<char>>, sources: Seq<Source>, width: int, n: int) -> Seq<Seq<char>>
    decreases n,
{
    if n <= 0 {
        Seq::empty()
    } else {
        listing_upto(names, sources, width, n - 1).push(
            crate::text::padded_right(names[n - 1], width) + " "@ + configured_text(sources[n - 1]@),
        ).push(Seq::empty()).push(
            crate::text::padded_right(Seq::empty(), width) + " crate2nix source add "@ + add_command(
                sources[n - 1]@,
                names[n - 1],
            ),
        ).push(Seq::empty())
    }
}

impl Config {
    /// The names of the sources, in the order of strings.
    pub closed spec fn names(&self) -> Seq<Seq<char>> {
        self.sources.keys()
    }

    /// The sources, each at the position of its name.
    pub closed spec fn listed(&self) -> Seq<Source> {
        self.sources.values()
    }

    /// The lines that show all sources, in the order of their names; none
    /// where no source is configured.
    pub fn print_sources(&self) -> (r: Vec<String>)
        requires
            self.wf(),
        ensures
            r.deep_view() == listing_upto(
                self.names(),
                self.listed(),
                widest_upto(self.names(), self.names().len() as int) as int,
                self.names().len() as int,
            ),
    {
        proof {
            self.sources.lemma_entries();
        }
        let n = self.sources.len();
        let mut max_len: usize = 0;
        let mut i: usize = 0;
        while i < n
            invariant
                i <= n,
                n == self.names().len(),
                max_len == widest_upto(self.names(), i as int),
            decreases n - i,
        {
            let here = self.sources.key_at(i).as_str().as_bytes().len();
            if here > max_len {
                max_len = here;
            }
            i = i + 1;
        }
        let mut lines: Vec<String> = Vec::new();
        let mut i: usize = 0;
        assert(lines.deep_view() =~= listing_upto(self.names(), self.listed(), max_len as int, 0));
        while i < n
            invariant
                i <= n,
                n == self.names().len(),
                n == self.listed().len(),
                lines.deep_view() == listing_upto(self.names(), self.listed(), max_len as int, i as int),
            decreases n - i,
        {
            let name = self.sources.key_at(i);
            let source = self.sources.value_at(i);
            let ghost before = lines.deep_view();
            let mut first = crate::text::pad_right(name.as_str(), max_len);
            first.append(" ");
            first.append(source.to_string().as_str());
            let mut second = crate::text::pad_right("", max_len);
            second.append(" crate2nix source add ");
            second.append(source.as_command(name.as_str()).as_str());
            proof {
                assert(""@ =~= Seq::<char>::empty()) by {
                    reveal_strlit("");
                }
            }
            lines.push(first);
            lines.push(String::new());
            lines.push(second);
            lines.push(String::new());
            assert(lines.deep_view() =~= before.push(first@).push(Seq::empty()).push(second@).push(Seq::empty()));
            i = i + 1;
        }
        lines
    }
}

} // verus!
