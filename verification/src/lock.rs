//! Hashes and more from the lock data.

use vstd::prelude::*;
use vstd::string::StringExecFns;
use crate::metadata::{MergedMetadata, Package, PackageView};
use crate::prefetch::text_views;
use crate::sorted_map::SortedMap;
use crate::text::{chars_of, find_char, position_of, same_text, string_of_range};

verus! {

/// The name of a package in the lock data, with its version and source where they are given.
#[derive(Debug, PartialEq, Eq, Hash)]
pub struct EncodablePackageId {
    pub name: String,
    pub version: Option<String>,
    pub source: Option<String>,
}

pub struct EncodablePackageIdView {
    pub name: Seq<char>,
    pub version: Option<Seq<char>>,
    pub source: Option<Seq<char>>,
}

impl DeepView for EncodablePackageId {
    type V = EncodablePackageIdView;

    open spec fn deep_view(&self) -> EncodablePackageIdView {
        EncodablePackageIdView {
            name: self.name@,
            version: self.version.deep_view(),
            source: self.source.deep_view(),
        }
    }
}

impl View for EncodablePackageId {
    type V = EncodablePackageIdView;

    open spec fn view(&self) -> EncodablePackageIdView {
        self.deep_view()
    }
}

/// An identifier as the lock data write it: the name, then the version
/// behind a blank, then the source in parentheses behind a blank.
pub open spec fn written_id(id: EncodablePackageIdView) -> Seq<char> {
    id.name + (match id.version {
        Some(version) => " "@ + version,
        None => Seq::empty(),
    }) + (match id.source {
        Some(source) => " ("@ + source + ")"@,
        None => Seq::empty(),
    })
}

/// The identifier that a text of the lock data spells: the name up to the
/// first blank, the version up to the second, and behind that the source
/// in parentheses. A third part that is not in parentheses spells nothing.
pub open spec fn read_id(s: Seq<char>) -> Option<EncodablePackageIdView> {
    let a = position_of(s, ' ', 0);
    if a >= s.len() {
        Some(EncodablePackageIdView { name: s, version: None, source: None })
    } else {
        let b = position_of(s, ' ', a + 1);
        if b >= s.len() {
            Some(
                EncodablePackageIdView {
                    name: s.subrange(0, a),
                    version: Some(s.subrange(a + 1, s.len() as int)),
                    source: None,
                },
            )
        } else if b + 2 < s.len() && s[b + 1] == '(' && s[s.len() - 1] == ')' {
            Some(
                EncodablePackageIdView {
                    name: s.subrange(0, a),
                    version: Some(s.subrange(a + 1, b)),
                    source: Some(s.subrange(b + 2, s.len() - 1)),
                },
            )
        } else {
            None
        }
    }
}

impl EncodablePackageId {
    /// The identifier as the lock data write it.
    pub fn to_string(&self) -> (r: String)
        ensures
            r@ == written_id(self@),
    {
        let mut r = self.name.clone();
        match &self.version {
            Some(version) => {
                r.append(" ");
                r.append(version.as_str());
            },
            None => {},
        }
        match &self.source {
            Some(source) => {
                r.append(" (");
                r.append(source.as_str());
                r.append(")");
            },
            None => {},
        }
        assert(r@ =~= written_id(self@));
        r
    }

    /// Reads an identifier as the lock data write it.
    pub fn from_str(s: &str) -> (r: Option<EncodablePackageId>)
        ensures
            r.deep_view() == read_id(s@),
    {
        let v = chars_of(s);
        let a = find_char(&v, ' ', 0);
        if a >= v.len() {
            let name = string_of_range(&v, 0, v.len());
            assert(v@.subrange(0, v.len() as int) =~= v@);
            return Some(EncodablePackageId { name, version: None, source: None });
        }
        let b = find_char(&v, ' ', a + 1);
        if b >= v.len() {
            return Some(
                EncodablePackageId {
                    name: string_of_range(&v, 0, a),
                    version: Some(string_of_range(&v, a + 1, v.len())),
                    source: None,
                },
            );
        }
        if v.len() - b > 2 && v[b + 1] == '(' && v[v.len() - 1] == ')' {
            Some(
                EncodablePackageId {
                    name: string_of_range(&v, 0, a),
                    version: Some(string_of_range(&v, a + 1, b)),
                    source: Some(string_of_range(&v, b + 2, v.len() - 1)),
                },
            )
        } else {
            None
        }
    }
}

/// A package as the lock data describe it.
#[derive(Debug, PartialEq, Eq)]
pub struct EncodableDependency {
    pub name: String,
    pub version: String,
    pub source: Option<String>,
    pub checksum: Option<String>,
    pub dependencies: Option<Vec<EncodablePackageId>>,
    pub replace: Option<EncodablePackageId>,
}

pub struct EncodableDependencyView {
    pub name: Seq<char>,
    pub version: Seq<char>,
    pub source: Option<Seq<char>>,
    pub checksum: Option<Seq<char>>,
}

impl DeepView for EncodableDependency {
    type V = EncodableDependencyView;

    open spec fn deep_view(&self) -> EncodableDependencyView {
        EncodableDependencyView {
            name: self.name@,
            version: self.version@,
            source: self.source.deep_view(),
            checksum: self.checksum.deep_view(),
        }
    }
}

impl View for EncodableDependency {
    type V = EncodableDependencyView;

    open spec fn view(&self) -> EncodableDependencyView {
        self.deep_view()
    }
}

/// The lock data: the packages and, in the older form, their checksums in a table of their own.
pub struct EncodableResolve {
    pub package: Vec<EncodableDependency>,
    /// Older lock data name the root package apart.
    pub root: Option<EncodableDependency>,
    pub metadata: Option<SortedMap<String>>,
}

/// The identifier of the last of the first `n` packages that has the given name, source and version.
pub open spec fn package_id_for(
    packages: Seq<PackageView>,
    name: Seq<char>,
    source: Seq<char>,
    version: Seq<char>,
    n: int,
) -> Option<Seq<char>>
    decreases n,
{
    if n <= 0 {
        None
    } else if packages[n - 1].name == name && packages[n - 1].source == Some(source) && packages[n - 1].version
        == version {
        Some(packages[n - 1].id)
    } else {
        package_id_for(packages, name, source, version, n - 1)
    }
}

/// The key under which older lock data hold the checksum of a package.
pub open spec fn checksum_key(name: Seq<char>, version: Seq<char>, source: Seq<char>) -> Seq<char> {
    "checksum "@ + name + " "@ + version + " ("@ + source + ")"@
}

/// The checksum of a package of the lock data: the one that stands with
/// it, `<none>` meaning that there is none; or else the one in the table
/// of the older form.
pub open spec fn checksum_of(
    dep: EncodableDependencyView,
    source: Seq<char>,
    table: Option<Map<Seq<char>, Seq<char>>>,
) -> Option<Seq<char>> {
    match dep.checksum {
        Some(checksum) => if checksum == "<none>"@ {
            None
        } else {
            Some(checksum)
        },
        None => match table {
            Some(table) => {
                let key = checksum_key(dep.name, dep.version, source);
                if table.contains_key(key) {
                    Some(table[key])
                } else {
                    None
                }
            },
            None => None,
        },
    }
}

/// The hashes after the first `n` packages of the lock data were looked
/// at: each that has a source, belongs to a package of the metadata and
/// has a checksum enters that checksum under the identifier of the package.
pub open spec fn hashes_upto(
    locked: Seq<EncodableDependencyView>,
    packages: Seq<PackageView>,
    table: Option<Map<Seq<char>, Seq<char>>>,
    hashes: Map<Seq<char>, Seq<char>>,
    n: int,
) -> Map<Seq<char>, Seq<char>>
    decreases n,
{
    if n <= 0 {
        hashes
    } else {
        let before = hashes_upto(locked, packages, table, hashes, n - 1);
        let dep = locked[n - 1];
        match dep.source {
            None => before,
            Some(source) => match package_id_for(packages, dep.name, source, dep.version, packages.len() as int) {
                None => before,
                Some(id) => match checksum_of(dep, source, table) {
                    None => before,
                    Some(checksum) => before.insert(id, checksum),
                },
            },
        }
    }
}

/// The last package with the given name, source and version.
fn find_package<'a>(packages: &'a Vec<Package>, name: &str, source: &str, version: &str) -> (r: Option<
    &'a Package,
>)
    ensures
        (match r {
            Some(p) => Some(p@.id),
            None => None,
        }) == package_id_for(packages.deep_view(), name@, source@, version@, packages.len() as int),
{
    let ghost all = packages.deep_view();
    let mut i: usize = packages.len();
    while i > 0
        invariant
            i <= packages.len(),
            all == packages.deep_view(),
            package_id_for(all, name@, source@, version@, packages.len() as int) == package_id_for(
                all,
                name@,
                source@,
                version@,
                i as int,
            ),
        decreases i,
    {
        i = i - 1;
        let p = &packages[i];
        assert(all[i as int] == p@);
        let source_matches = match &p.source {
            Some(s) => same_text(s.as_str(), source),
            None => false,
        };
        if same_text(p.name.as_str(), name) && source_matches && same_text(p.version.as_str(), version) {
            return Some(p);
        }
    }
    None
}

impl EncodableResolve {
    /// The table of checksums of the older form is in order.
    pub open spec fn wf(&self) -> bool {
        self.metadata matches Some(table) ==> table.wf()
    }

    /// The table of checksums of the older form.
    pub open spec fn table(&self) -> Option<Map<Seq<char>, Seq<char>>> {
        match self.metadata {
            Some(table) => Some(text_views(table@)),
            None => None,
        }
    }

    /// Enters into `hashes` the checksums of the lock data, each under the
    /// identifier of the package of the metadata that it belongs to.
    pub fn get_hashes_by_package_id(&self, metadata: &MergedMetadata, hashes: &mut SortedMap<String>)
        requires
            self.wf(),
            old(hashes).wf(),
        ensures
            final(hashes).wf(),
            text_views(final(hashes)@) == hashes_upto(
                self.package.deep_view(),
                metadata@.packages,
                self.table(),
                text_views(old(hashes)@),
                self.package.len() as int,
            ),
    {
        let ghost locked = self.package.deep_view();
        let ghost packages = metadata@.packages;
        let ghost start = text_views(hashes@);
        let mut i: usize = 0;
        while i < self.package.len()
            invariant
                i <= self.package.len(),
                self.wf(),
                hashes.wf(),
                locked == self.package.deep_view(),
                packages == metadata@.packages,
                text_views(hashes@) == hashes_upto(locked, packages, self.table(), start, i as int),
            decreases self.package.len() - i,
        {
            let dep = &self.package[i];
            assert(locked[i as int] == dep@);
            match &dep.source {
                None => {},
                Some(source) => {
                    match find_package(
                        &metadata.packages,
                        dep.name.as_str(),
                        source.as_str(),
                        dep.version.as_str(),
                    ) {
                        None => {},
                        Some(package) => {
                            let checksum: Option<String> = match &dep.checksum {
                                Some(checksum) => {
                                    if same_text(checksum.as_str(), "<none>") {
                                        None
                                    } else {
                                        Some(checksum.clone())
                                    }
                                },
                                None => match &self.metadata {
                                    Some(table) => {
                                        let mut key = String::from_str("checksum ");
                                        key.append(dep.name.as_str());
                                        key.append(" ");
                                        key.append(dep.version.as_str());
                                        key.append(" (");
                                        key.append(source.as_str());
                                        key.append(")");
                                        assert(key@ =~= checksum_key(dep@.name, dep@.version, source@));
                                        match table.get(key.as_str()) {
                                            Some(found) => Some(found.clone()),
                                            None => None,
                                        }
                                    },
                                    None => None,
                                },
                            };
                            assert(checksum.deep_view() == checksum_of(dep@, source@, self.table()));
                            match checksum {
                                Some(checksum) => {
                                    let ghost before = hashes@;
                                    hashes.insert(package.id.repr.clone(), checksum);
                                    assert(text_views(hashes@) =~= text_views(before).insert(
                                        package@.id,
                                        checksum@,
                                    ));
                                },
                                None => {},
                            }
                        },
                    }
                },
            }
            i = i + 1;
        }
    }
}

} // verus!
