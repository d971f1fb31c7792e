//! Shorter, still unique, display forms of package identifiers.

use vstd::prelude::*;
use vstd::string::StringExecFns;
use crate::metadata::{Node, NodeDep, NodeView, Package, PackageId, PackageView};
use crate::sorted_map::SortedMap;
use crate::text::{clone_strings, same_text};

verus! {

/// Whether no other package of the set has the name of package `i`.
pub open spec fn name_is_unique(pkgs: Seq<PackageView>, i: int) -> bool {
    forall|j: int| 0 <= j < pkgs.len() && j != i ==> (#[trigger] pkgs[j]).name != pkgs[i].name
}

/// Whether another package of the set has both the name and the version of package `i`.
pub open spec fn version_clash(pkgs: Seq<PackageView>, i: int) -> bool {
    exists|j: int|
        0 <= j < pkgs.len() && j != i && (#[trigger] pkgs[j]).name == pkgs[i].name && pkgs[j].version
            == pkgs[i].version
}

/// Whether the packages called `name` all differ in their versions.
pub open spec fn versions_are_distinct(pkgs: Seq<PackageView>, name: Seq<char>) -> bool {
    forall|j: int, k: int|
        0 <= j < pkgs.len() && 0 <= k < pkgs.len() && j != k && (#[trigger] pkgs[j]).name == name && (
        #[trigger] pkgs[k]).name == name ==> pkgs[j].version != pkgs[k].version
}

/// The name of a package, a blank, and its version.
pub open spec fn name_and_version(p: PackageView) -> Seq<char> {
    p.name + " "@ + p.version
}

/// The short form of package `i` within its set: its bare name where no other
/// package has that name; else its name and version where the packages of
/// that name all differ in version; else none, and the full identifier stays.
pub open spec fn short_form(pkgs: Seq<PackageView>, i: int) -> Option<Seq<char>> {
    if name_is_unique(pkgs, i) {
        Some(pkgs[i].name)
    } else if versions_are_distinct(pkgs, pkgs[i].name) {
        Some(name_and_version(pkgs[i]))
    } else {
        None
    }
}

/// The map from full identifiers to short forms after the first `n` packages
/// were entered in turn, a later entry replacing an earlier one of the same key.
pub open spec fn forward_of(pkgs: Seq<PackageView>, n: int) -> Map<Seq<char>, Seq<char>>
    decreases n,
{
    if n <= 0 {
        Map::empty()
    } else {
        match short_form(pkgs, n - 1) {
            Some(short) => forward_of(pkgs, n - 1).insert(pkgs[n - 1].id, short),
            None => forward_of(pkgs, n - 1),
        }
    }
}

/// The map from short forms back to full identifiers after the first `n`
/// packages were entered in turn.
pub open spec fn backward_of(pkgs: Seq<PackageView>, n: int) -> Map<Seq<char>, Seq<char>>
    decreases n,
{
    if n <= 0 {
        Map::empty()
    } else {
        match short_form(pkgs, n - 1) {
            Some(short) => backward_of(pkgs, n - 1).insert(short, pkgs[n - 1].id),
            None => backward_of(pkgs, n - 1),
        }
    }
}

/// What a substitution makes of an identifier: its entry, or the identifier itself.
pub open spec fn substituted(m: Map<Seq<char>, Seq<char>>, id: Seq<char>) -> Seq<char> {
    if m.contains_key(id) {
        m[id]
    } else {
        id
    }
}

/// The views of the identifiers that a map holds.
pub open spec fn id_views(m: Map<Seq<char>, PackageId>) -> Map<Seq<char>, Seq<char>> {
    m.map_values(|id: PackageId| id@)
}

/// A two-way mapping between full package identifiers and their short forms.
pub struct PackageIdShortener {
    substitution: SortedMap<PackageId>,
    reverse: SortedMap<PackageId>,
}

impl PackageIdShortener {
    /// Both maps are in order.
    pub closed spec fn wf(&self) -> bool {
        self.substitution.wf() && self.reverse.wf()
    }

    /// From full identifiers to short forms.
    pub closed spec fn forward(&self) -> Map<Seq<char>, Seq<char>> {
        id_views(self.substitution@)
    }

    /// From short forms to full identifiers.
    pub closed spec fn backward(&self) -> Map<Seq<char>, Seq<char>> {
        id_views(self.reverse@)
    }

    /// The short form that stands for `id`, or `id` itself where it has none.
    pub open spec fn shortened(&self, id: Seq<char>) -> Seq<char> {
        substituted(self.forward(), id)
    }

    /// The full identifier that `id` stands for, or `id` itself where it stands for none.
    pub open spec fn lengthened(&self, id: Seq<char>) -> Seq<char> {
        substituted(self.backward(), id)
    }

    /// Builds the mapping for a set of packages.
    pub fn new(all_packages: &Vec<Package>) -> (s: PackageIdShortener)
        ensures
            s.wf(),
            s.forward() == forward_of(all_packages.deep_view(), all_packages.len() as int),
            s.backward() == backward_of(all_packages.deep_view(), all_packages.len() as int),
    {
        let ghost pkgs = all_packages.deep_view();
        let n = all_packages.len();
        // Per package: whether its name is its alone, and whether another
        // package shares both its name and its version.
        let mut unique: Vec<bool> = Vec::new();
        let mut clash: Vec<bool> = Vec::new();
        let mut i: usize = 0;
        while i < n
            invariant
                i <= n,
                n == all_packages.len(),
                pkgs == all_packages.deep_view(),
                unique.len() == i,
                clash.len() == i,
                forall|a: int| 0 <= a < i ==> unique[a] == name_is_unique(pkgs, a),
                forall|a: int| 0 <= a < i ==> clash[a] == version_clash(pkgs, a),
            decreases n - i,
        {
            let mut alone = true;
            let mut clashes = false;
            let ghost mut witness: int = 0;
            let mut j: usize = 0;
            while j < n
                invariant
                    j <= n,
                    i < n,
                    n == all_packages.len(),
                    pkgs == all_packages.deep_view(),
                    alone == (forall|b: int| 0 <= b < j && b != i ==> (#[trigger] pkgs[b]).name != pkgs[i as int].name),
                    clashes ==> 0 <= witness < n && witness != i && pkgs[witness].name == pkgs[i as int].name
                        && pkgs[witness].version == pkgs[i as int].version,
                    !clashes ==> forall|b: int|
                        0 <= b < j && b != i ==> !((#[trigger] pkgs[b]).name == pkgs[i as int].name && pkgs[b].version
                            == pkgs[i as int].version),
                decreases n - j,
            {
                if j != i {
                    assert(pkgs[j as int] == all_packages[j as int].deep_view());
                    assert(pkgs[i as int] == all_packages[i as int].deep_view());
                    if same_text(all_packages[j].name.as_str(), all_packages[i].name.as_str()) {
                        alone = false;
                        if same_text(all_packages[j].version.as_str(), all_packages[i].version.as_str()) {
                            clashes = true;
                            proof {
                                witness = j as int;
                            }
                        }
                    }
                }
                j = j + 1;
            }
            unique.push(alone);
            clash.push(clashes);
            i = i + 1;
        }
        let mut substitution: SortedMap<PackageId> = SortedMap::new();
        let mut reverse: SortedMap<PackageId> = SortedMap::new();
        assert(id_views(substitution@) =~= forward_of(pkgs, 0));
        assert(id_views(reverse@) =~= backward_of(pkgs, 0));
        let mut i: usize = 0;
        while i < n
            invariant
                i <= n,
                n == all_packages.len(),
                pkgs == all_packages.deep_view(),
                unique.len() == n,
                clash.len() == n,
                forall|a: int| 0 <= a < n ==> unique[a] == name_is_unique(pkgs, a),
                forall|a: int| 0 <= a < n ==> clash[a] == version_clash(pkgs, a),
                substitution.wf(),
                reverse.wf(),
                id_views(substitution@) == forward_of(pkgs, i as int),
                id_views(reverse@) == backward_of(pkgs, i as int),
            decreases n - i,
        {
            let package = &all_packages[i];
            assert(pkgs[i as int] == package.deep_view());
            let mut short: Option<String> = None;
            if unique[i] {
                short = Some(package.name.clone());
            } else {
                // The packages of this name differ in version exactly if none
                // of them clashes with another.
                let mut distinct = true;
                let mut k: usize = 0;
                while k < n
                    invariant
                        k <= n,
                        i < n,
                        n == all_packages.len(),
                        pkgs == all_packages.deep_view(),
                        clash.len() == n,
                        forall|a: int| 0 <= a < n ==> clash[a] == version_clash(pkgs, a),
                        distinct == (forall|b: int|
                            0 <= b < k && (#[trigger] pkgs[b]).name == pkgs[i as int].name ==> !version_clash(
                                pkgs,
                                b,
                            )),
                    decreases n - k,
                {
                    assert(pkgs[k as int] == all_packages[k as int].deep_view());
                    assert(pkgs[i as int] == all_packages[i as int].deep_view());
                    if clash[k] && same_text(all_packages[k].name.as_str(), all_packages[i].name.as_str()) {
                        distinct = false;
                    }
                    k = k + 1;
                }
                proof {
                    lemma_distinct_by_clash(pkgs, pkgs[i as int].name);
                }
                if distinct {
                    let mut text = package.name.clone();
                    text.append(" ");
                    text.append(package.version.as_str());
                    short = Some(text);
                }
            }
            assert(short.deep_view() == short_form(pkgs, i as int));
            match short {
                Some(text) => {
                    let ghost before = (substitution@, reverse@);
                    let short_id = PackageId { repr: text.clone() };
                    let full_id = package.id.clone();
                    substitution.insert(package.id.repr.clone(), short_id);
                    reverse.insert(text, full_id);
                    proof {
                        assert(id_views(substitution@) =~= id_views(before.0).insert(package.id@, short_id@));
                        assert(id_views(reverse@) =~= id_views(before.1).insert(text@, full_id@));
                    }
                },
                None => {},
            }
            i = i + 1;
        }
        PackageIdShortener { substitution, reverse }
    }
}

impl PackageIdShortener {
    /// What shortening makes of a package: only its identifier changes.
    pub open spec fn shortened_package(&self, p: PackageView) -> PackageView {
        PackageView { id: self.shortened(p.id), ..p }
    }

    /// What shortening makes of a graph node: its own identifier and those of its edges change.
    pub open spec fn shortened_node(&self, n: NodeView) -> NodeView {
        NodeView {
            id: self.shortened(n.id),
            dependencies: Seq::new(n.dependencies.len(), |i: int| self.shortened(n.dependencies[i])),
            deps: Seq::new(n.deps.len(), |i: int| (n.deps[i].0, self.shortened(n.deps[i].1))),
            features: n.features,
        }
    }

    /// The full identifier for a short one; an identifier that stands for no other is returned as it is.
    pub fn lengthen_ref<'a>(&'a self, package_id: &'a PackageId) -> (r: &'a PackageId)
        requires
            self.wf(),
        ensures
            r@ == self.lengthened(package_id@),
    {
        match self.reverse.get(package_id.repr.as_str()) {
            Some(full) => full,
            None => package_id,
        }
    }

    /// The short form of an identifier; one without a short form is returned as it is.
    pub fn shorten_ref<'a>(&'a self, package_id: &'a PackageId) -> (r: &'a PackageId)
        requires
            self.wf(),
        ensures
            r@ == self.shortened(package_id@),
    {
        match self.substitution.get(package_id.repr.as_str()) {
            Some(short) => short,
            None => package_id,
        }
    }

    /// The short form of an identifier, as a value of its own.
    pub fn shorten(&self, package_id: &PackageId) -> (r: PackageId)
        requires
            self.wf(),
        ensures
            r@ == self.shortened(package_id@),
    {
        self.shorten_ref(package_id).clone()
    }

    /// The short form of an identifier that the caller gives away.
    pub fn shorten_owned(&self, package_id: PackageId) -> (r: PackageId)
        requires
            self.wf(),
        ensures
            r@ == self.shortened(package_id@),
    {
        match self.substitution.get(package_id.repr.as_str()) {
            Some(short) => short.clone(),
            None => package_id,
        }
    }

    /// A copy of a package under its short identifier.
    pub fn shorten_in_package(&self, package: &Package) -> (r: Package)
        requires
            self.wf(),
        ensures
            r@ == self.shortened_package(package@),
    {
        let mut p = package.clone();
        p.id = self.shorten(&package.id);
        p
    }

    /// A copy of a graph edge that points to the short identifier.
    pub fn shorten_in_node_dep(&self, node_dep: &NodeDep) -> (r: NodeDep)
        requires
            self.wf(),
        ensures
            r@ == (node_dep@.0, self.shortened(node_dep@.1)),
    {
        NodeDep { name: node_dep.name.clone(), pkg: self.shorten(&node_dep.pkg) }
    }

    /// A copy of a graph node in which every identifier is shortened.
    pub fn shorten_in_node(&self, node: &Node) -> (r: Node)
        requires
            self.wf(),
        ensures
            r@ == self.shortened_node(node@),
    {
        let mut dependencies: Vec<PackageId> = Vec::new();
        let mut i: usize = 0;
        while i < node.dependencies.len()
            invariant
                self.wf(),
                i <= node.dependencies.len(),
                dependencies.len() == i,
                forall|j: int| 0 <= j < i ==> dependencies[j]@ == self.shortened(node.dependencies[j]@),
            decreases node.dependencies.len() - i,
        {
            dependencies.push(self.shorten(&node.dependencies[i]));
            i = i + 1;
        }
        let mut deps: Vec<NodeDep> = Vec::new();
        let mut i: usize = 0;
        while i < node.deps.len()
            invariant
                self.wf(),
                i <= node.deps.len(),
                deps.len() == i,
                forall|j: int| 0 <= j < i ==> deps[j]@ == (node.deps[j]@.0, self.shortened(node.deps[j]@.1)),
            decreases node.deps.len() - i,
        {
            deps.push(self.shorten_in_node_dep(&node.deps[i]));
            i = i + 1;
        }
        let r = Node {
            id: self.shorten(&node.id),
            dependencies,
            deps,
            features: clone_strings(&node.features),
        };
        proof {
            let want = self.shortened_node(node@);
            assert(r@.dependencies =~= want.dependencies);
            assert(r@.deps =~= want.deps);
        }
        r
    }
}

/// Whether the packages of a set differ in their identifiers, as resolved packages do.
pub open spec fn ids_are_distinct(pkgs: Seq<PackageView>) -> bool {
    forall|j: int, k: int|
        0 <= j < pkgs.len() && 0 <= k < pkgs.len() && j != k ==> (#[trigger] pkgs[j]).id != (#[trigger] pkgs[k]).id
}

/// Whether no two packages of a set get the same short form.
pub open spec fn short_forms_are_distinct(pkgs: Seq<PackageView>) -> bool {
    forall|j: int, k: int|
        0 <= j < pkgs.len() && 0 <= k < pkgs.len() && j != k && short_form(pkgs, j) is Some ==> #[trigger] short_form(
            pkgs,
            j,
        ) != #[trigger] short_form(pkgs, k)
}

proof fn lemma_forward_of(pkgs: Seq<PackageView>, n: int)
    requires
        0 <= n <= pkgs.len(),
        ids_are_distinct(pkgs),
    ensures
        forall|id: Seq<char>| #[trigger]
            forward_of(pkgs, n).contains_key(id) <==> exists|i: int|
                0 <= i < n && (#[trigger] pkgs[i]).id == id && short_form(pkgs, i) is Some,
        forall|i: int|
            0 <= i < n && short_form(pkgs, i) is Some ==> forward_of(pkgs, n)[(#[trigger] pkgs[i]).id] == short_form(
                pkgs,
                i,
            )->0,
    decreases n,
{
    if n > 0 {
        lemma_forward_of(pkgs, n - 1);
        let last = pkgs[n - 1];
        assert forall|id: Seq<char>| #[trigger]
            forward_of(pkgs, n).contains_key(id) <==> exists|i: int|
                0 <= i < n && (#[trigger] pkgs[i]).id == id && short_form(pkgs, i) is Some by {
            if forward_of(pkgs, n).contains_key(id) {
                if forward_of(pkgs, n - 1).contains_key(id) {
                    let i = choose|i: int|
                        0 <= i < n - 1 && (#[trigger] pkgs[i]).id == id && short_form(pkgs, i) is Some;
                    assert(0 <= i < n && pkgs[i].id == id && short_form(pkgs, i) is Some);
                } else {
                    assert(pkgs[n - 1].id == id && short_form(pkgs, n - 1) is Some);
                }
            }
            if exists|i: int| 0 <= i < n && (#[trigger] pkgs[i]).id == id && short_form(pkgs, i) is Some {
                let i = choose|i: int| 0 <= i < n && (#[trigger] pkgs[i]).id == id && short_form(pkgs, i) is Some;
                if i < n - 1 {
                    assert(forward_of(pkgs, n - 1).contains_key(id));
                }
            }
        }
        assert forall|i: int| 0 <= i < n && short_form(pkgs, i) is Some implies forward_of(pkgs, n)[(
        #[trigger] pkgs[i]).id] == short_form(pkgs, i)->0 by {
            if i < n - 1 {
                assert(pkgs[i].id != pkgs[n - 1].id);
            }
        }
    }
}

proof fn lemma_backward_of(pkgs: Seq<PackageView>, n: int)
    requires
        0 <= n <= pkgs.len(),
        short_forms_are_distinct(pkgs),
    ensures
        forall|i: int|
            0 <= i < n && short_form(pkgs, i) is Some ==> {
                &&& backward_of(pkgs, n).contains_key(#[trigger] short_form(pkgs, i)->0)
                &&& backward_of(pkgs, n)[short_form(pkgs, i)->0] == pkgs[i].id
            },
    decreases n,
{
    if n > 0 {
        lemma_backward_of(pkgs, n - 1);
        assert forall|i: int| 0 <= i < n && short_form(pkgs, i) is Some implies {
            &&& backward_of(pkgs, n).contains_key(#[trigger] short_form(pkgs, i)->0)
            &&& backward_of(pkgs, n)[short_form(pkgs, i)->0] == pkgs[i].id
        } by {
            if i < n - 1 {
                assert(short_form(pkgs, i) != short_form(pkgs, n - 1));
            }
        }
    }
}

/// Shortening can be undone: in a set of packages with distinct identifiers
/// whose short forms are distinct too, a package that has a short form is
/// shortened to it, and lengthening the short form gives the identifier back.
pub proof fn law_shortening_is_invertible(pkgs: Seq<PackageView>, i: int)
    requires
        ids_are_distinct(pkgs),
        short_forms_are_distinct(pkgs),
        0 <= i < pkgs.len(),
        short_form(pkgs, i) is Some,
    ensures
        substituted(forward_of(pkgs, pkgs.len() as int), pkgs[i].id) == short_form(pkgs, i)->0,
        substituted(backward_of(pkgs, pkgs.len() as int), short_form(pkgs, i)->0) == pkgs[i].id,
{
    lemma_forward_of(pkgs, pkgs.len() as int);
    lemma_backward_of(pkgs, pkgs.len() as int);
    assert(forward_of(pkgs, pkgs.len() as int).contains_key(pkgs[i].id));
}

/// Where no two packages share a name, every package is shortened to its
/// bare name, and lengthening that name gives its identifier back.
pub proof fn law_unique_names_shorten_to_names(pkgs: Seq<PackageView>, i: int)
    requires
        ids_are_distinct(pkgs),
        forall|j: int, k: int|
            0 <= j < pkgs.len() && 0 <= k < pkgs.len() && j != k ==> (#[trigger] pkgs[j]).name != (
            #[trigger] pkgs[k]).name,
        0 <= i < pkgs.len(),
    ensures
        substituted(forward_of(pkgs, pkgs.len() as int), pkgs[i].id) == pkgs[i].name,
        substituted(
            backward_of(pkgs, pkgs.len() as int),
            substituted(forward_of(pkgs, pkgs.len() as int), pkgs[i].id),
        ) == pkgs[i].id,
{
    assert forall|j: int| 0 <= j < pkgs.len() implies #[trigger] short_form(pkgs, j) == Some(pkgs[j].name) by {
        assert(name_is_unique(pkgs, j));
    }
    law_shortening_is_invertible(pkgs, i);
}

/// Where packages share names but those of one name all differ in version,
/// a package whose name is shared is shortened to its name and version, and,
/// the short forms being distinct, lengthening gives every identifier back.
pub proof fn law_distinct_versions_shorten_to_name_and_version(pkgs: Seq<PackageView>, i: int)
    requires
        ids_are_distinct(pkgs),
        forall|j: int| 0 <= j < pkgs.len() ==> versions_are_distinct(pkgs, (#[trigger] pkgs[j]).name),
        short_forms_are_distinct(pkgs),
        0 <= i < pkgs.len(),
    ensures
        !name_is_unique(pkgs, i) ==> substituted(forward_of(pkgs, pkgs.len() as int), pkgs[i].id)
            == name_and_version(pkgs[i]),
        substituted(
            backward_of(pkgs, pkgs.len() as int),
            substituted(forward_of(pkgs, pkgs.len() as int), pkgs[i].id),
        ) == pkgs[i].id,
{
    assert(versions_are_distinct(pkgs, pkgs[i].name));
    law_shortening_is_invertible(pkgs, i);
}

/// Two packages that share both name and version are not shortened: each
/// keeps its full identifier.
pub proof fn law_true_collision_is_not_shortened(pkgs: Seq<PackageView>, i: int, j: int)
    requires
        ids_are_distinct(pkgs),
        0 <= i < pkgs.len(),
        0 <= j < pkgs.len(),
        i != j,
        pkgs[i].name == pkgs[j].name,
        pkgs[i].version == pkgs[j].version,
    ensures
        short_form(pkgs, i) is None,
        short_form(pkgs, j) is None,
        substituted(forward_of(pkgs, pkgs.len() as int), pkgs[i].id) == pkgs[i].id,
        substituted(forward_of(pkgs, pkgs.len() as int), pkgs[j].id) == pkgs[j].id,
{
    lemma_forward_of(pkgs, pkgs.len() as int);
    assert(!name_is_unique(pkgs, i));
    assert(!name_is_unique(pkgs, j));
    assert(!versions_are_distinct(pkgs, pkgs[i].name));
    let all = forward_of(pkgs, pkgs.len() as int);
    if all.contains_key(pkgs[i].id) {
        let k = choose|k: int|
            0 <= k < pkgs.len() && (#[trigger] pkgs[k]).id == pkgs[i].id && short_form(pkgs, k) is Some;
        assert(k == i);
    }
    if all.contains_key(pkgs[j].id) {
        let k = choose|k: int|
            0 <= k < pkgs.len() && (#[trigger] pkgs[k]).id == pkgs[j].id && short_form(pkgs, k) is Some;
        assert(k == j);
    }
}

/// The packages of a name differ in version exactly if none of them shares
/// its version with another of them.
proof fn lemma_distinct_by_clash(pkgs: Seq<PackageView>, name: Seq<char>)
    ensures
        versions_are_distinct(pkgs, name) <==> (forall|b: int|
            0 <= b < pkgs.len() && (#[trigger] pkgs[b]).name == name ==> !version_clash(pkgs, b)),
{
    if versions_are_distinct(pkgs, name) {
        assert forall|b: int| 0 <= b < pkgs.len() && (#[trigger] pkgs[b]).name == name implies !version_clash(
            pkgs,
            b,
        ) by {
            if version_clash(pkgs, b) {
                let j = choose|j: int|
                    0 <= j < pkgs.len() && j != b && (#[trigger] pkgs[j]).name == pkgs[b].name && pkgs[j].version
                        == pkgs[b].version;
                assert(pkgs[j].name == name && pkgs[b].name == name);
            }
        }
    }
    if forall|b: int| 0 <= b < pkgs.len() && (#[trigger] pkgs[b]).name == name ==> !version_clash(pkgs, b) {
        assert forall|j: int, k: int|
            0 <= j < pkgs.len() && 0 <= k < pkgs.len() && j != k && (#[trigger] pkgs[j]).name == name && (
            #[trigger] pkgs[k]).name == name implies pkgs[j].version != pkgs[k].version by {
            if pkgs[j].version == pkgs[k].version {
                assert(version_clash(pkgs, k));
            }
        }
    }
}

} // verus!
