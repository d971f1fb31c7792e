//! The metadata with lookups by (shortened) package identifier.

use vstd::prelude::*;
use crate::metadata::{
    single_member, MergedMetadata, MergedMetadataView, Metadata, MetadataError, Node, NodeView, Package,
    PackageId, PackageView,
};
use crate::shortener::{backward_of, forward_of, substituted, PackageIdShortener};
use crate::sorted_map::SortedMap;

verus! {

/// The views of the packages that a map holds.
pub open spec fn package_views(m: Map<Seq<char>, Package>) -> Map<Seq<char>, PackageView> {
    m.map_values(|p: Package| p@)
}

/// The views of the graph nodes that a map holds.
pub open spec fn node_views(m: Map<Seq<char>, Node>) -> Map<Seq<char>, NodeView> {
    m.map_values(|n: Node| n@)
}

/// The identifiers of the packages of a set after shortening, in the order of the packages.
pub open spec fn short_package_ids(pkgs: Seq<PackageView>) -> Seq<Seq<char>> {
    Seq::new(pkgs.len(), |i: int| substituted(forward_of(pkgs, pkgs.len() as int), pkgs[i].id))
}

/// The identifiers of graph nodes after shortening by the mapping of a set of packages.
pub open spec fn short_node_ids(pkgs: Seq<PackageView>, nodes: Seq<NodeView>) -> Seq<Seq<char>> {
    Seq::new(nodes.len(), |i: int| substituted(forward_of(pkgs, pkgs.len() as int), nodes[i].id))
}

/// The metadata with maps from package identifiers in place of flat lists.
/// Every identifier in it has been shortened.
pub struct IndexedMetadata {
    root: Option<PackageId>,
    workspace_members: Vec<PackageId>,
    pkgs_by_id: SortedMap<Package>,
    nodes_by_id: SortedMap<Node>,
    id_shortener: PackageIdShortener,
}

impl IndexedMetadata {
    /// The maps are in order.
    pub closed spec fn wf(&self) -> bool {
        self.pkgs_by_id.wf() && self.nodes_by_id.wf() && self.id_shortener.wf()
    }

    /// The root package's identifier, where the set has a single root.
    pub closed spec fn spec_root(&self) -> Option<Seq<char>> {
        self.root.deep_view()
    }

    /// The identifiers of the workspace members.
    pub closed spec fn spec_workspace_members(&self) -> Seq<Seq<char>> {
        self.workspace_members.deep_view()
    }

    /// The packages by identifier.
    pub closed spec fn packages(&self) -> Map<Seq<char>, PackageView> {
        package_views(self.pkgs_by_id@)
    }

    /// The graph nodes by identifier.
    pub closed spec fn nodes(&self) -> Map<Seq<char>, NodeView> {
        node_views(self.nodes_by_id@)
    }

    /// The identifiers of the packages, in the order of strings.
    pub closed spec fn package_keys(&self) -> Seq<Seq<char>> {
        self.pkgs_by_id.keys()
    }

    /// The mapping between full and short identifiers.
    pub closed spec fn shortener(&self) -> PackageIdShortener {
        self.id_shortener
    }

    /// The keys of the packages are in strictly increasing order, and are the
    /// identifiers that the map of packages holds.
    pub proof fn lemma_package_keys(&self)
        requires
            self.wf(),
        ensures
            self.shortener().wf(),
            crate::sorted_map::strictly_ordered(self.package_keys()),
            forall|i: int| 0 <= i < self.package_keys().len() ==> self.packages().contains_key(#[trigger] self.package_keys()[i]),
            forall|k: Seq<char>| #[trigger] self.packages().contains_key(k) ==> self.package_keys().contains(k),
    {
        self.pkgs_by_id.lemma_entries();
    }

    /// Indexes a single snapshot.
    pub fn new_from(metadata: Metadata) -> (r: Result<IndexedMetadata, MetadataError>)
        ensures
            metadata.resolve is None ==> r == Err::<IndexedMetadata, MetadataError>(MetadataError::NoResolve),
            metadata.resolve is Some ==> index_result(
                MergedMetadataView {
                    workspace_members: metadata@.workspace_members,
                    packages: metadata@.packages,
                    root: single_member(metadata@.workspace_members),
                    nodes: metadata@.resolve->0.nodes,
                },
                r,
            ),
    {
        let ghost snapshot = metadata@;
        let ghost snapshots = seq![snapshot];
        let metadatas = vec![metadata];
        proof {
            assert(metadatas.deep_view() =~= snapshots);
            assert(crate::metadata::packages_of(snapshots, 0) =~= Seq::empty());
            assert(crate::metadata::packages_of(snapshots, 1) =~= snapshot.packages);
            assert(crate::metadata::members_of(snapshots, 0) =~= Seq::empty());
            assert(crate::metadata::members_of(snapshots, 1) =~= snapshot.workspace_members);
            assert(crate::metadata::nodes_of(snapshots, 0) =~= Seq::empty());
            if snapshot.resolve is Some {
                assert(crate::metadata::nodes_of(snapshots, 1) =~= snapshot.resolve->0.nodes);
            }
        }
        match MergedMetadata::merge(metadatas) {
            Ok(merged) => Self::new_from_merged(merged),
            Err(e) => Err(e),
        }
    }

    /// Shortens every identifier of the merged metadata and builds the two
    /// maps. Two packages, or two graph nodes, whose identifiers are the same
    /// after shortening are an inconsistency, and no index is built.
    pub fn new_from_merged(merged: MergedMetadata) -> (r: Result<IndexedMetadata, MetadataError>)
        ensures
            index_result(merged@, r),
    {
        let ghost whole = merged@;
        let MergedMetadata { root, workspace_members, packages, nodes } = merged;
        let ghost pkgs = packages.deep_view();
        let ghost node_seq = nodes.deep_view();
        let id_shortener = PackageIdShortener::new(&packages);
        let ghost short_ids = short_package_ids(pkgs);
        let ghost short_nodes = short_node_ids(pkgs, node_seq);

        let mut pkgs_by_id: SortedMap<Package> = SortedMap::new();
        assert(package_views(pkgs_by_id@).dom() =~= short_ids.take(0).to_set());
        let mut i: usize = 0;
        while i < packages.len()
            invariant
                i <= packages.len(),
                pkgs == packages.deep_view(),
                whole == merged@,
                whole.packages == pkgs,
                short_ids == short_package_ids(pkgs),
                id_shortener.wf(),
                id_shortener.forward() == forward_of(pkgs, pkgs.len() as int),
                pkgs_by_id.wf(),
                short_ids.take(i as int).no_duplicates(),
                package_views(pkgs_by_id@).dom() == short_ids.take(i as int).to_set(),
                forall|j: int|
                    0 <= j < i ==> package_views(pkgs_by_id@)[#[trigger] short_ids[j]] == id_shortener.shortened_package(
                        pkgs[j],
                    ),
            decreases packages.len() - i,
        {
            let package = id_shortener.shorten_in_package(&packages[i]);
            assert(pkgs[i as int] == packages[i as int]@);
            assert(package.id@ == short_ids[i as int]);
            proof {
                assert(short_ids.take(i + 1) =~= short_ids.take(i as int).push(short_ids[i as int]));
            }
            if pkgs_by_id.contains_key(package.id.repr.as_str()) {
                proof {
                    let seen = short_ids.take(i as int);
                    assert(seen.to_set().contains(short_ids[i as int]));
                    let j = seen.index_of(short_ids[i as int]);
                    assert(short_ids[j] == short_ids[i as int]);
                }
                return Err(MetadataError::DuplicatePackageId);
            }
            let ghost before = pkgs_by_id@;
            let ghost key = package.id@;
            let ghost seen = short_ids.take(i as int);
            pkgs_by_id.insert(package.id.repr.clone(), package);
            proof {
                assert(package_views(pkgs_by_id@) =~= package_views(before).insert(key, package@));
                assert(!seen.contains(key)) by {
                    if seen.contains(key) {
                        assert(seen.to_set().contains(key));
                    }
                }
                assert(short_ids.take(i + 1).no_duplicates());
                assert(package_views(pkgs_by_id@).dom() =~= short_ids.take(i + 1).to_set()) by {
                    assert forall|k: Seq<char>| short_ids.take(i + 1).to_set().contains(k) <==> seen.to_set().insert(
                        key,
                    ).contains(k) by {
                        if short_ids.take(i + 1).contains(k) {
                            let j = short_ids.take(i + 1).index_of(k);
                            if j < i {
                                assert(seen[j] == k);
                            }
                        }
                        if seen.contains(k) {
                            let j = seen.index_of(k);
                            assert(short_ids.take(i + 1)[j] == k);
                        }
                        if k == key {
                            assert(short_ids.take(i + 1)[i as int] == k);
                        }
                    }
                }
                assert forall|j: int| 0 <= j < i + 1 implies package_views(pkgs_by_id@)[#[trigger] short_ids[j]]
                    == id_shortener.shortened_package(pkgs[j]) by {
                    if j < i {
                        assert(seen[j] == short_ids[j]);
                        assert(seen.contains(short_ids[j]));
                    }
                }
            }
            i = i + 1;
        }
        assert(short_ids.take(packages.len() as int) =~= short_ids);

        let mut nodes_by_id: SortedMap<Node> = SortedMap::new();
        assert(node_views(nodes_by_id@).dom() =~= short_nodes.take(0).to_set());
        let mut i: usize = 0;
        while i < nodes.len()
            invariant
                i <= nodes.len(),
                node_seq == nodes.deep_view(),
                whole == merged@,
                whole.packages == pkgs,
                whole.nodes == node_seq,
                short_package_ids(pkgs).no_duplicates(),
                short_nodes == short_node_ids(pkgs, node_seq),
                id_shortener.wf(),
                id_shortener.forward() == forward_of(pkgs, pkgs.len() as int),
                nodes_by_id.wf(),
                short_nodes.take(i as int).no_duplicates(),
                node_views(nodes_by_id@).dom() == short_nodes.take(i as int).to_set(),
                forall|j: int|
                    0 <= j < i ==> node_views(nodes_by_id@)[#[trigger] short_nodes[j]] == id_shortener.shortened_node(
                        node_seq[j],
                    ),
            decreases nodes.len() - i,
        {
            let node = id_shortener.shorten_in_node(&nodes[i]);
            assert(node_seq[i as int] == nodes[i as int]@);
            assert(node.id@ == short_nodes[i as int]);
            proof {
                assert(short_nodes.take(i + 1) =~= short_nodes.take(i as int).push(short_nodes[i as int]));
            }
            if nodes_by_id.contains_key(node.id.repr.as_str()) {
                proof {
                    let seen = short_nodes.take(i as int);
                    assert(seen.to_set().contains(short_nodes[i as int]));
                    let j = seen.index_of(short_nodes[i as int]);
                    assert(short_nodes[j] == short_nodes[i as int]);
                }
                return Err(MetadataError::DuplicateNodeId);
            }
            let ghost before = nodes_by_id@;
            let ghost key = node.id@;
            let ghost seen = short_nodes.take(i as int);
            nodes_by_id.insert(node.id.repr.clone(), node);
            proof {
                assert(node_views(nodes_by_id@) =~= node_views(before).insert(key, node@));
                assert(!seen.contains(key)) by {
                    if seen.contains(key) {
                        assert(seen.to_set().contains(key));
                    }
                }
                assert(short_nodes.take(i + 1).no_duplicates());
                assert(node_views(nodes_by_id@).dom() =~= short_nodes.take(i + 1).to_set()) by {
                    assert forall|k: Seq<char>| short_nodes.take(i + 1).to_set().contains(k) <==> seen.to_set().insert(
                        key,
                    ).contains(k) by {
                        if short_nodes.take(i + 1).contains(k) {
                            let j = short_nodes.take(i + 1).index_of(k);
                            if j < i {
                                assert(seen[j] == k);
                            }
                        }
                        if seen.contains(k) {
                            let j = seen.index_of(k);
                            assert(short_nodes.take(i + 1)[j] == k);
                        }
                        if k == key {
                            assert(short_nodes.take(i + 1)[i as int] == k);
                        }
                    }
                }
                assert forall|j: int| 0 <= j < i + 1 implies node_views(nodes_by_id@)[#[trigger] short_nodes[j]]
                    == id_shortener.shortened_node(node_seq[j]) by {
                    if j < i {
                        assert(seen[j] == short_nodes[j]);
                        assert(seen.contains(short_nodes[j]));
                    }
                }
            }
            i = i + 1;
        }
        assert(short_nodes.take(nodes.len() as int) =~= short_nodes);

        let short_root = match &root {
            Some(id) => Some(id_shortener.shorten(id)),
            None => None,
        };
        let mut short_members: Vec<PackageId> = Vec::new();
        let mut i: usize = 0;
        while i < workspace_members.len()
            invariant
                i <= workspace_members.len(),
                id_shortener.wf(),
                short_members.len() == i,
                forall|j: int| 0 <= j < i ==> short_members[j]@ == id_shortener.shortened(workspace_members[j]@),
            decreases workspace_members.len() - i,
        {
            short_members.push(id_shortener.shorten(&workspace_members[i]));
            i = i + 1;
        }
        let indexed = IndexedMetadata {
            root: short_root,
            workspace_members: short_members,
            pkgs_by_id,
            nodes_by_id,
            id_shortener,
        };
        proof {
            assert(indexed.spec_workspace_members() =~= Seq::new(
                merged@.workspace_members.len(),
                |i: int| indexed.shortener().shortened(merged@.workspace_members[i]),
            ));
        }
        Ok(indexed)
    }

    /// The identifier of the root package, where the set has a single root.
    pub fn root(&self) -> (r: Option<&PackageId>)
        ensures
            r.deep_view() == self.spec_root(),
    {
        self.root.as_ref()
    }

    /// The identifiers of the workspace members.
    pub fn workspace_members(&self) -> (r: &Vec<PackageId>)
        ensures
            r.deep_view() == self.spec_workspace_members(),
    {
        &self.workspace_members
    }

    /// The mapping between full and short identifiers.
    pub fn id_shortener(&self) -> (r: &PackageIdShortener)
        ensures
            *r == self.shortener(),
    {
        &self.id_shortener
    }

    /// The package with the given identifier.
    pub fn package_by_id(&self, id: &PackageId) -> (r: Option<&Package>)
        requires
            self.wf(),
        ensures
            r is Some <==> self.packages().contains_key(id@),
            r matches Some(p) ==> p@ == self.packages()[id@],
    {
        self.pkgs_by_id.get(id.repr.as_str())
    }

    /// The graph node with the given identifier.
    pub fn node_by_id(&self, id: &PackageId) -> (r: Option<&Node>)
        requires
            self.wf(),
        ensures
            r is Some <==> self.nodes().contains_key(id@),
            r matches Some(n) ==> n@ == self.nodes()[id@],
    {
        self.nodes_by_id.get(id.repr.as_str())
    }

    /// The number of packages.
    pub fn package_count(&self) -> (n: usize)
        ensures
            n == self.package_keys().len(),
    {
        self.pkgs_by_id.len()
    }

    /// The package at position `i` when the packages are walked in the
    /// order of their identifiers.
    pub fn package_at(&self, i: usize) -> (r: &Package)
        requires
            self.wf(),
            i < self.package_keys().len(),
        ensures
            self.packages().contains_key(self.package_keys()[i as int]),
            r@ == self.packages()[self.package_keys()[i as int]],
    {
        proof {
            self.pkgs_by_id.lemma_entries();
        }
        self.pkgs_by_id.value_at(i)
    }

    /// The root package, where the set has a single root and holds its package.
    pub fn root_package(&self) -> (r: Option<&Package>)
        requires
            self.wf(),
        ensures
            match self.spec_root() {
                Some(root) => {
                    &&& r is Some <==> self.packages().contains_key(root)
                    &&& r matches Some(p) ==> p@ == self.packages()[root]
                },
                None => r is None,
            },
    {
        match &self.root {
            Some(root) => self.pkgs_by_id.get(root.repr.as_str()),
            None => None,
        }
    }
}

/// What indexing owes for the merged metadata `merged`: an index exactly
/// where the shortened identifiers of the packages differ from one another
/// and so do those of the graph nodes; and in the index every identifier
/// shortened, each package and each node under its shortened identifier.
pub open spec fn index_result(merged: MergedMetadataView, r: Result<IndexedMetadata, MetadataError>) -> bool {
    let short_ids = short_package_ids(merged.packages);
    let short_nodes = short_node_ids(merged.packages, merged.nodes);
    &&& r is Ok <==> short_ids.no_duplicates() && short_nodes.no_duplicates()
    &&& r matches Err(e) ==> e == (if !short_ids.no_duplicates() {
        MetadataError::DuplicatePackageId
    } else {
        MetadataError::DuplicateNodeId
    })
    &&& r matches Ok(indexed) ==> {
        &&& indexed.wf()
        &&& indexed.shortener().forward() == forward_of(merged.packages, merged.packages.len() as int)
        &&& indexed.shortener().backward() == backward_of(merged.packages, merged.packages.len() as int)
        &&& indexed.spec_root() == (match merged.root {
            Some(root) => Some(indexed.shortener().shortened(root)),
            None => None,
        })
        &&& indexed.spec_workspace_members() == Seq::new(
            merged.workspace_members.len(),
            |i: int| indexed.shortener().shortened(merged.workspace_members[i]),
        )
        &&& indexed.packages().dom() == short_ids.to_set()
        &&& forall|i: int|
            0 <= i < short_ids.len() ==> indexed.packages()[#[trigger] short_ids[i]]
                == indexed.shortener().shortened_package(merged.packages[i])
        &&& indexed.nodes().dom() == short_nodes.to_set()
        &&& forall|i: int|
            0 <= i < short_nodes.len() ==> indexed.nodes()[#[trigger] short_nodes[i]]
                == indexed.shortener().shortened_node(merged.nodes[i])
    }
}

} // verus!
