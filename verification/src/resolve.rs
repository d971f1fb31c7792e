//! The dependencies of a package: declared requirements joined with the
//! packages that the resolved graph chose for them.

use vstd::prelude::*;
use crate::bindings::{parse_url, semver_matches, url_parts, version_matches, UrlParts, UrlPartsView};
use crate::metadata::{Dependency, DependencyView, Package, PackageId, PackageView};
use crate::text::{
    chars_of, clone_optional, clone_strings, compare, replace_char, replaced, same_text, string_of_range,
    text_less, TextOrder,
};

verus! {

/// A package name as the graph writes it: every hyphen is an underscore.
pub open spec fn normalized(name: Seq<char>) -> Seq<char> {
    replaced(name, '-', '_')
}

/// Normalizes a package name.
pub fn normalize_package_name(package_name: &str) -> (r: String)
    ensures
        r@ == normalized(package_name@),
{
    replace_char(package_name, '-', '_')
}

/// A version without its pre-release and build parts: what stands before
/// the first `-` or `+`.
pub open spec fn without_metadata(version: Seq<char>) -> Seq<char>
    decreases version.len(),
{
    if version.len() == 0 || version[0] == '-' || version[0] == '+' {
        Seq::empty()
    } else {
        seq![version[0]] + without_metadata(version.drop_first())
    }
}

/// The bare version: what stands before the first `-` or `+`.
pub fn strip_metadata(version: &str) -> (r: String)
    ensures
        r@ == without_metadata(version@),
{
    let v = chars_of(version);
    let mut i: usize = 0;
    assert(v@.skip(0) =~= v@);
    assert(v@.take(0) + without_metadata(v@.skip(0)) =~= without_metadata(v@));
    while i < v.len() && v[i] != '-' && v[i] != '+'
        invariant
            i <= v.len(),
            without_metadata(v@) == v@.take(i as int) + without_metadata(v@.skip(i as int)),
        decreases v.len() - i,
    {
        proof {
            let rest = v@.skip(i as int);
            assert(rest[0] == v[i as int]);
            assert(rest.drop_first() =~= v@.skip(i + 1));
            assert(v@.take(i as int) + (seq![v[i as int]] + without_metadata(v@.skip(i + 1))) =~= v@.take(i + 1)
                + without_metadata(v@.skip(i + 1)));
        }
        i = i + 1;
    }
    proof {
        let rest = v@.skip(i as int);
        if i < v.len() {
            assert(rest[0] == v[i as int]);
        }
        assert(without_metadata(rest) =~= Seq::<char>::empty());
        assert(v@.take(i as int) + Seq::<char>::empty() =~= v@.subrange(0, i as int));
    }
    string_of_range(&v, 0, i)
}

/// The value of the last pair of a query string that has the given key.
pub open spec fn last_value(query: Seq<(Seq<char>, Seq<char>)>, key: Seq<char>) -> Option<Seq<char>>
    decreases query.len(),
{
    if query.len() == 0 {
        None
    } else if query.last().0 == key {
        Some(query.last().1)
    } else {
        last_value(query.drop_last(), key)
    }
}

/// Whether every pair of `part` has its value in `whole`, where of several
/// pairs with one key the last counts.
pub open spec fn query_is_within(part: Seq<(Seq<char>, Seq<char>)>, whole: Seq<(Seq<char>, Seq<char>)>) -> bool {
    forall|i: int| 0 <= i < part.len() ==> last_value(whole, (#[trigger] part[i]).0) == Some(part[i].1)
}

/// Whether a required URL and the URL of a package name the same place:
/// scheme, domain and path are equal, and the package's query string holds
/// every parameter of the required one.
pub open spec fn same_origin(required: UrlPartsView, package: UrlPartsView) -> bool {
    &&& required.scheme == package.scheme
    &&& required.domain == package.domain
    &&& required.path == package.path
    &&& query_is_within(required.query, package.query)
}

/// Whether the source that a requirement declares agrees with the source
/// of a package. A requirement without source agrees with a package without
/// source only. A source that is no URL agrees with nothing.
pub open spec fn sources_agree(required: Option<Seq<char>>, package: Option<Seq<char>>) -> bool {
    match required {
        None => package is None,
        Some(required) => match package {
            None => false,
            Some(package) => match (url_parts(required), url_parts(package)) {
                (Some(r), Some(p)) => same_origin(r, p),
                _ => false,
            },
        },
    }
}

/// The value of the last pair with the given key.
pub fn find_last_value(query: &Vec<(String, String)>, key: &str) -> (r: Option<String>)
    ensures
        r.deep_view() == last_value(query.deep_view(), key@),
{
    let ghost all = query.deep_view();
    let mut i: usize = query.len();
    assert(all.take(i as int) =~= all);
    while i > 0
        invariant
            i <= query.len(),
            all == query.deep_view(),
            last_value(all, key@) == last_value(all.take(i as int), key@),
        decreases i,
    {
        i = i - 1;
        assert(all.take(i + 1).last() == all[i as int]);
        assert(all[i as int] == query[i as int].deep_view());
        assert(all.take(i + 1).drop_last() =~= all.take(i as int));
        if same_text(query[i].0.as_str(), key) {
            return Some(query[i].1.clone());
        }
    }
    None
}

/// Whether two optional strings hold the same.
pub fn same_optional(a: &Option<String>, b: &Option<String>) -> (r: bool)
    ensures
        r == (a.deep_view() == b.deep_view()),
{
    match (a, b) {
        (Some(x), Some(y)) => same_text(x.as_str(), y.as_str()),
        (None, None) => true,
        _ => false,
    }
}

/// Whether a required URL and the URL of a package name the same place.
pub fn is_same_origin(required: &UrlParts, package: &UrlParts) -> (r: bool)
    ensures
        r == same_origin(required@, package@),
{
    if !same_text(required.scheme.as_str(), package.scheme.as_str()) {
        return false;
    }
    if !same_optional(&required.domain, &package.domain) {
        return false;
    }
    if !same_text(required.path.as_str(), package.path.as_str()) {
        return false;
    }
    let ghost part = required.query.deep_view();
    let ghost whole = package.query.deep_view();
    let mut i: usize = 0;
    while i < required.query.len()
        invariant
            i <= required.query.len(),
            part == required.query.deep_view(),
            whole == package.query.deep_view(),
            forall|j: int| 0 <= j < i ==> last_value(whole, (#[trigger] part[j]).0) == Some(part[j].1),
        decreases required.query.len() - i,
    {
        assert(part[i as int] == required.query[i as int].deep_view());
        let found = find_last_value(&package.query, required.query[i].0.as_str());
        let agrees = match found {
            Some(value) => same_text(value.as_str(), required.query[i].1.as_str()),
            None => false,
        };
        if !agrees {
            return false;
        }
        i = i + 1;
    }
    true
}

/// Whether the source that a requirement declares agrees with the source
/// of a package, given what parsing each of the two gave.
pub fn sources_match_parsed(
    required: Option<&str>,
    package: Option<&str>,
    required_parts: Option<UrlParts>,
    package_parts: Option<UrlParts>,
) -> (r: bool)
    ensures
        r == (match required {
            None => package is None,
            Some(_) => match package {
                None => false,
                Some(_) => match (required_parts, package_parts) {
                    (Some(r), Some(p)) => same_origin(r@, p@),
                    _ => false,
                },
            },
        }),
{
    match required {
        None => package.is_none(),
        Some(_) => match package {
            None => false,
            Some(_) => match (required_parts, package_parts) {
                (Some(r), Some(p)) => is_same_origin(&r, &p),
                _ => false,
            },
        },
    }
}

/// Whether the source that a requirement declares agrees with the source of a package.
pub fn sources_match(required: &Option<String>, package: &Option<String>) -> (r: bool)
    ensures
        r == sources_agree(required.deep_view(), package.deep_view()),
{
    match required {
        None => package.is_none(),
        Some(required) => match package {
            None => false,
            Some(package) => {
                let r = parse_url(required.as_str());
                let p = parse_url(package.as_str());
                sources_match_parsed(Some(required.as_str()), Some(package.as_str()), r, p)
            },
        },
    }
}


/// A declared dependency together with the package that the graph chose for it.
#[derive(Debug, PartialEq, Eq)]
pub struct ResolvedDependency {
    pub name: String,
    /// The new name of the dependency, if it is renamed.
    pub rename: Option<String>,
    pub package_id: PackageId,
    /// The condition under which the dependency applies: a cfg expression
    /// or a target triple.
    pub target: Option<String>,
    /// Whether the dependency has to be switched on by a feature.
    pub optional: bool,
    /// Whether the dependency is used with its default features.
    pub uses_default_features: bool,
    /// The features that are switched on besides.
    pub features: Vec<String>,
}

pub struct ResolvedDependencyView {
    pub name: Seq<char>,
    pub rename: Option<Seq<char>>,
    pub package_id: Seq<char>,
    pub target: Option<Seq<char>>,
    pub optional: bool,
    pub uses_default_features: bool,
    pub features: Seq<Seq<char>>,
}

impl DeepView for ResolvedDependency {
    type V = ResolvedDependencyView;

    open spec fn deep_view(&self) -> ResolvedDependencyView {
        ResolvedDependencyView {
            name: self.name@,
            rename: self.rename.deep_view(),
            package_id: self.package_id@,
            target: self.target.deep_view(),
            optional: self.optional,
            uses_default_features: self.uses_default_features,
            features: self.features.deep_view(),
        }
    }
}

impl View for ResolvedDependency {
    type V = ResolvedDependencyView;

    open spec fn view(&self) -> ResolvedDependencyView {
        self.deep_view()
    }
}

impl Clone for ResolvedDependency {
    fn clone(&self) -> (r: Self)
        ensures
            r@ == self@,
    {
        ResolvedDependency {
            name: self.name.clone(),
            rename: clone_optional(&self.rename),
            package_id: self.package_id.clone(),
            target: clone_optional(&self.target),
            optional: self.optional,
            uses_default_features: self.uses_default_features,
            features: clone_strings(&self.features),
        }
    }
}

/// What can be wrong when the dependencies of a package are resolved.
#[derive(Debug, PartialEq, Eq)]
pub enum ResolveError {
    /// The graph has no node for the package.
    MissingNode { package_id: PackageId },
    /// An edge of the graph leads to a package that the metadata lacks.
    MissingPackage { package_id: PackageId },
    /// More than one package is left for the named dependency after all narrowing.
    AmbiguousDependency { name: String },
}

/// The steps by which the candidates for a requirement are narrowed.
#[derive(Clone, Copy, Debug, PartialEq, Eq, Structural)]
pub enum Narrowing {
    /// The version satisfies the requirement as it is declared.
    Exact,
    /// The version satisfies the requirement once its pre-release and build parts are taken off.
    Relaxed,
    /// The source agrees with the source that the requirement declares.
    Source,
}

/// The packages that a step of narrowing keeps for a requirement.
pub open spec fn keeps(step: Narrowing, dep: DependencyView) -> spec_fn(PackageView) -> bool {
    |p: PackageView|
        match step {
            Narrowing::Exact => semver_matches(dep.req, p.version),
            Narrowing::Relaxed => semver_matches(dep.req, without_metadata(p.version)),
            Narrowing::Source => sources_agree(dep.source, p.source),
        }
}

/// The packages with the given normalized name.
pub open spec fn has_name(name: Seq<char>) -> spec_fn(PackageView) -> bool {
    |p: PackageView| normalized(p.name) == name
}

/// What is left of the candidates for a requirement: those whose version
/// satisfies it; if there is none, those whose bare version satisfies it;
/// and if more than one is left, those of them whose source agrees.
pub open spec fn narrowed(candidates: Seq<PackageView>, dep: DependencyView) -> Seq<PackageView> {
    let exact = candidates.filter(keeps(Narrowing::Exact, dep));
    let by_version = if exact.len() == 0 {
        candidates.filter(keeps(Narrowing::Relaxed, dep))
    } else {
        exact
    };
    if by_version.len() > 1 {
        by_version.filter(keeps(Narrowing::Source, dep))
    } else {
        by_version
    }
}

/// The packages that are left for a requirement among the packages `edges`
/// at the ends of the edges of the graph.
pub open spec fn matches_of(edges: Seq<PackageView>, dep: DependencyView) -> Seq<PackageView> {
    narrowed(edges.filter(has_name(normalized(dep.name))), dep)
}

/// The resolved form of a requirement for which `package` was chosen.
pub open spec fn resolved_from(dep: DependencyView, package: PackageView) -> ResolvedDependencyView {
    ResolvedDependencyView {
        name: dep.name,
        rename: dep.rename,
        package_id: package.id,
        target: dep.target,
        optional: dep.optional,
        uses_default_features: dep.uses_default_features,
        features: dep.features,
    }
}

/// The resolved dependencies for the first `n` requirements, in their
/// order. Only the requirements marked in `keep` count. A requirement for
/// which exactly one package is left gives one resolved dependency; one for
/// which none is left gives nothing.
pub open spec fn resolved_upto(
    edges: Seq<PackageView>,
    deps: Seq<DependencyView>,
    keep: Seq<bool>,
    n: int,
) -> Seq<ResolvedDependencyView>
    decreases n,
{
    if n <= 0 {
        Seq::empty()
    } else {
        let before = resolved_upto(edges, deps, keep, n - 1);
        let left = matches_of(edges, deps[n - 1]);
        if keep[n - 1] && left.len() == 1 {
            before.push(resolved_from(deps[n - 1], left[0]))
        } else {
            before
        }
    }
}

/// Whether requirement `i` counts and more than one package is left for it.
pub open spec fn is_ambiguous(edges: Seq<PackageView>, deps: Seq<DependencyView>, keep: Seq<bool>, i: int) -> bool {
    keep[i] && matches_of(edges, deps[i]).len() > 1
}

/// `sorted` with `x` put in behind every entry whose package identifier
/// does not come after that of `x`.
pub open spec fn inserted(sorted: Seq<ResolvedDependencyView>, x: ResolvedDependencyView) -> Seq<
    ResolvedDependencyView,
>
    decreases sorted.len(),
{
    if sorted.len() == 0 {
        seq![x]
    } else if text_less(x.package_id, sorted.last().package_id) {
        inserted(sorted.drop_last(), x).push(sorted.last())
    } else {
        sorted.push(x)
    }
}

/// The entries in the order of their package identifiers; entries with the
/// same identifier keep their order.
pub open spec fn sorted_by_id(s: Seq<ResolvedDependencyView>) -> Seq<ResolvedDependencyView>
    decreases s.len(),
{
    if s.len() == 0 {
        s
    } else {
        inserted(sorted_by_id(s.drop_last()), s.last())
    }
}

/// Whether some requirement that counts is ambiguous.
pub open spec fn any_ambiguous(edges: Seq<PackageView>, deps: Seq<DependencyView>, keep: Seq<bool>) -> bool {
    exists|i: int| 0 <= i < deps.len() && is_ambiguous(edges, deps, keep, i)
}

/// Whether an error names the first ambiguous requirement among those that count.
pub open spec fn names_first_ambiguous(
    edges: Seq<PackageView>,
    deps: Seq<DependencyView>,
    keep: Seq<bool>,
    e: ResolveError,
) -> bool {
    e matches ResolveError::AmbiguousDependency { name } && exists|i: int|
        {
            &&& 0 <= i < deps.len()
            &&& is_ambiguous(edges, deps, keep, i)
            &&& name@ == deps[i].name
            &&& forall|j: int| 0 <= j < i ==> !is_ambiguous(edges, deps, keep, j)
        }
}

/// The resolved dependencies for the requirements that count, in the order
/// of their package identifiers.
pub open spec fn resolved_list(
    edges: Seq<PackageView>,
    deps: Seq<DependencyView>,
    keep: Seq<bool>,
) -> Seq<ResolvedDependencyView> {
    sorted_by_id(resolved_upto(edges, deps, keep, deps.len() as int))
}

/// What resolving owes: a failure exactly where a requirement that counts
/// is ambiguous, naming the first such requirement; else the resolved
/// dependencies in the order of their package identifiers.
pub open spec fn resolution_outcome(
    edges: Seq<PackageView>,
    deps: Seq<DependencyView>,
    keep: Seq<bool>,
    r: Result<Vec<ResolvedDependency>, ResolveError>,
) -> bool {
    &&& r is Err <==> any_ambiguous(edges, deps, keep)
    &&& r matches Err(e) ==> names_first_ambiguous(edges, deps, keep, e)
    &&& r matches Ok(v) ==> v.deep_view() == resolved_list(edges, deps, keep)
}

/// Where `x` goes in `sorted`: behind position `p - 1` and before position `p`.
proof fn lemma_inserted_at(sorted: Seq<ResolvedDependencyView>, x: ResolvedDependencyView, p: int)
    requires
        0 <= p <= sorted.len(),
        forall|j: int| p <= j < sorted.len() ==> text_less(x.package_id, (#[trigger] sorted[j]).package_id),
        p > 0 ==> !text_less(x.package_id, sorted[p - 1].package_id),
    ensures
        inserted(sorted, x) == sorted.insert(p, x),
    decreases sorted.len(),
{
    if sorted.len() == 0 {
        assert(sorted.insert(p, x) =~= seq![x]);
    } else if p == sorted.len() {
        assert(sorted.insert(p, x) =~= sorted.push(x));
    } else {
        assert(text_less(x.package_id, sorted[sorted.len() - 1].package_id));
        let front = sorted.drop_last();
        assert forall|j: int| p <= j < front.len() implies text_less(x.package_id, (#[trigger] front[j]).package_id) by {
            assert(front[j] == sorted[j]);
        }
        lemma_inserted_at(front, x, p);
        assert(front.insert(p, x).push(sorted.last()) =~= sorted.insert(p, x));
    }
}

/// Puts `x` into a list that is held in the order of package identifiers.
fn insert_by_id(sorted: &mut Vec<ResolvedDependency>, x: ResolvedDependency)
    ensures
        final(sorted).deep_view() == inserted(old(sorted).deep_view(), x@),
{
    let ghost before = sorted.deep_view();
    let mut p: usize = sorted.len();
    while p > 0 && is_before(&x.package_id, &sorted[p - 1].package_id)
        invariant
            p <= sorted.len(),
            before == sorted.deep_view(),
            forall|j: int| p <= j < before.len() ==> text_less(x@.package_id, (#[trigger] before[j]).package_id),
        decreases p,
    {
        assert(before[p - 1] == sorted[p - 1].deep_view());
        p = p - 1;
    }
    proof {
        if p > 0 {
            assert(before[p - 1] == sorted[p - 1].deep_view());
        }
        lemma_inserted_at(before, x@, p as int);
    }
    sorted.insert(p, x);
    assert(sorted.deep_view() =~= before.insert(p as int, x@));
}

/// Whether one identifier comes before another in the order of strings.
pub fn is_before(a: &PackageId, b: &PackageId) -> (r: bool)
    ensures
        r == text_less(a@, b@),
{
    match compare(a.repr.as_str(), b.repr.as_str()) {
        TextOrder::Before => true,
        _ => false,
    }
}

/// The candidates that a step of narrowing keeps.
fn select<'a>(candidates: &Vec<&'a Package>, dep: &Dependency, step: Narrowing) -> (r: Vec<&'a Package>)
    ensures
        r.deep_view() == candidates.deep_view().filter(keeps(step, dep@)),
{
    let ghost all = candidates.deep_view();
    let ghost pred = keeps(step, dep@);
    let mut out: Vec<&'a Package> = Vec::new();
    let mut i: usize = 0;
    proof {
        reveal(Seq::filter);
        assert(all.take(0).filter(pred) =~= Seq::<PackageView>::empty());
        assert(out.deep_view() =~= Seq::<PackageView>::empty());
    }
    while i < candidates.len()
        invariant
            i <= candidates.len(),
            all == candidates.deep_view(),
            pred == keeps(step, dep@),
            out.deep_view() == all.take(i as int).filter(pred),
        decreases candidates.len() - i,
    {
        let package: &'a Package = candidates[i];
        assert(all[i as int] == package@);
        let keep = match step {
            Narrowing::Exact => version_matches(dep.req.as_str(), package.version.as_str()),
            Narrowing::Relaxed => {
                let bare = strip_metadata(package.version.as_str());
                version_matches(dep.req.as_str(), bare.as_str())
            },
            Narrowing::Source => sources_match(&dep.source, &package.source),
        };
        assert(keep == pred(all[i as int]));
        let ghost before = out.deep_view();
        if keep {
            out.push(package);
            assert(out.deep_view() =~= before.push(all[i as int]));
        }
        proof {
            assert(all.take(i + 1) =~= all.take(i as int).push(all[i as int]));
            all.take(i as int).lemma_filter_push(all[i as int], pred);
        }
        i = i + 1;
    }
    assert(all.take(candidates.len() as int) =~= all);
    out
}

/// Narrows the candidates for a requirement.
fn narrow<'a>(candidates: &Vec<&'a Package>, dep: &Dependency) -> (r: Vec<&'a Package>)
    ensures
        r.deep_view() == narrowed(candidates.deep_view(), dep@),
{
    let exact = select(candidates, dep, Narrowing::Exact);
    let by_version = if exact.len() == 0 {
        select(candidates, dep, Narrowing::Relaxed)
    } else {
        exact
    };
    if by_version.len() > 1 {
        select(&by_version, dep, Narrowing::Source)
    } else {
        by_version
    }
}

/// The resolved form of a requirement for which `package` was chosen.
fn resolved(dep: &Dependency, package: &Package) -> (r: ResolvedDependency)
    ensures
        r@ == resolved_from(dep@, package@),
{
    ResolvedDependency {
        name: dep.name.clone(),
        rename: clone_optional(&dep.rename),
        package_id: package.id.clone(),
        target: clone_optional(&dep.target),
        optional: dep.optional,
        uses_default_features: dep.uses_default_features,
        features: clone_strings(&dep.features),
    }
}


/// The packages at the ends of the given edges, each looked up by its identifier.
pub open spec fn edge_packages(
    packages: Map<Seq<char>, PackageView>,
    deps: Seq<(Seq<char>, Seq<char>)>,
) -> Seq<PackageView> {
    Seq::new(deps.len(), |i: int| packages[deps[i].1])
}

/// A package with the packages that its edges in the resolved graph lead
/// to, grouped by normalized name. Joins the requirements that the manifest
/// declares with the packages that were chosen for them.
pub struct ResolvedDependencies<'a> {
    package: &'a Package,
    /// The packages at the ends of the edges, by normalized name.
    resolved_packages_by_crate_name: crate::sorted_map::SortedMap<Vec<&'a Package>>,
    edges: Ghost<Seq<PackageView>>,
}

impl<'a> ResolvedDependencies<'a> {
    /// The package whose dependencies are resolved.
    pub closed spec fn spec_package(&self) -> PackageView {
        self.package@
    }

    /// The requirements that the package declares, in their order.
    pub closed spec fn declared(&self) -> Seq<Dependency> {
        self.package.dependencies@
    }

    /// The packages at the ends of the edges of the package's node, in the order of the edges.
    pub closed spec fn spec_edges(&self) -> Seq<PackageView> {
        self.edges@
    }

    /// The normalized names under which packages are held.
    pub closed spec fn crate_names(&self) -> Set<Seq<char>> {
        self.resolved_packages_by_crate_name@.dom()
    }

    /// The packages that are held under a normalized name, in the order of the edges.
    pub closed spec fn packages_named(&self, name: Seq<char>) -> Seq<PackageView> {
        if self.resolved_packages_by_crate_name@.contains_key(name) {
            self.resolved_packages_by_crate_name@[name].deep_view()
        } else {
            Seq::empty()
        }
    }

    /// The groups are in order, and each holds the packages of its name.
    pub closed spec fn wf(&self) -> bool {
        &&& self.resolved_packages_by_crate_name.wf()
        &&& forall|name: Seq<char>| #[trigger]
            self.packages_named(name) == self.edges@.filter(has_name(name))
        &&& forall|name: Seq<char>|
            self.resolved_packages_by_crate_name@.contains_key(name) <==> #[trigger] self.edges@.filter(
                has_name(name),
            ).len() > 0
    }

    /// The groups hold, under each name, the packages of that name among the edges.
    pub proof fn lemma_groups(&self)
        requires
            self.wf(),
        ensures
            forall|name: Seq<char>| #[trigger]
                self.packages_named(name) == self.spec_edges().filter(has_name(name)),
            forall|name: Seq<char>|
                self.crate_names().contains(name) <==> #[trigger] self.spec_edges().filter(has_name(name)).len()
                    > 0,
    {
    }

    /// Looks up the graph node of `package` and the packages that its edges
    /// lead to. The node, and the package of every edge, must be there.
    pub fn new(metadata: &'a crate::index::IndexedMetadata, package: &'a Package) -> (r: Result<
        ResolvedDependencies<'a>,
        ResolveError,
    >)
        requires
            metadata.wf(),
        ensures
            match r {
                Ok(resolved) => {
                    &&& metadata.nodes().contains_key(package.id@)
                    &&& forall|i: int|
                        0 <= i < metadata.nodes()[package.id@].deps.len() ==> metadata.packages().contains_key(
                            (#[trigger] metadata.nodes()[package.id@].deps[i]).1,
                        )
                    &&& resolved.wf()
                    &&& resolved.spec_package() == package@
                    &&& resolved.spec_edges() == edge_packages(metadata.packages(), metadata.nodes()[package.id@].deps)
                },
                Err(ResolveError::MissingNode { package_id }) => {
                    &&& !metadata.nodes().contains_key(package.id@)
                    &&& package_id@ == package.id@
                },
                Err(ResolveError::MissingPackage { package_id }) => {
                    &&& metadata.nodes().contains_key(package.id@)
                    &&& exists|i: int|
                        {
                            &&& 0 <= i < metadata.nodes()[package.id@].deps.len()
                            &&& package_id@ == (#[trigger] metadata.nodes()[package.id@].deps[i]).1
                            &&& !metadata.packages().contains_key(package_id@)
                            &&& forall|j: int|
                                0 <= j < i ==> metadata.packages().contains_key(
                                    (#[trigger] metadata.nodes()[package.id@].deps[j]).1,
                                )
                        }
                },
                Err(ResolveError::AmbiguousDependency { .. }) => false,
            },
    {
        let node = match metadata.node_by_id(&package.id) {
            Some(node) => node,
            None => {
                return Err(ResolveError::MissingNode { package_id: package.id.clone() });
            },
        };
        let ghost deps = node@.deps;
        let ghost all = edge_packages(metadata.packages(), deps);
        let mut groups: crate::sorted_map::SortedMap<Vec<&'a Package>> = crate::sorted_map::SortedMap::new();
        let mut i: usize = 0;
        proof {
            reveal(Seq::filter);
            assert forall|name: Seq<char>| all.take(0).filter(has_name(name)).len() == 0 by {
                assert(all.take(0).len() == 0);
            }
        }
        while i < node.deps.len()
            invariant
                i <= node.deps.len(),
                metadata.wf(),
                deps == node@.deps,
                metadata.nodes().contains_key(package.id@),
                node@ == metadata.nodes()[package.id@],
                all == edge_packages(metadata.packages(), deps),
                groups.wf(),
                forall|j: int| 0 <= j < i ==> metadata.packages().contains_key((#[trigger] deps[j]).1),
                forall|name: Seq<char>|
                    groups@.contains_key(name) ==> (#[trigger] groups@[name]).deep_view() == all.take(
                        i as int,
                    ).filter(has_name(name)),
                forall|name: Seq<char>|
                    groups@.contains_key(name) <==> #[trigger] all.take(i as int).filter(has_name(name)).len() > 0,
            decreases node.deps.len() - i,
        {
            let node_dep = &node.deps[i];
            assert(deps[i as int] == node_dep@);
            let found: &'a Package = match metadata.package_by_id(&node_dep.pkg) {
                Some(found) => found,
                None => {
                    let missing = node_dep.pkg.clone();
                    proof {
                        let at = i as int;
                        assert(missing@ == metadata.nodes()[package.id@].deps[at].1);
                    }
                    return Err(ResolveError::MissingPackage { package_id: missing });
                },
            };
            assert(all[i as int] == found@);
            let name = normalize_package_name(found.name.as_str());
            let ghost before = groups@;
            let mut group: Vec<&'a Package> = match groups.remove(name.as_str()) {
                Some(group) => group,
                None => Vec::new(),
            };
            let ghost old_group = group.deep_view();
            group.push(found);
            assert(group.deep_view() =~= old_group.push(found@));
            groups.insert(name.clone(), group);
            proof {
                reveal(Seq::filter);
                assert(all.take(i + 1) =~= all.take(i as int).push(all[i as int]));
                assert(groups@ =~= before.insert(name@, group));
                assert forall|other: Seq<char>|
                    groups@.contains_key(other) <==> #[trigger] all.take(i + 1).filter(has_name(other)).len()
                        > 0 by {
                    all.take(i as int).lemma_filter_push(all[i as int], has_name(other));
                }
                assert forall|other: Seq<char>| groups@.contains_key(other) implies (#[trigger] groups@[other]).deep_view()
                    == all.take(i + 1).filter(has_name(other)) by {
                    all.take(i as int).lemma_filter_push(all[i as int], has_name(other));
                    if other == name@ {
                        if !before.contains_key(name@) {
                            assert(all.take(i as int).filter(has_name(name@)).len() == 0);
                            assert(old_group =~= all.take(i as int).filter(has_name(name@)));
                        }
                    }
                }
            }
            i = i + 1;
        }
        assert(all.take(node.deps.len() as int) =~= all);
        let resolved = ResolvedDependencies {
            package,
            resolved_packages_by_crate_name: groups,
            edges: Ghost(all),
        };
        proof {
            reveal(Seq::filter);
            assert forall|name: Seq<char>| #[trigger]
                resolved.packages_named(name) == all.filter(has_name(name)) by {
                if !groups@.contains_key(name) {
                    assert(all.filter(has_name(name)).len() == 0);
                    assert(all.filter(has_name(name)) =~= Seq::<PackageView>::empty());
                }
            }
        }
        Ok(resolved)
    }

    /// The number of normalized names under which packages are held.
    pub fn len(&self) -> (n: usize)
        requires
            self.wf(),
        ensures
            n == self.crate_names().len(),
    {
        proof {
            self.resolved_packages_by_crate_name.lemma_entries();
        }
        self.resolved_packages_by_crate_name.len()
    }

    /// Whether packages are held under the given normalized name.
    pub fn contains_key(&self, name: &str) -> (r: bool)
        requires
            self.wf(),
        ensures
            r == self.crate_names().contains(name@),
    {
        self.resolved_packages_by_crate_name.contains_key(name)
    }

    /// The number of packages that are held under the given normalized name.
    pub fn count(&self, name: &str) -> (n: usize)
        requires
            self.wf(),
        ensures
            n == self.packages_named(name@).len(),
    {
        match self.resolved_packages_by_crate_name.get(name) {
            Some(group) => group.len(),
            None => 0,
        }
    }

    /// Resolves the requirements of the package that are marked in `keep`,
    /// one mark for each declared dependency in its order.
    pub fn resolve_selected(&self, keep: &Vec<bool>) -> (r: Result<Vec<ResolvedDependency>, ResolveError>)
        requires
            self.wf(),
            keep.len() == self.spec_package().dependencies.len(),
        ensures
            resolution_outcome(self.spec_edges(), self.spec_package().dependencies, keep@, r),
    {
        let ghost edges = self.edges@;
        let ghost deps = self.package@.dependencies;
        let mut out: Vec<ResolvedDependency> = Vec::new();
        let empty: Vec<&'a Package> = Vec::new();
        let mut i: usize = 0;
        assert(out.deep_view() =~= sorted_by_id(resolved_upto(edges, deps, keep@, 0)));
        while i < self.package.dependencies.len()
            invariant
                i <= self.package.dependencies.len(),
                self.wf(),
                edges == self.edges@,
                deps == self.package@.dependencies,
                keep.len() == deps.len(),
                empty.deep_view() == Seq::<PackageView>::empty(),
                forall|j: int| 0 <= j < i ==> !is_ambiguous(edges, deps, keep@, j),
                out.deep_view() == sorted_by_id(resolved_upto(edges, deps, keep@, i as int)),
            decreases self.package.dependencies.len() - i,
        {
            let dep = &self.package.dependencies[i];
            assert(deps[i as int] == dep@);
            if keep[i] {
                let name = normalize_package_name(dep.name.as_str());
                let candidates = match self.resolved_packages_by_crate_name.get(name.as_str()) {
                    Some(group) => group,
                    None => &empty,
                };
                assert(candidates.deep_view() == self.packages_named(name@));
                let left = narrow(candidates, dep);
                assert(left.deep_view() == matches_of(edges, deps[i as int]));
                if left.len() > 1 {
                    assert(is_ambiguous(edges, deps, keep@, i as int));
                    return Err(ResolveError::AmbiguousDependency { name: dep.name.clone() });
                }
                if left.len() == 1 {
                    let chosen: &Package = left[0];
                    assert(left.deep_view()[0] == chosen@);
                    let ghost before = resolved_upto(edges, deps, keep@, i as int);
                    insert_by_id(&mut out, resolved(dep, chosen));
                    proof {
                        let next = resolved_upto(edges, deps, keep@, i + 1);
                        assert(next == before.push(resolved_from(deps[i as int], left.deep_view()[0])));
                        assert(next.drop_last() =~= before);
                    }
                }
            }
            i = i + 1;
        }
        Ok(out)
    }

    /// Resolves the declared dependencies that `filter` accepts. The
    /// outcome is that of `resolve_selected` for the marks that `filter` gives.
    pub fn filtered_dependencies(&self, filter: impl Fn(&Dependency) -> bool) -> (r: Result<
        Vec<ResolvedDependency>,
        ResolveError,
    >)
        requires
            self.wf(),
            forall|d: &Dependency| call_requires(filter, (d,)),
        ensures
            self.declared().len() == self.spec_package().dependencies.len(),
            forall|i: int| 0 <= i < self.declared().len() ==> (#[trigger] self.declared()[i])@ == self.spec_package().dependencies[i],
            exists|keep: Seq<bool>|
                {
                    &&& keep.len() == self.declared().len()
                    &&& forall|i: int|
                        0 <= i < keep.len() ==> call_ensures(filter, (&self.declared()[i],), #[trigger] keep[i])
                    &&& #[trigger] resolution_outcome(self.spec_edges(), self.spec_package().dependencies, keep, r)
                },
    {
        let mut keep: Vec<bool> = Vec::new();
        let mut i: usize = 0;
        while i < self.package.dependencies.len()
            invariant
                i <= self.package.dependencies.len(),
                keep.len() == i,
                forall|d: &Dependency| call_requires(filter, (d,)),
                forall|k: int|
                    0 <= k < i ==> call_ensures(filter, (&self.package.dependencies@[k],), #[trigger] keep[k]),
            decreases self.package.dependencies.len() - i,
        {
            let mark = filter(&self.package.dependencies[i]);
            keep.push(mark);
            i = i + 1;
        }
        assert(self.package@.dependencies.len() == self.package.dependencies.len());
        assert forall|i: int| 0 <= i < self.declared().len() implies (#[trigger] self.declared()[i])@
            == self.spec_package().dependencies[i] by {}
        let r = self.resolve_selected(&keep);
        assert(resolution_outcome(self.spec_edges(), self.spec_package().dependencies, keep@, r));
        r
    }
}


/// Whether no entry comes before an earlier one in the order of the package identifiers.
pub open spec fn is_ordered(s: Seq<ResolvedDependencyView>) -> bool {
    forall|i: int, j: int|
        0 <= i < j < s.len() ==> !text_less((#[trigger] s[j]).package_id, (#[trigger] s[i]).package_id)
}

proof fn lemma_inserted(sorted: Seq<ResolvedDependencyView>, x: ResolvedDependencyView)
    requires
        is_ordered(sorted),
    ensures
        is_ordered(inserted(sorted, x)),
        inserted(sorted, x).to_multiset() == sorted.to_multiset().insert(x),
        inserted(sorted, x).len() == sorted.len() + 1,
        forall|k: int|
            0 <= k < inserted(sorted, x).len() ==> (#[trigger] inserted(sorted, x)[k]) == x || sorted.contains(
                inserted(sorted, x)[k],
            ),
    decreases sorted.len(),
{
    let out = inserted(sorted, x);
    if sorted.len() == 0 {
        assert(sorted =~= Seq::empty());
        vstd::seq_lib::to_multiset_build(sorted, x);
        assert(out =~= sorted.push(x));
    } else if text_less(x.package_id, sorted.last().package_id) {
        let front = sorted.drop_last();
        let last = sorted.last();
        assert forall|i: int, j: int| 0 <= i < j < front.len() implies !text_less(
            (#[trigger] front[j]).package_id,
            (#[trigger] front[i]).package_id,
        ) by {
            assert(front[i] == sorted[i] && front[j] == sorted[j]);
        }
        lemma_inserted(front, x);
        let inner = inserted(front, x);
        assert(out == inner.push(last));
        assert forall|i: int, j: int| 0 <= i < j < out.len() implies !text_less(
            (#[trigger] out[j]).package_id,
            (#[trigger] out[i]).package_id,
        ) by {
            if j == out.len() - 1 {
                let e = inner[i];
                if e == x {
                    crate::text::lemma_text_less_asymmetric(x.package_id, last.package_id);
                } else {
                    let at = front.index_of(e);
                    assert(sorted[at] == e);
                    assert(!text_less(sorted[sorted.len() - 1].package_id, sorted[at].package_id));
                }
            } else {
                assert(out[i] == inner[i] && out[j] == inner[j]);
            }
        }
        vstd::seq_lib::to_multiset_build(inner, last);
        vstd::seq_lib::to_multiset_build(front, last);
        assert(front.push(last) =~= sorted);
        assert(out.to_multiset() =~= sorted.to_multiset().insert(x));
        assert forall|k: int| 0 <= k < out.len() implies (#[trigger] out[k]) == x || sorted.contains(out[k]) by {
            if k < inner.len() {
                if inner[k] != x {
                    let at = front.index_of(inner[k]);
                    assert(sorted[at] == inner[k]);
                }
            } else {
                assert(sorted[sorted.len() - 1] == out[k]);
            }
        }
    } else {
        assert(out == sorted.push(x));
        vstd::seq_lib::to_multiset_build(sorted, x);
        assert forall|i: int, j: int| 0 <= i < j < out.len() implies !text_less(
            (#[trigger] out[j]).package_id,
            (#[trigger] out[i]).package_id,
        ) by {
            if j == out.len() - 1 {
                let e = sorted[i];
                let last = sorted.last();
                if text_less(x.package_id, e.package_id) {
                    // Then `x` would come before the last entry as well.
                    if i < sorted.len() - 1 {
                        assert(!text_less(sorted[sorted.len() - 1].package_id, sorted[i].package_id));
                    }
                    crate::text::lemma_text_less_total(e.package_id, last.package_id);
                    if text_less(e.package_id, last.package_id) {
                        crate::text::lemma_text_less_transitive(x.package_id, e.package_id, last.package_id);
                    }
                }
            } else {
                assert(out[i] == sorted[i] && out[j] == sorted[j]);
            }
        }
        assert forall|k: int| 0 <= k < out.len() implies (#[trigger] out[k]) == x || sorted.contains(out[k]) by {
            if k < sorted.len() {
                assert(sorted[k] == out[k]);
            }
        }
    }
}

/// Sorting by package identifier puts the entries in order and neither
/// loses nor adds one.
pub proof fn law_sorted_by_id(s: Seq<ResolvedDependencyView>)
    ensures
        is_ordered(sorted_by_id(s)),
        sorted_by_id(s).to_multiset() == s.to_multiset(),
        sorted_by_id(s).len() == s.len(),
    decreases s.len(),
{
    if s.len() > 0 {
        law_sorted_by_id(s.drop_last());
        lemma_inserted(sorted_by_id(s.drop_last()), s.last());
        vstd::seq_lib::to_multiset_build(s.drop_last(), s.last());
        assert(s.drop_last().push(s.last()) =~= s);
    }
}

/// A requirement for which no package is left adds nothing to the
/// resolved dependencies, and is no failure.
pub proof fn law_no_candidate_adds_nothing(
    edges: Seq<PackageView>,
    deps: Seq<DependencyView>,
    keep: Seq<bool>,
    n: int,
)
    requires
        0 < n <= deps.len(),
        matches_of(edges, deps[n - 1]).len() == 0,
    ensures
        resolved_upto(edges, deps, keep, n) == resolved_upto(edges, deps, keep, n - 1),
        !is_ambiguous(edges, deps, keep, n - 1),
{
}

/// Two requirements for packages of one name whose versions they tell
/// apart, as when a package is used in two versions under two names, give
/// two resolved dependencies: one for each requirement, with its package.
pub proof fn law_two_versions_of_one_name(
    edges: Seq<PackageView>,
    first: DependencyView,
    second: DependencyView,
    one: PackageView,
    other: PackageView,
)
    requires
        normalized(first.name) == normalized(second.name),
        edges.filter(has_name(normalized(first.name))) == seq![one, other],
        semver_matches(first.req, one.version),
        !semver_matches(first.req, other.version),
        semver_matches(second.req, other.version),
        !semver_matches(second.req, one.version),
    ensures
        resolved_upto(edges, seq![first, second], seq![true, true], 2) == seq![
            resolved_from(first, one),
            resolved_from(second, other),
        ],
        !any_ambiguous(edges, seq![first, second], seq![true, true]),
{
    let named = seq![one, other];
    let front = seq![one];
    reveal(Seq::filter);
    assert(named.drop_last() =~= front);
    assert(front.drop_last() =~= Seq::<PackageView>::empty());
    let a = keeps(Narrowing::Exact, first);
    let b = keeps(Narrowing::Exact, second);
    assert(Seq::<PackageView>::empty().filter(a) =~= Seq::<PackageView>::empty());
    assert(Seq::<PackageView>::empty().filter(b) =~= Seq::<PackageView>::empty());
    assert(front.filter(a) =~= seq![one]);
    assert(front.filter(b) =~= Seq::<PackageView>::empty());
    assert(named.filter(a) =~= seq![one]);
    assert(named.filter(b) =~= seq![other]);
    assert(matches_of(edges, first) == seq![one]);
    assert(matches_of(edges, second) == seq![other]);
    let deps = seq![first, second];
    let keep = seq![true, true];
    assert(resolved_upto(edges, deps, keep, 0) =~= Seq::<ResolvedDependencyView>::empty());
    assert(resolved_upto(edges, deps, keep, 1) =~= seq![resolved_from(first, one)]);
    assert(resolved_upto(edges, deps, keep, 2) =~= seq![resolved_from(first, one), resolved_from(second, other)]);
}

/// Where the graph holds no package of the name that a requirement asks
/// for, no package is left for the requirement.
pub proof fn law_unknown_name_has_no_candidate(edges: Seq<PackageView>, dep: DependencyView)
    requires
        forall|i: int| 0 <= i < edges.len() ==> normalized((#[trigger] edges[i]).name) != normalized(dep.name),
    ensures
        matches_of(edges, dep).len() == 0,
{
    let named = edges.filter(has_name(normalized(dep.name)));
    if named.len() > 0 {
        named.lemma_filter_len(has_name(normalized(dep.name)));
        edges.lemma_filter_pred(has_name(normalized(dep.name)), 0);
        edges.lemma_filter_contains_rev(has_name(normalized(dep.name)), named[0]);
        let at = edges.index_of(named[0]);
        assert(normalized(edges[at].name) == normalized(dep.name));
    }
    let exact = named.filter(keeps(Narrowing::Exact, dep));
    let relaxed = named.filter(keeps(Narrowing::Relaxed, dep));
    named.lemma_filter_len(keeps(Narrowing::Exact, dep));
    named.lemma_filter_len(keeps(Narrowing::Relaxed, dep));
}

} // verus!
