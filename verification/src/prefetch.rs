//! Content hashes of sources: which are known already, which have to be
//! fetched, and what becomes of the hashes that come back.

use vstd::prelude::*;
use vstd::string::StringExecFns;
use crate::derivation::{CrateDerivation, CrateDerivationView};
use crate::sorted_map::SortedMap;
use crate::source::{ResolvedSource, ResolvedSourceView};
use crate::text::{trim, trimmed};

verus! {

/// Where a known hash comes from. Only a hash that was fetched, now or in
/// an earlier run, is kept in the cache of fetched hashes.
#[derive(Clone, Copy, Debug, PartialEq, Eq, Structural)]
pub enum HashSource {
    /// From the cache of fetched hashes, or fetched in this run.
    Prefetched,
    /// From the lock data.
    CargoLock,
    /// From a record of the same source that carries its hash already.
    Attached,
}

/// A hash with its origin.
#[derive(Debug, PartialEq, Eq)]
pub struct HashWithSource {
    pub sha256: String,
    pub source: HashSource,
}

/// A source with all the records that are built from it and the hash that
/// is known for it, if any.
#[derive(Debug, PartialEq, Eq)]
pub struct SourcePrefetchBundle {
    /// The source, without content hash.
    pub source: ResolvedSource,
    /// The positions of the records of this source, in increasing order.
    pub derivations: Vec<usize>,
    pub hash: Option<HashWithSource>,
}

pub struct BundleView {
    pub source: ResolvedSourceView,
    pub derivations: Seq<int>,
    pub hash: Option<(Seq<char>, HashSource)>,
}

impl DeepView for SourcePrefetchBundle {
    type V = BundleView;

    open spec fn deep_view(&self) -> BundleView {
        BundleView {
            source: self.source@,
            derivations: Seq::new(self.derivations.len() as nat, |i: int| self.derivations[i] as int),
            hash: match self.hash {
                Some(h) => Some((h.sha256@, h.source)),
                None => None,
            },
        }
    }
}

impl View for SourcePrefetchBundle {
    type V = BundleView;

    open spec fn view(&self) -> BundleView {
        self.deep_view()
    }
}

/// The views of the strings that a map holds.
pub open spec fn text_views(m: Map<Seq<char>, String>) -> Map<Seq<char>, Seq<char>> {
    m.map_values(|s: String| s@)
}

/// Whether no earlier record has the source of record `i`.
pub open spec fn is_leader(records: Seq<CrateDerivationView>, i: int) -> bool {
    forall|j: int| 0 <= j < i ==> (#[trigger] records[j]).source.identity() != records[i].source.identity()
}

/// The positions among the first `n` records of those with the given source, in increasing order.
pub open spec fn members_upto(records: Seq<CrateDerivationView>, identity: ResolvedSourceView, n: int) -> Seq<int>
    decreases n,
{
    if n <= 0 {
        Seq::empty()
    } else if records[n - 1].source.identity() == identity {
        members_upto(records, identity, n - 1).push(n - 1)
    } else {
        members_upto(records, identity, n - 1)
    }
}

/// Whether some record of the given source is without content hash.
pub open spec fn lacks_hash(records: Seq<CrateDerivationView>, identity: ResolvedSourceView) -> bool {
    exists|k: int|
        0 <= k < records.len() && (#[trigger] records[k]).source.identity() == identity
            && records[k].source.sha256() is None
}

/// The hash that the lock data hold for the first of the records
/// `members[from..]` for which they hold one. The lock data are asked by
/// the identifier of the record as it is.
pub open spec fn first_locked(
    records: Seq<CrateDerivationView>,
    lock: Map<Seq<char>, Seq<char>>,
    members: Seq<int>,
    from: int,
) -> Option<Seq<char>>
    decreases members.len() - from,
{
    if from < 0 || from >= members.len() {
        None
    } else if lock.contains_key(records[members[from]].package_id) {
        Some(lock[records[members[from]].package_id])
    } else {
        first_locked(records, lock, members, from + 1)
    }
}

/// The hash that the cache of fetched hashes holds for the first of the
/// records `members[from..]` for which it holds one. The cache is asked by
/// the full identifier of the record.
pub open spec fn first_cached(
    full_ids: Seq<Seq<char>>,
    cache: Map<Seq<char>, Seq<char>>,
    members: Seq<int>,
    from: int,
) -> Option<Seq<char>>
    decreases members.len() - from,
{
    if from < 0 || from >= members.len() {
        None
    } else if cache.contains_key(full_ids[members[from]]) {
        Some(cache[full_ids[members[from]]])
    } else {
        first_cached(full_ids, cache, members, from + 1)
    }
}

/// The hash of the first of the records `members[from..]` that carries one.
pub open spec fn first_attached(records: Seq<CrateDerivationView>, members: Seq<int>, from: int) -> Option<
    Seq<char>,
>
    decreases members.len() - from,
{
    if from < 0 || from >= members.len() {
        None
    } else if records[members[from]].source.sha256() is Some {
        records[members[from]].source.sha256()
    } else {
        first_attached(records, members, from + 1)
    }
}

/// The hash that is known for the records `members` of one source: from
/// the lock data; else from the cache of fetched hashes; else from one of
/// the records themselves.
pub open spec fn known_hash(
    records: Seq<CrateDerivationView>,
    full_ids: Seq<Seq<char>>,
    lock: Map<Seq<char>, Seq<char>>,
    cache: Map<Seq<char>, Seq<char>>,
    members: Seq<int>,
) -> Option<(Seq<char>, HashSource)> {
    match first_locked(records, lock, members, 0) {
        Some(hash) => Some((hash, HashSource::CargoLock)),
        None => match first_cached(full_ids, cache, members, 0) {
            Some(hash) => Some((hash, HashSource::Prefetched)),
            None => match first_attached(records, members, 0) {
                Some(hash) => Some((hash, HashSource::Attached)),
                None => None,
            },
        },
    }
}

/// Whether record `i` is the first of a source that needs a hash: the
/// source is of a kind that can be fetched, and one of its records is
/// without hash.
pub open spec fn heads_bundle(records: Seq<CrateDerivationView>, i: int) -> bool {
    &&& is_leader(records, i)
    &&& records[i].source.is_fetchable()
    &&& lacks_hash(records, records[i].source.identity())
}

/// The bundle of the source of record `i`.
pub open spec fn bundle_at(
    records: Seq<CrateDerivationView>,
    full_ids: Seq<Seq<char>>,
    lock: Map<Seq<char>, Seq<char>>,
    cache: Map<Seq<char>, Seq<char>>,
    i: int,
) -> BundleView {
    let identity = records[i].source.identity();
    let members = members_upto(records, identity, records.len() as int);
    BundleView { source: identity, derivations: members, hash: known_hash(records, full_ids, lock, cache, members) }
}

/// The bundles of the sources that need a hash among the first `n`
/// records, in the order in which the sources first occur.
pub open spec fn plan_upto(
    records: Seq<CrateDerivationView>,
    full_ids: Seq<Seq<char>>,
    lock: Map<Seq<char>, Seq<char>>,
    cache: Map<Seq<char>, Seq<char>>,
    n: int,
) -> Seq<BundleView>
    decreases n,
{
    if n <= 0 {
        Seq::empty()
    } else if heads_bundle(records, n - 1) {
        plan_upto(records, full_ids, lock, cache, n - 1).push(bundle_at(records, full_ids, lock, cache, n - 1))
    } else {
        plan_upto(records, full_ids, lock, cache, n - 1)
    }
}

/// The bundles of all sources that need a hash.
pub open spec fn plan(
    records: Seq<CrateDerivationView>,
    full_ids: Seq<Seq<char>>,
    lock: Map<Seq<char>, Seq<char>>,
    cache: Map<Seq<char>, Seq<char>>,
) -> Seq<BundleView> {
    plan_upto(records, full_ids, lock, cache, records.len() as int)
}

/// The positions of the records with the source of record `i`.
fn members_of(records: &Vec<CrateDerivation>, i: usize) -> (r: Vec<usize>)
    requires
        i < records.len(),
    ensures
        Seq::new(r.len() as nat, |k: int| r[k] as int) == members_upto(
            records.deep_view(),
            records.deep_view()[i as int].source.identity(),
            records.len() as int,
        ),
        forall|k: int| 0 <= k < r.len() ==> r[k] < records.len(),
{
    let ghost all = records.deep_view();
    let ghost identity = all[i as int].source.identity();
    let mut out: Vec<usize> = Vec::new();
    let mut k: usize = 0;
    assert(Seq::new(out.len() as nat, |x: int| out[x] as int) =~= members_upto(all, identity, 0));
    while k < records.len()
        invariant
            k <= records.len(),
            i < records.len(),
            all == records.deep_view(),
            identity == all[i as int].source.identity(),
            Seq::new(out.len() as nat, |x: int| out[x] as int) == members_upto(all, identity, k as int),
            forall|x: int| 0 <= x < out.len() ==> out[x] < records.len(),
        decreases records.len() - k,
    {
        assert(all[k as int] == records[k as int]@);
        assert(all[i as int] == records[i as int]@);
        if records[k].source.same_identity(&records[i].source) {
            let ghost before = Seq::new(out.len() as nat, |x: int| out[x] as int);
            out.push(k);
            assert(Seq::new(out.len() as nat, |x: int| out[x] as int) =~= before.push(k as int));
        }
        k = k + 1;
    }
    out
}

/// The hash that is known for the records `members` of one source.
#[verifier::loop_isolation(false)]
fn find_known_hash(
    records: &Vec<CrateDerivation>,
    full_ids: &Vec<String>,
    from_lock_file: &SortedMap<String>,
    old_prefetches: &SortedMap<String>,
    members: &Vec<usize>,
) -> (r: Option<HashWithSource>)
    requires
        from_lock_file.wf(),
        old_prefetches.wf(),
        full_ids.len() == records.len(),
        forall|k: int| 0 <= k < members.len() ==> members[k] < records.len(),
    ensures
        (match r {
            Some(h) => Some((h.sha256@, h.source)),
            None => None,
        }) == known_hash(
            records.deep_view(),
            full_ids.deep_view(),
            text_views(from_lock_file@),
            text_views(old_prefetches@),
            Seq::new(members.len() as nat, |k: int| members[k] as int),
        ),
{
    let ghost all = records.deep_view();
    let ghost ids = full_ids.deep_view();
    let ghost lock = text_views(from_lock_file@);
    let ghost cache = text_views(old_prefetches@);
    let ghost list = Seq::new(members.len() as nat, |k: int| members[k] as int);
    let mut k: usize = 0;
    while k < members.len()
        invariant
            k <= members.len(),
            from_lock_file.wf(),
            full_ids.len() == records.len(),
            forall|x: int| 0 <= x < members.len() ==> members[x] < records.len(),
            all == records.deep_view(),
            lock == text_views(from_lock_file@),
            list == Seq::new(members.len() as nat, |x: int| members[x] as int),
            first_locked(all, lock, list, 0) == first_locked(all, lock, list, k as int),
        decreases members.len() - k,
    {
        let m = members[k];
        assert(list[k as int] == m);
        assert(all[m as int] == records[m as int]@);
        match from_lock_file.get(records[m].package_id.repr.as_str()) {
            Some(hash) => {
                return Some(HashWithSource { sha256: hash.clone(), source: HashSource::CargoLock });
            },
            None => {},
        }
        k = k + 1;
    }
    let mut k: usize = 0;
    while k < members.len()
        invariant
            k <= members.len(),
            old_prefetches.wf(),
            full_ids.len() == records.len(),
            forall|x: int| 0 <= x < members.len() ==> members[x] < records.len(),
            ids == full_ids.deep_view(),
            cache == text_views(old_prefetches@),
            list == Seq::new(members.len() as nat, |x: int| members[x] as int),
            first_locked(all, lock, list, 0) is None,
            first_cached(ids, cache, list, 0) == first_cached(ids, cache, list, k as int),
        decreases members.len() - k,
    {
        let m = members[k];
        assert(list[k as int] == m);
        assert(ids[m as int] == full_ids[m as int]@);
        match old_prefetches.get(full_ids[m].as_str()) {
            Some(hash) => {
                return Some(HashWithSource { sha256: hash.clone(), source: HashSource::Prefetched });
            },
            None => {},
        }
        k = k + 1;
    }
    let mut k: usize = 0;
    while k < members.len()
        invariant
            k <= members.len(),
            forall|x: int| 0 <= x < members.len() ==> members[x] < records.len(),
            all == records.deep_view(),
            list == Seq::new(members.len() as nat, |x: int| members[x] as int),
            first_locked(all, lock, list, 0) is None,
            first_cached(ids, cache, list, 0) is None,
            first_attached(all, list, 0) == first_attached(all, list, k as int),
        decreases members.len() - k,
    {
        let m = members[k];
        assert(list[k as int] == m);
        assert(all[m as int] == records[m as int]@);
        match records[m].source.sha256() {
            Some(hash) => {
                return Some(HashWithSource { sha256: hash.clone(), source: HashSource::Attached });
            },
            None => {},
        }
        k = k + 1;
    }
    None
}

/// Groups the records by source and finds, for each source that needs a
/// hash, the hash that is known already. `full_ids` holds the full
/// identifier of each record, by which the cache of fetched hashes is
/// asked; the lock data are asked by the identifier of the record itself.
pub fn prefetchable_sources(
    crate_derivations: &Vec<CrateDerivation>,
    full_ids: &Vec<String>,
    from_lock_file: &SortedMap<String>,
    old_prefetches: &SortedMap<String>,
) -> (r: Vec<SourcePrefetchBundle>)
    requires
        from_lock_file.wf(),
        old_prefetches.wf(),
        full_ids.len() == crate_derivations.len(),
    ensures
        r.deep_view() == plan(
            crate_derivations.deep_view(),
            full_ids.deep_view(),
            text_views(from_lock_file@),
            text_views(old_prefetches@),
        ),
        forall|b: int, k: int|
            0 <= b < r.len() && 0 <= k < r[b].derivations.len() ==> (#[trigger] r[b].derivations[k])
                < crate_derivations.len(),
{
    let ghost all = crate_derivations.deep_view();
    let ghost ids = full_ids.deep_view();
    let ghost lock = text_views(from_lock_file@);
    let ghost cache = text_views(old_prefetches@);
    let mut out: Vec<SourcePrefetchBundle> = Vec::new();
    let mut i: usize = 0;
    assert(out.deep_view() =~= plan_upto(all, ids, lock, cache, 0));
    while i < crate_derivations.len()
        invariant
            i <= crate_derivations.len(),
            from_lock_file.wf(),
            old_prefetches.wf(),
            full_ids.len() == crate_derivations.len(),
            all == crate_derivations.deep_view(),
            ids == full_ids.deep_view(),
            lock == text_views(from_lock_file@),
            cache == text_views(old_prefetches@),
            out.deep_view() == plan_upto(all, ids, lock, cache, i as int),
            forall|b: int, k: int|
                0 <= b < out.len() && 0 <= k < out[b].derivations.len() ==> (#[trigger] out[b].derivations[k])
                    < crate_derivations.len(),
        decreases crate_derivations.len() - i,
    {
        let record = &crate_derivations[i];
        assert(all[i as int] == record@);
        // Whether an earlier record has this source.
        let mut leader = true;
        let mut j: usize = 0;
        while j < i
            invariant
                j <= i < crate_derivations.len(),
                all == crate_derivations.deep_view(),
                leader == (forall|x: int|
                    0 <= x < j ==> (#[trigger] all[x]).source.identity() != all[i as int].source.identity()),
            decreases i - j,
        {
            assert(all[j as int] == crate_derivations[j as int]@);
            assert(all[i as int] == crate_derivations[i as int]@);
            if crate_derivations[j].source.same_identity(&crate_derivations[i].source) {
                leader = false;
            }
            j = j + 1;
        }
        if leader && record.source.is_fetchable() {
            let members = members_of(crate_derivations, i);
            let ghost list = Seq::new(members.len() as nat, |k: int| members[k] as int);
            // Whether one of the records of this source is without hash.
            let mut lacking = false;
            let mut k: usize = 0;
            while k < members.len()
                invariant
                    k <= members.len(),
                    all == crate_derivations.deep_view(),
                    forall|x: int| 0 <= x < members.len() ==> members[x] < crate_derivations.len(),
                    lacking == (exists|x: int| 0 <= x < k && all[members[x] as int].source.sha256() is None),
                decreases members.len() - k,
            {
                let m = members[k];
                assert(all[m as int] == crate_derivations[m as int]@);
                if crate_derivations[m].source.sha256().is_none() {
                    lacking = true;
                }
                k = k + 1;
            }
            proof {
                lemma_members(all, all[i as int].source.identity(), all.len() as int);
                if lacking {
                    let x = choose|x: int| 0 <= x < members.len() && all[members[x] as int].source.sha256() is None;
                    assert(list[x] == members[x]);
                    assert(list.contains(list[x]));
                    assert(lacks_hash(all, all[i as int].source.identity()));
                }
                if lacks_hash(all, all[i as int].source.identity()) {
                    let w = choose|w: int|
                        0 <= w < all.len() && (#[trigger] all[w]).source.identity() == all[i as int].source.identity()
                            && all[w].source.sha256() is None;
                    assert(list.contains(w));
                    let x = list.index_of(w);
                    assert(members[x] == w);
                }
            }
            if lacking {
                let hash = find_known_hash(crate_derivations, full_ids, from_lock_file, old_prefetches, &members);
                let bundle = SourcePrefetchBundle {
                    source: record.source.without_sha256(),
                    derivations: members,
                    hash,
                };
                proof {
                    assert(bundle@.derivations =~= list);
                    assert(all[i as int].source.identity().identity() == all[i as int].source.identity());
                    assert(bundle@ == bundle_at(all, ids, lock, cache, i as int));
                }
                let ghost before = out.deep_view();
                out.push(bundle);
                assert(out.deep_view() =~= before.push(bundle@));
            }
        }
        i = i + 1;
    }
    out
}

/// The members of a source are the records of that source, each once, in increasing order.
pub proof fn lemma_members(records: Seq<CrateDerivationView>, identity: ResolvedSourceView, n: int)
    requires
        0 <= n <= records.len(),
    ensures
        forall|k: int|
            0 <= k < n && (#[trigger] records[k]).source.identity() == identity ==> members_upto(
                records,
                identity,
                n,
            ).contains(k),
        forall|x: int|
            0 <= x < members_upto(records, identity, n).len() ==> {
                let k = #[trigger] members_upto(records, identity, n)[x];
                0 <= k < n && records[k].source.identity() == identity
            },
        forall|x: int, y: int|
            0 <= x < y < members_upto(records, identity, n).len() ==> members_upto(records, identity, n)[x]
                < members_upto(records, identity, n)[y],
    decreases n,
{
    if n > 0 {
        lemma_members(records, identity, n - 1);
        let before = members_upto(records, identity, n - 1);
        let now = members_upto(records, identity, n);
        assert forall|k: int| 0 <= k < n && (#[trigger] records[k]).source.identity() == identity implies now.contains(
            k,
        ) by {
            if k < n - 1 {
                assert(before.contains(k));
                let x = before.index_of(k);
                assert(now[x] == k);
            } else {
                assert(now[now.len() - 1] == k);
            }
        }
    }
}

/// What a fetch command left behind.
#[derive(Debug, PartialEq, Eq)]
pub struct FetchOutput {
    /// Whether the command ended with success.
    pub success: bool,
    /// The exit code of the command.
    pub code: i32,
    /// What the command printed, where that is text.
    pub stdout: Option<String>,
}

/// Why no hash was had.
#[derive(Clone, Copy, Debug, PartialEq, Eq, Structural)]
pub enum PrefetchError {
    /// The fetch command failed with the given exit code.
    CommandFailed { code: i32 },
    /// The fetch command printed something that is no text.
    NotUtf8,
    /// The fetch command printed no hash.
    NoHashInOutput,
    /// The event does not fit the state: no fetch was to be started, or none is outstanding.
    UnexpectedEvent,
}

/// What a command printed, trimmed, where the command succeeded.
pub open spec fn command_output_of(success: bool, code: i32, stdout: Option<Seq<char>>) -> Result<
    Seq<char>,
    PrefetchError,
> {
    if !success {
        Err(PrefetchError::CommandFailed { code })
    } else {
        match stdout {
            Some(text) => Ok(trimmed(text)),
            None => Err(PrefetchError::NotUtf8),
        }
    }
}

/// The hash that the field `sha256` of the printed document holds, trimmed.
pub open spec fn git_hash_of(field: Option<Seq<char>>) -> Result<Seq<char>, PrefetchError> {
    match field {
        Some(hash) => Ok(trimmed(hash)),
        None => Err(PrefetchError::NoHashInOutput),
    }
}

/// The hash that the output of the fetch command for `source` gives: for
/// a git revision the field `sha256` of the printed document, else what
/// was printed; trimmed in both cases.
pub open spec fn hash_of_output(
    source: ResolvedSourceView,
    success: bool,
    code: i32,
    stdout: Option<Seq<char>>,
) -> Result<Seq<char>, PrefetchError> {
    match command_output_of(success, code, stdout) {
        Err(e) => Err(e),
        Ok(text) => if source is Git {
            git_hash_of(crate::bindings::json_field(text, "sha256"@))
        } else {
            Ok(text)
        },
    }
}

/// What a command printed, trimmed; a failure where the command failed or
/// printed no text.
pub fn get_command_output(output: &FetchOutput) -> (r: Result<String, PrefetchError>)
    ensures
        r.is_ok() == command_output_of(output.success, output.code, output.stdout.deep_view()).is_ok(),
        r matches Ok(text) ==> Ok::<Seq<char>, PrefetchError>(text@) == command_output_of(
            output.success,
            output.code,
            output.stdout.deep_view(),
        ),
        r matches Err(e) ==> Err::<Seq<char>, PrefetchError>(e) == command_output_of(
            output.success,
            output.code,
            output.stdout.deep_view(),
        ),
{
    if !output.success {
        return Err(PrefetchError::CommandFailed { code: output.code });
    }
    match &output.stdout {
        Some(text) => Ok(trim(text.as_str())),
        None => Err(PrefetchError::NotUtf8),
    }
}

/// The hash of a git revision, given the field `sha256` of the document
/// that the fetch command printed.
pub fn git_hash_from_field(field: Option<String>) -> (r: Result<String, PrefetchError>)
    ensures
        r.is_ok() == git_hash_of(field.deep_view()).is_ok(),
        r matches Ok(hash) ==> Ok::<Seq<char>, PrefetchError>(hash@) == git_hash_of(field.deep_view()),
        r matches Err(e) ==> Err::<Seq<char>, PrefetchError>(e) == git_hash_of(field.deep_view()),
{
    match field {
        Some(hash) => Ok(trim(hash.as_str())),
        None => Err(PrefetchError::NoHashInOutput),
    }
}

/// The hash that the output of the fetch command for `source` gives.
pub fn finish_prefetch(source: &ResolvedSource, output: &FetchOutput) -> (r: Result<String, PrefetchError>)
    ensures
        r.is_ok() == hash_of_output(source@, output.success, output.code, output.stdout.deep_view()).is_ok(),
        r matches Ok(hash) ==> Ok::<Seq<char>, PrefetchError>(hash@) == hash_of_output(
            source@,
            output.success,
            output.code,
            output.stdout.deep_view(),
        ),
        r matches Err(e) ==> Err::<Seq<char>, PrefetchError>(e) == hash_of_output(
            source@,
            output.success,
            output.code,
            output.stdout.deep_view(),
        ),
{
    let text = match get_command_output(output) {
        Ok(text) => text,
        Err(e) => {
            return Err(e);
        },
    };
    match source {
        ResolvedSource::Git(_) => git_hash_from_field(crate::bindings::json_text_field(text.as_str(), "sha256")),
        _ => Ok(text),
    }
}

/// What is to be done next for the hashes.
#[derive(Debug, PartialEq, Eq)]
pub enum PrefetchAction {
    /// Start the given fetch command, the `number`-th of `total`, and report that it was started.
    Start { command: crate::source::FetchCommand, number: usize, total: usize },
    /// Wait for the fetch command that was started first among those that
    /// still run, and report what it left behind.
    AwaitOldest,
    /// Nothing is left to do.
    Finish,
}

pub enum ActionView {
    Start { command: (Seq<char>, Seq<Seq<char>>), number: int, total: int },
    AwaitOldest,
    Finish,
}

impl DeepView for PrefetchAction {
    type V = ActionView;

    open spec fn deep_view(&self) -> ActionView {
        match self {
            PrefetchAction::Start { command, number, total } => ActionView::Start {
                command: command@,
                number: *number as int,
                total: *total as int,
            },
            PrefetchAction::AwaitOldest => ActionView::AwaitOldest,
            PrefetchAction::Finish => ActionView::Finish,
        }
    }
}

impl View for PrefetchAction {
    type V = ActionView;

    open spec fn view(&self) -> ActionView {
        self.deep_view()
    }
}

/// The state of the work on the hashes, as a mathematical value.
pub struct PrefetcherView {
    /// How many fetch commands may run at a time.
    pub jobs: int,
    /// The records, with the hashes that they have so far.
    pub records: Seq<CrateDerivationView>,
    /// The full identifier of each record.
    pub full_ids: Seq<Seq<char>>,
    /// The sources that need a hash.
    pub bundles: Seq<BundleView>,
    /// The cache of fetched hashes as it was found.
    pub cache: Map<Seq<char>, Seq<char>>,
    /// The fetched hashes of this run, by full identifier.
    pub hashes: Map<Seq<char>, Seq<char>>,
    /// The bundles before this position are dealt with or being fetched.
    pub next: int,
    /// The bundles that are being fetched, the oldest first.
    pub queue: Seq<int>,
    /// How many fetch commands were started.
    pub started: int,
}

/// The number of bundles among the first `n` for which no hash is known.
pub open spec fn unknown_upto(bundles: Seq<BundleView>, n: int) -> int
    decreases n,
{
    if n <= 0 {
        0
    } else if bundles[n - 1].hash is None {
        unknown_upto(bundles, n - 1) + 1
    } else {
        unknown_upto(bundles, n - 1)
    }
}

/// The records with `hash` put on those at the positions `members`.
pub open spec fn with_hash_at(records: Seq<CrateDerivationView>, members: Seq<int>, hash: Seq<char>) -> Seq<
    CrateDerivationView,
> {
    Seq::new(
        records.len(),
        |k: int|
            if members.contains(k) {
                CrateDerivationView { source: records[k].source.with_hash(Some(hash)), ..records[k] }
            } else {
                records[k]
            },
    )
}

/// The map `hashes` with `hash` entered under the full identifiers of the first `n` of `members`.
pub open spec fn entered(
    hashes: Map<Seq<char>, Seq<char>>,
    full_ids: Seq<Seq<char>>,
    members: Seq<int>,
    hash: Seq<char>,
    n: int,
) -> Map<Seq<char>, Seq<char>>
    decreases n,
{
    if n <= 0 {
        hashes
    } else {
        entered(hashes, full_ids, members, hash, n - 1).insert(full_ids[members[n - 1]], hash)
    }
}

impl PrefetcherView {
    /// The state is consistent.
    pub open spec fn wf(self) -> bool {
        &&& self.jobs >= 1
        &&& self.full_ids.len() == self.records.len()
        &&& forall|b: int, k: int|
            0 <= b < self.bundles.len() && 0 <= k < self.bundles[b].derivations.len() ==> 0 <= (
            #[trigger] self.bundles[b].derivations[k]) < self.records.len()
        &&& forall|b: int| 0 <= b < self.bundles.len() ==> (#[trigger] self.bundles[b]).source.is_fetchable()
        &&& 0 <= self.next <= self.bundles.len()
        &&& self.queue.len() <= self.jobs
        &&& forall|q: int|
            0 <= q < self.queue.len() ==> 0 <= (#[trigger] self.queue[q]) < self.next
                && self.bundles[self.queue[q]].hash is None
        &&& 0 <= self.started
        &&& self.started <= unknown_upto(self.bundles, self.next)
    }

    /// The state in which a hash is put on the records of bundle `b`. A
    /// hash that was fetched, now or earlier, is entered for each of them.
    pub open spec fn applied(self, b: int, hash: Seq<char>, source: HashSource) -> PrefetcherView {
        let members = self.bundles[b].derivations;
        PrefetcherView {
            records: with_hash_at(self.records, members, hash),
            hashes: if source == HashSource::Prefetched {
                entered(self.hashes, self.full_ids, members, hash, members.len() as int)
            } else {
                self.hashes
            },
            ..self
        }
    }

    /// The state in which the bundles from `next` on whose hash is known
    /// are dealt with, up to the first whose hash has to be fetched.
    pub open spec fn settled(self) -> PrefetcherView
        decreases self.bundles.len() - self.next,
    {
        if 0 <= self.next < self.bundles.len() && self.bundles[self.next].hash is Some {
            let known = self.bundles[self.next].hash->0;
            PrefetcherView { next: self.next + 1, ..self.applied(self.next, trimmed(known.0), known.1) }.settled()
        } else {
            self
        }
    }

    /// What is to be done in this state. While a bundle waits for its
    /// fetch, the fetch is started unless as many fetches run as may run
    /// at a time; then, and when no bundle is left, the oldest is waited for.
    pub open spec fn action(self) -> ActionView {
        if self.next < self.bundles.len() {
            if self.queue.len() >= self.jobs {
                ActionView::AwaitOldest
            } else {
                ActionView::Start {
                    command: crate::source::fetch_command_of(self.bundles[self.next].source)->0,
                    number: self.started + 1,
                    total: unknown_upto(self.bundles, self.bundles.len() as int),
                }
            }
        } else if self.queue.len() > 0 {
            ActionView::AwaitOldest
        } else {
            ActionView::Finish
        }
    }

    /// The state after the fetch of the bundle at `next` was started.
    pub open spec fn after_start(self) -> PrefetcherView {
        PrefetcherView {
            queue: self.queue.push(self.next),
            next: self.next + 1,
            started: self.started + 1,
            ..self
        }.settled()
    }

    /// The state after the oldest fetch has ended.
    pub open spec fn without_oldest(self) -> PrefetcherView {
        PrefetcherView { queue: self.queue.drop_first(), ..self }
    }

    /// The state after the oldest fetch has given `hash`.
    pub open spec fn after_completion(self, hash: Seq<char>) -> PrefetcherView {
        self.without_oldest().applied(self.queue[0], hash, HashSource::Prefetched)
    }
}

/// The state in which the work on the hashes begins.
pub open spec fn initial_state(
    jobs: int,
    records: Seq<CrateDerivationView>,
    full_ids: Seq<Seq<char>>,
    lock: Map<Seq<char>, Seq<char>>,
    cache: Map<Seq<char>, Seq<char>>,
) -> PrefetcherView {
    PrefetcherView {
        jobs,
        records,
        full_ids,
        bundles: plan(records, full_ids, lock, cache),
        cache,
        hashes: Map::empty(),
        next: 0,
        queue: Seq::empty(),
        started: 0,
    }.settled()
}

/// Whether two maps hold the same texts under the same keys.
pub fn same_texts(a: &SortedMap<String>, b: &SortedMap<String>) -> (r: bool)
    requires
        a.wf(),
        b.wf(),
    ensures
        r == (text_views(a@) == text_views(b@)),
{
    proof {
        a.lemma_entries();
        b.lemma_entries();
        assert(text_views(a@).dom() =~= a@.dom());
        assert(text_views(b@).dom() =~= b@.dom());
    }
    if a.len() != b.len() {
        return false;
    }
    let n = a.len();
    let mut i: usize = 0;
    while i < n
        invariant
            i <= n,
            n == a.keys().len(),
            a.wf(),
            b.wf(),
            forall|j: int|
                0 <= j < i ==> b@.contains_key(#[trigger] a.keys()[j]) && b@[a.keys()[j]]@ == a.values()[j]@,
        decreases n - i,
    {
        let key = a.key_at(i);
        let same = match b.get(key.as_str()) {
            Some(value) => crate::text::same_text(value.as_str(), a.value_at(i).as_str()),
            None => false,
        };
        if !same {
            proof {
                a.lemma_entries();
                assert(a@.contains_key(a.keys()[i as int]));
                assert(text_views(a@)[a.keys()[i as int]] == a.values()[i as int]@);
                if b@.contains_key(a.keys()[i as int]) {
                    assert(text_views(b@)[a.keys()[i as int]] != text_views(a@)[a.keys()[i as int]]);
                } else {
                    assert(!text_views(b@).contains_key(a.keys()[i as int]));
                    assert(text_views(a@).contains_key(a.keys()[i as int]));
                }
            }
            return false;
        }
        i = i + 1;
    }
    proof {
        a.lemma_entries();
        b.lemma_entries();
        assert(a@.dom().subset_of(b@.dom())) by {
            assert forall|k: Seq<char>| a@.dom().contains(k) implies b@.dom().contains(k) by {
                assert(a.keys().contains(k));
                let j = a.keys().index_of(k);
                assert(b@.contains_key(a.keys()[j]));
            }
        }
        vstd::set_lib::lemma_subset_equality(a@.dom(), b@.dom());
        assert forall|k: Seq<char>| text_views(a@).contains_key(k) implies text_views(a@)[k] == text_views(b@)[k] by {
            assert(a.keys().contains(k));
            let j = a.keys().index_of(k);
            assert(a@[a.keys()[j]] == a.values()[j]);
        }
        assert(text_views(a@) =~= text_views(b@));
    }
    true
}

/// The number of unknown hashes among the first bundles is at most their number.
pub proof fn lemma_unknown_upto(bundles: Seq<BundleView>, n: int)
    requires
        0 <= n,
    ensures
        0 <= unknown_upto(bundles, n) <= n,
        n > 0 ==> unknown_upto(bundles, n - 1) <= unknown_upto(bundles, n),
    decreases n,
{
    if n > 0 {
        lemma_unknown_upto(bundles, n - 1);
    }
}

/// The number of unknown hashes grows with the number of bundles that are counted.
pub proof fn lemma_unknown_monotone(bundles: Seq<BundleView>, m: int, n: int)
    requires
        0 <= m <= n,
    ensures
        unknown_upto(bundles, m) <= unknown_upto(bundles, n),
    decreases n - m,
{
    if m < n {
        lemma_unknown_upto(bundles, n);
        lemma_unknown_monotone(bundles, m, n - 1);
    }
}

/// Works out which content hashes are missing and what to do about them,
/// one step at a time. The caller runs the fetch commands and reports
/// back; at most a fixed number of them run at a time, and the one that
/// was started first is waited for first.
pub struct Prefetcher {
    jobs: usize,
    crate_derivations: Vec<CrateDerivation>,
    full_ids: Vec<String>,
    bundles: Vec<SourcePrefetchBundle>,
    old_prefetched_hashes: SortedMap<String>,
    hashes: SortedMap<String>,
    next: usize,
    fetch_queue: std::collections::VecDeque<usize>,
    started_idx: usize,
    total: usize,
}

impl View for Prefetcher {
    type V = PrefetcherView;

    closed spec fn view(&self) -> PrefetcherView {
        PrefetcherView {
            jobs: self.jobs as int,
            records: self.crate_derivations.deep_view(),
            full_ids: self.full_ids.deep_view(),
            bundles: self.bundles.deep_view(),
            cache: text_views(self.old_prefetched_hashes@),
            hashes: text_views(self.hashes@),
            next: self.next as int,
            queue: Seq::new(self.fetch_queue@.len(), |i: int| self.fetch_queue@[i] as int),
            started: self.started_idx as int,
        }
    }
}

/// What the work on the hashes has given.
pub struct PrefetchOutcome {
    /// The records, with the hashes that were found or fetched.
    pub crate_derivations: Vec<CrateDerivation>,
    /// The fetched hashes, by full identifier: what the cache of fetched hashes is to hold from now on.
    pub hashes: SortedMap<String>,
    /// Whether the fetched hashes differ from the cache as it was found,
    /// so that the cache has to be written.
    pub changed: bool,
}

impl Prefetcher {
    /// The state is consistent, and no bundle whose hash is known waits.
    pub closed spec fn wf(&self) -> bool {
        &&& self@.wf()
        &&& self.old_prefetched_hashes.wf()
        &&& self.hashes.wf()
        &&& self.total == unknown_upto(self@.bundles, self@.bundles.len() as int)
        &&& self.next < self.bundles.len() ==> self@.bundles[self.next as int].hash is None
    }

    /// Like `wf`, but a bundle whose hash is known may wait.
    spec fn consistent(&self) -> bool {
        &&& self@.wf()
        &&& self.old_prefetched_hashes.wf()
        &&& self.hashes.wf()
        &&& self.total == unknown_upto(self@.bundles, self@.bundles.len() as int)
    }

    /// Puts a hash on the records of bundle `b`.
    fn apply(&mut self, b: usize, hash: &str, source: HashSource)
        requires
            old(self).consistent(),
            b < old(self).bundles.len(),
        ensures
            final(self).consistent(),
            final(self)@ == old(self)@.applied(b as int, hash@, source),
    {
        let ghost start = self@;
        let ghost members = start.bundles[b as int].derivations;
        let count = self.bundles[b].derivations.len();
        assert(self.bundles.deep_view()[b as int] == self.bundles[b as int]@);
        let mut i: usize = 0;
        assert(self.crate_derivations.deep_view() =~= with_hash_at(start.records, members.take(0), hash@));
        while i < count
            invariant
                i <= count,
                b < self.bundles.len(),
                count == self.bundles[b as int].derivations.len(),
                members == self.bundles[b as int]@.derivations,
                members.len() == count,
                forall|k: int| 0 <= k < members.len() ==> 0 <= #[trigger] members[k] < start.records.len(),
                start.wf(),
                self.old_prefetched_hashes.wf(),
                self.hashes.wf(),
                self.total == unknown_upto(start.bundles, start.bundles.len() as int),
                self.crate_derivations.len() == start.records.len(),
                self.full_ids.len() == start.records.len(),
                self.full_ids.deep_view() == start.full_ids,
                self@ == (PrefetcherView {
                    records: with_hash_at(start.records, members.take(i as int), hash@),
                    hashes: if source == HashSource::Prefetched {
                        entered(start.hashes, start.full_ids, members, hash@, i as int)
                    } else {
                        start.hashes
                    },
                    ..start
                }),
            decreases count - i,
        {
            let m = self.bundles[b].derivations[i];
            assert(members[i as int] == m);
            let ghost before = self@;
            let updated = self.crate_derivations[m].source.with_sha256(String::from_str(hash));
            assert(before.records == self.crate_derivations.deep_view());
            assert(before.records[m as int] == self.crate_derivations[m as int]@);
            self.crate_derivations[m].source = updated;
            if source == HashSource::Prefetched {
                let ghost held = self.hashes@;
                assert(self.full_ids.deep_view()[m as int] == self.full_ids[m as int]@);
                self.hashes.insert(self.full_ids[m].clone(), String::from_str(hash));
                assert(text_views(self.hashes@) =~= text_views(held).insert(start.full_ids[m as int], hash@));
            }
            proof {
                let now = self.crate_derivations.deep_view();
                let want = with_hash_at(start.records, members.take(i + 1), hash@);
                assert forall|k: int| 0 <= k < now.len() implies now[k] == want[k] by {
                    assert(now[k] == self.crate_derivations[k]@);
                    if k == m {
                        assert(members.take(i + 1)[i as int] == m);
                        assert(members.take(i + 1).contains(k));
                    } else {
                        assert(now[k] == before.records[k]);
                        if members.take(i + 1).contains(k) {
                            let x = members.take(i + 1).index_of(k);
                            assert(members.take(i as int)[x] == k);
                        }
                        if members.take(i as int).contains(k) {
                            let x = members.take(i as int).index_of(k);
                            assert(members.take(i + 1)[x] == k);
                        }
                    }
                }
                assert(now =~= want);
            }
            i = i + 1;
        }
        assert(members.take(count as int) =~= members);
    }

    /// Deals with the bundles whose hash is known, up to the first whose hash has to be fetched.
    fn settle(&mut self)
        requires
            old(self).consistent(),
        ensures
            final(self).wf(),
            final(self)@ == old(self)@.settled(),
    {
        let ghost start = self@;
        while self.next < self.bundles.len() && self.bundles[self.next].hash.is_some()
            invariant
                self.consistent(),
                self@.settled() == start.settled(),
            decreases self.bundles.len() - self.next,
        {
            let b = self.next;
            assert(self.bundles.deep_view()[b as int] == self.bundles[b as int]@);
            let (hash, source) = match &self.bundles[b].hash {
                Some(known) => (trim(known.sha256.as_str()), known.source),
                None => (String::new(), HashSource::Attached),
            };
            let ghost before = self@;
            self.apply(b, hash.as_str(), source);
            self.next = b + 1;
            proof {
                lemma_unknown_upto(self@.bundles, b + 1);
                assert(self@ == (PrefetcherView { next: before.next + 1, ..before.applied(b as int, hash@, source) }));
            }
        }
        proof {
            if self.next < self.bundles.len() {
                assert(self.bundles.deep_view()[self.next as int] == self.bundles[self.next as int]@);
            }
        }
    }

    /// Finds the sources that need a hash and deals with those whose hash
    /// is known. `old_prefetches` is the cache of fetched hashes as it was
    /// found; `jobs` says how many fetch commands may run at a time.
    pub fn new(
        jobs: usize,
        from_lock_file: &SortedMap<String>,
        old_prefetches: SortedMap<String>,
        crate_derivations: Vec<CrateDerivation>,
        id_shortener: &crate::shortener::PackageIdShortener,
    ) -> (r: Prefetcher)
        requires
            jobs >= 1,
            from_lock_file.wf(),
            old_prefetches.wf(),
            id_shortener.wf(),
        ensures
            r.wf(),
            r@ == initial_state(
                jobs as int,
                crate_derivations.deep_view(),
                Seq::new(
                    crate_derivations.len() as nat,
                    |i: int| id_shortener.lengthened(crate_derivations.deep_view()[i].package_id),
                ),
                text_views(from_lock_file@),
                text_views(old_prefetches@),
            ),
    {
        let mut full_ids: Vec<String> = Vec::new();
        let mut i: usize = 0;
        while i < crate_derivations.len()
            invariant
                i <= crate_derivations.len(),
                id_shortener.wf(),
                full_ids.len() == i,
                forall|k: int|
                    0 <= k < i ==> full_ids[k]@ == id_shortener.lengthened(
                        crate_derivations.deep_view()[k].package_id,
                    ),
            decreases crate_derivations.len() - i,
        {
            assert(crate_derivations.deep_view()[i as int] == crate_derivations[i as int]@);
            full_ids.push(id_shortener.lengthen_ref(&crate_derivations[i].package_id).repr.clone());
            i = i + 1;
        }
        assert(full_ids.deep_view() =~= Seq::new(
            crate_derivations.len() as nat,
            |i: int| id_shortener.lengthened(crate_derivations.deep_view()[i].package_id),
        ));
        let bundles = prefetchable_sources(&crate_derivations, &full_ids, from_lock_file, &old_prefetches);
        let mut total: usize = 0;
        let mut b: usize = 0;
        while b < bundles.len()
            invariant
                b <= bundles.len(),
                total == unknown_upto(bundles.deep_view(), b as int),
                total <= b,
            decreases bundles.len() - b,
        {
            assert(bundles.deep_view()[b as int] == bundles[b as int]@);
            if bundles[b].hash.is_none() {
                total = total + 1;
            }
            b = b + 1;
        }
        let mut prefetcher = Prefetcher {
            jobs,
            crate_derivations,
            full_ids,
            bundles,
            old_prefetched_hashes: old_prefetches,
            hashes: SortedMap::new(),
            next: 0,
            fetch_queue: std::collections::VecDeque::new(),
            started_idx: 0,
            total,
        };
        proof {
            let s = prefetcher@;
            assert(s.hashes =~= Map::<Seq<char>, Seq<char>>::empty());
            assert(s.queue =~= Seq::<int>::empty());
            assert forall|x: int, k: int|
                0 <= x < s.bundles.len() && 0 <= k < s.bundles[x].derivations.len() implies 0 <= (
                #[trigger] s.bundles[x].derivations[k]) < s.records.len() by {
                assert(s.bundles[x] == prefetcher.bundles[x]@);
                assert(s.bundles[x].derivations[k] == prefetcher.bundles[x].derivations[k]);
            }
            lemma_plan_is_fetchable(
                s.records,
                s.full_ids,
                text_views(from_lock_file@),
                s.cache,
                s.records.len() as int,
            );
        }
        prefetcher.settle();
        prefetcher
    }

    /// What is to be done next.
    pub fn next_action(&self) -> (r: PrefetchAction)
        requires
            self.wf(),
        ensures
            r@ == self@.action(),
    {
        if self.next < self.bundles.len() {
            if self.fetch_queue.len() >= self.jobs {
                PrefetchAction::AwaitOldest
            } else {
                assert(self.bundles.deep_view()[self.next as int] == self.bundles[self.next as int]@);
                proof {
                    lemma_unknown_upto(self@.bundles, self.next as int);
                    lemma_unknown_monotone(self@.bundles, self.next as int, self.bundles.len() as int);
                    lemma_unknown_upto(self@.bundles, self.bundles.len() as int);
                }
                match self.bundles[self.next].source.start_prefetch() {
                    Some(command) => PrefetchAction::Start {
                        command,
                        number: self.started_idx + 1,
                        total: self.total,
                    },
                    None => PrefetchAction::Finish,
                }
            }
        } else if self.fetch_queue.len() > 0 {
            PrefetchAction::AwaitOldest
        } else {
            PrefetchAction::Finish
        }
    }

    /// Takes note that the fetch command of the last `Start` was started.
    /// Where no fetch was to be started, the state stays as it is.
    pub fn started(&mut self) -> (r: Result<(), PrefetchError>)
        requires
            old(self).wf(),
        ensures
            final(self).wf(),
            r is Ok <==> old(self)@.action() is Start,
            r is Ok ==> final(self)@ == old(self)@.after_start(),
            r matches Err(e) ==> e == PrefetchError::UnexpectedEvent && final(self)@ == old(self)@,
    {
        if !(self.next < self.bundles.len() && self.fetch_queue.len() < self.jobs) {
            return Err(PrefetchError::UnexpectedEvent);
        }
        let ghost before = self@;
        proof {
            lemma_unknown_upto(before.bundles, before.next + 1);
            lemma_unknown_upto(before.bundles, before.next);
            lemma_unknown_monotone(before.bundles, before.next + 1, before.bundles.len() as int);
            lemma_unknown_upto(before.bundles, before.bundles.len() as int);
        }
        self.fetch_queue.push_back(self.next);
        self.next = self.next + 1;
        self.started_idx = self.started_idx + 1;
        proof {
            assert(self@.queue =~= before.queue.push(before.next));
            assert(self@ == (PrefetcherView {
                queue: before.queue.push(before.next),
                next: before.next + 1,
                started: before.started + 1,
                ..before
            }));
        }
        self.settle();
        Ok(())
    }

    /// Takes what the oldest fetch command left behind: its hash is put on
    /// the records of its source and entered among the fetched hashes.
    /// Where the command gave no hash, its failure is returned and the
    /// fetch is outstanding no longer.
    pub fn completed(&mut self, output: &FetchOutput) -> (r: Result<(), PrefetchError>)
        requires
            old(self).wf(),
        ensures
            final(self).wf(),
            old(self)@.queue.len() == 0 ==> r == Err::<(), PrefetchError>(PrefetchError::UnexpectedEvent)
                && final(self)@ == old(self)@,
            old(self)@.queue.len() > 0 ==> match hash_of_output(
                old(self)@.bundles[old(self)@.queue[0]].source,
                output.success,
                output.code,
                output.stdout.deep_view(),
            ) {
                Ok(hash) => r is Ok && final(self)@ == old(self)@.after_completion(hash),
                Err(e) => r == Err::<(), PrefetchError>(e) && final(self)@ == old(self)@.without_oldest(),
            },
    {
        let ghost before = self@;
        let b = match self.fetch_queue.pop_front() {
            Some(b) => b,
            None => {
                assert(self@.queue =~= before.queue);
                return Err(PrefetchError::UnexpectedEvent);
            },
        };
        proof {
            assert(before.queue[0] == b);
            assert(self@.queue =~= before.queue.drop_first());
            assert(self@ == before.without_oldest());
            assert forall|q: int| 0 <= q < self@.queue.len() implies 0 <= (#[trigger] self@.queue[q]) < self@.next
                && self@.bundles[self@.queue[q]].hash is None by {
                assert(self@.queue[q] == before.queue[q + 1]);
            }
        }
        assert(self.bundles.deep_view()[b as int] == self.bundles[b as int]@);
        match finish_prefetch(&self.bundles[b].source, output) {
            Ok(hash) => {
                self.apply(b, hash.as_str(), HashSource::Prefetched);
                Ok(())
            },
            Err(e) => Err(e),
        }
    }

    /// Ends the work: hands out the records and the fetched hashes, and
    /// says whether these differ from the cache as it was found.
    pub fn finish(self) -> (r: PrefetchOutcome)
        requires
            self.wf(),
        ensures
            r.crate_derivations.deep_view() == self@.records,
            r.hashes.wf(),
            text_views(r.hashes@) == self@.hashes,
            r.changed == (self@.hashes != self@.cache),
    {
        let changed = !same_texts(&self.hashes, &self.old_prefetched_hashes);
        PrefetchOutcome { crate_derivations: self.crate_derivations, hashes: self.hashes, changed }
    }
}

/// Every bundle of a plan is of a source whose hash can be fetched.
pub proof fn lemma_plan_is_fetchable(
    records: Seq<CrateDerivationView>,
    full_ids: Seq<Seq<char>>,
    lock: Map<Seq<char>, Seq<char>>,
    cache: Map<Seq<char>, Seq<char>>,
    n: int,
)
    requires
        0 <= n <= records.len(),
    ensures
        forall|b: int|
            0 <= b < plan_upto(records, full_ids, lock, cache, n).len() ==> (#[trigger] plan_upto(
                records,
                full_ids,
                lock,
                cache,
                n,
            )[b]).source.is_fetchable(),
    decreases n,
{
    if n > 0 {
        lemma_plan_is_fetchable(records, full_ids, lock, cache, n - 1);
    }
}

/// What the caller reports to the prefetcher.
#[derive(Debug, PartialEq, Eq)]
pub enum PrefetchEvent {
    /// Nothing has happened yet.
    Begin,
    /// The fetch command of the last `Start` was started.
    Started,
    /// The oldest fetch command has ended and left this behind.
    Completed(FetchOutput),
}

impl Prefetcher {
    /// Takes an event and says what is to be done next. A failed fetch,
    /// and an event that does not fit the state, end the work with a
    /// failure.
    pub fn step(&mut self, event: &PrefetchEvent) -> (r: Result<PrefetchAction, PrefetchError>)
        requires
            old(self).wf(),
        ensures
            final(self).wf(),
            r matches Ok(action) ==> action@ == final(self)@.action(),
            match event {
                PrefetchEvent::Begin => r is Ok && final(self)@ == old(self)@,
                PrefetchEvent::Started => {
                    &&& r is Ok <==> old(self)@.action() is Start
                    &&& r is Ok ==> final(self)@ == old(self)@.after_start()
                    &&& r matches Err(e) ==> e == PrefetchError::UnexpectedEvent && final(self)@ == old(self)@
                },
                PrefetchEvent::Completed(output) => {
                    &&& old(self)@.queue.len() == 0 ==> r == Err::<PrefetchAction, PrefetchError>(
                        PrefetchError::UnexpectedEvent,
                    ) && final(self)@ == old(self)@
                    &&& old(self)@.queue.len() > 0 ==> match hash_of_output(
                        old(self)@.bundles[old(self)@.queue[0]].source,
                        output.success,
                        output.code,
                        output.stdout.deep_view(),
                    ) {
                        Ok(hash) => r is Ok && final(self)@ == old(self)@.after_completion(hash),
                        Err(e) => r == Err::<PrefetchAction, PrefetchError>(e) && final(self)@
                            == old(self)@.without_oldest(),
                    }
                },
            },
    {
        match event {
            PrefetchEvent::Begin => {},
            PrefetchEvent::Started => {
                match self.started() {
                    Ok(()) => {},
                    Err(e) => {
                        return Err(e);
                    },
                }
            },
            PrefetchEvent::Completed(output) => {
                match self.completed(output) {
                    Ok(()) => {},
                    Err(e) => {
                        return Err(e);
                    },
                }
            },
        }
        Ok(self.next_action())
    }
}

} // verus!
