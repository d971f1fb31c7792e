//! What holds of the work on the hashes whatever the records and whatever
//! the fetch commands give.

use vstd::prelude::*;
use crate::derivation::CrateDerivationView;
use crate::prefetch::{
    bundle_at, entered, first_cached, first_locked, hash_of_output, heads_bundle, initial_state, is_leader,
    known_hash, lacks_hash, lemma_members, lemma_unknown_upto, members_upto, plan, plan_upto, BundleView,
    HashSource, PrefetcherView,
};
use crate::text::{lemma_trimmed_twice, trimmed};

verus! {

/// The positions among the first `n` records of those that head a bundle, in increasing order.
pub open spec fn heads_upto(records: Seq<CrateDerivationView>, n: int) -> Seq<int>
    decreases n,
{
    if n <= 0 {
        Seq::empty()
    } else if heads_bundle(records, n - 1) {
        heads_upto(records, n - 1).push(n - 1)
    } else {
        heads_upto(records, n - 1)
    }
}

/// The bundles of a plan are those of the records that head one, in their order.
pub proof fn lemma_plan_heads(
    records: Seq<CrateDerivationView>,
    full_ids: Seq<Seq<char>>,
    lock: Map<Seq<char>, Seq<char>>,
    cache: Map<Seq<char>, Seq<char>>,
    n: int,
)
    requires
        0 <= n <= records.len(),
    ensures
        plan_upto(records, full_ids, lock, cache, n).len() == heads_upto(records, n).len(),
        forall|x: int|
            0 <= x < heads_upto(records, n).len() ==> {
                let l = #[trigger] heads_upto(records, n)[x];
                &&& 0 <= l < n
                &&& heads_bundle(records, l)
                &&& plan_upto(records, full_ids, lock, cache, n)[x] == bundle_at(records, full_ids, lock, cache, l)
            },
        forall|x: int, y: int|
            0 <= x < y < heads_upto(records, n).len() ==> heads_upto(records, n)[x] < heads_upto(records, n)[y],
        forall|l: int| 0 <= l < n && heads_bundle(records, l) ==> heads_upto(records, n).contains(l),
    decreases n,
{
    if n > 0 {
        lemma_plan_heads(records, full_ids, lock, cache, n - 1);
        let before = heads_upto(records, n - 1);
        let now = heads_upto(records, n);
        assert forall|l: int| 0 <= l < n && heads_bundle(records, l) implies now.contains(l) by {
            if l < n - 1 {
                let x = before.index_of(l);
                assert(now[x] == l);
            } else {
                assert(now[now.len() - 1] == l);
            }
        }
    }
}

/// Every record has a first record of its source before it, or is that record.
pub proof fn lemma_leader_exists(records: Seq<CrateDerivationView>, i: int) -> (l: int)
    requires
        0 <= i < records.len(),
    ensures
        0 <= l <= i,
        is_leader(records, l),
        records[l].source.identity() == records[i].source.identity(),
    decreases i,
{
    if is_leader(records, i) {
        i
    } else {
        let j = choose|j: int| 0 <= j < i && (#[trigger] records[j]).source.identity() == records[i].source.identity();
        lemma_leader_exists(records, j)
    }
}

/// The sources of the bundles of a plan differ from one another, and the
/// records of each bundle are the records of its source.
pub proof fn lemma_plan_structure(
    records: Seq<CrateDerivationView>,
    full_ids: Seq<Seq<char>>,
    lock: Map<Seq<char>, Seq<char>>,
    cache: Map<Seq<char>, Seq<char>>,
)
    ensures
        forall|b: int, c: int|
            0 <= b < plan(records, full_ids, lock, cache).len() && 0 <= c < plan(
                records,
                full_ids,
                lock,
                cache,
            ).len() && b != c ==> (#[trigger] plan(records, full_ids, lock, cache)[b]).source != (#[trigger] plan(
                records,
                full_ids,
                lock,
                cache,
            )[c]).source,
        forall|b: int|
            0 <= b < plan(records, full_ids, lock, cache).len() ==> {
                let bundle = #[trigger] plan(records, full_ids, lock, cache)[b];
                &&& bundle.source.is_fetchable()
                &&& bundle.derivations == members_upto(records, bundle.source, records.len() as int)
                &&& bundle.derivations.len() > 0
                &&& bundle.hash == known_hash(records, full_ids, lock, cache, bundle.derivations)
                &&& exists|l: int|
                    0 <= l < records.len() && heads_bundle(records, l) && (#[trigger] records[l]).source.identity()
                        == bundle.source
            },
{
    let n = records.len() as int;
    let p = plan(records, full_ids, lock, cache);
    let heads = heads_upto(records, n);
    lemma_plan_heads(records, full_ids, lock, cache, n);
    assert forall|b: int, c: int| 0 <= b < p.len() && 0 <= c < p.len() && b != c implies (#[trigger] p[b]).source != (
    #[trigger] p[c]).source by {
        let lb = heads[b];
        let lc = heads[c];
        if b < c {
            assert(lb < lc);
            assert(is_leader(records, lc));
            assert(records[lb].source.identity() != records[lc].source.identity());
        } else {
            assert(lc < lb);
            assert(is_leader(records, lb));
            assert(records[lc].source.identity() != records[lb].source.identity());
        }
    }
    assert forall|b: int| 0 <= b < p.len() implies {
        let bundle = #[trigger] p[b];
        &&& bundle.source.is_fetchable()
        &&& bundle.derivations == members_upto(records, bundle.source, n)
        &&& bundle.derivations.len() > 0
        &&& bundle.hash == known_hash(records, full_ids, lock, cache, bundle.derivations)
        &&& exists|l: int|
            0 <= l < records.len() && heads_bundle(records, l) && (#[trigger] records[l]).source.identity()
                == bundle.source
    } by {
        let l = heads[b];
        lemma_members(records, records[l].source.identity(), n);
        assert(members_upto(records, records[l].source.identity(), n).contains(l));
        assert(heads_bundle(records, l) && records[l].source.identity() == p[b].source);
    }
}

/// Records that share a source whose hash is missing are in one bundle,
/// and in no other: their source is fetched once.
pub proof fn law_shared_source_is_in_one_bundle(
    records: Seq<CrateDerivationView>,
    full_ids: Seq<Seq<char>>,
    lock: Map<Seq<char>, Seq<char>>,
    cache: Map<Seq<char>, Seq<char>>,
    i: int,
    j: int,
) -> (b: int)
    requires
        0 <= i < records.len(),
        0 <= j < records.len(),
        records[i].source.identity() == records[j].source.identity(),
        records[i].source.is_fetchable(),
        lacks_hash(records, records[i].source.identity()),
    ensures
        0 <= b < plan(records, full_ids, lock, cache).len(),
        plan(records, full_ids, lock, cache)[b].source == records[i].source.identity(),
        plan(records, full_ids, lock, cache)[b].derivations.contains(i),
        plan(records, full_ids, lock, cache)[b].derivations.contains(j),
        forall|c: int|
            0 <= c < plan(records, full_ids, lock, cache).len() && c != b ==> {
                &&& !(#[trigger] plan(records, full_ids, lock, cache)[c]).derivations.contains(i)
                &&& !plan(records, full_ids, lock, cache)[c].derivations.contains(j)
            },
{
    let n = records.len() as int;
    let p = plan(records, full_ids, lock, cache);
    let identity = records[i].source.identity();
    let l = lemma_leader_exists(records, i);
    assert(heads_bundle(records, l));
    lemma_plan_heads(records, full_ids, lock, cache, n);
    lemma_plan_structure(records, full_ids, lock, cache);
    let heads = heads_upto(records, n);
    let b = heads.index_of(l);
    lemma_members(records, identity, n);
    assert forall|c: int| 0 <= c < p.len() && c != b implies {
        &&& !(#[trigger] p[c]).derivations.contains(i)
        &&& !p[c].derivations.contains(j)
    } by {
        lemma_members(records, p[c].source, n);
        if p[c].derivations.contains(i) {
            let x = p[c].derivations.index_of(i);
            assert(records[p[c].derivations[x]].source.identity() == p[c].source);
        }
        if p[c].derivations.contains(j) {
            let x = p[c].derivations.index_of(j);
            assert(records[p[c].derivations[x]].source.identity() == p[c].source);
        }
    }
    b
}

/// When the oldest fetch has given a hash, every record of its bundle
/// whose source can carry a hash has that hash.
pub proof fn law_completion_gives_the_hash_to_all(s: PrefetcherView, hash: Seq<char>, k: int)
    requires
        s.wf(),
        s.queue.len() > 0,
        s.bundles[s.queue[0]].derivations.contains(k),
        s.records[k].source.is_fetchable(),
    ensures
        s.after_completion(hash).records[k].source.sha256() == Some(hash),
{
    let members = s.bundles[s.queue[0]].derivations;
    let x = members.index_of(k);
    assert(0 <= s.queue[0] < s.bundles.len());
    assert(0 <= members[x] < s.records.len());
}

/// What a fetch command left behind, as a mathematical value.
pub struct OutputView {
    pub success: bool,
    pub code: i32,
    pub stdout: Option<Seq<char>>,
}

/// What is reported to the prefetcher, as a mathematical value.
pub enum EventView {
    Started,
    Completed(OutputView),
}

/// The state after an event that fits it. A fetch that was not to be
/// started, a completion where nothing runs, and a fetch that gives no
/// hash end the work: there is no state after them.
pub open spec fn after_event(s: PrefetcherView, e: EventView) -> Option<PrefetcherView> {
    match e {
        EventView::Started => if s.action() is Start {
            Some(s.after_start())
        } else {
            None
        },
        EventView::Completed(output) => if s.queue.len() > 0 {
            match hash_of_output(s.bundles[s.queue[0]].source, output.success, output.code, output.stdout) {
                Ok(hash) => Some(s.after_completion(hash)),
                Err(_) => None,
            }
        } else {
            None
        },
    }
}

/// The state after the first `n` of a sequence of events.
pub open spec fn after_events(s: PrefetcherView, events: Seq<EventView>, n: int) -> Option<PrefetcherView>
    decreases n,
{
    if n <= 0 {
        Some(s)
    } else {
        match after_events(s, events, n - 1) {
            Some(before) => after_event(before, events[n - 1]),
            None => None,
        }
    }
}

/// Whether the hash of a bundle is one that is kept among the fetched
/// hashes: a hash that has to be fetched, or one from the cache.
pub open spec fn is_credited(bundle: BundleView) -> bool {
    bundle.hash matches Some(known) ==> known.1 == HashSource::Prefetched
}

/// Whether `key` is the full identifier of record `m` of bundle `b`.
pub open spec fn is_key_of(
    bundles: Seq<BundleView>,
    full_ids: Seq<Seq<char>>,
    b: int,
    m: int,
    key: Seq<char>,
) -> bool {
    0 <= b < bundles.len() && 0 <= m < bundles[b].derivations.len() && key == full_ids[bundles[b].derivations[m]]
}

/// Whether the fetched hashes hold for record `m` of bundle `b` what they
/// hold for its first record: a trimmed hash, and the known one where one is known.
pub open spec fn entry_is_right(
    bundles: Seq<BundleView>,
    full_ids: Seq<Seq<char>>,
    hashes: Map<Seq<char>, Seq<char>>,
    b: int,
    m: int,
) -> bool {
    let key = full_ids[bundles[b].derivations[m]];
    let first = full_ids[bundles[b].derivations[0]];
    &&& hashes.contains_key(key)
    &&& hashes[key] == hashes[first]
    &&& trimmed(hashes[key]) == hashes[key]
    &&& bundles[b].hash matches Some(known) ==> hashes[key] == trimmed(known.0)
}

/// Whether the fetched hashes hold exactly the hashes of the credited
/// bundles among `done`, under the full identifiers of their records.
pub open spec fn hashes_fit(
    bundles: Seq<BundleView>,
    full_ids: Seq<Seq<char>>,
    hashes: Map<Seq<char>, Seq<char>>,
    done: Set<int>,
) -> bool {
    &&& forall|key: Seq<char>| #[trigger]
        hashes.contains_key(key) ==> exists|b: int, m: int|
            done.contains(b) && is_credited(bundles[b]) && #[trigger] is_key_of(bundles, full_ids, b, m, key)
    &&& forall|b: int, m: int|
        done.contains(b) && 0 <= b < bundles.len() && is_credited(bundles[b]) && 0 <= m
            < bundles[b].derivations.len() ==> #[trigger] entry_is_right(bundles, full_ids, hashes, b, m)
}

/// Whether the full identifiers of records of different bundles differ.
pub open spec fn keys_are_apart(bundles: Seq<BundleView>, full_ids: Seq<Seq<char>>) -> bool {
    forall|b: int, m: int, c: int, k: int|
        0 <= b < bundles.len() && 0 <= c < bundles.len() && b != c && 0 <= m < bundles[b].derivations.len() && 0
            <= k < bundles[c].derivations.len() ==> #[trigger] full_ids[bundles[b].derivations[m]]
            != #[trigger] full_ids[bundles[c].derivations[k]]
}

/// The bundles that are dealt with: before `next`, and not being fetched.
pub open spec fn done_of(s: PrefetcherView) -> Set<int> {
    Set::new(|b: int| 0 <= b < s.next && !s.queue.contains(b))
}

/// What holds of every state of a run.
pub open spec fn run_invariant(s: PrefetcherView) -> bool {
    &&& s.wf()
    &&& forall|b: int| 0 <= b < s.bundles.len() ==> (#[trigger] s.bundles[b]).derivations.len() > 0
    &&& keys_are_apart(s.bundles, s.full_ids)
    &&& forall|x: int, y: int| 0 <= x < y < s.queue.len() ==> s.queue[x] < s.queue[y]
    &&& hashes_fit(s.bundles, s.full_ids, s.hashes, done_of(s))
}

/// What entering a hash for the records of a bundle makes of the fetched hashes.
proof fn lemma_entered(
    hashes: Map<Seq<char>, Seq<char>>,
    full_ids: Seq<Seq<char>>,
    members: Seq<int>,
    hash: Seq<char>,
    n: int,
)
    requires
        0 <= n <= members.len(),
    ensures
        forall|key: Seq<char>| #[trigger]
            entered(hashes, full_ids, members, hash, n).contains_key(key) <==> hashes.contains_key(key) || exists|
                m: int,
            |
                0 <= m < n && key == full_ids[#[trigger] members[m]],
        forall|m: int|
            0 <= m < n ==> entered(hashes, full_ids, members, hash, n)[full_ids[#[trigger] members[m]]] == hash,
        forall|key: Seq<char>|
            hashes.contains_key(key) && !(exists|m: int| 0 <= m < n && key == full_ids[#[trigger] members[m]])
                ==> #[trigger] entered(hashes, full_ids, members, hash, n)[key] == hashes[key],
    decreases n,
{
    if n > 0 {
        lemma_entered(hashes, full_ids, members, hash, n - 1);
        let before = entered(hashes, full_ids, members, hash, n - 1);
        let now = entered(hashes, full_ids, members, hash, n);
        let last = full_ids[members[n - 1]];
        assert forall|key: Seq<char>| #[trigger]
            now.contains_key(key) <==> hashes.contains_key(key) || exists|m: int|
                0 <= m < n && key == full_ids[#[trigger] members[m]] by {
            if now.contains_key(key) && !hashes.contains_key(key) {
                if key == last {
                    assert(key == full_ids[members[n - 1]]);
                } else {
                    let m = choose|m: int| 0 <= m < n - 1 && key == full_ids[#[trigger] members[m]];
                    assert(0 <= m < n && key == full_ids[members[m]]);
                }
            }
            if exists|m: int| 0 <= m < n && key == full_ids[#[trigger] members[m]] {
                let m = choose|m: int| 0 <= m < n && key == full_ids[#[trigger] members[m]];
                if m < n - 1 {
                    assert(before.contains_key(key));
                }
            }
        }
        assert forall|m: int| 0 <= m < n implies now[full_ids[#[trigger] members[m]]] == hash by {
            if m < n - 1 && full_ids[members[m]] != last {
                assert(before[full_ids[members[m]]] == hash);
            }
        }
        assert forall|key: Seq<char>|
            hashes.contains_key(key) && !(exists|m: int| 0 <= m < n && key == full_ids[#[trigger] members[m]])
            implies #[trigger] now[key] == hashes[key] by {
            assert(key != full_ids[members[n - 1]]);
            assert(!(exists|m: int| 0 <= m < n - 1 && key == full_ids[#[trigger] members[m]])) by {
                if exists|m: int| 0 <= m < n - 1 && key == full_ids[#[trigger] members[m]] {
                    let m = choose|m: int| 0 <= m < n - 1 && key == full_ids[#[trigger] members[m]];
                    assert(0 <= m < n && key == full_ids[members[m]]);
                }
            }
        }
    }
}

/// The fetched hashes still fit when a credited bundle is dealt with and
/// its hash is entered for its records.
proof fn lemma_fit_with_credited(
    bundles: Seq<BundleView>,
    full_ids: Seq<Seq<char>>,
    hashes: Map<Seq<char>, Seq<char>>,
    done: Set<int>,
    b: int,
    hash: Seq<char>,
)
    requires
        hashes_fit(bundles, full_ids, hashes, done),
        keys_are_apart(bundles, full_ids),
        0 <= b < bundles.len(),
        !done.contains(b),
        bundles[b].derivations.len() > 0,
        is_credited(bundles[b]),
        trimmed(hash) == hash,
        bundles[b].hash matches Some(known) ==> hash == trimmed(known.0),
    ensures
        hashes_fit(
            bundles,
            full_ids,
            entered(hashes, full_ids, bundles[b].derivations, hash, bundles[b].derivations.len() as int),
            done.insert(b),
        ),
{
    let members = bundles[b].derivations;
    let n = members.len() as int;
    let now = entered(hashes, full_ids, members, hash, n);
    lemma_entered(hashes, full_ids, members, hash, n);
    assert forall|key: Seq<char>| #[trigger] now.contains_key(key) implies exists|c: int, m: int|
        done.insert(b).contains(c) && is_credited(bundles[c]) && #[trigger] is_key_of(bundles, full_ids, c, m, key) by {
        if exists|m: int| 0 <= m < n && key == full_ids[#[trigger] members[m]] {
            let m = choose|m: int| 0 <= m < n && key == full_ids[#[trigger] members[m]];
            assert(is_key_of(bundles, full_ids, b, m, key));
        } else {
            assert(hashes.contains_key(key));
            let (c, m) = choose|c: int, m: int|
                done.contains(c) && is_credited(bundles[c]) && #[trigger] is_key_of(bundles, full_ids, c, m, key);
            assert(done.insert(b).contains(c) && is_key_of(bundles, full_ids, c, m, key));
        }
    }
    assert forall|c: int, m: int|
        done.insert(b).contains(c) && 0 <= c < bundles.len() && is_credited(bundles[c]) && 0 <= m
            < bundles[c].derivations.len() implies #[trigger] entry_is_right(bundles, full_ids, now, c, m) by {
        let key = full_ids[bundles[c].derivations[m]];
        let first = full_ids[bundles[c].derivations[0]];
        if c == b {
            assert(now[full_ids[members[m]]] == hash);
            assert(now[full_ids[members[0]]] == hash);
        } else {
            assert(entry_is_right(bundles, full_ids, hashes, c, m));
            assert(entry_is_right(bundles, full_ids, hashes, c, 0));
            assert forall|x: int| 0 <= x < n implies key != full_ids[#[trigger] members[x]] by {
                assert(full_ids[bundles[c].derivations[m]] != full_ids[bundles[b].derivations[x]]);
            }
            assert forall|x: int| 0 <= x < n implies first != full_ids[#[trigger] members[x]] by {
                assert(full_ids[bundles[c].derivations[0]] != full_ids[bundles[b].derivations[x]]);
            }
        }
    }
}

/// The fetched hashes still fit when a bundle is dealt with whose hash is not kept.
proof fn lemma_fit_with_other(
    bundles: Seq<BundleView>,
    full_ids: Seq<Seq<char>>,
    hashes: Map<Seq<char>, Seq<char>>,
    done: Set<int>,
    b: int,
)
    requires
        hashes_fit(bundles, full_ids, hashes, done),
        !is_credited(bundles[b]),
    ensures
        hashes_fit(bundles, full_ids, hashes, done.insert(b)),
{
    assert forall|key: Seq<char>| #[trigger] hashes.contains_key(key) implies exists|c: int, m: int|
        done.insert(b).contains(c) && is_credited(bundles[c]) && #[trigger] is_key_of(bundles, full_ids, c, m, key) by {
        let (c, m) = choose|c: int, m: int|
            done.contains(c) && is_credited(bundles[c]) && #[trigger] is_key_of(bundles, full_ids, c, m, key);
        assert(done.insert(b).contains(c) && is_key_of(bundles, full_ids, c, m, key));
    }
}

/// Dealing with the bundles whose hash is known keeps what holds of every state.
proof fn lemma_settled(s: PrefetcherView)
    requires
        run_invariant(s),
    ensures
        run_invariant(s.settled()),
        s.settled().bundles == s.bundles,
        s.settled().full_ids == s.full_ids,
        s.settled().jobs == s.jobs,
        s.settled().cache == s.cache,
        s.settled().queue == s.queue,
        s.settled().started == s.started,
        s.settled().records.len() == s.records.len(),
        s.next <= s.settled().next <= s.bundles.len(),
        s.settled().next < s.bundles.len() ==> s.bundles[s.settled().next].hash is None,
        forall|b: int| s.next <= b < s.settled().next ==> (#[trigger] s.bundles[b]).hash is Some,
    decreases s.bundles.len() - s.next,
{
    if 0 <= s.next < s.bundles.len() && s.bundles[s.next].hash is Some {
        let known = s.bundles[s.next].hash->0;
        let hash = trimmed(known.0);
        let applied = s.applied(s.next, hash, known.1);
        let t = PrefetcherView { next: s.next + 1, ..applied };
        lemma_trimmed_twice(known.0);
        lemma_unknown_upto(s.bundles, s.next + 1);
        assert(done_of(t) =~= done_of(s).insert(s.next)) by {
            assert forall|b: int| done_of(t).contains(b) <==> done_of(s).insert(s.next).contains(b) by {
                if b == s.next && s.queue.contains(b) {
                    let x = s.queue.index_of(b);
                    assert(s.queue[x] < s.next);
                }
            }
        }
        assert(!done_of(s).contains(s.next));
        if known.1 == HashSource::Prefetched {
            lemma_fit_with_credited(s.bundles, s.full_ids, s.hashes, done_of(s), s.next, hash);
        } else {
            lemma_fit_with_other(s.bundles, s.full_ids, s.hashes, done_of(s), s.next);
        }
        assert(run_invariant(t));
        lemma_settled(t);
    }
}

/// An event that fits the state keeps what holds of every state.
proof fn lemma_after_event(s: PrefetcherView, e: EventView)
    requires
        run_invariant(s),
        s.next < s.bundles.len() ==> s.bundles[s.next].hash is None,
        after_event(s, e) is Some,
    ensures
        run_invariant(after_event(s, e)->0),
        after_event(s, e)->0.bundles == s.bundles,
        after_event(s, e)->0.full_ids == s.full_ids,
        after_event(s, e)->0.jobs == s.jobs,
        after_event(s, e)->0.cache == s.cache,
        after_event(s, e)->0.records.len() == s.records.len(),
        after_event(s, e)->0.next < s.bundles.len() ==> s.bundles[after_event(s, e)->0.next].hash is None,
{
    match e {
        EventView::Started => {
            let t = PrefetcherView {
                queue: s.queue.push(s.next),
                next: s.next + 1,
                started: s.started + 1,
                ..s
            };
            lemma_unknown_upto(s.bundles, s.next + 1);
            assert(done_of(t) =~= done_of(s)) by {
                assert forall|b: int| done_of(t).contains(b) <==> done_of(s).contains(b) by {
                    if 0 <= b < s.next {
                        if s.queue.contains(b) {
                            let x = s.queue.index_of(b);
                            assert(t.queue[x] == b);
                        }
                        if t.queue.contains(b) {
                            let x = t.queue.index_of(b);
                            assert(s.queue[x] == b);
                        }
                    }
                    if b == s.next {
                        assert(t.queue[s.queue.len() as int] == b);
                    }
                }
            }
            assert(run_invariant(t));
            lemma_settled(t);
        },
        EventView::Completed(output) => {
            let b = s.queue[0];
            let hash = hash_of_output(s.bundles[b].source, output.success, output.code, output.stdout)->Ok_0;
            assert(trimmed(hash) == hash) by {
                match output.stdout {
                    Some(text) => {
                        lemma_trimmed_twice(text);
                        if s.bundles[b].source is Git {
                            let field = crate::bindings::json_field(trimmed(text), "sha256"@);
                            lemma_trimmed_twice(field->0);
                        }
                    },
                    None => {},
                }
            }
            let w = s.without_oldest();
            let t = s.after_completion(hash);
            assert(done_of(w) =~= done_of(s).insert(b)) by {
                assert forall|c: int| done_of(w).contains(c) <==> done_of(s).insert(b).contains(c) by {
                    if 0 <= c < s.next {
                        if s.queue.contains(c) && c != b {
                            let x = s.queue.index_of(c);
                            assert(w.queue[x - 1] == c);
                        }
                        if w.queue.contains(c) {
                            let x = w.queue.index_of(c);
                            assert(s.queue[x + 1] == c);
                            assert(s.queue[0] < s.queue[x + 1]);
                        }
                    }
                }
            }
            assert(!done_of(s).contains(b)) by {
                assert(s.queue[0] == b);
            }
            lemma_fit_with_credited(s.bundles, s.full_ids, s.hashes, done_of(s), b, hash);
            assert(done_of(t) == done_of(w));
            assert forall|q: int| 0 <= q < t.queue.len() implies 0 <= (#[trigger] t.queue[q]) < t.next
                && t.bundles[t.queue[q]].hash is None by {
                assert(t.queue[q] == s.queue[q + 1]);
            }
            assert forall|x: int, y: int| 0 <= x < y < t.queue.len() implies t.queue[x] < t.queue[y] by {
                assert(t.queue[x] == s.queue[x + 1] && t.queue[y] == s.queue[y + 1]);
            }
            assert(run_invariant(t));
        },
    }
}

/// Whether the full identifiers of different records differ, as those of resolved packages do.
pub open spec fn full_ids_are_distinct(full_ids: Seq<Seq<char>>) -> bool {
    forall|i: int, j: int|
        0 <= i < full_ids.len() && 0 <= j < full_ids.len() && i != j ==> #[trigger] full_ids[i]
            != #[trigger] full_ids[j]
}

/// The state in which the work begins has what holds of every state.
proof fn lemma_initial_state(
    jobs: int,
    records: Seq<CrateDerivationView>,
    full_ids: Seq<Seq<char>>,
    lock: Map<Seq<char>, Seq<char>>,
    cache: Map<Seq<char>, Seq<char>>,
)
    requires
        jobs >= 1,
        full_ids.len() == records.len(),
        full_ids_are_distinct(full_ids),
    ensures
        run_invariant(initial_state(jobs, records, full_ids, lock, cache)),
        initial_state(jobs, records, full_ids, lock, cache).bundles == plan(records, full_ids, lock, cache),
        initial_state(jobs, records, full_ids, lock, cache).full_ids == full_ids,
        initial_state(jobs, records, full_ids, lock, cache).jobs == jobs,
        initial_state(jobs, records, full_ids, lock, cache).cache == cache,
        initial_state(jobs, records, full_ids, lock, cache).queue.len() == 0,
        initial_state(jobs, records, full_ids, lock, cache).started == 0,
        initial_state(jobs, records, full_ids, lock, cache).records.len() == records.len(),
        initial_state(jobs, records, full_ids, lock, cache).next < plan(records, full_ids, lock, cache).len()
            ==> plan(records, full_ids, lock, cache)[initial_state(
            jobs,
            records,
            full_ids,
            lock,
            cache,
        ).next].hash is None,
        forall|b: int|
            0 <= b < initial_state(jobs, records, full_ids, lock, cache).next ==> (#[trigger] plan(
                records,
                full_ids,
                lock,
                cache,
            )[b]).hash is Some,
{
    let p = plan(records, full_ids, lock, cache);
    let start = PrefetcherView {
        jobs,
        records,
        full_ids,
        bundles: p,
        cache,
        hashes: Map::empty(),
        next: 0,
        queue: Seq::empty(),
        started: 0,
    };
    lemma_plan_structure(records, full_ids, lock, cache);
    assert forall|b: int, k: int| 0 <= b < p.len() && 0 <= k < p[b].derivations.len() implies 0 <= (
    #[trigger] p[b].derivations[k]) < records.len() && records[p[b].derivations[k]].source.identity()
        == p[b].source by {
        lemma_members(records, p[b].source, records.len() as int);
    }
    assert(keys_are_apart(p, full_ids)) by {
        assert forall|b: int, m: int, c: int, k: int|
            0 <= b < p.len() && 0 <= c < p.len() && b != c && 0 <= m < p[b].derivations.len() && 0 <= k
                < p[c].derivations.len() implies #[trigger] full_ids[p[b].derivations[m]]
            != #[trigger] full_ids[p[c].derivations[k]] by {
            assert(records[p[b].derivations[m]].source.identity() == p[b].source);
            assert(records[p[c].derivations[k]].source.identity() == p[c].source);
            assert(p[b].source != p[c].source);
        }
    }
    assert(done_of(start) =~= Set::<int>::empty());
    assert(run_invariant(start));
    lemma_settled(start);
}

/// Every state of a run has what holds of every state.
proof fn lemma_after_events(
    jobs: int,
    records: Seq<CrateDerivationView>,
    full_ids: Seq<Seq<char>>,
    lock: Map<Seq<char>, Seq<char>>,
    cache: Map<Seq<char>, Seq<char>>,
    events: Seq<EventView>,
    n: int,
)
    requires
        jobs >= 1,
        full_ids.len() == records.len(),
        full_ids_are_distinct(full_ids),
        0 <= n <= events.len(),
        after_events(initial_state(jobs, records, full_ids, lock, cache), events, n) is Some,
    ensures
        ({
            let s = after_events(initial_state(jobs, records, full_ids, lock, cache), events, n)->0;
            &&& run_invariant(s)
            &&& s.bundles == plan(records, full_ids, lock, cache)
            &&& s.full_ids == full_ids
            &&& s.next < s.bundles.len() ==> s.bundles[s.next].hash is None
        }),
    decreases n,
{
    lemma_initial_state(jobs, records, full_ids, lock, cache);
    if n > 0 {
        lemma_after_events(jobs, records, full_ids, lock, cache, events, n - 1);
        let before = after_events(initial_state(jobs, records, full_ids, lock, cache), events, n - 1)->0;
        lemma_after_event(before, events[n - 1]);
    }
}

/// The cache holds a hash for one of the records `members[from..]`
/// exactly if it holds one under the full identifier of one of them.
proof fn lemma_first_cached(
    full_ids: Seq<Seq<char>>,
    cache: Map<Seq<char>, Seq<char>>,
    members: Seq<int>,
    from: int,
)
    requires
        0 <= from <= members.len(),
    ensures
        first_cached(full_ids, cache, members, from) is None <==> forall|m: int|
            from <= m < members.len() ==> !cache.contains_key(full_ids[#[trigger] members[m]]),
        from < members.len() && cache.contains_key(full_ids[members[from]]) ==> first_cached(
            full_ids,
            cache,
            members,
            from,
        ) == Some(cache[full_ids[members[from]]]),
    decreases members.len() - from,
{
    if from < members.len() {
        lemma_first_cached(full_ids, cache, members, from + 1);
    }
}

/// A plan has the heads, the sources and the records of the plan for
/// another cache: only the known hashes depend on the cache.
proof fn lemma_plan_for_other_cache(
    records: Seq<CrateDerivationView>,
    full_ids: Seq<Seq<char>>,
    lock: Map<Seq<char>, Seq<char>>,
    one: Map<Seq<char>, Seq<char>>,
    other: Map<Seq<char>, Seq<char>>,
    n: int,
)
    requires
        0 <= n <= records.len(),
    ensures
        plan_upto(records, full_ids, lock, one, n).len() == plan_upto(records, full_ids, lock, other, n).len(),
        forall|b: int|
            0 <= b < plan_upto(records, full_ids, lock, one, n).len() ==> {
                &&& (#[trigger] plan_upto(records, full_ids, lock, one, n)[b]).source == plan_upto(
                    records,
                    full_ids,
                    lock,
                    other,
                    n,
                )[b].source
                &&& plan_upto(records, full_ids, lock, one, n)[b].derivations == plan_upto(
                    records,
                    full_ids,
                    lock,
                    other,
                    n,
                )[b].derivations
            },
    decreases n,
{
    if n > 0 {
        lemma_plan_for_other_cache(records, full_ids, lock, one, other, n - 1);
    }
}

/// The hash of a known hash.
spec fn first_of(known: Option<(Seq<char>, HashSource)>) -> Seq<char> {
    match known {
        Some(known) => known.0,
        None => Seq::empty(),
    }
}

/// Dealing with bundles whose hashes are all known leaves nothing to fetch.
proof fn lemma_settled_all_known(s: PrefetcherView)
    requires
        0 <= s.next <= s.bundles.len(),
        forall|b: int| s.next <= b < s.bundles.len() ==> (#[trigger] s.bundles[b]).hash is Some,
    ensures
        s.settled().next == s.bundles.len(),
        s.settled().queue == s.queue,
        s.settled().started == s.started,
        s.settled().bundles == s.bundles,
    decreases s.bundles.len() - s.next,
{
    if s.next < s.bundles.len() {
        let known = s.bundles[s.next].hash->0;
        let t = PrefetcherView { next: s.next + 1, ..s.applied(s.next, trimmed(known.0), known.1) };
        lemma_settled_all_known(t);
    }
}

/// A run that is repeated on the same records, with the fetched hashes
/// of the first run as its cache, starts no fetch and ends with the same
/// fetched hashes.
///
/// The first run begins with any cache, takes any sequence of events that
/// fit, whatever the fetch commands print, and has come to its end. The
/// records have full identifiers that differ from one another.
pub proof fn law_second_run_fetches_nothing(
    jobs: int,
    records: Seq<CrateDerivationView>,
    full_ids: Seq<Seq<char>>,
    lock: Map<Seq<char>, Seq<char>>,
    cache: Map<Seq<char>, Seq<char>>,
    events: Seq<EventView>,
)
    requires
        jobs >= 1,
        full_ids.len() == records.len(),
        full_ids_are_distinct(full_ids),
        after_events(initial_state(jobs, records, full_ids, lock, cache), events, events.len() as int) is Some,
        after_events(
            initial_state(jobs, records, full_ids, lock, cache),
            events,
            events.len() as int,
        )->0.action() is Finish,
    ensures
        ({
            let end = after_events(
                initial_state(jobs, records, full_ids, lock, cache),
                events,
                events.len() as int,
            )->0;
            let again = initial_state(jobs, records, full_ids, lock, end.hashes);
            &&& again.action() is Finish
            &&& again.started == 0
            &&& again.hashes == end.hashes
        }),
{
    let end = after_events(initial_state(jobs, records, full_ids, lock, cache), events, events.len() as int)->0;
    lemma_after_events(jobs, records, full_ids, lock, cache, events, events.len() as int);
    let first = plan(records, full_ids, lock, cache);
    let second = plan(records, full_ids, lock, end.hashes);
    let n = records.len() as int;
    lemma_plan_for_other_cache(records, full_ids, lock, cache, end.hashes, n);
    lemma_plan_structure(records, full_ids, lock, cache);
    lemma_plan_structure(records, full_ids, lock, end.hashes);
    // The first run has dealt with every bundle.
    assert(end.next == first.len() && end.queue.len() == 0);
    assert forall|b: int| 0 <= b < first.len() implies done_of(end).contains(b) by {
        if end.queue.contains(b) {
            let x = end.queue.index_of(b);
        }
    }
    // What is known for each bundle in the second run.
    assert forall|b: int| 0 <= b < second.len() implies (#[trigger] second[b]).hash is Some && is_credited(second[b])
        == is_credited(first[b]) && (is_credited(first[b]) ==> first_of(second[b].hash)
        == end.hashes[full_ids[first[b].derivations[0]]]) by {
        let members = first[b].derivations;
        assert(second[b].derivations == members);
        lemma_first_cached(full_ids, end.hashes, members, 0);
        lemma_first_cached(full_ids, cache, members, 0);
        if first_locked(records, lock, members, 0) is Some {
        } else if is_credited(first[b]) {
            assert(entry_is_right(first, full_ids, end.hashes, b, 0));
        } else {
            // The hash came with a record: the fetched hashes hold nothing for the bundle.
            assert forall|m: int| 0 <= m < members.len() implies !end.hashes.contains_key(
                full_ids[#[trigger] members[m]],
            ) by {
                let key = full_ids[members[m]];
                if end.hashes.contains_key(key) {
                    let (c, k) = choose|c: int, k: int|
                        done_of(end).contains(c) && is_credited(first[c]) && #[trigger] is_key_of(
                            first,
                            full_ids,
                            c,
                            k,
                            key,
                        );
                    assert(full_ids[first[c].derivations[k]] == full_ids[first[b].derivations[m]]);
                }
            }
        }
    }
    let again = initial_state(jobs, records, full_ids, lock, end.hashes);
    lemma_initial_state(jobs, records, full_ids, lock, end.hashes);
    let start = PrefetcherView {
        jobs,
        records,
        full_ids,
        bundles: second,
        cache: end.hashes,
        hashes: Map::empty(),
        next: 0,
        queue: Seq::empty(),
        started: 0,
    };
    lemma_settled_all_known(start);
    assert(again.next == second.len());
    assert forall|b: int| 0 <= b < second.len() implies done_of(again).contains(b) by {
        if again.queue.contains(b) {
            let x = again.queue.index_of(b);
        }
    }
    assert forall|key: Seq<char>| again.hashes.contains_key(key) <==> end.hashes.contains_key(key) by {
        if again.hashes.contains_key(key) {
            let (b, m) = choose|b: int, m: int|
                done_of(again).contains(b) && is_credited(second[b]) && #[trigger] is_key_of(
                    second,
                    full_ids,
                    b,
                    m,
                    key,
                );
            assert(entry_is_right(first, full_ids, end.hashes, b, m));
        }
        if end.hashes.contains_key(key) {
            let (b, m) = choose|b: int, m: int|
                done_of(end).contains(b) && is_credited(first[b]) && #[trigger] is_key_of(first, full_ids, b, m, key);
            assert(entry_is_right(second, full_ids, again.hashes, b, m));
        }
    }
    assert forall|key: Seq<char>| again.hashes.contains_key(key) implies again.hashes[key] == end.hashes[key] by {
        let (b, m) = choose|b: int, m: int|
            done_of(again).contains(b) && is_credited(second[b]) && #[trigger] is_key_of(second, full_ids, b, m, key);
        assert(entry_is_right(first, full_ids, end.hashes, b, m));
        assert(entry_is_right(first, full_ids, end.hashes, b, 0));
        assert(entry_is_right(second, full_ids, again.hashes, b, m));
    }
    assert(again.hashes =~= end.hashes);
}

} // verus!
