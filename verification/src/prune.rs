//! Which build records a build needs: those that can be reached from the
//! root and the workspace members along the dependencies.

use vstd::prelude::*;
use crate::derivation::{CrateDerivation, CrateDerivationView};
use crate::resolve::{ResolvedDependency, ResolvedDependencyView};
use crate::text::same_text;

verus! {

/// Whether a record names the package `id` among its dependencies, be it
/// for the package itself, for its build script or for its tests.
pub open spec fn depends_on(record: CrateDerivationView, id: Seq<char>) -> bool {
    ||| exists|i: int| 0 <= i < record.dependencies.len() && (#[trigger] record.dependencies[i]).package_id == id
    ||| exists|i: int|
        0 <= i < record.build_dependencies.len() && (#[trigger] record.build_dependencies[i]).package_id == id
    ||| exists|i: int|
        0 <= i < record.dev_dependencies.len() && (#[trigger] record.dev_dependencies[i]).package_id == id
}

/// Whether a record of the package `from` names the package `to` among its dependencies.
pub open spec fn has_edge(records: Seq<CrateDerivationView>, from: Seq<char>, to: Seq<char>) -> bool {
    exists|i: int| 0 <= i < records.len() && (#[trigger] records[i]).package_id == from && depends_on(records[i], to)
}

/// The packages that are reached from the roots in at most `k` steps along the dependencies.
pub open spec fn reached_within(records: Seq<CrateDerivationView>, roots: Seq<Seq<char>>, k: nat) -> Set<Seq<char>>
    decreases k,
{
    if k == 0 {
        roots.to_set()
    } else {
        let before = reached_within(records, roots, (k - 1) as nat);
        Set::new(
            |to: Seq<char>|
                before.contains(to) || exists|from: Seq<char>| before.contains(from) && #[trigger] has_edge(records, from, to),
        )
    }
}

/// Whether a package is reached from the roots along the dependencies.
pub open spec fn is_reachable(records: Seq<CrateDerivationView>, roots: Seq<Seq<char>>, id: Seq<char>) -> bool {
    exists|k: nat| (#[trigger] reached_within(records, roots, k)).contains(id)
}

/// The records of the packages that are reached from the roots.
pub open spec fn needed(records: Seq<CrateDerivationView>, roots: Seq<Seq<char>>) -> spec_fn(
    CrateDerivationView,
) -> bool {
    |record: CrateDerivationView| is_reachable(records, roots, record.package_id)
}

/// The number of marks among the first `n`.
pub open spec fn count_marked(marks: Seq<bool>, n: int) -> int
    decreases n,
{
    if n <= 0 {
        0
    } else {
        count_marked(marks, n - 1) + if marks[n - 1] {
            1int
        } else {
            0int
        }
    }
}

proof fn lemma_count_marked(marks: Seq<bool>, n: int)
    requires
        0 <= n <= marks.len(),
    ensures
        0 <= count_marked(marks, n) <= n,
    decreases n,
{
    if n > 0 {
        lemma_count_marked(marks, n - 1);
    }
}

proof fn lemma_count_after_mark(marks: Seq<bool>, j: int, n: int)
    requires
        0 <= j < marks.len(),
        0 <= n <= marks.len(),
        !marks[j],
    ensures
        count_marked(marks.update(j, true), n) == count_marked(marks, n) + if j < n {
            1int
        } else {
            0int
        },
    decreases n,
{
    if n > 0 {
        lemma_count_after_mark(marks, j, n - 1);
    }
}

/// Marks the records of the package `id` that are not marked yet and
/// puts them on the stack of records to look at.
fn mark_package(
    crates: &Vec<CrateDerivation>,
    id: &str,
    marks: &mut Vec<bool>,
    stack: &mut Vec<usize>,
    count: &mut usize,
)
    requires
        old(marks).len() == crates.len(),
        *old(count) == count_marked(old(marks)@, crates.len() as int),
        forall|x: int| 0 <= x < old(stack).len() ==> old(stack)[x] < crates.len() && old(marks)[old(stack)[x] as int],
    ensures
        final(marks).len() == crates.len(),
        *final(count) == count_marked(final(marks)@, crates.len() as int),
        forall|j: int| 0 <= j < crates.len() ==> (#[trigger] final(marks)[j]) == (old(marks)[j] || crates.deep_view()[j].package_id == id@),
        forall|x: int| 0 <= x < final(stack).len() ==> final(stack)[x] < crates.len() && final(marks)[final(stack)[x] as int],
        final(stack).len() - old(stack).len() == *final(count) - *old(count),
        final(stack).len() >= old(stack).len(),
        forall|x: int| 0 <= x < old(stack).len() ==> final(stack)[x] == old(stack)[x],
        forall|j: int|
            0 <= j < crates.len() && final(marks)[j] && !old(marks)[j] ==> exists|x: int|
                old(stack).len() <= x < final(stack).len() && #[trigger] final(stack)[x] == j,
{
    let ghost start_marks = marks@;
    let ghost start_stack = stack@;
    let ghost start_count = *count as int;
    let mut j: usize = 0;
    while j < crates.len()
        invariant
            j <= crates.len(),
            marks.len() == crates.len(),
            start_marks.len() == crates.len(),
            *count == count_marked(marks@, crates.len() as int),
            forall|x: int| 0 <= x < j ==> (#[trigger] marks[x]) == (start_marks[x] || crates.deep_view()[x].package_id == id@),
            forall|x: int| j <= x < crates.len() ==> (#[trigger] marks[x]) == start_marks[x],
            forall|x: int| 0 <= x < stack.len() ==> stack[x] < crates.len() && marks[stack[x] as int],
            stack.len() - start_stack.len() == *count - start_count,
            stack.len() >= start_stack.len(),
            forall|x: int| 0 <= x < start_stack.len() ==> stack[x] == start_stack[x],
            forall|y: int|
                0 <= y < j && marks[y] && !start_marks[y] ==> exists|x: int|
                    start_stack.len() <= x < stack.len() && #[trigger] stack[x] == y,
        decreases crates.len() - j,
    {
        assert(crates.deep_view()[j as int] == crates[j as int]@);
        if !marks[j] && same_text(crates[j].package_id.repr.as_str(), id) {
            proof {
                lemma_count_after_mark(marks@, j as int, crates.len() as int);
                lemma_count_marked(marks@.update(j as int, true), crates.len() as int);
            }
            let ghost before_stack = stack@;
            marks.set(j, true);
            stack.push(j);
            *count = *count + 1;
            proof {
                assert(stack[before_stack.len() as int] == j);
                assert forall|y: int| 0 <= y < j + 1 && marks[y] && !start_marks[y] implies exists|x: int|
                    start_stack.len() <= x < stack.len() && #[trigger] stack[x] == y by {
                    if y < j {
                        let x = choose|x: int| start_stack.len() <= x < before_stack.len() && #[trigger] before_stack[x] == y;
                        assert(stack[x] == y);
                    } else {
                        assert(stack[before_stack.len() as int] == y);
                    }
                }
            }
        }
        j = j + 1;
    }
}


/// Whether a list of dependencies names the package `id`.
pub open spec fn names_package(list: Seq<ResolvedDependencyView>, id: Seq<char>) -> bool {
    exists|i: int| 0 <= i < list.len() && (#[trigger] list[i]).package_id == id
}

/// Marks the records of the packages that a list of dependencies names.
fn mark_dependencies(
    crates: &Vec<CrateDerivation>,
    list: &Vec<ResolvedDependency>,
    marks: &mut Vec<bool>,
    stack: &mut Vec<usize>,
    count: &mut usize,
)
    requires
        old(marks).len() == crates.len(),
        *old(count) == count_marked(old(marks)@, crates.len() as int),
        forall|x: int| 0 <= x < old(stack).len() ==> old(stack)[x] < crates.len() && old(marks)[old(stack)[x] as int],
    ensures
        final(marks).len() == crates.len(),
        *final(count) == count_marked(final(marks)@, crates.len() as int),
        forall|j: int|
            0 <= j < crates.len() ==> (#[trigger] final(marks)[j]) == (old(marks)[j] || names_package(
                list.deep_view(),
                crates.deep_view()[j].package_id,
            )),
        forall|x: int| 0 <= x < final(stack).len() ==> final(stack)[x] < crates.len() && final(marks)[final(stack)[x] as int],
        final(stack).len() - old(stack).len() == *final(count) - *old(count),
        final(stack).len() >= old(stack).len(),
        forall|x: int| 0 <= x < old(stack).len() ==> final(stack)[x] == old(stack)[x],
        forall|j: int|
            0 <= j < crates.len() && final(marks)[j] && !old(marks)[j] ==> exists|x: int|
                old(stack).len() <= x < final(stack).len() && #[trigger] final(stack)[x] == j,
{
    let ghost start_marks = marks@;
    let ghost start_stack = stack@;
    let ghost start_count = *count as int;
    let ghost all = list.deep_view();
    let mut d: usize = 0;
    while d < list.len()
        invariant
            d <= list.len(),
            all == list.deep_view(),
            marks.len() == crates.len(),
            start_marks.len() == crates.len(),
            *count == count_marked(marks@, crates.len() as int),
            forall|j: int|
                0 <= j < crates.len() ==> (#[trigger] marks[j]) == (start_marks[j] || names_package(
                    all.take(d as int),
                    crates.deep_view()[j].package_id,
                )),
            forall|x: int| 0 <= x < stack.len() ==> stack[x] < crates.len() && marks[stack[x] as int],
            stack.len() - start_stack.len() == *count - start_count,
            stack.len() >= start_stack.len(),
            forall|x: int| 0 <= x < start_stack.len() ==> stack[x] == start_stack[x],
            forall|j: int|
                0 <= j < crates.len() && marks[j] && !start_marks[j] ==> exists|x: int|
                    start_stack.len() <= x < stack.len() && #[trigger] stack[x] == j,
        decreases list.len() - d,
    {
        let ghost before_marks = marks@;
        let ghost before_stack = stack@;
        assert(all[d as int] == list[d as int]@);
        mark_package(crates, list[d].package_id.repr.as_str(), marks, stack, count);
        proof {
            assert forall|j: int| 0 <= j < crates.len() implies (#[trigger] marks[j]) == (start_marks[j]
                || names_package(all.take(d + 1), crates.deep_view()[j].package_id)) by {
                let id = crates.deep_view()[j].package_id;
                if names_package(all.take(d + 1), id) {
                    let i = choose|i: int| 0 <= i < d + 1 && (#[trigger] all.take(d + 1)[i]).package_id == id;
                    if i < d {
                        assert(all.take(d as int)[i].package_id == id);
                    }
                }
                if names_package(all.take(d as int), id) {
                    let i = choose|i: int| 0 <= i < d && (#[trigger] all.take(d as int)[i]).package_id == id;
                    assert(all.take(d + 1)[i].package_id == id);
                }
                if all[d as int].package_id == id {
                    assert(all.take(d + 1)[d as int].package_id == id);
                }
            }
            assert forall|j: int| 0 <= j < crates.len() && marks[j] && !start_marks[j] implies exists|x: int|
                start_stack.len() <= x < stack.len() && #[trigger] stack[x] == j by {
                if before_marks[j] {
                    let x = choose|x: int| start_stack.len() <= x < before_stack.len() && #[trigger] before_stack[x] == j;
                    assert(stack[x] == j);
                }
            }
        }
        d = d + 1;
    }
    assert(all.take(list.len() as int) =~= all);
}

/// Marks that hold for the roots and go along every dependency hold for all that is reached.
proof fn lemma_closed_marks(records: Seq<CrateDerivationView>, roots: Seq<Seq<char>>, marks: Seq<bool>, k: nat)
    requires
        marks.len() == records.len(),
        forall|j: int| 0 <= j < records.len() && roots.contains((#[trigger] records[j]).package_id) ==> marks[j],
        forall|i: int, j: int|
            0 <= i < records.len() && 0 <= j < records.len() && marks[i] && depends_on(
                #[trigger] records[i],
                (#[trigger] records[j]).package_id,
            ) ==> marks[j],
    ensures
        forall|j: int|
            0 <= j < records.len() && reached_within(records, roots, k).contains((#[trigger] records[j]).package_id)
                ==> marks[j],
    decreases k,
{
    if k > 0 {
        lemma_closed_marks(records, roots, marks, (k - 1) as nat);
        let before = reached_within(records, roots, (k - 1) as nat);
        assert forall|j: int|
            0 <= j < records.len() && reached_within(records, roots, k).contains(
                (#[trigger] records[j]).package_id,
            ) implies marks[j] by {
            let to = records[j].package_id;
            if !before.contains(to) {
                let from = choose|from: Seq<char>| before.contains(from) && #[trigger] has_edge(records, from, to);
                let i = choose|i: int|
                    0 <= i < records.len() && (#[trigger] records[i]).package_id == from && depends_on(records[i], to);
                assert(marks[i]);
            }
        }
    }
}

/// Keeps the records of the packages that can be reached from the roots
/// along the dependencies, in their order.
pub fn prune(crates: Vec<CrateDerivation>, roots: &Vec<String>) -> (r: Vec<CrateDerivation>)
    ensures
        r.deep_view() == crates.deep_view().filter(needed(crates.deep_view(), roots.deep_view())),
{
    let ghost records = crates.deep_view();
    let ghost root_ids = roots.deep_view();
    let n = crates.len();
    let mut marks: Vec<bool> = Vec::new();
    let mut i: usize = 0;
    while i < n
        invariant
            i <= n,
            marks.len() == i,
            forall|j: int| 0 <= j < i ==> !marks[j],
        decreases n - i,
    {
        marks.push(false);
        i = i + 1;
    }
    proof {
        lemma_count_none(marks@, n as int);
    }
    let mut stack: Vec<usize> = Vec::new();
    let mut count: usize = 0;
    let mut r: usize = 0;
    while r < roots.len()
        invariant
            r <= roots.len(),
            n == crates.len(),
            records == crates.deep_view(),
            root_ids == roots.deep_view(),
            marks.len() == n,
            count == count_marked(marks@, n as int),
            forall|j: int| 0 <= j < n ==> (#[trigger] marks[j]) == root_ids.take(r as int).contains(records[j].package_id),
            forall|x: int| 0 <= x < stack.len() ==> stack[x] < n && marks[stack[x] as int],
            stack.len() == count,
            forall|j: int| 0 <= j < n && marks[j] ==> exists|x: int| 0 <= x < stack.len() && #[trigger] stack[x] == j,
        decreases roots.len() - r,
    {
        let ghost before_marks = marks@;
        let ghost before_stack = stack@;
        assert(root_ids[r as int] == roots[r as int]@);
        mark_package(&crates, roots[r].as_str(), &mut marks, &mut stack, &mut count);
        proof {
            assert(root_ids.take(r + 1) =~= root_ids.take(r as int).push(root_ids[r as int]));
            assert forall|j: int| 0 <= j < n implies (#[trigger] marks[j]) == root_ids.take(r + 1).contains(
                records[j].package_id,
            ) by {
                let id = records[j].package_id;
                if root_ids.take(r + 1).contains(id) {
                    let x = root_ids.take(r + 1).index_of(id);
                    if x < r {
                        assert(root_ids.take(r as int)[x] == id);
                    }
                }
                if root_ids.take(r as int).contains(id) {
                    let x = root_ids.take(r as int).index_of(id);
                    assert(root_ids.take(r + 1)[x] == id);
                }
                if id == root_ids[r as int] {
                    assert(root_ids.take(r + 1)[r as int] == id);
                }
            }
            assert forall|j: int| 0 <= j < n && marks[j] implies exists|x: int|
                0 <= x < stack.len() && #[trigger] stack[x] == j by {
                if before_marks[j] {
                    let x = choose|x: int| 0 <= x < before_stack.len() && #[trigger] before_stack[x] == j;
                    assert(stack[x] == j);
                }
            }
        }
        r = r + 1;
    }
    assert(root_ids.take(roots.len() as int) =~= root_ids);
    let ghost mut done: Set<int> = Set::empty();
    proof {
        lemma_count_marked(marks@, n as int);
        assert forall|j: int| 0 <= j < n && marks[j] implies is_reachable(records, root_ids, (#[trigger] records[j]).package_id) by {
            assert(reached_within(records, root_ids, 0).contains(records[j].package_id));
        }
    }
    while stack.len() > 0
        invariant
            n == crates.len(),
            records == crates.deep_view(),
            marks.len() == n,
            count == count_marked(marks@, n as int),
            count <= n,
            forall|x: int| 0 <= x < stack.len() ==> stack[x] < n && marks[stack[x] as int],
            forall|j: int| 0 <= j < n && root_ids.contains((#[trigger] records[j]).package_id) ==> marks[j],
            forall|j: int| 0 <= j < n && marks[j] ==> is_reachable(records, root_ids, (#[trigger] records[j]).package_id),
            forall|j: int|
                0 <= j < n && marks[j] ==> done.contains(j) || exists|x: int| 0 <= x < stack.len() && #[trigger] stack[x] == j,
            forall|i: int, j: int|
                0 <= i < n && 0 <= j < n && done.contains(i) && depends_on(
                    #[trigger] records[i],
                    (#[trigger] records[j]).package_id,
                ) ==> marks[j],
            forall|i: int| done.contains(i) ==> 0 <= i < n && marks[i],
        decreases (n - count) + stack.len(),
    {
        let ghost before_marks = marks@;
        let ghost before_stack = stack@;
        let top = stack.pop().unwrap();
        let ghost after_pop = stack@;
        assert(records[top as int] == crates[top as int]@);
        mark_dependencies(&crates, &crates[top].dependencies, &mut marks, &mut stack, &mut count);
        let ghost marks_1 = marks@;
        let ghost stack_1 = stack@;
        mark_dependencies(&crates, &crates[top].build_dependencies, &mut marks, &mut stack, &mut count);
        let ghost marks_2 = marks@;
        let ghost stack_2 = stack@;
        mark_dependencies(&crates, &crates[top].dev_dependencies, &mut marks, &mut stack, &mut count);
        proof {
            lemma_count_marked(marks@, n as int);
            let record = records[top as int];
            assert forall|j: int| 0 <= j < n implies (#[trigger] marks[j]) == (before_marks[j] || depends_on(
                record,
                records[j].package_id,
            )) by {}
            // What is marked now is reached: one step behind the record looked at.
            assert forall|j: int| 0 <= j < n && marks[j] implies is_reachable(
                records,
                root_ids,
                (#[trigger] records[j]).package_id,
            ) by {
                if !before_marks[j] {
                    let k = choose|k: nat| (#[trigger] reached_within(records, root_ids, k)).contains(record.package_id);
                    assert(has_edge(records, record.package_id, records[j].package_id));
                    assert(reached_within(records, root_ids, k + 1).contains(records[j].package_id));
                }
            }
            done = done.insert(top as int);
            assert forall|j: int| 0 <= j < n && marks[j] implies done.contains(j) || exists|x: int|
                0 <= x < stack.len() && #[trigger] stack[x] == j by {
                if before_marks[j] {
                    if !done.contains(j) {
                        let x = choose|x: int| 0 <= x < before_stack.len() && #[trigger] before_stack[x] == j;
                        if x < after_pop.len() {
                            assert(stack[x] == j);
                        }
                    }
                } else if marks_1[j] {
                    let x = choose|x: int| after_pop.len() <= x < stack_1.len() && #[trigger] stack_1[x] == j;
                    assert(stack[x] == j);
                } else if marks_2[j] {
                    let x = choose|x: int| stack_1.len() <= x < stack_2.len() && #[trigger] stack_2[x] == j;
                    assert(stack[x] == j);
                } else {
                    let x = choose|x: int| stack_2.len() <= x < stack.len() && #[trigger] stack[x] == j;
                    assert(stack[x] == j);
                }
            }
        }
    }
    proof {
        assert forall|i: int, j: int|
            0 <= i < n && 0 <= j < n && marks[i] && depends_on(#[trigger] records[i], (#[trigger] records[j]).package_id)
            implies marks[j] by {
            assert(done.contains(i));
        }
        assert forall|j: int| 0 <= j < n implies (#[trigger] marks[j]) == is_reachable(
            records,
            root_ids,
            records[j].package_id,
        ) by {
            if is_reachable(records, root_ids, records[j].package_id) {
                let k = choose|k: nat| (#[trigger] reached_within(records, root_ids, k)).contains(records[j].package_id);
                lemma_closed_marks(records, root_ids, marks@, k);
            }
        }
    }
    let mut out: Vec<CrateDerivation> = Vec::new();
    let ghost pred = needed(records, root_ids);
    proof {
        reveal(Seq::filter);
        assert(records.take(0).filter(pred) =~= Seq::<CrateDerivationView>::empty());
        assert(out.deep_view() =~= Seq::<CrateDerivationView>::empty());
    }
    let ghost all = crates@;
    let mut at: usize = 0;
    for record in it: crates
        invariant
            it.seq() == all,
            all.len() == n,
            at == it.index(),
            marks.len() == n,
            records.len() == n,
            forall|j: int| 0 <= j < n ==> records[j] == (#[trigger] all[j])@,
            pred == needed(records, root_ids),
            forall|j: int| 0 <= j < n ==> (#[trigger] marks[j]) == is_reachable(records, root_ids, records[j].package_id),
            out.deep_view() == records.take(at as int).filter(pred),
    {
        let ghost before = out.deep_view();
        assert(records[at as int] == record@);
        if marks[at] {
            out.push(record);
            assert(out.deep_view() =~= before.push(records[at as int]));
        }
        proof {
            assert(records.take(at + 1) =~= records.take(at as int).push(records[at as int]));
            records.take(at as int).lemma_filter_push(records[at as int], pred);
        }
        at = at + 1;
    }
    assert(records.take(n as int) =~= records);
    out
}

/// Where nothing is marked, the number of marks is zero.
proof fn lemma_count_none(marks: Seq<bool>, n: int)
    requires
        0 <= n <= marks.len(),
        forall|i: int| 0 <= i < n ==> !marks[i],
    ensures
        count_marked(marks, n) == 0,
    decreases n,
{
    if n > 0 {
        lemma_count_none(marks, n - 1);
    }
}

} // verus!
