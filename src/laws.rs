use vstd::prelude::*;
use crate::seqs::{first_index, lemma_first_index_bounds};
use crate::aggregate::{add_to_bucket, bucket_keys, any_touched, Step, monthly_walk, commit_walk, steps_of, month_keys, ids_of, inclusion, CommitInput};
use crate::ext::{TEXT_EXTENSION_COUNT, path_slot, lemma_token_slot_bound};
use crate::stats::{Tally, apply_change, apply_changes, balanced, zero_slots, add_slots, add_tally, change_tally};

verus! {

pub open spec fn all_balanced(s: Seq<Tally>) -> bool {
    &&& s.len() == TEXT_EXTENSION_COUNT
    &&& forall|i: int| 0 <= i < s.len() ==> balanced(#[trigger] s[i])
}

proof fn lemma_changes_balanced(seen: Seq<Seq<char>>, slots: Seq<Tally>, changes: Seq<(Seq<char>, Seq<char>)>)
    requires
        all_balanced(slots),
    ensures
        all_balanced(apply_changes(seen, slots, changes).1),
    decreases changes.len(),
{
    if changes.len() > 0 {
        lemma_changes_balanced(seen, slots, changes.drop_last());
        let prev = apply_changes(seen, slots, changes.drop_last());
        lemma_token_slot_bound(crate::ext::ext_token(changes.last().0));
        let r = apply_change(prev.0, prev.1, changes.last().0, changes.last().1);
        assert forall|i: int| 0 <= i < r.1.len() implies balanced(#[trigger] r.1[i]) by {
            assert(balanced(prev.1[i]));
        }
    }
}

/// Every month bucket's net line count equals its additions less its
/// deletions, for every extension, after every commit of the walk.
pub proof fn lemma_monthly_lines_balanced(steps: Seq<Step>, n: int, k: int)
    requires
        0 <= n <= steps.len(),
        0 <= k < monthly_walk(steps.take(n)).1.len(),
    ensures
        all_balanced(monthly_walk(steps.take(n)).1[k].1),
{
    lemma_monthly_balanced(steps.take(n));
}

proof fn lemma_monthly_balanced(steps: Seq<Step>)
    ensures
        forall|k: int| 0 <= k < monthly_walk(steps).1.len() ==> all_balanced(#[trigger] monthly_walk(steps).1[k].1),
    decreases steps.len(),
{
    if steps.len() > 0 {
        lemma_monthly_balanced(steps.drop_last());
        let prev = monthly_walk(steps.drop_last());
        let s = steps.last();
        if s.1 {
            lemma_commit_step_balanced(prev.0, prev.1, s.0, s.2);
        }
    }
}

/// Every per-commit record's net line count equals its additions less its
/// deletions, for every extension.
pub proof fn lemma_commit_lines_balanced(steps: Seq<Step>, k: int)
    requires
        0 <= k < commit_walk(steps).1.len(),
    ensures
        all_balanced(commit_walk(steps).1[k].1),
    decreases steps.len(),
{
    let prev = commit_walk(steps.drop_last());
    let s = steps.last();
    if k < prev.1.len() {
        lemma_commit_lines_balanced(steps.drop_last(), k);
    } else {
        assert(all_balanced(zero_slots()));
        lemma_changes_balanced(prev.0, zero_slots(), s.2);
    }
}

/// The seen paths only grow, and hold every eligible path of the changes.
proof fn lemma_changes_seen(seen: Seq<Seq<char>>, slots: Seq<Tally>, changes: Seq<(Seq<char>, Seq<char>)>)
    ensures
        forall|x: Seq<char>| seen.contains(x) ==> apply_changes(seen, slots, changes).0.contains(x),
        forall|m: int| 0 <= m < changes.len() && (#[trigger] path_slot(changes[m].0)) is Some
            ==> apply_changes(seen, slots, changes).0.contains(changes[m].0),
        forall|x: Seq<char>| apply_changes(seen, slots, changes).0.contains(x) ==> seen.contains(x)
            || exists|m: int| 0 <= m < changes.len() && changes[m].0 == x,
    decreases changes.len(),
{
    if changes.len() > 0 {
        let c = changes.drop_last();
        lemma_changes_seen(seen, slots, c);
        let prev = apply_changes(seen, slots, c);
        let r = apply_changes(seen, slots, changes);
        let last = changes.last();
        assert forall|x: Seq<char>| prev.0.contains(x) implies r.0.contains(x) by {
            if !prev.0.contains(last.0) && path_slot(last.0) is Some {
                let j = choose|j: int| 0 <= j < prev.0.len() && prev.0[j] == x;
                assert(r.0[j] == x);
            }
        }
        assert forall|m: int| 0 <= m < changes.len() && (#[trigger] path_slot(changes[m].0)) is Some
            implies r.0.contains(changes[m].0) by {
            if m < c.len() {
                assert(c[m] == changes[m]);
                assert(prev.0.contains(c[m].0));
            } else {
                if !prev.0.contains(last.0) {
                    assert(r.0[prev.0.len() as int] == last.0);
                }
            }
        }
        assert forall|x: Seq<char>| r.0.contains(x) implies seen.contains(x)
            || exists|m: int| 0 <= m < changes.len() && changes[m].0 == x by {
            if !prev.0.contains(x) {
                assert(changes[changes.len() - 1].0 == x);
            } else if !seen.contains(x) {
                let m = choose|m: int| 0 <= m < c.len() && c[m].0 == x;
                assert(changes[m] == c[m]);
            }
        }
    }
}

proof fn lemma_walk_seen_grows(steps: Seq<Step>, j: int, k: int)
    requires
        0 <= j <= k <= steps.len(),
    ensures
        forall|x: Seq<char>| monthly_walk(steps.take(j)).0.contains(x) ==> monthly_walk(steps.take(k)).0.contains(x),
    decreases k - j,
{
    if j < k {
        lemma_walk_seen_grows(steps, j, k - 1);
        let t = steps.take(k);
        assert(t.drop_last() =~= steps.take(k - 1));
        let prev = monthly_walk(steps.take(k - 1));
        lemma_changes_seen(prev.0, zero_slots(), t.last().2);
    }
}

/// A path that a commit changed is never credited as a new file again: at
/// every later commit of the walk it is among the seen paths, so that its
/// changes there add no file.
pub proof fn lemma_first_sight_only(steps: Seq<Step>, j: int, k: int, m: int)
    requires
        0 <= j < k <= steps.len(),
        steps[j].1,
        0 <= m < steps[j].2.len(),
        path_slot(steps[j].2[m].0) is Some,
    ensures
        monthly_walk(steps.take(k)).0.contains(steps[j].2[m].0),
        forall|slots: Seq<Tally>, origins: Seq<char>|
            #[trigger] apply_change(monthly_walk(steps.take(k)).0, slots, steps[j].2[m].0, origins).1
                == slots.update(
                path_slot(steps[j].2[m].0)->0 as int,
                add_tally(slots[path_slot(steps[j].2[m].0)->0 as int], change_tally(false, origins)),
            ),
{
    let t = steps.take(j + 1);
    assert(t.drop_last() =~= steps.take(j));
    assert(t.last() == steps[j]);
    let prev = monthly_walk(steps.take(j));
    lemma_changes_seen(prev.0, zero_slots(), steps[j].2);
    assert(path_slot(steps[j].2[m].0) is Some);
    lemma_walk_seen_grows(steps, j + 1, k);
}

/// At the start of a walk nothing has been seen: in the first commit, an
/// eligible path that no earlier change of that commit named counts as a new
/// file.
pub proof fn lemma_root_paths_new(changes: Seq<(Seq<char>, Seq<char>)>, m: int)
    requires
        0 <= m < changes.len(),
        forall|i: int| 0 <= i < m ==> changes[i].0 != changes[m].0,
    ensures
        !apply_changes(Seq::empty(), zero_slots(), changes.take(m)).0.contains(changes[m].0),
{
    lemma_changes_seen(Seq::empty(), zero_slots(), changes.take(m));
    assert(!Seq::<Seq<char>>::empty().contains(changes[m].0));
    if apply_changes(Seq::empty(), zero_slots(), changes.take(m)).0.contains(changes[m].0) {
        let i = choose|i: int| 0 <= i < changes.take(m).len() && changes.take(m)[i].0 == changes[m].0;
        assert(changes.take(m)[i] == changes[i]);
    }
}

/// A changed path whose extension is not allowlisted adds to no counter and
/// is not recorded as seen.
pub proof fn lemma_ineligible_ignored(seen: Seq<Seq<char>>, slots: Seq<Tally>, path: Seq<char>, origins: Seq<char>)
    requires
        path_slot(path) is None,
    ensures
        apply_change(seen, slots, path, origins) == (seen, slots),
{
}

/// With no author patterns every commit passes the filter.
pub proof fn lemma_no_patterns_all_pass(cs: Seq<CommitInput>)
    ensures
        forall|i: int| 0 <= i < cs.len() ==> #[trigger] inclusion(Seq::empty(), cs)[i],
{
}

/// A walk in which no commit passes the filter yields no bucket and no record.
pub proof fn lemma_none_included_empty(steps: Seq<Step>)
    requires
        forall|i: int| 0 <= i < steps.len() ==> !(#[trigger] steps[i]).1,
    ensures
        monthly_walk(steps).1.len() == 0,
        commit_walk(steps).1.len() == 0,
    decreases steps.len(),
{
    if steps.len() > 0 {
        let d = steps.drop_last();
        assert forall|i: int| 0 <= i < d.len() implies !(#[trigger] d[i]).1 by {
            assert(d[i] == steps[i]);
        }
        lemma_none_included_empty(d);
    }
}

/// Two analyses of the same history with the same patterns give the same
/// buckets and the same records.
pub proof fn lemma_analysis_deterministic(
    a: Seq<CommitInput>,
    b: Seq<CommitInput>,
    pa: Seq<Seq<char>>,
    pb: Seq<Seq<char>>,
)
    requires
        a == b,
        pa == pb,
    ensures
        monthly_walk(steps_of(a, month_keys(a), inclusion(pa, a)))
            == monthly_walk(steps_of(b, month_keys(b), inclusion(pb, b))),
        commit_walk(steps_of(a, ids_of(a), inclusion(pa, a)))
            == commit_walk(steps_of(b, ids_of(b), inclusion(pb, b))),
{
}

/// A commit of the walk names `x` among its changed paths and passed the filter.
pub open spec fn touched_before(steps: Seq<Step>, j: int, x: Seq<char>) -> bool {
    exists|i: int, m: int| 0 <= i < j && steps[i].1 && 0 <= m < steps[i].2.len() && (#[trigger] steps[i].2[m]).0 == x
}

proof fn lemma_walk_seen_source(steps: Seq<Step>, j: int)
    requires
        0 <= j <= steps.len(),
    ensures
        forall|x: Seq<char>| monthly_walk(steps.take(j)).0.contains(x) ==> touched_before(steps, j, x),
    decreases j,
{
    if j > 0 {
        lemma_walk_seen_source(steps, j - 1);
        let t = steps.take(j);
        assert(t.drop_last() =~= steps.take(j - 1));
        assert(t.last() == steps[j - 1]);
        let prev = monthly_walk(steps.take(j - 1));
        lemma_changes_seen(prev.0, zero_slots(), steps[j - 1].2);
        assert forall|x: Seq<char>| monthly_walk(steps.take(j)).0.contains(x) implies touched_before(steps, j, x) by {
            if prev.0.contains(x) {
                assert(touched_before(steps, j - 1, x));
                let (i, m) = choose|i: int, m: int| 0 <= i < j - 1 && steps[i].1
                    && 0 <= m < steps[i].2.len() && (#[trigger] steps[i].2[m]).0 == x;
                assert(touched_before(steps, j, x));
            } else {
                let m = choose|m: int| 0 <= m < steps[j - 1].2.len() && (#[trigger] steps[j - 1].2[m]).0 == x;
                assert(steps[j - 1].1);
                assert(touched_before(steps, j, x));
            }
        }
    }
}

/// The first change of a path in the walk is credited as a new file: when no
/// earlier commit that passed the filter, and no earlier change of the same
/// commit, names the path, it is not yet among the seen paths.
pub proof fn lemma_first_sight_counted(steps: Seq<Step>, j: int, m: int)
    requires
        0 <= j < steps.len(),
        0 <= m < steps[j].2.len(),
        !touched_before(steps, j, steps[j].2[m].0),
        forall|k: int| 0 <= k < m ==> (#[trigger] steps[j].2[k]).0 != steps[j].2[m].0,
    ensures
        !apply_changes(monthly_walk(steps.take(j)).0, zero_slots(), steps[j].2.take(m)).0.contains(steps[j].2[m].0),
{
    let p = steps[j].2[m].0;
    let c = steps[j].2.take(m);
    let seen = monthly_walk(steps.take(j)).0;
    lemma_walk_seen_source(steps, j);
    lemma_changes_seen(seen, zero_slots(), c);
    if apply_changes(seen, zero_slots(), c).0.contains(p) {
        if !seen.contains(p) {
            let k = choose|k: int| 0 <= k < c.len() && c[k].0 == p;
            assert(c[k] == steps[j].2[k]);
        }
    }
}

/// One commit keeps every bucket balanced: from any buckets whose net line
/// counts equal their additions less their deletions, adding what a commit's
/// changes give, whatever paths were seen before, leaves them so, the bucket
/// it creates included.
pub proof fn lemma_commit_step_balanced(
    seen: Seq<Seq<char>>,
    bs: Seq<(Seq<char>, Seq<Tally>)>,
    key: Seq<char>,
    changes: Seq<(Seq<char>, Seq<char>)>,
)
    requires
        forall|k: int| 0 <= k < bs.len() ==> all_balanced(#[trigger] bs[k].1),
    ensures
        forall|k: int| 0 <= k < add_to_bucket(bs, key, apply_changes(seen, zero_slots(), changes).1).len()
            ==> all_balanced(#[trigger] add_to_bucket(bs, key, apply_changes(seen, zero_slots(), changes).1)[k].1),
{
    assert(all_balanced(zero_slots()));
    lemma_changes_balanced(seen, zero_slots(), changes);
    let d = apply_changes(seen, zero_slots(), changes).1;
    let r = add_to_bucket(bs, key, d);
    let i = first_index(bucket_keys(bs), key);
    lemma_first_index_bounds(bucket_keys(bs), key);
    assert(bucket_keys(bs).len() == bs.len());
    assert forall|k: int| 0 <= k < r.len() implies all_balanced(#[trigger] r[k].1) by {
        if k < bs.len() {
            let a = bs[k].1;
            assert(all_balanced(a));
            assert forall|j: int| 0 <= j < add_slots(a, d).len() implies balanced(
                #[trigger] add_slots(a, d)[j],
            ) by {
                assert(balanced(a[j]));
                assert(balanced(d[j]));
            }
            if any_touched(d) && k == i {
                assert(r[k].1 == add_slots(a, d));
            } else {
                assert(r[k].1 == a);
            }
        } else {
            assert(r[k].1 == d);
        }
    }
}

/// A changed path whose extension is not allowlisted can be left out of a
/// commit's changes: the seen paths and every counter come out the same.
pub proof fn lemma_ineligible_entry_dropped(
    seen: Seq<Seq<char>>,
    slots: Seq<Tally>,
    changes: Seq<(Seq<char>, Seq<char>)>,
    m: int,
)
    requires
        0 <= m < changes.len(),
        path_slot(changes[m].0) is None,
    ensures
        apply_changes(seen, slots, changes) == apply_changes(seen, slots, changes.remove(m)),
    decreases changes.len(),
{
    if m == changes.len() - 1 {
        assert(changes.remove(m) =~= changes.drop_last());
    } else {
        let c = changes.drop_last();
        assert(changes.remove(m).drop_last() =~= c.remove(m));
        assert(changes.remove(m).last() == changes.last());
        assert(c[m] == changes[m]);
        lemma_ineligible_entry_dropped(seen, slots, c, m);
    }
}

} // verus!
