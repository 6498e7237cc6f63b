use vstd::prelude::*;
use crate::author::{AuthorFilter, author_passes, author_string, author_text, opt_view, strings_view};
use crate::ext::TEXT_EXTENSION_COUNT;
use crate::month::{bucket_key_of, month_key_of};
use crate::seqs::{first_index, lemma_first_index_prefix};
use crate::stats::{
    FileStats, Tally, add_slots, apply_changes, changes_weight, lemma_weight_nonneg, slots_bounded,
    touched, zero_slots, MAX_WEIGHT,
};
use crate::walk::{FileChange, Walk, changes_view, slots_view};

verus! {

/// One commit as read from the repository: its identifier, author time in
/// seconds since the epoch, author, message, and the paths its diff against
/// its first parent (or the empty tree) changed.
pub struct CommitInput {
    pub id: String,
    pub timestamp: i64,
    pub author_name: Option<String>,
    pub author_email: Option<String>,
    pub message: Option<String>,
    pub changes: Vec<FileChange>,
}

/// The counters of one month, one set per allowlisted extension.
pub struct MonthBucket {
    pub key: String,
    pub stats: Vec<FileStats>,
}

impl View for MonthBucket {
    type V = (Seq<char>, Seq<Tally>);

    open spec fn view(&self) -> (Seq<char>, Seq<Tally>) {
        (self.key@, slots_view(self.stats@))
    }
}

/// What one commit added to the counters, with its details.
pub struct CommitRecord {
    pub id: String,
    pub timestamp: i64,
    pub message: String,
    pub author: String,
    pub stats: Vec<FileStats>,
}

/// One walk step: the bucket key, whether the commit passed the author
/// filter, and its changed paths.
pub type Step = (Seq<char>, bool, Seq<(Seq<char>, Seq<char>)>);

pub open spec fn buckets_view(v: Seq<MonthBucket>) -> Seq<(Seq<char>, Seq<Tally>)> {
    v.map_values(|b: MonthBucket| b@)
}

pub open spec fn bucket_keys(bs: Seq<(Seq<char>, Seq<Tally>)>) -> Seq<Seq<char>> {
    bs.map_values(|b: (Seq<char>, Seq<Tally>)| b.0)
}

pub open spec fn any_touched(s: Seq<Tally>) -> bool {
    exists|i: int| 0 <= i < s.len() && touched(#[trigger] s[i])
}

/// Adds a commit's counters to its month: to the bucket of that key if there
/// is one, else to a new bucket at the end. Counters that received nothing
/// leave the buckets as they are.
pub open spec fn add_to_bucket(bs: Seq<(Seq<char>, Seq<Tally>)>, key: Seq<char>, delta: Seq<Tally>)
    -> Seq<(Seq<char>, Seq<Tally>)>
{
    if !any_touched(delta) {
        bs
    } else {
        let i = first_index(bucket_keys(bs), key);
        if i >= 0 {
            bs.update(i, (key, add_slots(bs[i].1, delta)))
        } else {
            bs.push((key, delta))
        }
    }
}

/// The whole-history walk: the seen paths and the month buckets after `steps`.
pub open spec fn monthly_walk(steps: Seq<Step>) -> (Seq<Seq<char>>, Seq<(Seq<char>, Seq<Tally>)>)
    decreases steps.len(),
{
    if steps.len() == 0 {
        (Seq::empty(), Seq::empty())
    } else {
        let prev = monthly_walk(steps.drop_last());
        let s = steps.last();
        if !s.1 {
            prev
        } else {
            let m = apply_changes(prev.0, zero_slots(), s.2);
            (m.0, add_to_bucket(prev.1, s.0, m.1))
        }
    }
}

/// The per-commit walk: the seen paths, and for each commit that passed the
/// filter its position in the walk and what it added to the counters.
pub open spec fn commit_walk(steps: Seq<Step>) -> (Seq<Seq<char>>, Seq<(int, Seq<Tally>)>)
    decreases steps.len(),
{
    if steps.len() == 0 {
        (Seq::empty(), Seq::empty())
    } else {
        let prev = commit_walk(steps.drop_last());
        let s = steps.last();
        if !s.1 {
            prev
        } else {
            let m = apply_changes(prev.0, zero_slots(), s.2);
            (m.0, prev.1.push((steps.len() - 1, m.1)))
        }
    }
}

/// The changed paths of each commit.
pub open spec fn history_changes(cs: Seq<CommitInput>) -> Seq<Seq<(Seq<char>, Seq<char>)>> {
    cs.map_values(|c: CommitInput| changes_view(c.changes@))
}

/// The total weight of a history's changes.
pub open spec fn history_weight(h: Seq<Seq<(Seq<char>, Seq<char>)>>) -> int
    decreases h.len(),
{
    if h.len() == 0 {
        0
    } else {
        history_weight(h.drop_last()) + changes_weight(h.last())
    }
}

pub proof fn lemma_history_weight_prefix(h: Seq<Seq<(Seq<char>, Seq<char>)>>, j: int)
    requires
        0 <= j <= h.len(),
    ensures
        0 <= history_weight(h.take(j)) <= history_weight(h),
    decreases h.len(),
{
    if j < h.len() {
        assert(h.drop_last().take(j) =~= h.take(j));
        lemma_history_weight_prefix(h.drop_last(), j);
        lemma_weight_nonneg(h.last());
    } else {
        assert(h.take(j) =~= h);
        if h.len() > 0 {
            lemma_history_weight_prefix(h.drop_last(), h.len() - 1);
            assert(h.drop_last().take(h.len() - 1) =~= h.drop_last());
            lemma_weight_nonneg(h.last());
        }
    }
}

/// The walk steps of a history, given each commit's key and filter result.
pub open spec fn steps_of(cs: Seq<CommitInput>, keys: Seq<Seq<char>>, included: Seq<bool>) -> Seq<Step> {
    Seq::new(cs.len(), |i: int| (keys[i], included[i], changes_view(cs[i].changes@)))
}

/// The text of an optional message, empty when absent.
pub open spec fn message_text(m: Option<String>) -> Seq<char> {
    match m {
        Some(s) => s@,
        None => Seq::empty(),
    }
}

pub open spec fn all_bounded(bs: Seq<(Seq<char>, Seq<Tally>)>, w: int) -> bool {
    forall|k: int| 0 <= k < bs.len() ==> slots_bounded(#[trigger] bs[k].1, w)
}

/// Adds two counter sets slot by slot.
fn sum_slots(a: &Vec<FileStats>, b: &Vec<FileStats>, w: Ghost<int>, v: Ghost<int>) -> (r: Vec<FileStats>)
    requires
        slots_bounded(slots_view(a@), w@),
        slots_bounded(slots_view(b@), v@),
        0 <= w@,
        0 <= v@,
        w@ + v@ <= MAX_WEIGHT,
    ensures
        slots_view(r@) == add_slots(slots_view(a@), slots_view(b@)),
        slots_bounded(slots_view(r@), w@ + v@),
{
    let mut r: Vec<FileStats> = Vec::new();
    let mut i: usize = 0;
    while i < a.len()
        invariant
            i <= a@.len(),
            a@.len() == b@.len(),
            a@.len() == TEXT_EXTENSION_COUNT,
            slots_bounded(slots_view(a@), w@),
            slots_bounded(slots_view(b@), v@),
            0 <= w@,
            0 <= v@,
            w@ + v@ <= MAX_WEIGHT,
            r@.len() == i,
            slots_view(r@) =~= add_slots(slots_view(a@), slots_view(b@)).take(i as int),
            forall|k: int| 0 <= k < i ==> crate::stats::bounded(#[trigger] slots_view(r@)[k], w@ + v@),
        decreases a.len() - i,
    {
        let mut s = a[i];
        assert(s@ == slots_view(a@)[i as int]);
        assert(b[i as int]@ == slots_view(b@)[i as int]);
        s.add(&b[i], w, v);
        let ghost old_r = r@;
        r.push(s);
        assert forall|k: int| 0 <= k < i + 1 implies slots_view(r@)[k] == add_slots(
            slots_view(a@),
            slots_view(b@),
        )[k] && crate::stats::bounded(#[trigger] slots_view(r@)[k], w@ + v@) by {
            if k < i {
                assert(r@[k] == old_r[k]);
                assert(slots_view(old_r)[k] == slots_view(r@)[k]);
            }
        }
        i = i + 1;
    }
    r
}

/// Whether any counter set received a signal.
fn has_touched(s: &Vec<FileStats>) -> (r: bool)
    ensures
        r == any_touched(slots_view(s@)),
{
    let mut i: usize = 0;
    while i < s.len()
        invariant
            i <= s@.len(),
            forall|k: int| 0 <= k < i ==> !touched(#[trigger] slots_view(s@)[k]),
        decreases s.len() - i,
    {
        if s[i].is_touched() {
            assert(touched(slots_view(s@)[i as int]));
            return true;
        }
        i = i + 1;
    }
    false
}

/// Adds a commit's counters to the bucket of its month.
fn add_to_buckets(
    buckets: &mut Vec<MonthBucket>,
    key: &String,
    delta: Vec<FileStats>,
    w: Ghost<int>,
    v: Ghost<int>,
)
    requires
        all_bounded(buckets_view(old(buckets)@), w@),
        slots_bounded(slots_view(delta@), v@),
        0 <= w@,
        0 <= v@,
        w@ + v@ <= MAX_WEIGHT,
    ensures
        buckets_view(final(buckets)@) == add_to_bucket(buckets_view(old(buckets)@), key@, slots_view(delta@)),
        all_bounded(buckets_view(final(buckets)@), w@ + v@),
{
    if !has_touched(&delta) {
        return;
    }
    let ghost bv = buckets_view(buckets@);
    let ghost keys = bucket_keys(bv);
    let mut k: usize = 0;
    assert(keys.take(0) =~= Seq::<Seq<char>>::empty());
    while k < buckets.len()
        invariant
            k <= buckets@.len(),
            bv == buckets_view(buckets@),
            keys == bucket_keys(bv),
            first_index(keys.take(k as int), key@) == -1,
            all_bounded(bv, w@),
            bv == buckets_view(old(buckets)@),
            any_touched(slots_view(delta@)),
            slots_bounded(slots_view(delta@), v@),
            0 <= w@,
            0 <= v@,
            w@ + v@ <= MAX_WEIGHT,
        decreases buckets.len() - k,
    {
        assert(keys.take(k + 1).drop_last() =~= keys.take(k as int));
        assert(keys.take(k + 1).last() == buckets@[k as int].key@);
        if buckets[k].key == *key {
            proof {
                assert(keys.take(k + 1).last() == key@);
                assert(first_index(keys.take(k + 1), key@) == k);
                lemma_first_index_prefix(keys, key@, k + 1);
                assert(first_index(bucket_keys(bv), key@) == k);
                assert(slots_view(buckets@[k as int].stats@) == bv[k as int].1);
                assert(slots_bounded(bv[k as int].1, w@));
            }
            let sum = sum_slots(&buckets[k].stats, &delta, w, v);
            buckets.set(k, MonthBucket { key: key.clone(), stats: sum });
            proof {
                assert(buckets_view(buckets@) =~= bv.update(k as int, (key@, add_slots(bv[k as int].1, slots_view(delta@)))));
                assert(bv == buckets_view(old(buckets)@));
                assert(any_touched(slots_view(delta@)));
                assert(add_to_bucket(bv, key@, slots_view(delta@)) == bv.update(k as int, (key@, add_slots(bv[k as int].1, slots_view(delta@)))));
                assert forall|j: int| 0 <= j < buckets_view(buckets@).len() implies slots_bounded(
                    #[trigger] buckets_view(buckets@)[j].1,
                    w@ + v@,
                ) by {
                    if j != k {
                        assert(slots_bounded(bv[j].1, w@));
                    }
                }
            }
            return;
        }
        k = k + 1;
    }
    assert(keys.take(k as int) =~= keys);
    buckets.push(MonthBucket { key: key.clone(), stats: delta });
    proof {
        assert(buckets_view(buckets@) =~= bv.push((key@, slots_view(delta@))));
        assert forall|j: int| 0 <= j < buckets_view(buckets@).len() implies slots_bounded(
            #[trigger] buckets_view(buckets@)[j].1,
            w@ + v@,
        ) by {
            if j < bv.len() {
                assert(slots_bounded(bv[j].1, w@));
            }
        }
    }
}

pub proof fn lemma_all_bounded_mono(bs: Seq<(Seq<char>, Seq<Tally>)>, w: int, w2: int)
    requires
        all_bounded(bs, w),
        w <= w2,
    ensures
        all_bounded(bs, w2),
{
    assert forall|k: int| 0 <= k < bs.len() implies slots_bounded(#[trigger] bs[k].1, w2) by {
        assert(slots_bounded(bs[k].1, w));
    }
}

/// The month key of each commit.
pub open spec fn month_keys(cs: Seq<CommitInput>) -> Seq<Seq<char>> {
    Seq::new(cs.len(), |i: int| bucket_key_of(cs[i].timestamp as int))
}

/// The identifier of each commit.
pub open spec fn ids_of(cs: Seq<CommitInput>) -> Seq<Seq<char>> {
    Seq::new(cs.len(), |i: int| cs[i].id@)
}

/// The author text of a commit.
pub open spec fn commit_author(c: CommitInput) -> Seq<char> {
    author_text(opt_view(c.author_name), opt_view(c.author_email))
}

/// Whether each commit passes the author patterns.
pub open spec fn inclusion(patterns: Seq<Seq<char>>, cs: Seq<CommitInput>) -> Seq<bool> {
    Seq::new(cs.len(), |i: int| author_passes(patterns, commit_author(cs[i])))
}

/// Folds one commit into the walk and adds what it changed to the bucket of
/// its month.
fn process_commit(walk: &mut Walk, buckets: &mut Vec<MonthBucket>, commit: &CommitInput, key: &String, w: Ghost<int>)
    requires
        all_bounded(buckets_view(old(buckets)@), w@),
        0 <= w@,
        w@ + changes_weight(changes_view(commit.changes@)) <= MAX_WEIGHT,
    ensures
        ({
            let m = apply_changes(old(walk).seen_paths(), zero_slots(), changes_view(commit.changes@));
            &&& final(walk).seen_paths() == m.0
            &&& buckets_view(final(buckets)@) == add_to_bucket(buckets_view(old(buckets)@), key@, m.1)
        }),
        all_bounded(buckets_view(final(buckets)@), w@ + changes_weight(changes_view(commit.changes@))),
{
    proof {
        lemma_weight_nonneg(changes_view(commit.changes@));
    }
    let delta = walk.apply_commit(&commit.changes);
    add_to_buckets(buckets, key, delta, w, Ghost(changes_weight(changes_view(commit.changes@))));
}

/// Folds the commits that passed the filter into month buckets, in walk
/// order, given each commit's month key and filter result.
pub fn monthly_stats(commits: &Vec<CommitInput>, keys: &Vec<String>, included: &Vec<bool>) -> (r: Vec<MonthBucket>)
    requires
        keys@.len() == commits@.len(),
        included@.len() == commits@.len(),
        history_weight(history_changes(commits@)) <= MAX_WEIGHT,
    ensures
        buckets_view(r@) == monthly_walk(steps_of(commits@, strings_view(keys@), included@)).1,
{
    let ghost st = steps_of(commits@, strings_view(keys@), included@);
    let ghost h = history_changes(commits@);
    let mut walk = Walk::new();
    let mut buckets: Vec<MonthBucket> = Vec::new();
    let mut j: usize = 0;
    assert(st.take(0) =~= Seq::<Step>::empty());
    assert(buckets_view(buckets@) =~= Seq::<(Seq<char>, Seq<Tally>)>::empty());
    while j < commits.len()
        invariant
            j <= commits@.len(),
            keys@.len() == commits@.len(),
            included@.len() == commits@.len(),
            st == steps_of(commits@, strings_view(keys@), included@),
            h == history_changes(commits@),
            history_weight(h) <= MAX_WEIGHT,
            (walk.seen_paths(), buckets_view(buckets@)) == monthly_walk(st.take(j as int)),
            all_bounded(buckets_view(buckets@), history_weight(h.take(j as int))),
        decreases commits.len() - j,
    {
        let ghost w = history_weight(h.take(j as int));
        let ghost v = changes_weight(h[j as int]);
        proof {
            assert(st.take(j + 1).drop_last() =~= st.take(j as int));
            assert(h.take(j + 1).drop_last() =~= h.take(j as int));
            assert(st.take(j + 1).last() == st[j as int]);
            assert(h.take(j + 1).last() == h[j as int]);
            lemma_history_weight_prefix(h, j + 1);
            lemma_history_weight_prefix(h, j as int);
            lemma_weight_nonneg(h[j as int]);
        }
        if included[j] {
            process_commit(&mut walk, &mut buckets, &commits[j], &keys[j], Ghost(w));
        } else {
            proof {
                lemma_all_bounded_mono(buckets_view(buckets@), w, w + v);
            }
        }
        j = j + 1;
    }
    assert(st.take(j as int) =~= st);
    buckets
}

/// A commit's record agrees with the commit and carries `slots`.
pub open spec fn record_matches(r: CommitRecord, c: CommitInput, slots: Seq<Tally>) -> bool {
    &&& r.id@ == c.id@
    &&& r.timestamp == c.timestamp
    &&& r.message@ == message_text(c.message)
    &&& r.author@ == commit_author(c)
    &&& slots_view(r.stats@) == slots
}

/// The records agree, one by one, with the commits that `m` names and carry
/// the counters it gives; every named commit lies before `n`.
pub open spec fn records_agree(out: Seq<CommitRecord>, cs: Seq<CommitInput>, m: Seq<(int, Seq<Tally>)>, n: int) -> bool {
    &&& out.len() == m.len()
    &&& forall|k: int| 0 <= k < m.len() ==> 0 <= (#[trigger] m[k]).0 < n
        && record_matches(out[k], cs[m[k].0], m[k].1)
}

/// One record per commit that passed the filter, in walk order, given each
/// commit's filter result.
pub fn commit_stats(commits: &Vec<CommitInput>, included: &Vec<bool>) -> (r: Vec<CommitRecord>)
    requires
        included@.len() == commits@.len(),
        history_weight(history_changes(commits@)) <= MAX_WEIGHT,
    ensures
        records_agree(r@, commits@, commit_walk(steps_of(commits@, ids_of(commits@), included@)).1, commits@.len() as int),
{
    let ghost st = steps_of(commits@, ids_of(commits@), included@);
    let ghost h = history_changes(commits@);
    let mut walk = Walk::new();
    let mut out: Vec<CommitRecord> = Vec::new();
    let mut j: usize = 0;
    assert(st.take(0) =~= Seq::<Step>::empty());
    while j < commits.len()
        invariant
            j <= commits@.len(),
            included@.len() == commits@.len(),
            st == steps_of(commits@, ids_of(commits@), included@),
            h == history_changes(commits@),
            history_weight(h) <= MAX_WEIGHT,
            walk.seen_paths() == commit_walk(st.take(j as int)).0,
            records_agree(out@, commits@, commit_walk(st.take(j as int)).1, j as int),
        decreases commits.len() - j,
    {
        let ghost m0 = commit_walk(st.take(j as int)).1;
        proof {
            assert(st.take(j + 1).drop_last() =~= st.take(j as int));
            assert(h.take(j + 1).drop_last() =~= h.take(j as int));
            assert(st.take(j + 1).last() == st[j as int]);
            assert(h.take(j + 1).last() == h[j as int]);
            lemma_history_weight_prefix(h, j + 1);
            lemma_history_weight_prefix(h, j as int);
            lemma_weight_nonneg(h[j as int]);
        }
        if included[j] {
            let c = &commits[j];
            let delta = walk.apply_commit(&c.changes);
            let message = match &c.message {
                Some(m) => m.clone(),
                None => String::new(),
            };
            let rec = CommitRecord {
                id: c.id.clone(),
                timestamp: c.timestamp,
                message,
                author: author_string(&c.author_name, &c.author_email),
                stats: delta,
            };
            let ghost old_out = out@;
            out.push(rec);
            proof {
                let m1 = commit_walk(st.take(j + 1)).1;
                assert(m1 == m0.push((j as int, slots_view(rec.stats@))));
                assert forall|k: int| 0 <= k < out@.len() implies 0 <= (#[trigger] m1[k]).0 < j + 1
                    && record_matches(out@[k], commits@[m1[k].0], m1[k].1) by {
                    if k < old_out.len() {
                        assert(m1[k] == m0[k]);
                        assert(out@[k] == old_out[k]);
                    }
                }
            }
        }
        j = j + 1;
    }
    assert(st.take(j as int) =~= st);
    out
}

/// The month buckets of a history: each commit whose author passes the
/// filter is bucketed by the UTC month of its author time.
pub fn analyze_repo_internal(commits: &Vec<CommitInput>, filter: &AuthorFilter) -> (r: Vec<MonthBucket>)
    requires
        history_weight(history_changes(commits@)) <= MAX_WEIGHT,
    ensures
        buckets_view(r@) == monthly_walk(
            steps_of(commits@, month_keys(commits@), inclusion(filter.sources(), commits@)),
        ).1,
{
    let mut keys: Vec<String> = Vec::new();
    let mut included: Vec<bool> = Vec::new();
    let mut j: usize = 0;
    while j < commits.len()
        invariant
            j <= commits@.len(),
            strings_view(keys@) =~= month_keys(commits@).take(j as int),
            included@ =~= inclusion(filter.sources(), commits@).take(j as int),
        decreases commits.len() - j,
    {
        let c = &commits[j];
        let k = month_key_of(c.timestamp);
        let ghost old_keys = keys@;
        keys.push(k);
        assert(strings_view(keys@) =~= strings_view(old_keys).push(k@));
        let author = author_string(&c.author_name, &c.author_email);
        included.push(filter.includes(author.as_str()));
        j = j + 1;
    }
    assert(strings_view(keys@) =~= month_keys(commits@));
    assert(included@ =~= inclusion(filter.sources(), commits@));
    monthly_stats(commits, &keys, &included)
}

/// The per-commit records of a history: one for each commit whose author
/// passes the filter.
pub fn analyze_commits_internal(commits: &Vec<CommitInput>, filter: &AuthorFilter) -> (r: Vec<CommitRecord>)
    requires
        history_weight(history_changes(commits@)) <= MAX_WEIGHT,
    ensures
        records_agree(
            r@,
            commits@,
            commit_walk(steps_of(commits@, ids_of(commits@), inclusion(filter.sources(), commits@))).1,
            commits@.len() as int,
        ),
{
    let mut included: Vec<bool> = Vec::new();
    let mut j: usize = 0;
    while j < commits.len()
        invariant
            j <= commits@.len(),
            included@ =~= inclusion(filter.sources(), commits@).take(j as int),
        decreases commits.len() - j,
    {
        let c = &commits[j];
        let author = author_string(&c.author_name, &c.author_email);
        included.push(filter.includes(author.as_str()));
        j = j + 1;
    }
    assert(included@ =~= inclusion(filter.sources(), commits@));
    commit_stats(commits, &included)
}

} // verus!
