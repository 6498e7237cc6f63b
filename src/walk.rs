use vstd::prelude::*;
use crate::ext::{TEXT_EXTENSION_COUNT, text_slot};
use crate::stats::{
    FileStats, Tally, zero_tally, zero_slots, bounded, slots_bounded, apply_change, apply_changes,
    change_tally, add_tally, changes_weight, lemma_weight_nonneg, count_origins, lemma_count_pair,
    MAX_WEIGHT,
};

verus! {

/// One path changed by a commit, with the origin character of each diff line
/// (`+` added, `-` removed, anything else ignored).
pub struct FileChange {
    pub path: String,
    pub origins: Vec<char>,
}

impl View for FileChange {
    type V = (Seq<char>, Seq<char>);

    open spec fn view(&self) -> (Seq<char>, Seq<char>) {
        (self.path@, self.origins@)
    }
}

pub open spec fn changes_view(cs: Seq<FileChange>) -> Seq<(Seq<char>, Seq<char>)> {
    cs.map_values(|c: FileChange| c@)
}

pub open spec fn slots_view(v: Seq<FileStats>) -> Seq<Tally> {
    v.map_values(|s: FileStats| s@)
}

pub proof fn lemma_weight_prefix(cs: Seq<(Seq<char>, Seq<char>)>, j: int)
    requires
        0 <= j <= cs.len(),
    ensures
        0 <= changes_weight(cs.take(j)) <= changes_weight(cs),
    decreases cs.len(),
{
    lemma_weight_nonneg(cs.take(j));
    if j < cs.len() {
        assert(cs.drop_last().take(j) =~= cs.take(j));
        lemma_weight_prefix(cs.drop_last(), j);
    } else {
        assert(cs.take(j) =~= cs);
    }
}

/// Counters per allowlisted extension, all zero.
pub fn zero_stats() -> (r: Vec<FileStats>)
    ensures
        slots_view(r@) == zero_slots(),
        slots_bounded(slots_view(r@), 0),
{
    let mut r: Vec<FileStats> = Vec::new();
    let mut i: usize = 0;
    while i < TEXT_EXTENSION_COUNT
        invariant
            i <= TEXT_EXTENSION_COUNT,
            r@.len() == i,
            slots_view(r@) =~= Seq::new(i as nat, |k: int| zero_tally()),
        decreases TEXT_EXTENSION_COUNT - i,
    {
        let z = FileStats::zero();
        let ghost old_r = r@;
        r.push(z);
        assert forall|k: int| 0 <= k < i + 1 implies slots_view(r@)[k] == zero_tally() by {
            if k < i {
                assert(r@[k] == old_r[k]);
                assert(slots_view(old_r)[k] == zero_tally());
            }
        }
        assert(slots_view(r@) =~= Seq::new((i + 1) as nat, |k: int| zero_tally()));
        i = i + 1;
    }
    assert(slots_view(r@) =~= zero_slots());
    r
}

/// The paths seen so far in a walk over the history, in order of first sight.
pub struct Walk {
    seen: Vec<String>,
}

impl Walk {
    pub closed spec fn seen_paths(&self) -> Seq<Seq<char>> {
        self.seen@.map_values(|s: String| s@)
    }

    /// A walk that has seen nothing yet.
    pub fn new() -> (r: Walk)
        ensures
            r.seen_paths() == Seq::<Seq<char>>::empty(),
    {
        let r = Walk { seen: Vec::new() };
        assert(r.seen_paths() =~= Seq::<Seq<char>>::empty());
        r
    }

    /// Whether `path` was seen as changed earlier in the walk.
    pub fn has_seen(&self, path: &String) -> (r: bool)
        ensures
            r == self.seen_paths().contains(path@),
    {
        let mut k: usize = 0;
        while k < self.seen.len()
            invariant
                k <= self.seen@.len(),
                forall|j: int| 0 <= j < k ==> self.seen_paths()[j] != path@,
            decreases self.seen.len() - k,
        {
            if self.seen[k] == *path {
                assert(self.seen_paths()[k as int] == path@);
                return true;
            }
            k = k + 1;
        }
        false
    }

    /// Folds one commit's changed paths into the walk and returns what they
    /// add to the counters of each allowlisted extension.
    pub fn apply_commit(&mut self, changes: &Vec<FileChange>) -> (r: Vec<FileStats>)
        requires
            changes_weight(changes_view(changes@)) <= MAX_WEIGHT,
        ensures
            (final(self).seen_paths(), slots_view(r@))
                == apply_changes(old(self).seen_paths(), zero_slots(), changes_view(changes@)),
            slots_bounded(slots_view(r@), changes_weight(changes_view(changes@))),
    {
        let ghost cv = changes_view(changes@);
        let ghost seen0 = self.seen_paths();
        let mut r = zero_stats();
        let mut j: usize = 0;
        assert(cv.take(0) =~= Seq::<(Seq<char>, Seq<char>)>::empty());
        while j < changes.len()
            invariant
                j <= changes@.len(),
                cv == changes_view(changes@),
                changes_weight(cv) <= MAX_WEIGHT,
                (self.seen_paths(), slots_view(r@)) == apply_changes(seen0, zero_slots(), cv.take(j as int)),
                slots_bounded(slots_view(r@), changes_weight(cv.take(j as int))),
            decreases changes.len() - j,
        {
            let ch = &changes[j];
            let ghost w = changes_weight(cv.take(j as int));
            proof {
                assert(cv.take(j + 1).drop_last() =~= cv.take(j as int));
                assert(cv.take(j + 1).last() == ch@);
                lemma_weight_prefix(cv, j + 1);
                lemma_weight_prefix(cv, j as int);
                lemma_count_pair(ch.origins@);
            }
            let ghost prev_seen = self.seen_paths();
            let ghost prev_slots = slots_view(r@);
            proof {
                assert(apply_changes(seen0, zero_slots(), cv.take(j + 1)) == apply_change(
                    prev_seen,
                    prev_slots,
                    ch.path@,
                    ch.origins@,
                ));
            }
            match text_slot(ch.path.as_str()) {
                None => {},
                Some(i) => {
                    let ghost seen_before = self.seen_paths();
                    let new_file = !self.has_seen(&ch.path);
                    if new_file {
                        self.seen.push(ch.path.clone());
                        assert(self.seen_paths() =~= seen_before.push(ch.path@));
                    }
                    let (a, d) = count_origins(&ch.origins);
                    let delta = FileStats {
                        lines: a as i64 - d as i64,
                        files: if new_file { 1 } else { 0 },
                        additions: a as u64,
                        deletions: d as u64,
                        modifications: if a > 0 || d > 0 { 1 } else { 0 },
                        repos: 0,
                    };
                    assert(delta@ == change_tally(new_file, ch.origins@));
                    let ghost v: int = ch.origins@.len() as int + 1;
                    let mut s = r[i];
                    assert(s@ == slots_view(r@)[i as int]);
                    s.add(&delta, Ghost(w), Ghost(v));
                    let ghost before = slots_view(r@);
                    r.set(i, s);
                    assert(slots_view(r@) =~= before.update(i as int, add_tally(before[i as int], delta@)));
                    assert forall|k: int| 0 <= k < slots_view(r@).len() implies bounded(
                        #[trigger] slots_view(r@)[k],
                        w + v,
                    ) by {
                        if k != i {
                            assert(bounded(before[k], w));
                        }
                    }
                    assert(new_file == !prev_seen.contains(ch.path@));
                    assert(slots_view(r@) == apply_change(prev_seen, prev_slots, ch.path@, ch.origins@).1);
                    assert(self.seen_paths() == apply_change(prev_seen, prev_slots, ch.path@, ch.origins@).0);
                },
            }
            j = j + 1;
        }
        assert(cv.take(j as int) =~= cv);
        r
    }
}

} // verus!
