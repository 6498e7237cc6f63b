use vstd::prelude::*;
use crate::ext::{TEXT_EXTENSION_COUNT, path_slot};

verus! {

/// The counters of one extension in one bucket, as integers.
pub struct Tally {
    pub lines: int,
    pub files: int,
    pub additions: int,
    pub deletions: int,
    pub modifications: int,
    pub repos: int,
}

pub open spec fn zero_tally() -> Tally {
    Tally { lines: 0, files: 0, additions: 0, deletions: 0, modifications: 0, repos: 0 }
}

pub open spec fn add_tally(a: Tally, b: Tally) -> Tally {
    Tally {
        lines: a.lines + b.lines,
        files: a.files + b.files,
        additions: a.additions + b.additions,
        deletions: a.deletions + b.deletions,
        modifications: a.modifications + b.modifications,
        repos: a.repos + b.repos,
    }
}

/// The net line count is the additions less the deletions.
pub open spec fn balanced(t: Tally) -> bool {
    t.lines == t.additions - t.deletions
}

/// Balanced, with every count between zero and `w`, and no repository count.
pub open spec fn bounded(t: Tally, w: int) -> bool {
    &&& balanced(t)
    &&& 0 <= t.files <= w
    &&& 0 <= t.additions <= w
    &&& 0 <= t.deletions <= w
    &&& 0 <= t.modifications <= w
    &&& t.repos == 0
}

/// A slot that received at least one signal.
pub open spec fn touched(t: Tally) -> bool {
    t.files > 0 || t.additions > 0 || t.deletions > 0 || t.modifications > 0
}

/// One counter set per allowlisted extension, all zero.
pub open spec fn zero_slots() -> Seq<Tally> {
    Seq::new(TEXT_EXTENSION_COUNT as nat, |i: int| zero_tally())
}

pub open spec fn add_slots(a: Seq<Tally>, b: Seq<Tally>) -> Seq<Tally> {
    Seq::new(a.len(), |i: int| add_tally(a[i], b[i]))
}

pub open spec fn slots_bounded(s: Seq<Tally>, w: int) -> bool {
    &&& s.len() == TEXT_EXTENSION_COUNT
    &&& forall|i: int| 0 <= i < s.len() ==> bounded(#[trigger] s[i], w)
}

/// How many times `c` occurs in `s`.
pub open spec fn count_of(s: Seq<char>, c: char) -> nat
    decreases s.len(),
{
    if s.len() == 0 {
        0
    } else {
        count_of(s.drop_last(), c) + if s.last() == c { 1nat } else { 0nat }
    }
}

pub proof fn lemma_count_pair(s: Seq<char>)
    ensures
        count_of(s, '+') + count_of(s, '-') <= s.len(),
    decreases s.len(),
{
    if s.len() > 0 {
        lemma_count_pair(s.drop_last());
    }
}

/// What one changed path adds to the counters of its extension: a new file
/// when the path was not seen before, one unit per `+` or `-` line, and one
/// modification when there is at least one such line.
pub open spec fn change_tally(new_file: bool, origins: Seq<char>) -> Tally {
    let a = count_of(origins, '+');
    let d = count_of(origins, '-');
    Tally {
        lines: a - d,
        files: if new_file { 1 } else { 0 },
        additions: a as int,
        deletions: d as int,
        modifications: if a + d > 0 { 1 } else { 0 },
        repos: 0,
    }
}

/// Folds one changed path into the seen paths and the per-extension counters.
/// A path whose extension is not allowlisted changes nothing.
pub open spec fn apply_change(seen: Seq<Seq<char>>, slots: Seq<Tally>, path: Seq<char>, origins: Seq<char>)
    -> (Seq<Seq<char>>, Seq<Tally>)
{
    match path_slot(path) {
        None => (seen, slots),
        Some(i) => {
            let new_file = !seen.contains(path);
            (
                if new_file { seen.push(path) } else { seen },
                slots.update(i as int, add_tally(slots[i as int], change_tally(new_file, origins))),
            )
        },
    }
}

/// Folds the changed paths of one commit, in order.
pub open spec fn apply_changes(seen: Seq<Seq<char>>, slots: Seq<Tally>, changes: Seq<(Seq<char>, Seq<char>)>)
    -> (Seq<Seq<char>>, Seq<Tally>)
    decreases changes.len(),
{
    if changes.len() == 0 {
        (seen, slots)
    } else {
        let prev = apply_changes(seen, slots, changes.drop_last());
        apply_change(prev.0, prev.1, changes.last().0, changes.last().1)
    }
}

/// The weight of a commit's changes: one more than its line count per path.
pub open spec fn changes_weight(changes: Seq<(Seq<char>, Seq<char>)>) -> int
    decreases changes.len(),
{
    if changes.len() == 0 {
        0
    } else {
        changes_weight(changes.drop_last()) + changes.last().1.len() + 1
    }
}

pub proof fn lemma_weight_nonneg(changes: Seq<(Seq<char>, Seq<char>)>)
    ensures
        changes_weight(changes) >= 0,
    decreases changes.len(),
{
    if changes.len() > 0 {
        lemma_weight_nonneg(changes.drop_last());
    }
}

/// The counters of one extension.
#[derive(Clone, Copy, Debug, PartialEq, Eq)]
pub struct FileStats {
    pub lines: i64,
    pub files: u64,
    pub additions: u64,
    pub deletions: u64,
    pub modifications: u64,
    pub repos: u64,
}

impl View for FileStats {
    type V = Tally;

    open spec fn view(&self) -> Tally {
        Tally {
            lines: self.lines as int,
            files: self.files as int,
            additions: self.additions as int,
            deletions: self.deletions as int,
            modifications: self.modifications as int,
            repos: self.repos as int,
        }
    }
}

/// The largest weight a walk may carry, so that every counter fits.
pub const MAX_WEIGHT: u64 = 0x7fff_ffff_ffff_ffff;

impl FileStats {
    pub fn zero() -> (r: FileStats)
        ensures
            r@ == zero_tally(),
    {
        FileStats { lines: 0, files: 0, additions: 0, deletions: 0, modifications: 0, repos: 0 }
    }

    /// The net line count agrees with the additions and deletions.
    pub open spec fn wf(&self) -> bool {
        balanced(self@)
    }

    /// Whether any signal reached these counters.
    pub fn is_touched(&self) -> (r: bool)
        ensures
            r == touched(self@),
    {
        self.files > 0 || self.additions > 0 || self.deletions > 0 || self.modifications > 0
    }

    /// Adds `other` to these counters.
    pub(crate) fn add(&mut self, other: &FileStats, w: Ghost<int>, v: Ghost<int>)
        requires
            bounded(old(self)@, w@),
            bounded(other@, v@),
            0 <= w@,
            0 <= v@,
            w@ + v@ <= MAX_WEIGHT,
        ensures
            final(self)@ == add_tally(old(self)@, other@),
            bounded(final(self)@, w@ + v@),
    {
        self.lines = self.lines + other.lines;
        self.files = self.files + other.files;
        self.additions = self.additions + other.additions;
        self.deletions = self.deletions + other.deletions;
        self.modifications = self.modifications + other.modifications;
    }
}

/// Counts the `+` and `-` lines among the origins of a changed path.
pub fn count_origins(origins: &Vec<char>) -> (r: (usize, usize))
    ensures
        r.0 == count_of(origins@, '+'),
        r.1 == count_of(origins@, '-'),
{
    let mut a: usize = 0;
    let mut d: usize = 0;
    let mut i: usize = 0;
    while i < origins.len()
        invariant
            i <= origins.len(),
            a == count_of(origins@.take(i as int), '+'),
            d == count_of(origins@.take(i as int), '-'),
        decreases origins.len() - i,
    {
        assert(origins@.take(i + 1).drop_last() =~= origins@.take(i as int));
        proof {
            lemma_count_pair(origins@.take(i as int));
        }
        if origins[i] == '+' {
            a = a + 1;
        } else if origins[i] == '-' {
            d = d + 1;
        }
        i = i + 1;
    }
    assert(origins@.take(i as int) =~= origins@);
    (a, d)
}

} // verus!
