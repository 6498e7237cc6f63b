use vstd::prelude::*;
use crate::ext::{TEXT_EXTENSION_COUNT, text_extensions, slot_token};
use crate::stats::{FileStats, Tally, touched};
use crate::walk::slots_view;

verus! {

/// The counters of one extension, under its token.
pub struct ExtEntry {
    pub ext: String,
    pub stats: FileStats,
}

impl View for ExtEntry {
    type V = (Seq<char>, Tally);

    open spec fn view(&self) -> (Seq<char>, Tally) {
        (self.ext@, self.stats@)
    }
}

/// The touched slots among the first `n`, in slot order, under their tokens.
pub open spec fn projection(slots: Seq<Tally>, n: nat) -> Seq<(Seq<char>, Tally)>
    decreases n,
{
    if n == 0 {
        Seq::empty()
    } else {
        let p = projection(slots, (n - 1) as nat);
        if touched(slots[n - 1]) {
            p.push((text_extensions()[n - 1], slots[n - 1]))
        } else {
            p
        }
    }
}

/// The extensions of a counter set that received a signal, each with its counters.
pub fn touched_entries(stats: &Vec<FileStats>) -> (r: Vec<ExtEntry>)
    requires
        stats@.len() == TEXT_EXTENSION_COUNT,
    ensures
        r@.map_values(|e: ExtEntry| e@) == projection(slots_view(stats@), TEXT_EXTENSION_COUNT as nat),
{
    let mut r: Vec<ExtEntry> = Vec::new();
    let mut i: usize = 0;
    while i < TEXT_EXTENSION_COUNT
        invariant
            i <= TEXT_EXTENSION_COUNT,
            stats@.len() == TEXT_EXTENSION_COUNT,
            r@.map_values(|e: ExtEntry| e@) =~= projection(slots_view(stats@), i as nat),
        decreases TEXT_EXTENSION_COUNT - i,
    {
        let s = stats[i];
        assert(s@ == slots_view(stats@)[i as int]);
        if s.is_touched() {
            let ext = String::from_str(slot_token(i));
            let ghost old_r = r@;
            r.push(ExtEntry { ext, stats: s });
            assert(r@.map_values(|e: ExtEntry| e@) =~= old_r.map_values(|e: ExtEntry| e@).push(
                (text_extensions()[i as int], s@),
            ));
        }
        i = i + 1;
    }
    r
}

} // verus!
