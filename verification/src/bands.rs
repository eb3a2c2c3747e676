//! The banded sweep: one sequence of sizes that is fine-grained where sizes
//! are large and coarse where they are small.
//!
//! The sweep runs from one byte to a bound in four bands. Below one kibibyte
//! a size is multiplied by 16, below one mebibyte by 8, below one gibibyte by
//! 4, and from there on by 2. Each band starts exactly at the edge where the
//! band before it stops short, so no size is emitted twice and none is left
//! out at an edge.

use crate::progression::{
    all_within, lemma_concat_increasing, lemma_progression_increasing, lemma_progression_step,
    lemma_progression_within_range, progression, strictly_increasing,
};
use crate::size_iter::SizeIterator;
use crate::units::{
    binary_label, entries_view, format_binary, labelled, lemma_entries_agree, GB, KB, MB,
};
use vstd::prelude::*;

verus! {

/// The band edge `edge`, or `until` where the sweep ends before it.
pub open spec fn band_edge(until: nat, edge: nat) -> nat {
    if until < edge {
        until
    } else {
        edge
    }
}

/// The sizes of the sweep up to `until`, band by band:
/// `[1, kb - 1]` by 16, `[kb, mb - 1]` by 8, `[mb, gb - 1]` by 4 and
/// `[gb, until]` by 2, where `kb`, `mb` and `gb` are the band edges capped at
/// `until`. A sweep up to zero bytes has no sizes.
pub open spec fn banded_sizes(until: nat) -> Seq<nat> {
    if until == 0 {
        Seq::empty()
    } else {
        let kb = band_edge(until, KB as nat);
        let mb = band_edge(until, MB as nat);
        let gb = band_edge(until, GB as nat);
        progression(1, (kb - 1) as nat, 16) + progression(kb, (mb - 1) as nat, 8) + progression(
            mb,
            (gb - 1) as nat,
            4,
        ) + progression(gb, until, 2)
    }
}

/// The sizes of a sweep grow strictly from one to the next, across the band
/// edges too, and all lie in `[1, until]`.
pub proof fn lemma_banded_sizes_increasing(until: nat)
    ensures
        strictly_increasing(banded_sizes(until)),
        all_within(banded_sizes(until), 1, until),
{
    if until > 0 {
        let kb = band_edge(until, KB as nat);
        let mb = band_edge(until, MB as nat);
        let gb = band_edge(until, GB as nat);
        let first = progression(1, (kb - 1) as nat, 16);
        let second = progression(kb, (mb - 1) as nat, 8);
        let third = progression(mb, (gb - 1) as nat, 4);
        let fourth = progression(gb, until, 2);
        lemma_progression_increasing(1, (kb - 1) as nat, 16);
        lemma_progression_within_range(1, (kb - 1) as nat, 16);
        lemma_progression_increasing(kb, (mb - 1) as nat, 8);
        lemma_progression_within_range(kb, (mb - 1) as nat, 8);
        lemma_progression_increasing(mb, (gb - 1) as nat, 4);
        lemma_progression_within_range(mb, (gb - 1) as nat, 4);
        lemma_progression_increasing(gb, until, 2);
        lemma_progression_within_range(gb, until, 2);
        lemma_concat_increasing(first, second, 1, (kb - 1) as nat, (mb - 1) as nat);
        lemma_concat_increasing(first + second, third, 1, (mb - 1) as nat, (gb - 1) as nat);
        lemma_concat_increasing(first + second + third, fourth, 1, (gb - 1) as nat, until);
    }
}

/// No band edge is skipped: the sweep holds one byte, and each of one
/// kibibyte, one mebibyte and one gibibyte that does not exceed `until`.
pub proof fn lemma_banded_sizes_hold_edges(until: nat)
    requires
        until > 0,
    ensures
        banded_sizes(until).contains(1),
        until >= KB ==> banded_sizes(until).contains(KB as nat),
        until >= MB ==> banded_sizes(until).contains(MB as nat),
        until >= GB ==> banded_sizes(until).contains(GB as nat),
{
    let kb = band_edge(until, KB as nat);
    let mb = band_edge(until, MB as nat);
    let gb = band_edge(until, GB as nat);
    let first = progression(1, (kb - 1) as nat, 16);
    let second = progression(kb, (mb - 1) as nat, 8);
    let third = progression(mb, (gb - 1) as nat, 4);
    let fourth = progression(gb, until, 2);
    let all = banded_sizes(until);
    lemma_progression_step(gb, until, 2);
    let before_fourth = first.len() + second.len() + third.len();
    assert(all[before_fourth as int] == gb);
    if kb > 1 {
        lemma_progression_step(1, (kb - 1) as nat, 16);
        assert(all[0] == 1);
    }
    if kb < mb {
        lemma_progression_step(kb, (mb - 1) as nat, 8);
        assert(all[first.len() as int] == kb);
    }
    if mb < gb {
        lemma_progression_step(mb, (gb - 1) as nat, 4);
        assert(all[(first.len() + second.len()) as int] == mb);
    }
}

/// The sweep is a function of its bound: whatever entries two sweeps up to
/// the same bound return, they agree size for size and label for label.
pub proof fn lemma_size_deterministic(
    until: nat,
    first: Seq<(usize, String)>,
    second: Seq<(usize, String)>,
)
    requires
        entries_view(first) == labelled(banded_sizes(until)),
        entries_view(second) == labelled(banded_sizes(until)),
    ensures
        first.len() == second.len(),
        forall|i: int|
            0 <= i < first.len() ==> (#[trigger] first[i]).0 == second[i].0 && first[i].1@
                == second[i].1@,
{
    lemma_entries_agree(banded_sizes(until), first, second);
}

/// The banded sweep as a generator: four generators, one for each band, that
/// are run one after another.
///
/// Its view is the sequence of sizes that are still to be emitted.
pub struct Sweep {
    kb: SizeIterator,
    mb: SizeIterator,
    gb: SizeIterator,
    other: SizeIterator,
}

impl View for Sweep {
    type V = Seq<nat>;

    closed spec fn view(&self) -> Seq<nat> {
        self.kb@.remaining() + self.mb@.remaining() + self.gb@.remaining()
            + self.other@.remaining()
    }
}

impl Sweep {
    /// Emits the next size of the sweep, or reports that the sweep has
    /// ended. A band takes over when the band before it has ended.
    pub fn next_size(&mut self) -> (size: Option<usize>)
        ensures
            old(self)@.len() == 0 ==> size is None && final(self)@ == old(self)@,
            old(self)@.len() > 0 ==> final(self)@ == old(self)@.skip(1) && {
                &&& size matches Some(s)
                &&& s == old(self)@[0]
            },
    {
        proof {
            use_type_invariant(&self.kb);
            use_type_invariant(&self.mb);
            use_type_invariant(&self.gb);
            use_type_invariant(&self.other);
            if !self.kb@.exhausted() {
                self.kb@.lemma_advance();
            }
            if !self.mb@.exhausted() {
                self.mb@.lemma_advance();
            }
            if !self.gb@.exhausted() {
                self.gb@.lemma_advance();
            }
            if !self.other@.exhausted() {
                self.other@.lemma_advance();
            }
        }
        let ghost before = self@;
        let mut size = self.kb.next_size();
        if size.is_none() {
            size = self.mb.next_size();
        }
        if size.is_none() {
            size = self.gb.next_size();
        }
        if size.is_none() {
            size = self.other.next_size();
        }
        assert(size is Some ==> self@ =~= before.skip(1));
        size
    }

    /// Emits the next size of the sweep with its label, or reports that the
    /// sweep has ended.
    pub fn next(&mut self) -> (entry: Option<(usize, String)>)
        ensures
            old(self)@.len() == 0 ==> entry is None && final(self)@ == old(self)@,
            old(self)@.len() > 0 ==> final(self)@ == old(self)@.skip(1) && {
                &&& entry matches Some(e)
                &&& e.0 == old(self)@[0]
                &&& e.1@ == binary_label(old(self)@[0])
            },
    {
        match self.next_size() {
            None => None,
            Some(size) => Some((size, format_binary(size))),
        }
    }

    /// Runs the sweep to its end and returns every entry it emits.
    pub fn collect(self) -> (entries: Vec<(usize, String)>)
        ensures
            entries_view(entries@) == labelled(self@),
    {
        let mut sweep = self;
        let mut entries: Vec<(usize, String)> = Vec::new();
        assert(entries_view(entries@) + labelled(sweep@) =~= labelled(self@));
        loop
            invariant
                entries_view(entries@) + labelled(sweep@) == labelled(self@),
            ensures
                entries_view(entries@) == labelled(self@),
            decreases sweep@.len(),
        {
            let ghost before = sweep@;
            let ghost emitted = entries@;
            match sweep.next() {
                None => {
                    assert(entries_view(entries@) + labelled(before) =~= entries_view(entries@));
                    break ;
                },
                Some(entry) => {
                    entries.push(entry);
                    assert(before =~= seq![before[0]] + sweep@);
                    assert(entries_view(entries@) =~= entries_view(emitted).push(
                        (before[0], binary_label(before[0])),
                    ));
                    assert(entries_view(entries@) + labelled(sweep@) =~= entries_view(emitted)
                        + labelled(before));
                },
            }
        }
        entries
    }
}

/// The smaller of a bound and a band edge.
fn cap(until: usize, edge: usize) -> (capped: usize)
    ensures
        capped == band_edge(until as nat, edge as nat),
{
    if until < edge {
        until
    } else {
        edge
    }
}

/// Returns the banded sweep from one byte up to `until` bytes: x16 steps
/// below 1 KiB, x8 steps below 1 MiB, x4 steps below 1 GiB and x2 steps
/// beyond. Its sizes grow strictly and lie in `[1, until]`.
///
/// The sweep starts at one byte, so `until` must be at least one.
pub fn size(until: usize) -> (sweep: Sweep)
    requires
        until > 0,
    ensures
        sweep@ == banded_sizes(until as nat),
        strictly_increasing(sweep@),
        all_within(sweep@, 1, until as nat),
{
    let kb_step: usize = cap(until, KB);
    let mb_step: usize = cap(until, MB);
    let gb_step: usize = cap(until, GB);

    let kb = SizeIterator::new(1, kb_step - 1).with_multiplier(16);
    let mb = SizeIterator::new(kb_step, mb_step - 1).with_multiplier(8);
    let gb = SizeIterator::new(mb_step, gb_step - 1).with_multiplier(4);
    let other = SizeIterator::new(gb_step, until);

    proof {
        lemma_banded_sizes_increasing(until as nat);
    }
    Sweep { kb, mb, gb, other }
}

} // verus!
