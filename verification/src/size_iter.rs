//! The generator of one size progression.

use crate::progression::{
    all_within, lemma_progression_increasing, lemma_progression_within_range,
    strictly_increasing, GeneratorState,
};
use crate::units::{
    binary_label, entries_view, entry_sizes, format_binary, labelled, lemma_entries_agree,
    lemma_entry_sizes,
};
use vstd::prelude::*;

verus! {

/// Why a generator could not be constructed.
#[derive(Clone, Copy, Debug, PartialEq, Eq, Structural)]
pub enum InvalidArgument {
    /// The progression was asked to start at zero, which no multiplier moves.
    ZeroStart,
    /// The multiplier was zero or one, which makes no progress.
    MultiplierTooSmall,
}

/// A generator of byte sizes that multiplies its size on every step and
/// stops before exceeding the bound given at construction. Its view is the
/// state it is in.
///
/// The position is kept in 128 bits: the first size beyond the bound is the
/// product of two machine words, and holding it exactly is what lets the
/// generator stop there for every bound, the largest word included.
pub struct SizeIterator {
    current: u128,
    end: usize,
    multiplier: usize,
}

impl View for SizeIterator {
    type V = GeneratorState;

    closed spec fn view(&self) -> GeneratorState {
        GeneratorState {
            current: self.current as nat,
            end: self.end as nat,
            multiplier: self.multiplier as nat,
        }
    }
}

impl SizeIterator {
    /// Every generator is in a well-formed state: its size is positive and
    /// its multiplier is at least two, so each step moves it forward.
    #[verifier::type_invariant]
    pub open spec fn inv(&self) -> bool {
        self@.wf()
    }

    /// Creates a generator over `[from, to]` that doubles its size on every
    /// step.
    pub fn new(from: usize, to: usize) -> (iter: SizeIterator)
        requires
            from > 0,
        ensures
            iter@ == (GeneratorState { current: from as nat, end: to as nat, multiplier: 2 }),
    {
        SizeIterator { current: from as u128, end: to, multiplier: 2 }
    }

    /// Creates a generator as [`SizeIterator::new`] does, or reports a start
    /// of zero.
    pub fn try_new(from: usize, to: usize) -> (made: Result<SizeIterator, InvalidArgument>)
        ensures
            from == 0 <==> made is Err,
            made matches Err(reason) ==> reason == InvalidArgument::ZeroStart,
            made matches Ok(iter) ==> iter@ == (GeneratorState {
                current: from as nat,
                end: to as nat,
                multiplier: 2,
            }),
    {
        if from == 0 {
            Err(InvalidArgument::ZeroStart)
        } else {
            Ok(SizeIterator::new(from, to))
        }
    }

    /// Replaces the multiplier and keeps position and bound.
    pub fn with_multiplier(self, multiplier: usize) -> (iter: SizeIterator)
        requires
            multiplier > 1,
        ensures
            iter@ == (GeneratorState { multiplier: multiplier as nat, ..self@ }),
    {
        proof {
            use_type_invariant(&self);
        }
        SizeIterator { current: self.current, end: self.end, multiplier }
    }

    /// Replaces the multiplier as [`SizeIterator::with_multiplier`] does, or
    /// reports a multiplier of zero or one.
    pub fn try_with_multiplier(self, multiplier: usize) -> (made: Result<
        SizeIterator,
        InvalidArgument,
    >)
        ensures
            multiplier <= 1 <==> made is Err,
            made matches Err(reason) ==> reason == InvalidArgument::MultiplierTooSmall,
            made matches Ok(iter) ==> iter@ == (GeneratorState {
                multiplier: multiplier as nat,
                ..self@
            }),
    {
        if multiplier <= 1 {
            Err(InvalidArgument::MultiplierTooSmall)
        } else {
            Ok(self.with_multiplier(multiplier))
        }
    }

    /// Emits the current size and moves on to the next, or reports that the
    /// progression has ended.
    pub fn next_size(&mut self) -> (size: Option<usize>)
        ensures
            old(self)@.exhausted() ==> size is None && final(self)@ == old(self)@,
            !old(self)@.exhausted() ==> final(self)@ == old(self)@.advance() && {
                &&& size matches Some(s)
                &&& s == old(self)@.current
            },
    {
        proof {
            use_type_invariant(&*self);
        }
        let current: u128 = self.current;
        if current > self.end as u128 {
            None
        } else {
            let multiplier: u128 = self.multiplier as u128;
            assert(current * multiplier <= u128::MAX && current * multiplier > 0)
                by (nonlinear_arith)
                requires
                    0 < current <= u64::MAX,
                    1 < multiplier <= u64::MAX,
            ;
            self.current = current * multiplier;
            Some(current as usize)
        }
    }

    /// Emits the current size with its label and moves on to the next, or
    /// reports that the progression has ended.
    pub fn next(&mut self) -> (entry: Option<(usize, String)>)
        ensures
            old(self)@.exhausted() ==> entry is None && final(self)@ == old(self)@,
            !old(self)@.exhausted() ==> final(self)@ == old(self)@.advance() && {
                &&& entry matches Some(e)
                &&& e.0 == old(self)@.current
                &&& e.1@ == binary_label(old(self)@.current)
            },
    {
        match self.next_size() {
            None => None,
            Some(size) => Some((size, format_binary(size))),
        }
    }

    /// Runs the generator to its end and returns every entry it emits.
    ///
    /// The entries are those of the remaining progression, each with its
    /// label. Their sizes grow strictly and lie between the current size and
    /// the bound.
    pub fn collect(self) -> (entries: Vec<(usize, String)>)
        ensures
            entries_view(entries@) == labelled(self@.remaining()),
            strictly_increasing(entry_sizes(entries@)),
            all_within(entry_sizes(entries@), self@.current, self@.end),
    {
        let mut iter = self;
        let mut entries: Vec<(usize, String)> = Vec::new();
        assert(entries_view(entries@) + labelled(iter@.remaining()) =~= labelled(
            self@.remaining(),
        ));
        loop
            invariant
                entries_view(entries@) + labelled(iter@.remaining()) == labelled(
                    self@.remaining(),
                ),
            ensures
                entries_view(entries@) == labelled(self@.remaining()),
            decreases iter@.remaining().len(),
        {
            proof {
                use_type_invariant(&iter);
                if !iter@.exhausted() {
                    iter@.lemma_advance();
                }
            }
            let ghost before = iter@;
            let ghost emitted = entries@;
            match iter.next() {
                None => {
                    assert(entries_view(entries@) + labelled(before.remaining()) =~= entries_view(
                        entries@,
                    ));
                    break ;
                },
                Some(entry) => {
                    entries.push(entry);
                    assert(entries_view(entries@) =~= entries_view(emitted).push(
                        (before.current, binary_label(before.current)),
                    ));
                    assert(entries_view(entries@) + labelled(iter@.remaining())
                        =~= entries_view(emitted) + labelled(before.remaining()));
                },
            }
        }
        proof {
            lemma_entry_sizes(entries@, self@.remaining());
            lemma_progression_increasing(self@.current, self@.end, self@.multiplier);
            lemma_progression_within_range(self@.current, self@.end, self@.multiplier);
        }
        entries
    }
}

/// A complete run is a function of the state it starts from: whatever
/// entries two runs from the same state return, they agree size for size and
/// label for label. Nothing outside the state takes part.
pub proof fn lemma_collect_deterministic(
    state: GeneratorState,
    first: Seq<(usize, String)>,
    second: Seq<(usize, String)>,
)
    requires
        entries_view(first) == labelled(state.remaining()),
        entries_view(second) == labelled(state.remaining()),
    ensures
        first.len() == second.len(),
        forall|i: int|
            0 <= i < first.len() ==> (#[trigger] first[i]).0 == second[i].0 && first[i].1@
                == second[i].1@,
{
    lemma_entries_agree(state.remaining(), first, second);
}

} // verus!
