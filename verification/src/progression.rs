//! The mathematical model of a size progression.
//!
//! A progression starts at a positive size and multiplies it by a fixed
//! factor greater than one for as long as the size stays within an inclusive
//! upper bound. Everything here is specification and proof; the executable
//! generator is stated against it.

use vstd::arithmetic::div_mod::{
    lemma_div_denominator, lemma_div_is_ordered, lemma_div_multiples_vanish,
    lemma_multiply_divide_lt,
};
use vstd::arithmetic::logarithm::{lemma_log0, lemma_log_s, log};
use vstd::arithmetic::power::{lemma_pow0, pow};
use vstd::prelude::*;

verus! {

/// How many integers lie in `[current, end]`. It bounds the number of steps
/// a progression can still take.
pub open spec fn span(current: nat, end: nat) -> nat {
    if current <= end {
        (end - current + 1) as nat
    } else {
        0
    }
}

/// One step moves a generator forward: a positive size times a multiplier of
/// at least two is a larger size.
pub proof fn lemma_step_grows(current: nat, multiplier: nat)
    requires
        current > 0,
        multiplier > 1,
    ensures
        current * multiplier > current,
{
    assert(current * multiplier > current) by (nonlinear_arith)
        requires
            current > 0,
            multiplier > 1,
    ;
}

/// The sizes `current, current * multiplier, current * multiplier^2, ...`
/// that do not exceed `end`, in the order in which they are produced.
///
/// A start of zero or a multiplier below two describes no progression, and
/// the sequence is empty.
pub open spec fn progression(current: nat, end: nat, multiplier: nat) -> Seq<nat>
    decreases span(current, end),
{
    if 0 < current <= end && multiplier > 1 {
        proof {
            lemma_step_grows(current, multiplier);
        }
        seq![current] + progression(current * multiplier, end, multiplier)
    } else {
        Seq::empty()
    }
}

/// Whether every size is smaller than all the sizes after it.
pub open spec fn strictly_increasing(sizes: Seq<nat>) -> bool {
    forall|i: int, j: int| 0 <= i < j < sizes.len() ==> #[trigger] sizes[i] < #[trigger] sizes[j]
}

/// Whether every size lies in `[low, high]`.
pub open spec fn all_within(sizes: Seq<nat>, low: nat, high: nat) -> bool {
    forall|i: int| 0 <= i < sizes.len() ==> low <= #[trigger] sizes[i] <= high
}

/// The state of a generator: the size it emits next, the inclusive bound
/// beyond which it stops, and the factor between one size and the next.
pub struct GeneratorState {
    pub current: nat,
    pub end: nat,
    pub multiplier: nat,
}

impl GeneratorState {
    /// A generator starts at a positive size and grows by a factor of at
    /// least two.
    pub open spec fn wf(self) -> bool {
        self.current > 0 && self.multiplier > 1
    }

    /// Whether the current size lies beyond the bound, so that nothing more
    /// is emitted.
    pub open spec fn exhausted(self) -> bool {
        self.current > self.end
    }

    /// The state after the current size has been emitted.
    pub open spec fn advance(self) -> GeneratorState {
        GeneratorState { current: self.current * self.multiplier, ..self }
    }

    /// The sizes that are still to be emitted, in order.
    pub open spec fn remaining(self) -> Seq<nat> {
        progression(self.current, self.end, self.multiplier)
    }

    /// Emitting a size keeps the state well-formed and moves it strictly
    /// forward, and what remains afterwards is what remained before without
    /// its first size.
    pub proof fn lemma_advance(self)
        requires
            self.wf(),
            !self.exhausted(),
        ensures
            self.advance().wf(),
            self.advance().current > self.current,
            self.remaining() == seq![self.current] + self.advance().remaining(),
    {
        lemma_step_grows(self.current, self.multiplier);
    }

    /// An exhausted state has nothing left to emit, and only an exhausted
    /// state has.
    pub proof fn lemma_exhausted(self)
        requires
            self.wf(),
        ensures
            self.exhausted() <==> self.remaining().len() == 0,
    {
    }
}

/// A progression that has not ended emits its current size first and then
/// goes on from the next one.
pub proof fn lemma_progression_step(current: nat, end: nat, multiplier: nat)
    requires
        0 < current <= end,
        multiplier > 1,
    ensures
        progression(current, end, multiplier).len() > 0,
        progression(current, end, multiplier)[0] == current,
        progression(current, end, multiplier).skip(1) == progression(
            current * multiplier,
            end,
            multiplier,
        ),
{
    let rest = progression(current * multiplier, end, multiplier);
    assert((seq![current] + rest).skip(1) =~= rest);
}

/// Every size of a progression lies between its start and its bound.
pub proof fn lemma_progression_within_range(current: nat, end: nat, multiplier: nat)
    ensures
        all_within(progression(current, end, multiplier), current, end),
    decreases span(current, end),
{
    if 0 < current <= end && multiplier > 1 {
        let next = current * multiplier;
        lemma_step_grows(current, multiplier);
        lemma_progression_within_range(next, end, multiplier);
        let all = progression(current, end, multiplier);
        let rest = progression(next, end, multiplier);
        assert forall|i: int| 0 <= i < all.len() implies current <= #[trigger] all[i] <= end by {
            if i > 0 {
                assert(all[i] == rest[i - 1]);
            }
        }
    }
}

/// The sizes of a progression grow strictly from one to the next, so no size
/// occurs twice.
pub proof fn lemma_progression_increasing(current: nat, end: nat, multiplier: nat)
    ensures
        strictly_increasing(progression(current, end, multiplier)),
    decreases span(current, end),
{
    if 0 < current <= end && multiplier > 1 {
        let next = current * multiplier;
        lemma_step_grows(current, multiplier);
        lemma_progression_increasing(next, end, multiplier);
        lemma_progression_within_range(next, end, multiplier);
        let all = progression(current, end, multiplier);
        let rest = progression(next, end, multiplier);
        assert forall|i: int, j: int| 0 <= i < j < all.len() implies #[trigger] all[i]
            < #[trigger] all[j] by {
            assert(all[j] == rest[j - 1]);
            if i > 0 {
                assert(all[i] == rest[i - 1]);
            }
        }
    }
}

/// The closed form of a progression: the size at position `i` is the start
/// times the `i`-th power of the multiplier, and the progression is as long
/// as it can be, because the term that would follow its last size exceeds
/// the bound.
pub proof fn lemma_progression_geometric(current: nat, end: nat, multiplier: nat)
    requires
        current > 0,
        multiplier > 1,
    ensures
        forall|i: int|
            0 <= i < progression(current, end, multiplier).len() ==> #[trigger] progression(
                current,
                end,
                multiplier,
            )[i] == current * pow(multiplier as int, i as nat),
        current * pow(multiplier as int, progression(current, end, multiplier).len()) > end,
    decreases span(current, end),
{
    let all = progression(current, end, multiplier);
    let m = multiplier as int;
    lemma_pow0(m);
    if current <= end {
        let next = current * multiplier;
        lemma_step_grows(current, multiplier);
        lemma_progression_geometric(next, end, multiplier);
        let rest = progression(next, end, multiplier);
        assert forall|k: nat| next * pow(m, k) == current * #[trigger] pow(m, k + 1) by {
            let tail = pow(m, k);
            reveal(pow);
            assert(pow(m, k + 1) == m * tail);
            assert((current * m) * tail == current * (m * tail)) by (nonlinear_arith);
        }
        assert forall|i: int| 0 <= i < all.len() implies #[trigger] all[i] == current * pow(
            m,
            i as nat,
        ) by {
            if i > 0 {
                let k = (i - 1) as nat;
                assert(all[i] == rest[i - 1]);
                assert(next * pow(m, k) == current * pow(m, k + 1));
            }
        }
        assert(next * pow(m, rest.len()) == current * pow(m, rest.len() + 1));
    }
}

/// How long a progression is: one size, and one more for every whole power
/// of the multiplier that fits into the ratio of bound to start. A generator
/// therefore ends after logarithmically many steps.
pub proof fn lemma_progression_len(current: nat, end: nat, multiplier: nat)
    requires
        0 < current <= end,
        multiplier > 1,
    ensures
        progression(current, end, multiplier).len() == 1 + log(
            multiplier as int,
            end as int / current as int,
        ),
    decreases span(current, end),
{
    let c = current as int;
    let e = end as int;
    let m = multiplier as int;
    let next = current * multiplier;
    lemma_step_grows(current, multiplier);
    let rest = progression(next, end, multiplier);
    assert(progression(current, end, multiplier).len() == 1 + rest.len());
    if next > end {
        assert(rest.len() == 0);
        assert(0 <= e / c < m) by {
            lemma_multiply_divide_lt(e, c, m);
            lemma_div_multiples_vanish(1, c);
            lemma_div_is_ordered(c, e, c);
        }
        lemma_log0(m, e / c);
    } else {
        lemma_progression_len(next, end, multiplier);
        assert(e / (c * m) == (e / c) / m) by {
            lemma_div_denominator(e, c, m);
        }
        assert(e / c >= m) by {
            lemma_div_multiples_vanish(m, c);
            lemma_div_is_ordered(c * m, e, c);
        }
        lemma_log_s(m, e / c);
    }
}

/// Two runs of sizes, the first wholly below the second, make one run when
/// the second is put behind the first: growth and bounds carry over.
pub proof fn lemma_concat_increasing(
    lower: Seq<nat>,
    upper: Seq<nat>,
    low: nat,
    split: nat,
    high: nat,
)
    requires
        low <= split + 1,
        split <= high,
        strictly_increasing(lower),
        strictly_increasing(upper),
        all_within(lower, low, split),
        all_within(upper, split + 1, high),
    ensures
        strictly_increasing(lower + upper),
        all_within(lower + upper, low, high),
{
    let all = lower + upper;
    assert forall|i: int| 0 <= i < all.len() implies low <= #[trigger] all[i] <= high by {
        if i < lower.len() {
            assert(all[i] == lower[i]);
        } else {
            assert(all[i] == upper[i - lower.len()]);
        }
    }
    assert forall|i: int, j: int| 0 <= i < j < all.len() implies #[trigger] all[i]
        < #[trigger] all[j] by {
        if j < lower.len() {
            assert(all[i] == lower[i] && all[j] == lower[j]);
        } else if i < lower.len() {
            assert(all[i] == lower[i] && all[j] == upper[j - lower.len()]);
        } else {
            assert(all[i] == upper[i - lower.len()] && all[j] == upper[j - lower.len()]);
        }
    }
}

} // verus!
