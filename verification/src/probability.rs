//! Discrete percentage probabilities.
//!
//! A `Probability` is an integer number of percent, between 0 and 100
//! inclusive. Keeping probabilities integral makes sums exactly checkable:
//! a damage table whose outgoing transitions sum past 100 is rejected at
//! construction instead of drifting silently.

use vstd::prelude::*;

use crate::rng::GameRng;

verus! {

/// The sum of the weights of a discrete probability table.
pub open spec fn sum_weights<T>(s: Seq<(T, Probability)>) -> int
    decreases s.len(),
{
    if s.len() == 0 {
        0
    } else {
        s[0].1.value() + sum_weights(s.drop_first())
    }
}

/// All weights of a table lie between 0 and 100.
pub open spec fn weights_wf<T>(s: Seq<(T, Probability)>) -> bool {
    forall|i: int| 0 <= i < s.len() ==> (#[trigger] s[i]).1.wf()
}

/// Splitting off the first `i` entries splits the sum.
pub proof fn lemma_sum_weights_split<T>(s: Seq<(T, Probability)>, i: int)
    requires
        0 <= i <= s.len(),
    ensures
        sum_weights(s) == sum_weights(s.take(i)) + sum_weights(s.skip(i)),
    decreases i,
{
    if i == 0 {
        assert(s.take(0) =~= Seq::<(T, Probability)>::empty());
        assert(s.skip(0) =~= s);
    } else {
        lemma_sum_weights_split(s.drop_first(), i - 1);
        assert(s.take(i).drop_first() =~= s.drop_first().take(i - 1));
        assert(s.drop_first().skip(i - 1) =~= s.skip(i));
        assert(sum_weights(s.take(i)) == s[0].1.value() + sum_weights(s.drop_first().take(i - 1)));
    }
}

/// Extending the taken prefix by one entry adds that entry's weight.
pub proof fn lemma_sum_weights_take_step<T>(s: Seq<(T, Probability)>, i: int)
    requires
        0 <= i < s.len(),
    ensures
        sum_weights(s.take(i + 1)) == sum_weights(s.take(i)) + s[i].1.value(),
    decreases i,
{
    if i == 0 {
        assert(s.take(1).drop_first() =~= Seq::<(T, Probability)>::empty());
        assert(s.take(0) =~= Seq::<(T, Probability)>::empty());
    } else {
        lemma_sum_weights_take_step(s.drop_first(), i - 1);
        assert(s.take(i + 1).drop_first() =~= s.drop_first().take(i));
        assert(s.take(i).drop_first() =~= s.drop_first().take(i - 1));
        assert(sum_weights(s.take(i + 1)) == s[0].1.value() + sum_weights(s.drop_first().take(i)));
        assert(sum_weights(s.take(i)) == s[0].1.value() + sum_weights(s.drop_first().take(i - 1)));
    }
}

/// The sum of a one-entry table is its weight.
pub proof fn lemma_sum_weights_singleton<T>(x: (T, Probability))
    ensures
        sum_weights(seq![x]) == x.1.value(),
{
    let s = seq![x];
    assert(s.len() == 1);
    assert(s[0] == x);
    assert(s.drop_first() =~= Seq::<(T, Probability)>::empty());
    assert(sum_weights(Seq::<(T, Probability)>::empty()) == 0);
}

/// The sum of a concatenation is the sum of the parts.
pub proof fn lemma_sum_weights_append<T>(a: Seq<(T, Probability)>, b: Seq<(T, Probability)>)
    ensures
        sum_weights(a + b) == sum_weights(a) + sum_weights(b),
    decreases a.len(),
{
    if a.len() == 0 {
        assert(a + b =~= b);
    } else {
        lemma_sum_weights_append(a.drop_first(), b);
        assert((a + b).drop_first() =~= a.drop_first() + b);
        assert(sum_weights(a + b) == (a + b)[0].1.value() + sum_weights((a + b).drop_first()));
        assert((a + b)[0] == a[0]);
    }
}

/// A sum of well-formed weights is never negative.
pub proof fn lemma_sum_weights_nonneg<T>(s: Seq<(T, Probability)>)
    requires
        weights_wf(s),
    ensures
        sum_weights(s) >= 0,
    decreases s.len(),
{
    if s.len() > 0 {
        assert(weights_wf(s.drop_first()));
        lemma_sum_weights_nonneg(s.drop_first());
    }
}

/// Error returned when a value or a sum of values leaves the closed
/// interval from 0 to 100.
#[derive(Debug, Clone, Copy, PartialEq, Eq, Structural)]
pub enum ProbabilityError {
    OutOfBounds,
}

/// An integer percentage between 0 and 100 inclusive.
#[derive(Debug, Clone, Copy, PartialEq, Eq, Structural)]
pub struct Probability(pub u8);

impl Probability {
    /// The raw percentage value.
    pub open spec fn value(self) -> int {
        self.0 as int
    }

    /// A probability is well formed when it lies between 0 and 100.
    pub open spec fn wf(self) -> bool {
        self.0 <= 100
    }

    /// Builds a probability, rejecting values above 100.
    pub fn new(p: u8) -> (r: Result<Self, ProbabilityError>)
        ensures
            p <= 100 <==> r == Ok::<Self, ProbabilityError>(Probability(p)),
            p > 100 <==> r == Err::<Self, ProbabilityError>(ProbabilityError::OutOfBounds),
    {
        if p > 100 {
            return Err(ProbabilityError::OutOfBounds);
        }
        Ok(Self(p))
    }

    /// The certain event.
    pub fn one() -> (r: Self)
        ensures
            r == Probability(100u8),
    {
        Self(100)
    }

    /// Builds a probability from a ratio of sizes: the integer part of
    /// `100 * numerator / denominator`. Rejects ratios above one, mirroring
    /// rejection of raw values above 100.
    pub fn from_ratio(numerator: u8, denominator: u8) -> (r: Result<Self, ProbabilityError>)
        requires
            denominator > 0,
        ensures
            r is Ok <==> numerator <= denominator,
            r matches Ok(p) ==> p.value() == 100 * numerator as int / denominator as int && p.wf(),
            r is Err <==> r == Err::<Self, ProbabilityError>(ProbabilityError::OutOfBounds)
                && numerator > denominator,
    {
        if numerator > denominator {
            return Err(ProbabilityError::OutOfBounds);
        }
        let scaled: u16 = 100u16 * (numerator as u16);
        let q: u16 = scaled / (denominator as u16);
        assert(q <= 100) by (nonlinear_arith)
            requires
                q == 100 * numerator as int / denominator as int,
                0 < denominator,
                numerator <= denominator,
        ;
        Ok(Self(q as u8))
    }

    /// Adds two probabilities, rejecting sums above 100.
    pub fn add(&self, rhs: &Probability) -> (r: Result<Self, ProbabilityError>)
        requires
            self.wf(),
            rhs.wf(),
        ensures
            self.value() + rhs.value() <= 100 <==> r == Ok::<Self, ProbabilityError>(
                Probability((self.value() + rhs.value()) as u8),
            ),
            self.value() + rhs.value() > 100 <==> r == Err::<Self, ProbabilityError>(
                ProbabilityError::OutOfBounds,
            ),
    {
        Self::new(self.0 + rhs.0)
    }

    /// Bernoulli draw: true with this probability.
    ///
    /// The draw is uniform over 0 to 99 and succeeds when it falls strictly
    /// below the percentage, so 0 never succeeds and 100 always does.
    pub fn roll(&self, rng: &mut GameRng) -> (r: bool)
        requires
            self.wf(),
        ensures
            self.value() == 0 ==> !r,
            self.value() == 100 ==> r,
            r ==> self.value() > 0,
            !r ==> self.value() < 100,
    {
        let draw = rng.draw_up_to(99);
        draw < self.0
    }

    /// Weighted discrete selection over a non-empty probability table.
    ///
    /// Fails with `OutOfBounds` exactly when the weights sum to more than
    /// 100. Otherwise draws uniformly between 0 and the total weight
    /// inclusive and scans the table, subtracting each weight from the draw
    /// and returning the first entry whose weight the running draw does not
    /// exceed; the scan cannot pass the last entry.
    pub fn choose_weighted<T>(rng: &mut GameRng, choices: Vec<(T, Probability)>) -> (r: Result<
        T,
        ProbabilityError,
    >)
        requires
            choices@.len() > 0,
            weights_wf(choices@),
        ensures
            r matches Ok(t) ==> exists|i: int|
                0 <= i < choices@.len() && (#[trigger] choices@[i]).0 == t,
            r is Ok <==> sum_weights(choices@) <= 100,
            r is Err <==> r == Err::<T, ProbabilityError>(ProbabilityError::OutOfBounds)
                && sum_weights(choices@) > 100,
    {
        let total = match total_weight(&choices) {
            Err(e) => {
                return Err(e);
            },
            Ok(total) => total,
        };
        let draw = rng.draw_up_to(total);
        let idx = scan_for_draw(&choices, draw);
        let mut items = choices;
        let pair = items.remove(idx);
        Ok(pair.0)
    }
}

/// The total weight of a table, rejected when it passes 100.
fn total_weight<T>(choices: &Vec<(T, Probability)>) -> (r: Result<u8, ProbabilityError>)
    requires
        weights_wf(choices@),
    ensures
        r matches Ok(t) ==> t == sum_weights(choices@) && t <= 100,
        r is Ok <==> sum_weights(choices@) <= 100,
        r is Err <==> r == Err::<u8, ProbabilityError>(ProbabilityError::OutOfBounds)
            && sum_weights(choices@) > 100,
{
    let n = choices.len();
    let mut total: u16 = 0;
    let mut i: usize = 0;
    while i < n
        invariant
            0 <= i <= n,
            n == choices@.len(),
            weights_wf(choices@),
            total == sum_weights(choices@.take(i as int)),
            total <= 100,
        decreases n - i,
    {
        let ghost cs = choices@;
        let w = choices[i].1.0;
        proof {
            lemma_sum_weights_take_step(cs, i as int);
            assert(cs[i as int].1.0 == w);
        }
        if total + (w as u16) > 100 {
            proof {
                assert(sum_weights(cs.take(i as int + 1)) > 100);
                lemma_sum_weights_split(cs, i as int + 1);
                assert(weights_wf(cs.skip(i as int + 1))) by {
                    assert forall|k: int|
                        0 <= k < cs.skip(i as int + 1).len() implies (#[trigger] cs.skip(
                        i as int + 1,
                    )[k]).1.wf() by {
                        assert(cs.skip(i as int + 1)[k] == cs[k + i as int + 1]);
                    }
                }
                lemma_sum_weights_nonneg(cs.skip(i as int + 1));
                assert(sum_weights(cs) > 100);
            }
            return Err(ProbabilityError::OutOfBounds);
        }
        total = total + (w as u16);
        i = i + 1;
    }
    proof {
        assert(choices@.take(n as int) =~= choices@);
    }
    Ok(total as u8)
}

/// The index the scan settles on: weights are subtracted from the draw in
/// turn and the first entry whose weight the running draw does not exceed is
/// chosen; the scan never passes the last entry.
fn scan_for_draw<T>(choices: &Vec<(T, Probability)>, draw: u8) -> (idx: usize)
    requires
        choices@.len() > 0,
    ensures
        idx < choices@.len(),
{
    let n = choices.len();
    let mut draw = draw;
    let mut j: usize = 0;
    while j < n - 1
        invariant
            0 <= j <= n - 1,
            n == choices@.len(),
        decreases n - j,
    {
        let w = choices[j].1.0;
        if draw <= w {
            return j;
        }
        draw = draw - w;
        j = j + 1;
    }
    n - 1
}

} // verus!
