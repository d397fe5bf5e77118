//! Characters' bodies and the probabilistic damage model.
//!
//! An actor's anatomy is a tree of body parts, each with a size, a health
//! state and a set of status effects. A `Damage` specification is a validated
//! table of state-transition and status-effect probabilities; applying it
//! picks a node weighted by relative size, then draws the node's new state
//! and a new status effect.

use vstd::prelude::*;

use crate::constants::DEFAULT_ARM_SIZE;
use crate::constants::DEFAULT_BODY_SIZE;
use crate::constants::DEFAULT_FOOT_SIZE;
use crate::constants::DEFAULT_HAND_SIZE;
use crate::constants::DEFAULT_HEAD_SIZE;
use crate::constants::DEFAULT_LEG_SIZE;
use crate::probability::Probability;
use crate::probability::ProbabilityError;
use crate::probability::sum_weights;
use crate::probability::weights_wf;
use crate::rng::GameRng;

verus! {

/// The transition weight leaving `from` that the entries of a table carry:
/// the sum of the probabilities of all entries keyed by an initial state,
/// self-loops included.
pub open spec fn outgoing_sum(
    s: Seq<((BodyPartState, BodyPartState), Probability)>,
    from: BodyPartState,
) -> int
    decreases s.len(),
{
    if s.len() == 0 {
        0
    } else {
        (if s[0].0.0 == from {
            s[0].1.value()
        } else {
            0
        }) + outgoing_sum(s.drop_first(), from)
    }
}

/// The explicit transitions leaving `from` for a different state, in table
/// order, keyed by the state they lead to.
pub open spec fn transitions_from(
    s: Seq<((BodyPartState, BodyPartState), Probability)>,
    from: BodyPartState,
) -> Seq<(BodyPartState, Probability)>
    decreases s.len(),
{
    if s.len() == 0 {
        Seq::empty()
    } else {
        (if s[0].0.0 == from && s[0].0.1 != from {
            seq![(s[0].0.1, s[0].1)]
        } else {
            Seq::empty()
        }) + transitions_from(s.drop_first(), from)
    }
}

/// An actor's anatomy, as a component: exactly one body-part tree.
#[derive(Debug)]
pub struct BodyComponent(pub BodyPartTreeNode);

/// An actor's position, as a component.
#[derive(Debug, Clone, Copy, PartialEq, Eq, Structural)]
pub struct LocationComponent(pub crate::map::MapLocation);

impl LocationComponent {
    /// Shifts the position in place.
    pub fn translate(&mut self, amount: crate::map::TileLocation)
        requires
            i32::MIN <= old(self).0.tile_location.i + amount.i <= i32::MAX,
            i32::MIN <= old(self).0.tile_location.j + amount.j <= i32::MAX,
        ensures
            final(self).0.map_layer == old(self).0.map_layer,
            final(self).0.tile_location.i == old(self).0.tile_location.i + amount.i,
            final(self).0.tile_location.j == old(self).0.tile_location.j + amount.j,
    {
        self.0.translate(amount);
    }

    /// The position shifted by an offset.
    pub fn translated(&self, amount: crate::map::TileLocation) -> (r: Self)
        requires
            i32::MIN <= self.0.tile_location.i + amount.i <= i32::MAX,
            i32::MIN <= self.0.tile_location.j + amount.j <= i32::MAX,
        ensures
            r.0.map_layer == self.0.map_layer,
            r.0.tile_location.i == self.0.tile_location.i + amount.i,
            r.0.tile_location.j == self.0.tile_location.j + amount.j,
    {
        let mut to_return = *self;
        to_return.translate(amount);
        to_return
    }
}

/// Per-actor countdown of ticks until the next turn is due.
#[derive(Debug, Clone, Copy, PartialEq, Eq, Structural)]
pub struct ActionClockComponent(pub u8);

impl ActionClockComponent {
    /// Counts the clock down, saturating at zero, and reports whether it
    /// reached zero.
    pub fn tick(&mut self, amount: u8) -> (finished: bool)
        ensures
            final(self).0 == if old(self).0 >= amount {
                old(self).0 - amount
            } else {
                0
            },
            finished == (final(self).0 == 0),
    {
        self.0 = self.0.saturating_sub(amount);
        self.finished()
    }

    /// A clock is finished when it has run out.
    pub fn finished(&self) -> (r: bool)
        ensures
            r == (self.0 == 0),
    {
        self.0 == 0
    }

    /// Re-arms the clock with the cost of a newly chosen action.
    pub fn reset(&mut self, ticks: u8)
        ensures
            final(self).0 == ticks,
    {
        self.0 = ticks;
    }
}

/// The kinds of body part an anatomy is built from.
#[derive(Debug, Clone, Copy, PartialEq, Eq, Structural)]
pub enum BodyPartType {
    Body,
    Head,
    Arm,
    Hand,
    Leg,
    Foot,
}

impl BodyPartType {
    /// The relative size of a part of this kind.
    pub open spec fn spec_size(self) -> int {
        match self {
            BodyPartType::Body => DEFAULT_BODY_SIZE as int,
            BodyPartType::Head => DEFAULT_HEAD_SIZE as int,
            BodyPartType::Arm => DEFAULT_ARM_SIZE as int,
            BodyPartType::Leg => DEFAULT_LEG_SIZE as int,
            BodyPartType::Hand => DEFAULT_HAND_SIZE as int,
            BodyPartType::Foot => DEFAULT_FOOT_SIZE as int,
        }
    }

    /// Every kind of body part.
    pub fn all() -> (r: Vec<Self>)
        ensures
            r@ =~= seq![
                BodyPartType::Body,
                BodyPartType::Head,
                BodyPartType::Arm,
                BodyPartType::Hand,
                BodyPartType::Leg,
                BodyPartType::Foot,
            ],
    {
        let mut v: Vec<Self> = Vec::new();
        v.push(BodyPartType::Body);
        v.push(BodyPartType::Head);
        v.push(BodyPartType::Arm);
        v.push(BodyPartType::Hand);
        v.push(BodyPartType::Leg);
        v.push(BodyPartType::Foot);
        v
    }

    /// The relative size of a part of this kind, used to weight damage.
    pub fn get_size(&self) -> (r: u8)
        ensures
            r == self.spec_size(),
            r > 0,
    {
        match self {
            BodyPartType::Body => DEFAULT_BODY_SIZE,
            BodyPartType::Head => DEFAULT_HEAD_SIZE,
            BodyPartType::Arm => DEFAULT_ARM_SIZE,
            BodyPartType::Leg => DEFAULT_LEG_SIZE,
            BodyPartType::Hand => DEFAULT_HAND_SIZE,
            BodyPartType::Foot => DEFAULT_FOOT_SIZE,
        }
    }

    /// The kind's display name.
    pub open spec fn spec_name(self) -> Seq<char> {
        match self {
            BodyPartType::Body => "Body"@,
            BodyPartType::Head => "Head"@,
            BodyPartType::Arm => "Arm"@,
            BodyPartType::Hand => "Hand"@,
            BodyPartType::Leg => "Leg"@,
            BodyPartType::Foot => "Foot"@,
        }
    }

    /// The kind's display name.
    pub fn to_string(&self) -> (r: String)
        ensures
            r@ == self.spec_name(),
    {
        match self {
            BodyPartType::Body => String::from_str("Body"),
            BodyPartType::Head => String::from_str("Head"),
            BodyPartType::Arm => String::from_str("Arm"),
            BodyPartType::Hand => String::from_str("Hand"),
            BodyPartType::Leg => String::from_str("Leg"),
            BodyPartType::Foot => String::from_str("Foot"),
        }
    }

    /// Whether an effect can apply to this kind of part.
    pub fn is_status_effect_applicable(&self, status_effect: BodyPartStatusEffect) -> (r: bool)
        ensures
            r == status_effect.spec_applicable(*self),
    {
        match status_effect {
            BodyPartStatusEffect::Blind | BodyPartStatusEffect::Deaf => matches!(
                self,
                BodyPartType::Head
            ),
            _ => true,
        }
    }
}

/// The health states a body part passes through.
#[derive(Debug, Clone, Copy, PartialEq, Eq, Hash, Structural)]
pub enum BodyPartState {
    Okay,
    Nonfunctional,
    Destroyed,
}

impl BodyPartState {
    /// The state's display name.
    pub open spec fn spec_name(self) -> Seq<char> {
        match self {
            BodyPartState::Okay => "Okay"@,
            BodyPartState::Nonfunctional => "Nonfunctional"@,
            BodyPartState::Destroyed => "Destroyed"@,
        }
    }

    /// The state's display name.
    pub fn to_string(&self) -> (r: String)
        ensures
            r@ == self.spec_name(),
    {
        match self {
            BodyPartState::Okay => String::from_str("Okay"),
            BodyPartState::Nonfunctional => String::from_str("Nonfunctional"),
            BodyPartState::Destroyed => String::from_str("Destroyed"),
        }
    }
}

/// Lasting afflictions a body part can carry.
#[derive(Debug, Clone, Copy, PartialEq, Eq, Hash, Structural)]
pub enum BodyPartStatusEffect {
    Blind,
    Deaf,
    Bleeding,
    Infected,
    Cancerous,
}

impl BodyPartStatusEffect {
    /// Sight and hearing belong to the head; the other effects can strike
    /// any part.
    pub open spec fn spec_applicable(self, t: BodyPartType) -> bool {
        match self {
            BodyPartStatusEffect::Blind | BodyPartStatusEffect::Deaf => t == BodyPartType::Head,
            _ => true,
        }
    }

    /// The effect's display name.
    pub open spec fn spec_name(self) -> Seq<char> {
        match self {
            BodyPartStatusEffect::Blind => "Blind"@,
            BodyPartStatusEffect::Deaf => "Deaf"@,
            BodyPartStatusEffect::Bleeding => "Bleeding"@,
            BodyPartStatusEffect::Infected => "Infected"@,
            BodyPartStatusEffect::Cancerous => "Cancerous"@,
        }
    }

    /// The effect's display name.
    pub fn to_string(&self) -> (r: String)
        ensures
            r@ == self.spec_name(),
    {
        match self {
            BodyPartStatusEffect::Blind => String::from_str("Blind"),
            BodyPartStatusEffect::Deaf => String::from_str("Deaf"),
            BodyPartStatusEffect::Bleeding => String::from_str("Bleeding"),
            BodyPartStatusEffect::Infected => String::from_str("Infected"),
            BodyPartStatusEffect::Cancerous => String::from_str("Cancerous"),
        }
    }

    /// Prints a status set: the names of the effects it holds, in
    /// alphabetical order, separated by commas.
    pub fn pretty_print_set(v: &Vec<Self>) -> (r: String)
        ensures
            r@ == spec_pretty_statuses(v@),
    {
        let mut out = String::new();
        let mut any = false;
        if effects_contain(v, BodyPartStatusEffect::Bleeding) {
            out.append("Bleeding");
            any = true;
        }
        proof {
            assert(out@ == spec_join_step(
                Seq::empty(),
                v@.contains(BodyPartStatusEffect::Bleeding),
                "Bleeding"@,
            )) by {
                assert(Seq::<char>::empty() + "Bleeding"@ =~= "Bleeding"@);
                assert(any ==> out@.len() > 0) by {
                    reveal_strlit("Bleeding");
                }
            }
            assert(any <==> out@.len() > 0) by {
                reveal_strlit("Bleeding");
                reveal_strlit("");
            }
        }
        if effects_contain(v, BodyPartStatusEffect::Blind) {
            if any {
                out.append(", ");
            }
            out.append("Blind");
            any = true;
        }
        proof {
            let a = spec_join_step(
                Seq::empty(),
                v@.contains(BodyPartStatusEffect::Bleeding),
                "Bleeding"@,
            );
            assert(out@ == spec_join_step(a, v@.contains(BodyPartStatusEffect::Blind), "Blind"@));
            assert(any <==> out@.len() > 0) by {
                reveal_strlit("Bleeding");
                reveal_strlit("Blind");
            }
        }
        if effects_contain(v, BodyPartStatusEffect::Cancerous) {
            if any {
                out.append(", ");
            }
            out.append("Cancerous");
            any = true;
        }
        proof {
            let a = spec_join_step(
                Seq::empty(),
                v@.contains(BodyPartStatusEffect::Bleeding),
                "Bleeding"@,
            );
            let b = spec_join_step(a, v@.contains(BodyPartStatusEffect::Blind), "Blind"@);
            assert(out@ == spec_join_step(
                b,
                v@.contains(BodyPartStatusEffect::Cancerous),
                "Cancerous"@,
            ));
            assert(any <==> out@.len() > 0) by {
                reveal_strlit("Bleeding");
                reveal_strlit("Blind");
                reveal_strlit("Cancerous");
            }
        }
        if effects_contain(v, BodyPartStatusEffect::Deaf) {
            if any {
                out.append(", ");
            }
            out.append("Deaf");
            any = true;
        }
        proof {
            let a = spec_join_step(
                Seq::empty(),
                v@.contains(BodyPartStatusEffect::Bleeding),
                "Bleeding"@,
            );
            let b = spec_join_step(a, v@.contains(BodyPartStatusEffect::Blind), "Blind"@);
            let c = spec_join_step(b, v@.contains(BodyPartStatusEffect::Cancerous), "Cancerous"@);
            assert(out@ == spec_join_step(c, v@.contains(BodyPartStatusEffect::Deaf), "Deaf"@));
            assert(any <==> out@.len() > 0) by {
                reveal_strlit("Bleeding");
                reveal_strlit("Blind");
                reveal_strlit("Cancerous");
                reveal_strlit("Deaf");
            }
        }
        if effects_contain(v, BodyPartStatusEffect::Infected) {
            if any {
                out.append(", ");
            }
            out.append("Infected");
        }
        out
    }

    /// The kinds of part this effect can apply to.
    pub fn get_applicable_bodyparts(&self) -> (r: Vec<BodyPartType>)
        ensures
            forall|t: BodyPartType| r@.contains(t) == self.spec_applicable(t),
    {
        match self {
            BodyPartStatusEffect::Blind | BodyPartStatusEffect::Deaf => {
                let mut v: Vec<BodyPartType> = Vec::new();
                v.push(BodyPartType::Head);
                proof {
                    assert(forall|t: BodyPartType| #[trigger] v@.contains(t) ==> v@[choose|i: int|
                        0 <= i < v@.len() && v@[i] == t] == t);
                    assert(v@[0] == BodyPartType::Head);
                    assert(v@.contains(BodyPartType::Head));
                }
                v
            },
            _ => {
                let v = BodyPartType::all();
                proof {
                    assert(forall|t: BodyPartType| v@.contains(t) ==> true);
                    assert(v@.contains(BodyPartType::Body) && v@.contains(BodyPartType::Head)
                        && v@.contains(BodyPartType::Arm) && v@.contains(BodyPartType::Hand)
                        && v@.contains(BodyPartType::Leg) && v@.contains(BodyPartType::Foot)) by {
                        assert(v@[0] == BodyPartType::Body);
                        assert(v@[1] == BodyPartType::Head);
                        assert(v@[2] == BodyPartType::Arm);
                        assert(v@[3] == BodyPartType::Hand);
                        assert(v@[4] == BodyPartType::Leg);
                        assert(v@[5] == BodyPartType::Foot);
                    }
                    assert forall|t: BodyPartType| v@.contains(t) by {
                        match t {
                            BodyPartType::Body => assert(v@.contains(BodyPartType::Body)),
                            BodyPartType::Head => assert(v@.contains(BodyPartType::Head)),
                            BodyPartType::Arm => assert(v@.contains(BodyPartType::Arm)),
                            BodyPartType::Hand => assert(v@.contains(BodyPartType::Hand)),
                            BodyPartType::Leg => assert(v@.contains(BodyPartType::Leg)),
                            BodyPartType::Foot => assert(v@.contains(BodyPartType::Foot)),
                        }
                    }
                }
                v
            },
        }
    }
}

/// One step of accumulating a comma-separated list: appends the name when
/// present, with a separator once something already stands in the line.
pub open spec fn spec_join_step(acc: Seq<char>, present: bool, name: Seq<char>) -> Seq<char> {
    if !present {
        acc
    } else if acc.len() == 0 {
        name
    } else {
        acc + ", "@ + name
    }
}

/// The printed form of a status set: the names of the effects it holds, in
/// alphabetical order, separated by commas.
pub open spec fn spec_pretty_statuses(s: Seq<BodyPartStatusEffect>) -> Seq<char> {
    let a = spec_join_step(Seq::empty(), s.contains(BodyPartStatusEffect::Bleeding), "Bleeding"@);
    let b = spec_join_step(a, s.contains(BodyPartStatusEffect::Blind), "Blind"@);
    let c = spec_join_step(b, s.contains(BodyPartStatusEffect::Cancerous), "Cancerous"@);
    let d = spec_join_step(c, s.contains(BodyPartStatusEffect::Deaf), "Deaf"@);
    spec_join_step(d, s.contains(BodyPartStatusEffect::Infected), "Infected"@)
}

/// A three-state answer: "not applicable" is distinct from "no".
#[derive(Debug, Clone, Copy, PartialEq, Eq, Structural)]
pub enum PartialBool {
    True,
    False,
    NotApplicable,
}

impl From<bool> for PartialBool {
    fn from(value: bool) -> (r: Self) {
        if value {
            PartialBool::True
        } else {
            PartialBool::False
        }
    }
}

impl vstd::std_specs::convert::FromSpecImpl<bool> for PartialBool {
    open spec fn obeys_from_spec() -> bool {
        true
    }

    open spec fn from_spec(value: bool) -> Self {
        if value {
            PartialBool::True
        } else {
            PartialBool::False
        }
    }
}

/// Extending a table prefix adds the entry's weight where its key matches.
proof fn lemma_outgoing_sum_take_step(
    s: Seq<((BodyPartState, BodyPartState), Probability)>,
    from: BodyPartState,
    i: int,
)
    requires
        0 <= i < s.len(),
    ensures
        outgoing_sum(s.take(i + 1), from) == outgoing_sum(s.take(i), from) + (if s[i].0.0 == from {
            s[i].1.value()
        } else {
            0
        }),
    decreases i,
{
    if i == 0 {
        assert(s.take(1).drop_first() =~= Seq::<((BodyPartState, BodyPartState),
            Probability,
        )>::empty());
        assert(s.take(0) =~= Seq::<((BodyPartState, BodyPartState), Probability)>::empty());
    } else {
        lemma_outgoing_sum_take_step(s.drop_first(), from, i - 1);
        assert(s.take(i + 1).drop_first() =~= s.drop_first().take(i));
        assert(s.take(i).drop_first() =~= s.drop_first().take(i - 1));
    }
}

/// A table prefix never carries more outgoing weight than the whole table.
proof fn lemma_outgoing_sum_take_le(
    s: Seq<((BodyPartState, BodyPartState), Probability)>,
    from: BodyPartState,
    i: int,
)
    requires
        weights_wf(s),
        0 <= i <= s.len(),
    ensures
        outgoing_sum(s.take(i), from) <= outgoing_sum(s, from),
    decreases s.len() - i,
{
    if i < s.len() {
        lemma_outgoing_sum_take_step(s, from, i);
        lemma_outgoing_sum_take_le(s, from, i + 1);
    } else {
        assert(s.take(i) =~= s);
    }
}

/// Extending a table prefix extends the explicit transitions it yields.
proof fn lemma_transitions_from_take_step(
    s: Seq<((BodyPartState, BodyPartState), Probability)>,
    from: BodyPartState,
    i: int,
)
    requires
        0 <= i < s.len(),
    ensures
        transitions_from(s.take(i + 1), from) == transitions_from(s.take(i), from) + (if s[i].0.0
            == from && s[i].0.1 != from {
            seq![(s[i].0.1, s[i].1)]
        } else {
            Seq::empty()
        }),
    decreases i,
{
    if i == 0 {
        assert(s.take(1).drop_first() =~= Seq::<((BodyPartState, BodyPartState),
            Probability,
        )>::empty());
        assert(s.take(0) =~= Seq::<((BodyPartState, BodyPartState), Probability)>::empty());
        assert(transitions_from(s.take(0), from) =~= Seq::<(BodyPartState, Probability)>::empty());
        if s[0].0.0 == from && s[0].0.1 != from {
            assert(transitions_from(s.take(1), from) =~= seq![(s[0].0.1, s[0].1)]);
            assert(transitions_from(s.take(0), from) + seq![(s[0].0.1, s[0].1)] =~= seq![
                (s[0].0.1, s[0].1),
            ]);
        } else {
            assert(transitions_from(s.take(1), from) =~= Seq::<(BodyPartState,
                Probability,
            )>::empty());
            assert(transitions_from(s.take(0), from) + Seq::<(BodyPartState,
                Probability,
            )>::empty() =~= Seq::<(BodyPartState, Probability)>::empty());
        }
    } else {
        lemma_transitions_from_take_step(s.drop_first(), from, i - 1);
        assert(s.take(i + 1).drop_first() =~= s.drop_first().take(i));
        assert(s.take(i).drop_first() =~= s.drop_first().take(i - 1));
        assert(s.take(i + 1)[0] == s[0]);
        assert(s.take(i)[0] == s[0]);
        let head: Seq<(BodyPartState, Probability)> = if s[0].0.0 == from && s[0].0.1 != from {
            seq![(s[0].0.1, s[0].1)]
        } else {
            Seq::empty()
        };
        let tail_step: Seq<(BodyPartState, Probability)> = if s[i].0.0 == from && s[i].0.1 != from {
            seq![(s[i].0.1, s[i].1)]
        } else {
            Seq::empty()
        };
        assert(s.drop_first()[i - 1] == s[i]);
        assert(transitions_from(s.take(i + 1), from) == head + (transitions_from(
            s.drop_first().take(i - 1),
            from,
        ) + tail_step));
        assert(head + (transitions_from(s.drop_first().take(i - 1), from) + tail_step) =~= (head
            + transitions_from(s.drop_first().take(i - 1), from)) + tail_step);
    }
}

/// The explicit transitions leaving a state never outweigh all entries
/// leaving it.
proof fn lemma_transitions_from_sum_le(
    s: Seq<((BodyPartState, BodyPartState), Probability)>,
    from: BodyPartState,
)
    requires
        weights_wf(s),
    ensures
        sum_weights(transitions_from(s, from)) <= outgoing_sum(s, from),
        weights_wf(transitions_from(s, from)),
    decreases s.len(),
{
    if s.len() == 0 {
    } else {
        assert(weights_wf(s.drop_first()));
        lemma_transitions_from_sum_le(s.drop_first(), from);
        let head: Seq<(BodyPartState, Probability)> = if s[0].0.0 == from && s[0].0.1 != from {
            seq![(s[0].0.1, s[0].1)]
        } else {
            Seq::empty()
        };
        crate::probability::lemma_sum_weights_append(head, transitions_from(s.drop_first(), from));
        assert(s[0].1.wf());
        if s[0].0.0 == from && s[0].0.1 != from {
            crate::probability::lemma_sum_weights_singleton((s[0].0.1, s[0].1));
        } else {
            assert(sum_weights(head) == 0);
        }
        let combined = head + transitions_from(s.drop_first(), from);
        assert(weights_wf(combined)) by {
            assert forall|k: int| 0 <= k < combined.len() implies (#[trigger] combined[k]).1.wf() by {
                if k < head.len() {
                    assert(combined[k] == head[k]);
                } else {
                    assert(combined[k] == transitions_from(s.drop_first(), from)[k - head.len()]);
                }
            }
        }
    }
}

/// A damage specification: a table of state-transition probabilities and a
/// table of status-effect probabilities. Construction checks that for every
/// initial state the outgoing transition weight does not pass 100; the
/// complementary "remain in place" weight is injected when transitions are
/// queried.
#[derive(Debug, Clone)]
pub struct Damage {
    pub state_transition_probabilities: Vec<((BodyPartState, BodyPartState), Probability)>,
    pub status_effect_probabilities: Vec<(BodyPartStatusEffect, Probability)>,
}

/// True when the first components of the entries are pairwise distinct, so
/// the list stands for a mapping.
pub open spec fn unique_keys<K, V>(s: Seq<(K, V)>) -> bool {
    forall|i: int, j: int| 0 <= i < j < s.len() ==> s[i].0 != s[j].0
}

impl Damage {
    /// A validated table: probabilities in range, keys unique, and from every
    /// initial state at most a total weight of 100 leaving it.
    pub open spec fn wf(self) -> bool {
        &&& weights_wf(self.state_transition_probabilities@)
        &&& weights_wf(self.status_effect_probabilities@)
        &&& unique_keys(self.state_transition_probabilities@)
        &&& unique_keys(self.status_effect_probabilities@)
        &&& forall|s: BodyPartState|
            outgoing_sum(self.state_transition_probabilities@, s) <= 100
    }

    /// A status table a damage draw can be made from: non-empty, with total
    /// weight at most 100.
    pub open spec fn statuses_drawable(self) -> bool {
        &&& self.status_effect_probabilities@.len() > 0
        &&& sum_weights(self.status_effect_probabilities@) <= 100
    }

    /// Validates and builds a damage specification. Fails with `OutOfBounds`
    /// exactly when some initial state's outgoing transition weight passes
    /// 100.
    pub fn new(
        state_transition_probabilities: Vec<((BodyPartState, BodyPartState), Probability)>,
        status_effect_probabilities: Vec<(BodyPartStatusEffect, Probability)>,
    ) -> (r: Result<Self, ProbabilityError>)
        requires
            weights_wf(state_transition_probabilities@),
            weights_wf(status_effect_probabilities@),
            unique_keys(state_transition_probabilities@),
            unique_keys(status_effect_probabilities@),
        ensures
            r matches Ok(d) ==> d == (Damage {
                state_transition_probabilities,
                status_effect_probabilities,
            }) && d.wf(),
            r is Ok <==> forall|s: BodyPartState|
                outgoing_sum(state_transition_probabilities@, s) <= 100,
            r is Err <==> r == Err::<Self, ProbabilityError>(ProbabilityError::OutOfBounds)
                && exists|s: BodyPartState|
                outgoing_sum(state_transition_probabilities@, s) > 100,
    {
        if outgoing_exceeds_100(&state_transition_probabilities, BodyPartState::Okay)
            || outgoing_exceeds_100(&state_transition_probabilities, BodyPartState::Nonfunctional)
            || outgoing_exceeds_100(&state_transition_probabilities, BodyPartState::Destroyed) {
            return Err(ProbabilityError::OutOfBounds);
        }
        proof {
            assert forall|s: BodyPartState|
                outgoing_sum(state_transition_probabilities@, s) <= 100 by {
                match s {
                    BodyPartState::Okay => {},
                    BodyPartState::Nonfunctional => {},
                    BodyPartState::Destroyed => {},
                }
            }
        }
        Ok(Self { state_transition_probabilities, status_effect_probabilities })
    }

    /// The transition table read from one initial state: its explicit
    /// transitions to other states, then the complementary weight of staying
    /// put, so that the whole mapping's weights sum to exactly 100. Never
    /// fails on a validated specification.
    pub fn get_state_transitions_from(&self, initial_state: BodyPartState) -> (r: Result<
        Vec<(BodyPartState, Probability)>,
        ProbabilityError,
    >)
        requires
            self.wf(),
        ensures
            r is Ok,
            r matches Ok(v) ==> {
                &&& v@ == transitions_from(
                    self.state_transition_probabilities@,
                    initial_state,
                ).push(
                    (
                        initial_state,
                        Probability(
                            (100 - sum_weights(
                                transitions_from(
                                    self.state_transition_probabilities@,
                                    initial_state,
                                ),
                            )) as u8,
                        ),
                    ),
                )
                &&& sum_weights(v@) == 100
                &&& weights_wf(v@)
                &&& v@.len() >= 1
            },
    {
        let tr = &self.state_transition_probabilities;
        let n = tr.len();
        let mut result: Vec<(BodyPartState, Probability)> = Vec::new();
        let mut total: u8 = 0;
        let mut i: usize = 0;
        while i < n
            invariant
                0 <= i <= n,
                n == tr@.len(),
                weights_wf(tr@),
                forall|s: BodyPartState| outgoing_sum(tr@, s) <= 100,
                result@ == transitions_from(tr@.take(i as int), initial_state),
                total == sum_weights(result@),
                total <= 100,
                weights_wf(result@),
            decreases n - i,
        {
            let entry = &tr[i];
            proof {
                lemma_transitions_from_take_step(tr@, initial_state, i as int);
            }
            if entry.0.0 == initial_state && entry.0.1 != initial_state {
                proof {
                    let e = tr@[i as int];
                    let mapped = seq![(e.0.1, e.1)];
                    crate::probability::lemma_sum_weights_append(
                        transitions_from(tr@.take(i as int), initial_state),
                        mapped,
                    );
                    crate::probability::lemma_sum_weights_singleton((e.0.1, e.1));
                    lemma_transitions_from_sum_le(tr@.take(i as int + 1), initial_state);
                    lemma_outgoing_sum_take_le(tr@, initial_state, i as int + 1);
                    let pushed = result@.push((e.0.1, e.1));
                    assert(pushed =~= result@ + mapped);
                    assert(weights_wf(pushed)) by {
                        assert forall|k: int|
                            0 <= k < pushed.len() implies (#[trigger] pushed[k]).1.wf() by {
                            if k < result@.len() {
                                assert(pushed[k] == result@[k]);
                            } else {
                                assert(pushed[k] == (e.0.1, e.1));
                                assert(e.1.wf());
                            }
                        }
                    }
                }
                result.push((entry.0.1, entry.1));
                total = total + entry.1.0;
            } else {
                proof {
                    assert(transitions_from(tr@.take(i as int + 1), initial_state) =~= result@);
                }
            }
            i = i + 1;
        }
        proof {
            assert(tr@.take(n as int) =~= tr@);
        }
        let remaining = Probability(100 - total);
        proof {
            crate::probability::lemma_sum_weights_append(
                result@,
                seq![(initial_state, remaining)],
            );
            crate::probability::lemma_sum_weights_singleton((initial_state, remaining));
            assert(result@.push((initial_state, remaining)) =~= result@ + seq![
                (initial_state, remaining),
            ]);
            let pushed = result@.push((initial_state, remaining));
            assert(weights_wf(pushed)) by {
                assert forall|k: int| 0 <= k < pushed.len() implies (#[trigger] pushed[k]).1.wf()
                by {
                    if k < result@.len() {
                        assert(pushed[k] == result@[k]);
                    } else {
                        assert(pushed[k] == (initial_state, remaining));
                    }
                }
            }
        }
        let mut result = result;
        result.push((initial_state, remaining));
        Ok(result)
    }
}

/// Whether the outgoing weight from one state passes 100, by a bounded
/// running sum.
fn outgoing_exceeds_100(
    tr: &Vec<((BodyPartState, BodyPartState), Probability)>,
    from: BodyPartState,
) -> (r: bool)
    requires
        weights_wf(tr@),
    ensures
        r == (outgoing_sum(tr@, from) > 100),
{
    let n = tr.len();
    let mut total: u16 = 0;
    let mut i: usize = 0;
    while i < n
        invariant
            0 <= i <= n,
            n == tr@.len(),
            weights_wf(tr@),
            total == outgoing_sum(tr@.take(i as int), from),
            total <= 100,
        decreases n - i,
    {
        proof {
            lemma_outgoing_sum_take_step(tr@, from, i as int);
        }
        let entry = &tr[i];
        if entry.0.0 == from {
            let w = entry.1.0;
            if total + (w as u16) > 100 {
                proof {
                    lemma_outgoing_sum_take_le(tr@, from, i as int + 1);
                }
                return true;
            }
            total = total + (w as u16);
        }
        i = i + 1;
    }
    proof {
        assert(tr@.take(n as int) =~= tr@);
    }
    false
}

/// One body part: its kind, its health state, and the status effects it
/// carries. The effects form a set: no effect is listed twice.
#[derive(Debug, Clone)]
pub struct BodyPart {
    pub body_part_type: BodyPartType,
    pub state: BodyPartState,
    pub statuses: Vec<BodyPartStatusEffect>,
}

/// True when the list holds no element twice, so it stands for a set.
pub open spec fn no_duplicates<T>(s: Seq<T>) -> bool {
    forall|i: int, j: int| 0 <= i < j < s.len() ==> s[i] != s[j]
}

/// Membership test over a list of status effects.
fn effects_contain(v: &Vec<BodyPartStatusEffect>, e: BodyPartStatusEffect) -> (r: bool)
    ensures
        r == v@.contains(e),
{
    let n = v.len();
    let mut i: usize = 0;
    while i < n
        invariant
            0 <= i <= n,
            n == v@.len(),
            forall|k: int| 0 <= k < i ==> v@[k] != e,
        decreases n - i,
    {
        if v[i] == e {
            return true;
        }
        i = i + 1;
    }
    false
}

impl From<BodyPartType> for BodyPart {
    fn from(value: BodyPartType) -> (r: Self) {
        Self::new_empty(value)
    }
}

impl vstd::std_specs::convert::FromSpecImpl<BodyPartType> for BodyPart {
    // A part holds its statuses in a `Vec`, which no spec expression can
    // build, so the conversion is left unspecified; verified code builds
    // parts with `new_empty`, whose contract is exact.
    open spec fn obeys_from_spec() -> bool {
        false
    }

    open spec fn from_spec(value: BodyPartType) -> Self {
        arbitrary()
    }
}

impl BodyPart {
    /// The status list holds no effect twice.
    pub open spec fn wf(self) -> bool {
        no_duplicates(self.statuses@)
    }

    /// Whether this part carries the effect.
    pub open spec fn spec_has_effect(self, e: BodyPartStatusEffect) -> bool {
        self.statuses@.contains(e)
    }

    /// The ternary answer to a status query: `NotApplicable` where the
    /// effect cannot strike this kind of part at all.
    pub open spec fn spec_has_status_effect(self, e: BodyPartStatusEffect) -> PartialBool {
        if !e.spec_applicable(self.body_part_type) {
            PartialBool::NotApplicable
        } else if self.spec_has_effect(e) {
            PartialBool::True
        } else {
            PartialBool::False
        }
    }

    /// Builds a part from its fields.
    pub fn new(
        body_part_type: BodyPartType,
        state: BodyPartState,
        statuses: Vec<BodyPartStatusEffect>,
    ) -> (r: Self)
        ensures
            r == (BodyPart { body_part_type, state, statuses }),
    {
        Self { body_part_type, state, statuses }
    }

    /// A healthy part with no status effects.
    pub fn new_empty(body_part_type: BodyPartType) -> (r: Self)
        ensures
            r.body_part_type == body_part_type,
            r.state == BodyPartState::Okay,
            r.statuses@ =~= Seq::<BodyPartStatusEffect>::empty(),
            r.wf(),
    {
        Self::new(body_part_type, BodyPartState::Okay, Vec::new())
    }

    /// A healthy part already carrying the given effects.
    pub fn new_with_status_effects(
        body_part_type: BodyPartType,
        status_effects: Vec<BodyPartStatusEffect>,
    ) -> (r: Self)
        ensures
            r == (BodyPart {
                body_part_type,
                state: BodyPartState::Okay,
                statuses: status_effects,
            }),
    {
        Self::new(body_part_type, BodyPartState::Okay, status_effects)
    }

    /// The part's relative size.
    pub fn get_size(&self) -> (r: u8)
        ensures
            r == self.body_part_type.spec_size(),
            r > 0,
    {
        self.body_part_type.get_size()
    }

    /// Ternary status query; see `spec_has_status_effect`.
    pub fn has_status_effect(&self, status_effect: BodyPartStatusEffect) -> (r: PartialBool)
        ensures
            r == self.spec_has_status_effect(status_effect),
    {
        if self.body_part_type.is_status_effect_applicable(status_effect) {
            PartialBool::from(effects_contain(&self.statuses, status_effect))
        } else {
            PartialBool::NotApplicable
        }
    }

    /// The line shown for this part in a character menu: its kind and its
    /// state, and the effects it carries when there are any, separated by
    /// dashes.
    pub fn get_menu_text(&self) -> (r: String)
        ensures
            r@ == self.spec_menu_text(),
    {
        let head = {
            let mut h = self.body_part_type.to_string();
            h.append(" \u{2014} ");
            h.append(self.state.to_string().as_str());
            h
        };
        if self.has_any_status_effect() {
            let mut line = head;
            line.append(" \u{2014} ");
            line.append(BodyPartStatusEffect::pretty_print_set(&self.statuses).as_str());
            line
        } else {
            head
        }
    }

    /// The menu line of a part; see `get_menu_text`.
    pub open spec fn spec_menu_text(self) -> Seq<char> {
        let head = self.body_part_type.spec_name() + " \u{2014} "@ + self.state.spec_name();
        if self.statuses@.len() != 0 {
            head + " \u{2014} "@ + spec_pretty_statuses(self.statuses@)
        } else {
            head
        }
    }

    /// Whether any effect at all afflicts this part.
    pub fn has_any_status_effect(&self) -> (r: bool)
        ensures
            r == (self.statuses@.len() != 0),
    {
        self.statuses.len() != 0
    }

    /// Adds an effect to the set; a present effect is not added twice.
    pub fn insert_status(&mut self, e: BodyPartStatusEffect)
        requires
            old(self).wf(),
        ensures
            final(self).wf(),
            final(self).body_part_type == old(self).body_part_type,
            final(self).state == old(self).state,
            final(self).statuses@ == if old(self).spec_has_effect(e) {
                old(self).statuses@
            } else {
                old(self).statuses@.push(e)
            },
    {
        if !effects_contain(&self.statuses, e) {
            self.statuses.push(e);
        }
    }
}

/// A node of the anatomy tree: one body part owning a list of child parts.
/// The tree is built once at spawn and mutated in place by damage.
#[derive(Debug)]
pub struct BodyPartTreeNode {
    pub body_part: BodyPart,
    pub children: Vec<BodyPartTreeNode>,
}

/// The recursive size of a subtree: the node's own size plus the recursive
/// sizes of its children.
pub open spec fn spec_size_recursive(n: BodyPartTreeNode) -> int
    decreases n,
{
    n.body_part.body_part_type.spec_size() + spec_forest_size(n.children@)
}

/// The total recursive size of a list of subtrees.
pub open spec fn spec_forest_size(s: Seq<BodyPartTreeNode>) -> int
    decreases s,
{
    if s.len() == 0 {
        0
    } else {
        spec_size_recursive(s[0]) + spec_forest_size(s.drop_first())
    }
}

/// Every part of the subtree carries a well-formed status set.
pub open spec fn tree_wf(n: BodyPartTreeNode) -> bool
    decreases n,
{
    &&& n.body_part.wf()
    &&& forall|i: int| 0 <= i < n.children@.len() ==> tree_wf(#[trigger] n.children@[i])
}

/// The recursive status query: the subtree "has" the effect only if this
/// node's own answer is not an explicit `False` and every child subtree
/// reports the same; a `NotApplicable` node does not break the chain.
pub open spec fn spec_has_status_effect_recursive(
    n: BodyPartTreeNode,
    e: BodyPartStatusEffect,
) -> bool
    decreases n,
{
    &&& n.body_part.spec_has_status_effect(e) != PartialBool::False
    &&& forall|i: int|
        0 <= i < n.children@.len() ==> spec_has_status_effect_recursive(
            #[trigger] n.children@[i],
            e,
        )
}

/// Whether a damage specification lists an explicit transition between two
/// states, or the states are the same (the implicit "remain" bucket).
pub open spec fn allowed_transition(d: Damage, from: BodyPartState, to: BodyPartState) -> bool {
    to == from || exists|k: int|
        0 <= k < d.state_transition_probabilities@.len()
            && (#[trigger] d.state_transition_probabilities@[k]).0 == (from, to)
}

/// The status list after inserting one effect as into a set.
pub open spec fn with_status(s: Seq<BodyPartStatusEffect>, e: BodyPartStatusEffect) -> Seq<
    BodyPartStatusEffect,
> {
    if s.contains(e) {
        s
    } else {
        s.push(e)
    }
}

/// The new status list is the old one extended by some effect out of the
/// damage specification's status table.
pub open spec fn statuses_evolve(
    old: Seq<BodyPartStatusEffect>,
    new: Seq<BodyPartStatusEffect>,
    d: Damage,
) -> bool {
    exists|k: int|
        0 <= k < d.status_effect_probabilities@.len() && new == with_status(
            old,
            (#[trigger] d.status_effect_probabilities@[k]).0,
        )
}

/// How one application of a damage specification may change a subtree: the
/// shape and part kinds stay, every node's state moves along an allowed
/// transition (or stays), and every node's status set either stays or gains
/// one effect out of the table.
pub open spec fn damage_evolves(old: BodyPartTreeNode, new: BodyPartTreeNode, d: Damage) -> bool
    decreases old,
{
    &&& new.body_part.body_part_type == old.body_part.body_part_type
    &&& allowed_transition(d, old.body_part.state, new.body_part.state)
    &&& (new.body_part.statuses@ == old.body_part.statuses@ || statuses_evolve(
        old.body_part.statuses@,
        new.body_part.statuses@,
        d,
    ))
    &&& new.children@.len() == old.children@.len()
    &&& forall|i: int|
        0 <= i < old.children@.len() ==> damage_evolves(
            #[trigger] old.children@[i],
            new.children@[i],
            d,
        )
}

/// The menu lines of a subtree: the node's line, then the children's
/// blocks, each line of them indented one step.
pub open spec fn spec_menu_lines(n: BodyPartTreeNode) -> Seq<Seq<char>>
    decreases n,
{
    seq![n.body_part.spec_menu_text()] + spec_forest_menu_lines(n.children@)
}

/// The concatenated, indented menu blocks of a list of subtrees.
pub open spec fn spec_forest_menu_lines(s: Seq<BodyPartTreeNode>) -> Seq<Seq<char>>
    decreases s,
{
    if s.len() == 0 {
        Seq::empty()
    } else {
        indent_lines(spec_menu_lines(s[0])) + spec_forest_menu_lines(s.drop_first())
    }
}

/// Every line shifted right by one indentation step.
pub open spec fn indent_lines(ls: Seq<Seq<char>>) -> Seq<Seq<char>> {
    ls.map_values(|l: Seq<char>| "    "@ + l)
}

/// Extending a forest prefix appends the next subtree's indented block.
proof fn lemma_forest_menu_take_step(s: Seq<BodyPartTreeNode>, i: int)
    requires
        0 <= i < s.len(),
    ensures
        spec_forest_menu_lines(s.take(i + 1)) == spec_forest_menu_lines(s.take(i)) + indent_lines(
            spec_menu_lines(s[i]),
        ),
    decreases i,
{
    if i == 0 {
        assert(s.take(1).drop_first() =~= Seq::<BodyPartTreeNode>::empty());
        assert(s.take(0) =~= Seq::<BodyPartTreeNode>::empty());
        assert(spec_forest_menu_lines(s.take(1)) == indent_lines(spec_menu_lines(s[0]))
            + spec_forest_menu_lines(Seq::empty()));
        assert(spec_forest_menu_lines(s.take(1)) =~= spec_forest_menu_lines(s.take(0))
            + indent_lines(spec_menu_lines(s[0])));
    } else {
        lemma_forest_menu_take_step(s.drop_first(), i - 1);
        assert(s.take(i + 1).drop_first() =~= s.drop_first().take(i));
        assert(s.take(i).drop_first() =~= s.drop_first().take(i - 1));
        assert(s.take(i + 1)[0] == s[0]);
        assert(s.take(i)[0] == s[0]);
        assert(s.drop_first()[i - 1] == s[i]);
        let head = indent_lines(spec_menu_lines(s[0]));
        assert(spec_forest_menu_lines(s.take(i + 1)) == head + (spec_forest_menu_lines(
            s.drop_first().take(i - 1),
        ) + indent_lines(spec_menu_lines(s[i]))));
        assert(head + (spec_forest_menu_lines(s.drop_first().take(i - 1)) + indent_lines(
            spec_menu_lines(s[i]),
        )) =~= (head + spec_forest_menu_lines(s.drop_first().take(i - 1))) + indent_lines(
            spec_menu_lines(s[i]),
        ));
    }
}

/// One application of a damage specification strikes exactly one node of
/// the subtree: either this node's own part took the hit — its state moved
/// along an allowed transition and its status set gained one table effect —
/// and every child is exactly as it was, or this node's part is untouched
/// and exactly one child subtree took the hit, every sibling unchanged.
pub open spec fn damage_strikes_one_node(
    old: BodyPartTreeNode,
    new: BodyPartTreeNode,
    d: Damage,
) -> bool
    decreases old,
{
    &&& new.body_part.body_part_type == old.body_part.body_part_type
    &&& new.children@.len() == old.children@.len()
    &&& ({
        ||| {
            &&& allowed_transition(d, old.body_part.state, new.body_part.state)
            &&& statuses_evolve(old.body_part.statuses@, new.body_part.statuses@, d)
            &&& forall|j: int|
                0 <= j < old.children@.len() ==> #[trigger] new.children@[j] == old.children@[j]
        }
        ||| {
            &&& new.body_part == old.body_part
            &&& exists|i: int|
                0 <= i < old.children@.len() && damage_strikes_one_node(
                    #[trigger] old.children@[i],
                    new.children@[i],
                    d,
                ) && forall|j: int|
                    0 <= j < old.children@.len() && j != i ==> new.children@[j] == old.children@[j]
        }
    })
}

/// An untouched subtree is a valid damage outcome.
pub proof fn lemma_damage_evolves_refl(n: BodyPartTreeNode, d: Damage)
    ensures
        damage_evolves(n, n, d),
    decreases n,
{
    assert forall|i: int| 0 <= i < n.children@.len() implies damage_evolves(
        #[trigger] n.children@[i],
        n.children@[i],
        d,
    ) by {
        lemma_damage_evolves_refl(n.children@[i], d);
    }
}

/// Damage leaves every subtree's recursive size unchanged: sizes depend on
/// part kinds alone, and those do not change.
pub proof fn lemma_damage_evolves_size(old: BodyPartTreeNode, new: BodyPartTreeNode, d: Damage)
    requires
        damage_evolves(old, new, d),
    ensures
        spec_size_recursive(new) == spec_size_recursive(old),
    decreases old,
{
    lemma_damage_evolves_forest_size(old.children@, new.children@, d);
}

/// Forest form of `lemma_damage_evolves_size`.
proof fn lemma_damage_evolves_forest_size(
    old: Seq<BodyPartTreeNode>,
    new: Seq<BodyPartTreeNode>,
    d: Damage,
)
    requires
        new.len() == old.len(),
        forall|i: int| 0 <= i < old.len() ==> damage_evolves(#[trigger] old[i], new[i], d),
    ensures
        spec_forest_size(new) == spec_forest_size(old),
    decreases old,
{
    if old.len() > 0 {
        lemma_damage_evolves_size(old[0], new[0], d);
        assert(forall|i: int|
            0 <= i < old.drop_first().len() ==> damage_evolves(
                #[trigger] old.drop_first()[i],
                new.drop_first()[i],
                d,
            )) by {
            assert(forall|i: int|
                0 <= i < old.drop_first().len() ==> old.drop_first()[i] == old[i + 1]
                    && new.drop_first()[i] == new[i + 1]);
        }
        lemma_damage_evolves_forest_size(old.drop_first(), new.drop_first(), d);
    }
}

/// Damage preserves well-formedness of the status sets.
pub proof fn lemma_damage_evolves_wf(old: BodyPartTreeNode, new: BodyPartTreeNode, d: Damage)
    requires
        damage_evolves(old, new, d),
        tree_wf(old),
    ensures
        tree_wf(new),
    decreases old,
{
    assert(new.body_part.wf()) by {
        if new.body_part.statuses@ != old.body_part.statuses@ {
            let k = choose|k: int|
                0 <= k < d.status_effect_probabilities@.len() && new.body_part.statuses@
                    == with_status(
                    old.body_part.statuses@,
                    (#[trigger] d.status_effect_probabilities@[k]).0,
                );
            let e = d.status_effect_probabilities@[k].0;
            let olds = old.body_part.statuses@;
            if !olds.contains(e) {
                assert(no_duplicates(olds.push(e))) by {
                    assert forall|i: int, j: int|
                        0 <= i < j < olds.push(e).len() implies olds.push(e)[i] != olds.push(
                        e,
                    )[j] by {
                        if j == olds.len() {
                            assert(olds.push(e)[i] == olds[i]);
                            assert(olds.contains(olds[i]));
                        }
                    }
                }
            }
        }
    }
    assert forall|i: int| 0 <= i < new.children@.len() implies tree_wf(
        #[trigger] new.children@[i],
    ) by {
        lemma_damage_evolves_wf(old.children@[i], new.children@[i], d);
    }
}

/// Every subtree's size is positive.
pub proof fn lemma_tree_size_pos(n: BodyPartTreeNode)
    ensures
        spec_size_recursive(n) > 0,
    decreases n,
{
    lemma_forest_size_nonneg(n.children@);
}

/// A forest's total size is never negative.
pub proof fn lemma_forest_size_nonneg(s: Seq<BodyPartTreeNode>)
    ensures
        spec_forest_size(s) >= 0,
    decreases s,
{
    if s.len() > 0 {
        lemma_tree_size_pos(s[0]);
        lemma_forest_size_nonneg(s.drop_first());
    }
}

/// Extending a forest prefix adds the next subtree's size.
proof fn lemma_forest_size_take_step(s: Seq<BodyPartTreeNode>, i: int)
    requires
        0 <= i < s.len(),
    ensures
        spec_forest_size(s.take(i + 1)) == spec_forest_size(s.take(i)) + spec_size_recursive(s[i]),
    decreases i,
{
    if i == 0 {
        assert(s.take(1).drop_first() =~= Seq::<BodyPartTreeNode>::empty());
        assert(s.take(0) =~= Seq::<BodyPartTreeNode>::empty());
    } else {
        lemma_forest_size_take_step(s.drop_first(), i - 1);
        assert(s.take(i + 1).drop_first() =~= s.drop_first().take(i));
        assert(s.take(i).drop_first() =~= s.drop_first().take(i - 1));
    }
}

/// A forest prefix never outweighs the whole forest.
proof fn lemma_forest_size_take_le(s: Seq<BodyPartTreeNode>, i: int)
    requires
        0 <= i <= s.len(),
    ensures
        spec_forest_size(s.take(i)) <= spec_forest_size(s),
    decreases s.len() - i,
{
    if i < s.len() {
        lemma_forest_size_take_step(s, i);
        lemma_tree_size_pos(s[i]);
        lemma_forest_size_take_le(s, i + 1);
    } else {
        assert(s.take(i) =~= s);
    }
}

/// Each explicit transition read from a table comes from an entry of the
/// table with the matching initial state.
proof fn lemma_transitions_from_member(
    s: Seq<((BodyPartState, BodyPartState), Probability)>,
    from: BodyPartState,
    j: int,
)
    requires
        0 <= j < transitions_from(s, from).len(),
    ensures
        exists|k: int|
            0 <= k < s.len() && (#[trigger] s[k]).0.0 == from && s[k].0.1 != from
                && transitions_from(s, from)[j] == (s[k].0.1, s[k].1),
    decreases s.len(),
{
    let tf = transitions_from(s, from);
    if s[0].0.0 == from && s[0].0.1 != from {
        let head = seq![(s[0].0.1, s[0].1)];
        assert(tf == head + transitions_from(s.drop_first(), from));
        if j == 0 {
            assert(tf[0] == (s[0].0.1, s[0].1));
            assert(s[0].0.0 == from && s[0].0.1 != from);
        } else {
            lemma_transitions_from_member(s.drop_first(), from, j - 1);
            let k = choose|k: int|
                0 <= k < s.drop_first().len() && (#[trigger] s.drop_first()[k]).0.0 == from
                    && s.drop_first()[k].0.1 != from && transitions_from(s.drop_first(), from)[j
                    - 1] == (s.drop_first()[k].0.1, s.drop_first()[k].1);
            assert(s.drop_first()[k] == s[k + 1]);
            assert(tf[j] == transitions_from(s.drop_first(), from)[j - 1]);
            assert(s[k + 1].0.0 == from && s[k + 1].0.1 != from && tf[j] == (
                s[k + 1].0.1,
                s[k + 1].1,
            ));
        }
    } else {
        assert(tf == Seq::<(BodyPartState, Probability)>::empty() + transitions_from(
            s.drop_first(),
            from,
        ));
        assert(tf =~= transitions_from(s.drop_first(), from));
        lemma_transitions_from_member(s.drop_first(), from, j);
        let k = choose|k: int|
            0 <= k < s.drop_first().len() && (#[trigger] s.drop_first()[k]).0.0 == from
                && s.drop_first()[k].0.1 != from && transitions_from(s.drop_first(), from)[j] == (
            s.drop_first()[k].0.1,
            s.drop_first()[k].1,
        );
        assert(s.drop_first()[k] == s[k + 1]);
        assert(s[k + 1].0.0 == from && s[k + 1].0.1 != from && tf[j] == (
            s[k + 1].0.1,
            s[k + 1].1,
        ));
    }
}

/// Copies a weight table entry by entry.
fn copy_weight_table<T: Copy>(v: &Vec<(T, Probability)>) -> (r: Vec<(T, Probability)>)
    ensures
        r@ == v@,
{
    let n = v.len();
    let mut r: Vec<(T, Probability)> = Vec::new();
    let mut i: usize = 0;
    while i < n
        invariant
            0 <= i <= n,
            n == v@.len(),
            r@ == v@.take(i as int),
        decreases n - i,
    {
        r.push(v[i]);
        proof {
            assert(v@.take(i as int).push(v@[i as int]) =~= v@.take(i as int + 1));
        }
        i = i + 1;
    }
    proof {
        assert(v@.take(n as int) =~= v@);
    }
    r
}

/// One member's subtree never outweighs the whole forest.
proof fn lemma_forest_member_le(s: Seq<BodyPartTreeNode>, i: int)
    requires
        0 <= i < s.len(),
    ensures
        spec_size_recursive(s[i]) <= spec_forest_size(s),
    decreases i,
{
    if i == 0 {
        lemma_forest_size_nonneg(s.drop_first());
    } else {
        lemma_forest_member_le(s.drop_first(), i - 1);
        lemma_tree_size_pos(s[0]);
        assert(s.drop_first()[i - 1] == s[i]);
    }
}

/// A healthy, unafflicted part of the given kind.
pub open spec fn is_fresh_part(p: BodyPart, t: BodyPartType) -> bool {
    &&& p.body_part_type == t
    &&& p.state == BodyPartState::Okay
    &&& p.statuses@.len() == 0
}

/// A childless node holding a healthy, unafflicted part.
pub open spec fn is_fresh_leaf(n: BodyPartTreeNode, t: BodyPartType) -> bool {
    &&& is_fresh_part(n.body_part, t)
    &&& n.children@.len() == 0
}

/// A fresh part with exactly one fresh leaf attached.
pub open spec fn is_fresh_limb(n: BodyPartTreeNode, t: BodyPartType, child: BodyPartType) -> bool {
    &&& is_fresh_part(n.body_part, t)
    &&& n.children@.len() == 1
    &&& is_fresh_leaf(n.children@[0], child)
}

/// The humanoid anatomy: body, head, two legs with feet, two arms with
/// hands, all healthy.
pub open spec fn is_humanoid(n: BodyPartTreeNode) -> bool {
    &&& is_fresh_part(n.body_part, BodyPartType::Body)
    &&& n.children@.len() == 5
    &&& is_fresh_leaf(n.children@[0], BodyPartType::Head)
    &&& is_fresh_limb(n.children@[1], BodyPartType::Leg, BodyPartType::Foot)
    &&& is_fresh_limb(n.children@[2], BodyPartType::Leg, BodyPartType::Foot)
    &&& is_fresh_limb(n.children@[3], BodyPartType::Arm, BodyPartType::Hand)
    &&& is_fresh_limb(n.children@[4], BodyPartType::Arm, BodyPartType::Hand)
}

/// A fresh leaf's size is its part's size.
proof fn lemma_fresh_leaf_size(n: BodyPartTreeNode, t: BodyPartType)
    requires
        is_fresh_leaf(n, t),
    ensures
        spec_size_recursive(n) == t.spec_size(),
        tree_wf(n),
{
    assert(n.children@ =~= Seq::<BodyPartTreeNode>::empty());
}

/// A fresh limb's size is the sum of its two parts' sizes.
proof fn lemma_fresh_limb_size(n: BodyPartTreeNode, t: BodyPartType, child: BodyPartType)
    requires
        is_fresh_limb(n, t, child),
    ensures
        spec_size_recursive(n) == t.spec_size() + child.spec_size(),
        tree_wf(n),
{
    lemma_fresh_leaf_size(n.children@[0], child);
    assert(n.children@.drop_first() =~= Seq::<BodyPartTreeNode>::empty());
    assert(spec_forest_size(Seq::<BodyPartTreeNode>::empty()) == 0);
    assert(spec_forest_size(n.children@) == spec_size_recursive(n.children@[0]));
}

/// A humanoid's total recursive size, and its well-formedness.
pub proof fn lemma_humanoid_size(n: BodyPartTreeNode)
    requires
        is_humanoid(n),
    ensures
        spec_size_recursive(n) == 140,
        tree_wf(n),
{
    let c = n.children@;
    lemma_fresh_leaf_size(c[0], BodyPartType::Head);
    lemma_fresh_limb_size(c[1], BodyPartType::Leg, BodyPartType::Foot);
    lemma_fresh_limb_size(c[2], BodyPartType::Leg, BodyPartType::Foot);
    lemma_fresh_limb_size(c[3], BodyPartType::Arm, BodyPartType::Hand);
    lemma_fresh_limb_size(c[4], BodyPartType::Arm, BodyPartType::Hand);
    let c1 = c.drop_first();
    let c2 = c1.drop_first();
    let c3 = c2.drop_first();
    let c4 = c3.drop_first();
    assert(c1[0] == c[1] && c2[0] == c[2] && c3[0] == c[3] && c4[0] == c[4]);
    assert(c4.drop_first() =~= Seq::<BodyPartTreeNode>::empty());
    assert(spec_forest_size(Seq::<BodyPartTreeNode>::empty()) == 0);
    assert(spec_forest_size(c4) == spec_size_recursive(c[4]));
    assert(spec_forest_size(c3) == spec_size_recursive(c[3]) + spec_forest_size(c4));
    assert(spec_forest_size(c2) == spec_size_recursive(c[2]) + spec_forest_size(c3));
    assert(spec_forest_size(c1) == spec_size_recursive(c[1]) + spec_forest_size(c2));
    assert(spec_forest_size(c) == spec_size_recursive(c[0]) + spec_forest_size(c1));
}

impl From<BodyPart> for BodyPartTreeNode {
    fn from(value: BodyPart) -> (r: Self) {
        Self::leaf(value)
    }
}

impl vstd::std_specs::convert::FromSpecImpl<BodyPart> for BodyPartTreeNode {
    // A childless node holds a `Vec`, which no spec expression can build, so
    // the conversion is left unspecified; verified code builds leaves with
    // `leaf`, whose contract is exact.
    open spec fn obeys_from_spec() -> bool {
        false
    }

    open spec fn from_spec(value: BodyPart) -> Self {
        arbitrary()
    }
}

impl BodyPartTreeNode {
    /// Builds a node from a part and its children.
    pub fn new(body_part: BodyPart, children: Vec<BodyPartTreeNode>) -> (r: Self)
        ensures
            r == (BodyPartTreeNode { body_part, children }),
    {
        Self { body_part, children }
    }

    /// A childless node.
    pub fn leaf(body_part: BodyPart) -> (r: Self)
        ensures
            r.body_part == body_part,
            r.children@ =~= Seq::<BodyPartTreeNode>::empty(),
    {
        Self::new(body_part, Vec::new())
    }

    /// Appends a child subtree.
    pub fn add(&mut self, body_part: BodyPartTreeNode)
        ensures
            final(self).body_part == old(self).body_part,
            final(self).children@ == old(self).children@.push(body_part),
    {
        self.children.push(body_part);
    }

    /// Appends a childless part.
    pub fn add_leaf(&mut self, body_part: BodyPart)
        ensures
            final(self).body_part == old(self).body_part,
            final(self).children@.len() == old(self).children@.len() + 1,
            final(self).children@.take(old(self).children@.len() as int) == old(self).children@,
            final(self).children@.last().body_part == body_part,
            final(self).children@.last().children@.len() == 0,
    {
        self.add(Self::leaf(body_part));
        proof {
            assert(final(self).children@.take(old(self).children@.len() as int) =~= old(
                self,
            ).children@);
        }
    }

    /// Whether the node has any children.
    pub fn has_children(&self) -> (r: bool)
        ensures
            r == (self.children@.len() != 0),
    {
        self.children.len() != 0
    }

    /// The node's own health state.
    pub fn get_state(&self) -> (r: BodyPartState)
        ensures
            r == self.body_part.state,
    {
        self.body_part.state
    }

    /// The node's own size.
    pub fn get_size(&self) -> (r: u8)
        ensures
            r == self.body_part.body_part_type.spec_size(),
            r > 0,
    {
        self.body_part.get_size()
    }

    /// The total recursive size of the children.
    pub fn get_total_children_size(&self) -> (r: u8)
        requires
            spec_forest_size(self.children@) <= u8::MAX,
        ensures
            r == spec_forest_size(self.children@),
        decreases *self, 0int,
    {
        let n = self.children.len();
        let mut total: u8 = 0;
        let mut i: usize = 0;
        while i < n
            invariant
                0 <= i <= n,
                n == self.children@.len(),
                spec_forest_size(self.children@) <= u8::MAX,
                total == spec_forest_size(self.children@.take(i as int)),
            decreases n - i,
        {
            proof {
                lemma_forest_size_take_step(self.children@, i as int);
                lemma_forest_size_take_le(self.children@, i as int + 1);
                lemma_forest_member_le(self.children@, i as int);
                lemma_tree_size_pos(self.children@[i as int]);
                lemma_forest_size_nonneg(self.children@.take(i as int));
            }
            let child_size = self.children[i].get_size_recursive();
            total = total + child_size;
            i = i + 1;
        }
        proof {
            assert(self.children@.take(n as int) =~= self.children@);
        }
        total
    }

    /// The recursive size of the whole subtree.
    pub fn get_size_recursive(&self) -> (r: u8)
        requires
            spec_size_recursive(*self) <= u8::MAX,
        ensures
            r == spec_size_recursive(*self),
        decreases *self, 1int,
    {
        proof {
            lemma_forest_size_nonneg(self.children@);
        }
        if self.has_children() {
            self.get_size() + self.get_total_children_size()
        } else {
            self.get_size()
        }
    }

    /// Ternary status query on this node alone.
    pub fn has_status_effect(&self, status_effect: BodyPartStatusEffect) -> (r: PartialBool)
        ensures
            r == self.body_part.spec_has_status_effect(status_effect),
    {
        self.body_part.has_status_effect(status_effect)
    }

    /// Recursive status query; see `spec_has_status_effect_recursive`.
    pub fn has_status_effect_recursive(&self, status_effect: BodyPartStatusEffect) -> (r: bool)
        ensures
            r == spec_has_status_effect_recursive(*self, status_effect),
        decreases *self,
    {
        let own = self.has_status_effect(status_effect);
        if matches!(own, PartialBool::False) {
            return false;
        }
        let n = self.children.len();
        let mut i: usize = 0;
        while i < n
            invariant
                0 <= i <= n,
                n == self.children@.len(),
                self.body_part.spec_has_status_effect(status_effect) != PartialBool::False,
                forall|k: int|
                    0 <= k < i ==> spec_has_status_effect_recursive(
                        #[trigger] self.children@[k],
                        status_effect,
                    ),
            decreases n - i,
        {
            if !self.children[i].has_status_effect_recursive(status_effect) {
                return false;
            }
            i = i + 1;
        }
        true
    }

    /// A humanoid anatomy: a body carrying a head, two legs with feet, and
    /// two arms with hands, all healthy and unafflicted.
    pub fn new_humanoid() -> (r: Self)
        ensures
            is_humanoid(r),
            tree_wf(r),
            spec_size_recursive(r) == 140,
    {
        let mut body = Self::leaf(BodyPart::new_empty(BodyPartType::Body));
        body.add(Self::new_head());

        body.add(Self::new_leg_and_foot());
        body.add(Self::new_leg_and_foot());

        body.add(Self::new_arm_and_hand());
        body.add(Self::new_arm_and_hand());

        proof {
            lemma_humanoid_size(body);
        }
        body
    }

    /// A bare head.
    pub fn new_head() -> (r: Self)
        ensures
            is_fresh_leaf(r, BodyPartType::Head),
    {
        Self::leaf(BodyPart::new_empty(BodyPartType::Head))
    }

    /// A leg with a foot attached.
    pub fn new_leg_and_foot() -> (r: Self)
        ensures
            is_fresh_limb(r, BodyPartType::Leg, BodyPartType::Foot),
    {
        let mut leg = Self::leaf(BodyPart::new_empty(BodyPartType::Leg));
        leg.add_leaf(BodyPart::new_empty(BodyPartType::Foot));
        leg
    }

    /// An arm with a hand attached.
    pub fn new_arm_and_hand() -> (r: Self)
        ensures
            is_fresh_limb(r, BodyPartType::Arm, BodyPartType::Hand),
    {
        let mut arm = Self::leaf(BodyPart::new_empty(BodyPartType::Arm));
        arm.add_leaf(BodyPart::new_empty(BodyPartType::Hand));
        arm
    }

    /// The indented text block a character menu shows for this subtree: the
    /// node's own line, then every child's block shifted right by one
    /// indentation step.
    pub fn get_menu_text(&self) -> (r: Vec<String>)
        ensures
            r@.len() == spec_menu_lines(*self).len(),
            forall|k: int|
                0 <= k < r@.len() ==> (#[trigger] r@[k])@ == spec_menu_lines(*self)[k],
        decreases *self,
    {
        let mut lines: Vec<String> = Vec::new();
        lines.push(self.body_part.get_menu_text());
        let ghost head = seq![self.body_part.spec_menu_text()];
        proof {
            assert(spec_menu_lines(*self) == head + spec_forest_menu_lines(self.children@));
        }
        let n = self.children.len();
        let mut i: usize = 0;
        while i < n
            invariant
                0 <= i <= n,
                n == self.children@.len(),
                head == seq![self.body_part.spec_menu_text()],
                lines@.len() == (head + spec_forest_menu_lines(self.children@.take(i as int))).len(),
                forall|k: int|
                    0 <= k < lines@.len() ==> (#[trigger] lines@[k])@ == (head
                        + spec_forest_menu_lines(self.children@.take(i as int)))[k],
            decreases n - i,
        {
            proof {
                lemma_forest_menu_take_step(self.children@, i as int);
            }
            let child_lines = self.children[i].get_menu_text();
            let ghost child_spec = spec_menu_lines(self.children@[i as int]);
            let ghost before = lines@;
            let m = child_lines.len();
            let mut j: usize = 0;
            while j < m
                invariant
                    0 <= j <= m,
                    m == child_lines@.len(),
                    m == child_spec.len(),
                    forall|k: int|
                        0 <= k < m ==> (#[trigger] child_lines@[k])@ == child_spec[k],
                    lines@.len() == before.len() + j,
                    lines@.take(before.len() as int) == before,
                    forall|k: int|
                        0 <= k < j ==> (#[trigger] lines@[before.len() + k])@ == "    "@
                            + child_spec[k],
                decreases m - j,
            {
                let mut indented = String::from_str("    ");
                indented.append(child_lines[j].as_str());
                let ghost pre = lines@;
                lines.push(indented);
                proof {
                    assert(lines@.take(before.len() as int) =~= pre.take(before.len() as int));
                }
                j = j + 1;
            }
            i = i + 1;
            proof {
                let target = head + spec_forest_menu_lines(self.children@.take(i as int));
                assert(spec_forest_menu_lines(self.children@.take(i as int))
                    == spec_forest_menu_lines(self.children@.take(i as int - 1)) + indent_lines(
                    child_spec,
                ));
                assert(lines@.len() == target.len());
                assert forall|k: int|
                    0 <= k < lines@.len() implies (#[trigger] lines@[k])@ == target[k] by {
                    if k < before.len() {
                        assert(lines@.take(before.len() as int)[k] == lines@[k]);
                        assert(before[k]@ == (head + spec_forest_menu_lines(
                            self.children@.take(i as int - 1),
                        ))[k]);
                    } else {
                        assert(lines@[before.len() + (k - before.len())]@ == "    "@ + child_spec[k
                            - before.len()]);
                        assert(target[k] == indent_lines(child_spec)[k - before.len()]);
                        assert(indent_lines(child_spec)[k - before.len()] == "    "@ + child_spec[k
                            - before.len()]);
                    }
                }
            }
        }
        proof {
            assert(self.children@.take(n as int) =~= self.children@);
        }
        lines
    }

    /// Applies a damage specification to this node alone: draws the new
    /// health state from the transitions leaving the current one, then draws
    /// a status effect from the status table and adds it to the set. The
    /// children are untouched.
    pub fn take_damage(&mut self, rng: &mut GameRng, damage: &Damage)
        requires
            old(self).body_part.wf(),
            damage.wf(),
            damage.statuses_drawable(),
        ensures
            final(self).children == old(self).children,
            final(self).body_part.wf(),
            damage_evolves(*old(self), *final(self), *damage),
            final(self).body_part.body_part_type == old(self).body_part.body_part_type,
            allowed_transition(*damage, old(self).body_part.state, final(self).body_part.state),
            statuses_evolve(
                old(self).body_part.statuses@,
                final(self).body_part.statuses@,
                *damage,
            ),
            damage_strikes_one_node(*old(self), *final(self), *damage),
    {
        let ghost old_state = self.body_part.state;
        let state_transitions = match damage.get_state_transitions_from(self.get_state()) {
            Ok(v) => v,
            Err(_) => {
                return unreached();
            },
        };
        let new_state = match Probability::choose_weighted(rng, state_transitions) {
            Ok(s) => s,
            Err(_) => {
                return unreached();
            },
        };
        proof {
            let ghost tr = damage.state_transition_probabilities@;
            let tf = transitions_from(tr, old_state);
            let i = choose|i: int|
                0 <= i < state_transitions@.len() && (#[trigger] state_transitions@[i]).0
                    == new_state;
            if i < tf.len() {
                assert(state_transitions@[i] == tf[i]);
                lemma_transitions_from_member(tr, old_state, i);
                let k = choose|k: int|
                    0 <= k < tr.len() && (#[trigger] tr[k]).0.0 == old_state && tr[k].0.1
                        != old_state && tf[i] == (tr[k].0.1, tr[k].1);
                assert(tr[k].0 == (old_state, new_state));
                assert(allowed_transition(*damage, old_state, new_state));
            } else {
                assert(state_transitions@[i] == state_transitions@.last());
                assert(new_state == old_state);
            }
        }
        self.body_part.state = new_state;

        let effects = copy_weight_table(&damage.status_effect_probabilities);
        let effect = match Probability::choose_weighted(rng, effects) {
            Ok(e) => e,
            Err(_) => {
                return unreached();
            },
        };
        self.body_part.insert_status(effect);
        proof {
            let st = damage.status_effect_probabilities@;
            let k = choose|k: int| 0 <= k < st.len() && (#[trigger] st[k]).0 == effect;
            assert(final(self).body_part.statuses@ == with_status(
                old(self).body_part.statuses@,
                st[k].0,
            ));
            assert(statuses_evolve(
                old(self).body_part.statuses@,
                final(self).body_part.statuses@,
                *damage,
            ));
            assert forall|i: int| 0 <= i < old(self).children@.len() implies damage_evolves(
                #[trigger] old(self).children@[i],
                final(self).children@[i],
                *damage,
            ) by {
                lemma_damage_evolves_refl(old(self).children@[i], *damage);
            }
            assert(forall|j: int|
                0 <= j < old(self).children@.len() ==> #[trigger] final(self).children@[j] == old(
                    self,
                ).children@[j]);
            assert(damage_strikes_one_node(*old(self), *final(self), *damage));
        }
    }

    /// Delegates a hit to one of the children, drawn with probability
    /// proportional to its share of the children's total recursive size, and
    /// recurses into it.
    pub fn take_damage_child(&mut self, rng: &mut GameRng, damage: &Damage)
        requires
            tree_wf(*old(self)),
            spec_size_recursive(*old(self)) <= u8::MAX,
            old(self).children@.len() > 0,
            damage.wf(),
            damage.statuses_drawable(),
        ensures
            tree_wf(*final(self)),
            spec_size_recursive(*final(self)) == spec_size_recursive(*old(self)),
            damage_evolves(*old(self), *final(self), *damage),
            final(self).body_part == old(self).body_part,
            damage_strikes_one_node(*old(self), *final(self), *damage),
        decreases *old(self), 0int,
    {
        proof {
            lemma_forest_size_nonneg(old(self).children@);
            lemma_tree_size_pos(old(self).children@[0]);
            assert(spec_forest_size(old(self).children@) > 0) by {
                lemma_forest_member_le(old(self).children@, 0);
            }
        }
        let children_size = self.get_total_children_size();
        let n = self.children.len();
        let mut choices: Vec<(usize, Probability)> = Vec::new();
        let mut i: usize = 0;
        while i < n
            invariant
                0 <= i <= n,
                n == self.children@.len(),
                children_size == spec_forest_size(self.children@),
                children_size > 0,
                spec_forest_size(self.children@) <= u8::MAX,
                choices@.len() == i,
                forall|k: int| 0 <= k < i ==> (#[trigger] choices@[k]).0 == k,
                weights_wf(choices@),
                sum_weights(choices@) * (children_size as int) <= 100 * spec_forest_size(
                    self.children@.take(i as int),
                ),
            decreases n - i,
        {
            proof {
                lemma_forest_member_le(self.children@, i as int);
                lemma_tree_size_pos(self.children@[i as int]);
                lemma_forest_size_take_le(self.children@, i as int + 1);
                lemma_forest_size_take_step(self.children@, i as int);
                lemma_forest_size_nonneg(self.children@.take(i as int));
            }
            let child_size = self.children[i].get_size_recursive();
            let weight = match Probability::from_ratio(child_size, children_size) {
                Ok(w) => w,
                Err(_) => {
                    return unreached();
                },
            };
            proof {
                let ghost pushed = choices@.push((i as usize, weight));
                assert(weights_wf(pushed)) by {
                    assert forall|k: int| 0 <= k < pushed.len() implies (#[trigger] pushed[k]).1.wf()
                    by {
                        if k < choices@.len() {
                            assert(pushed[k] == choices@[k]);
                        } else {
                            assert(pushed[k] == (i as usize, weight));
                        }
                    }
                }
                assert(pushed =~= choices@ + seq![(i as usize, weight)]);
                crate::probability::lemma_sum_weights_append(choices@, seq![(i as usize, weight)]);
                crate::probability::lemma_sum_weights_singleton((i as usize, weight));
                // The running weighted sum stays within its share: each new
                // weight is the floor of the child's share of 100.
                assert(weight.value() * (children_size as int) <= 100 * spec_size_recursive(
                    self.children@[i as int],
                )) by (nonlinear_arith)
                    requires
                        weight.value() == 100 * spec_size_recursive(self.children@[i as int]) / (
                        children_size as int),
                        children_size > 0,
                        spec_size_recursive(self.children@[i as int]) >= 0,
                ;
                assert(sum_weights(pushed) * (children_size as int) <= 100 * spec_forest_size(
                    self.children@.take(i as int + 1),
                )) by (nonlinear_arith)
                    requires
                        sum_weights(pushed) == sum_weights(choices@) + weight.value(),
                        sum_weights(choices@) * (children_size as int) <= 100 * spec_forest_size(
                            self.children@.take(i as int),
                        ),
                        weight.value() * (children_size as int) <= 100 * spec_size_recursive(
                            self.children@[i as int],
                        ),
                        spec_forest_size(self.children@.take(i as int + 1)) == spec_forest_size(
                            self.children@.take(i as int),
                        ) + spec_size_recursive(self.children@[i as int]),
                ;
            }
            choices.push((i, weight));
            i = i + 1;
        }
        proof {
            assert(self.children@.take(n as int) =~= self.children@);
            assert(sum_weights(choices@) <= 100) by (nonlinear_arith)
                requires
                    sum_weights(choices@) * (children_size as int) <= 100 * (children_size as int),
                    children_size > 0,
            ;
        }
        let choice = match Probability::choose_weighted(rng, choices) {
            Ok(c) => c,
            Err(_) => {
                return unreached();
            },
        };
        proof {
            let k = choose|k: int| 0 <= k < n && (#[trigger] choices@[k]).0 == choice;
            assert(choice == k);
            lemma_forest_member_le(self.children@, choice as int);
            lemma_tree_size_pos(self.children@[choice as int]);
        }
        let ghost pre = *self;
        let child = &mut self.children[choice];
        child.take_damage_recursive(rng, damage);
        proof {
            assert(final(self).body_part == old(self).body_part);
            assert(final(self).children@ == pre.children@.update(
                choice as int,
                final(self).children@[choice as int],
            ));
            assert forall|j: int| 0 <= j < old(self).children@.len() implies damage_evolves(
                #[trigger] old(self).children@[j],
                final(self).children@[j],
                *damage,
            ) by {
                if j != choice {
                    assert(final(self).children@[j] == old(self).children@[j]);
                    lemma_damage_evolves_refl(old(self).children@[j], *damage);
                }
            }
            assert(allowed_transition(*damage, old(self).body_part.state, final(self).body_part.state));
            assert(damage_evolves(*old(self), *final(self), *damage));
            lemma_damage_evolves_size(*old(self), *final(self), *damage);
            lemma_damage_evolves_wf(*old(self), *final(self), *damage);
            assert(damage_strikes_one_node(*old(self), *final(self), *damage)) by {
                let i = choice as int;
                assert(damage_strikes_one_node(
                    old(self).children@[i],
                    final(self).children@[i],
                    *damage,
                ));
                assert(forall|j: int|
                    0 <= j < old(self).children@.len() && j != i
                        ==> #[trigger] final(self).children@[j] == old(self).children@[j]);
            }
        }
    }

    /// Applies damage to the subtree: the node itself absorbs the hit with
    /// probability proportional to its own share of the subtree's size,
    /// otherwise the hit is delegated to a child. A childless node always
    /// absorbs the hit itself.
    pub fn take_damage_recursive(&mut self, rng: &mut GameRng, damage: &Damage)
        requires
            tree_wf(*old(self)),
            spec_size_recursive(*old(self)) <= u8::MAX,
            damage.wf(),
            damage.statuses_drawable(),
        ensures
            tree_wf(*final(self)),
            spec_size_recursive(*final(self)) == spec_size_recursive(*old(self)),
            damage_evolves(*old(self), *final(self), *damage),
            damage_strikes_one_node(*old(self), *final(self), *damage),
            old(self).children@.len() == 0 ==> allowed_transition(
                *damage,
                old(self).body_part.state,
                final(self).body_part.state,
            ) && statuses_evolve(
                old(self).body_part.statuses@,
                final(self).body_part.statuses@,
                *damage,
            ),
        decreases *old(self), 1int,
    {
        proof {
            lemma_forest_size_nonneg(self.children@);
        }
        let own_size = self.get_size();
        let children_size = self.get_total_children_size();
        let total = own_size + children_size;
        let p_own_damage = match Probability::from_ratio(own_size, total) {
            Ok(p) => p,
            Err(_) => {
                return unreached();
            },
        };
        let self_takes_damage = p_own_damage.roll(rng);
        if self_takes_damage {
            let ghost pre = *self;
            self.take_damage(rng, damage);
            proof {
                lemma_damage_evolves_size(pre, *final(self), *damage);
                lemma_damage_evolves_wf(pre, *final(self), *damage);
            }
        } else {
            proof {
                // A roll that fails is below 100, and the own-share weight is
                // only below 100 when the children carry some size.
                if children_size == 0 {
                    assert(p_own_damage.value() == 100 * own_size as int / (own_size as int));
                    assert(100 * own_size as int / (own_size as int) == 100) by (nonlinear_arith)
                        requires
                            own_size > 0,
                    ;
                }
                assert(children_size > 0);
                assert(self.children@.len() > 0) by {
                    if self.children@.len() == 0 {
                        assert(spec_forest_size(self.children@) == 0);
                    }
                }
            }
            self.take_damage_child(rng, damage);
        }
    }
}

} // verus!
