//! The turn gate: a counter of turns and an exhaustion flag that together
//! decide which worker slot may touch a shared resource next.
//!
//! A gate does no waiting of its own. A caller that holds a gate exclusively
//! asks once with `request_turn`; on `Wait` it lets go of it, backs off
//! and asks again. On `Granted` it performs its operation on the resource and
//! then reports it with `complete_turn`, still holding it.

use vstd::prelude::*;
use vstd::arithmetic::div_mod::lemma_fundamental_div_mod;
use vstd::arithmetic::div_mod::lemma_fundamental_div_mod_converse;
use vstd::arithmetic::div_mod::lemma_mod_pos_bound;
use crate::error::PipelineError;

verus! {

/// The answer to one request for a turn.
#[derive(Clone, Copy, Debug, PartialEq, Eq, Structural)]
pub enum Admission {
    /// The current turn belongs to the asking slot.
    Granted,
    /// The current turn belongs to another slot.
    Wait,
    /// This gate is exhausted: there will be no further turns.
    Exhausted,
}

/// One call on a gate, as the laws below speak of it.
pub enum GateCall {
    /// `request_turn` by a slot.
    Request { slot: nat },
    /// `complete_turn` by a slot.
    Complete { slot: nat, last: bool },
    /// `close`.
    Close,
}

/// What a gate is, mathematically.
pub struct GateState {
    /// The number of the turn that is granted next. Turns are counted from 1.
    pub turn: nat,
    /// Whether this gate has been exhausted.
    pub exhausted: bool,
    /// The number of slots that share this gate.
    pub slots: nat,
}

impl GateState {
    /// A gate before its first turn.
    pub open spec fn fresh(slots: nat) -> GateState {
        GateState { turn: 1, exhausted: false, slots }
    }

    /// The slot that owns turn number `turn` among `slots` slots.
    pub open spec fn owner_of(turn: nat, slots: nat) -> nat
        recommends
            slots > 0,
    {
        turn % slots
    }

    /// The answer that `slot` gets in this state.
    pub open spec fn admission(self, slot: nat) -> Admission
        recommends
            slot < self.slots,
    {
        if self.exhausted {
            Admission::Exhausted
        } else if Self::owner_of(self.turn, self.slots) == slot {
            Admission::Granted
        } else {
            Admission::Wait
        }
    }

    /// Why `slot` cannot complete the current turn, if it cannot.
    pub open spec fn refusal(self, slot: nat) -> Option<PipelineError> {
        if self.exhausted || slot >= self.slots || Self::owner_of(self.turn, self.slots) != slot {
            Some(PipelineError::NotAdmitted)
        } else if self.turn >= usize::MAX {
            Some(PipelineError::TurnOverflow)
        } else {
            None
        }
    }

    /// This gate after the current turn was completed; `last` says that the
    /// turn was the final one.
    pub open spec fn advanced(self, last: bool) -> GateState {
        GateState { turn: self.turn + 1, exhausted: last, slots: self.slots }
    }

    /// This gate after it was closed.
    pub open spec fn shut(self) -> GateState {
        GateState { turn: self.turn, exhausted: true, slots: self.slots }
    }

    /// This gate after one call.
    pub open spec fn after(self, call: GateCall) -> GateState {
        match call {
            GateCall::Request { slot } => self,
            GateCall::Complete { slot, last } => if self.refusal(slot) is None {
                self.advanced(last)
            } else {
                self
            },
            GateCall::Close => self.shut(),
        }
    }

    /// This gate after a series of calls, made in order.
    pub open spec fn after_all(self, calls: Seq<GateCall>) -> GateState
        decreases calls.len(),
    {
        if calls.len() == 0 {
            self
        } else {
            self.after_all(calls.drop_last()).after(calls.last())
        }
    }

    /// The numbers of the turns that a series of calls completed, in the
    /// order in which they were completed.
    pub open spec fn granted(self, calls: Seq<GateCall>) -> Seq<nat>
        decreases calls.len(),
    {
        if calls.len() == 0 {
            Seq::empty()
        } else {
            let before = self.after_all(calls.drop_last());
            let earlier = self.granted(calls.drop_last());
            match calls.last() {
                GateCall::Complete { slot, last } => if before.refusal(slot) is None {
                    earlier.push(before.turn)
                } else {
                    earlier
                },
                _ => earlier,
            }
        }
    }

    /// The slots that completed turns in a series of calls, in the order in
    /// which they did.
    pub open spec fn served(self, calls: Seq<GateCall>) -> Seq<nat>
        decreases calls.len(),
    {
        if calls.len() == 0 {
            Seq::empty()
        } else {
            let before = self.after_all(calls.drop_last());
            let earlier = self.served(calls.drop_last());
            match calls.last() {
                GateCall::Complete { slot, last } => if before.refusal(slot) is None {
                    earlier.push(slot)
                } else {
                    earlier
                },
                _ => earlier,
            }
        }
    }
}

/// A turn has one owner: two slots that are both granted the current turn are
/// one and the same slot.
pub proof fn law_one_owner_per_turn(gate: GateState, first: nat, second: nat)
    requires
        gate.admission(first) == Admission::Granted,
        gate.admission(second) == Admission::Granted,
    ensures
        first == second,
{
}

/// No open turn is without an owner: while a gate with at least one slot is
/// not exhausted, one of its slots is granted the current turn.
pub proof fn law_every_turn_has_an_owner(gate: GateState)
    requires
        gate.slots >= 1,
        !gate.exhausted,
    ensures
        GateState::owner_of(gate.turn, gate.slots) < gate.slots,
        gate.admission(GateState::owner_of(gate.turn, gate.slots)) == Admission::Granted,
{
    lemma_mod_pos_bound(gate.turn as int, gate.slots as int);
}

/// The slots are served in rotation: counted from any turn, the next turn of
/// a slot is less than `slots` turns away. The distance is returned.
pub proof fn law_slots_take_turns(turn: nat, slots: nat, slot: nat) -> (wait: nat)
    requires
        slot < slots,
    ensures
        wait < slots,
        GateState::owner_of(turn + wait, slots) == slot,
{
    let current = turn % slots;
    let rounds = turn / slots;
    lemma_mod_pos_bound(turn as int, slots as int);
    lemma_fundamental_div_mod(turn as int, slots as int);
    if slot >= current {
        let wait = (slot - current) as nat;
        assert(turn + wait == rounds * slots + slot) by (nonlinear_arith)
            requires
                turn == slots * rounds + current,
                wait == slot - current,
        ;
        lemma_fundamental_div_mod_converse((turn + wait) as int, slots as int, rounds as int, slot as int);
        wait
    } else {
        let wait = (slot + slots - current) as nat;
        assert(turn + wait == (rounds + 1) * slots + slot) by (nonlinear_arith)
            requires
                turn == slots * rounds + current,
                wait == slot + slots - current,
        ;
        lemma_fundamental_div_mod_converse(
            (turn + wait) as int,
            slots as int,
            (rounds + 1) as int,
            slot as int,
        );
        wait
    }
}

/// Within any `slots` turns in a row no slot is served twice.
pub proof fn law_no_slot_is_served_twice_in_a_round(turn: nat, slots: nat, sooner: nat, later: nat)
    requires
        sooner < later < slots,
    ensures
        GateState::owner_of(turn + sooner, slots) != GateState::owner_of(turn + later, slots),
{
    let first = (turn + sooner) as int;
    let second = (turn + later) as int;
    let width = slots as int;
    lemma_fundamental_div_mod(first, width);
    lemma_fundamental_div_mod(second, width);
    if first % width == second % width {
        let gap = second / width - first / width;
        assert(second - first == width * gap) by (nonlinear_arith)
            requires
                first == width * (first / width) + first % width,
                second == width * (second / width) + second % width,
                first % width == second % width,
                gap == second / width - first / width,
        ;
        assert(false) by (nonlinear_arith)
            requires
                0 < second - first < width,
                second - first == width * gap,
        ;
    }
}

/// Exhaustion is permanent: whatever is called on an exhausted gate, it stays
/// exhausted, its counter stays where it was and no turn is completed.
pub proof fn law_exhaustion_is_permanent(gate: GateState, calls: Seq<GateCall>)
    requires
        gate.exhausted,
    ensures
        gate.after_all(calls).exhausted,
        gate.after_all(calls).turn == gate.turn,
        gate.granted(calls) == Seq::<nat>::empty(),
    decreases calls.len(),
{
    if calls.len() > 0 {
        law_exhaustion_is_permanent(gate, calls.drop_last());
    }
}

/// Exhaustion is monotone along any series of calls: once a prefix of the
/// calls has exhausted this gate, it is exhausted after every longer prefix,
/// and the counter no longer moves.
pub proof fn law_exhaustion_is_monotone(gate: GateState, calls: Seq<GateCall>, seen: int)
    requires
        0 <= seen <= calls.len(),
        gate.after_all(calls.take(seen)).exhausted,
    ensures
        gate.after_all(calls).exhausted,
        gate.after_all(calls).turn == gate.after_all(calls.take(seen)).turn,
        gate.granted(calls) == gate.granted(calls.take(seen)),
    decreases calls.len() - seen,
{
    if seen == calls.len() {
        assert(calls.take(seen) == calls);
    } else {
        assert(calls.drop_last().take(seen) == calls.take(seen));
        law_exhaustion_is_monotone(gate, calls.drop_last(), seen);
    }
}

/// No turn is lost and none is given twice: the turns that a series of calls
/// completes are numbered consecutively from this gate's counter, and the
/// counter ends just behind the last of them.
pub proof fn law_turns_are_consecutive(gate: GateState, calls: Seq<GateCall>)
    ensures
        gate.after_all(calls).turn == gate.turn + gate.granted(calls).len(),
        forall|i: int| 0 <= i < gate.granted(calls).len() ==> gate.granted(calls)[i] == gate.turn + i,
        gate.after_all(calls).slots == gate.slots,
    decreases calls.len(),
{
    if calls.len() > 0 {
        law_turns_are_consecutive(gate, calls.drop_last());
    }
}

/// On a fresh gate the completed turns are exactly 1, 2, ..., K.
pub proof fn law_fresh_gate_counts_from_one(slots: nat, calls: Seq<GateCall>)
    ensures
        GateState::fresh(slots).granted(calls) == Seq::new(
            GateState::fresh(slots).granted(calls).len(),
            |i: int| (i + 1) as nat,
        ),
        GateState::fresh(slots).after_all(calls).turn == GateState::fresh(slots).granted(calls).len() + 1,
{
    law_turns_are_consecutive(GateState::fresh(slots), calls);
}

/// Each completed turn was completed by the slot that owns it: the turn with
/// number `t` by slot `t % slots`.
pub proof fn law_turns_go_to_their_owners(gate: GateState, calls: Seq<GateCall>)
    ensures
        gate.served(calls).len() == gate.granted(calls).len(),
        forall|i: int| 0 <= i < gate.granted(calls).len() ==> {
            &&& #[trigger] gate.served(calls)[i] < gate.slots
            &&& gate.served(calls)[i] == GateState::owner_of(gate.granted(calls)[i], gate.slots)
        },
    decreases calls.len(),
{
    if calls.len() > 0 {
        let earlier = calls.drop_last();
        law_turns_go_to_their_owners(gate, earlier);
        law_turns_are_consecutive(gate, earlier);
        assert forall|i: int| 0 <= i < gate.granted(calls).len() implies {
            &&& #[trigger] gate.served(calls)[i] < gate.slots
            &&& gate.served(calls)[i] == GateState::owner_of(gate.granted(calls)[i], gate.slots)
        } by {
            if i < gate.granted(earlier).len() {
                assert(gate.granted(calls)[i] == gate.granted(earlier)[i]);
                assert(gate.served(calls)[i] == gate.served(earlier)[i]);
            }
        }
    }
}

/// A turn counter and an exhaustion flag for `slots` worker slots.
pub struct TurnGate {
    turn: usize,
    exhausted: bool,
    slots: usize,
}

impl View for TurnGate {
    type V = GateState;

    closed spec fn view(&self) -> GateState {
        GateState { turn: self.turn as nat, exhausted: self.exhausted, slots: self.slots as nat }
    }
}

impl TurnGate {
    /// A gate for `slots` slots: the counter at 1, not exhausted.
    pub fn new(slots: usize) -> (gate: TurnGate)
        ensures
            gate@ == GateState::fresh(slots as nat),
    {
        TurnGate { turn: 1, exhausted: false, slots }
    }

    /// A gate for `slots` slots that takes up the count at `turn`, not
    /// exhausted.
    pub fn resume(turn: usize, slots: usize) -> (gate: TurnGate)
        ensures
            gate@ == (GateState { turn: turn as nat, exhausted: false, slots: slots as nat }),
    {
        TurnGate { turn, exhausted: false, slots }
    }

    /// The counter of a gate is a number that the machine can hold.
    pub proof fn turn_fits(&self)
        ensures
            self@.turn <= usize::MAX,
    {
    }

    /// The number of the turn that is granted next.
    pub fn turn(&self) -> (turn: usize)
        ensures
            turn == self@.turn,
    {
        self.turn
    }

    /// Whether this gate is exhausted.
    pub fn is_exhausted(&self) -> (exhausted: bool)
        ensures
            exhausted == self@.exhausted,
    {
        self.exhausted
    }

    /// The number of slots that share this gate.
    pub fn slots(&self) -> (slots: usize)
        ensures
            slots == self@.slots,
    {
        self.slots
    }

    /// One request for a turn by `slot`. This gate is not changed: a granted
    /// turn stays current until it is completed.
    pub fn request_turn(&self, slot: usize) -> (answer: Admission)
        requires
            slot < self@.slots,
        ensures
            answer == self@.admission(slot as nat),
    {
        if self.exhausted {
            Admission::Exhausted
        } else if self.turn % self.slots == slot {
            Admission::Granted
        } else {
            Admission::Wait
        }
    }

    /// Reports that `slot` has performed the operation of the current turn.
    /// The counter moves on by one and, if `last` is set, this gate becomes
    /// exhausted. The number of the completed turn is returned. A slot that
    /// was not granted the turn is refused and this gate stays as it was.
    pub fn complete_turn(&mut self, slot: usize, last: bool) -> (outcome: Result<usize, PipelineError>)
        ensures
            match outcome {
                Ok(turn) => old(self)@.refusal(slot as nat) is None
                    && turn == old(self)@.turn
                    && final(self)@ == old(self)@.advanced(last),
                Err(error) => old(self)@.refusal(slot as nat) == Some(error)
                    && final(self)@ == old(self)@,
            },
    {
        if self.exhausted || slot >= self.slots || self.turn % self.slots != slot {
            return Err(PipelineError::NotAdmitted);
        }
        if self.turn == usize::MAX {
            return Err(PipelineError::TurnOverflow);
        }
        let turn = self.turn;
        self.turn = turn + 1;
        self.exhausted = last;
        Ok(turn)
    }

    /// Exhausts this gate without completing a turn, so that every later
    /// request is answered with `Exhausted`.
    pub fn close(&mut self)
        ensures
            final(self)@ == old(self)@.shut(),
    {
        self.exhausted = true;
    }
}

} // verus!
