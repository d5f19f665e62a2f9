use vstd::prelude::*;
use crate::cursor::Cursor;
use crate::span::Span;

verus! {

/// What one call of a machine reports.
#[derive(Debug, Clone, Copy, PartialEq, Eq, Structural)]
pub enum MachineState {
    /// Nothing was recognised at the cursor.
    Idle,
    /// A match was recognised; the span gives its first and last byte.
    Done(Span),
}

/// One call of `next` seen from outside: the machine it leaves behind, what
/// it reports, and where it leaves the cursor.
pub ghost struct Step<M> {
    pub machine: M,
    pub state: MachineState,
    pub pos: nat,
}

impl<M> Step<M> {
    /// The cursor has not gone backwards nor left the buffer, and a reported
    /// match runs from where the call started to where the cursor rests, on a
    /// byte of the buffer.
    pub open spec fn in_bounds(self, input: Seq<u8>, pos: nat) -> bool {
        &&& pos <= self.pos <= input.len()
        &&& self.state matches MachineState::Done(span) ==> {
            &&& span.start == pos
            &&& span.end == self.pos
            &&& self.pos < input.len()
        }
    }
}

/// A reusable recogniser of one lexical shape.
pub trait Machine: Sized {
    /// Whether the machine carries nothing over from earlier calls.
    spec fn is_reset(&self) -> bool;

    /// What `next` does when the cursor stands at `pos` of `input`.
    spec fn step(&self, input: Seq<u8>, pos: nat) -> Step<Self>;

    /// Every step stays inside the buffer.
    proof fn lemma_step_in_bounds(self, input: Seq<u8>, pos: nat)
        requires
            pos <= input.len() <= usize::MAX,
        ensures
            self.step(input, pos).in_bounds(input, pos),
    ;

    /// Two machines that were both reset report the same and leave the cursor
    /// at the same place.
    proof fn lemma_reset_machines_agree(self, other: Self, input: Seq<u8>, pos: nat)
        requires
            self.is_reset(),
            other.is_reset(),
        ensures
            self.step(input, pos).state == other.step(input, pos).state,
            self.step(input, pos).pos == other.step(input, pos).pos,
    ;

    /// Forgets whatever earlier calls left behind.
    fn reset(&mut self)
        ensures
            final(self).is_reset(),
    ;

    /// Tries to recognise a match that starts at the cursor.
    fn next(&mut self, cursor: &mut Cursor<'_>) -> (state: MachineState)
        ensures
            final(cursor)@.input == old(cursor)@.input,
            (Step { machine: *final(self), state, pos: final(cursor)@.pos }) == old(self).step(
                old(cursor)@.input,
                old(cursor)@.pos,
            ),
            old(self).step(old(cursor)@.input, old(cursor)@.pos).in_bounds(
                old(cursor)@.input,
                old(cursor)@.pos,
            ),
    ;

    /// The match that started at `start` and ends under the cursor.
    #[inline(always)]
    fn done(&self, start: usize, cursor: &Cursor<'_>) -> (state: MachineState)
        ensures
            state == MachineState::Done(Span { start, end: cursor@.pos as usize }),
    {
        MachineState::Done(Span::new(start, cursor.pos()))
    }
}

/// A whole pass over a buffer: the matches found, in the order in which they
/// start, and the machine as the pass leaves it.
pub ghost struct Pass<M> {
    pub machine: M,
    pub spans: Seq<Span>,
}

/// The pass that takes up the walk at `pos` of `input`.
///
/// The machine is tried at `pos`. Whatever it reports, the walk goes on one
/// byte beyond the place where the machine left the cursor, so a match is
/// stepped over as a whole and so are the bytes that a failed attempt has
/// looked at. The walk ends at the end of the buffer.
pub open spec fn pass_from<M: Machine>(machine: M, input: Seq<u8>, pos: nat) -> Pass<M>
    decreases input.len() + 1 - pos,
    when input.len() <= usize::MAX
{
    if pos >= input.len() {
        Pass { machine, spans: Seq::empty() }
    } else {
        let step = machine.step(input, pos);
        proof {
            machine.lemma_step_in_bounds(input, pos);
        }
        let rest = pass_from(step.machine, input, step.pos + 1);
        match step.state {
            MachineState::Done(span) => Pass { machine: rest.machine, spans: seq![span] + rest.spans },
            MachineState::Idle => rest,
        }
    }
}

/// Whether `spans` lie in `input`, none before `pos`, each ending before the
/// next one starts.
pub open spec fn ordered_from(spans: Seq<Span>, input: Seq<u8>, pos: nat) -> bool {
    &&& forall|i: int|
        0 <= i < spans.len() ==> pos <= (#[trigger] spans[i]).start && spans[i].fits(input)
    &&& forall|i: int, j: int|
        0 <= i < j < spans.len() ==> (#[trigger] spans[i]).end < (#[trigger] spans[j]).start
}

/// The matches of a pass lie in the buffer, none before the place where the
/// pass was taken up, and each ends before the next one starts.
pub proof fn lemma_pass_is_ordered<M: Machine>(machine: M, input: Seq<u8>, pos: nat)
    requires
        input.len() <= usize::MAX,
    ensures
        ordered_from(pass_from(machine, input, pos).spans, input, pos),
    decreases input.len() + 1 - pos,
{
    if pos < input.len() {
        let step = machine.step(input, pos);
        let rest = pass_from(step.machine, input, step.pos + 1).spans;
        let spans = pass_from(machine, input, pos).spans;
        machine.lemma_step_in_bounds(input, pos);
        lemma_pass_is_ordered(step.machine, input, step.pos + 1);
        match step.state {
            MachineState::Done(span) => {
                assert(spans == seq![span] + rest);
                assert forall|i: int| 0 <= i < spans.len() implies pos <= (#[trigger] spans[i]).start
                    && spans[i].fits(input) by {
                    if i > 0 {
                        assert(spans[i] == rest[i - 1]);
                    }
                }
                assert forall|i: int, j: int| 0 <= i < j < spans.len() implies (#[trigger] spans[i]).end
                    < (#[trigger] spans[j]).start by {
                    assert(spans[j] == rest[j - 1]);
                    if i > 0 {
                        assert(spans[i] == rest[i - 1]);
                    }
                }
            },
            MachineState::Idle => {
                assert(spans == rest);
            },
        }
    }
}

/// Walks `input` from its first byte to its last and collects every match
/// that `machine` reports on the way.
///
/// The machine is taken as it is: `reset` it first where it has been used
/// before and carries state.
pub fn extract_all<M: Machine>(machine: &mut M, input: &[u8]) -> (spans: Vec<Span>)
    ensures
        (Pass { machine: *final(machine), spans: spans@ }) == pass_from(*old(machine), input@, 0),
        ordered_from(spans@, input@, 0),
{
    let mut cursor = Cursor::new(input);
    let mut spans: Vec<Span> = Vec::new();
    let len = input.len();
    proof {
        lemma_pass_is_ordered(*machine, input@, 0);
    }
    while cursor.pos() < len
        invariant
            cursor@.input == input@,
            len == input@.len(),
            cursor@.pos <= len,
            pass_from(*old(machine), input@, 0).machine == pass_from(
                *machine,
                input@,
                cursor@.pos,
            ).machine,
            pass_from(*old(machine), input@, 0).spans == spans@ + pass_from(
                *machine,
                input@,
                cursor@.pos,
            ).spans,
        decreases len - cursor@.pos,
    {
        let ghost before = *machine;
        let ghost at = cursor@.pos;
        let ghost found = spans@;
        proof {
            before.lemma_step_in_bounds(input@, at);
        }
        match machine.next(&mut cursor) {
            MachineState::Done(span) => {
                spans.push(span);
            },
            MachineState::Idle => {},
        }
        cursor.advance();
        proof {
            let step = before.step(input@, at);
            let rest = pass_from(*machine, input@, cursor@.pos);
            assert(rest == pass_from(*machine, input@, step.pos + 1));
            assert(spans@ + rest.spans == found + pass_from(before, input@, at).spans);
        }
    }
    spans
}

} // verus!
