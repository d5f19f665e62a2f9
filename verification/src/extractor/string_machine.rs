use vstd::prelude::*;
use crate::class::{class_of, classify, Class};
use crate::cursor::{byte_at, Cursor};
use crate::extractor::machine::{pass_from, Machine, MachineState, Step};
use crate::span::Span;

verus! {

/// Recognises a quoted string, quotes included.
///
/// Rules:
///
/// - The string must start and end with the same quote character.
/// - The string cannot contain any whitespace characters, escaped or not.
/// - The string can contain any other character except for its own quote
///   character (unless it's escaped).
/// - Balancing of brackets or of other quotes is not required.
///
/// E.g.:
///
/// ```text
/// 'hello_world'
/// ^^^^^^^^^^^^^
///
/// content-['hello_world']
///          ^^^^^^^^^^^^^
/// ```
#[derive(Debug)]
pub struct StringMachine;

/// Whether the byte at `i` is the second byte of an escape pair, in a
/// literal that was opened at `start`: the byte before it is an escape that
/// is not itself escaped. The opening quote takes no part in a pair.
pub open spec fn is_escaped(input: Seq<u8>, start: nat, i: nat) -> bool
    decreases i,
{
    &&& start + 1 < i <= input.len()
    &&& class_of(input[i - 1]) == Class::Escape
    &&& !is_escaped(input, start, (i - 1) as nat)
}

/// Whether the bytes from `start` to `end`, both included, are a string
/// literal: a quote at `start`, the same byte unescaped at `end`, and between
/// the two no whitespace and no unescaped occurrence of that byte.
pub open spec fn is_literal(input: Seq<u8>, start: nat, end: nat) -> bool {
    &&& start < end < input.len()
    &&& class_of(input[start as int]) == Class::Quote
    &&& input[end as int] == input[start as int]
    &&& !is_escaped(input, start, end)
    &&& forall|i: int| start < i < end ==> class_of(#[trigger] input[i]) != Class::Whitespace
    &&& forall|i: int|
        start < i < end && #[trigger] input[i] == input[start as int] ==> is_escaped(
            input,
            start,
            i as nat,
        )
}

/// Whether each of `spans` is a string literal of `input`.
pub open spec fn all_literals(spans: Seq<Span>, input: Seq<u8>) -> bool {
    forall|i: int|
        0 <= i < spans.len() ==> is_literal(
            input,
            (#[trigger] spans[i]).start as nat,
            spans[i].end as nat,
        )
}

/// Where the scan of a literal's body comes to rest when it is taken up at
/// `pos`, the literal having been opened by the byte `quote`.
///
/// The scan rests on the first unescaped occurrence of `quote`, on the first
/// whitespace byte, or on the first escape that stands before a whitespace
/// byte, whichever comes first; an escape before any other byte is passed
/// together with that byte. Where none of these is found the scan rests at
/// the end of the buffer.
pub open spec fn scan_stop(input: Seq<u8>, quote: u8, pos: nat) -> nat
    decreases input.len() + 1 - pos,
{
    if pos >= input.len() {
        input.len()
    } else {
        match class_of(input[pos as int]) {
            Class::Escape => if class_of(byte_at(input, pos + 1)) == Class::Whitespace {
                pos
            } else {
                scan_stop(input, quote, pos + 2)
            },
            Class::Whitespace => pos,
            Class::Quote => if input[pos as int] == quote {
                pos
            } else {
                scan_stop(input, quote, pos + 1)
            },
            Class::Other => scan_stop(input, quote, pos + 1),
        }
    }
}

/// Whether the scan of a literal's body gives up at `pos`: on a whitespace
/// byte, or on an escape that stands before one.
pub open spec fn gives_up_at(input: Seq<u8>, pos: nat) -> bool {
    &&& pos < input.len()
    &&& {
        ||| class_of(input[pos as int]) == Class::Whitespace
        ||| class_of(input[pos as int]) == Class::Escape && class_of(byte_at(input, pos + 1))
            == Class::Whitespace
    }
}

/// What the string machine does at `pos` of `input`.
///
/// Unless a quote stands at `pos` it reports nothing and leaves the cursor
/// alone. Otherwise the cursor comes to rest at `scan_stop` of the body, and
/// a match is reported exactly if the byte there is the opening quote again.
pub open spec fn string_step(input: Seq<u8>, pos: nat) -> Step<StringMachine> {
    let quote = byte_at(input, pos);
    if class_of(quote) != Class::Quote {
        Step { machine: StringMachine, state: MachineState::Idle, pos }
    } else {
        let stop = scan_stop(input, quote, pos + 1);
        if stop < input.len() && input[stop as int] == quote {
            Step {
                machine: StringMachine,
                state: MachineState::Done(Span { start: pos as usize, end: stop as usize }),
                pos: stop,
            }
        } else {
            Step { machine: StringMachine, state: MachineState::Idle, pos: stop }
        }
    }
}

/// The scan never rests before the place where it was taken up, nor beyond
/// the end of the buffer.
pub proof fn lemma_scan_stop_in_bounds(input: Seq<u8>, quote: u8, pos: nat)
    requires
        pos <= input.len(),
    ensures
        pos <= scan_stop(input, quote, pos) <= input.len(),
    decreases input.len() - pos,
{
    if pos < input.len() {
        if pos + 2 <= input.len() {
            lemma_scan_stop_in_bounds(input, quote, pos + 2);
        }
        lemma_scan_stop_in_bounds(input, quote, pos + 1);
    }
}

/// An escape and the byte behind it are passed as one, so the scan does not
/// rest on an escaped quote: it goes on behind the pair.
pub proof fn lemma_escape_pair_is_passed(input: Seq<u8>, quote: u8, pos: nat)
    requires
        pos + 1 < input.len(),
        class_of(input[pos as int]) == Class::Escape,
        class_of(input[pos as int + 1]) != Class::Whitespace,
    ensures
        scan_stop(input, quote, pos) == scan_stop(input, quote, pos + 2),
        scan_stop(input, quote, pos) > pos + 1,
{
    lemma_scan_stop_in_bounds(input, quote, pos + 2);
}

/// What lies between the place where a scan is taken up and the place where
/// it rests: no whitespace, and the quote only behind an escape. The resting
/// place itself is unescaped, and unless the quote stands there the scan gave
/// up on it or ran out of bytes.
pub proof fn lemma_scan_stop_passes(input: Seq<u8>, quote: u8, start: nat, pos: nat)
    requires
        start < pos <= input.len(),
        class_of(quote) == Class::Quote,
        !is_escaped(input, start, pos),
    ensures
        pos <= scan_stop(input, quote, pos) <= input.len(),
        scan_stop(input, quote, pos) < input.len() ==> !is_escaped(
            input,
            start,
            scan_stop(input, quote, pos),
        ),
        forall|i: int|
            pos <= i < scan_stop(input, quote, pos) ==> class_of(#[trigger] input[i])
                != Class::Whitespace,
        forall|i: int|
            pos <= i < scan_stop(input, quote, pos) && #[trigger] input[i] == quote
                ==> is_escaped(input, start, i as nat),
        scan_stop(input, quote, pos) < input.len() && input[scan_stop(input, quote, pos) as int]
            != quote ==> gives_up_at(input, scan_stop(input, quote, pos)),
    decreases input.len() - pos,
{
    if pos < input.len() {
        let byte = input[pos as int];
        if class_of(byte) == Class::Escape {
            if class_of(byte_at(input, pos + 1)) != Class::Whitespace {
                assert(is_escaped(input, start, pos + 1));
                if pos + 2 <= input.len() {
                    assert(!is_escaped(input, start, pos + 2));
                    lemma_scan_stop_passes(input, quote, start, pos + 2);
                } else {
                    assert(scan_stop(input, quote, pos + 2) == input.len());
                }
            }
        } else if class_of(byte) != Class::Whitespace && byte != quote {
            assert(!is_escaped(input, start, pos + 1));
            lemma_scan_stop_passes(input, quote, start, pos + 1);
        }
    }
}

/// A scan that is taken up inside a literal's body rests on the literal's
/// closing quote.
pub proof fn lemma_scan_stop_finds(input: Seq<u8>, start: nat, pos: nat, end: nat)
    requires
        is_literal(input, start, end),
        start < pos <= end,
        !is_escaped(input, start, pos),
    ensures
        scan_stop(input, input[start as int], pos) == end,
    decreases end - pos,
{
    let quote = input[start as int];
    if pos < end {
        let byte = input[pos as int];
        assert(class_of(byte) != Class::Whitespace);
        assert(byte != quote);
        if class_of(byte) == Class::Escape {
            assert(is_escaped(input, start, pos + 1));
            assert(pos + 1 < end);
            assert(class_of(input[pos as int + 1]) != Class::Whitespace);
            assert(!is_escaped(input, start, pos + 2));
            lemma_scan_stop_finds(input, start, pos + 2, end);
        } else {
            assert(!is_escaped(input, start, pos + 1));
            lemma_scan_stop_finds(input, start, pos + 1, end);
        }
    }
}

/// The machine reports a match only where a string literal starts, and the
/// match is that literal: it starts and ends with the same quote, holds no
/// whitespace, and ends on the first unescaped occurrence of its quote.
/// Where it reports nothing, no string literal starts.
pub proof fn lemma_done_is_literal(input: Seq<u8>, pos: nat)
    requires
        input.len() <= usize::MAX,
    ensures
        string_step(input, pos).state matches MachineState::Done(span) ==> span.start == pos
            && is_literal(input, pos, span.end as nat),
        string_step(input, pos).state is Idle ==> forall|end: nat| !is_literal(input, pos, end),
{
    if pos < input.len() && class_of(input[pos as int]) == Class::Quote {
        lemma_scan_stop_passes(input, input[pos as int], pos, pos + 1);
    }
    assert forall|end: nat| is_literal(input, pos, end) implies !(string_step(
        input,
        pos,
    ).state is Idle) by {
        lemma_literal_is_done(input, pos, end);
    }
}

/// Where a string literal stands, the machine reports it and rests on its
/// closing quote.
pub proof fn lemma_literal_is_done(input: Seq<u8>, start: nat, end: nat)
    requires
        input.len() <= usize::MAX,
        is_literal(input, start, end),
    ensures
        string_step(input, start) == (Step {
            machine: StringMachine,
            state: MachineState::Done(Span { start: start as usize, end: end as usize }),
            pos: end,
        }),
{
    lemma_scan_stop_finds(input, start, start + 1, end);
}

/// Every match that a pass of the string machine collects is a string
/// literal of the buffer.
pub proof fn lemma_pass_collects_literals(input: Seq<u8>, pos: nat)
    requires
        input.len() <= usize::MAX,
    ensures
        all_literals(pass_from(StringMachine, input, pos).spans, input),
    decreases input.len() + 1 - pos,
{
    if pos < input.len() {
        let step = string_step(input, pos);
        let rest = pass_from(StringMachine, input, step.pos + 1).spans;
        let spans = pass_from(StringMachine, input, pos).spans;
        lemma_done_is_literal(input, pos);
        StringMachine.lemma_step_in_bounds(input, pos);
        lemma_pass_collects_literals(input, step.pos + 1);
        match step.state {
            MachineState::Done(span) => {
                assert(spans == seq![span] + rest);
                assert forall|i: int| 0 <= i < spans.len() implies is_literal(
                    input,
                    (#[trigger] spans[i]).start as nat,
                    spans[i].end as nat,
                ) by {
                    if i > 0 {
                        assert(spans[i] == rest[i - 1]);
                    }
                }
            },
            MachineState::Idle => {
                assert(spans == rest);
            },
        }
    }
}

impl Default for StringMachine {
    fn default() -> (machine: Self)
        ensures
            machine.is_reset(),
    {
        StringMachine
    }
}

impl Machine for StringMachine {
    /// The string machine keeps nothing between calls.
    open spec fn is_reset(&self) -> bool {
        true
    }

    open spec fn step(&self, input: Seq<u8>, pos: nat) -> Step<Self> {
        string_step(input, pos)
    }

    proof fn lemma_step_in_bounds(self, input: Seq<u8>, pos: nat) {
        if pos < input.len() {
            lemma_scan_stop_in_bounds(input, input[pos as int], pos + 1);
        }
    }

    proof fn lemma_reset_machines_agree(self, other: Self, input: Seq<u8>, pos: nat) {
    }

    #[inline(always)]
    fn reset(&mut self) {
    }

    #[inline]
    fn next(&mut self, cursor: &mut Cursor<'_>) -> (state: MachineState)
        ensures
            state matches MachineState::Done(span) ==> is_literal(
                old(cursor)@.input,
                span.start as nat,
                span.end as nat,
            ),
            state is Idle ==> forall|end: nat|
                !is_literal(old(cursor)@.input, old(cursor)@.pos, end),
    {
        let len = cursor.input().len();
        let start_pos = cursor.pos();
        let end_char = cursor.curr();
        proof {
            lemma_done_is_literal(cursor@.input, cursor@.pos);
        }
        if classify(end_char) != Class::Quote {
            return MachineState::Idle;
        }
        // Start of a string

        cursor.advance();

        while cursor.pos() < len
            invariant
                cursor@.input == old(cursor)@.input,
                len == cursor@.input.len(),
                start_pos == old(cursor)@.pos,
                start_pos < cursor@.pos <= len,
                class_of(end_char) == Class::Quote,
                end_char == byte_at(cursor@.input, start_pos as nat),
                scan_stop(cursor@.input, end_char, cursor@.pos) == scan_stop(
                    cursor@.input,
                    end_char,
                    (start_pos + 1) as nat,
                ),
            decreases len - cursor@.pos,
        {
            proof {
                lemma_done_is_literal(cursor@.input, start_pos as nat);
                // A pair that starts on the last byte runs out of the buffer,
                // where the scan rests wherever it is taken up.
                assert(cursor@.pos + 1 == len ==> scan_stop(
                    cursor@.input,
                    end_char,
                    cursor@.pos + 2,
                ) == scan_stop(cursor@.input, end_char, cursor@.pos + 1));
            }
            match classify(cursor.curr()) {
                Class::Escape => match classify(cursor.next()) {
                    // An escaped whitespace character is not allowed
                    Class::Whitespace => {
                        return MachineState::Idle;
                    },
                    // An escaped character, skip ahead to the next character
                    _ => {
                        cursor.advance();
                    },
                },
                // End of the string
                Class::Quote => if cursor.curr() == end_char {
                    return self.done(start_pos, cursor);
                },
                // Any kind of whitespace is not allowed
                Class::Whitespace => {
                    return MachineState::Idle;
                },
                // Everything else is valid
                Class::Other => {},
            }
            cursor.advance();
        }
        MachineState::Idle
    }
}

} // verus!
