use vstd::prelude::*;

verus! {

/// The byte of `input` at index `i`, or the end-of-input sentinel `0x00`
/// where `i` lies outside the buffer.
pub open spec fn byte_at(input: Seq<u8>, i: nat) -> u8 {
    if i < input.len() {
        input[i as int]
    } else {
        0u8
    }
}

/// What a cursor stands for: the buffer it reads and how far it has come.
pub ghost struct CursorView {
    pub input: Seq<u8>,
    pub pos: nat,
}

/// A position in a borrowed byte buffer, with the byte under it and the byte
/// after it kept at hand.
///
/// The position never leaves `[0, input.len()]`, and the two cached bytes
/// always agree with the buffer (`0x00` past its end).
pub struct Cursor<'a> {
    input: &'a [u8],
    pos: usize,
    curr: u8,
    next: u8,
}

impl<'a> View for Cursor<'a> {
    type V = CursorView;

    closed spec fn view(&self) -> CursorView {
        CursorView { input: self.input@, pos: self.pos as nat }
    }
}

impl<'a> Cursor<'a> {
    #[verifier::type_invariant]
    spec fn well_formed(self) -> bool {
        &&& self.pos <= self.input@.len()
        &&& self.curr == byte_at(self.input@, self.pos as nat)
        &&& self.next == byte_at(self.input@, (self.pos + 1) as nat)
    }

    fn fetch(input: &[u8], i: usize) -> (byte: u8)
        ensures
            byte == byte_at(input@, i as nat),
    {
        if i < input.len() {
            input[i]
        } else {
            0
        }
    }

    /// A cursor at the start of `input`.
    pub fn new(input: &'a [u8]) -> (cursor: Self)
        ensures
            cursor@ == (CursorView { input: input@, pos: 0 }),
    {
        let curr = Self::fetch(input, 0);
        let next = Self::fetch(input, 1);
        Cursor { input, pos: 0, curr, next }
    }

    /// Moves one byte forward; at the end of the buffer the cursor stays
    /// where it is.
    #[inline(always)]
    pub fn advance(&mut self)
        ensures
            final(self)@.input == old(self)@.input,
            final(self)@.pos == (if old(self)@.pos < old(self)@.input.len() {
                old(self)@.pos + 1
            } else {
                old(self)@.pos
            }),
            final(self)@.pos <= final(self)@.input.len(),
    {
        proof {
            use_type_invariant(&*self);
        }
        let len = self.input.len();
        if self.pos < len {
            let pos = self.pos + 1;
            let next = if pos < len {
                Self::fetch(self.input, pos + 1)
            } else {
                0
            };
            *self = Cursor { input: self.input, pos, curr: self.next, next };
        }
    }

    /// Moves to `pos`, or to the end of the buffer where `pos` lies beyond it.
    pub fn move_to(&mut self, pos: usize)
        ensures
            final(self)@.input == old(self)@.input,
            final(self)@.pos == (if pos <= old(self)@.input.len() {
                pos as nat
            } else {
                old(self)@.input.len()
            }),
            final(self)@.pos <= final(self)@.input.len(),
    {
        let len = self.input.len();
        let pos = if pos <= len {
            pos
        } else {
            len
        };
        let curr = Self::fetch(self.input, pos);
        let next = if pos < len {
            Self::fetch(self.input, pos + 1)
        } else {
            0
        };
        *self = Cursor { input: self.input, pos, curr, next };
    }

    /// The buffer that the cursor reads.
    pub fn input(&self) -> (input: &'a [u8])
        ensures
            input@ == self@.input,
    {
        self.input
    }

    /// The current position, between `0` and the buffer's length.
    pub fn pos(&self) -> (pos: usize)
        ensures
            pos == self@.pos,
            pos <= self@.input.len(),
    {
        proof {
            use_type_invariant(self);
        }
        self.pos
    }

    /// The byte under the cursor, `0x00` at the end of the buffer.
    pub fn curr(&self) -> (byte: u8)
        ensures
            byte == byte_at(self@.input, self@.pos),
    {
        proof {
            use_type_invariant(self);
        }
        self.curr
    }

    /// The byte after the one under the cursor, `0x00` where there is none.
    pub fn next(&self) -> (byte: u8)
        ensures
            byte == byte_at(self@.input, self@.pos + 1),
    {
        proof {
            use_type_invariant(self);
        }
        self.next
    }
}

} // verus!
