use vstd::prelude::*;
use vstd::slice::slice_subrange;

verus! {

/// A matched range of bytes: the offsets of its first and of its last byte
/// in the buffer that was scanned.
#[derive(Debug, Clone, Copy, PartialEq, Eq, Structural)]
pub struct Span {
    pub start: usize,
    pub end: usize,
}

impl Span {
    /// Whether the span names a non-empty range of `input`.
    pub open spec fn fits(self, input: Seq<u8>) -> bool {
        self.start <= self.end < input.len()
    }

    /// The bytes that the span names.
    pub open spec fn text(self, input: Seq<u8>) -> Seq<u8> {
        input.subrange(self.start as int, self.end + 1)
    }

    pub fn new(start: usize, end: usize) -> (span: Self)
        ensures
            span == (Span { start, end }),
    {
        Span { start, end }
    }

    /// The matched bytes, borrowed from `input`; `None` where the span does
    /// not lie inside `input`.
    pub fn slice<'a>(&self, input: &'a [u8]) -> (text: Option<&'a [u8]>)
        ensures
            self.fits(input@) ==> text.is_some() && text.unwrap()@ == self.text(input@),
            !self.fits(input@) ==> text.is_none(),
    {
        if self.start <= self.end && self.end < input.len() {
            Some(slice_subrange(input, self.start, self.end + 1))
        } else {
            None
        }
    }
}

} // verus!
