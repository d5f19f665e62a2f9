use vstd::prelude::*;

verus! {

/// The lexical meaning of a byte.
#[derive(Debug, Clone, Copy, PartialEq, Eq, Structural)]
pub enum Class {
    /// ', ", or `
    Quote,
    /// \
    Escape,
    /// Space, tab, line feed, carriage return or form feed
    Whitespace,
    /// Every other byte
    Other,
}

/// The class of each of the 256 bytes.
pub open spec fn class_of(byte: u8) -> Class {
    if byte == 0x22 || byte == 0x27 || byte == 0x60 {
        Class::Quote
    } else if byte == 0x5c {
        Class::Escape
    } else if byte == 0x20 || byte == 0x09 || byte == 0x0a || byte == 0x0d || byte == 0x0c {
        Class::Whitespace
    } else {
        Class::Other
    }
}

const Q: Class = Class::Quote;

const E: Class = Class::Escape;

const W: Class = Class::Whitespace;

const O: Class = Class::Other;

/// `class_of`, laid out for a lookup by index: sixteen bytes to a row.
const CLASS_TABLE: [Class; 256] = [
    O, O, O, O, O, O, O, O, O, W, W, O, W, W, O, O, // 0x00
    O, O, O, O, O, O, O, O, O, O, O, O, O, O, O, O, // 0x10
    W, O, Q, O, O, O, O, Q, O, O, O, O, O, O, O, O, // 0x20
    O, O, O, O, O, O, O, O, O, O, O, O, O, O, O, O, // 0x30
    O, O, O, O, O, O, O, O, O, O, O, O, O, O, O, O, // 0x40
    O, O, O, O, O, O, O, O, O, O, O, O, E, O, O, O, // 0x50
    Q, O, O, O, O, O, O, O, O, O, O, O, O, O, O, O, // 0x60
    O, O, O, O, O, O, O, O, O, O, O, O, O, O, O, O, // 0x70
    O, O, O, O, O, O, O, O, O, O, O, O, O, O, O, O, // 0x80
    O, O, O, O, O, O, O, O, O, O, O, O, O, O, O, O, // 0x90
    O, O, O, O, O, O, O, O, O, O, O, O, O, O, O, O, // 0xa0
    O, O, O, O, O, O, O, O, O, O, O, O, O, O, O, O, // 0xb0
    O, O, O, O, O, O, O, O, O, O, O, O, O, O, O, O, // 0xc0
    O, O, O, O, O, O, O, O, O, O, O, O, O, O, O, O, // 0xd0
    O, O, O, O, O, O, O, O, O, O, O, O, O, O, O, O, // 0xe0
    O, O, O, O, O, O, O, O, O, O, O, O, O, O, O, O, // 0xf0
];

proof fn lemma_table_holds_classes(byte: u8)
    ensures
        CLASS_TABLE[byte as int] == class_of(byte),
{
}

/// The class of `byte`, read from the table.
#[inline(always)]
pub fn classify(byte: u8) -> (class: Class)
    ensures
        class == class_of(byte),
{
    proof {
        lemma_table_holds_classes(byte);
    }
    CLASS_TABLE[byte as usize]
}

} // verus!
