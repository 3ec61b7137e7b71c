//! Errors reported while reading an Impulse Tracker file.

use crate::text::{decimal, push_decimal, push_str};
use vstd::prelude::*;
use vstd::string::*;

verus! {

/// Why an Impulse Tracker file could not be read.
#[derive(Debug, Clone)]
pub enum ItError {
    /// A field starting at `offset` runs past the end of the file.
    UnexpectedEof { offset: usize },
    /// A gap that should be skipped, starting at `offset`, runs past the end of the file.
    UnexpectedEofSkip { offset: usize },
    /// A block did not start with its four-byte signature.
    BadMagic { expected: Vec<u8>, got: Vec<u8> },
    /// A sample header pointer leaves no room for the 80-byte header.
    SamplePointerOutOfRange { ptr: usize },
    /// Uncompressed 16-bit sample data runs past the end of the file.
    Raw16OutOfRange,
    /// Uncompressed 8-bit sample data runs past the end of the file.
    Raw8OutOfRange,
}

/// The bytes as a list, as `{:?}` shows a byte slice: "[73, 77, 80, 77]".
pub open spec fn byte_list(b: Seq<u8>) -> Seq<char> {
    "["@ + byte_items(b) + "]"@
}

/// The decimal values of the bytes, separated by ", ".
pub open spec fn byte_items(b: Seq<u8>) -> Seq<char>
    decreases b.len(),
{
    if b.len() == 0 {
        seq![]
    } else if b.len() == 1 {
        decimal(b[0] as nat)
    } else {
        byte_items(b.drop_last()) + ", "@ + decimal(b.last() as nat)
    }
}

/// What an error says.
pub open spec fn error_message(e: ItError) -> Seq<char> {
    match e {
        ItError::UnexpectedEof { offset } => "unexpected end of file at offset "@ + decimal(offset as nat),
        ItError::UnexpectedEofSkip { offset } => "unexpected end of file (skip) at offset "@ + decimal(
            offset as nat,
        ),
        ItError::BadMagic { expected, got } => "bad magic: expected "@ + byte_list(expected@)
            + ", got "@ + byte_list(got@),
        ItError::SamplePointerOutOfRange { ptr } => "sample pointer out of range: "@ + decimal(ptr as nat),
        ItError::Raw16OutOfRange => "raw 16-bit sample data out of range"@,
        ItError::Raw8OutOfRange => "raw 8-bit sample data out of range"@,
    }
}

fn push_byte_list(s: &mut String, b: &Vec<u8>)
    ensures
        final(s)@ == old(s)@ + byte_list(b@),
{
    push_str(s, "[");
    let ghost start = s@;
    let mut i: usize = 0;
    while i < b.len()
        invariant
            i <= b@.len(),
            s@ == start + byte_items(b@.subrange(0, i as int)),
        decreases b@.len() - i,
    {
        if i > 0 {
            push_str(s, ", ");
        }
        push_decimal(s, b[i] as u64);
        i = i + 1;
        proof {
            let t = b@.subrange(0, i as int);
            assert(t.drop_last() =~= b@.subrange(0, i - 1));
            assert(s@ =~= start + byte_items(t));
        }
    }
    assert(b@.subrange(0, b@.len() as int) =~= b@);
    push_str(s, "]");
    assert(s@ =~= old(s)@ + byte_list(b@));
}

impl ItError {
    /// The error as text, as it is reported to the user.
    pub fn message(&self) -> (r: String)
        ensures
            r@ == error_message(*self),
    {
        let mut s = String::new();
        match self {
            ItError::UnexpectedEof { offset } => {
                push_str(&mut s, "unexpected end of file at offset ");
                push_decimal(&mut s, *offset as u64);
            },
            ItError::UnexpectedEofSkip { offset } => {
                push_str(&mut s, "unexpected end of file (skip) at offset ");
                push_decimal(&mut s, *offset as u64);
            },
            ItError::BadMagic { expected, got } => {
                push_str(&mut s, "bad magic: expected ");
                push_byte_list(&mut s, expected);
                push_str(&mut s, ", got ");
                push_byte_list(&mut s, got);
            },
            ItError::SamplePointerOutOfRange { ptr } => {
                push_str(&mut s, "sample pointer out of range: ");
                push_decimal(&mut s, *ptr as u64);
            },
            ItError::Raw16OutOfRange => {
                push_str(&mut s, "raw 16-bit sample data out of range");
            },
            ItError::Raw8OutOfRange => {
                push_str(&mut s, "raw 8-bit sample data out of range");
            },
        }
        assert(s@ =~= error_message(*self));
        s
    }
}

} // verus!
