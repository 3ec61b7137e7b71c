//! A cursor over the bytes of an Impulse Tracker file, with the little-endian
//! field readers the format needs.

use crate::error::ItError;
use crate::text::push_char;
use vstd::prelude::*;
use vstd::slice::slice_to_vec;

verus! {

/// Unsigned 16-bit little-endian value of the two bytes at `i`.
pub open spec fn le16(b: Seq<u8>, i: int) -> int {
    b[i] + 256 * b[i + 1]
}

/// Unsigned 32-bit little-endian value of the four bytes at `i`.
pub open spec fn le32(b: Seq<u8>, i: int) -> int {
    b[i] + 256 * b[i + 1] + 65536 * b[i + 2] + 16777216 * b[i + 3]
}

/// Two's-complement value of a byte.
pub open spec fn signed8(b: u8) -> int {
    if b < 128 { b as int } else { b - 256 }
}

/// How a byte of a name is shown: ASCII stays, anything else becomes `?`.
pub open spec fn name_char(b: u8) -> char {
    if b < 128 { b as char } else { '?' }
}

/// Index of the first NUL byte, or the length when there is none.
pub open spec fn first_nul(b: Seq<u8>) -> nat
    decreases b.len(),
{
    if b.len() == 0 {
        0
    } else if b[0] == 0 {
        0
    } else {
        1 + first_nul(b.drop_first())
    }
}

/// Text of a fixed-size name field: the bytes before the first NUL, each as `name_char`.
pub open spec fn name_text(b: Seq<u8>) -> Seq<char> {
    b.take(first_nul(b) as int).map_values(|c: u8| name_char(c))
}

pub(crate) proof fn lemma_first_nul(b: Seq<u8>)
    ensures
        first_nul(b) <= b.len(),
        forall|i: int| 0 <= i < first_nul(b) ==> b[i] != 0,
        first_nul(b) < b.len() ==> b[first_nul(b) as int] == 0,
    decreases b.len(),
{
    if b.len() > 0 && b[0] != 0 {
        lemma_first_nul(b.drop_first());
        assert forall|i: int| 0 <= i < first_nul(b) implies b[i] != 0 by {
            if i > 0 {
                assert(b[i] == b.drop_first()[i - 1]);
            }
        }
    }
}

/// Cursor over the file bytes.
pub(crate) struct Reader<'a> {
    pub(crate) data: &'a [u8],
    pub(crate) pos: usize,
}

impl<'a> Reader<'a> {
    pub(crate) fn new(data: &'a [u8]) -> (r: Self)
        ensures
            r.data@ == data@,
            r.pos == 0,
    {
        Reader { data, pos: 0 }
    }

    pub(crate) fn seek(&mut self, pos: usize)
        ensures
            final(self).data@ == old(self).data@,
            final(self).pos == pos,
    {
        self.pos = pos;
    }

    pub(crate) fn read_bytes(&mut self, n: usize) -> (res: Result<&'a [u8], ItError>)
        ensures
            final(self).data@ == old(self).data@,
            match res {
                Ok(s) => {
                    &&& old(self).pos + n <= old(self).data@.len()
                    &&& s@ == old(self).data@.subrange(old(self).pos as int, old(self).pos + n)
                    &&& final(self).pos == old(self).pos + n
                },
                Err(e) => {
                    &&& old(self).pos + n > old(self).data@.len()
                    &&& e == ItError::UnexpectedEof { offset: old(self).pos }
                    &&& final(self).pos == old(self).pos
                },
            },
    {
        if self.pos > self.data.len() || n > self.data.len() - self.pos {
            return Err(ItError::UnexpectedEof { offset: self.pos });
        }
        let slice = &self.data[self.pos..self.pos + n];
        self.pos = self.pos + n;
        Ok(slice)
    }

    pub(crate) fn u8(&mut self) -> (res: Result<u8, ItError>)
        ensures
            final(self).data@ == old(self).data@,
            match res {
                Ok(v) => {
                    &&& old(self).pos + 1 <= old(self).data@.len()
                    &&& v == old(self).data@[old(self).pos as int]
                    &&& final(self).pos == old(self).pos + 1
                },
                Err(e) => {
                    &&& old(self).pos + 1 > old(self).data@.len()
                    &&& e == ItError::UnexpectedEof { offset: old(self).pos }
                    &&& final(self).pos == old(self).pos
                },
            },
    {
        let b = self.read_bytes(1)?;
        Ok(b[0])
    }

    pub(crate) fn i8(&mut self) -> (res: Result<i8, ItError>)
        ensures
            final(self).data@ == old(self).data@,
            match res {
                Ok(v) => {
                    &&& old(self).pos + 1 <= old(self).data@.len()
                    &&& v as int == signed8(old(self).data@[old(self).pos as int])
                    &&& final(self).pos == old(self).pos + 1
                },
                Err(e) => {
                    &&& old(self).pos + 1 > old(self).data@.len()
                    &&& e == ItError::UnexpectedEof { offset: old(self).pos }
                    &&& final(self).pos == old(self).pos
                },
            },
    {
        let b = self.u8()?;
        let v = b as i8;
        assert(v as int == signed8(b)) by (bit_vector)
            requires
                v == b as i8,
        ;
        Ok(v)
    }

    pub(crate) fn u16_le(&mut self) -> (res: Result<u16, ItError>)
        ensures
            final(self).data@ == old(self).data@,
            match res {
                Ok(v) => {
                    &&& old(self).pos + 2 <= old(self).data@.len()
                    &&& v == le16(old(self).data@, old(self).pos as int)
                    &&& final(self).pos == old(self).pos + 2
                },
                Err(e) => {
                    &&& old(self).pos + 2 > old(self).data@.len()
                    &&& e == ItError::UnexpectedEof { offset: old(self).pos }
                    &&& final(self).pos == old(self).pos
                },
            },
    {
        let b = self.read_bytes(2)?;
        Ok(b[0] as u16 + (b[1] as u16) * 256)
    }

    pub(crate) fn u32_le(&mut self) -> (res: Result<u32, ItError>)
        ensures
            final(self).data@ == old(self).data@,
            match res {
                Ok(v) => {
                    &&& old(self).pos + 4 <= old(self).data@.len()
                    &&& v == le32(old(self).data@, old(self).pos as int)
                    &&& final(self).pos == old(self).pos + 4
                },
                Err(e) => {
                    &&& old(self).pos + 4 > old(self).data@.len()
                    &&& e == ItError::UnexpectedEof { offset: old(self).pos }
                    &&& final(self).pos == old(self).pos
                },
            },
    {
        let b = self.read_bytes(4)?;
        Ok(b[0] as u32 + (b[1] as u32) * 256 + (b[2] as u32) * 65536 + (b[3] as u32) * 16777216)
    }

    pub(crate) fn flags8(&mut self) -> (res: Result<u8, ItError>)
        ensures
            final(self).data@ == old(self).data@,
            match res {
                Ok(v) => {
                    &&& old(self).pos + 1 <= old(self).data@.len()
                    &&& v == old(self).data@[old(self).pos as int]
                    &&& final(self).pos == old(self).pos + 1
                },
                Err(e) => {
                    &&& old(self).pos + 1 > old(self).data@.len()
                    &&& e == ItError::UnexpectedEof { offset: old(self).pos }
                    &&& final(self).pos == old(self).pos
                },
            },
    {
        self.u8()
    }

    pub(crate) fn flags16(&mut self) -> (res: Result<u16, ItError>)
        ensures
            final(self).data@ == old(self).data@,
            match res {
                Ok(v) => {
                    &&& old(self).pos + 2 <= old(self).data@.len()
                    &&& v == le16(old(self).data@, old(self).pos as int)
                    &&& final(self).pos == old(self).pos + 2
                },
                Err(e) => {
                    &&& old(self).pos + 2 > old(self).data@.len()
                    &&& e == ItError::UnexpectedEof { offset: old(self).pos }
                    &&& final(self).pos == old(self).pos
                },
            },
    {
        self.u16_le()
    }

    pub(crate) fn skip(&mut self, n: usize) -> (res: Result<(), ItError>)
        ensures
            final(self).data@ == old(self).data@,
            match res {
                Ok(_) => {
                    &&& old(self).pos + n <= old(self).data@.len()
                    &&& final(self).pos == old(self).pos + n
                },
                Err(e) => {
                    &&& old(self).pos + n > old(self).data@.len()
                    &&& e == ItError::UnexpectedEofSkip { offset: old(self).pos }
                    &&& final(self).pos == old(self).pos
                },
            },
    {
        if self.pos > self.data.len() || n > self.data.len() - self.pos {
            return Err(ItError::UnexpectedEofSkip { offset: self.pos });
        }
        self.pos = self.pos + n;
        Ok(())
    }

    /// Reads a fixed-size name field: the text before the first NUL byte,
    /// with every non-ASCII byte shown as `?`.
    pub(crate) fn string(&mut self, len: usize) -> (res: Result<String, ItError>)
        ensures
            final(self).data@ == old(self).data@,
            match res {
                Ok(s) => {
                    &&& old(self).pos + len <= old(self).data@.len()
                    &&& s@ == name_text(
                        old(self).data@.subrange(old(self).pos as int, old(self).pos + len),
                    )
                    &&& final(self).pos == old(self).pos + len
                },
                Err(e) => {
                    &&& old(self).pos + len > old(self).data@.len()
                    &&& e == ItError::UnexpectedEof { offset: old(self).pos }
                    &&& final(self).pos == old(self).pos
                },
            },
    {
        let bytes = self.read_bytes(len)?;
        let mut end: usize = 0;
        while end < len && bytes[end] != 0
            invariant
                end <= len,
                bytes@.len() == len,
                forall|i: int| 0 <= i < end ==> bytes@[i] != 0,
            decreases len - end,
        {
            end = end + 1;
        }
        proof {
            lemma_first_nul(bytes@);
            assert(first_nul(bytes@) == end) by {
                if first_nul(bytes@) < end {
                    assert(bytes@[first_nul(bytes@) as int] != 0);
                }
                if first_nul(bytes@) > end {
                    assert(bytes@[end as int] != 0);
                }
            }
        }
        let mut out = String::new();
        let mut i: usize = 0;
        while i < end
            invariant
                i <= end <= len,
                bytes@.len() == len,
                out@ == bytes@.take(i as int).map_values(|c: u8| name_char(c)),
            decreases end - i,
        {
            let b = bytes[i];
            let c = if b < 128 { b as char } else { '?' };
            push_char(&mut out, c);
            i = i + 1;
            assert(out@ =~= bytes@.take(i as int).map_values(|c: u8| name_char(c)));
        }
        Ok(out)
    }

    /// Reads `magic.len()` bytes and checks that they are `magic`.
    pub(crate) fn magic_check(&mut self, magic: &[u8]) -> (res: Result<(), ItError>)
        ensures
            final(self).data@ == old(self).data@,
            match res {
                Ok(_) => {
                    &&& old(self).pos + magic@.len() <= old(self).data@.len()
                    &&& old(self).data@.subrange(
                        old(self).pos as int,
                        old(self).pos + magic@.len(),
                    ) == magic@
                    &&& final(self).pos == old(self).pos + magic@.len()
                },
                Err(e) => if old(self).pos + magic@.len() > old(self).data@.len() {
                    &&& e == ItError::UnexpectedEof { offset: old(self).pos }
                    &&& final(self).pos == old(self).pos
                } else {
                    &&& e matches ItError::BadMagic { expected, got }
                    &&& expected@ == magic@
                    &&& got@ == old(self).data@.subrange(
                        old(self).pos as int,
                        old(self).pos + magic@.len(),
                    )
                    &&& got@ != magic@
                    &&& final(self).pos == old(self).pos + magic@.len()
                },
            },
    {
        let got = self.read_bytes(magic.len())?;
        let mut i: usize = 0;
        while i < magic.len()
            invariant
                i <= magic@.len(),
                got@.len() == magic@.len(),
                forall|j: int| 0 <= j < i ==> got@[j] == magic@[j],
                self.data@ == old(self).data@,
                self.pos == old(self).pos + magic@.len(),
                old(self).pos + magic@.len() <= old(self).data@.len(),
                got@ == old(self).data@.subrange(old(self).pos as int, old(self).pos + magic@.len()),
            decreases magic.len() - i,
        {
            if got[i] != magic[i] {
                return Err(ItError::BadMagic { expected: slice_to_vec(magic), got: slice_to_vec(got) });
            }
            i = i + 1;
        }
        assert(got@ =~= magic@);
        Ok(())
    }
}

} // verus!
