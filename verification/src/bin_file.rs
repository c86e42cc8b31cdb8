use vstd::prelude::*;

use crate::error::{PatchError, Result};

verus! {

/// Unsigned big-endian 16-bit value stored at `s[i..i + 2]`.
pub open spec fn be16(s: Seq<u8>, i: int) -> int {
    s[i] * 0x100 + s[i + 1]
}

/// Unsigned little-endian 16-bit value stored at `s[i..i + 2]`.
pub open spec fn le16(s: Seq<u8>, i: int) -> int {
    s[i] + s[i + 1] * 0x100
}

/// Unsigned big-endian 24-bit value stored at `s[i..i + 3]`.
pub open spec fn be24(s: Seq<u8>, i: int) -> int {
    s[i] * 0x10000 + s[i + 1] * 0x100 + s[i + 2]
}

/// Unsigned big-endian 32-bit value stored at `s[i..i + 4]`.
pub open spec fn be32(s: Seq<u8>, i: int) -> int {
    s[i] * 0x1000000 + s[i + 1] * 0x10000 + s[i + 2] * 0x100 + s[i + 3]
}

/// Unsigned little-endian 32-bit value stored at `s[i..i + 4]`.
pub open spec fn le32(s: Seq<u8>, i: int) -> int {
    s[i] + s[i + 1] * 0x100 + s[i + 2] * 0x10000 + s[i + 3] * 0x1000000
}

/// Unsigned little-endian 64-bit value stored at `s[i..i + 8]`.
pub open spec fn le64(s: Seq<u8>, i: int) -> int {
    le32(s, i) + le32(s, i + 4) * 0x1_0000_0000
}

/// One step of byuu's variable-length value decoder, started at `pos` with the
/// running `value` and `shift`. Returns the decoded value (or the error) and the
/// position just past the last byte that was consumed.
///
/// A byte contributes its low seven bits times `shift`; a set high bit ends the
/// value. Between bytes the shift is multiplied by 128 (wrapping at 64 bits) and
/// added to the value, which makes every encoding unique.
pub open spec fn vlv_from(s: Seq<u8>, pos: int, value: u64, shift: u64) -> (Result<u64>, int)
    decreases s.len() - pos,
{
    if pos < 0 || pos >= s.len() {
        (Err(PatchError::Truncated), pos)
    } else {
        let byte = s[pos];
        let chunk = (byte % 128) * shift;
        if chunk > u64::MAX || value + chunk > u64::MAX {
            (Err(PatchError::InvalidEncoding), pos + 1)
        } else if byte >= 128 {
            (Ok((value + chunk) as u64), pos + 1)
        } else {
            let next_shift = ((shift % 0x200_0000_0000_0000) * 128) as u64;
            if value + chunk + next_shift > u64::MAX {
                (Err(PatchError::InvalidEncoding), pos + 1)
            } else {
                vlv_from(s, pos + 1, (value + chunk + next_shift) as u64, next_shift)
            }
        }
    }
}

/// The byuu variable-length value encoded at `s[pos..]`, with the position after it.
pub open spec fn vlv_at(s: Seq<u8>, pos: int) -> (Result<u64>, int) {
    vlv_from(s, pos, 0, 1)
}

/// A decoded value always ends after its first byte and within the buffer.
pub proof fn lemma_vlv_from_bounds(s: Seq<u8>, pos: int, value: u64, shift: u64)
    ensures
        vlv_from(s, pos, value, shift).0 is Ok ==> pos < vlv_from(s, pos, value, shift).1 <= s.len(),
        vlv_from(s, pos, value, shift).1 >= pos,
    decreases s.len() - pos,
{
    if 0 <= pos < s.len() {
        let byte = s[pos];
        let chunk = (byte % 128) * shift;
        if !(chunk > u64::MAX || value + chunk > u64::MAX) && byte < 128 {
            let next_shift = ((shift % 0x200_0000_0000_0000) * 128) as u64;
            if value + chunk + next_shift <= u64::MAX {
                lemma_vlv_from_bounds(s, pos + 1, (value + chunk + next_shift) as u64, next_shift);
            }
        }
    }
}

/// A decoded value always ends after its first byte and within the buffer.
pub proof fn lemma_vlv_bounds(s: Seq<u8>, pos: int)
    ensures
        vlv_at(s, pos).0 is Ok ==> pos < vlv_at(s, pos).1 <= s.len(),
        vlv_at(s, pos).1 >= pos,
{
    lemma_vlv_from_bounds(s, pos, 0, 1);
}

/// The byuu encoding of `v`: seven bits per byte, least significant first,
/// the last byte flagged with the high bit, and one taken off what remains
/// after each unflagged byte so that every value has exactly one encoding.
pub open spec fn vlv_encode(v: nat) -> Seq<u8>
    decreases v,
{
    if v < 128 {
        seq![(v + 128) as u8]
    } else {
        seq![(v % 128) as u8] + vlv_encode((v / 128 - 1) as nat)
    }
}

proof fn lemma_vlv_step_arith(value: int, v: int, shift: int, q: int, r: int)
    by (nonlinear_arith)
    requires
        0 <= value,
        0 <= shift,
        v == 128 * q + r,
        q >= 1,
        0 <= r < 128,
        value + v * shift <= 0xffff_ffff_ffff_ffff,
    ensures
        128 * shift <= 0xffff_ffff_ffff_ffff,
        r * shift + 128 * shift <= v * shift,
        value + r * shift + 128 * shift + (q - 1) * (128 * shift) == value + v * shift,
        0 <= r * shift <= v * shift,
{
}

proof fn lemma_vlv_last_arith(value: int, v: int, shift: int)
    by (nonlinear_arith)
    requires
        0 <= value,
        0 <= shift,
        0 <= v,
        value + v * shift <= 0xffff_ffff_ffff_ffff,
    ensures
        0 <= v * shift <= 0xffff_ffff_ffff_ffff,
{
}

proof fn lemma_vlv_from_encode(s: Seq<u8>, pos: int, value: u64, shift: u64, v: nat)
    requires
        0 <= pos,
        pos + vlv_encode(v).len() <= s.len(),
        s.subrange(pos, pos + vlv_encode(v).len()) == vlv_encode(v),
        value + v * shift <= u64::MAX,
    ensures
        vlv_from(s, pos, value, shift) == (
            Ok::<u64, PatchError>((value + v * shift) as u64),
            pos + vlv_encode(v).len(),
        ),
    decreases v,
{
    let e = vlv_encode(v);
    assert(s[pos] == e[0]);
    if v < 128 {
        lemma_vlv_last_arith(value as int, v as int, shift as int);
        assert(s[pos] % 128 == v);
        assert(s[pos] >= 128);
    } else {
        let q = v / 128;
        let r = v % 128;
        let w = (q - 1) as nat;
        lemma_vlv_step_arith(value as int, v as int, shift as int, q as int, r as int);
        assert(s[pos] == r);
        assert((shift % 0x200_0000_0000_0000) == shift);
        let next_shift = ((shift % 0x200_0000_0000_0000) * 128) as u64;
        assert(next_shift == 128 * shift);
        let next_value = (value + r * shift + next_shift) as u64;
        assert(vlv_encode(v) == seq![r as u8] + vlv_encode(w));
        assert(s.subrange(pos + 1, pos + 1 + vlv_encode(w).len()) =~= vlv_encode(w)) by {
            assert forall|i: int| 0 <= i < vlv_encode(w).len() implies s.subrange(
                pos + 1,
                pos + 1 + vlv_encode(w).len(),
            )[i] == vlv_encode(w)[i] by {
                assert(s[pos + 1 + i] == e[1 + i]);
            }
        }
        lemma_vlv_from_encode(s, pos + 1, next_value, next_shift, w);
    }
}

/// `read_vlv` decodes every value from its encoding, whatever follows it,
/// and stops right after it: decoding is the inverse of `vlv_encode`.
pub proof fn lemma_vlv_roundtrip(v: u64, rest: Seq<u8>)
    ensures
        vlv_at(vlv_encode(v as nat) + rest, 0) == (
            Ok::<u64, PatchError>(v),
            vlv_encode(v as nat).len() as int,
        ),
{
    let e = vlv_encode(v as nat);
    let s = e + rest;
    assert(s.subrange(0, e.len() as int) =~= e);
    lemma_vlv_from_encode(s, 0, 0, 1, v as nat);
}

/// Reads the little-endian 32-bit value at `s[i..i + 4]`.
pub fn le32_at(s: &[u8], i: usize) -> (r: u32)
    requires
        i + 4 <= s@.len(),
    ensures
        r == le32(s@, i as int),
{
    s[i] as u32 + (s[i + 1] as u32) * 0x100 + (s[i + 2] as u32) * 0x10000 + (s[i + 3] as u32)
        * 0x1000000
}

/// Reads the big-endian 32-bit value at `s[i..i + 4]`.
pub fn be32_at(s: &[u8], i: usize) -> (r: u32)
    requires
        i + 4 <= s@.len(),
    ensures
        r == be32(s@, i as int),
{
    (s[i] as u32) * 0x1000000 + (s[i + 1] as u32) * 0x10000 + (s[i + 2] as u32) * 0x100 + s[i
        + 3] as u32
}

/// Cursor-based reader over a borrowed byte buffer.
pub struct BinReader<'a> {
    buf: &'a [u8],
    pos: usize,
}

impl<'a> BinReader<'a> {
    #[verifier::type_invariant]
    spec fn cursor_in_bounds(self) -> bool {
        self.pos <= self.buf@.len()
    }

    /// The bytes the reader walks over.
    pub closed spec fn data(self) -> Seq<u8> {
        self.buf@
    }

    /// The index of the next byte to read.
    pub closed spec fn cursor(self) -> int {
        self.pos as int
    }

    pub fn new(buf: &'a [u8]) -> (r: Self)
        ensures
            r.data() == buf@,
            0 <= r.cursor() <= r.data().len(),
            r.cursor() == 0,
    {
        BinReader { buf, pos: 0 }
    }

    pub fn pos(&self) -> (r: usize)
        ensures
            r == self.cursor(),
            r <= self.data().len(),
    {
        proof {
            use_type_invariant(self);
        }
        self.pos
    }

    pub fn len(&self) -> (r: usize)
        ensures
            r == self.data().len(),
    {
        self.buf.len()
    }

    pub fn is_empty(&self) -> (r: bool)
        ensures
            r == (self.data().len() == 0),
    {
        self.buf.len() == 0
    }

    pub fn remaining(&self) -> (r: usize)
        ensures
            r == self.data().len() - self.cursor(),
    {
        proof {
            use_type_invariant(self);
        }
        self.buf.len() - self.pos
    }

    /// Moves the cursor to `pos`; fails with `Truncated` past the end.
    pub fn seek(&mut self, pos: usize) -> (r: Result<()>)
        ensures
            final(self).data() == old(self).data(),
            0 <= final(self).cursor() <= final(self).data().len(),
            pos <= old(self).data().len() ==> r is Ok && final(self).cursor() == pos,
            pos > old(self).data().len() ==> r == Err::<(), PatchError>(PatchError::Truncated)
                && final(self).cursor() == old(self).cursor(),
    {
        proof {
            use_type_invariant(&*self);
        }
        if pos > self.buf.len() {
            return Err(PatchError::Truncated);
        }
        self.pos = pos;
        Ok(())
    }

    /// The next `n` bytes, without moving the cursor.
    pub fn peek(&self, n: usize) -> (r: Result<&'a [u8]>)
        ensures
            self.cursor() + n <= self.data().len() ==> r is Ok && r.unwrap()@ == self.data().subrange(
                self.cursor(),
                self.cursor() + n,
            ),
            self.cursor() + n > self.data().len() ==> r == Err::<&'a [u8], PatchError>(
                PatchError::Truncated,
            ),
    {
        proof {
            use_type_invariant(self);
        }
        assert(self.buf@.len() == self.buf.len());
        let end = match self.pos.checked_add(n) {
            Some(e) => e,
            None => return Err(PatchError::Truncated),
        };
        if end > self.buf.len() {
            return Err(PatchError::Truncated);
        }
        Ok(&self.buf[self.pos..end])
    }

    /// Reads the next `n` bytes and moves past them.
    pub fn read_bytes(&mut self, n: usize) -> (r: Result<&'a [u8]>)
        ensures
            final(self).data() == old(self).data(),
            0 <= final(self).cursor() <= final(self).data().len(),
            old(self).cursor() + n <= old(self).data().len() ==> r is Ok && r.unwrap()@
                == old(self).data().subrange(old(self).cursor(), old(self).cursor() + n)
                && final(self).cursor() == old(self).cursor() + n,
            old(self).cursor() + n > old(self).data().len() ==> r == Err::<&'a [u8], PatchError>(
                PatchError::Truncated,
            ) && final(self).cursor() == old(self).cursor(),
    {
        proof {
            use_type_invariant(&*self);
        }
        assert(self.buf@.len() == self.buf.len());
        let end = match self.pos.checked_add(n) {
            Some(e) => e,
            None => return Err(PatchError::Truncated),
        };
        if end > self.buf.len() {
            return Err(PatchError::Truncated);
        }
        let slice = &self.buf[self.pos..end];
        self.pos = end;
        Ok(slice)
    }

    pub fn read_u8(&mut self) -> (r: Result<u8>)
        ensures
            final(self).data() == old(self).data(),
            0 <= final(self).cursor() <= final(self).data().len(),
            old(self).cursor() < old(self).data().len() ==> r == Ok::<u8, PatchError>(
                old(self).data()[old(self).cursor()],
            ) && final(self).cursor() == old(self).cursor() + 1,
            old(self).cursor() >= old(self).data().len() ==> r == Err::<u8, PatchError>(
                PatchError::Truncated,
            ) && final(self).cursor() == old(self).cursor(),
    {
        proof {
            use_type_invariant(&*self);
        }
        if self.pos >= self.buf.len() {
            return Err(PatchError::Truncated);
        }
        let b = self.buf[self.pos];
        self.pos = self.pos + 1;
        Ok(b)
    }

    pub fn read_u16_be(&mut self) -> (r: Result<u16>)
        ensures
            final(self).data() == old(self).data(),
            0 <= final(self).cursor() <= final(self).data().len(),
            old(self).cursor() + 2 <= old(self).data().len() ==> r is Ok && r.unwrap() == be16(
                old(self).data(),
                old(self).cursor(),
            ) && final(self).cursor() == old(self).cursor() + 2,
            old(self).cursor() + 2 > old(self).data().len() ==> r == Err::<u16, PatchError>(
                PatchError::Truncated,
            ) && final(self).cursor() == old(self).cursor(),
    {
        let b = self.read_bytes(2)?;
        Ok((b[0] as u16) * 0x100 + b[1] as u16)
    }

    pub fn read_u16_le(&mut self) -> (r: Result<u16>)
        ensures
            final(self).data() == old(self).data(),
            0 <= final(self).cursor() <= final(self).data().len(),
            old(self).cursor() + 2 <= old(self).data().len() ==> r is Ok && r.unwrap() == le16(
                old(self).data(),
                old(self).cursor(),
            ) && final(self).cursor() == old(self).cursor() + 2,
            old(self).cursor() + 2 > old(self).data().len() ==> r == Err::<u16, PatchError>(
                PatchError::Truncated,
            ) && final(self).cursor() == old(self).cursor(),
    {
        let b = self.read_bytes(2)?;
        Ok(b[0] as u16 + (b[1] as u16) * 0x100)
    }

    pub fn read_u24_be(&mut self) -> (r: Result<u32>)
        ensures
            final(self).data() == old(self).data(),
            0 <= final(self).cursor() <= final(self).data().len(),
            old(self).cursor() + 3 <= old(self).data().len() ==> r is Ok && r.unwrap() == be24(
                old(self).data(),
                old(self).cursor(),
            ) && final(self).cursor() == old(self).cursor() + 3,
            old(self).cursor() + 3 > old(self).data().len() ==> r == Err::<u32, PatchError>(
                PatchError::Truncated,
            ) && final(self).cursor() == old(self).cursor(),
    {
        let b = self.read_bytes(3)?;
        Ok((b[0] as u32) * 0x10000 + (b[1] as u32) * 0x100 + b[2] as u32)
    }

    pub fn read_u32_be(&mut self) -> (r: Result<u32>)
        ensures
            final(self).data() == old(self).data(),
            0 <= final(self).cursor() <= final(self).data().len(),
            old(self).cursor() + 4 <= old(self).data().len() ==> r is Ok && r.unwrap() == be32(
                old(self).data(),
                old(self).cursor(),
            ) && final(self).cursor() == old(self).cursor() + 4,
            old(self).cursor() + 4 > old(self).data().len() ==> r == Err::<u32, PatchError>(
                PatchError::Truncated,
            ) && final(self).cursor() == old(self).cursor(),
    {
        let b = self.read_bytes(4)?;
        Ok((b[0] as u32) * 0x1000000 + (b[1] as u32) * 0x10000 + (b[2] as u32) * 0x100
            + b[3] as u32)
    }

    pub fn read_u32_le(&mut self) -> (r: Result<u32>)
        ensures
            final(self).data() == old(self).data(),
            0 <= final(self).cursor() <= final(self).data().len(),
            old(self).cursor() + 4 <= old(self).data().len() ==> r is Ok && r.unwrap() == le32(
                old(self).data(),
                old(self).cursor(),
            ) && final(self).cursor() == old(self).cursor() + 4,
            old(self).cursor() + 4 > old(self).data().len() ==> r == Err::<u32, PatchError>(
                PatchError::Truncated,
            ) && final(self).cursor() == old(self).cursor(),
    {
        let b = self.read_bytes(4)?;
        Ok(b[0] as u32 + (b[1] as u32) * 0x100 + (b[2] as u32) * 0x10000 + (b[3] as u32)
            * 0x1000000)
    }

    pub fn read_u64_le(&mut self) -> (r: Result<u64>)
        ensures
            final(self).data() == old(self).data(),
            0 <= final(self).cursor() <= final(self).data().len(),
            old(self).cursor() + 8 <= old(self).data().len() ==> r is Ok && r.unwrap() == le64(
                old(self).data(),
                old(self).cursor(),
            ) && final(self).cursor() == old(self).cursor() + 8,
            old(self).cursor() + 8 > old(self).data().len() ==> r == Err::<u64, PatchError>(
                PatchError::Truncated,
            ) && final(self).cursor() == old(self).cursor(),
    {
        let b = self.read_bytes(8)?;
        let lo = b[0] as u64 + (b[1] as u64) * 0x100 + (b[2] as u64) * 0x10000 + (b[3] as u64)
            * 0x1000000;
        let hi = b[4] as u64 + (b[5] as u64) * 0x100 + (b[6] as u64) * 0x10000 + (b[7] as u64)
            * 0x1000000;
        Ok(lo + hi * 0x1_0000_0000)
    }

    /// byuu's variable-length value encoding (UPS/BPS).
    pub fn read_vlv(&mut self) -> (r: Result<u64>)
        ensures
            final(self).data() == old(self).data(),
            0 <= final(self).cursor() <= final(self).data().len(),
            r == vlv_at(old(self).data(), old(self).cursor()).0,
            final(self).cursor() == vlv_at(old(self).data(), old(self).cursor()).1,
    {
        proof {
            use_type_invariant(&*self);
        }
        let (res, end) = vlv_scan(self.buf, self.pos);
        self.pos = end;
        res
    }
}

/// Decodes a byuu variable-length value from `buf[start..]`, returning the
/// outcome and the index just past the bytes consumed.
fn vlv_scan(buf: &[u8], start: usize) -> (r: (Result<u64>, usize))
    requires
        start <= buf@.len(),
    ensures
        r.0 == vlv_at(buf@, start as int).0,
        r.1 == vlv_at(buf@, start as int).1,
        r.1 <= buf@.len(),
{
    let ghost s = buf@;
    let mut value: u64 = 0;
    let mut shift: u64 = 1;
    let mut pos = start;
    loop
        invariant
            s == buf@,
            start <= pos <= s.len(),
            vlv_at(s, start as int) == vlv_from(s, pos as int, value, shift),
        decreases s.len() - pos,
    {
        if pos >= buf.len() {
            return (Err(PatchError::Truncated), pos);
        }
        let byte = buf[pos];
        pos = pos + 1;
        let low = byte & 0x7f;
        assert(byte & 0x7f == byte % 128) by (bit_vector);
        assert((byte & 0x80 != 0) == (byte >= 128)) by (bit_vector);
        let chunk = match (low as u64).checked_mul(shift) {
            Some(c) => c,
            None => return (Err(PatchError::InvalidEncoding), pos),
        };
        value = match value.checked_add(chunk) {
            Some(v) => v,
            None => return (Err(PatchError::InvalidEncoding), pos),
        };
        if byte & 0x80 != 0 {
            return (Ok(value), pos);
        }
        shift = (shift % 0x200_0000_0000_0000) * 128;
        value = match value.checked_add(shift) {
            Some(v) => v,
            None => return (Err(PatchError::InvalidEncoding), pos),
        };
    }
}

} // verus!
