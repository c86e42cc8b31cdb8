//! IPS: `PATCH`, records of (24-bit offset, 16-bit size, data) or RLE records
//! (size 0, 16-bit count, fill byte), `EOF`, and an optional 24-bit length to
//! truncate or extend the output to.
use vstd::prelude::*;

use crate::bin_file::{be16, be24, BinReader};
use crate::buf::{fill_into, grow, grow_to, repeat, to_vec, write_at, write_record};
use crate::error::{bytes_result, PatchError, Result};

verus! {

/// `PATCH`
const MAGIC: [u8; 5] = [0x50, 0x41, 0x54, 0x43, 0x48];

/// `EOF`
const EOF: [u8; 3] = [0x45, 0x4f, 0x46];

/// The magic bytes `PATCH`.
pub open spec fn magic() -> Seq<u8> {
    seq![0x50u8, 0x41u8, 0x54u8, 0x43u8, 0x48u8]
}

/// The record-list terminator `EOF`.
pub open spec fn eof_marker() -> Seq<u8> {
    seq![0x45u8, 0x4fu8, 0x46u8]
}

/// Applies the records from `pos` to `out` up to and including `EOF`; gives the
/// output and the position after `EOF`.
pub open spec fn records(p: Seq<u8>, pos: int, out: Seq<u8>) -> Result<(Seq<u8>, int)>
    decreases p.len() - pos,
{
    if pos < 0 || pos + 3 > p.len() {
        Err(PatchError::Truncated)
    } else if p.subrange(pos, pos + 3) == eof_marker() {
        Ok((out, pos + 3))
    } else if pos + 5 > p.len() {
        Err(PatchError::Truncated)
    } else {
        let offset = be24(p, pos);
        let size = be16(p, pos + 3);
        if size == 0 {
            if pos + 8 > p.len() {
                Err(PatchError::Truncated)
            } else {
                let count = be16(p, pos + 5);
                records(p, pos + 8, write_at(out, offset, repeat(p[pos + 7], count)))
            }
        } else if pos + 5 + size > p.len() {
            Err(PatchError::Truncated)
        } else {
            records(p, pos + 5 + size, write_at(out, offset, p.subrange(pos + 5, pos + 5 + size)))
        }
    }
}

/// The IPS semantics: the records applied to `rom`, then, when at least three
/// bytes follow `EOF`, the output cut or zero-extended to the 24-bit length
/// they hold.
pub open spec fn apply_spec(patch: Seq<u8>, rom: Seq<u8>) -> Result<Seq<u8>> {
    if patch.len() < 5 {
        Err(PatchError::Truncated)
    } else if patch.take(5) != magic() {
        Err(PatchError::InvalidMagic)
    } else {
        match records(patch, 5, rom) {
            Err(e) => Err(e),
            Ok((out, q)) => if patch.len() - q >= 3 {
                let len = be24(patch, q);
                if len < out.len() {
                    Ok(out.take(len))
                } else {
                    Ok(grow(out, len))
                }
            } else {
                Ok(out)
            },
        }
    }
}

/// Applies an IPS patch to `rom`.
pub fn apply(patch: &[u8], rom: &[u8]) -> (res: Result<Vec<u8>>)
    ensures
        bytes_result(res) == apply_spec(patch@, rom@),
{
    let mut r = BinReader::new(patch);
    let m = r.read_bytes(5)?;
    proof {
        assert(MAGIC@ == magic());
        assert(EOF@ == eof_marker());
    }
    if !crate::buf::bytes_eq(m, &MAGIC) {
        return Err(PatchError::InvalidMagic);
    }
    let mut output = to_vec(rom);
    loop
        invariant_except_break
            r.data() == patch@,
            5 <= r.cursor() <= patch@.len(),
            patch@.take(5) == magic(),
            records(patch@, 5, rom@) == records(patch@, r.cursor(), output@),
        ensures
            r.data() == patch@,
            r.cursor() <= patch@.len(),
            patch@.len() >= 5,
            patch@.take(5) == magic(),
            records(patch@, 5, rom@) == Ok::<(Seq<u8>, int), PatchError>((output@, r.cursor())),
        decreases patch@.len() - r.cursor(),
    {
        let marker = r.peek(3)?;
        if crate::buf::bytes_eq(marker, &EOF) {
            r.read_bytes(3)?;
            break;
        }
        let offset = r.read_u24_be()? as usize;
        let size = r.read_u16_be()? as usize;
        if size == 0 {
            let rle_size = r.read_u16_be()? as usize;
            let fill = r.read_u8()?;
            grow_to(&mut output, offset + rle_size);
            fill_into(&mut output, offset, rle_size, fill);
        } else {
            let data = r.read_bytes(size)?;
            write_record(&mut output, offset, data);
        }
    }
    if r.remaining() >= 3 {
        let trunc = r.read_u24_be()? as usize;
        if trunc < output.len() {
            output.truncate(trunc);
        } else {
            grow_to(&mut output, trunc);
        }
    }
    Ok(output)
}

} // verus!
