//! UPS (byuu): two variable-length sizes, then hunks of (skip, XOR run
//! terminated by a zero byte), then a CRC-32 footer.
use vstd::prelude::*;

use crate::bin_file::{vlv_at, lemma_vlv_bounds, BinReader};
use crate::buf::{prefix_fill, prefix_filled};
use crate::error::{bytes_result, PatchError, Result};
use crate::format::{check_crc_footer, crc_footer_result};
use crate::hash::{crc32, crc32_of};
use crate::MAX_PATCH_OUTPUT_SIZE;

verus! {

/// `UPS1`
const MAGIC: [u8; 4] = [0x55, 0x50, 0x53, 0x31];

const FOOTER_LEN: usize = 12;

/// The magic bytes `UPS1`.
pub open spec fn magic() -> Seq<u8> {
    seq![0x55u8, 0x50u8, 0x53u8, 0x31u8]
}

/// The source byte at `i`, or zero past the end of the source.
pub open spec fn src_byte(rom: Seq<u8>, i: int) -> u8 {
    if i < rom.len() {
        rom[i]
    } else {
        0u8
    }
}

/// Hunks from `rpos` up to `end`: each one skips ahead in the output, then
/// XORs a run of bytes.
pub open spec fn hunks(
    p: Seq<u8>,
    rpos: int,
    end: int,
    rom: Seq<u8>,
    out: Seq<u8>,
    opos: int,
    osize: u64,
) -> Result<Seq<u8>>
    decreases end - rpos, 1int,
    via hunks_decreases
{
    if rpos >= end {
        Ok(out)
    } else {
        let (sk, p1) = vlv_at(p, rpos);
        match sk {
            Err(e) => Err(e),
            Ok(skip) => if p1 > end {
                Err(PatchError::Truncated)
            } else if skip > usize::MAX {
                Err(PatchError::OffsetOutOfRange { offset: skip, max: osize })
            } else if opos + skip > usize::MAX {
                Err(PatchError::OffsetOutOfRange { offset: 0, max: osize })
            } else {
                run(p, p1, end, rom, out, opos + skip, osize)
            },
        }
    }
}

/// An XOR run from `rpos`: every non-zero byte is XOR-ed onto the source byte
/// at the output offset; a zero byte ends the run and skips one byte.
pub open spec fn run(
    p: Seq<u8>,
    rpos: int,
    end: int,
    rom: Seq<u8>,
    out: Seq<u8>,
    opos: int,
    osize: u64,
) -> Result<Seq<u8>>
    decreases end - rpos, 0int,
{
    if rpos >= end || rpos < 0 {
        Err(PatchError::Truncated)
    } else if p[rpos] == 0 {
        if opos + 1 > usize::MAX {
            Err(PatchError::OffsetOutOfRange { offset: 0, max: osize })
        } else {
            hunks(p, rpos + 1, end, rom, out, opos + 1, osize)
        }
    } else if opos >= osize {
        Err(PatchError::OffsetOutOfRange { offset: opos as u64, max: osize })
    } else {
        run(p, rpos + 1, end, rom, out.update(opos, src_byte(rom, opos) ^ p[rpos]), opos + 1, osize)
    }
}

#[via_fn]
proof fn hunks_decreases(
    p: Seq<u8>,
    rpos: int,
    end: int,
    rom: Seq<u8>,
    out: Seq<u8>,
    opos: int,
    osize: u64,
) {
    lemma_vlv_bounds(p, rpos);
}

/// Everything but the CRC-32 checks.
pub open spec fn decode_spec(patch: Seq<u8>, rom: Seq<u8>) -> Result<Seq<u8>> {
    if patch.len() < 16 {
        Err(PatchError::Truncated)
    } else if patch.take(4) != magic() {
        Err(PatchError::InvalidMagic)
    } else {
        let (a, p1) = vlv_at(patch, 4);
        let (b, p2) = vlv_at(patch, p1);
        if a is Err {
            Err(a->Err_0)
        } else if b is Err {
            Err(b->Err_0)
        } else {
            let input_size = a->Ok_0;
            let output_size = b->Ok_0;
            let end = patch.len() - 12;
            if rom.len() != input_size {
                Err(PatchError::InputSizeMismatch { expected: input_size, actual: rom.len() as u64 })
            } else if p2 > end {
                Err(PatchError::Truncated)
            } else if output_size > usize::MAX {
                Err(PatchError::OffsetOutOfRange { offset: output_size, max: usize::MAX as u64 })
            } else if output_size > MAX_PATCH_OUTPUT_SIZE {
                Err(
                    PatchError::OutputTooLarge {
                        declared: output_size,
                        max: MAX_PATCH_OUTPUT_SIZE as u64,
                    },
                )
            } else {
                hunks(patch, p2, end, rom, prefix_fill(rom, output_size as int), 0, output_size)
            }
        }
    }
}

/// The full UPS semantics: the decoded output, accepted only when the input,
/// output and patch CRC-32s match the footer.
pub open spec fn apply_spec(patch: Seq<u8>, rom: Seq<u8>) -> Result<Seq<u8>> {
    match decode_spec(patch, rom) {
        Err(e) => Err(e),
        Ok(out) => match crc_footer_result(
            patch,
            crc32_of(rom),
            crc32_of(out),
            crc32_of(patch.take(patch.len() - 4)),
        ) {
            Err(e) => Err(e),
            Ok(_) => Ok(out),
        },
    }
}

proof fn lemma_hunks_len(
    p: Seq<u8>,
    rpos: int,
    end: int,
    rom: Seq<u8>,
    out: Seq<u8>,
    opos: int,
    osize: u64,
)
    requires
        out.len() == osize,
        0 <= opos,
    ensures
        hunks(p, rpos, end, rom, out, opos, osize) matches Ok(r) ==> r.len() == out.len(),
    decreases end - rpos, 1int,
{
    if rpos < end {
        lemma_vlv_bounds(p, rpos);
        let (sk, p1) = vlv_at(p, rpos);
        if sk is Ok && p1 <= end && sk->Ok_0 <= usize::MAX && opos + sk->Ok_0 <= usize::MAX {
            lemma_run_len(p, p1, end, rom, out, opos + sk->Ok_0, osize);
        }
    }
}

proof fn lemma_run_len(
    p: Seq<u8>,
    rpos: int,
    end: int,
    rom: Seq<u8>,
    out: Seq<u8>,
    opos: int,
    osize: u64,
)
    requires
        out.len() == osize,
        0 <= opos,
    ensures
        run(p, rpos, end, rom, out, opos, osize) matches Ok(r) ==> r.len() == out.len(),
    decreases end - rpos, 0int,
{
    if 0 <= rpos < end {
        if p[rpos] == 0 {
            if opos + 1 <= usize::MAX {
                lemma_hunks_len(p, rpos + 1, end, rom, out, opos + 1, osize);
            }
        } else if opos < osize {
            lemma_run_len(
                p,
                rpos + 1,
                end,
                rom,
                out.update(opos, src_byte(rom, opos) ^ p[rpos]),
                opos + 1,
                osize,
            );
        }
    }
}

/// A UPS patch never yields more than `MAX_PATCH_OUTPUT_SIZE` bytes: the
/// output has the declared size, and a larger declared size is refused.
pub proof fn lemma_output_bounded(patch: Seq<u8>, rom: Seq<u8>)
    ensures
        apply_spec(patch, rom) matches Ok(out) ==> out.len() <= MAX_PATCH_OUTPUT_SIZE,
{
    if patch.len() >= 16 && patch.take(4) == magic() {
        let (a, p1) = vlv_at(patch, 4);
        let (b, p2) = vlv_at(patch, p1);
        if a is Ok && b is Ok {
            let output_size = b->Ok_0;
            let end = patch.len() - 12;
            lemma_hunks_len(patch, p2, end, rom, prefix_fill(rom, output_size as int), 0, output_size);
        }
    }
}

/// Decodes a UPS patch against `rom` without the CRC-32 checks.
pub fn decode(patch: &[u8], rom: &[u8]) -> (res: Result<Vec<u8>>)
    ensures
        bytes_result(res) == decode_spec(patch@, rom@),
{
    if patch.len() < MAGIC.len() + FOOTER_LEN {
        return Err(PatchError::Truncated);
    }
    let mut r = BinReader::new(patch);
    let m = r.read_bytes(4)?;
    proof {
        assert(MAGIC@ == magic());
    }
    if !crate::buf::bytes_eq(m, &MAGIC) {
        return Err(PatchError::InvalidMagic);
    }
    let input_size = r.read_vlv()?;
    let output_size = r.read_vlv()?;
    if rom.len() as u64 != input_size {
        return Err(PatchError::InputSizeMismatch { expected: input_size, actual: rom.len() as u64 });
    }
    let body_end = patch.len() - FOOTER_LEN;
    if r.pos() > body_end {
        return Err(PatchError::Truncated);
    }
    if output_size > usize::MAX as u64 {
        return Err(PatchError::OffsetOutOfRange { offset: output_size, max: usize::MAX as u64 });
    }
    let osize = output_size as usize;
    if osize > MAX_PATCH_OUTPUT_SIZE {
        return Err(
            PatchError::OutputTooLarge {
                declared: output_size,
                max: MAX_PATCH_OUTPUT_SIZE as u64,
            },
        );
    }
    let mut output = prefix_filled(rom, osize);
    let mut pos: usize = 0;
    while r.pos() < body_end
        invariant
            r.data() == patch@,
            r.cursor() <= body_end,
            body_end == patch@.len() - 12,
            output@.len() == osize,
            osize == output_size,
            decode_spec(patch@, rom@) == hunks(
                patch@,
                r.cursor(),
                body_end as int,
                rom@,
                output@,
                pos as int,
                output_size,
            ),
        decreases body_end - r.cursor(),
    {
        let ghost before = r.cursor();
        proof {
            lemma_vlv_bounds(patch@, before);
        }
        let skip = r.read_vlv()?;
        if r.pos() > body_end {
            return Err(PatchError::Truncated);
        }
        if skip > usize::MAX as u64 {
            return Err(PatchError::OffsetOutOfRange { offset: skip, max: output_size });
        }
        pos = match pos.checked_add(skip as usize) {
            Some(p) => p,
            None => return Err(PatchError::OffsetOutOfRange { offset: 0, max: output_size }),
        };
        loop
            invariant_except_break
                r.data() == patch@,
                before < r.cursor() <= body_end,
                body_end == patch@.len() - 12,
                output@.len() == osize,
                osize == output_size,
                decode_spec(patch@, rom@) == run(
                    patch@,
                    r.cursor(),
                    body_end as int,
                    rom@,
                    output@,
                    pos as int,
                    output_size,
                ),
            ensures
                r.data() == patch@,
                before < r.cursor() <= body_end,
                output@.len() == osize,
                decode_spec(patch@, rom@) == hunks(
                    patch@,
                    r.cursor(),
                    body_end as int,
                    rom@,
                    output@,
                    pos as int,
                    output_size,
                ),
            decreases body_end - r.cursor(),
        {
            if r.pos() >= body_end {
                return Err(PatchError::Truncated);
            }
            let b = r.read_u8()?;
            if b == 0 {
                pos = match pos.checked_add(1) {
                    Some(p) => p,
                    None => return Err(PatchError::OffsetOutOfRange { offset: 0, max: output_size }),
                };
                break;
            }
            if pos >= osize {
                return Err(PatchError::OffsetOutOfRange { offset: pos as u64, max: output_size });
            }
            let src = if pos < rom.len() {
                rom[pos]
            } else {
                0u8
            };
            output.set(pos, src ^ b);
            pos = pos + 1;
        }
    }
    Ok(output)
}

/// Applies a UPS patch to `rom`, verifying the input, output and patch
/// CRC-32s from the footer.
pub fn apply(patch: &[u8], rom: &[u8]) -> (res: Result<Vec<u8>>)
    ensures
        bytes_result(res) == apply_spec(patch@, rom@),
{
    let output = decode(patch, rom)?;
    let input_crc = crc32(rom);
    let output_crc = crc32(&output);
    let patch_crc = crc32(&patch[0..patch.len() - 4]);
    check_crc_footer(patch, input_crc, output_crc, patch_crc)?;
    Ok(output)
}

} // verus!
