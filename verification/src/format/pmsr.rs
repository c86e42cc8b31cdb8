//! PMSR (Paper Mario Star Rod) patches.
//!
//! Header: `PMSR` and a u32 BE record count. Each record is a u32 BE offset,
//! a u32 BE length and that many data bytes. The source must be the 40 MiB
//! Paper Mario (USA 1.0) image, checked by size and CRC-32.
use vstd::prelude::*;

use crate::bin_file::{be32, BinReader};
use crate::buf::{bytes_eq, to_vec, write_at, write_record};
use crate::error::{bytes_result, PatchError, Result};
use crate::hash::{crc32, crc32_of};
use crate::MAX_PATCH_OUTPUT_SIZE;

verus! {

/// `PMSR`
const MAGIC: [u8; 4] = [0x50, 0x4d, 0x53, 0x52];

/// Size of the Paper Mario (USA 1.0) ROM.
pub const PAPER_MARIO_USA10_SIZE: usize = 41943040;

/// CRC-32 of the Paper Mario (USA 1.0) ROM.
pub const PAPER_MARIO_USA10_CRC32: u32 = 0xa7f5_cd7e;

/// The magic bytes `PMSR`.
pub open spec fn magic() -> Seq<u8> {
    seq![0x50u8, 0x4du8, 0x53u8, 0x52u8]
}

/// Records `k..n`, the first one at `pos`, applied to `out`.
pub open spec fn records(p: Seq<u8>, k: int, n: int, pos: int, out: Seq<u8>) -> Result<Seq<u8>>
    decreases n - k,
{
    if k >= n {
        Ok(out)
    } else if pos + 8 > p.len() {
        Err(PatchError::Truncated)
    } else {
        let offset = be32(p, pos);
        let length = be32(p, pos + 4);
        let data_end = pos + 8 + length;
        if data_end > p.len() {
            Err(PatchError::Truncated)
        } else if offset + length > usize::MAX {
            Err(PatchError::OffsetOutOfRange { offset: offset as u64, max: u64::MAX })
        } else if offset + length > MAX_PATCH_OUTPUT_SIZE {
            Err(
                PatchError::OutputTooLarge {
                    declared: (offset + length) as u64,
                    max: MAX_PATCH_OUTPUT_SIZE as u64,
                },
            )
        } else {
            records(p, k + 1, n, data_end, write_at(out, offset, p.subrange(pos + 8, data_end)))
        }
    }
}

/// The records of a PMSR patch applied to `rom`, without the source checks.
pub open spec fn records_spec(patch: Seq<u8>, rom: Seq<u8>) -> Result<Seq<u8>> {
    if patch.len() < 4 {
        Err(PatchError::Truncated)
    } else if patch.take(4) != magic() {
        Err(PatchError::InvalidMagic)
    } else if patch.len() < 8 {
        Err(PatchError::Truncated)
    } else {
        records(patch, 0, be32(patch, 4), 8, rom)
    }
}

/// The PMSR semantics: the source must be Paper Mario (USA 1.0) by size and
/// CRC-32, then the records apply.
pub open spec fn apply_spec(patch: Seq<u8>, rom: Seq<u8>) -> Result<Seq<u8>> {
    if rom.len() != PAPER_MARIO_USA10_SIZE {
        Err(
            PatchError::InputSizeMismatch {
                expected: PAPER_MARIO_USA10_SIZE as u64,
                actual: rom.len() as u64,
            },
        )
    } else if crc32_of(rom) != PAPER_MARIO_USA10_CRC32 {
        Err(PatchError::InputHashMismatch { expected: PAPER_MARIO_USA10_CRC32, actual: crc32_of(rom) })
    } else {
        records_spec(patch, rom)
    }
}

proof fn lemma_records_len(p: Seq<u8>, k: int, n: int, pos: int, out: Seq<u8>, cap: int)
    requires
        out.len() <= cap,
        MAX_PATCH_OUTPUT_SIZE <= cap,
        0 <= pos,
    ensures
        records(p, k, n, pos, out) matches Ok(r) ==> r.len() <= cap,
    decreases n - k,
{
    if k < n && pos + 8 <= p.len() {
        let offset = be32(p, pos);
        let length = be32(p, pos + 4);
        let data_end = pos + 8 + length;
        if data_end <= p.len() && offset + length <= MAX_PATCH_OUTPUT_SIZE {
            let data = p.subrange(pos + 8, data_end);
            assert(data.len() == length);
            let grown = crate::buf::grow(out, offset + length);
            assert(grown.len() >= offset + length);
            assert(write_at(out, offset, data).len() == grown.len());
            lemma_records_len(
                p,
                k + 1,
                n,
                data_end,
                write_at(out, offset, p.subrange(pos + 8, data_end)),
                cap,
            );
        }
    }
}

/// Records never grow the output past `MAX_PATCH_OUTPUT_SIZE`: a record
/// that reaches further is refused, so the output is no longer than the
/// larger of the ROM and the limit (and a PMSR patch, whose ROM is smaller
/// than the limit, never yields more than the limit).
pub proof fn lemma_output_bounded(patch: Seq<u8>, rom: Seq<u8>)
    ensures
        records_spec(patch, rom) matches Ok(out) ==> out.len() <= if rom.len()
            > MAX_PATCH_OUTPUT_SIZE {
            rom.len() as int
        } else {
            MAX_PATCH_OUTPUT_SIZE as int
        },
        apply_spec(patch, rom) matches Ok(out) ==> out.len() <= MAX_PATCH_OUTPUT_SIZE,
{
    let cap: int = if rom.len() > MAX_PATCH_OUTPUT_SIZE {
        rom.len() as int
    } else {
        MAX_PATCH_OUTPUT_SIZE as int
    };
    if patch.len() >= 8 && patch.take(4) == magic() {
        lemma_records_len(patch, 0, be32(patch, 4), 8, rom, cap);
    }
}

/// Applies a PMSR patch after checking the source ROM's size and CRC-32.
pub fn apply(patch: &[u8], rom: &[u8]) -> (res: Result<Vec<u8>>)
    ensures
        bytes_result(res) == apply_spec(patch@, rom@),
{
    if rom.len() != PAPER_MARIO_USA10_SIZE {
        return Err(
            PatchError::InputSizeMismatch {
                expected: PAPER_MARIO_USA10_SIZE as u64,
                actual: rom.len() as u64,
            },
        );
    }
    let rom_crc = crc32(rom);
    if rom_crc != PAPER_MARIO_USA10_CRC32 {
        return Err(PatchError::InputHashMismatch { expected: PAPER_MARIO_USA10_CRC32, actual: rom_crc });
    }
    apply_records(patch, rom)
}

/// Applies the PMSR records without the Paper Mario size and CRC checks.
pub fn apply_records(patch: &[u8], rom: &[u8]) -> (res: Result<Vec<u8>>)
    ensures
        bytes_result(res) == records_spec(patch@, rom@),
{
    let mut r = BinReader::new(patch);
    let m = r.read_bytes(4)?;
    proof {
        assert(MAGIC@ == magic());
    }
    if !bytes_eq(m, &MAGIC) {
        return Err(PatchError::InvalidMagic);
    }
    let n_records = r.read_u32_be()?;
    let mut output = to_vec(rom);
    let mut k: u32 = 0;
    while k < n_records
        invariant
            r.data() == patch@,
            r.cursor() <= patch@.len(),
            k <= n_records,
            records_spec(patch@, rom@) == records(
                patch@,
                k as int,
                n_records as int,
                r.cursor(),
                output@,
            ),
        decreases n_records - k,
    {
        let offset = r.read_u32_be()? as usize;
        let length = r.read_u32_be()? as usize;
        let bytes = r.read_bytes(length)?;
        let end = match offset.checked_add(length) {
            Some(e) => e,
            None => return Err(PatchError::OffsetOutOfRange { offset: offset as u64, max: u64::MAX }),
        };
        if end > MAX_PATCH_OUTPUT_SIZE {
            return Err(
                PatchError::OutputTooLarge {
                    declared: end as u64,
                    max: MAX_PATCH_OUTPUT_SIZE as u64,
                },
            );
        }
        write_record(&mut output, offset, bytes);
        k = k + 1;
    }
    Ok(output)
}

} // verus!
