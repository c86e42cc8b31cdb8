//! APS patches: GBA and N64 variants.
//!
//! Both share an `APS1` prefix, so detection probes for the longer N64 magic
//! (`APS10`) first.
//!
//! APS-GBA: 12-byte header (`APS1`, u32 LE source size, u32 LE target size),
//! then fixed 65544-byte records: u32 LE offset, two u16 CRC-16s (not
//! checked), and 65536 bytes XOR-ed onto the source block at that offset.
//!
//! APS-N64: `APS10`, header type (0 simple, 1 N64), encoding method, 50-byte
//! description; for type 1 also a format byte, 3-byte cart id, 8-byte CRC
//! field and 5 bytes of padding, checked against the source ROM. Then a u32 LE
//! target size and records of u32 LE offset + u8 length followed by `length`
//! bytes, or by a (byte, count) RLE pair when the length is zero.
use vstd::prelude::*;

use crate::bin_file::{be32, le32, BinReader};
use crate::buf::{
    bytes_eq, copy_into, fill_into, has_prefix, prefix_fill, prefix_filled, repeat, splice,
    starts_with, xor_into, xor_onto,
};
use crate::error::{bytes_result, PatchError, Result};

verus! {

/// `APS1`
const MAGIC_GBA: [u8; 4] = [0x41, 0x50, 0x53, 0x31];

/// `APS10`
const MAGIC_N64: [u8; 5] = [0x41, 0x50, 0x53, 0x31, 0x30];

const GBA_BLOCK_SIZE: usize = 65536;

const GBA_RECORD_SIZE: usize = 65544;

const GBA_HEADER_LEN: usize = 12;

/// The GBA magic `APS1`.
pub open spec fn magic_gba() -> Seq<u8> {
    seq![0x41u8, 0x50u8, 0x53u8, 0x31u8]
}

/// The N64 magic `APS10`.
pub open spec fn magic_n64() -> Seq<u8> {
    seq![0x41u8, 0x50u8, 0x53u8, 0x31u8, 0x30u8]
}

/// Whether `patch` starts with the N64 magic.
pub fn is_n64(patch: &[u8]) -> (r: bool)
    ensures
        r == has_prefix(patch@, magic_n64()),
{
    proof {
        assert(MAGIC_N64@ == magic_n64());
    }
    starts_with(patch, &MAGIC_N64)
}

/// Whether `patch` starts with the GBA magic but not the N64 one.
pub fn is_gba(patch: &[u8]) -> (r: bool)
    ensures
        r == (has_prefix(patch@, magic_gba()) && !has_prefix(patch@, magic_n64())),
{
    proof {
        assert(MAGIC_GBA@ == magic_gba());
    }
    starts_with(patch, &MAGIC_GBA) && !is_n64(patch)
}

/// The GBA records `k..n` applied to `out`.
pub open spec fn gba_records(p: Seq<u8>, k: int, n: int, rom: Seq<u8>, out: Seq<u8>, tsize: int) -> Result<
    Seq<u8>,
>
    decreases n - k,
{
    if k >= n {
        Ok(out)
    } else {
        let at = 12 + k * 65544;
        let offset = le32(p, at);
        if offset + 65536 > usize::MAX {
            Err(PatchError::OffsetOutOfRange { offset: offset as u64, max: tsize as u64 })
        } else if offset + 65536 > tsize {
            Err(PatchError::OffsetOutOfRange { offset: (offset + 65536) as u64, max: tsize as u64 })
        } else {
            gba_records(
                p,
                k + 1,
                n,
                rom,
                splice(out, offset, xor_onto(rom, offset, p.subrange(at + 8, at + 8 + 65536))),
                tsize,
            )
        }
    }
}

/// The APS-GBA semantics.
pub open spec fn gba_spec(patch: Seq<u8>, rom: Seq<u8>) -> Result<Seq<u8>> {
    if patch.len() < 12 {
        Err(PatchError::Truncated)
    } else if patch.take(4) != magic_gba() {
        Err(PatchError::InvalidMagic)
    } else {
        let source_size = le32(patch, 4);
        let target_size = le32(patch, 8);
        if rom.len() != source_size {
            Err(
                PatchError::InputSizeMismatch {
                    expected: source_size as u64,
                    actual: rom.len() as u64,
                },
            )
        } else if (patch.len() - 12) % 65544 != 0 {
            Err(PatchError::InvalidEncoding)
        } else {
            gba_records(
                patch,
                0,
                (patch.len() - 12) / 65544,
                rom,
                prefix_fill(rom, target_size),
                target_size,
            )
        }
    }
}

/// Applies an APS-GBA patch to `rom`.
pub fn apply_gba(patch: &[u8], rom: &[u8]) -> (res: Result<Vec<u8>>)
    ensures
        bytes_result(res) == gba_spec(patch@, rom@),
{
    if patch.len() < GBA_HEADER_LEN {
        return Err(PatchError::Truncated);
    }
    let mut r = BinReader::new(patch);
    let m = r.read_bytes(4)?;
    proof {
        assert(MAGIC_GBA@ == magic_gba());
    }
    if !bytes_eq(m, &MAGIC_GBA) {
        return Err(PatchError::InvalidMagic);
    }
    let source_size = r.read_u32_le()? as usize;
    let target_size = r.read_u32_le()? as usize;
    if rom.len() != source_size {
        return Err(
            PatchError::InputSizeMismatch { expected: source_size as u64, actual: rom.len() as u64 },
        );
    }
    let body_len = patch.len() - GBA_HEADER_LEN;
    if body_len % GBA_RECORD_SIZE != 0 {
        return Err(PatchError::InvalidEncoding);
    }
    let mut output = prefix_filled(rom, target_size);
    let n_records = body_len / GBA_RECORD_SIZE;
    let mut k: usize = 0;
    while k < n_records
        invariant
            r.data() == patch@,
            patch@.len() == 12 + n_records * 65544,
            k <= n_records,
            r.cursor() == 12 + k * 65544,
            target_size == le32(patch@, 8),
            gba_spec(patch@, rom@) == gba_records(
                patch@,
                k as int,
                n_records as int,
                rom@,
                output@,
                target_size as int,
            ),
            output@.len() == target_size,
        decreases n_records - k,
    {
        let offset = r.read_u32_le()? as usize;
        let _src_crc = r.read_u16_le()?;
        let _tgt_crc = r.read_u16_le()?;
        let xor = r.read_bytes(GBA_BLOCK_SIZE)?;
        let end = match offset.checked_add(GBA_BLOCK_SIZE) {
            Some(e) => e,
            None => return Err(
                PatchError::OffsetOutOfRange { offset: offset as u64, max: target_size as u64 },
            ),
        };
        if end > target_size {
            return Err(PatchError::OffsetOutOfRange { offset: end as u64, max: target_size as u64 });
        }
        xor_into(&mut output, offset, rom, xor);
        k = k + 1;
    }
    Ok(output)
}

/// The N64 records from `pos` to the end of the patch applied to `out`.
pub open spec fn n64_records(p: Seq<u8>, pos: int, out: Seq<u8>, tsize: int) -> Result<Seq<u8>>
    decreases p.len() - pos,
{
    if pos < 0 || pos >= p.len() {
        Ok(out)
    } else if pos + 5 > p.len() {
        Err(PatchError::Truncated)
    } else {
        let offset = le32(p, pos);
        let length = p[pos + 4];
        if length == 0 {
            if pos + 7 > p.len() {
                Err(PatchError::Truncated)
            } else {
                let count = p[pos + 6];
                if offset + count > usize::MAX {
                    Err(PatchError::OffsetOutOfRange { offset: offset as u64, max: tsize as u64 })
                } else if offset + count > tsize {
                    Err(PatchError::OffsetOutOfRange { offset: (offset + count) as u64, max: tsize as u64 })
                } else {
                    n64_records(p, pos + 7, splice(out, offset, repeat(p[pos + 5], count as int)), tsize)
                }
            }
        } else if pos + 5 + length > p.len() {
            Err(PatchError::Truncated)
        } else if offset + length > usize::MAX {
            Err(PatchError::OffsetOutOfRange { offset: offset as u64, max: tsize as u64 })
        } else if offset + length > tsize {
            Err(PatchError::OffsetOutOfRange { offset: (offset + length) as u64, max: tsize as u64 })
        } else {
            n64_records(
                p,
                pos + 5 + length,
                splice(out, offset, p.subrange(pos + 5, pos + 5 + length)),
                tsize,
            )
        }
    }
}

/// The source checks of an N64 header (type 1): the cart id at 0x3C and
/// the CRC field at 0x10 must match the source ROM.
pub open spec fn n64_source_check(patch: Seq<u8>, rom: Seq<u8>) -> Result<()> {
    if rom.len() < 0x40 {
        Err(PatchError::InputSizeMismatch { expected: 0x40, actual: rom.len() as u64 })
    } else if rom.subrange(0x3C, 0x3F) != patch.subrange(58, 61) {
        Err(
            PatchError::InputHashMismatch {
                expected: (patch[58] * 0x10000 + patch[59] * 0x100 + patch[60]) as u32,
                actual: (rom[0x3C] * 0x10000 + rom[0x3D] * 0x100 + rom[0x3E]) as u32,
            },
        )
    } else if rom.subrange(0x10, 0x18) != patch.subrange(61, 69) {
        Err(
            PatchError::InputHashMismatch {
                expected: be32(patch, 61) as u32,
                actual: be32(rom, 0x10) as u32,
            },
        )
    } else {
        Ok(())
    }
}

/// The APS-N64 semantics.
pub open spec fn n64_spec(patch: Seq<u8>, rom: Seq<u8>) -> Result<Seq<u8>> {
    if patch.len() < 5 {
        Err(PatchError::Truncated)
    } else if patch.take(5) != magic_n64() {
        Err(PatchError::InvalidMagic)
    } else if patch.len() < 57 {
        Err(PatchError::Truncated)
    } else {
        let header_type = patch[5];
        let checked: Result<int> = if header_type == 1 {
            if patch.len() < 74 {
                Err(PatchError::Truncated)
            } else {
                match n64_source_check(patch, rom) {
                    Err(e) => Err(e),
                    Ok(_) => Ok(74),
                }
            }
        } else if header_type != 0 {
            Err(PatchError::InvalidEncoding)
        } else {
            Ok(57)
        };
        match checked {
            Err(e) => Err(e),
            Ok(pos) => if pos + 4 > patch.len() {
                Err(PatchError::Truncated)
            } else {
                let target_size = le32(patch, pos);
                n64_records(patch, pos + 4, prefix_fill(rom, target_size), target_size)
            },
        }
    }
}

/// An APS-N64 patch of header type 0 or 1 (for type 1 with a cart id and
/// CRC field that match the ROM) holding no record, or one plain record
/// (u32 LE offset, non-zero length, data) right after its u32 LE target
/// size, which stands at byte 74 for type 1 (after the format byte, cart id,
/// CRC field and 5 padding bytes) and at byte 57 for type 0: the output has
/// the target size, holds the record's bytes at its offset, and elsewhere
/// the ROM's bytes, zero past the ROM's end.
pub proof fn lemma_n64_layout(patch: Seq<u8>, rom: Seq<u8>)
    requires
        patch.len() >= 61,
        patch[0] == 0x41u8 && patch[1] == 0x50u8 && patch[2] == 0x53u8 && patch[3] == 0x31u8
            && patch[4] == 0x30u8,
        patch[5] == 0u8 || patch[5] == 1u8,
        patch[5] == 1u8 ==> rom.len() >= 0x40 && rom.subrange(0x3C, 0x3F) == patch.subrange(58, 61)
            && rom.subrange(0x10, 0x18) == patch.subrange(61, 69),
        ({
            let p = if patch[5] == 1u8 {
                74int
            } else {
                57int
            };
            let t = patch[p] + patch[p + 1] * 0x100 + patch[p + 2] * 0x10000 + patch[p + 3]
                * 0x1000000;
            &&& patch.len() >= p + 4
            &&& (patch.len() == p + 4 || (patch.len() > p + 8 && patch[p + 8] != 0 && patch.len()
                == p + 9 + patch[p + 8] && patch[p + 4] + patch[p + 5] * 0x100 + patch[p + 6]
                * 0x10000 + patch[p + 7] * 0x1000000 + patch[p + 8] <= t))
        }),
    ensures
        ({
            let p = if patch[5] == 1u8 {
                74int
            } else {
                57int
            };
            let t = patch[p] + patch[p + 1] * 0x100 + patch[p + 2] * 0x10000 + patch[p + 3]
                * 0x1000000;
            let o = if patch.len() == p + 4 {
                0
            } else {
                patch[p + 4] + patch[p + 5] * 0x100 + patch[p + 6] * 0x10000 + patch[p + 7]
                    * 0x1000000
            };
            let n = if patch.len() == p + 4 {
                0
            } else {
                patch[p + 8] as int
            };
            &&& n64_spec(patch, rom) is Ok
            &&& n64_spec(patch, rom)->Ok_0.len() == t
            &&& forall|i: int|
                0 <= i < t ==> #[trigger] n64_spec(patch, rom)->Ok_0[i] == if o <= i < o + n {
                    patch[p + 9 + i - o]
                } else if i < rom.len() {
                    rom[i]
                } else {
                    0u8
                }
        }),
{
    assert(patch.take(5) =~= magic_n64());
    let p = if patch[5] == 1u8 {
                74int
            } else {
                57int
            };
    let t = le32(patch, p);
    let base = prefix_fill(rom, t);
    if patch[5] == 1u8 {
        assert(n64_source_check(patch, rom) == Ok::<(), PatchError>(()));
    }
    if patch.len() == p + 4 {
        assert(n64_records(patch, p + 4, base, t) == Ok::<Seq<u8>, PatchError>(base));
        assert(n64_spec(patch, rom) == Ok::<Seq<u8>, PatchError>(base));
    } else {
        let o = le32(patch, p + 4);
        let n = patch[p + 8] as int;
        let out = splice(base, o, patch.subrange(p + 9, p + 9 + n));
        assert(n64_records(patch, p + 9 + n, out, t) == Ok::<Seq<u8>, PatchError>(out));
        assert(n64_records(patch, p + 4, base, t) == Ok::<Seq<u8>, PatchError>(out));
        assert(n64_spec(patch, rom) == Ok::<Seq<u8>, PatchError>(out));
        assert forall|i: int| 0 <= i < t implies #[trigger] out[i] == if o <= i < o + n {
            patch[p + 9 + i - o]
        } else if i < rom.len() {
            rom[i]
        } else {
            0u8
        } by {
            if o <= i < o + n {
                assert(out[i] == patch.subrange(p + 9, p + 9 + n)[i - o]);
            } else if i < o {
                assert(out[i] == base[i]);
            } else {
                assert(out[i] == base[i]);
            }
        }
    }
}

/// Checks the cart id and CRC field of an N64 header against the ROM.
fn check_n64_source(patch: &[u8], rom: &[u8]) -> (r: Result<()>)
    requires
        patch@.len() >= 74,
    ensures
        r == n64_source_check(patch@, rom@),
{
    if rom.len() < 0x40 {
        return Err(PatchError::InputSizeMismatch { expected: 0x40, actual: rom.len() as u64 });
    }
    if !bytes_eq(&rom[0x3C..0x3F], &patch[58..61]) {
        return Err(
            PatchError::InputHashMismatch {
                expected: (patch[58] as u32) * 0x10000 + (patch[59] as u32) * 0x100 + patch[60] as u32,
                actual: (rom[0x3C] as u32) * 0x10000 + (rom[0x3D] as u32) * 0x100 + rom[0x3E] as u32,
            },
        );
    }
    if !bytes_eq(&rom[0x10..0x18], &patch[61..69]) {
        return Err(
            PatchError::InputHashMismatch {
                expected: crate::bin_file::be32_at(patch, 61),
                actual: crate::bin_file::be32_at(rom, 0x10),
            },
        );
    }
    Ok(())
}

/// Applies an APS-N64 patch to `rom`.
pub fn apply_n64(patch: &[u8], rom: &[u8]) -> (res: Result<Vec<u8>>)
    ensures
        bytes_result(res) == n64_spec(patch@, rom@),
{
    let mut r = BinReader::new(patch);
    let m = r.read_bytes(5)?;
    proof {
        assert(MAGIC_N64@ == magic_n64());
    }
    if !bytes_eq(m, &MAGIC_N64) {
        return Err(PatchError::InvalidMagic);
    }
    let header_type = r.read_u8()?;
    let _encoding_method = r.read_u8()?;
    let _description = r.read_bytes(50)?;
    if header_type == 1 {
        let _original_format = r.read_u8()?;
        let _cart_id = r.read_bytes(3)?;
        let _crc = r.read_bytes(8)?;
        let _pad = r.read_bytes(5)?;
        check_n64_source(patch, rom)?;
    } else if header_type != 0 {
        return Err(PatchError::InvalidEncoding);
    }
    let target_size = r.read_u32_le()? as usize;
    let mut output = prefix_filled(rom, target_size);
    while r.pos() < patch.len()
        invariant
            r.data() == patch@,
            r.cursor() <= patch@.len(),
            output@.len() == target_size,
            n64_spec(patch@, rom@) == n64_records(patch@, r.cursor(), output@, target_size as int),
        decreases patch@.len() - r.cursor(),
    {
        let offset = r.read_u32_le()? as usize;
        let length = r.read_u8()? as usize;
        if length == 0 {
            let byte = r.read_u8()?;
            let rle_len = r.read_u8()? as usize;
            let end = match offset.checked_add(rle_len) {
                Some(e) => e,
                None => return Err(
                    PatchError::OffsetOutOfRange { offset: offset as u64, max: target_size as u64 },
                ),
            };
            if end > target_size {
                return Err(
                    PatchError::OffsetOutOfRange { offset: end as u64, max: target_size as u64 },
                );
            }
            fill_into(&mut output, offset, rle_len, byte);
        } else {
            let bytes = r.read_bytes(length)?;
            let end = match offset.checked_add(length) {
                Some(e) => e,
                None => return Err(
                    PatchError::OffsetOutOfRange { offset: offset as u64, max: target_size as u64 },
                ),
            };
            if end > target_size {
                return Err(
                    PatchError::OffsetOutOfRange { offset: end as u64, max: target_size as u64 },
                );
            }
            copy_into(&mut output, offset, bytes);
        }
    }
    Ok(output)
}

} // verus!
