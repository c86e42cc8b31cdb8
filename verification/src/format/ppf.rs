//! PPF (PlayStation Patch File) v1/v2/v3.
//!
//! Header: `PPF`, two ASCII version digits (`10`, `20`, `30`), an encoded
//! version byte (0, 1, 2) and a 50-byte description. v2 adds a u32 input size
//! and a 1024-byte block check; v3 adds image type, block-check flag, undo flag
//! and a spare byte, with the block check present when its flag is set.
//!
//! Records: offset (u32 LE, or u64 LE for v3), u8 length, the data, and for v3
//! with undo data a copy of the original bytes. A record boundary holding
//! `@BEG` starts the trailing file-id block and ends the records. No hash is
//! checked.
use vstd::prelude::*;

use crate::bin_file::{le32, le64, BinReader};
use crate::buf::{bytes_eq, to_vec, write_at, write_record};
use crate::error::{bytes_result, PatchError, Result};

verus! {

/// `PPF`
const MAGIC: [u8; 3] = [0x50, 0x50, 0x46];

/// `@BEG`
const FILE_ID_MARKER: [u8; 4] = [0x40, 0x42, 0x45, 0x47];

const DESCRIPTION_LEN: usize = 50;

const BLOCK_CHECK_LEN: usize = 1024;

/// The magic bytes `PPF`.
pub open spec fn magic() -> Seq<u8> {
    seq![0x50u8, 0x50u8, 0x46u8]
}

/// The start of the trailing file-id block, `@BEG`.
pub open spec fn file_id_marker() -> Seq<u8> {
    seq![0x40u8, 0x42u8, 0x45u8, 0x47u8]
}

/// The version (1, 2 or 3) named by the two version digits, or 0.
pub open spec fn version_of(d0: u8, d1: u8) -> int {
    if d1 != 0x30 {
        0
    } else if d0 == 0x31 {
        1
    } else if d0 == 0x32 {
        2
    } else if d0 == 0x33 {
        3
    } else {
        0
    }
}

/// The records from `pos` applied to `out`; `wide` selects 64-bit offsets
/// and `undo` the per-record copy of the original bytes.
pub open spec fn records(p: Seq<u8>, pos: int, out: Seq<u8>, wide: bool, undo: bool) -> Result<
    Seq<u8>,
>
    decreases p.len() - pos,
{
    if pos < 0 || pos >= p.len() {
        Ok(out)
    } else if p.len() - pos >= 4 && p.subrange(pos, pos + 4) == file_id_marker() {
        Ok(out)
    } else {
        let width = if wide {
            8int
        } else {
            4int
        };
        if pos + width > p.len() {
            Err(PatchError::Truncated)
        } else {
            let offset = if wide {
                le64(p, pos)
            } else {
                le32(p, pos)
            };
            let q = pos + width;
            if wide && offset > usize::MAX {
                Err(PatchError::OffsetOutOfRange { offset: offset as u64, max: usize::MAX as u64 })
            } else if q + 1 > p.len() {
                Err(PatchError::Truncated)
            } else {
                let length = p[q];
                let data_end = q + 1 + length;
                let next = if undo {
                    data_end + length
                } else {
                    data_end
                };
                if next > p.len() {
                    Err(PatchError::Truncated)
                } else if offset + length > usize::MAX {
                    Err(PatchError::OffsetOutOfRange { offset: offset as u64, max: u64::MAX })
                } else {
                    records(p, next, write_at(out, offset, p.subrange(q + 1, data_end)), wide, undo)
                }
            }
        }
    }
}

/// The PPF semantics.
pub open spec fn apply_spec(patch: Seq<u8>, rom: Seq<u8>) -> Result<Seq<u8>> {
    if patch.len() < 3 {
        Err(PatchError::Truncated)
    } else if patch.take(3) != magic() {
        Err(PatchError::InvalidMagic)
    } else if patch.len() < 5 {
        Err(PatchError::Truncated)
    } else {
        let version = version_of(patch[3], patch[4]);
        if version == 0 {
            Err(PatchError::InvalidEncoding)
        } else if patch.len() < 6 {
            Err(PatchError::Truncated)
        } else if patch[5] != version - 1 {
            Err(PatchError::InvalidEncoding)
        } else if patch.len() < 56 || (version > 1 && patch.len() < 60) {
            Err(PatchError::Truncated)
        } else {
            let block_check = version == 2 || (version == 3 && patch[57] != 0);
            let undo = version == 3 && patch[58] != 0;
            let pos = if version == 1 {
                56int
            } else {
                60int
            };
            if block_check && pos + 1024 > patch.len() {
                Err(PatchError::Truncated)
            } else {
                records(
                    patch,
                    if block_check {
                        pos + 1024
                    } else {
                        pos
                    },
                    rom,
                    version == 3,
                    undo,
                )
            }
        }
    }
}

/// A version-2 patch (`PPF20`, encoded version 1) carries its 1024-byte
/// block check right after the 60-byte header, so its records start at byte
/// 1084. With a single record there (u32 LE offset, length, data), the
/// output is the ROM, grown with zeros when the record reaches past its
/// end, with the record's bytes written at the offset and nothing else
/// changed, whatever the header and block-check bytes hold.
pub proof fn lemma_v2_single_record(patch: Seq<u8>, rom: Seq<u8>)
    requires
        patch.len() >= 1089,
        patch[0] == 0x50u8 && patch[1] == 0x50u8 && patch[2] == 0x46u8,
        patch[3] == 0x32u8 && patch[4] == 0x30u8 && patch[5] == 1u8,
        patch.len() == 1089 + patch[1088],
        patch.subrange(1084, 1088) != file_id_marker(),
        patch[1084] + patch[1085] * 0x100 + patch[1086] * 0x10000 + patch[1087] * 0x1000000
            + patch[1088] <= usize::MAX,
    ensures
        ({
            let o = patch[1084] + patch[1085] * 0x100 + patch[1086] * 0x10000 + patch[1087]
                * 0x1000000;
            let n = patch[1088] as int;
            &&& apply_spec(patch, rom) is Ok
            &&& apply_spec(patch, rom)->Ok_0.len() == if rom.len() < o + n {
                o + n
            } else {
                rom.len() as int
            }
            &&& forall|i: int|
                0 <= i < apply_spec(patch, rom)->Ok_0.len() ==> #[trigger] apply_spec(
                    patch,
                    rom,
                )->Ok_0[i] == if o <= i < o + n {
                    patch[1089 + i - o]
                } else if i < rom.len() {
                    rom[i]
                } else {
                    0u8
                }
        }),
{
    assert(patch.take(3) =~= magic());
    let o = le32(patch, 1084);
    let n = patch[1088] as int;
    let data = patch.subrange(1089, 1089 + n);
    let out = write_at(rom, o, data);
    assert(records(patch, patch.len() as int, out, false, false) == Ok::<Seq<u8>, PatchError>(out));
    assert(records(patch, 1084, rom, false, false) == Ok::<Seq<u8>, PatchError>(out));
    assert(apply_spec(patch, rom) == Ok::<Seq<u8>, PatchError>(out));
    let g = crate::buf::grow(rom, o + n);
    assert forall|i: int| 0 <= i < out.len() implies #[trigger] out[i] == if o <= i < o + n {
        patch[1089 + i - o]
    } else if i < rom.len() {
        rom[i]
    } else {
        0u8
    } by {
        if o <= i < o + n {
            assert(out[i] == data[i - o]);
        } else if i < o {
            assert(out[i] == g[i]);
        } else {
            assert(out[i] == g[i]);
        }
    }
}

/// Where the records of a PPF patch start: after the 56-byte v1 header,
/// after the 60-byte v2 header and its 1024-byte block check, and after the
/// 60-byte v3 header, plus 1024 bytes when its block-check flag (byte 57) is
/// set.
pub open spec fn records_start(patch: Seq<u8>) -> int {
    if patch[3] == 0x31u8 {
        56
    } else if patch[3] == 0x32u8 {
        1084
    } else if patch[57] != 0 {
        1084
    } else {
        60
    }
}

/// A PPF patch of version 1, 2 or 3 holding a single record where its
/// records start (offset u32 LE, or u64 LE for v3; length; data; for v3
/// with the undo flag at byte 58 set, as many undo bytes): the output is
/// the ROM, grown with zeros when the record reaches past its end, with the
/// record's bytes written at the offset and nothing else changed.
pub proof fn lemma_single_record(patch: Seq<u8>, rom: Seq<u8>)
    requires
        patch.len() >= 60,
        patch[0] == 0x50u8 && patch[1] == 0x50u8 && patch[2] == 0x46u8,
        patch[3] == 0x31u8 || patch[3] == 0x32u8 || patch[3] == 0x33u8,
        patch[4] == 0x30u8,
        patch[5] == patch[3] - 0x31,
        ({
            let st = records_start(patch);
            let w = if patch[3] == 0x33u8 { 8int } else { 4int };
            let undo = patch[3] == 0x33u8 && patch[58] != 0;
            let n = patch[st + w] as int;
            let o = if patch[3] == 0x33u8 { le64(patch, st) } else { le32(patch, st) };
            &&& patch.len() > st + w
            &&& patch.len() == st + w + 1 + n + (if undo { n } else { 0 })
            &&& patch.subrange(st, st + 4) != file_id_marker()
            &&& o + n <= usize::MAX
        }),
    ensures
        ({
            let st = records_start(patch);
            let w = if patch[3] == 0x33u8 { 8int } else { 4int };
            let n = patch[st + w] as int;
            let o = if patch[3] == 0x33u8 { le64(patch, st) } else { le32(patch, st) };
            &&& apply_spec(patch, rom) is Ok
            &&& apply_spec(patch, rom)->Ok_0.len() == if rom.len() < o + n {
                o + n
            } else {
                rom.len() as int
            }
            &&& forall|i: int|
                0 <= i < apply_spec(patch, rom)->Ok_0.len() ==> #[trigger] apply_spec(
                    patch,
                    rom,
                )->Ok_0[i] == if o <= i < o + n {
                    patch[st + w + 1 + i - o]
                } else if i < rom.len() {
                    rom[i]
                } else {
                    0u8
                }
        }),
{
    assert(patch.take(3) =~= magic());
    let st = records_start(patch);
    let wide = patch[3] == 0x33u8;
    let w = if wide { 8int } else { 4int };
    let undo = wide && patch[58] != 0;
    let n = patch[st + w] as int;
    let o = if wide { le64(patch, st) } else { le32(patch, st) };
    let data = patch.subrange(st + w + 1, st + w + 1 + n);
    let out = write_at(rom, o, data);
    assert(records(patch, patch.len() as int, out, wide, undo) == Ok::<Seq<u8>, PatchError>(out));
    assert(records(patch, st, rom, wide, undo) == Ok::<Seq<u8>, PatchError>(out));
    assert(apply_spec(patch, rom) == Ok::<Seq<u8>, PatchError>(out));
    let g = crate::buf::grow(rom, o + n);
    assert forall|i: int| 0 <= i < out.len() implies #[trigger] out[i] == if o <= i < o + n {
        patch[st + w + 1 + i - o]
    } else if i < rom.len() {
        rom[i]
    } else {
        0u8
    } by {
        if o <= i < o + n {
            assert(out[i] == data[i - o]);
        } else {
            assert(out[i] == g[i]);
        }
    }
}

/// Applies a PPF patch to `rom`.
pub fn apply(patch: &[u8], rom: &[u8]) -> (res: Result<Vec<u8>>)
    ensures
        bytes_result(res) == apply_spec(patch@, rom@),
{
    let mut r = BinReader::new(patch);
    let m = r.read_bytes(3)?;
    proof {
        assert(MAGIC@ == magic());
        assert(FILE_ID_MARKER@ == file_id_marker());
    }
    if !bytes_eq(m, &MAGIC) {
        return Err(PatchError::InvalidMagic);
    }
    let version_text = r.read_bytes(2)?;
    let version: u8 = if version_text[1] != 0x30 {
        0
    } else if version_text[0] == 0x31 {
        1
    } else if version_text[0] == 0x32 {
        2
    } else if version_text[0] == 0x33 {
        3
    } else {
        0
    };
    if version == 0 {
        return Err(PatchError::InvalidEncoding);
    }
    let encoded_version = r.read_u8()?;
    if encoded_version != version - 1 {
        return Err(PatchError::InvalidEncoding);
    }
    let _description = r.read_bytes(DESCRIPTION_LEN)?;
    let (block_check, undo_data) = if version == 1 {
        (false, false)
    } else if version == 2 {
        let _input_size = r.read_u32_be()?;
        (true, false)
    } else {
        let _image_type = r.read_u8()?;
        let bc = r.read_u8()? != 0;
        let undo = r.read_u8()? != 0;
        let _dummy = r.read_u8()?;
        (bc, undo)
    };
    if block_check {
        let _ = r.read_bytes(BLOCK_CHECK_LEN)?;
    }
    let wide = version == 3;
    let mut output = to_vec(rom);
    while r.pos() < patch.len()
        invariant
            r.data() == patch@,
            r.cursor() <= patch@.len(),
            apply_spec(patch@, rom@) == records(patch@, r.cursor(), output@, wide, undo_data),
        ensures
            apply_spec(patch@, rom@) == Ok::<Seq<u8>, PatchError>(output@),
        decreases patch@.len() - r.cursor(),
    {
        if r.remaining() >= 4 {
            let marker = r.peek(4)?;
            if bytes_eq(marker, &FILE_ID_MARKER) {
                break;
            }
        }
        let offset: usize = if wide {
            let raw = r.read_u64_le()?;
            if raw > usize::MAX as u64 {
                return Err(PatchError::OffsetOutOfRange { offset: raw, max: usize::MAX as u64 });
            }
            raw as usize
        } else {
            r.read_u32_le()? as usize
        };
        let length = r.read_u8()? as usize;
        let data = r.read_bytes(length)?;
        if undo_data {
            let _ = r.read_bytes(length)?;
        }
        if offset.checked_add(length).is_none() {
            return Err(PatchError::OffsetOutOfRange { offset: offset as u64, max: u64::MAX });
        }
        write_record(&mut output, offset, data);
    }
    Ok(output)
}

} // verus!
