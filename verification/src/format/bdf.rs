//! BDF / bsdiff (`BSDIFF40`).
//!
//! 32-byte header: the magic and three 8-byte signed integers, the compressed
//! sizes of the control and diff blocks and the target size. Then three
//! bzip2 streams (control, diff, extra); the extra stream runs to the end of
//! the patch.
//!
//! An 8-byte integer keeps its magnitude in the little-endian bytes with the
//! top bit of the last byte as the sign (set means negative).
//!
//! Each 24-byte control record (x, y, z) adds `x` diff bytes to source bytes
//! (source bytes outside the ROM count as zero), copies `y` extra bytes, and
//! moves the source position by `z`.
use std::io::Read;

use vstd::prelude::*;

use crate::bin_file::le64;
use crate::buf::{bytes_eq, copy_into, splice, zero_seq, zeros};
use crate::error::{bytes_result, PatchError, Result};

verus! {

/// `BSDIFF40`
const MAGIC: [u8; 8] = [0x42, 0x53, 0x44, 0x49, 0x46, 0x46, 0x34, 0x30];

const HEADER_LEN: usize = 32;

const RECORD_LEN: usize = 24;

/// The magic bytes `BSDIFF40`.
pub open spec fn magic() -> Seq<u8> {
    seq![0x42u8, 0x53u8, 0x44u8, 0x49u8, 0x46u8, 0x46u8, 0x34u8, 0x30u8]
}

/// What `bzip2_rs::DecoderReader` yields when read to the end over `input`:
/// the decompressed bytes, or `None` when it reports an error.
pub uninterp spec fn bzip2_decode(input: Seq<u8>) -> Option<Seq<u8>>;

/// The sign-magnitude 8-byte integer at `s[i..i + 8]`.
pub open spec fn offset_at(s: Seq<u8>, i: int) -> int {
    let magnitude = le64(s, i) - (if s[i + 7] >= 128 {
        128 * 0x100_0000_0000_0000
    } else {
        0
    });
    if s[i + 7] >= 128 {
        -magnitude
    } else {
        magnitude
    }
}

/// The source byte at a signed position, zero outside the ROM.
pub open spec fn source_at(rom: Seq<u8>, pos: int) -> u8 {
    if 0 <= pos < rom.len() {
        rom[pos]
    } else {
        0u8
    }
}

/// The sum of two bytes modulo 256.
pub open spec fn add_u8(a: u8, b: u8) -> u8 {
    if a + b > 255 {
        (a + b - 256) as u8
    } else {
        (a + b) as u8
    }
}

/// `diff` added byte by byte (modulo 256) to the source bytes from `spos`.
pub open spec fn add_onto(rom: Seq<u8>, spos: int, diff: Seq<u8>) -> Seq<u8> {
    Seq::new(diff.len(), |i: int| add_u8(source_at(rom, spos + i), diff[i]))
}

/// The control records from `cpos` applied to `out`.
pub open spec fn controls(
    c: Seq<u8>,
    cpos: int,
    diff: Seq<u8>,
    extra: Seq<u8>,
    rom: Seq<u8>,
    out: Seq<u8>,
    opos: int,
    spos: int,
    dpos: int,
    epos: int,
    tsize: int,
) -> Result<Seq<u8>>
    decreases c.len() - cpos,
{
    if cpos < 0 || cpos >= c.len() {
        if opos != tsize {
            Err(PatchError::Truncated)
        } else {
            Ok(out)
        }
    } else if c.len() - cpos < 24 {
        Err(PatchError::InvalidEncoding)
    } else {
        let x = offset_at(c, cpos);
        let y = offset_at(c, cpos + 8);
        let z = offset_at(c, cpos + 16);
        if x < 0 || y < 0 {
            Err(PatchError::InvalidEncoding)
        } else if x > usize::MAX {
            Err(PatchError::OffsetOutOfRange { offset: x as u64, max: tsize as u64 })
        } else if y > usize::MAX {
            Err(PatchError::OffsetOutOfRange { offset: y as u64, max: tsize as u64 })
        } else if opos + x > usize::MAX {
            Err(PatchError::OffsetOutOfRange { offset: opos as u64, max: tsize as u64 })
        } else if opos + x > tsize {
            Err(PatchError::OffsetOutOfRange { offset: (opos + x) as u64, max: tsize as u64 })
        } else if dpos + x > usize::MAX || dpos + x > diff.len() {
            Err(PatchError::Truncated)
        } else if spos + x > i64::MAX {
            Err(PatchError::InvalidEncoding)
        } else {
            let out1 = splice(out, opos, add_onto(rom, spos, diff.subrange(dpos, dpos + x)));
            let opos1 = opos + x;
            if opos1 + y > usize::MAX {
                Err(PatchError::OffsetOutOfRange { offset: opos1 as u64, max: tsize as u64 })
            } else if opos1 + y > tsize {
                Err(PatchError::OffsetOutOfRange { offset: (opos1 + y) as u64, max: tsize as u64 })
            } else if epos + y > usize::MAX || epos + y > extra.len() {
                Err(PatchError::Truncated)
            } else if spos + x + z > i64::MAX || spos + x + z < i64::MIN {
                Err(PatchError::InvalidEncoding)
            } else {
                controls(
                    c,
                    cpos + 24,
                    diff,
                    extra,
                    rom,
                    splice(out1, opos1, extra.subrange(epos, epos + y)),
                    opos1 + y,
                    spos + x + z,
                    dpos + x,
                    epos + y,
                    tsize,
                )
            }
        }
    }
}

/// The output that the decompressed control, diff and extra blocks describe
/// for a `tsize`-byte target.
pub open spec fn blocks_spec(
    ctrl: Seq<u8>,
    diff: Seq<u8>,
    extra: Seq<u8>,
    rom: Seq<u8>,
    tsize: int,
) -> Result<Seq<u8>> {
    controls(ctrl, 0, diff, extra, rom, zero_seq(tsize), 0, 0, 0, 0, tsize)
}

proof fn lemma_controls_len(
    c: Seq<u8>,
    cpos: int,
    diff: Seq<u8>,
    extra: Seq<u8>,
    rom: Seq<u8>,
    out: Seq<u8>,
    opos: int,
    spos: int,
    dpos: int,
    epos: int,
    tsize: int,
)
    requires
        out.len() == tsize,
        0 <= opos,
        0 <= dpos,
        0 <= epos,
    ensures
        controls(c, cpos, diff, extra, rom, out, opos, spos, dpos, epos, tsize) matches Ok(r)
            ==> r.len() == tsize,
    decreases c.len() - cpos,
{
    if 0 <= cpos < c.len() && c.len() - cpos >= 24 {
        let x = offset_at(c, cpos);
        let y = offset_at(c, cpos + 8);
        let z = offset_at(c, cpos + 16);
        if x >= 0 && y >= 0 && opos + x <= tsize && dpos + x <= diff.len() {
            let d = add_onto(rom, spos, diff.subrange(dpos, dpos + x));
            assert(d.len() == x);
            let out1 = splice(out, opos, d);
            assert(out1.len() == tsize);
            let opos1 = opos + x;
            if opos1 + y <= tsize && epos + y <= extra.len() {
                let e = extra.subrange(epos, epos + y);
                assert(e.len() == y);
                lemma_controls_len(
                    c,
                    cpos + 24,
                    diff,
                    extra,
                    rom,
                    splice(out1, opos1, e),
                    opos1 + y,
                    spos + x + z,
                    dpos + x,
                    epos + y,
                    tsize,
                );
            }
        }
    }
}

/// Record `j` of the control block (bytes `24 * j ..`) copies no extra
/// bytes and does not seek: its `y` and `z` are zero.
pub open spec fn plain_record(c: Seq<u8>, j: int) -> bool {
    offset_at(c, 24 * j + 8) == 0 && offset_at(c, 24 * j + 16) == 0
}

/// Byte `i` of the ROM plus byte `i` of the diff, modulo 256 (source bytes
/// past the ROM count as zero).
pub open spec fn diff_sum_at(rom: Seq<u8>, diff: Seq<u8>, i: int) -> int {
    ((if i < rom.len() {
        rom[i] as int
    } else {
        0
    }) + diff[i]) % 256
}

proof fn lemma_add_u8(a: u8, b: u8)
    ensures
        add_u8(a, b) as int == (a + b) % 256,
{
}

proof fn lemma_plain_controls(
    c: Seq<u8>,
    k: int,
    diff: Seq<u8>,
    extra: Seq<u8>,
    rom: Seq<u8>,
    out: Seq<u8>,
    opos: int,
    tsize: int,
)
    requires
        0 <= k,
        0 <= opos <= tsize,
        opos <= diff.len(),
        out.len() == tsize,
        forall|j: int| k <= j && 24 * j + 24 <= c.len() ==> #[trigger] plain_record(c, j),
        forall|i: int| 0 <= i < opos ==> #[trigger] out[i] as int == diff_sum_at(rom, diff, i),
    ensures
        controls(c, 24 * k, diff, extra, rom, out, opos, opos, opos, 0, tsize) matches Ok(r) ==> (
        r.len() == tsize && tsize <= diff.len() && forall|i: int|
            0 <= i < tsize ==> #[trigger] r[i] as int == diff_sum_at(rom, diff, i)),
    decreases c.len() - 24 * k,
{
    let cpos = 24 * k;
    if cpos < c.len() && c.len() - cpos >= 24 {
        assert(plain_record(c, k));
        let x = offset_at(c, cpos);
        if x >= 0 && opos + x <= tsize && opos + x <= diff.len() {
            let d = add_onto(rom, opos, diff.subrange(opos, opos + x));
            let out1 = splice(out, opos, d);
            let out2 = splice(out1, opos + x, extra.subrange(0, 0));
            assert(out2 =~= out1);
            assert forall|i: int| 0 <= i < opos + x implies #[trigger] out1[i] as int
                == diff_sum_at(rom, diff, i) by {
                if i >= opos {
                    assert(out1[i] == d[i - opos]);
                    lemma_add_u8(source_at(rom, i), diff[i]);
                } else {
                    assert(out1[i] == out[i]);
                }
            }
            lemma_plain_controls(c, k + 1, diff, extra, rom, out1, opos + x, tsize);
            assert(24 * (k + 1) == cpos + 24);
        }
    }
}

/// When no control record copies extra bytes or seeks, the source position
/// advances together with the output: each output byte is the ROM byte at
/// the same position plus the diff byte there, modulo 256. So diff records
/// that split a diff of zeros against the ROM itself give the ROM back.
pub proof fn lemma_plain_records_add_diff(
    ctrl: Seq<u8>,
    diff: Seq<u8>,
    extra: Seq<u8>,
    rom: Seq<u8>,
    tsize: int,
)
    requires
        0 <= tsize,
        forall|j: int| 0 <= j && 24 * j + 24 <= ctrl.len() ==> #[trigger] plain_record(ctrl, j),
    ensures
        blocks_spec(ctrl, diff, extra, rom, tsize) matches Ok(out) ==> (out.len() == tsize
            && forall|i: int| 0 <= i < tsize ==> #[trigger] out[i] as int == diff_sum_at(rom, diff, i)),
        (tsize <= rom.len() && forall|i: int| 0 <= i < tsize && i < diff.len() ==> #[trigger] diff[i]
            == 0) ==> (blocks_spec(ctrl, diff, extra, rom, tsize) matches Ok(out) ==> out
            == rom.take(tsize)),
{
    lemma_plain_controls(ctrl, 0, diff, extra, rom, zero_seq(tsize), 0, tsize);
    if let Ok(out) = blocks_spec(ctrl, diff, extra, rom, tsize) {
        if tsize <= rom.len() && forall|i: int| 0 <= i < tsize && i < diff.len() ==> #[trigger] diff[i]
            == 0 {
            assert forall|i: int| 0 <= i < tsize implies out[i] == rom.take(tsize)[i] by {
                assert(out[i] as int == diff_sum_at(rom, diff, i));
                assert(diff[i] == 0);
            }
            assert(out =~= rom.take(tsize));
        }
    }
}

/// Record `j` of the control block adds no diff bytes: its `x` is zero.
pub open spec fn extra_only_record(c: Seq<u8>, j: int) -> bool {
    offset_at(c, 24 * j) == 0
}

proof fn lemma_extra_controls(
    c: Seq<u8>,
    k: int,
    diff: Seq<u8>,
    extra: Seq<u8>,
    rom: Seq<u8>,
    out: Seq<u8>,
    opos: int,
    spos: int,
    tsize: int,
)
    requires
        0 <= k,
        0 <= opos <= tsize,
        opos <= extra.len(),
        out.len() == tsize,
        forall|j: int| k <= j && 24 * j + 24 <= c.len() ==> #[trigger] extra_only_record(c, j),
        forall|i: int| 0 <= i < opos ==> #[trigger] out[i] == extra[i],
    ensures
        controls(c, 24 * k, diff, extra, rom, out, opos, spos, 0, opos, tsize) matches Ok(r) ==> (
        r.len() == tsize && tsize <= extra.len() && forall|i: int|
            0 <= i < tsize ==> #[trigger] r[i] == extra[i]),
    decreases c.len() - 24 * k,
{
    let cpos = 24 * k;
    if cpos < c.len() && c.len() - cpos >= 24 {
        assert(extra_only_record(c, k));
        let y = offset_at(c, cpos + 8);
        let z = offset_at(c, cpos + 16);
        if y >= 0 && opos + y <= tsize && opos + y <= extra.len() {
            let out1 = splice(out, opos, add_onto(rom, spos, diff.subrange(0, 0)));
            assert(out1 =~= out);
            let e = extra.subrange(opos, opos + y);
            let out2 = splice(out1, opos, e);
            assert forall|i: int| 0 <= i < opos + y implies #[trigger] out2[i] == extra[i] by {
                if i >= opos {
                    assert(out2[i] == e[i - opos]);
                } else {
                    assert(out2[i] == out[i]);
                }
            }
            lemma_extra_controls(c, k + 1, diff, extra, rom, out2, opos + y, spos + z, tsize);
            assert(24 * (k + 1) == cpos + 24);
        }
    }
}

/// When no control record adds diff bytes, the output is the extra block
/// copied in order, whatever the records' seeks: every output byte is the
/// extra byte at the same position.
pub proof fn lemma_extra_records_copy(
    ctrl: Seq<u8>,
    diff: Seq<u8>,
    extra: Seq<u8>,
    rom: Seq<u8>,
    tsize: int,
)
    requires
        0 <= tsize,
        forall|j: int| 0 <= j && 24 * j + 24 <= ctrl.len() ==> #[trigger] extra_only_record(ctrl, j),
    ensures
        blocks_spec(ctrl, diff, extra, rom, tsize) matches Ok(out) ==> out == extra.take(tsize),
{
    lemma_extra_controls(ctrl, 0, diff, extra, rom, zero_seq(tsize), 0, 0, tsize);
    if let Ok(out) = blocks_spec(ctrl, diff, extra, rom, tsize) {
        assert(out =~= extra.take(tsize));
    }
}

/// A BDF patch shorter than its 32-byte header is `Truncated`; a success
/// carries the `BSDIFF40` magic and has exactly the non-negative target
/// size that the header declares.
pub proof fn lemma_success_facts(patch: Seq<u8>, rom: Seq<u8>)
    ensures
        patch.len() < 32 ==> apply_spec(patch, rom) == Err::<Seq<u8>, PatchError>(
            PatchError::Truncated,
        ),
        apply_spec(patch, rom) matches Ok(out) ==> patch.take(8) == magic() && offset_at(patch, 24)
            >= 0 && out.len() == offset_at(patch, 24),
{
    if patch.len() >= 32 && patch.take(8) == magic() {
        let ctrl_len = offset_at(patch, 8);
        let diff_len = offset_at(patch, 16);
        let ctrl_end = 32 + ctrl_len;
        let diff_end = ctrl_end + diff_len;
        let target = offset_at(patch, 24);
        if ctrl_len >= 0 && diff_len >= 0 && target >= 0 {
            if let Some(ctrl) = bzip2_decode(patch.subrange(32, ctrl_end)) {
                if let Some(diff) = bzip2_decode(patch.subrange(ctrl_end, diff_end)) {
                    if let Some(extra) = bzip2_decode(patch.subrange(diff_end, patch.len() as int)) {
                        lemma_controls_len(ctrl, 0, diff, extra, rom, zero_seq(target), 0, 0, 0, 0, target);
                    }
                }
            }
        }
    }
}

/// The BDF semantics, over the bzip2 decompression of the three blocks.
pub open spec fn apply_spec(patch: Seq<u8>, rom: Seq<u8>) -> Result<Seq<u8>> {
    if patch.len() < 32 {
        Err(PatchError::Truncated)
    } else if patch.take(8) != magic() {
        Err(PatchError::InvalidMagic)
    } else {
        let ctrl_len = offset_at(patch, 8);
        let diff_len = offset_at(patch, 16);
        let target = offset_at(patch, 24);
        if ctrl_len < 0 || diff_len < 0 || target < 0 {
            Err(PatchError::InvalidEncoding)
        } else if ctrl_len > usize::MAX {
            Err(PatchError::OffsetOutOfRange { offset: ctrl_len as u64, max: usize::MAX as u64 })
        } else if diff_len > usize::MAX {
            Err(PatchError::OffsetOutOfRange { offset: diff_len as u64, max: usize::MAX as u64 })
        } else if target > usize::MAX {
            Err(PatchError::OffsetOutOfRange { offset: target as u64, max: usize::MAX as u64 })
        } else if 32 + ctrl_len + diff_len > usize::MAX || 32 + ctrl_len + diff_len > patch.len() {
            Err(PatchError::Truncated)
        } else {
            let ctrl_end = 32 + ctrl_len;
            let diff_end = ctrl_end + diff_len;
            match bzip2_decode(patch.subrange(32, ctrl_end)) {
                None => Err(PatchError::InvalidEncoding),
                Some(ctrl) => match bzip2_decode(patch.subrange(ctrl_end, diff_end)) {
                    None => Err(PatchError::InvalidEncoding),
                    Some(diff) => match bzip2_decode(patch.subrange(diff_end, patch.len() as int)) {
                        None => Err(PatchError::InvalidEncoding),
                        Some(extra) => blocks_spec(ctrl, diff, extra, rom, target),
                    },
                },
            }
        }
    }
}

/// Decompresses one bzip2 stream: reads a `bzip2_rs::DecoderReader` over
/// `input` to the end. The contract only names the result (`None` for a
/// reported error). The decoder's source holds internal assertions
/// (`unreachable!`, `assert_eq!`) that it treats as unreachable; which inputs,
/// if any, reach them is not stated.
#[verifier::external_body]
fn bz_decompress(input: &[u8]) -> (r: Option<Vec<u8>>)
    ensures
        match r {
            Some(v) => bzip2_decode(input@) == Some(v@),
            None => bzip2_decode(input@) is None,
        },
{
    let mut out = Vec::new();
    match bzip2_rs::DecoderReader::new(input).read_to_end(&mut out) {
        Ok(_) => Some(out),
        Err(_) => None,
    }
}

/// The sign-magnitude 8-byte integer at `s[i..i + 8]`.
pub(crate) fn read_offset(s: &[u8], i: usize) -> (r: i64)
    requires
        i + 8 <= s@.len(),
    ensures
        r == offset_at(s@, i as int),
{
    let len = s.len();
    assert(i + 7 < len);
    let top = s[i + 7];
    let neg = top >= 128;
    let top_mag = if neg {
        top - 128
    } else {
        top
    };
    let lo = s[i] as u64 + (s[i + 1] as u64) * 0x100 + (s[i + 2] as u64) * 0x10000 + (s[i
        + 3] as u64) * 0x1000000;
    let hi = s[i + 4] as u64 + (s[i + 5] as u64) * 0x100 + (s[i + 6] as u64) * 0x10000 + (top_mag
        as u64) * 0x1000000;
    let magnitude = lo + hi * 0x1_0000_0000;
    let mag = magnitude as i64;
    if neg {
        -mag
    } else {
        mag
    }
}

/// Applies the decompressed control, diff and extra blocks to `rom`,
/// producing a `target_size`-byte output.
pub fn apply_blocks(
    ctrl: &[u8],
    diff: &[u8],
    extra: &[u8],
    rom: &[u8],
    target_size: usize,
) -> (res: Result<Vec<u8>>)
    ensures
        bytes_result(res) == blocks_spec(ctrl@, diff@, extra@, rom@, target_size as int),
{
    let mut output = zeros(target_size);
    let mut output_pos: usize = 0;
    let mut source_pos: i64 = 0;
    let mut diff_pos: usize = 0;
    let mut extra_pos: usize = 0;
    let mut cpos: usize = 0;
    while cpos < ctrl.len()
        invariant
            output@.len() == target_size,
            output_pos <= target_size,
            diff_pos <= diff@.len(),
            extra_pos <= extra@.len(),
            cpos <= ctrl@.len(),
            blocks_spec(ctrl@, diff@, extra@, rom@, target_size as int) == controls(
                ctrl@,
                cpos as int,
                diff@,
                extra@,
                rom@,
                output@,
                output_pos as int,
                source_pos as int,
                diff_pos as int,
                extra_pos as int,
                target_size as int,
            ),
        decreases ctrl@.len() - cpos,
    {
        if ctrl.len() - cpos < RECORD_LEN {
            return Err(PatchError::InvalidEncoding);
        }
        let x_signed = read_offset(ctrl, cpos);
        let y_signed = read_offset(ctrl, cpos + 8);
        let z = read_offset(ctrl, cpos + 16);
        if x_signed < 0 || y_signed < 0 {
            return Err(PatchError::InvalidEncoding);
        }
        if x_signed as u64 > usize::MAX as u64 {
            return Err(
                PatchError::OffsetOutOfRange { offset: x_signed as u64, max: target_size as u64 },
            );
        }
        if y_signed as u64 > usize::MAX as u64 {
            return Err(
                PatchError::OffsetOutOfRange { offset: y_signed as u64, max: target_size as u64 },
            );
        }
        let x = x_signed as usize;
        let y = y_signed as usize;
        let new_output = match output_pos.checked_add(x) {
            Some(v) => v,
            None => return Err(
                PatchError::OffsetOutOfRange { offset: output_pos as u64, max: target_size as u64 },
            ),
        };
        if new_output > target_size {
            return Err(
                PatchError::OffsetOutOfRange { offset: new_output as u64, max: target_size as u64 },
            );
        }
        let new_diff = match diff_pos.checked_add(x) {
            Some(v) => v,
            None => return Err(PatchError::Truncated),
        };
        if new_diff > diff.len() {
            return Err(PatchError::Truncated);
        }
        let source_after = match source_pos.checked_add(x as i64) {
            Some(v) => v,
            None => return Err(PatchError::InvalidEncoding),
        };
        let ghost out0 = output@;
        let mut i: usize = 0;
        while i < x
            invariant
                i <= x,
                output_pos + x <= target_size,
                diff_pos + x <= diff@.len(),
                output@.len() == target_size,
                output@ == splice(
                    out0,
                    output_pos as int,
                    add_onto(rom@, source_pos as int, diff@.subrange(diff_pos as int, diff_pos + i)),
                ),
                out0.len() == target_size,
                source_pos + x <= i64::MAX,
                x <= i64::MAX,
                new_diff == diff_pos + x,
            decreases x - i,
        {
            let abs = source_pos + i as i64;
            let src = if abs >= 0 && (abs as u64) < rom.len() as u64 {
                rom[abs as usize]
            } else {
                0u8
            };
            let sum = src.wrapping_add(diff[diff_pos + i]);
            assert(src == source_at(rom@, source_pos + i));
            assert(sum == add_u8(src, diff@[diff_pos + i]));
            output.set(output_pos + i, sum);
            proof {
                assert(output@ =~= splice(
                    out0,
                    output_pos as int,
                    add_onto(rom@, source_pos as int, diff@.subrange(diff_pos as int, diff_pos + i + 1)),
                ));
            }
            i = i + 1;
        }
        output_pos = new_output;
        diff_pos = new_diff;
        source_pos = source_after;
        let new_output_extra = match output_pos.checked_add(y) {
            Some(v) => v,
            None => return Err(
                PatchError::OffsetOutOfRange { offset: output_pos as u64, max: target_size as u64 },
            ),
        };
        if new_output_extra > target_size {
            return Err(
                PatchError::OffsetOutOfRange {
                    offset: new_output_extra as u64,
                    max: target_size as u64,
                },
            );
        }
        let new_extra = match extra_pos.checked_add(y) {
            Some(v) => v,
            None => return Err(PatchError::Truncated),
        };
        if new_extra > extra.len() {
            return Err(PatchError::Truncated);
        }
        copy_into(&mut output, output_pos, &extra[extra_pos..new_extra]);
        output_pos = new_output_extra;
        extra_pos = new_extra;
        source_pos = match source_pos.checked_add(z) {
            Some(v) => v,
            None => return Err(PatchError::InvalidEncoding),
        };
        cpos = cpos + RECORD_LEN;
    }
    if output_pos != target_size {
        return Err(PatchError::Truncated);
    }
    Ok(output)
}

/// Applies a BDF (bsdiff) patch to `rom`.
pub fn apply(patch: &[u8], rom: &[u8]) -> (res: Result<Vec<u8>>)
    ensures
        bytes_result(res) == apply_spec(patch@, rom@),
{
    if patch.len() < HEADER_LEN {
        return Err(PatchError::Truncated);
    }
    proof {
        assert(MAGIC@ == magic());
    }
    if !bytes_eq(&patch[0..8], &MAGIC) {
        return Err(PatchError::InvalidMagic);
    }
    let ctrl_signed = read_offset(patch, 8);
    let diff_signed = read_offset(patch, 16);
    let target_signed = read_offset(patch, 24);
    if ctrl_signed < 0 || diff_signed < 0 || target_signed < 0 {
        return Err(PatchError::InvalidEncoding);
    }
    if ctrl_signed as u64 > usize::MAX as u64 {
        return Err(
            PatchError::OffsetOutOfRange { offset: ctrl_signed as u64, max: usize::MAX as u64 },
        );
    }
    if diff_signed as u64 > usize::MAX as u64 {
        return Err(
            PatchError::OffsetOutOfRange { offset: diff_signed as u64, max: usize::MAX as u64 },
        );
    }
    if target_signed as u64 > usize::MAX as u64 {
        return Err(
            PatchError::OffsetOutOfRange { offset: target_signed as u64, max: usize::MAX as u64 },
        );
    }
    let ctrl_len = ctrl_signed as usize;
    let diff_len = diff_signed as usize;
    let target_size = target_signed as usize;
    let ctrl_end = match HEADER_LEN.checked_add(ctrl_len) {
        Some(v) => v,
        None => return Err(PatchError::Truncated),
    };
    let diff_end = match ctrl_end.checked_add(diff_len) {
        Some(v) => v,
        None => return Err(PatchError::Truncated),
    };
    if diff_end > patch.len() {
        return Err(PatchError::Truncated);
    }
    let ctrl = match bz_decompress(&patch[HEADER_LEN..ctrl_end]) {
        Some(v) => v,
        None => return Err(PatchError::InvalidEncoding),
    };
    let diff = match bz_decompress(&patch[ctrl_end..diff_end]) {
        Some(v) => v,
        None => return Err(PatchError::InvalidEncoding),
    };
    let extra = match bz_decompress(&patch[diff_end..patch.len()]) {
        Some(v) => v,
        None => return Err(PatchError::InvalidEncoding),
    };
    apply_blocks(&ctrl, &diff, &extra, rom, target_size)
}

} // verus!
