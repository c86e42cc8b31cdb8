//! BPS (byuu): header of three variable-length values (source size, target
//! size, metadata size), metadata, an action stream, and a CRC-32 footer.
use vstd::prelude::*;

use crate::bin_file::{le32, vlv_at, lemma_vlv_bounds, BinReader};
use crate::buf::{copy_into, rle_copy, rle_copy_into, splice, zero_seq, zeros};
use crate::error::{bytes_result, PatchError, Result};
use crate::format::{check_crc_footer, crc_footer_result};
use crate::hash::{crc32, crc32_of};
use crate::MAX_PATCH_OUTPUT_SIZE;

verus! {

/// `BPS1`
const MAGIC: [u8; 4] = [0x42, 0x50, 0x53, 0x31];

const FOOTER_LEN: usize = 12;

/// The magic bytes `BPS1`.
pub open spec fn magic() -> Seq<u8> {
    seq![0x42u8, 0x50u8, 0x53u8, 0x31u8]
}

/// The signed offset carried by a raw variable-length value: the low bit is
/// the sign, the remaining bits the magnitude.
pub open spec fn signed_delta(raw: u64) -> int {
    if raw % 2 == 1 {
        -((raw / 2) as int)
    } else {
        (raw / 2) as int
    }
}

pub open spec fn in_i64(x: int) -> bool {
    i64::MIN <= x <= i64::MAX
}

/// One action of the stream at `rpos`: the new read position, output, output
/// offset and the two relative offsets (source, target), or the error.
pub open spec fn step(
    p: Seq<u8>,
    rpos: int,
    end: int,
    rom: Seq<u8>,
    out: Seq<u8>,
    opos: int,
    srel: int,
    trel: int,
    tsize: u64,
) -> Result<(int, Seq<u8>, int, int, int)> {
    let (rc, p1) = vlv_at(p, rpos);
    match rc {
        Err(e) => Err(e),
        Ok(command) => {
            let action = command % 4;
            let length = command / 4 + 1;
            let oend = opos + length;
            if length > usize::MAX {
                Err(PatchError::OffsetOutOfRange { offset: length as u64, max: tsize })
            } else if oend > usize::MAX {
                Err(PatchError::OffsetOutOfRange { offset: 0, max: tsize })
            } else if oend > tsize {
                Err(PatchError::OffsetOutOfRange { offset: oend as u64, max: tsize })
            } else if action == 0 {
                // SourceRead: the source bytes at the same offset.
                if oend > rom.len() {
                    Err(PatchError::OffsetOutOfRange { offset: oend as u64, max: rom.len() as u64 })
                } else {
                    Ok((p1, splice(out, opos, rom.subrange(opos, oend)), oend, srel, trel))
                }
            } else if action == 1 {
                // TargetRead: literal bytes from the patch.
                if p1 + length > usize::MAX || p1 + length > end {
                    Err(PatchError::Truncated)
                } else {
                    Ok((p1 + length, splice(out, opos, p.subrange(p1, p1 + length)), oend, srel, trel))
                }
            } else {
                let (rd, p2) = vlv_at(p, p1);
                match rd {
                    Err(e) => Err(e),
                    Ok(raw) => {
                        let delta = signed_delta(raw);
                        if action == 2 {
                            // SourceCopy: source bytes at the relative source offset.
                            let ns = srel + delta;
                            if !in_i64(ns) {
                                Err(PatchError::InvalidEncoding)
                            } else if ns < 0 {
                                Err(PatchError::OffsetOutOfRange { offset: 0, max: rom.len() as u64 })
                            } else if ns > usize::MAX || ns + length > usize::MAX {
                                Err(
                                    PatchError::OffsetOutOfRange {
                                        offset: ns as u64,
                                        max: rom.len() as u64,
                                    },
                                )
                            } else if ns + length > rom.len() {
                                Err(
                                    PatchError::OffsetOutOfRange {
                                        offset: (ns + length) as u64,
                                        max: rom.len() as u64,
                                    },
                                )
                            } else if !in_i64(length) || !in_i64(ns + length) {
                                Err(PatchError::InvalidEncoding)
                            } else {
                                Ok(
                                    (
                                        p2,
                                        splice(out, opos, rom.subrange(ns, ns + length)),
                                        oend,
                                        ns + length,
                                        trel,
                                    ),
                                )
                            }
                        } else {
                            // TargetCopy: earlier output bytes, possibly overlapping.
                            let nt = trel + delta;
                            if !in_i64(nt) {
                                Err(PatchError::InvalidEncoding)
                            } else if nt < 0 {
                                Err(PatchError::OffsetOutOfRange { offset: 0, max: tsize })
                            } else if nt > usize::MAX || nt >= opos {
                                Err(PatchError::OffsetOutOfRange { offset: nt as u64, max: tsize })
                            } else if !in_i64(length) || !in_i64(nt + length) {
                                Err(PatchError::InvalidEncoding)
                            } else {
                                Ok((p2, rle_copy(out, opos, nt, length), oend, srel, nt + length))
                            }
                        }
                    },
                }
            }
        },
    }
}

/// An upper bound on every read position: the end of the patch or of the
/// action stream, whichever is larger.
pub open spec fn bound(p: Seq<u8>, end: int) -> int {
    if end > p.len() {
        end
    } else {
        p.len() as int
    }
}

/// Runs the action stream from `rpos` up to `end`; the output must then be
/// exactly `tsize` bytes long.
pub open spec fn actions(
    p: Seq<u8>,
    rpos: int,
    end: int,
    rom: Seq<u8>,
    out: Seq<u8>,
    opos: int,
    srel: int,
    trel: int,
    tsize: u64,
) -> Result<Seq<u8>>
    decreases bound(p, end) - rpos,
    via actions_decreases
{
    if rpos >= end {
        if opos != tsize {
            Err(PatchError::Truncated)
        } else {
            Ok(out)
        }
    } else {
        match step(p, rpos, end, rom, out, opos, srel, trel, tsize) {
            Err(e) => Err(e),
            Ok((r2, o2, op2, s2, t2)) => actions(p, r2, end, rom, o2, op2, s2, t2, tsize),
        }
    }
}

#[via_fn]
proof fn actions_decreases(
    p: Seq<u8>,
    rpos: int,
    end: int,
    rom: Seq<u8>,
    out: Seq<u8>,
    opos: int,
    srel: int,
    trel: int,
    tsize: u64,
) {
    lemma_step_advances(p, rpos, end, rom, out, opos, srel, trel, tsize);
}

/// Every successful action consumes at least one byte of the patch.
proof fn lemma_step_advances(
    p: Seq<u8>,
    rpos: int,
    end: int,
    rom: Seq<u8>,
    out: Seq<u8>,
    opos: int,
    srel: int,
    trel: int,
    tsize: u64,
)
    ensures
        step(p, rpos, end, rom, out, opos, srel, trel, tsize) matches Ok(t) ==> rpos < t.0 <= bound(p, end),
{
    lemma_vlv_bounds(p, rpos);
    lemma_vlv_bounds(p, vlv_at(p, rpos).1);
}

/// A successful action keeps the output at its length and the output
/// offset within it.
proof fn lemma_step_len(
    p: Seq<u8>,
    rpos: int,
    end: int,
    rom: Seq<u8>,
    out: Seq<u8>,
    opos: int,
    srel: int,
    trel: int,
    tsize: u64,
)
    requires
        out.len() == tsize,
        0 <= opos <= tsize,
        0 <= rpos,
        end <= p.len(),
    ensures
        step(p, rpos, end, rom, out, opos, srel, trel, tsize) matches Ok(t) ==> t.1.len() == tsize
            && 0 <= t.2 <= tsize,
{
    lemma_vlv_bounds(p, rpos);
    let (rc, p1) = vlv_at(p, rpos);
    if let Ok(command) = rc {
        let action = command % 4;
        let length = command / 4 + 1;
        let oend = opos + length;
        if length <= usize::MAX && oend <= usize::MAX && oend <= tsize {
            if action == 0 {
                if oend <= rom.len() {
                    assert(rom.subrange(opos, oend).len() == length);
                }
            } else if action == 1 {
                if p1 + length <= end {
                    assert(p.subrange(p1, p1 + length).len() == length);
                }
            } else {
                let (rd, p2) = vlv_at(p, p1);
                if let Ok(raw) = rd {
                    let delta = signed_delta(raw);
                    let ns = srel + delta;
                    if action == 2 && 0 <= ns && ns + length <= rom.len() {
                        assert(rom.subrange(ns, ns + length).len() == length);
                    }
                }
            }
        }
    }
}

proof fn lemma_actions_len(
    p: Seq<u8>,
    rpos: int,
    end: int,
    rom: Seq<u8>,
    out: Seq<u8>,
    opos: int,
    srel: int,
    trel: int,
    tsize: u64,
)
    requires
        out.len() == tsize,
        0 <= opos <= tsize,
        0 <= rpos,
        end <= p.len(),
    ensures
        actions(p, rpos, end, rom, out, opos, srel, trel, tsize) matches Ok(r) ==> r.len() == tsize,
    decreases bound(p, end) - rpos,
{
    if rpos < end {
        lemma_step_advances(p, rpos, end, rom, out, opos, srel, trel, tsize);
        lemma_step_len(p, rpos, end, rom, out, opos, srel, trel, tsize);
        if let Ok((r2, o2, op2, s2, t2)) = step(p, rpos, end, rom, out, opos, srel, trel, tsize) {
            lemma_actions_len(p, r2, end, rom, o2, op2, s2, t2, tsize);
        }
    }
}

/// A BPS patch yields exactly the target size it declares, which is never
/// more than `MAX_PATCH_OUTPUT_SIZE`: a larger declared size is refused.
pub proof fn lemma_output_bounded(patch: Seq<u8>, rom: Seq<u8>)
    ensures
        apply_spec(patch, rom) matches Ok(out) ==> out.len() <= MAX_PATCH_OUTPUT_SIZE,
{
    if patch.len() >= 16 && patch.take(4) == magic() {
        let (a, p1) = vlv_at(patch, 4);
        let (b, p2) = vlv_at(patch, p1);
        let (c, p3) = vlv_at(patch, p2);
        if a is Ok && b is Ok && c is Ok {
            let target_size = b->Ok_0;
            let meta = c->Ok_0;
            let end = patch.len() - 12;
            lemma_vlv_bounds(patch, 4);
            lemma_vlv_bounds(patch, p1);
            lemma_vlv_bounds(patch, p2);
            lemma_actions_len(
                patch,
                p3 + meta,
                end,
                rom,
                zero_seq(target_size as int),
                0,
                0,
                0,
                target_size,
            );
        }
    }
}

/// What a successful BPS apply implies: the magic, a ROM of the declared
/// source size, an output of the declared target size, and the three
/// footer CRC-32s equal to those of the ROM, the output and the patch
/// before its last four bytes. A well-formed header with the wrong source
/// size is refused with `InputSizeMismatch`.
pub proof fn lemma_success_facts(patch: Seq<u8>, rom: Seq<u8>)
    ensures
        apply_spec(patch, rom) matches Ok(out) ==> {
            let n = patch.len() as int;
            let (a, p1) = vlv_at(patch, 4);
            &&& n >= 16
            &&& patch.take(4) == magic()
            &&& a matches Ok(source_size) && rom.len() == source_size
            &&& vlv_at(patch, p1).0 matches Ok(target_size) && out.len() == target_size
            &&& crc32_of(rom) == le32(patch, n - 12)
            &&& crc32_of(out) == le32(patch, n - 8)
            &&& crc32_of(patch.take(n - 4)) == le32(patch, n - 4)
        },
        ({
            let (a, p1) = vlv_at(patch, 4);
            let (b, p2) = vlv_at(patch, p1);
            &&& patch.len() >= 16
            &&& patch.take(4) == magic()
            &&& a is Ok
            &&& b is Ok
            &&& vlv_at(patch, p2).0 is Ok
            &&& rom.len() != a->Ok_0
        }) ==> apply_spec(patch, rom) == Err::<Seq<u8>, PatchError>(
            PatchError::InputSizeMismatch {
                expected: vlv_at(patch, 4).0->Ok_0,
                actual: rom.len() as u64,
            },
        ),
{
    lemma_output_bounded(patch, rom);
    if patch.len() >= 16 && patch.take(4) == magic() {
        let (a, p1) = vlv_at(patch, 4);
        let (b, p2) = vlv_at(patch, p1);
        let (c, p3) = vlv_at(patch, p2);
        if a is Ok && b is Ok && c is Ok {
            let target_size = b->Ok_0;
            let meta = c->Ok_0;
            let end = patch.len() - 12;
            lemma_vlv_bounds(patch, 4);
            lemma_vlv_bounds(patch, p1);
            lemma_vlv_bounds(patch, p2);
            lemma_actions_len(
                patch,
                p3 + meta,
                end,
                rom,
                zero_seq(target_size as int),
                0,
                0,
                0,
                target_size,
            );
        }
    }
}

/// Everything but the CRC-32 checks: the output that the header and action
/// stream describe, or the first error met.
pub open spec fn decode_spec(patch: Seq<u8>, rom: Seq<u8>) -> Result<Seq<u8>> {
    if patch.len() < 16 {
        Err(PatchError::Truncated)
    } else if patch.take(4) != magic() {
        Err(PatchError::InvalidMagic)
    } else {
        let (a, p1) = vlv_at(patch, 4);
        let (b, p2) = vlv_at(patch, p1);
        let (c, p3) = vlv_at(patch, p2);
        if a is Err {
            Err(a->Err_0)
        } else if b is Err {
            Err(b->Err_0)
        } else if c is Err {
            Err(c->Err_0)
        } else {
            let source_size = a->Ok_0;
            let target_size = b->Ok_0;
            let meta = c->Ok_0;
            let end = patch.len() - 12;
            if rom.len() != source_size {
                Err(PatchError::InputSizeMismatch { expected: source_size, actual: rom.len() as u64 })
            } else if meta > usize::MAX {
                Err(PatchError::OffsetOutOfRange { offset: meta, max: end as u64 })
            } else if p3 + meta > usize::MAX || p3 + meta > end {
                Err(PatchError::Truncated)
            } else if target_size > usize::MAX {
                Err(PatchError::OffsetOutOfRange { offset: target_size, max: usize::MAX as u64 })
            } else if target_size > MAX_PATCH_OUTPUT_SIZE {
                Err(
                    PatchError::OutputTooLarge {
                        declared: target_size,
                        max: MAX_PATCH_OUTPUT_SIZE as u64,
                    },
                )
            } else {
                actions(patch, p3 + meta, end, rom, zero_seq(target_size as int), 0, 0, 0, target_size)
            }
        }
    }
}

/// The full BPS semantics: the decoded output, accepted only when the source,
/// target and patch CRC-32s match the footer.
pub open spec fn apply_spec(patch: Seq<u8>, rom: Seq<u8>) -> Result<Seq<u8>> {
    match decode_spec(patch, rom) {
        Err(e) => Err(e),
        Ok(out) => match crc_footer_result(
            patch,
            crc32_of(rom),
            crc32_of(out),
            crc32_of(patch.take(patch.len() - 4)),
        ) {
            Err(e) => Err(e),
            Ok(_) => Ok(out),
        },
    }
}

/// Reads a signed relative offset (sign in the low bit).
fn read_signed_vlv(r: &mut BinReader<'_>) -> (res: Result<i64>)
    ensures
        final(r).data() == old(r).data(),
        0 <= final(r).cursor() <= final(r).data().len(),
        final(r).cursor() == vlv_at(old(r).data(), old(r).cursor()).1,
        vlv_at(old(r).data(), old(r).cursor()).0 is Err ==> res == Err::<i64, PatchError>(
            vlv_at(old(r).data(), old(r).cursor()).0->Err_0,
        ),
        vlv_at(old(r).data(), old(r).cursor()).0 is Ok ==> res is Ok && res->Ok_0 == signed_delta(
            vlv_at(old(r).data(), old(r).cursor()).0->Ok_0,
        ),
{
    let raw = r.read_vlv()?;
    let magnitude = (raw / 2) as i64;
    if raw % 2 != 0 {
        Ok(-magnitude)
    } else {
        Ok(magnitude)
    }
}

/// Performs one action; see [`step`].
fn apply_step(
    r: &mut BinReader<'_>,
    end: usize,
    rom: &[u8],
    out: &mut Vec<u8>,
    opos: usize,
    srel: i64,
    trel: i64,
    tsize: u64,
) -> (res: Result<(usize, i64, i64)>)
    requires
        old(r).cursor() < end <= old(r).data().len(),
        old(out)@.len() == tsize,
        opos <= tsize,
    ensures
        final(r).data() == old(r).data(),
        0 <= final(r).cursor() <= final(r).data().len(),
        final(out)@.len() == tsize,
        match res {
            Ok((op2, s2, t2)) => step(
                old(r).data(),
                old(r).cursor(),
                end as int,
                rom@,
                old(out)@,
                opos as int,
                srel as int,
                trel as int,
                tsize,
            ) == Ok::<(int, Seq<u8>, int, int, int), PatchError>(
                (final(r).cursor(), final(out)@, op2 as int, s2 as int, t2 as int),
            ) && op2 <= tsize,
            Err(e) => step(
                old(r).data(),
                old(r).cursor(),
                end as int,
                rom@,
                old(out)@,
                opos as int,
                srel as int,
                trel as int,
                tsize,
            ) == Err::<(int, Seq<u8>, int, int, int), PatchError>(e),
        },
{
    let command = r.read_vlv()?;
    let action = command % 4;
    let length_u64 = command / 4 + 1;
    if length_u64 > usize::MAX as u64 {
        return Err(PatchError::OffsetOutOfRange { offset: length_u64, max: tsize });
    }
    let length = length_u64 as usize;
    let oend = match opos.checked_add(length) {
        Some(e) => e,
        None => return Err(PatchError::OffsetOutOfRange { offset: 0, max: tsize }),
    };
    if oend as u64 > tsize {
        return Err(PatchError::OffsetOutOfRange { offset: oend as u64, max: tsize });
    }
    if action == 0 {
        if oend > rom.len() {
            return Err(PatchError::OffsetOutOfRange { offset: oend as u64, max: rom.len() as u64 });
        }
        copy_into(out, opos, &rom[opos..oend]);
        Ok((oend, srel, trel))
    } else if action == 1 {
        let next = match r.pos().checked_add(length) {
            Some(n) => n,
            None => return Err(PatchError::Truncated),
        };
        if next > end {
            return Err(PatchError::Truncated);
        }
        let bytes = r.read_bytes(length)?;
        copy_into(out, opos, bytes);
        Ok((oend, srel, trel))
    } else if action == 2 {
        let delta = read_signed_vlv(r)?;
        let ns = match srel.checked_add(delta) {
            Some(v) => v,
            None => return Err(PatchError::InvalidEncoding),
        };
        if ns < 0 {
            return Err(PatchError::OffsetOutOfRange { offset: 0, max: rom.len() as u64 });
        }
        if ns as u64 > usize::MAX as u64 {
            return Err(PatchError::OffsetOutOfRange { offset: ns as u64, max: rom.len() as u64 });
        }
        let start = ns as usize;
        let copy_end = match start.checked_add(length) {
            Some(e) => e,
            None => return Err(
                PatchError::OffsetOutOfRange { offset: start as u64, max: rom.len() as u64 },
            ),
        };
        if copy_end > rom.len() {
            return Err(
                PatchError::OffsetOutOfRange { offset: copy_end as u64, max: rom.len() as u64 },
            );
        }
        copy_into(out, opos, &rom[start..copy_end]);
        if length as u64 > i64::MAX as u64 {
            return Err(PatchError::InvalidEncoding);
        }
        let ns2 = match ns.checked_add(length as i64) {
            Some(v) => v,
            None => return Err(PatchError::InvalidEncoding),
        };
        Ok((oend, ns2, trel))
    } else {
        let delta = read_signed_vlv(r)?;
        let nt = match trel.checked_add(delta) {
            Some(v) => v,
            None => return Err(PatchError::InvalidEncoding),
        };
        if nt < 0 {
            return Err(PatchError::OffsetOutOfRange { offset: 0, max: tsize });
        }
        if nt as u64 > usize::MAX as u64 {
            return Err(PatchError::OffsetOutOfRange { offset: nt as u64, max: tsize });
        }
        let start = nt as usize;
        if start >= opos {
            return Err(PatchError::OffsetOutOfRange { offset: start as u64, max: tsize });
        }
        rle_copy_into(out, opos, start, length);
        if length as u64 > i64::MAX as u64 {
            return Err(PatchError::InvalidEncoding);
        }
        let nt2 = match nt.checked_add(length as i64) {
            Some(v) => v,
            None => return Err(PatchError::InvalidEncoding),
        };
        Ok((oend, srel, nt2))
    }
}

/// Decodes a BPS patch against `rom` without the CRC-32 checks.
pub fn decode(patch: &[u8], rom: &[u8]) -> (res: Result<Vec<u8>>)
    ensures
        bytes_result(res) == decode_spec(patch@, rom@),
{
    if patch.len() < MAGIC.len() + FOOTER_LEN {
        return Err(PatchError::Truncated);
    }
    let mut r = BinReader::new(patch);
    let m = r.read_bytes(4)?;
    if !crate::buf::bytes_eq(m, &MAGIC) {
        proof {
            assert(MAGIC@ == magic());
        }
        return Err(PatchError::InvalidMagic);
    }
    proof {
        assert(MAGIC@ == magic());
    }
    let source_size = r.read_vlv()?;
    let target_size = r.read_vlv()?;
    let metadata_size = r.read_vlv()?;
    if rom.len() as u64 != source_size {
        return Err(PatchError::InputSizeMismatch { expected: source_size, actual: rom.len() as u64 });
    }
    let body_end = patch.len() - FOOTER_LEN;
    if metadata_size > usize::MAX as u64 {
        return Err(PatchError::OffsetOutOfRange { offset: metadata_size, max: body_end as u64 });
    }
    let after_metadata = match r.pos().checked_add(metadata_size as usize) {
        Some(a) => a,
        None => return Err(PatchError::Truncated),
    };
    if after_metadata > body_end {
        return Err(PatchError::Truncated);
    }
    let _ = r.read_bytes(metadata_size as usize)?;
    if target_size > usize::MAX as u64 {
        return Err(PatchError::OffsetOutOfRange { offset: target_size, max: usize::MAX as u64 });
    }
    if target_size > MAX_PATCH_OUTPUT_SIZE as u64 {
        return Err(
            PatchError::OutputTooLarge {
                declared: target_size,
                max: MAX_PATCH_OUTPUT_SIZE as u64,
            },
        );
    }
    let target_size_usize = target_size as usize;
    let mut output = zeros(target_size_usize);
    let mut output_offset: usize = 0;
    let mut srel: i64 = 0;
    let mut trel: i64 = 0;
    while r.pos() < body_end
        invariant
            r.data() == patch@,
            r.cursor() <= r.data().len(),
            body_end == patch@.len() - 12,
            output@.len() == target_size,
            output_offset <= target_size,
            decode_spec(patch@, rom@) == actions(
                patch@,
                r.cursor(),
                body_end as int,
                rom@,
                output@,
                output_offset as int,
                srel as int,
                trel as int,
                target_size,
            ),
        decreases patch@.len() - r.cursor(),
    {
        let ghost before = r.cursor();
        let ghost out_before = output@;
        let (o2, s2, t2) = apply_step(
            &mut r,
            body_end,
            rom,
            &mut output,
            output_offset,
            srel,
            trel,
            target_size,
        )?;
        proof {
            lemma_step_advances(
                patch@,
                before,
                body_end as int,
                rom@,
                out_before,
                output_offset as int,
                srel as int,
                trel as int,
                target_size,
            );
        }
        output_offset = o2;
        srel = s2;
        trel = t2;
    }
    if output_offset as u64 != target_size {
        return Err(PatchError::Truncated);
    }
    Ok(output)
}

/// Applies a BPS patch to `rom`, verifying the source, target and patch
/// CRC-32s from the footer.
pub fn apply(patch: &[u8], rom: &[u8]) -> (res: Result<Vec<u8>>)
    ensures
        bytes_result(res) == apply_spec(patch@, rom@),
{
    let output = decode(patch, rom)?;
    let source_crc = crc32(rom);
    let target_crc = crc32(&output);
    let patch_crc = crc32(&patch[0..patch.len() - 4]);
    check_crc_footer(patch, source_crc, target_crc, patch_crc)?;
    Ok(output)
}

} // verus!
