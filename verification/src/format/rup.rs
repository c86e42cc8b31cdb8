//! RUP / NINJA2.
//!
//! A 2 KiB header (magic `NINJA2` and fixed-width text fields), then a command
//! stream from offset 0x800:
//! - `0x01` opens a file scope: name, ROM type, source and target sizes,
//!   source and target MD5s, and, when the sizes differ, an overflow mode and
//!   overflow bytes (stored XOR 0xFF);
//! - `0x02` is an XOR record (offset, length, bytes) within a file scope;
//! - `0x00` ends a file scope, or, at top level, the patch.
//!
//! The file scope whose source MD5 matches the input ROM is applied; the
//! output must match that scope's target MD5. Numbers use RUP's own
//! variable-length encoding: a byte count (at most 8) followed by that many
//! little-endian bytes. Overflow mode `M` (target smaller than source) is not
//! supported.
use vstd::prelude::*;

use crate::bin_file::BinReader;
use crate::buf::{bytes_eq, copy_into, prefix_fill, prefix_filled, splice, xor_into, xor_onto};
use crate::error::{PatchError, Result};
use crate::hash::{md5, md5_of};
use crate::MAX_PATCH_OUTPUT_SIZE;

verus! {

/// `NINJA2`
const MAGIC: [u8; 6] = [0x4e, 0x49, 0x4e, 0x4a, 0x41, 0x32];

const HEADER_LEN: usize = 0x800;

const CMD_END: u8 = 0x00;

const CMD_OPEN_FILE: u8 = 0x01;

const CMD_XOR_RECORD: u8 = 0x02;

const MD5_LEN: usize = 16;

/// The message carried by the error for overflow mode `M`.
pub const UNDO_MODE_MESSAGE: &'static str = "RUP overflow mode 'M' (undo)";

/// The magic bytes `NINJA2`.
pub open spec fn magic() -> Seq<u8> {
    seq![0x4eu8, 0x49u8, 0x4eu8, 0x4au8, 0x41u8, 0x32u8]
}

/// The little-endian value of `s[start..start + n]`.
pub open spec fn le_bytes(s: Seq<u8>, start: int, n: int) -> nat
    decreases n,
{
    if n <= 0 {
        0
    } else {
        s[start] as nat + 256 * le_bytes(s, start + 1, n - 1)
    }
}

pub open spec fn pow256(n: nat) -> nat
    decreases n,
{
    if n == 0 {
        1
    } else {
        256 * pow256((n - 1) as nat)
    }
}

proof fn lemma_le_bytes_bound(s: Seq<u8>, start: int, n: nat)
    ensures
        le_bytes(s, start, n as int) < pow256(n),
    decreases n,
{
    if n > 0 {
        lemma_le_bytes_bound(s, start + 1, (n - 1) as nat);
    }
}

/// A RUP variable-length value at `pos`: the value and the position after it.
pub open spec fn rup_vlv(p: Seq<u8>, pos: int) -> Result<(u64, int)> {
    if pos < 0 || pos >= p.len() {
        Err(PatchError::Truncated)
    } else if p[pos] > 8 {
        Err(PatchError::InvalidEncoding)
    } else if pos + 1 + p[pos] > p.len() {
        Err(PatchError::Truncated)
    } else {
        Ok((le_bytes(p, pos + 1, p[pos] as int) as u64, pos + 1 + p[pos]))
    }
}

/// A file scope's header: source size, target size, source MD5, target MD5,
/// overflow mode and decoded overflow bytes.
struct FileHeader {
    source_size: u64,
    target_size: u64,
    source_md5: [u8; 16],
    target_md5: [u8; 16],
    overflow_mode: Option<u8>,
    overflow_data: Vec<u8>,
}

/// The header fields as plain values, with the position after the header.
spec fn header_model(h: FileHeader, next: int) -> (u64, u64, Seq<u8>, Seq<u8>, Option<u8>, Seq<u8>, int) {
    (h.source_size, h.target_size, h.source_md5@, h.target_md5@, h.overflow_mode, h.overflow_data@, next)
}

/// The file-scope header at `pos` (just after the open command) and the
/// position after it.
pub open spec fn file_header(p: Seq<u8>, pos: int) -> Result<
    (u64, u64, Seq<u8>, Seq<u8>, Option<u8>, Seq<u8>, int),
> {
    match rup_vlv(p, pos) {
        Err(e) => Err(e),
        Ok((name_len, p1)) => if name_len > usize::MAX {
            Err(PatchError::OffsetOutOfRange { offset: name_len, max: usize::MAX as u64 })
        } else if p1 + name_len + 1 > p.len() {
            Err(PatchError::Truncated)
        } else {
            match rup_vlv(p, p1 + name_len + 1) {
                Err(e) => Err(e),
                Ok((ssize, p4)) => match rup_vlv(p, p4) {
                    Err(e) => Err(e),
                    Ok((tsize, p5)) => if p5 + 32 > p.len() {
                        Err(PatchError::Truncated)
                    } else {
                        let smd5 = p.subrange(p5, p5 + 16);
                        let tmd5 = p.subrange(p5 + 16, p5 + 32);
                        let p6 = p5 + 32;
                        if ssize == tsize {
                            Ok((ssize, tsize, smd5, tmd5, None, Seq::empty(), p6))
                        } else if p6 + 1 > p.len() {
                            Err(PatchError::Truncated)
                        } else {
                            match rup_vlv(p, p6 + 1) {
                                Err(e) => Err(e),
                                Ok((olen, p7)) => if olen > usize::MAX {
                                    Err(
                                        PatchError::OffsetOutOfRange {
                                            offset: olen,
                                            max: usize::MAX as u64,
                                        },
                                    )
                                } else if p7 + olen > p.len() {
                                    Err(PatchError::Truncated)
                                } else {
                                    Ok(
                                        (
                                            ssize,
                                            tsize,
                                            smd5,
                                            tmd5,
                                            Some(p[p6]),
                                            p.subrange(p7, p7 + olen).map_values(|b: u8| b ^ 0xFF),
                                            p7 + olen,
                                        ),
                                    )
                                },
                            }
                        }
                    },
                },
            }
        },
    }
}

/// Skips the XOR records of a file scope from `pos` through its end command.
pub open spec fn skip_records(p: Seq<u8>, pos: int) -> Result<int>
    decreases p.len() - pos,
{
    if pos < 0 || pos >= p.len() {
        Err(PatchError::Truncated)
    } else if p[pos] == 0 {
        Ok(pos + 1)
    } else if p[pos] != 2 {
        Err(PatchError::InvalidEncoding)
    } else {
        match rup_vlv(p, pos + 1) {
            Err(e) => Err(e),
            Ok((_off, p1)) => match rup_vlv(p, p1) {
                Err(e) => Err(e),
                Ok((xlen, p2)) => if xlen > usize::MAX {
                    Err(PatchError::OffsetOutOfRange { offset: xlen, max: usize::MAX as u64 })
                } else if p2 + xlen > p.len() {
                    Err(PatchError::Truncated)
                } else {
                    skip_records(p, p2 + xlen)
                },
            },
        }
    }
}

/// Applies the XOR records of a file scope from `pos` through its end command.
pub open spec fn xor_records(p: Seq<u8>, pos: int, rom: Seq<u8>, out: Seq<u8>, tsize: u64) -> Result<
    Seq<u8>,
>
    decreases p.len() - pos,
{
    if pos < 0 || pos >= p.len() {
        Err(PatchError::Truncated)
    } else if p[pos] == 0 {
        Ok(out)
    } else if p[pos] != 2 {
        Err(PatchError::InvalidEncoding)
    } else {
        match rup_vlv(p, pos + 1) {
            Err(e) => Err(e),
            Ok((off, p1)) => match rup_vlv(p, p1) {
                Err(e) => Err(e),
                Ok((xlen, p2)) => if off > usize::MAX {
                    Err(PatchError::OffsetOutOfRange { offset: off, max: tsize })
                } else if xlen > usize::MAX {
                    Err(PatchError::OffsetOutOfRange { offset: xlen, max: tsize })
                } else if p2 + xlen > p.len() {
                    Err(PatchError::Truncated)
                } else if off + xlen > usize::MAX {
                    Err(PatchError::OffsetOutOfRange { offset: off, max: tsize })
                } else if off + xlen > tsize {
                    Err(PatchError::OffsetOutOfRange { offset: (off + xlen) as u64, max: tsize })
                } else {
                    xor_records(
                        p,
                        p2 + xlen,
                        rom,
                        splice(out, off as int, xor_onto(rom, off as int, p.subrange(p2, p2 + xlen))),
                        tsize,
                    )
                },
            },
        }
    }
}

pub open spec fn min(a: int, b: int) -> int {
    if a < b {
        a
    } else {
        b
    }
}

/// The output of the selected file scope, before the MD5 check: the source
/// copied up to the smaller size, overflow bytes past the source size (mode
/// `A`), then the XOR records from `pos`.
pub open spec fn file_output(
    p: Seq<u8>,
    pos: int,
    h: (u64, u64, Seq<u8>, Seq<u8>, Option<u8>, Seq<u8>, int),
    rom: Seq<u8>,
) -> Result<Seq<u8>> {
    let (ssize, tsize, _smd5, _tmd5, mode, data, _next) = h;
    if tsize > usize::MAX {
        Err(PatchError::OffsetOutOfRange { offset: tsize, max: usize::MAX as u64 })
    } else if tsize > MAX_PATCH_OUTPUT_SIZE {
        Err(PatchError::OutputTooLarge { declared: tsize, max: MAX_PATCH_OUTPUT_SIZE as u64 })
    } else if ssize > usize::MAX {
        Err(PatchError::OffsetOutOfRange { offset: ssize, max: usize::MAX as u64 })
    } else {
        let base = prefix_fill(rom.take(min(ssize as int, rom.len() as int)), tsize as int);
        let filled: Result<Seq<u8>> = match mode {
            None => Ok(base),
            Some(m) => if m == 0x41 {
                if tsize <= ssize {
                    Err(PatchError::InvalidEncoding)
                } else {
                    let take = min(ssize + data.len(), tsize as int) - ssize;
                    Ok(splice(base, ssize as int, data.take(take)))
                }
            } else if m == 0x4d {
                Err(PatchError::UnsupportedFeature(UNDO_MODE_MESSAGE))
            } else {
                Err(PatchError::InvalidEncoding)
            },
        };
        match filled {
            Err(e) => Err(e),
            Ok(out) => xor_records(p, pos, rom, out, tsize),
        }
    }
}

/// Walks the file scopes from `pos` to the one whose source MD5 is `rom_md5`;
/// gives its output (before the MD5 check) and its target MD5.
pub open spec fn files(p: Seq<u8>, pos: int, rom: Seq<u8>, rom_md5: Seq<u8>) -> Result<
    (Seq<u8>, Seq<u8>),
>
    decreases p.len() - pos,
    via files_decreases
{
    if pos < 0 || pos >= p.len() {
        Err(PatchError::Truncated)
    } else if p[pos] == 0 {
        Err(PatchError::NoMatchingFile)
    } else if p[pos] != 1 {
        Err(PatchError::InvalidEncoding)
    } else {
        match file_header(p, pos + 1) {
            Err(e) => Err(e),
            Ok(h) => if h.2 == rom_md5 {
                match file_output(p, h.6, h, rom) {
                    Err(e) => Err(e),
                    Ok(out) => Ok((out, h.3)),
                }
            } else {
                match skip_records(p, h.6) {
                    Err(e) => Err(e),
                    Ok(next) => files(p, next, rom, rom_md5),
                }
            },
        }
    }
}

/// Everything but the final MD5 check, with the MD5 of the ROM given.
pub open spec fn decode_spec(patch: Seq<u8>, rom: Seq<u8>, rom_md5: Seq<u8>) -> Result<
    (Seq<u8>, Seq<u8>),
> {
    if patch.len() < 0x800 {
        Err(PatchError::Truncated)
    } else if patch.take(6) != magic() {
        Err(PatchError::InvalidMagic)
    } else {
        files(patch, 0x800, rom, rom_md5)
    }
}

#[via_fn]
proof fn files_decreases(p: Seq<u8>, pos: int, rom: Seq<u8>, rom_md5: Seq<u8>) {
    lemma_file_header_advances(p, pos + 1);
    if let Ok(h) = file_header(p, pos + 1) {
        lemma_skip_records_advances(p, h.6);
    }
}

proof fn lemma_file_header_advances(p: Seq<u8>, pos: int)
    ensures
        file_header(p, pos) matches Ok(h) ==> pos < h.6 <= p.len(),
{
}

proof fn lemma_skip_records_advances(p: Seq<u8>, pos: int)
    ensures
        skip_records(p, pos) matches Ok(next) ==> pos < next <= p.len(),
    decreases p.len() - pos,
{
    if 0 <= pos < p.len() && p[pos] == 2 {
        if let Ok((_o, p1)) = rup_vlv(p, pos + 1) {
            if let Ok((xlen, p2)) = rup_vlv(p, p1) {
                if xlen <= usize::MAX && p2 + xlen <= p.len() {
                    lemma_skip_records_advances(p, p2 + xlen);
                }
            }
        }
    }
}

/// The RUP semantics: the output of the file scope that matches the ROM's
/// MD5, accepted only when its own MD5 is the scope's target MD5; `r` is the
/// result of applying `patch` to `rom`.
pub open spec fn apply_relation(patch: Seq<u8>, rom: Seq<u8>, r: Result<Seq<u8>>) -> bool {
    match decode_spec(patch, rom, md5_of(rom)) {
        Err(e) => r == Err::<Seq<u8>, PatchError>(e),
        Ok((out, target_md5)) => if md5_of(out) != target_md5 {
            r matches Err(PatchError::OutputMd5Mismatch { expected, actual }) && expected@
                == target_md5 && actual@ == md5_of(out)
        } else {
            r == Ok::<Seq<u8>, PatchError>(out)
        },
    }
}


proof fn lemma_xor_records_len(p: Seq<u8>, pos: int, rom: Seq<u8>, out: Seq<u8>, tsize: u64)
    requires
        out.len() == tsize,
    ensures
        xor_records(p, pos, rom, out, tsize) matches Ok(r) ==> r.len() == tsize,
    decreases p.len() - pos,
{
    if 0 <= pos < p.len() && p[pos] == 2 {
        if let Ok((off, p1)) = rup_vlv(p, pos + 1) {
            if let Ok((xlen, p2)) = rup_vlv(p, p1) {
                if p2 + xlen <= p.len() && off + xlen <= tsize {
                    let data = xor_onto(rom, off as int, p.subrange(p2, p2 + xlen));
                    assert(data.len() == xlen);
                    lemma_xor_records_len(
                        p,
                        p2 + xlen,
                        rom,
                        splice(out, off as int, data),
                        tsize,
                    );
                }
            }
        }
    }
}

proof fn lemma_file_output_len(
    p: Seq<u8>,
    pos: int,
    h: (u64, u64, Seq<u8>, Seq<u8>, Option<u8>, Seq<u8>, int),
    rom: Seq<u8>,
)
    ensures
        file_output(p, pos, h, rom) matches Ok(r) ==> r.len() == h.1 && h.1
            <= MAX_PATCH_OUTPUT_SIZE,
{
    let (ssize, tsize, _smd5, _tmd5, mode, data, _next) = h;
    if tsize <= MAX_PATCH_OUTPUT_SIZE && ssize <= usize::MAX {
        let base = prefix_fill(rom.take(min(ssize as int, rom.len() as int)), tsize as int);
        if let Some(m) = mode {
            if m == 0x41 && tsize > ssize {
                let take = min(ssize + data.len(), tsize as int) - ssize;
                assert(splice(base, ssize as int, data.take(take)).len() == tsize);
                lemma_xor_records_len(p, pos, rom, splice(base, ssize as int, data.take(take)), tsize);
            }
        } else {
            lemma_xor_records_len(p, pos, rom, base, tsize);
        }
    }
}

proof fn lemma_files_len(p: Seq<u8>, pos: int, rom: Seq<u8>, rom_md5: Seq<u8>)
    ensures
        files(p, pos, rom, rom_md5) matches Ok(r) ==> r.0.len() <= MAX_PATCH_OUTPUT_SIZE,
    decreases p.len() - pos,
{
    if 0 <= pos < p.len() && p[pos] == 1 {
        lemma_file_header_advances(p, pos + 1);
        if let Ok(h) = file_header(p, pos + 1) {
            if h.2 == rom_md5 {
                lemma_file_output_len(p, h.6, h, rom);
            } else {
                lemma_skip_records_advances(p, h.6);
                if let Ok(next) = skip_records(p, h.6) {
                    lemma_files_len(p, next, rom, rom_md5);
                }
            }
        }
    }
}

/// A RUP patch never yields more than `MAX_PATCH_OUTPUT_SIZE` bytes: the
/// output has the target size its file scope declares, and a larger one is
/// refused.
pub proof fn lemma_output_bounded(patch: Seq<u8>, rom: Seq<u8>, r: Result<Seq<u8>>)
    requires
        apply_relation(patch, rom, r),
    ensures
        r matches Ok(out) ==> out.len() <= MAX_PATCH_OUTPUT_SIZE,
{
    if patch.len() >= 0x800 && patch.take(6) == magic() {
        lemma_files_len(patch, 0x800, rom, md5_of(rom));
    }
}

/// In a file-scope header, an overflow mode is present exactly when the
/// source and target sizes differ.
pub proof fn lemma_mode_present_iff_sizes_differ(p: Seq<u8>, pos: int)
    ensures
        file_header(p, pos) matches Ok(h) ==> (h.4 is None <==> h.0 == h.1),
{
}

/// The overflow mode of the selected scope decides its output: mode `M` is
/// refused as unsupported, a mode other than `A` or `M` is invalid, mode `A`
/// needs a target larger than the source, and an output that is given has
/// the declared target size and came from no mode or from mode `A` growing
/// the source.
pub proof fn lemma_overflow_mode(
    p: Seq<u8>,
    pos: int,
    h: (u64, u64, Seq<u8>, Seq<u8>, Option<u8>, Seq<u8>, int),
    rom: Seq<u8>,
)
    requires
        h.1 <= MAX_PATCH_OUTPUT_SIZE,
        h.0 <= usize::MAX,
    ensures
        h.4 == Some(0x4du8) ==> file_output(p, pos, h, rom) == Err::<Seq<u8>, PatchError>(
            PatchError::UnsupportedFeature(UNDO_MODE_MESSAGE),
        ),
        (h.4 matches Some(m) && m != 0x41 && m != 0x4d) ==> file_output(p, pos, h, rom)
            == Err::<Seq<u8>, PatchError>(PatchError::InvalidEncoding),
        (h.4 == Some(0x41u8) && h.1 <= h.0) ==> file_output(p, pos, h, rom) == Err::<
            Seq<u8>,
            PatchError,
        >(PatchError::InvalidEncoding),
        file_output(p, pos, h, rom) matches Ok(out) ==> out.len() == h.1 && (h.4 is None || (h.4
            == Some(0x41u8) && h.1 > h.0)),
{
    lemma_file_output_len(p, pos, h, rom);
}

/// Scope `q` is an open command whose header names `rom_md5` as its source
/// and `target_md5` as its target, and whose records build `out`.
pub open spec fn scope_yields(
    p: Seq<u8>,
    q: int,
    rom: Seq<u8>,
    rom_md5: Seq<u8>,
    out: Seq<u8>,
    target_md5: Seq<u8>,
) -> bool {
    &&& 0 <= q < p.len()
    &&& p[q] == 1
    &&& file_header(p, q + 1) matches Ok(h)
    &&& h.2 == rom_md5
    &&& h.3 == target_md5
    &&& file_output(p, h.6, h, rom) == Ok::<Seq<u8>, PatchError>(out)
}

/// The source MD5s of the file scopes from `pos` up to the closing command,
/// walking every scope whatever it matches.
pub open spec fn scope_sources(p: Seq<u8>, pos: int) -> Result<Seq<Seq<u8>>>
    decreases p.len() - pos,
    via scope_sources_decreases
{
    if pos < 0 || pos >= p.len() {
        Err(PatchError::Truncated)
    } else if p[pos] == 0 {
        Ok(Seq::empty())
    } else if p[pos] != 1 {
        Err(PatchError::InvalidEncoding)
    } else {
        match file_header(p, pos + 1) {
            Err(e) => Err(e),
            Ok(h) => match skip_records(p, h.6) {
                Err(e) => Err(e),
                Ok(next) => match scope_sources(p, next) {
                    Err(e) => Err(e),
                    Ok(rest) => Ok(seq![h.2].add(rest)),
                },
            },
        }
    }
}

#[via_fn]
proof fn scope_sources_decreases(p: Seq<u8>, pos: int) {
    lemma_file_header_advances(p, pos + 1);
    if let Ok(h) = file_header(p, pos + 1) {
        lemma_skip_records_advances(p, h.6);
    }
}

/// Some scope at or after `pos` yields `out` with target MD5 `t`.
pub open spec fn yielding_scope_from(
    p: Seq<u8>,
    pos: int,
    rom: Seq<u8>,
    rom_md5: Seq<u8>,
    out: Seq<u8>,
    t: Seq<u8>,
) -> bool {
    exists|q: int| pos <= q && #[trigger] scope_yields(p, q, rom, rom_md5, out, t)
}

proof fn lemma_files_ok(p: Seq<u8>, pos: int, rom: Seq<u8>, rom_md5: Seq<u8>)
    ensures
        files(p, pos, rom, rom_md5) is Ok ==> yielding_scope_from(
            p,
            pos,
            rom,
            rom_md5,
            files(p, pos, rom, rom_md5)->Ok_0.0,
            files(p, pos, rom, rom_md5)->Ok_0.1,
        ),
    decreases p.len() - pos,
{
    if 0 <= pos < p.len() && p[pos] == 1 {
        lemma_file_header_advances(p, pos + 1);
        if let Ok(h) = file_header(p, pos + 1) {
            if h.2 == rom_md5 {
                if let Ok(out) = file_output(p, h.6, h, rom) {
                    assert(scope_yields(p, pos, rom, rom_md5, out, h.3));
                }
            } else {
                lemma_skip_records_advances(p, h.6);
                if let Ok(next) = skip_records(p, h.6) {
                    lemma_files_ok(p, next, rom, rom_md5);
                    assert(files(p, pos, rom, rom_md5) == files(p, next, rom, rom_md5));
                    if let Ok((out, t)) = files(p, next, rom, rom_md5) {
                        let q = choose|q: int|
                            next <= q && #[trigger] scope_yields(p, q, rom, rom_md5, out, t);
                        assert(scope_yields(p, q, rom, rom_md5, out, t));
                    }
                }
            }
        }
    }
}

proof fn lemma_files_no_match(p: Seq<u8>, pos: int, rom: Seq<u8>, rom_md5: Seq<u8>)
    requires
        scope_sources(p, pos) matches Ok(srcs) && !srcs.contains(rom_md5),
    ensures
        files(p, pos, rom, rom_md5) == Err::<(Seq<u8>, Seq<u8>), PatchError>(
            PatchError::NoMatchingFile,
        ),
    decreases p.len() - pos,
{
    if p[pos] == 1 {
        lemma_file_header_advances(p, pos + 1);
        let h = file_header(p, pos + 1)->Ok_0;
        let srcs = scope_sources(p, pos)->Ok_0;
        assert(srcs[0] == h.2);
        lemma_skip_records_advances(p, h.6);
        let next = skip_records(p, h.6)->Ok_0;
        let rest = scope_sources(p, next)->Ok_0;
        assert forall|i: int| 0 <= i < rest.len() implies rest[i] != rom_md5 by {
            assert(srcs[i + 1] == rest[i]);
        }
        lemma_files_no_match(p, next, rom, rom_md5);
    }
}

/// A RUP success comes from a file scope whose source MD5 is the ROM's MD5:
/// the output has that scope's target size and its MD5 is the scope's target
/// MD5.
pub proof fn lemma_success_from_matching_scope(patch: Seq<u8>, rom: Seq<u8>, out: Seq<u8>)
    requires
        apply_relation(patch, rom, Ok(out)),
    ensures
        patch.len() >= 0x800,
        patch.take(6) == magic(),
        yielding_scope_from(patch, 0x800, rom, md5_of(rom), out, md5_of(out)),
        forall|q: int| #[trigger]
            scope_yields(patch, q, rom, md5_of(rom), out, md5_of(out)) ==> (file_header(
                patch,
                q + 1,
            ) matches Ok(h) && out.len() == h.1),
{
    lemma_files_ok(patch, 0x800, rom, md5_of(rom));
    assert forall|q: int| #[trigger]
        scope_yields(patch, q, rom, md5_of(rom), out, md5_of(out)) implies (file_header(
        patch,
        q + 1,
    ) matches Ok(h) && out.len() == h.1) by {
        let h = file_header(patch, q + 1)->Ok_0;
        lemma_file_output_len(patch, h.6, h, rom);
    }
}

/// When every file scope of a well-formed command stream names a source MD5
/// other than the ROM's, the patch is refused with `NoMatchingFile`.
pub proof fn lemma_no_matching_scope(patch: Seq<u8>, rom: Seq<u8>, r: Result<Seq<u8>>)
    requires
        patch.len() >= 0x800,
        patch.take(6) == magic(),
        scope_sources(patch, 0x800) matches Ok(srcs) && !srcs.contains(md5_of(rom)),
        apply_relation(patch, rom, r),
    ensures
        r == Err::<Seq<u8>, PatchError>(PatchError::NoMatchingFile),
{
    lemma_files_no_match(patch, 0x800, rom, md5_of(rom));
}

proof fn lemma_pow256_mono(a: nat, b: nat)
    requires
        a <= b,
    ensures
        pow256(a) <= pow256(b),
    decreases b,
{
    if a < b {
        lemma_pow256_mono(a, (b - 1) as nat);
    }
}

/// Reads a RUP variable-length value.
fn read_rup_vlv(r: &mut BinReader<'_>) -> (res: Result<u64>)
    requires
        0 <= old(r).cursor() <= old(r).data().len(),
    ensures
        final(r).data() == old(r).data(),
        0 <= final(r).cursor() <= final(r).data().len(),
        match rup_vlv(old(r).data(), old(r).cursor()) {
            Ok((v, next)) => res == Ok::<u64, PatchError>(v) && final(r).cursor() == next,
            Err(e) => res == Err::<u64, PatchError>(e),
        },
{
    let ghost p = r.data();
    let ghost start = r.cursor() + 1;
    let n = r.read_u8()? as usize;
    if n > 8 {
        return Err(PatchError::InvalidEncoding);
    }
    let bytes = r.read_bytes(n)?;
    let mut value: u64 = 0;
    let mut i = n;
    proof {
        assert(pow256(8) == 0x1_0000_0000_0000_0000) by {
            reveal_with_fuel(pow256, 9);
        }
    }
    while i > 0
        invariant
            i <= n <= 8,
            0 <= start,
            start + n <= p.len(),
            bytes@ == p.subrange(start, start + n),
            bytes@.len() == n,
            value == le_bytes(p, start + i, n - i),
            value < pow256((n - i) as nat),
            pow256(8) == 0x1_0000_0000_0000_0000,
        decreases i,
    {
        proof {
            lemma_pow256_mono((n - i + 1) as nat, 8);
            assert(pow256((n - i + 1) as nat) == 256 * pow256((n - i) as nat));
        }
        i = i - 1;
        assert(bytes@[i as int] == p[start + i]);
        value = value * 256 + bytes[i] as u64;
    }
    proof {
        lemma_le_bytes_bound(p, start, n as nat);
    }
    Ok(value)
}

/// The first 16 bytes of `s` as an array.
fn md5_array(s: &[u8]) -> (a: [u8; 16])
    requires
        s@.len() == 16,
    ensures
        a@ == s@,
{
    let mut a = [0u8; 16];
    let mut i: usize = 0;
    while i < 16
        invariant
            i <= 16,
            s@.len() == 16,
            forall|j: int| 0 <= j < i ==> a@[j] == s@[j],
        decreases 16 - i,
    {
        a[i] = s[i];
        i = i + 1;
    }
    proof {
        assert(a@ =~= s@);
    }
    a
}

/// `bytes` with every byte XOR 0xFF.
fn invert_bytes(bytes: &[u8]) -> (v: Vec<u8>)
    ensures
        v@ == bytes@.map_values(|b: u8| b ^ 0xFF),
{
    let mut v: Vec<u8> = Vec::new();
    let mut i: usize = 0;
    while i < bytes.len()
        invariant
            i <= bytes@.len(),
            v@ == bytes@.take(i as int).map_values(|b: u8| b ^ 0xFF),
        decreases bytes@.len() - i,
    {
        v.push(bytes[i] ^ 0xFF);
        proof {
            assert(v@ =~= bytes@.take(i + 1).map_values(|b: u8| b ^ 0xFF));
        }
        i = i + 1;
    }
    proof {
        assert(bytes@.take(bytes@.len() as int) =~= bytes@);
    }
    v
}

/// Reads a file-scope header (after the open command).
fn read_file_header(r: &mut BinReader<'_>) -> (res: Result<FileHeader>)
    requires
        0 <= old(r).cursor() <= old(r).data().len(),
    ensures
        final(r).data() == old(r).data(),
        0 <= final(r).cursor() <= final(r).data().len(),
        match res {
            Ok(h) => file_header(old(r).data(), old(r).cursor()) == Ok::<
                (u64, u64, Seq<u8>, Seq<u8>, Option<u8>, Seq<u8>, int),
                PatchError,
            >(header_model(h, final(r).cursor())),
            Err(e) => file_header(old(r).data(), old(r).cursor()) == Err::<
                (u64, u64, Seq<u8>, Seq<u8>, Option<u8>, Seq<u8>, int),
                PatchError,
            >(e),
        },
{
    let filename_len = read_rup_vlv(r)?;
    if filename_len > usize::MAX as u64 {
        return Err(PatchError::OffsetOutOfRange { offset: filename_len, max: usize::MAX as u64 });
    }
    let _filename = r.read_bytes(filename_len as usize)?;
    let _rom_type = r.read_u8()?;
    let source_size = read_rup_vlv(r)?;
    let target_size = read_rup_vlv(r)?;
    let source_md5 = md5_array(r.read_bytes(MD5_LEN)?);
    let target_md5 = md5_array(r.read_bytes(MD5_LEN)?);
    if source_size == target_size {
        return Ok(
            FileHeader {
                source_size,
                target_size,
                source_md5,
                target_md5,
                overflow_mode: None,
                overflow_data: Vec::new(),
            },
        );
    }
    let mode = r.read_u8()?;
    let len = read_rup_vlv(r)?;
    if len > usize::MAX as u64 {
        return Err(PatchError::OffsetOutOfRange { offset: len, max: usize::MAX as u64 });
    }
    let raw = r.read_bytes(len as usize)?;
    let overflow_data = invert_bytes(raw);
    Ok(
        FileHeader {
            source_size,
            target_size,
            source_md5,
            target_md5,
            overflow_mode: Some(mode),
            overflow_data,
        },
    )
}

/// Skips the records of a file scope starting at `pos`; gives the position
/// after its end command.
fn skip_file_records(patch: &[u8], pos: usize) -> (res: Result<usize>)
    requires
        pos <= patch@.len(),
    ensures
        match res {
            Ok(next) => skip_records(patch@, pos as int) == Ok::<int, PatchError>(next as int),
            Err(e) => skip_records(patch@, pos as int) == Err::<int, PatchError>(e),
        },
{
    let mut r = BinReader::new(patch);
    r.seek(pos)?;
    loop
        invariant
            r.data() == patch@,
            0 <= r.cursor() <= patch@.len(),
            skip_records(patch@, pos as int) == skip_records(patch@, r.cursor()),
        decreases patch@.len() - r.cursor(),
    {
        let sub = r.read_u8()?;
        if sub == CMD_END {
            return Ok(r.pos());
        }
        if sub != CMD_XOR_RECORD {
            return Err(PatchError::InvalidEncoding);
        }
        let _offset = read_rup_vlv(&mut r)?;
        let xor_len = read_rup_vlv(&mut r)?;
        if xor_len > usize::MAX as u64 {
            return Err(PatchError::OffsetOutOfRange { offset: xor_len, max: usize::MAX as u64 });
        }
        let _ = r.read_bytes(xor_len as usize)?;
    }
}

/// Builds the output of the selected file scope, whose records start at
/// `pos`, before the MD5 check.
fn apply_file(patch: &[u8], pos: usize, file: &FileHeader, rom: &[u8]) -> (res: Result<Vec<u8>>)
    requires
        pos <= patch@.len(),
    ensures
        crate::error::bytes_result(res) == file_output(
            patch@,
            pos as int,
            header_model(*file, pos as int),
            rom@,
        ),
{
    if file.target_size > usize::MAX as u64 {
        return Err(
            PatchError::OffsetOutOfRange { offset: file.target_size, max: usize::MAX as u64 },
        );
    }
    let target_size = file.target_size as usize;
    if target_size > MAX_PATCH_OUTPUT_SIZE {
        return Err(
            PatchError::OutputTooLarge {
                declared: file.target_size,
                max: MAX_PATCH_OUTPUT_SIZE as u64,
            },
        );
    }
    if file.source_size > usize::MAX as u64 {
        return Err(
            PatchError::OffsetOutOfRange { offset: file.source_size, max: usize::MAX as u64 },
        );
    }
    let source_size = file.source_size as usize;
    let src_len = if source_size < rom.len() {
        source_size
    } else {
        rom.len()
    };
    let mut output = prefix_filled(&rom[0..src_len], target_size);
    match file.overflow_mode {
        None => {},
        Some(mode) => {
            if mode == 0x41 {
                if file.target_size <= file.source_size {
                    return Err(PatchError::InvalidEncoding);
                }
                let start = source_size;
                let end0 = start.saturating_add(file.overflow_data.len());
                let end = if end0 < target_size {
                    end0
                } else {
                    target_size
                };
                let take = end - start;
                copy_into(&mut output, start, &file.overflow_data.as_slice()[0..take]);
            } else if mode == 0x4d {
                return Err(PatchError::UnsupportedFeature(UNDO_MODE_MESSAGE));
            } else {
                return Err(PatchError::InvalidEncoding);
            }
        },
    }
    let mut r = BinReader::new(patch);
    r.seek(pos)?;
    loop
        invariant
            r.data() == patch@,
            0 <= r.cursor() <= patch@.len(),
            output@.len() == target_size,
            target_size == file.target_size,
            file_output(patch@, pos as int, header_model(*file, pos as int), rom@)
                == xor_records(patch@, r.cursor(), rom@, output@, file.target_size),
        decreases patch@.len() - r.cursor(),
    {
        let sub = r.read_u8()?;
        if sub == CMD_END {
            return Ok(output);
        }
        if sub != CMD_XOR_RECORD {
            return Err(PatchError::InvalidEncoding);
        }
        let offset = read_rup_vlv(&mut r)?;
        let xor_len = read_rup_vlv(&mut r)?;
        if offset > usize::MAX as u64 {
            return Err(PatchError::OffsetOutOfRange { offset, max: target_size as u64 });
        }
        if xor_len > usize::MAX as u64 {
            return Err(PatchError::OffsetOutOfRange { offset: xor_len, max: target_size as u64 });
        }
        let xor = r.read_bytes(xor_len as usize)?;
        let end = match (offset as usize).checked_add(xor_len as usize) {
            Some(e) => e,
            None => return Err(PatchError::OffsetOutOfRange { offset, max: target_size as u64 }),
        };
        if end > target_size {
            return Err(PatchError::OffsetOutOfRange { offset: end as u64, max: target_size as u64 });
        }
        xor_into(&mut output, offset as usize, rom, xor);
    }
}

/// Decodes a RUP patch against `rom`, whose MD5 is `rom_md5`: the output of
/// the matching file scope and that scope's target MD5, before the MD5 check.
pub fn decode(patch: &[u8], rom: &[u8], rom_md5: &[u8; 16]) -> (res: Result<(Vec<u8>, [u8; 16])>)
    ensures
        match res {
            Ok((out, target_md5)) => decode_spec(patch@, rom@, rom_md5@) == Ok::<
                (Seq<u8>, Seq<u8>),
                PatchError,
            >((out@, target_md5@)),
            Err(e) => decode_spec(patch@, rom@, rom_md5@) == Err::<(Seq<u8>, Seq<u8>), PatchError>(
                e,
            ),
        },
{
    if patch.len() < HEADER_LEN {
        return Err(PatchError::Truncated);
    }
    let mut r = BinReader::new(patch);
    let m = r.read_bytes(6)?;
    proof {
        assert(MAGIC@ == magic());
    }
    if !bytes_eq(m, &MAGIC) {
        return Err(PatchError::InvalidMagic);
    }
    r.seek(HEADER_LEN)?;
    loop
        invariant
            r.data() == patch@,
            0 <= r.cursor() <= patch@.len(),
            decode_spec(patch@, rom@, rom_md5@) == files(patch@, r.cursor(), rom@, rom_md5@),
        decreases patch@.len() - r.cursor(),
    {
        let ghost at = r.cursor();
        let cmd = r.read_u8()?;
        if cmd == CMD_END {
            return Err(PatchError::NoMatchingFile);
        }
        if cmd != CMD_OPEN_FILE {
            return Err(PatchError::InvalidEncoding);
        }
        let file = read_file_header(&mut r)?;
        let next = r.pos();
        if bytes_eq(&file.source_md5, rom_md5) {
            let out = apply_file(patch, next, &file, rom)?;
            return Ok((out, file.target_md5));
        }
        let after = skip_file_records(patch, next)?;
        proof {
            lemma_file_header_advances(patch@, at + 1);
            lemma_skip_records_advances(patch@, next as int);
        }
        r.seek(after)?;
    }
}

/// Applies a RUP patch to `rom`: picks the file scope matching the ROM's MD5
/// and checks the output against that scope's target MD5.
pub fn apply(patch: &[u8], rom: &[u8]) -> (res: Result<Vec<u8>>)
    ensures
        apply_relation(patch@, rom@, crate::error::bytes_result(res)),
{
    let rom_md5 = md5(rom);
    let (output, target_md5) = decode(patch, rom, &rom_md5)?;
    let actual = md5(&output);
    if !bytes_eq(&actual, &target_md5) {
        return Err(PatchError::OutputMd5Mismatch { expected: target_md5, actual });
    }
    Ok(output)
}

} // verus!
