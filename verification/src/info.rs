//! Format-agnostic "describe a patch" helpers.
//!
//! Each `describe` result is best-effort: only the header is parsed, block
//! bodies are never decompressed, and whatever metadata is cheap to extract
//! is reported. Anything below the magic level is left to the
//! format-specific `apply` functions.
use vstd::prelude::*;

use crate::bin_file::{be32, be32_at, le32, le32_at, vlv_at, BinReader};
use crate::error::{PatchError, Result};
use crate::format::bdf::{offset_at, read_offset};
use crate::format::{detect_spec, FormatKind};
use crate::text::{
    bool_string, bool_text, dec_int, dec_of, dec_string, hex_of, hex_u32, push_dec_i64, push_hex,
    push_hex_u32, push_str, trimmed_string, trimmed_text, utf8_lossy, utf8_lossy_of,
};

verus! {

/// What `describe` reports of a patch.
#[derive(Debug, Clone)]
pub struct PatchInfo {
    pub format: FormatKind,
    pub patch_size: u64,
    pub fields: Vec<(String, String)>,
}

/// Labelled fields seen as pairs of character sequences.
pub open spec fn fields_view(v: Seq<(String, String)>) -> Seq<(Seq<char>, Seq<char>)> {
    v.map_values(|p: (String, String)| (p.0@, p.1@))
}

/// A field whose label and value are given as character sequences.
pub open spec fn fld(key: &str, value: Seq<char>) -> (Seq<char>, Seq<char>) {
    (key@, value)
}

/// `0x` and two hex digits (`{:#04x}`).
pub open spec fn hex8_text(b: u8) -> Seq<char> {
    "0x"@ + hex_of(seq![b])
}

/// The fields shown for a UPS patch: the two sizes and the three CRC-32s of
/// the footer.
pub open spec fn ups_fields(p: Seq<u8>) -> Result<Seq<(Seq<char>, Seq<char>)>> {
    if p.len() < 16 {
        Err(PatchError::Truncated)
    } else {
        let (input, pos) = vlv_at(p, 4);
        match input {
            Err(e) => Err(e),
            Ok(input_size) => match vlv_at(p, pos).0 {
                Err(e) => Err(e),
                Ok(output_size) => Ok(
                    seq![
                        fld("input size", dec_of(input_size as nat)),
                        fld("output size", dec_of(output_size as nat)),
                        fld("input CRC32", hex_u32(le32(p, p.len() - 12) as u32)),
                        fld("output CRC32", hex_u32(le32(p, p.len() - 8) as u32)),
                        fld("patch CRC32", hex_u32(le32(p, p.len() - 4) as u32)),
                    ],
                ),
            },
        }
    }
}

/// The metadata text of a BPS patch whose metadata length field ends at
/// `pos`: decoded when it is non-empty and lies before the footer.
pub open spec fn bps_metadata(p: Seq<u8>, pos: int, size: u64) -> Seq<char> {
    let len: int = if size <= usize::MAX {
        size as int
    } else {
        0
    };
    if len > 0 && pos + len <= p.len() - 12 {
        utf8_lossy_of(p.subrange(pos, pos + len))
    } else {
        Seq::empty()
    }
}

/// The fields shown for a BPS patch: sizes, metadata and footer CRC-32s.
pub open spec fn bps_fields(p: Seq<u8>) -> Result<Seq<(Seq<char>, Seq<char>)>> {
    if p.len() < 16 {
        Err(PatchError::Truncated)
    } else {
        let (a, pos1) = vlv_at(p, 4);
        let (b, pos2) = vlv_at(p, pos1);
        let (c, pos3) = vlv_at(p, pos2);
        match a {
            Err(e) => Err(e),
            Ok(source_size) => match b {
                Err(e) => Err(e),
                Ok(target_size) => match c {
                    Err(e) => Err(e),
                    Ok(metadata_size) => {
                        let meta = bps_metadata(p, pos3, metadata_size);
                        Ok(
                            seq![
                                fld("source size", dec_of(source_size as nat)),
                                fld("target size", dec_of(target_size as nat)),
                                fld("metadata size", dec_of(metadata_size as nat)),
                            ] + (if meta.len() > 0 {
                                seq![fld("metadata", meta)]
                            } else {
                                Seq::empty()
                            }) + seq![
                                fld("source CRC32", hex_u32(le32(p, p.len() - 12) as u32)),
                                fld("target CRC32", hex_u32(le32(p, p.len() - 8) as u32)),
                                fld("patch CRC32", hex_u32(le32(p, p.len() - 4) as u32)),
                            ],
                        )
                    },
                },
            },
        }
    }
}

/// The ROM that every PMSR patch expects.
pub open spec fn pmsr_expected_rom() -> Seq<char> {
    "Paper Mario USA1.0 (41,943,040 bytes, CRC32 a7f5cd7e)"@
}

/// The fields shown for a PMSR patch.
pub open spec fn pmsr_fields(p: Seq<u8>) -> Result<Seq<(Seq<char>, Seq<char>)>> {
    if p.len() < 8 {
        Err(PatchError::Truncated)
    } else {
        Ok(
            seq![
                fld("record count", dec_of(be32(p, 4) as nat)),
                fld("expected ROM", pmsr_expected_rom()),
            ],
        )
    }
}

/// The fields shown for a GBA APS patch: sizes and the number of whole
/// 64 KiB block records after the header.
pub open spec fn aps_gba_fields(p: Seq<u8>) -> Result<Seq<(Seq<char>, Seq<char>)>> {
    if p.len() < 12 {
        Err(PatchError::Truncated)
    } else {
        Ok(
            seq![
                fld("source size", dec_of(le32(p, 4) as nat)),
                fld("target size", dec_of(le32(p, 8) as nat)),
                fld("64KiB blocks", dec_of(((p.len() - 12) / 65544) as nat)),
            ],
        )
    }
}

/// A field that is shown only when its value is not empty.
pub open spec fn opt_field(key: &str, value: Seq<char>) -> Seq<(Seq<char>, Seq<char>)> {
    if value.len() > 0 {
        seq![fld(key, value)]
    } else {
        Seq::empty()
    }
}

/// The fields shown for an N64 APS patch.
pub open spec fn aps_n64_fields(p: Seq<u8>) -> Result<Seq<(Seq<char>, Seq<char>)>> {
    if p.len() < 57 {
        Err(PatchError::Truncated)
    } else {
        let head = seq![
            fld("header type", hex8_text(p[5])),
            fld("encoding method", hex8_text(p[6])),
        ] + opt_field("description", trimmed_text(p.subrange(7, 57)));
        let tail = if p[5] == 1 && p.len() >= 0x4E {
            seq![
                fld("N64 cart id", hex_of(p.subrange(0x3A, 0x3D))),
                fld("N64 CRC field", hex_of(p.subrange(0x3D, 0x45))),
                fld("target size", dec_of(le32(p, 0x4A) as nat)),
            ]
        } else if p.len() >= 0x3D {
            seq![fld("target size", dec_of(le32(p, 0x39) as nat))]
        } else {
            Seq::empty()
        };
        Ok(head + tail)
    }
}

/// The PPF version named by the two digits at 3..5 (`10`, `20`, `30`).
pub open spec fn ppf_version(p: Seq<u8>) -> Option<u64> {
    if p[4] != 0x30 {
        None
    } else if p[3] == 0x31 {
        Some(1)
    } else if p[3] == 0x32 {
        Some(2)
    } else if p[3] == 0x33 {
        Some(3)
    } else {
        None
    }
}

/// The fields shown for a PPF patch.
pub open spec fn ppf_fields(p: Seq<u8>) -> Result<Seq<(Seq<char>, Seq<char>)>> {
    if p.len() < 56 {
        Err(PatchError::Truncated)
    } else {
        match ppf_version(p) {
            None => Err(PatchError::InvalidEncoding),
            Some(v) => {
                let head = seq![fld("version", dec_of(v as nat))] + opt_field(
                    "description",
                    trimmed_text(p.subrange(6, 56)),
                );
                let tail = if v == 3 && p.len() >= 60 {
                    seq![
                        fld(
                            "image type",
                            if p[56] == 0 {
                                "BIN"@
                            } else {
                                "GI"@
                            },
                        ),
                        fld("block check", bool_text(p[57] != 0)),
                        fld("undo data", bool_text(p[58] != 0)),
                    ]
                } else {
                    Seq::empty()
                };
                Ok(head + tail)
            },
        }
    }
}

/// The fields shown for a RUP patch: author, version and title, each only
/// when not empty.
pub open spec fn rup_fields(p: Seq<u8>) -> Result<Seq<(Seq<char>, Seq<char>)>> {
    if p.len() < 0x800 {
        Err(PatchError::Truncated)
    } else {
        Ok(
            opt_field("author", trimmed_text(p.subrange(7, 91))) + opt_field(
                "version",
                trimmed_text(p.subrange(91, 102)),
            ) + opt_field("title", trimmed_text(p.subrange(102, 358))),
        )
    }
}

/// The fields shown for a BDF patch: the three signed lengths of the header.
pub open spec fn bdf_fields(p: Seq<u8>) -> Result<Seq<(Seq<char>, Seq<char>)>> {
    if p.len() < 32 {
        Err(PatchError::Truncated)
    } else {
        Ok(
            seq![
                fld("ctrl block size", dec_int(offset_at(p, 8))),
                fld("diff block size", dec_int(offset_at(p, 16))),
                fld("target size", dec_int(offset_at(p, 24))),
            ],
        )
    }
}

/// The fields shown for a patch of format `kind`.
pub open spec fn describe_fields(kind: FormatKind, p: Seq<u8>) -> Result<
    Seq<(Seq<char>, Seq<char>)>,
> {
    match kind {
        FormatKind::Ips => Ok(Seq::empty()),
        FormatKind::Ups => ups_fields(p),
        FormatKind::Bps => bps_fields(p),
        FormatKind::Pmsr => pmsr_fields(p),
        FormatKind::ApsGba => aps_gba_fields(p),
        FormatKind::ApsN64 => aps_n64_fields(p),
        FormatKind::Ppf => ppf_fields(p),
        FormatKind::Rup => rup_fields(p),
        FormatKind::Bdf => bdf_fields(p),
    }
}

/// A `String` holding the characters of `s`.
fn owned(s: &str) -> (r: String)
    ensures
        r@ == s@,
{
    let mut o = String::new();
    push_str(&mut o, s);
    o
}

/// Appends the field `key`: `value`.
fn push_field(out: &mut Vec<(String, String)>, key: &str, value: String)
    ensures
        fields_view(final(out)@) == fields_view(old(out)@).push(fld(key, value@)),
{
    let ghost old_v = out@;
    out.push((owned(key), value));
    proof {
        assert(fields_view(out@) =~= fields_view(old_v).push(fld(key, value@)));
    }
}

/// Appends the field when its value is not empty.
fn push_opt_field(out: &mut Vec<(String, String)>, key: &str, value: String)
    ensures
        fields_view(final(out)@) == fields_view(old(out)@) + opt_field(key, value@),
{
    let ghost old_v = out@;
    if !value.as_str().is_empty() {
        push_field(out, key, value);
        proof {
            assert(fields_view(old_v).push(fld(key, value@)) =~= fields_view(old_v) + opt_field(
                key,
                value@,
            ));
        }
    } else {
        proof {
            assert(fields_view(old_v) =~= fields_view(old_v) + opt_field(key, value@));
        }
    }
}

fn hex32_string(v: u32) -> (r: String)
    ensures
        r@ == hex_u32(v),
{
    let mut s = String::new();
    push_hex_u32(&mut s, v);
    s
}

fn hex8_string(b: u8) -> (r: String)
    ensures
        r@ == hex8_text(b),
{
    let mut s = String::new();
    push_str(&mut s, "0x");
    let one: [u8; 1] = [b];
    assert(one@ == seq![b]);
    push_hex(&mut s, &one);
    s
}

fn hex_string(bytes: &[u8]) -> (r: String)
    ensures
        r@ == hex_of(bytes@),
{
    let mut s = String::new();
    push_hex(&mut s, bytes);
    s
}

fn signed_string(n: i64) -> (r: String)
    ensures
        r@ == dec_int(n as int),
{
    let mut s = String::new();
    push_dec_i64(&mut s, n);
    s
}

/// Describes a patch: its format, size and the header fields that are
/// cheap to read.
pub fn describe(patch: &[u8]) -> (r: Result<PatchInfo>)
    ensures
        match detect_spec(patch@) {
            None => r == Err::<PatchInfo, PatchError>(PatchError::InvalidMagic),
            Some(kind) => match describe_fields(kind, patch@) {
                Err(e) => r == Err::<PatchInfo, PatchError>(e),
                Ok(f) => r matches Ok(info) && info.format == kind && info.patch_size
                    == patch@.len() && fields_view(info.fields@) == f,
            },
        },
{
    let kind = match crate::format::detect(patch) {
        Some(k) => k,
        None => return Err(PatchError::InvalidMagic),
    };
    let mut fields: Vec<(String, String)> = Vec::new();
    proof {
        assert(fields_view(fields@) =~= Seq::empty());
    }
    let res = match kind {
        FormatKind::Ips => Ok(()),
        FormatKind::Ups => describe_ups(patch, &mut fields),
        FormatKind::Bps => describe_bps(patch, &mut fields),
        FormatKind::Pmsr => describe_pmsr(patch, &mut fields),
        FormatKind::ApsGba => describe_aps_gba(patch, &mut fields),
        FormatKind::ApsN64 => describe_aps_n64(patch, &mut fields),
        FormatKind::Ppf => describe_ppf(patch, &mut fields),
        FormatKind::Rup => describe_rup(patch, &mut fields),
        FormatKind::Bdf => describe_bdf(patch, &mut fields),
    };
    if let Err(e) = res {
        return Err(e);
    }
    proof {
        assert(Seq::<(Seq<char>, Seq<char>)>::empty() + describe_fields(kind, patch@)->Ok_0
            =~= describe_fields(kind, patch@)->Ok_0);
    }
    Ok(PatchInfo { format: kind, patch_size: patch.len() as u64, fields })
}

/// The outcome of a describe step that appends `spec` to `out`.
pub open spec fn appended(
    r: Result<()>,
    spec: Result<Seq<(Seq<char>, Seq<char>)>>,
    before: Seq<(String, String)>,
    after: Seq<(String, String)>,
) -> bool {
    match spec {
        Err(e) => r == Err::<(), PatchError>(e),
        Ok(f) => r is Ok && fields_view(after) == fields_view(before) + f,
    }
}

fn describe_ups(patch: &[u8], out: &mut Vec<(String, String)>) -> (r: Result<()>)
    ensures
        appended(r, ups_fields(patch@), old(out)@, final(out)@),
{
    let n = patch.len();
    if n < 16 {
        return Err(PatchError::Truncated);
    }
    let ghost before = out@;
    let mut rd = BinReader::new(patch);
    let _ = rd.read_bytes(4);
    let input_size = match rd.read_vlv() {
        Ok(v) => v,
        Err(e) => return Err(e),
    };
    let output_size = match rd.read_vlv() {
        Ok(v) => v,
        Err(e) => return Err(e),
    };
    let in_crc = le32_at(patch, n - 12);
    let out_crc = le32_at(patch, n - 8);
    let patch_crc = le32_at(patch, n - 4);
    push_field(out, "input size", dec_string(input_size));
    push_field(out, "output size", dec_string(output_size));
    push_field(out, "input CRC32", hex32_string(in_crc));
    push_field(out, "output CRC32", hex32_string(out_crc));
    push_field(out, "patch CRC32", hex32_string(patch_crc));
    proof {
        assert(fields_view(out@) =~= fields_view(before) + ups_fields(patch@)->Ok_0);
    }
    Ok(())
}

fn describe_bps(patch: &[u8], out: &mut Vec<(String, String)>) -> (r: Result<()>)
    ensures
        appended(r, bps_fields(patch@), old(out)@, final(out)@),
{
    let n = patch.len();
    if n < 16 {
        return Err(PatchError::Truncated);
    }
    let ghost before = out@;
    let mut rd = BinReader::new(patch);
    let _ = rd.read_bytes(4);
    let source_size = match rd.read_vlv() {
        Ok(v) => v,
        Err(e) => return Err(e),
    };
    let target_size = match rd.read_vlv() {
        Ok(v) => v,
        Err(e) => return Err(e),
    };
    let metadata_size = match rd.read_vlv() {
        Ok(v) => v,
        Err(e) => return Err(e),
    };
    let metadata_len: usize = if metadata_size <= usize::MAX as u64 {
        metadata_size as usize
    } else {
        0
    };
    let pos = rd.pos();
    let metadata = if metadata_len > 0 && pos.saturating_add(metadata_len) <= n - 12 {
        let bytes = &patch[pos..pos + metadata_len];
        utf8_lossy(bytes)
    } else {
        String::new()
    };
    let ghost meta = metadata@;
    assert(meta == bps_metadata(patch@, pos as int, metadata_size));
    let src_crc = le32_at(patch, n - 12);
    let tgt_crc = le32_at(patch, n - 8);
    let patch_crc = le32_at(patch, n - 4);
    push_field(out, "source size", dec_string(source_size));
    push_field(out, "target size", dec_string(target_size));
    push_field(out, "metadata size", dec_string(metadata_size));
    let ghost mid = out@;
    push_opt_field(out, "metadata", metadata);
    push_field(out, "source CRC32", hex32_string(src_crc));
    push_field(out, "target CRC32", hex32_string(tgt_crc));
    push_field(out, "patch CRC32", hex32_string(patch_crc));
    proof {
        assert(opt_field("metadata", meta) =~= (if meta.len() > 0 {
            seq![fld("metadata", meta)]
        } else {
            Seq::empty()
        }));
        assert(fields_view(out@) =~= fields_view(before) + bps_fields(patch@)->Ok_0);
    }
    Ok(())
}

fn describe_pmsr(patch: &[u8], out: &mut Vec<(String, String)>) -> (r: Result<()>)
    ensures
        appended(r, pmsr_fields(patch@), old(out)@, final(out)@),
{
    if patch.len() < 8 {
        return Err(PatchError::Truncated);
    }
    let ghost before = out@;
    let n_records = be32_at(patch, 4);
    push_field(out, "record count", dec_string(n_records as u64));
    push_field(out, "expected ROM", owned("Paper Mario USA1.0 (41,943,040 bytes, CRC32 a7f5cd7e)"));
    proof {
        assert(fields_view(out@) =~= fields_view(before) + pmsr_fields(patch@)->Ok_0);
    }
    Ok(())
}

fn describe_aps_gba(patch: &[u8], out: &mut Vec<(String, String)>) -> (r: Result<()>)
    ensures
        appended(r, aps_gba_fields(patch@), old(out)@, final(out)@),
{
    let n = patch.len();
    if n < 12 {
        return Err(PatchError::Truncated);
    }
    let ghost before = out@;
    let source_size = le32_at(patch, 4);
    let target_size = le32_at(patch, 8);
    let record_count = (n - 12) / 65544;
    push_field(out, "source size", dec_string(source_size as u64));
    push_field(out, "target size", dec_string(target_size as u64));
    push_field(out, "64KiB blocks", dec_string(record_count as u64));
    proof {
        assert(fields_view(out@) =~= fields_view(before) + aps_gba_fields(patch@)->Ok_0);
    }
    Ok(())
}

fn describe_aps_n64(patch: &[u8], out: &mut Vec<(String, String)>) -> (r: Result<()>)
    ensures
        appended(r, aps_n64_fields(patch@), old(out)@, final(out)@),
{
    let n = patch.len();
    if n < 57 {
        return Err(PatchError::Truncated);
    }
    let ghost before = out@;
    let header_type = patch[5];
    let encoding = patch[6];
    let desc = trimmed_string(&patch[7..57]);
    push_field(out, "header type", hex8_string(header_type));
    push_field(out, "encoding method", hex8_string(encoding));
    push_opt_field(out, "description", desc);
    let ghost mid = out@;
    if header_type == 0x01 && n >= 0x4A + 4 {
        push_field(out, "N64 cart id", hex_string(&patch[0x3A..0x3D]));
        push_field(out, "N64 CRC field", hex_string(&patch[0x3D..0x45]));
        push_field(out, "target size", dec_string(le32_at(patch, 0x4A) as u64));
    } else if n >= 0x39 + 4 {
        push_field(out, "target size", dec_string(le32_at(patch, 0x39) as u64));
    }
    proof {
        assert(fields_view(out@) =~= fields_view(before) + aps_n64_fields(patch@)->Ok_0);
    }
    Ok(())
}

fn describe_ppf(patch: &[u8], out: &mut Vec<(String, String)>) -> (r: Result<()>)
    ensures
        appended(r, ppf_fields(patch@), old(out)@, final(out)@),
{
    let n = patch.len();
    if n < 6 + 50 {
        return Err(PatchError::Truncated);
    }
    let ghost before = out@;
    let version: u64 = if patch[4] != 0x30 {
        return Err(PatchError::InvalidEncoding);
    } else if patch[3] == 0x31 {
        1
    } else if patch[3] == 0x32 {
        2
    } else if patch[3] == 0x33 {
        3
    } else {
        return Err(PatchError::InvalidEncoding);
    };
    let desc = trimmed_string(&patch[6..56]);
    push_field(out, "version", dec_string(version));
    push_opt_field(out, "description", desc);
    if version == 3 && n >= 60 {
        let image = if patch[56] == 0 {
            owned("BIN")
        } else {
            owned("GI")
        };
        push_field(out, "image type", image);
        push_field(out, "block check", bool_string(patch[57] != 0));
        push_field(out, "undo data", bool_string(patch[58] != 0));
    }
    proof {
        assert(fields_view(out@) =~= fields_view(before) + ppf_fields(patch@)->Ok_0);
    }
    Ok(())
}

fn describe_rup(patch: &[u8], out: &mut Vec<(String, String)>) -> (r: Result<()>)
    ensures
        appended(r, rup_fields(patch@), old(out)@, final(out)@),
{
    if patch.len() < 0x0800 {
        return Err(PatchError::Truncated);
    }
    let ghost before = out@;
    let author = trimmed_string(&patch[7..91]);
    let version = trimmed_string(&patch[91..102]);
    let title = trimmed_string(&patch[102..358]);
    push_opt_field(out, "author", author);
    push_opt_field(out, "version", version);
    push_opt_field(out, "title", title);
    proof {
        assert(fields_view(out@) =~= fields_view(before) + rup_fields(patch@)->Ok_0);
    }
    Ok(())
}

fn describe_bdf(patch: &[u8], out: &mut Vec<(String, String)>) -> (r: Result<()>)
    ensures
        appended(r, bdf_fields(patch@), old(out)@, final(out)@),
{
    if patch.len() < 32 {
        return Err(PatchError::Truncated);
    }
    let ghost before = out@;
    let ctrl = read_offset(patch, 8);
    let diff = read_offset(patch, 16);
    let target = read_offset(patch, 24);
    push_field(out, "ctrl block size", signed_string(ctrl));
    push_field(out, "diff block size", signed_string(diff));
    push_field(out, "target size", signed_string(target));
    proof {
        assert(fields_view(out@) =~= fields_view(before) + bdf_fields(patch@)->Ok_0);
    }
    Ok(())
}

} // verus!
