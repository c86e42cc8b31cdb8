pub mod aps;
pub mod bdf;
pub mod bps;
pub mod ips;
pub mod pmsr;
pub mod ppf;
pub mod rup;
pub mod ups;

use vstd::prelude::*;

use crate::bin_file::{le32, le32_at};
use crate::buf::{has_prefix, starts_with};
use crate::error::{bytes_result, PatchError, Result};
use crate::text::{ascii_lower_seq, chars_eq, chars_of, lower_chars};

verus! {

/// The supported patch formats.
#[derive(Debug, Clone, Copy, PartialEq, Eq, Structural)]
pub enum FormatKind {
    Ips,
    Ups,
    Bps,
    Pmsr,
    ApsGba,
    ApsN64,
    Ppf,
    Rup,
    Bdf,
}

/// The display name of each format.
pub open spec fn kind_name(kind: FormatKind) -> Seq<char> {
    match kind {
        FormatKind::Ips => seq!['I', 'P', 'S'],
        FormatKind::Ups => seq!['U', 'P', 'S'],
        FormatKind::Bps => seq!['B', 'P', 'S'],
        FormatKind::Pmsr => seq!['P', 'M', 'S', 'R'],
        FormatKind::ApsGba => seq!['A', 'P', 'S', '-', 'G', 'B', 'A'],
        FormatKind::ApsN64 => seq!['A', 'P', 'S', '-', 'N', '6', '4'],
        FormatKind::Ppf => seq!['P', 'P', 'F'],
        FormatKind::Rup => seq!['R', 'U', 'P'],
        FormatKind::Bdf => seq!['B', 'D', 'F'],
    }
}

/// The format a user-facing name stands for, compared without ASCII case:
/// the nine names plus the aliases `aps_gba`, `apsgba`, `aps_n64`, `apsn64`
/// and `bsdiff`.
pub open spec fn kind_from_name(name: Seq<char>) -> Option<FormatKind> {
    let n = ascii_lower_seq(name);
    if n == seq!['i', 'p', 's'] {
        Some(FormatKind::Ips)
    } else if n == seq!['u', 'p', 's'] {
        Some(FormatKind::Ups)
    } else if n == seq!['b', 'p', 's'] {
        Some(FormatKind::Bps)
    } else if n == seq!['p', 'm', 's', 'r'] {
        Some(FormatKind::Pmsr)
    } else if n == seq!['a', 'p', 's', '-', 'g', 'b', 'a'] || n == seq!['a', 'p', 's', '_', 'g', 'b', 'a']
        || n == seq!['a', 'p', 's', 'g', 'b', 'a'] {
        Some(FormatKind::ApsGba)
    } else if n == seq!['a', 'p', 's', '-', 'n', '6', '4'] || n == seq!['a', 'p', 's', '_', 'n', '6', '4']
        || n == seq!['a', 'p', 's', 'n', '6', '4'] {
        Some(FormatKind::ApsN64)
    } else if n == seq!['p', 'p', 'f'] {
        Some(FormatKind::Ppf)
    } else if n == seq!['r', 'u', 'p'] {
        Some(FormatKind::Rup)
    } else if n == seq!['b', 'd', 'f'] || n == seq!['b', 's', 'd', 'i', 'f', 'f'] {
        Some(FormatKind::Bdf)
    } else {
        None
    }
}

/// What applying `patch` to `rom` as `kind` gives: `r` is that result.
pub open spec fn kind_apply_relation(kind: FormatKind, patch: Seq<u8>, rom: Seq<u8>, r: Result<Seq<u8>>) -> bool {
    match kind {
        FormatKind::Ips => r == ips::apply_spec(patch, rom),
        FormatKind::Ups => r == ups::apply_spec(patch, rom),
        FormatKind::Bps => r == bps::apply_spec(patch, rom),
        FormatKind::Pmsr => r == pmsr::apply_spec(patch, rom),
        FormatKind::ApsGba => r == aps::gba_spec(patch, rom),
        FormatKind::ApsN64 => r == aps::n64_spec(patch, rom),
        FormatKind::Ppf => r == ppf::apply_spec(patch, rom),
        FormatKind::Rup => rup::apply_relation(patch, rom, r),
        FormatKind::Bdf => r == bdf::apply_spec(patch, rom),
    }
}

/// The format whose magic bytes `patch` starts with, probed so that no
/// shorter magic shadows a longer one (`APS10` before `APS1`).
pub open spec fn detect_spec(patch: Seq<u8>) -> Option<FormatKind> {
    if has_prefix(patch, ips::magic()) {
        Some(FormatKind::Ips)
    } else if has_prefix(patch, ups::magic()) {
        Some(FormatKind::Ups)
    } else if has_prefix(patch, bps::magic()) {
        Some(FormatKind::Bps)
    } else if has_prefix(patch, pmsr::magic()) {
        Some(FormatKind::Pmsr)
    } else if has_prefix(patch, aps::magic_n64()) {
        Some(FormatKind::ApsN64)
    } else if has_prefix(patch, aps::magic_gba()) {
        Some(FormatKind::ApsGba)
    } else if has_prefix(patch, ppf::magic()) {
        Some(FormatKind::Ppf)
    } else if has_prefix(patch, rup::magic()) {
        Some(FormatKind::Rup)
    } else if has_prefix(patch, bdf::magic()) {
        Some(FormatKind::Bdf)
    } else {
        None
    }
}

impl FormatKind {
    pub fn name(self) -> (r: &'static str)
        ensures
            r@ == kind_name(self),
    {
        match self {
            FormatKind::Ips => {
                proof {
                    reveal_strlit("IPS");
                }
                "IPS"
            },
            FormatKind::Ups => {
                proof {
                    reveal_strlit("UPS");
                }
                "UPS"
            },
            FormatKind::Bps => {
                proof {
                    reveal_strlit("BPS");
                }
                "BPS"
            },
            FormatKind::Pmsr => {
                proof {
                    reveal_strlit("PMSR");
                }
                "PMSR"
            },
            FormatKind::ApsGba => {
                proof {
                    reveal_strlit("APS-GBA");
                }
                "APS-GBA"
            },
            FormatKind::ApsN64 => {
                proof {
                    reveal_strlit("APS-N64");
                }
                "APS-N64"
            },
            FormatKind::Ppf => {
                proof {
                    reveal_strlit("PPF");
                }
                "PPF"
            },
            FormatKind::Rup => {
                proof {
                    reveal_strlit("RUP");
                }
                "RUP"
            },
            FormatKind::Bdf => {
                proof {
                    reveal_strlit("BDF");
                }
                "BDF"
            },
        }
    }

    /// Parses a user-facing format name, ignoring ASCII case and accepting
    /// a few aliases (`aps_gba`, `apsgba`, `bsdiff`, ...).
    pub fn from_name(name: &str) -> (r: Option<Self>)
        ensures
            r == kind_from_name(name@),
    {
        let chars = chars_of(name);
        let n = lower_chars(chars.as_slice());
        let n = n.as_slice();
        let ips = ['i', 'p', 's'];
        let ups = ['u', 'p', 's'];
        let bps = ['b', 'p', 's'];
        let pmsr = ['p', 'm', 's', 'r'];
        let aps_gba_dash = ['a', 'p', 's', '-', 'g', 'b', 'a'];
        let aps_gba_under = ['a', 'p', 's', '_', 'g', 'b', 'a'];
        let aps_gba_plain = ['a', 'p', 's', 'g', 'b', 'a'];
        let aps_n64_dash = ['a', 'p', 's', '-', 'n', '6', '4'];
        let aps_n64_under = ['a', 'p', 's', '_', 'n', '6', '4'];
        let aps_n64_plain = ['a', 'p', 's', 'n', '6', '4'];
        let ppf = ['p', 'p', 'f'];
        let rup = ['r', 'u', 'p'];
        let bdf = ['b', 'd', 'f'];
        let bsdiff = ['b', 's', 'd', 'i', 'f', 'f'];
        proof {
            assert(ips@ == seq!['i', 'p', 's']);
            assert(ups@ == seq!['u', 'p', 's']);
            assert(bps@ == seq!['b', 'p', 's']);
            assert(pmsr@ == seq!['p', 'm', 's', 'r']);
            assert(aps_gba_dash@ == seq!['a', 'p', 's', '-', 'g', 'b', 'a']);
            assert(aps_gba_under@ == seq!['a', 'p', 's', '_', 'g', 'b', 'a']);
            assert(aps_gba_plain@ == seq!['a', 'p', 's', 'g', 'b', 'a']);
            assert(aps_n64_dash@ == seq!['a', 'p', 's', '-', 'n', '6', '4']);
            assert(aps_n64_under@ == seq!['a', 'p', 's', '_', 'n', '6', '4']);
            assert(aps_n64_plain@ == seq!['a', 'p', 's', 'n', '6', '4']);
            assert(ppf@ == seq!['p', 'p', 'f']);
            assert(rup@ == seq!['r', 'u', 'p']);
            assert(bdf@ == seq!['b', 'd', 'f']);
            assert(bsdiff@ == seq!['b', 's', 'd', 'i', 'f', 'f']);
        }
        if chars_eq(n, &ips) {
            Some(FormatKind::Ips)
        } else if chars_eq(n, &ups) {
            Some(FormatKind::Ups)
        } else if chars_eq(n, &bps) {
            Some(FormatKind::Bps)
        } else if chars_eq(n, &pmsr) {
            Some(FormatKind::Pmsr)
        } else if chars_eq(n, &aps_gba_dash) || chars_eq(n, &aps_gba_under) || chars_eq(
            n,
            &aps_gba_plain,
        ) {
            Some(FormatKind::ApsGba)
        } else if chars_eq(n, &aps_n64_dash) || chars_eq(n, &aps_n64_under) || chars_eq(
            n,
            &aps_n64_plain,
        ) {
            Some(FormatKind::ApsN64)
        } else if chars_eq(n, &ppf) {
            Some(FormatKind::Ppf)
        } else if chars_eq(n, &rup) {
            Some(FormatKind::Rup)
        } else if chars_eq(n, &bdf) || chars_eq(n, &bsdiff) {
            Some(FormatKind::Bdf)
        } else {
            None
        }
    }

    /// Applies a patch of this format to `rom`.
    pub fn apply(self, patch: &[u8], rom: &[u8]) -> (r: Result<Vec<u8>>)
        ensures
            kind_apply_relation(self, patch@, rom@, bytes_result(r)),
    {
        match self {
            FormatKind::Ips => ips::apply(patch, rom),
            FormatKind::Ups => ups::apply(patch, rom),
            FormatKind::Bps => bps::apply(patch, rom),
            FormatKind::Pmsr => pmsr::apply(patch, rom),
            FormatKind::ApsGba => aps::apply_gba(patch, rom),
            FormatKind::ApsN64 => aps::apply_n64(patch, rom),
            FormatKind::Ppf => ppf::apply(patch, rom),
            FormatKind::Rup => rup::apply(patch, rom),
            FormatKind::Bdf => bdf::apply(patch, rom),
        }
    }
}

/// A format's display name is accepted back by `from_name`.
pub proof fn lemma_name_roundtrip(kind: FormatKind)
    ensures
        kind_from_name(kind_name(kind)) == Some(kind),
{
    let n = kind_name(kind);
    let l = ascii_lower_seq(n);
    assert(l.len() == n.len());
    match kind {
        FormatKind::Ips => assert(l =~= seq!['i', 'p', 's']),
        FormatKind::Ups => assert(l =~= seq!['u', 'p', 's']),
        FormatKind::Bps => assert(l =~= seq!['b', 'p', 's']),
        FormatKind::Pmsr => assert(l =~= seq!['p', 'm', 's', 'r']),
        FormatKind::ApsGba => assert(l =~= seq!['a', 'p', 's', '-', 'g', 'b', 'a']),
        FormatKind::ApsN64 => assert(l =~= seq!['a', 'p', 's', '-', 'n', '6', '4']),
        FormatKind::Ppf => assert(l =~= seq!['p', 'p', 'f']),
        FormatKind::Rup => assert(l =~= seq!['r', 'u', 'p']),
        FormatKind::Bdf => assert(l =~= seq!['b', 'd', 'f']),
    }
}

/// A patch that starts with `APS10` is detected as N64 APS: the shorter GBA
/// magic `APS1`, which it also starts with, does not shadow it.
pub proof fn lemma_detect_aps_n64(patch: Seq<u8>)
    requires
        has_prefix(patch, aps::magic_n64()),
    ensures
        detect_spec(patch) == Some(FormatKind::ApsN64),
{
    assert(patch[0] == patch.take(5)[0]);
    assert(!has_prefix(patch, ips::magic())) by {
        if has_prefix(patch, ips::magic()) {
            assert(patch.take(5)[0] == ips::magic()[0]);
        }
    }
    assert(!has_prefix(patch, ups::magic())) by {
        if has_prefix(patch, ups::magic()) {
            assert(patch.take(4)[0] == ups::magic()[0]);
        }
    }
    assert(!has_prefix(patch, bps::magic())) by {
        if has_prefix(patch, bps::magic()) {
            assert(patch.take(4)[0] == bps::magic()[0]);
        }
    }
    assert(!has_prefix(patch, pmsr::magic())) by {
        if has_prefix(patch, pmsr::magic()) {
            assert(patch.take(4)[0] == pmsr::magic()[0]);
        }
    }
}

/// Applying a patch is a function of the patch and the ROM: the relation
/// that `FormatKind::apply` meets has one result for each input.
pub proof fn lemma_apply_relation_unique(
    kind: FormatKind,
    patch: Seq<u8>,
    rom: Seq<u8>,
    r1: Result<Seq<u8>>,
    r2: Result<Seq<u8>>,
)
    requires
        kind_apply_relation(kind, patch, rom, r1),
        kind_apply_relation(kind, patch, rom, r2),
    ensures
        r1 == r2,
{
    broadcast use vstd::array::group_array_axioms;

    if kind == FormatKind::Rup {
        match (r1, r2) {
            (
                Err(PatchError::OutputMd5Mismatch { expected: e1, actual: a1 }),
                Err(PatchError::OutputMd5Mismatch { expected: e2, actual: a2 }),
            ) => {
                assert(e1 =~= e2);
                assert(a1 =~= a2);
            },
            _ => {},
        }
    }
}

/// Detects a patch's format from its magic bytes.
pub fn detect(patch: &[u8]) -> (r: Option<FormatKind>)
    ensures
        r == detect_spec(patch@),
{
    let ips_magic: [u8; 5] = [0x50, 0x41, 0x54, 0x43, 0x48];
    let ups_magic: [u8; 4] = [0x55, 0x50, 0x53, 0x31];
    let bps_magic: [u8; 4] = [0x42, 0x50, 0x53, 0x31];
    let pmsr_magic: [u8; 4] = [0x50, 0x4d, 0x53, 0x52];
    let ppf_magic: [u8; 3] = [0x50, 0x50, 0x46];
    let rup_magic: [u8; 6] = [0x4e, 0x49, 0x4e, 0x4a, 0x41, 0x32];
    let bdf_magic: [u8; 8] = [0x42, 0x53, 0x44, 0x49, 0x46, 0x46, 0x34, 0x30];
    proof {
        assert(ips_magic@ == ips::magic());
        assert(ups_magic@ == ups::magic());
        assert(bps_magic@ == bps::magic());
        assert(pmsr_magic@ == pmsr::magic());
        assert(ppf_magic@ == ppf::magic());
        assert(rup_magic@ == rup::magic());
        assert(bdf_magic@ == bdf::magic());
    }
    if starts_with(patch, &ips_magic) {
        Some(FormatKind::Ips)
    } else if starts_with(patch, &ups_magic) {
        Some(FormatKind::Ups)
    } else if starts_with(patch, &bps_magic) {
        Some(FormatKind::Bps)
    } else if starts_with(patch, &pmsr_magic) {
        Some(FormatKind::Pmsr)
    } else if aps::is_n64(patch) {
        Some(FormatKind::ApsN64)
    } else if aps::is_gba(patch) {
        Some(FormatKind::ApsGba)
    } else if starts_with(patch, &ppf_magic) {
        Some(FormatKind::Ppf)
    } else if starts_with(patch, &rup_magic) {
        Some(FormatKind::Rup)
    } else if starts_with(patch, &bdf_magic) {
        Some(FormatKind::Bdf)
    } else {
        None
    }
}

/// Detects the format of `patch` and applies it to `rom`; a patch with no
/// known magic is rejected with `InvalidMagic`.
pub fn apply(patch: &[u8], rom: &[u8]) -> (r: Result<Vec<u8>>)
    ensures
        match detect_spec(patch@) {
            None => r == Err::<Vec<u8>, PatchError>(PatchError::InvalidMagic),
            Some(kind) => kind_apply_relation(kind, patch@, rom@, bytes_result(r)),
        },
{
    match detect(patch) {
        None => Err(PatchError::InvalidMagic),
        Some(kind) => kind.apply(patch, rom),
    }
}

/// The verdict of the 12-byte CRC-32 footer shared by UPS and BPS: three
/// little-endian checksums (input, output, patch), checked in that order
/// against the checksums actually computed.
pub open spec fn crc_footer_result(
    patch: Seq<u8>,
    input_crc: u32,
    output_crc: u32,
    patch_crc: u32,
) -> Result<()> {
    let e = patch.len() - 12;
    if input_crc != le32(patch, e) {
        Err(PatchError::InputHashMismatch { expected: le32(patch, e) as u32, actual: input_crc })
    } else if output_crc != le32(patch, e + 4) {
        Err(
            PatchError::OutputHashMismatch {
                expected: le32(patch, e + 4) as u32,
                actual: output_crc,
            },
        )
    } else if patch_crc != le32(patch, e + 8) {
        Err(
            PatchError::PatchHashMismatch { expected: le32(patch, e + 8) as u32, actual: patch_crc },
        )
    } else {
        Ok(())
    }
}

/// Checks computed CRC-32s against the footer at the end of `patch`.
pub fn check_crc_footer(patch: &[u8], input_crc: u32, output_crc: u32, patch_crc: u32) -> (r:
    Result<()>)
    requires
        patch@.len() >= 12,
    ensures
        r == crc_footer_result(patch@, input_crc, output_crc, patch_crc),
{
    let e = patch.len() - 12;
    let input_expected = le32_at(patch, e);
    if input_crc != input_expected {
        return Err(PatchError::InputHashMismatch { expected: input_expected, actual: input_crc });
    }
    let output_expected = le32_at(patch, e + 4);
    if output_crc != output_expected {
        return Err(PatchError::OutputHashMismatch { expected: output_expected, actual: output_crc });
    }
    let patch_expected = le32_at(patch, e + 8);
    if patch_crc != patch_expected {
        return Err(PatchError::PatchHashMismatch { expected: patch_expected, actual: patch_crc });
    }
    Ok(())
}

} // verus!
