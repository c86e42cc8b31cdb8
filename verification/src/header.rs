//! ROM header detection and stripping.
//!
//! Some patch formats hash the un-headered ROM, so a headered input would
//! fail integrity checks even when the patch is valid. This module detects a
//! few common headers and gives byte-range views with the header stripped.
use vstd::prelude::*;

use crate::buf::{has_prefix, starts_with};

verus! {

/// The copier and emulator headers that can precede a ROM image.
#[derive(Debug, Clone, Copy, PartialEq, Eq, Structural)]
pub enum HeaderKind {
    SmcSnes,
    INes,
    Fds,
    Lynx,
}

/// The display name of each header kind.
pub open spec fn header_name(kind: HeaderKind) -> Seq<char> {
    match kind {
        HeaderKind::SmcSnes => seq!['S', 'M', 'C', ' ', '(', 'S', 'N', 'E', 'S', ')'],
        HeaderKind::INes => seq!['i', 'N', 'E', 'S', ' ', '(', 'N', 'E', 'S', ')'],
        HeaderKind::Fds => seq!['F', 'D', 'S'],
        HeaderKind::Lynx => seq!['L', 'Y', 'N', 'X'],
    }
}

/// The fixed length of each header.
pub open spec fn header_len(kind: HeaderKind) -> nat {
    match kind {
        HeaderKind::SmcSnes => 512,
        HeaderKind::INes => 16,
        HeaderKind::Fds => 16,
        HeaderKind::Lynx => 64,
    }
}

/// `NES\x1A`
pub open spec fn ines_magic() -> Seq<u8> {
    seq![0x4eu8, 0x45u8, 0x53u8, 0x1au8]
}

/// `FDS\x1A`
pub open spec fn fds_magic() -> Seq<u8> {
    seq![0x46u8, 0x44u8, 0x53u8, 0x1au8]
}

/// `LYNX`
pub open spec fn lynx_magic() -> Seq<u8> {
    seq![0x4cu8, 0x59u8, 0x4eu8, 0x58u8]
}

/// The header found at the start of `rom`: by magic for iNES, FDS and LYNX,
/// and for SMC by a length that is 512 more than a multiple of 1024.
pub open spec fn detect_spec(rom: Seq<u8>) -> Option<HeaderKind> {
    if has_prefix(rom, ines_magic()) {
        Some(HeaderKind::INes)
    } else if has_prefix(rom, fds_magic()) {
        Some(HeaderKind::Fds)
    } else if has_prefix(rom, lynx_magic()) {
        Some(HeaderKind::Lynx)
    } else if rom.len() % 1024 == 512 {
        Some(HeaderKind::SmcSnes)
    } else {
        None
    }
}

impl HeaderKind {
    pub fn name(self) -> (r: &'static str)
        ensures
            r@ == header_name(self),
    {
        match self {
            HeaderKind::SmcSnes => {
                proof {
                    reveal_strlit("SMC (SNES)");
                }
                "SMC (SNES)"
            },
            HeaderKind::INes => {
                proof {
                    reveal_strlit("iNES (NES)");
                }
                "iNES (NES)"
            },
            HeaderKind::Fds => {
                proof {
                    reveal_strlit("FDS");
                }
                "FDS"
            },
            HeaderKind::Lynx => {
                proof {
                    reveal_strlit("LYNX");
                }
                "LYNX"
            },
        }
    }

    pub fn header_size(self) -> (r: usize)
        ensures
            r == header_len(self),
    {
        match self {
            HeaderKind::SmcSnes => 512,
            HeaderKind::INes => 16,
            HeaderKind::Fds => 16,
            HeaderKind::Lynx => 64,
        }
    }
}

/// Detects a known header at the start of `rom`.
pub fn detect(rom: &[u8]) -> (r: Option<HeaderKind>)
    ensures
        r == detect_spec(rom@),
{
    let ines: [u8; 4] = [0x4e, 0x45, 0x53, 0x1a];
    let fds: [u8; 4] = [0x46, 0x44, 0x53, 0x1a];
    let lynx: [u8; 4] = [0x4c, 0x59, 0x4e, 0x58];
    proof {
        assert(ines@ == ines_magic());
        assert(fds@ == fds_magic());
        assert(lynx@ == lynx_magic());
    }
    if starts_with(rom, &ines) {
        return Some(HeaderKind::INes);
    }
    if starts_with(rom, &fds) {
        return Some(HeaderKind::Fds);
    }
    if starts_with(rom, &lynx) {
        return Some(HeaderKind::Lynx);
    }
    if rom.len() % 1024 == 512 {
        return Some(HeaderKind::SmcSnes);
    }
    None
}

/// `rom` without its `kind` header; unchanged when shorter than the header.
pub fn strip(rom: &[u8], kind: HeaderKind) -> (r: &[u8])
    ensures
        rom@.len() < header_len(kind) ==> r@ == rom@,
        rom@.len() >= header_len(kind) ==> r@ == rom@.skip(header_len(kind) as int),
{
    let size = kind.header_size();
    if rom.len() < size {
        return rom;
    }
    &rom[size..rom.len()]
}

/// `rom` split into the header (at most the header's length) and the rest.
pub fn split(rom: &[u8], kind: HeaderKind) -> (r: (&[u8], &[u8]))
    ensures
        r.0@ == rom@.take(split_point(rom@, kind)),
        r.1@ == rom@.skip(split_point(rom@, kind)),
{
    let size = kind.header_size();
    let size = if size < rom.len() {
        size
    } else {
        rom.len()
    };
    (&rom[0..size], &rom[size..rom.len()])
}

/// Where `split` cuts: the header length, or the whole ROM when shorter.
pub open spec fn split_point(rom: Seq<u8>, kind: HeaderKind) -> int {
    if header_len(kind) < rom.len() {
        header_len(kind) as int
    } else {
        rom.len() as int
    }
}

/// A detected header is cut off at its documented size: 64 bytes for a ROM
/// that starts with `LYNX`, 16 for one that starts with `NES\x1A` or
/// `FDS\x1A`, and 512 for an SMC copier header (a length 512 more than a
/// multiple of 1024); `strip` and `split` then give the bytes after it.
pub proof fn lemma_detected_header_sizes(rom: Seq<u8>)
    ensures
        detect_spec(rom) == Some(HeaderKind::Lynx) && rom.len() >= 64 ==> split_point(
            rom,
            HeaderKind::Lynx,
        ) == 64 && rom.take(64) == rom.take(split_point(rom, HeaderKind::Lynx)) && rom.skip(64)
            == rom.skip(split_point(rom, HeaderKind::Lynx)),
        detect_spec(rom) == Some(HeaderKind::INes) && rom.len() >= 16 ==> split_point(
            rom,
            HeaderKind::INes,
        ) == 16,
        detect_spec(rom) == Some(HeaderKind::Fds) && rom.len() >= 16 ==> split_point(
            rom,
            HeaderKind::Fds,
        ) == 16,
        detect_spec(rom) == Some(HeaderKind::SmcSnes) ==> split_point(rom, HeaderKind::SmcSnes)
            == 512,
        forall|kind: HeaderKind|
            #![auto]
            split_point(rom, kind) <= rom.len() && (rom.len() >= (match kind {
                HeaderKind::SmcSnes => 512int,
                HeaderKind::INes => 16int,
                HeaderKind::Fds => 16int,
                HeaderKind::Lynx => 64int,
            }) ==> split_point(rom, kind) == (match kind {
                HeaderKind::SmcSnes => 512int,
                HeaderKind::INes => 16int,
                HeaderKind::Fds => 16int,
                HeaderKind::Lynx => 64int,
            })),
{
}

/// Splitting and joining back gives the ROM unchanged.
pub proof fn lemma_split_rejoins(rom: Seq<u8>, kind: HeaderKind)
    ensures
        rom.take(split_point(rom, kind)) + rom.skip(split_point(rom, kind)) == rom,
{
    assert(rom.take(split_point(rom, kind)) + rom.skip(split_point(rom, kind)) =~= rom);
}

} // verus!
