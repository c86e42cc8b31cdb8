use rompatch_core::apply::{run, ApplyOptions};
use rompatch_core::checksum_fix::{fix_game_boy, fix_mega_drive, sniff_and_fix};
use rompatch_core::civil::civil_from_days;
use rompatch_core::header::{detect, split, HeaderKind};
use rompatch_core::format::{bps, ups};
use rompatch_core::{ChecksumFamily, FormatKind, HashAlgo, PatchError, MAX_PATCH_OUTPUT_SIZE};

#[test]
fn fixing_twice_changes_nothing_more() {
    let mut rom: Vec<u8> = (0..0x8000u32).map(|i| (i * 7 % 251) as u8).collect();
    assert!(fix_game_boy(&mut rom));
    let once = rom.clone();
    assert!(fix_game_boy(&mut rom));
    assert_eq!(rom, once);

    let mut md: Vec<u8> = (0..0x1001u32).map(|i| (i * 13 % 256) as u8).collect();
    assert!(fix_mega_drive(&mut md));
    let once = md.clone();
    assert!(fix_mega_drive(&mut md));
    assert_eq!(md, once);
}

#[test]
fn sniff_recognises_families() {
    let mut md = vec![0u8; 0x400];
    md[0x100..0x104].copy_from_slice(b"SEGA");
    md[0x200] = 0x12;
    md[0x201] = 0x34;
    md[0x203] = 0x01;
    assert_eq!(sniff_and_fix(&mut md), Some(ChecksumFamily::MegaDrive));
    assert_eq!(&md[0x18E..0x190], &[0x12, 0x35]);

    let mut gb = vec![0u8; 0x8000];
    gb[0x104..0x108].copy_from_slice(&[0xCE, 0xED, 0x66, 0x66]);
    assert_eq!(sniff_and_fix(&mut gb), Some(ChecksumFamily::GameBoy));

    let mut other = vec![0u8; 0x100];
    assert_eq!(sniff_and_fix(&mut other), None);
    assert_eq!(other, vec![0u8; 0x100]);
}

#[test]
fn header_split_rejoins() {
    let mut rom = b"NES\x1a".to_vec();
    rom.extend_from_slice(&[9u8; 40]);
    let kind = detect(&rom).unwrap();
    assert_eq!(kind, HeaderKind::INes);
    let (h, body) = split(&rom, kind);
    assert_eq!(h.len(), 16);
    let mut joined = h.to_vec();
    joined.extend_from_slice(body);
    assert_eq!(joined, rom);
}

#[test]
fn stripped_header_is_reattached() {
    let mut rom = vec![0xEEu8; 512];
    rom.extend_from_slice(&[0x11u8; 1024]);
    let mut patch = b"PATCH".to_vec();
    patch.extend_from_slice(&[0, 0, 0, 0, 1, 0x99]);
    patch.extend_from_slice(b"EOF");
    let opts = ApplyOptions {
        strip_header: true,
        ..ApplyOptions::default()
    };
    let out = run(&rom, &patch, &opts).unwrap();
    assert_eq!(out.stripped_header, Some(HeaderKind::SmcSnes));
    assert_eq!(out.output.len(), rom.len());
    assert_eq!(&out.output[..512], &rom[..512]);
    assert_eq!(out.output[512], 0x99);
    assert_eq!(&out.output[513..], &rom[513..]);
}

#[test]
fn names_round_trip() {
    for k in [
        FormatKind::Ips,
        FormatKind::Ups,
        FormatKind::Bps,
        FormatKind::Pmsr,
        FormatKind::ApsGba,
        FormatKind::ApsN64,
        FormatKind::Ppf,
        FormatKind::Rup,
        FormatKind::Bdf,
    ] {
        assert_eq!(FormatKind::from_name(k.name()), Some(k));
    }
    for a in [HashAlgo::Crc32, HashAlgo::Md5, HashAlgo::Sha1, HashAlgo::Adler32] {
        assert_eq!(HashAlgo::parse(a.name()), Some(a));
    }
}

#[test]
fn civil_dates() {
    assert_eq!(civil_from_days(0), (1970, 1, 1));
    assert_eq!(civil_from_days(-1), (1969, 12, 31));
    assert_eq!(civil_from_days(11016), (2000, 2, 29));
    assert_eq!(civil_from_days(-719468), (0, 3, 1));
}

fn write_vlv(out: &mut Vec<u8>, mut value: u64) {
    loop {
        let byte = (value & 0x7f) as u8;
        value >>= 7;
        if value == 0 {
            out.push(byte | 0x80);
            return;
        }
        out.push(byte);
        value -= 1;
    }
}

#[test]
fn declared_sizes_above_the_limit_are_refused() {
    let too_big = MAX_PATCH_OUTPUT_SIZE as u64 + 1;

    let mut p = b"UPS1".to_vec();
    write_vlv(&mut p, 4);
    write_vlv(&mut p, too_big);
    p.extend_from_slice(&[0u8; 12]);
    assert_eq!(
        ups::apply(&p, &[0u8; 4]).unwrap_err(),
        PatchError::OutputTooLarge { declared: too_big, max: MAX_PATCH_OUTPUT_SIZE as u64 }
    );

    let mut p = b"BPS1".to_vec();
    write_vlv(&mut p, 4);
    write_vlv(&mut p, too_big);
    write_vlv(&mut p, 0);
    p.extend_from_slice(&[0u8; 12]);
    assert_eq!(
        bps::apply(&p, &[0u8; 4]).unwrap_err(),
        PatchError::OutputTooLarge { declared: too_big, max: MAX_PATCH_OUTPUT_SIZE as u64 }
    );
}

#[test]
fn aps10_is_never_taken_for_aps1() {
    let mut p = b"APS10".to_vec();
    p.extend_from_slice(&[0u8; 60]);
    assert_eq!(rompatch_core::format::detect(&p), Some(FormatKind::ApsN64));
    assert_eq!(rompatch_core::format::detect(b"APS1\x00"), Some(FormatKind::ApsGba));
}

#[test]
fn plain_run_matches_format_apply() {
    let rom = vec![5u8; 16];
    let mut patch = b"PATCH".to_vec();
    patch.extend_from_slice(&[0, 0, 2, 0, 2, 0xAA, 0xBB]);
    patch.extend_from_slice(b"EOF");
    let direct = rompatch_core::format::apply(&patch, &rom).unwrap();
    let out = run(&rom, &patch, &ApplyOptions::default()).unwrap();
    assert_eq!(out.output, direct);
    assert_eq!(out.format, FormatKind::Ips);
    assert_eq!(&out.output[2..4], &[0xAA, 0xBB]);
}
