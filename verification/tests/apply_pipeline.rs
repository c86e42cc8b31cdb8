use rompatch_core::apply::{run, ApplyError, ApplyOptions, HashAlgo, HashCheckKind, HashSpec};
use rompatch_core::{hash, FormatKind};

fn ips_identity_patch() -> Vec<u8> {
    // "PATCH" + "EOF" - a valid IPS patch with no records.
    let mut p = Vec::new();
    p.extend_from_slice(b"PATCH");
    p.extend_from_slice(b"EOF");
    p
}

#[test]
fn empty_ips_patch_is_identity() {
    let rom = vec![0xAB; 1024];
    let patch = ips_identity_patch();
    let outcome = run(&rom, &patch, &ApplyOptions::default()).unwrap();
    assert_eq!(outcome.format, FormatKind::Ips);
    assert_eq!(outcome.output, rom);
    assert!(outcome.stripped_header.is_none());
    assert!(outcome.fixed_checksum.is_none());
}

#[test]
fn unknown_magic_returns_unknown_format() {
    let rom = vec![0u8; 16];
    let patch = b"\xDE\xAD\xBE\xEFhello".to_vec();
    let err = run(&rom, &patch, &ApplyOptions::default()).unwrap_err();
    assert!(matches!(err, ApplyError::UnknownFormat));
}

#[test]
fn format_override_bypasses_detection() {
    let rom = vec![0xAB; 1024];
    let patch = ips_identity_patch();
    let opts = ApplyOptions {
        format_override: Some(FormatKind::Ips),
        ..ApplyOptions::default()
    };
    let outcome = run(&rom, &patch, &opts).unwrap();
    assert_eq!(outcome.format, FormatKind::Ips);
}

#[test]
fn verify_input_mismatch_returns_error() {
    let rom = vec![0xAB; 1024];
    let patch = ips_identity_patch();
    let opts = ApplyOptions {
        verify_input: Some(HashSpec {
            algo: HashAlgo::Crc32,
            expected_hex: "deadbeef".into(),
        }),
        ..ApplyOptions::default()
    };
    let err = run(&rom, &patch, &opts).unwrap_err();
    assert!(matches!(
        err,
        ApplyError::HashMismatch {
            kind: HashCheckKind::Input,
            algo: HashAlgo::Crc32,
            ..
        }
    ));
}

#[test]
fn verify_input_match_succeeds() {
    let rom = vec![0xAB; 1024];
    let patch = ips_identity_patch();
    let crc = format!("{:08x}", hash::crc32(&rom));
    let opts = ApplyOptions {
        verify_input: Some(HashSpec {
            algo: HashAlgo::Crc32,
            expected_hex: crc,
        }),
        ..ApplyOptions::default()
    };
    run(&rom, &patch, &opts).unwrap();
}

#[test]
fn hash_spec_parse_roundtrip() {
    let spec = HashSpec::parse("SHA1:DA39A3EE5E6B4B0D3255BFEF95601890AFD80709").unwrap();
    assert_eq!(spec.algo, HashAlgo::Sha1);
    assert_eq!(
        spec.expected_hex,
        "da39a3ee5e6b4b0d3255bfef95601890afd80709"
    );
}

#[test]
fn hash_spec_parse_rejects_missing_colon() {
    let err = HashSpec::parse("sha1deadbeef").unwrap_err();
    assert!(matches!(err, ApplyError::InvalidHashSpec(_)));
}

#[test]
fn format_kind_from_name_accepts_aliases() {
    assert_eq!(FormatKind::from_name("ips"), Some(FormatKind::Ips));
    assert_eq!(FormatKind::from_name("BSDIFF"), Some(FormatKind::Bdf));
    assert_eq!(FormatKind::from_name("aps_gba"), Some(FormatKind::ApsGba));
    assert_eq!(FormatKind::from_name("zzz"), None);
}
