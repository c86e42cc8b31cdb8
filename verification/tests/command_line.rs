use rompatch_core::command::{apply_options, parse_hash_algo, patched_file_name, render_info, CommandError};
use rompatch_core::{info, ApplyError, FormatKind, HashAlgo, PatchError};

#[test]
fn default_output_name_keeps_extension() {
    assert_eq!(patched_file_name("rom.gba"), "rom.patched.gba");
    assert_eq!(patched_file_name("game.v1.smc"), "game.v1.patched.smc");
    assert_eq!(patched_file_name("noext"), "noext.patched");
    assert_eq!(patched_file_name(".hidden"), ".hidden.patched");
    assert_eq!(patched_file_name(""), ".patched");
}

#[test]
fn apply_options_from_flags() {
    let o = apply_options(true, false, Some("SHA1:ABCD"), None, Some("bsdiff")).unwrap();
    assert!(o.strip_header);
    assert!(!o.fix_checksum);
    let v = o.verify_input.unwrap();
    assert_eq!(v.algo, HashAlgo::Sha1);
    assert_eq!(v.expected_hex, "abcd");
    assert!(o.verify_output.is_none());
    assert_eq!(o.format_override, Some(FormatKind::Bdf));
}

#[test]
fn apply_options_reject_bad_flags_in_order() {
    match apply_options(false, false, Some("nope"), None, Some("zzz")) {
        Err(ApplyError::UnknownFormatName(n)) => assert_eq!(n, "zzz"),
        other => panic!("unexpected: {other:?}"),
    }
    match apply_options(false, false, Some("nope"), Some("md4:00"), None) {
        Err(ApplyError::InvalidHashSpec(s)) => assert_eq!(s, "nope"),
        other => panic!("unexpected: {other:?}"),
    }
    match apply_options(false, false, None, Some("md4:00"), None) {
        Err(ApplyError::InvalidHashSpec(s)) => assert_eq!(s, "md4"),
        other => panic!("unexpected: {other:?}"),
    }
}

#[test]
fn hash_algo_names() {
    assert_eq!(parse_hash_algo("ADLER32").unwrap(), HashAlgo::Adler32);
    match parse_hash_algo("md4") {
        Err(CommandError::InvalidHashAlgo(s)) => assert_eq!(s, "md4"),
        other => panic!("unexpected: {other:?}"),
    }
}

#[test]
fn exit_codes_and_messages() {
    let io = CommandError::Io(std::io::Error::new(std::io::ErrorKind::NotFound, "missing"));
    assert_eq!(io.exit_code(), 3);
    assert_eq!(io.message(), "I/O error: missing");
    assert_eq!(CommandError::UnknownFormat.exit_code(), 2);
    assert_eq!(
        CommandError::UnknownFormat.message(),
        "unknown patch format (no recognized magic bytes)"
    );
    let p = CommandError::Patch(PatchError::OffsetOutOfRange { offset: 7, max: 3 });
    assert_eq!(p.exit_code(), 2);
    assert_eq!(p.message(), "patch offset 7 exceeds limit 3");
    assert_eq!(CommandError::InvalidHashAlgo("x".into()).message(), "invalid hash algorithm: x");
}

#[test]
fn info_report_lines() {
    let report = info::describe(b"PMSR\x00\x00\x00\x02").unwrap();
    let lines = render_info(&report);
    assert_eq!(
        lines,
        vec![
            "format: PMSR".to_string(),
            "patch size: 8 bytes".to_string(),
            "record count: 2".to_string(),
            "expected ROM: Paper Mario USA1.0 (41,943,040 bytes, CRC32 a7f5cd7e)".to_string(),
        ]
    );
}
