use rompatch_core::apply::{run, ApplyError, ApplyOptions, HashAlgo, HashCheckKind, HashSpec};
use rompatch_core::format::{rup, ups};
use rompatch_core::{hash, PatchError};

fn write_vlv(out: &mut Vec<u8>, mut value: u64) {
    loop {
        let byte = (value & 0x7f) as u8;
        value >>= 7;
        if value == 0 {
            out.push(byte | 0x80);
            return;
        }
        out.push(byte);
        value -= 1;
    }
}

fn write_rup_vlv(out: &mut Vec<u8>, value: u64) {
    let mut bytes = Vec::new();
    let mut v = value;
    while v != 0 {
        bytes.push((v & 0xFF) as u8);
        v >>= 8;
    }
    out.push(bytes.len() as u8);
    out.extend_from_slice(&bytes);
}

fn rup_header(rom: &[u8], target_len: u64, target_md5: [u8; 16]) -> Vec<u8> {
    let mut p = b"NINJA2".to_vec();
    p.resize(0x800, 0);
    p.push(0x01);
    write_rup_vlv(&mut p, 4);
    p.extend_from_slice(b"rom\0");
    p.push(0);
    write_rup_vlv(&mut p, rom.len() as u64);
    write_rup_vlv(&mut p, target_len);
    p.extend_from_slice(&hash::md5(rom));
    p.extend_from_slice(&target_md5);
    p
}

#[test]
fn ups_output_crc_mismatch_is_reported() {
    let src = vec![0u8; 4];
    let mut p = b"UPS1".to_vec();
    write_vlv(&mut p, 4);
    write_vlv(&mut p, 4);
    p.extend_from_slice(&hash::crc32(&src).to_le_bytes());
    p.extend_from_slice(&0x1234_5678u32.to_le_bytes());
    let patch_crc = hash::crc32(&p);
    p.extend_from_slice(&patch_crc.to_le_bytes());
    assert_eq!(
        ups::apply(&p, &src).unwrap_err(),
        PatchError::OutputHashMismatch { expected: 0x1234_5678, actual: hash::crc32(&src) }
    );
}

#[test]
fn rup_target_md5_mismatch_is_reported() {
    let rom = vec![7u8; 4];
    let mut p = rup_header(&rom, 4, [0u8; 16]);
    p.push(0x00);
    assert_eq!(
        rup::apply(&p, &rom).unwrap_err(),
        PatchError::OutputMd5Mismatch { expected: [0u8; 16], actual: hash::md5(&rom) }
    );
}

#[test]
fn rup_undo_mode_is_unsupported() {
    let rom = vec![7u8; 4];
    let mut p = rup_header(&rom, 6, hash::md5(&[7u8, 7, 7, 7, 0, 0]));
    p.push(b'M');
    write_rup_vlv(&mut p, 2);
    p.extend_from_slice(&[0xFF, 0xFF]);
    p.push(0x00);
    assert_eq!(
        rup::apply(&p, &rom).unwrap_err(),
        PatchError::UnsupportedFeature(rup::UNDO_MODE_MESSAGE)
    );
}

#[test]
fn rup_without_matching_file_is_refused() {
    let rom = vec![7u8; 4];
    let mut p = rup_header(&rom, 4, hash::md5(&rom));
    p.push(0x00);
    p.push(0x00);
    assert_eq!(rup::apply(&p, &[1u8; 4]).unwrap_err(), PatchError::NoMatchingFile);
}

#[test]
fn output_hash_check_failure_names_both_hashes() {
    let rom = vec![0xAB; 64];
    let mut patch = b"PATCH".to_vec();
    patch.extend_from_slice(b"EOF");
    let opts = ApplyOptions {
        verify_output: Some(HashSpec {
            algo: HashAlgo::Adler32,
            expected_hex: "00000000".into(),
        }),
        ..ApplyOptions::default()
    };
    match run(&rom, &patch, &opts).unwrap_err() {
        ApplyError::HashMismatch { kind, algo, expected, actual } => {
            assert_eq!(kind, HashCheckKind::Output);
            assert_eq!(algo, HashAlgo::Adler32);
            assert_eq!(expected, "00000000");
            assert_eq!(actual, HashAlgo::Adler32.compute_hex(&rom));
        }
        other => panic!("unexpected: {other:?}"),
    }
}

#[test]
fn rup_unknown_overflow_mode_is_invalid() {
    let rom = vec![7u8; 4];
    let mut p = rup_header(&rom, 6, hash::md5(&[7u8, 7, 7, 7, 0, 0]));
    p.push(b'X');
    write_rup_vlv(&mut p, 0);
    p.push(0x00);
    assert_eq!(rup::apply(&p, &rom).unwrap_err(), PatchError::InvalidEncoding);
}

#[test]
fn rup_append_mode_needs_a_larger_target() {
    let rom = vec![7u8; 4];
    let mut p = rup_header(&rom, 2, hash::md5(&[7u8, 7]));
    p.push(b'A');
    write_rup_vlv(&mut p, 0);
    p.push(0x00);
    assert_eq!(rup::apply(&p, &rom).unwrap_err(), PatchError::InvalidEncoding);
}
