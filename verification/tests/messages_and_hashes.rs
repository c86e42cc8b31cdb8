use rompatch_core::apply::HashAlgo;
use rompatch_core::format::bdf;
use rompatch_core::library::compute_hashes;
use rompatch_core::{ApplyError, HashCheckKind, PatchError};

#[test]
fn patch_error_messages() {
    assert_eq!(PatchError::Truncated.message(), "patch is truncated");
    assert_eq!(
        PatchError::InputSizeMismatch { expected: 10, actual: 12 }.message(),
        "input ROM size mismatch: expected 10, got 12"
    );
    assert_eq!(
        PatchError::InputHashMismatch { expected: 0xdeadbeef, actual: 0x1 }.message(),
        "input ROM hash mismatch: expected 0xdeadbeef, got 0x00000001"
    );
    assert_eq!(
        PatchError::OutputTooLarge { declared: 300, max: 200 }.message(),
        "declared output size 300 exceeds limit 200"
    );
    let mut expected = [0u8; 16];
    expected[0] = 0xab;
    let actual = [0u8; 16];
    assert_eq!(
        PatchError::OutputMd5Mismatch { expected, actual }.message(),
        "output ROM MD5 mismatch: expected ab000000000000000000000000000000, got 00000000000000000000000000000000"
    );
    assert_eq!(
        PatchError::UnsupportedFeature("undo mode").message(),
        "unsupported patch feature: undo mode"
    );
}

#[test]
fn apply_error_messages() {
    assert_eq!(
        ApplyError::HashMismatch {
            kind: HashCheckKind::Output,
            algo: HashAlgo::Sha1,
            expected: "aa".into(),
            actual: "bb".into(),
        }
        .message(),
        "output sha1 hash mismatch: expected aa, got bb"
    );
    assert_eq!(ApplyError::Patch(PatchError::InvalidMagic).message(), "invalid patch magic bytes");
    assert_eq!(ApplyError::UnknownFormatName("x".into()).message(), "unknown format name: x");
}

#[test]
fn known_digests() {
    let r = compute_hashes(b"abc");
    assert_eq!(r.crc32, "352441c2");
    assert_eq!(r.md5, "900150983cd24fb0d6963f7d28e17f72");
    assert_eq!(r.sha1, "a9993e364706816aba3e25717850c26c9cd0d89d");
    assert_eq!(r.adler32, "024d0127");
    assert_eq!(r.file_size, 3);
    assert_eq!(HashAlgo::Sha1.compute_hex(b""), "da39a3ee5e6b4b0d3255bfef95601890afd80709");
    assert_eq!(HashAlgo::Crc32.compute_hex(b""), "00000000");
    assert_eq!(HashAlgo::Adler32.compute_hex(b""), "00000001");
    assert_eq!(HashAlgo::Md5.compute_hex(b""), "d41d8cd98f00b204e9800998ecf8427e");
}

#[test]
fn bdf_empty_blocks_give_empty_output() {
    // An empty bzip2 stream.
    let empty_bz: [u8; 14] = [
        0x42, 0x5A, 0x68, 0x39, 0x17, 0x72, 0x45, 0x38, 0x50, 0x90, 0x00, 0x00, 0x00, 0x00,
    ];
    let mut p = b"BSDIFF40".to_vec();
    p.extend_from_slice(&14u64.to_le_bytes());
    p.extend_from_slice(&14u64.to_le_bytes());
    p.extend_from_slice(&0u64.to_le_bytes());
    p.extend_from_slice(&empty_bz);
    p.extend_from_slice(&empty_bz);
    p.extend_from_slice(&empty_bz);
    assert_eq!(bdf::apply(&p, &[1, 2, 3]).unwrap(), Vec::<u8>::new());
}
