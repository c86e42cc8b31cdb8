use rompatch_core::info::describe;
use rompatch_core::{FormatKind, PatchError};

fn field<'a>(fields: &'a [(String, String)], key: &str) -> Option<&'a str> {
    fields.iter().find(|(k, _)| k == key).map(|(_, v)| v.as_str())
}

#[test]
fn describes_ppf_version_description_and_flags() {
    let mut p = b"PPF30".to_vec();
    p.push(2);
    let mut desc = b"  My Hack  ".to_vec();
    desc.resize(50, 0);
    p.extend_from_slice(&desc);
    p.extend_from_slice(&[1, 1, 0, 0]);
    let info = describe(&p).unwrap();
    assert_eq!(info.format, FormatKind::Ppf);
    assert_eq!(info.patch_size, 60);
    let keys: Vec<&str> = info.fields.iter().map(|(k, _)| k.as_str()).collect();
    assert_eq!(keys, vec!["version", "description", "image type", "block check", "undo data"]);
    assert_eq!(field(&info.fields, "version"), Some("3"));
    assert_eq!(field(&info.fields, "description"), Some("My Hack"));
    assert_eq!(field(&info.fields, "image type"), Some("GI"));
    assert_eq!(field(&info.fields, "block check"), Some("true"));
    assert_eq!(field(&info.fields, "undo data"), Some("false"));
}

#[test]
fn describe_rejects_unknown_ppf_version() {
    let mut p = b"PPF90".to_vec();
    p.resize(56, b' ');
    assert_eq!(describe(&p).unwrap_err(), PatchError::InvalidEncoding);
}

#[test]
fn describes_aps_gba_sizes() {
    let mut p = b"APS1".to_vec();
    p.extend_from_slice(&100u32.to_le_bytes());
    p.extend_from_slice(&200u32.to_le_bytes());
    p.extend_from_slice(&vec![0u8; 65544 * 2 + 5]);
    let info = describe(&p).unwrap();
    assert_eq!(info.format, FormatKind::ApsGba);
    assert_eq!(field(&info.fields, "source size"), Some("100"));
    assert_eq!(field(&info.fields, "target size"), Some("200"));
    assert_eq!(field(&info.fields, "64KiB blocks"), Some("2"));
}

#[test]
fn describes_aps_n64_header() {
    let mut p = b"APS10".to_vec();
    p.push(0x01);
    p.push(0x00);
    let mut desc = b"N64 hack".to_vec();
    desc.resize(50, b' ');
    p.extend_from_slice(&desc);
    // 57..=0x4D: cart id at 0x3A..0x3D, CRC at 0x3D..0x45, size at 0x4A.
    p.resize(0x4E, 0);
    p[0x3A] = 0x4E;
    p[0x3B] = 0x4D;
    p[0x3C] = 0x45;
    p[0x4A..0x4E].copy_from_slice(&1234u32.to_le_bytes());
    let info = describe(&p).unwrap();
    assert_eq!(info.format, FormatKind::ApsN64);
    assert_eq!(field(&info.fields, "header type"), Some("0x01"));
    assert_eq!(field(&info.fields, "encoding method"), Some("0x00"));
    assert_eq!(field(&info.fields, "description"), Some("N64 hack"));
    assert_eq!(field(&info.fields, "N64 cart id"), Some("4e4d45"));
    assert_eq!(field(&info.fields, "N64 CRC field"), Some("0000000000000000"));
    assert_eq!(field(&info.fields, "target size"), Some("1234"));
}

#[test]
fn describes_bdf_signed_lengths() {
    let mut p = b"BSDIFF40".to_vec();
    p.extend_from_slice(&10u64.to_le_bytes());
    let mut neg = 5u64.to_le_bytes();
    neg[7] |= 0x80;
    p.extend_from_slice(&neg);
    p.extend_from_slice(&300u64.to_le_bytes());
    let info = describe(&p).unwrap();
    assert_eq!(field(&info.fields, "ctrl block size"), Some("10"));
    assert_eq!(field(&info.fields, "diff block size"), Some("-5"));
    assert_eq!(field(&info.fields, "target size"), Some("300"));
}

#[test]
fn describes_rup_text_fields() {
    let mut p = b"NINJA2".to_vec();
    p.push(0);
    let mut author = b"Someone".to_vec();
    author.resize(84, 0);
    p.extend_from_slice(&author);
    p.extend_from_slice(&[0u8; 11]);
    let mut title = b"Title \x00\x00".to_vec();
    title.resize(256, b' ');
    p.extend_from_slice(&title);
    p.resize(0x800, 0);
    let info = describe(&p).unwrap();
    let keys: Vec<&str> = info.fields.iter().map(|(k, _)| k.as_str()).collect();
    assert_eq!(keys, vec!["author", "title"]);
    assert_eq!(field(&info.fields, "author"), Some("Someone"));
    assert_eq!(field(&info.fields, "title"), Some("Title"));
}

#[test]
fn describes_bps_with_metadata() {
    let mut p = b"BPS1".to_vec();
    p.push(0x84); // source size 4
    p.push(0x85); // target size 5
    p.push(0x83); // metadata size 3
    p.extend_from_slice(b"abc");
    p.extend_from_slice(&[0u8; 12]);
    let info = describe(&p).unwrap();
    let keys: Vec<&str> = info.fields.iter().map(|(k, _)| k.as_str()).collect();
    assert_eq!(
        keys,
        vec!["source size", "target size", "metadata size", "metadata", "source CRC32", "target CRC32", "patch CRC32"]
    );
    assert_eq!(field(&info.fields, "metadata"), Some("abc"));
    assert_eq!(field(&info.fields, "target size"), Some("5"));
}

#[test]
fn describe_short_headers_are_truncated() {
    assert_eq!(describe(b"UPS1").unwrap_err(), PatchError::Truncated);
    assert_eq!(describe(b"PMSR\x00").unwrap_err(), PatchError::Truncated);
    assert_eq!(describe(b"BSDIFF40").unwrap_err(), PatchError::Truncated);
}
