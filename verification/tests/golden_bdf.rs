use rompatch_core::format::bdf;

#[test]
fn golden_bdf_rejects_invalid_magic() {
    let mut p = b"NOTABDF1".to_vec();
    p.extend_from_slice(&[0u8; 24]);
    let rom = vec![0u8; 4];
    assert!(bdf::apply(&p, &rom).is_err());
}

#[test]
fn rejects_truncated_header() {
    let p = b"BSDIFF40".to_vec();
    let rom = vec![0u8; 4];
    assert!(bdf::apply(&p, &rom).is_err());
}
