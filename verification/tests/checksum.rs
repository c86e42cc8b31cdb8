use rompatch_core::checksum_fix::{fix_game_boy, fix_mega_drive};

#[test]
fn gb_header_checksum_matches_logo_zeros() {
    // A blank 32 KiB ROM: header bytes 0x134..=0x14C are all zero.
    // 25 iterations of -1 -> 0x100 - 25 = 0xE7.
    let mut rom = vec![0u8; 0x8000];
    assert!(fix_game_boy(&mut rom));
    assert_eq!(rom[0x14D], 0xE7);
}

#[test]
fn md_checksum_handles_short_rom() {
    let mut rom = vec![0u8; 0x100];
    assert!(!fix_mega_drive(&mut rom));
}
