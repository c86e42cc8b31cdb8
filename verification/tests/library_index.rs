use rompatch_core::library::{
    check_not_patch, content_file_name, delete_entry, delete_rom, entry_paths, extension_of,
    find_entry, import_rom, list, list_roms, lookup_by_patch_hash, reapply_status, record,
    record_input, reveal_path, rom_path_for, verify, GuiError, IpcError, LibraryEntry,
    LibraryIndex, LibraryRomEntry, RecordInput, RevealTarget, VerifyStatus, LIBRARY_INDEX_VERSION,
};
use rompatch_core::hash::sha256_hex;
use rompatch_core::{ApplyOptions, FormatKind};

fn empty_index() -> LibraryIndex {
    LibraryIndex {
        version: LIBRARY_INDEX_VERSION,
        root: "/lib".to_string(),
        roms: Vec::new(),
        entries: Vec::new(),
    }
}

fn input(source: &str, patch: &str, patch_name: &str, output: &str) -> RecordInput {
    RecordInput {
        source_hash: source.to_string(),
        source_name: "rom.bin".to_string(),
        source_size: 4,
        patch_hash: patch.to_string(),
        patch_name: patch_name.to_string(),
        output_hash: output.to_string(),
        output_name: "out.bin".to_string(),
        output_size: 4,
        format: FormatKind::Ips,
        header: None,
        fixed_checksum: None,
        apply_options: ApplyOptions::default(),
    }
}

fn ids(entries: &[LibraryEntry]) -> Vec<String> {
    entries.iter().map(|e| e.id.clone()).collect()
}

#[test]
fn extension_follows_path_rules() {
    assert_eq!(extension_of("hack.IPS"), Some("ips".to_string()));
    assert_eq!(extension_of("a.b.bps"), Some("bps".to_string()));
    assert_eq!(extension_of("noext"), None);
    assert_eq!(extension_of(".hidden"), None);
    assert_eq!(extension_of("trailing."), Some(String::new()));
    assert_eq!(extension_of("dir.d/file"), None);
    assert_eq!(extension_of(".."), None);
}

#[test]
fn content_file_names_keep_patch_extension() {
    assert_eq!(content_file_name("abc", Some("ips")), "abc.ips");
    assert_eq!(content_file_name("abc", Some("")), "abc.bin");
    assert_eq!(content_file_name("abc", None), "abc.bin");
    assert_eq!(rom_path_for("abc"), "roms/abc.bin");
}

#[test]
fn record_registers_rom_and_entry() {
    let mut index = empty_index();
    let pos = record(
        &mut index,
        input("s1", "p1", "hack.IPS", "o1"),
        "rom-1".to_string(),
        "entry-1".to_string(),
        "2024-01-01T00:00:00Z".to_string(),
    );
    assert_eq!(pos, 0);
    assert_eq!(index.roms.len(), 1);
    assert_eq!(index.roms[0].id, "rom-1");
    assert_eq!(index.roms[0].rom_hash, "s1");
    assert_eq!(index.entries.len(), 1);
    let e = &index.entries[0];
    assert_eq!(e.id, "entry-1");
    assert_eq!(e.applied_at, "2024-01-01T00:00:00Z");
    let (source, patch, output) = entry_paths(e);
    assert_eq!(source, "roms/s1.bin");
    assert_eq!(patch, "patches/p1.ips");
    assert_eq!(output, "outputs/o1.bin");
}

#[test]
fn recording_twice_refreshes_the_same_entry() {
    let mut index = empty_index();
    record(&mut index, input("s1", "p1", "a.ips", "o1"), "r1".into(), "e1".into(), "t1".into());
    let pos = record(&mut index, input("s1", "p1", "a.ips", "o1"), "r2".into(), "e2".into(), "t2".into());
    assert_eq!(pos, 0);
    assert_eq!(index.entries.len(), 1);
    assert_eq!(index.roms.len(), 1);
    assert_eq!(index.entries[0].id, "e1");
    assert_eq!(index.entries[0].applied_at, "t2");
}

#[test]
fn list_is_newest_first_and_stable() {
    let mut index = empty_index();
    record(&mut index, input("s1", "p1", "a.ips", "o1"), "r".into(), "e1".into(), "2024-01-02".into());
    record(&mut index, input("s1", "p2", "b.ips", "o2"), "r".into(), "e2".into(), "2024-01-03".into());
    record(&mut index, input("s1", "p3", "c.ips", "o3"), "r".into(), "e3".into(), "2024-01-02".into());
    record(&mut index, input("s1", "p4", "d.ips", "o4"), "r".into(), "e4".into(), "2024-01-01".into());
    let listed = list(index);
    assert_eq!(ids(&listed), vec!["e2", "e1", "e3", "e4"]);
}

#[test]
fn list_roms_is_newest_first() {
    let mut index = empty_index();
    import_rom(&mut index, b"A", "a.bin".into(), None, "r1".into(), "2024-01-01".into()).unwrap();
    import_rom(&mut index, b"B", "b.bin".into(), None, "r2".into(), "2024-03-01".into()).unwrap();
    import_rom(&mut index, b"C", "c.bin".into(), None, "r3".into(), "2024-02-01".into()).unwrap();
    let roms: Vec<LibraryRomEntry> = list_roms(index);
    let order: Vec<String> = roms.iter().map(|r| r.id.clone()).collect();
    assert_eq!(order, vec!["r2", "r3", "r1"]);
}

#[test]
fn import_rom_is_deduplicated_by_hash() {
    let mut index = empty_index();
    let a = import_rom(&mut index, b"AAAA", "a.bin".into(), None, "r1".into(), "t".into()).unwrap();
    let b = import_rom(&mut index, b"AAAA", "b.bin".into(), None, "r2".into(), "u".into()).unwrap();
    assert_eq!(a, 0);
    assert_eq!(b, 0);
    assert_eq!(index.roms.len(), 1);
    assert_eq!(index.roms[0].rom_name, "a.bin");
    assert_eq!(index.roms[0].rom_size, 4);
    assert_eq!(
        index.roms[0].rom_hash,
        "63c1dd951ffedf6f7fd968ad4efa39b8ed584f162f46e715114ee184f8de9201"
    );
}

#[test]
fn lookup_filters_by_patch_hash() {
    let mut index = empty_index();
    let p1 = sha256_hex(b"PATCH-1");
    let p2 = sha256_hex(b"PATCH-2");
    record(&mut index, input("s1", &p1, "a.ips", "o1"), "r".into(), "e1".into(), "1".into());
    record(&mut index, input("s2", &p2, "b.ips", "o2"), "r".into(), "e2".into(), "2".into());
    record(&mut index, input("s3", &p1, "a.ips", "o3"), "r".into(), "e3".into(), "3".into());
    let found = lookup_by_patch_hash(index, b"PATCH-1");
    assert_eq!(ids(&found), vec!["e3", "e1"]);
}

#[test]
fn verify_compares_output_hash() {
    let mut index = empty_index();
    let out = sha256_hex(b"OUT");
    record(&mut index, input("s1", "p1", "a.ips", &out), "r".into(), "e1".into(), "1".into());
    let e = &index.entries[0];
    assert_eq!(verify(e, Some(b"OUT")), VerifyStatus::Match);
    assert_eq!(verify(e, Some(b"other")), VerifyStatus::Mismatch);
    assert_eq!(verify(e, None), VerifyStatus::Missing);
    assert_eq!(reapply_status(e, b"OUT"), VerifyStatus::Match);
    assert_eq!(reapply_status(e, b""), VerifyStatus::Mismatch);
}

#[test]
fn reveal_path_picks_the_target() {
    let mut index = empty_index();
    record(&mut index, input("s1", "p1", "a.ups", "o1"), "r".into(), "e1".into(), "1".into());
    assert_eq!(reveal_path(&index, "e1", RevealTarget::Source).unwrap(), "roms/s1.bin");
    assert_eq!(reveal_path(&index, "e1", RevealTarget::Patch).unwrap(), "patches/p1.ups");
    assert_eq!(reveal_path(&index, "e1", RevealTarget::Output).unwrap(), "outputs/o1.bin");
    match reveal_path(&index, "nope", RevealTarget::Source) {
        Err(GuiError::Library(m)) => assert_eq!(m, "entry not found: nope"),
        other => panic!("unexpected: {other:?}"),
    }
}

#[test]
fn delete_entry_unlinks_only_unshared_blobs() {
    let mut index = empty_index();
    record(&mut index, input("s1", "pa", "a.ips", "oa"), "r".into(), "e1".into(), "1".into());
    record(&mut index, input("s1", "pa", "a.ips", "ob"), "r".into(), "e2".into(), "2".into());
    record(&mut index, input("s1", "pb", "b.ips", "oc"), "r".into(), "e3".into(), "3".into());
    // e1 shares its patch with e2; its output is unique.
    let files = delete_entry(&mut index, "e1").unwrap();
    assert_eq!(files, vec!["outputs/oa.bin".to_string()]);
    assert_eq!(ids(&index.entries), vec!["e2", "e3"]);
    assert_eq!(index.roms.len(), 1, "source ROM must be preserved");
    // e3's patch and output are both unique.
    let files = delete_entry(&mut index, "e3").unwrap();
    assert_eq!(files, vec!["patches/pb.ips".to_string(), "outputs/oc.bin".to_string()]);
}

#[test]
fn delete_entry_unknown_id_is_refused() {
    let mut index = empty_index();
    record(&mut index, input("s1", "p1", "a.ips", "o1"), "r".into(), "e1".into(), "1".into());
    match delete_entry(&mut index, "does-not-exist") {
        Err(GuiError::Library(m)) => assert_eq!(m, "entry not found: does-not-exist"),
        other => panic!("unexpected: {other:?}"),
    }
    assert_eq!(index.entries.len(), 1);
}

#[test]
fn delete_rom_cascades_entries_and_preserves_shared_blobs() {
    let mut index = empty_index();
    record(&mut index, input("romA", "shared", "s.ips", "outA"), "ra".into(), "e1".into(), "1".into());
    record(&mut index, input("romB", "shared", "s.ips", "outB"), "rb".into(), "e2".into(), "2".into());
    let files = delete_rom(&mut index, "romA").unwrap();
    assert_eq!(files, vec!["roms/romA.bin".to_string(), "outputs/outA.bin".to_string()]);
    assert_eq!(ids(&index.entries), vec!["e2"]);
    assert_eq!(index.roms.len(), 1);
    assert_eq!(index.roms[0].rom_hash, "romB");
}

#[test]
fn delete_rom_unknown_hash_errors() {
    let mut index = empty_index();
    match delete_rom(&mut index, "deadbeef") {
        Err(GuiError::Library(m)) => assert_eq!(m, "rom not found: deadbeef"),
        other => panic!("unexpected: {other:?}"),
    }
}

#[test]
fn patch_files_are_not_roms() {
    match check_not_patch(b"PATCHEOF", "hack.ips") {
        Err(GuiError::Library(m)) => {
            assert!(m.starts_with("hack.ips looks like a IPS patch, not a ROM."));
        }
        other => panic!("unexpected: {other:?}"),
    }
    assert!(check_not_patch(b"\x00\x01\x02\x03not a patch", "rom.bin").is_ok());
}

#[test]
fn find_entry_reports_position() {
    let mut index = empty_index();
    record(&mut index, input("s1", "p1", "a.ips", "o1"), "r".into(), "e1".into(), "1".into());
    record(&mut index, input("s1", "p2", "a.ips", "o2"), "r".into(), "e2".into(), "2".into());
    assert_eq!(find_entry(&index, "e2").unwrap(), 1);
}

#[test]
fn ipc_error_flattens_kind_and_message() {
    let e = IpcError::from(GuiError::Library("boom".to_string()));
    assert_eq!(e.kind, "library");
    assert_eq!(e.message, "boom");
    let e = IpcError::from(GuiError::Patch(rompatch_core::PatchError::Truncated));
    assert_eq!(e.kind, "patch");
    assert_eq!(e.message, "patch is truncated");
    let io = std::io::Error::new(std::io::ErrorKind::NotFound, "gone");
    let e = IpcError::from(GuiError::Io(io));
    assert_eq!(e.kind, "io");
    assert_eq!(e.message, "I/O error: gone");
}

#[test]
fn record_input_hashes_the_files() {
    let r = record_input(
        b"",
        "rom.bin".into(),
        b"abc",
        "p.ips".into(),
        b"AAAA",
        "out.bin".into(),
        FormatKind::Ips,
        None,
        None,
        ApplyOptions::default(),
    );
    assert_eq!(r.source_hash, "e3b0c44298fc1c149afbf4c8996fb92427ae41e4649b934ca495991b7852b855");
    assert_eq!(r.patch_hash, "ba7816bf8f01cfea414140de5dae2223b00361a396177a9cb410ff61f20015ad");
    assert_eq!(r.output_size, 4);
    assert_eq!(r.source_size, 0);
}

#[test]
fn import_rom_rejects_files_with_patch_magic() {
    let mut index = empty_index();
    let mut ips = b"PATCH".to_vec();
    ips.extend_from_slice(b"EOF");
    let err = import_rom(&mut index, &ips, "hack.ips".into(), None, "r1".into(), "t".into())
        .unwrap_err();
    match err {
        GuiError::Library(msg) => {
            assert!(msg.contains("IPS"), "error should name the format: {msg}");
            assert!(msg.contains("patch"), "error should call it a patch: {msg}");
        }
        other => panic!("expected GuiError::Library, got {other:?}"),
    }
    assert!(index.roms.is_empty());
    assert!(index.entries.is_empty());
}

#[test]
fn import_rom_accepts_files_without_patch_magic() {
    let mut index = empty_index();
    let pos = import_rom(
        &mut index,
        b"\x00\x01\x02\x03not a patch",
        "rom.bin".into(),
        None,
        "r1".into(),
        "t".into(),
    )
    .unwrap();
    assert_eq!(index.roms[pos].rom_name, "rom.bin");
}

#[test]
fn import_rom_checks_only_the_first_64_bytes() {
    let mut index = empty_index();
    let mut rom = vec![0u8; 64];
    rom.extend_from_slice(b"PATCHEOF");
    assert!(import_rom(&mut index, &rom, "late.bin".into(), None, "r1".into(), "t".into()).is_ok());
    assert_eq!(index.roms.len(), 1);
}

#[test]
fn delete_rom_bare_entry_removes_record_and_file() {
    let mut index = empty_index();
    let pos = import_rom(&mut index, b"BARE", "rom.bin".into(), None, "r1".into(), "t".into())
        .unwrap();
    let hash = index.roms[pos].rom_hash.clone();
    assert_eq!(hash, sha256_hex(b"BARE"));
    let files = delete_rom(&mut index, &hash).unwrap();
    assert!(index.roms.is_empty());
    assert_eq!(files, vec![rom_path_for(&hash)]);
}
