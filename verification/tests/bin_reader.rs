use rompatch_core::bin_file::BinReader;
use rompatch_core::PatchError;

fn write_vlv(out: &mut Vec<u8>, mut value: u64) {
    loop {
        let byte = (value & 0x7f) as u8;
        value >>= 7;
        if value == 0 {
            out.push(byte | 0x80);
            return;
        }
        out.push(byte);
        value -= 1;
    }
}

#[test]
fn vlv_roundtrips_known_values() {
    let cases: &[u64] = &[
        0,
        1,
        0x7f,
        0x80,
        0x100,
        0x1234,
        0xdead_beef,
        u64::from(u32::MAX),
    ];
    for &v in cases {
        let mut buf = Vec::new();
        write_vlv(&mut buf, v);
        let mut r = BinReader::new(&buf);
        assert_eq!(r.read_vlv().unwrap(), v, "value {v} did not roundtrip");
    }
}

#[test]
fn read_past_end_returns_truncated() {
    let mut r = BinReader::new(&[1, 2]);
    assert_eq!(r.read_u32_le(), Err(PatchError::Truncated));
}

#[test]
fn peek_does_not_advance() {
    let r = BinReader::new(&[1, 2, 3, 4]);
    assert_eq!(r.peek(2).unwrap(), &[1, 2]);
    assert_eq!(r.pos(), 0);
}
