use anglerkit::trampoline::arch::traits::Thunk;
use anglerkit::trampoline::arch::{aarch64, bytes, x86, x86_64};

#[test]
fn x86_64_thunk() {
    let mut thunk = x86_64::Thunk::new(0x1122334455667788);
    thunk.init(0x1000);
    assert_eq!(thunk.target(), 0x1122334455667788);
    assert_eq!(
        thunk.to_bytes(),
        b"\x66\xFF\x2D\x01\x00\x00\x00\xCC\x88\x77\x66\x55\x44\x33\x22\x11"
    );
    thunk.set_target(1);
    assert_eq!(thunk.target(), 1);
    assert_eq!(thunk.to_bytes()[8..], [1, 0, 0, 0, 0, 0, 0, 0]);
}

#[test]
fn aarch64_thunk() {
    let mut thunk = aarch64::Thunk::new(0x0102030405060708);
    thunk.init(0x1000);
    assert_eq!(thunk.target(), 0x0102030405060708);
    assert_eq!(
        thunk.to_bytes(),
        b"\x50\x00\x00\x58\x00\x02\x1f\xd6\x08\x07\x06\x05\x04\x03\x02\x01"
    );
    thunk.set_target(u64::MAX);
    assert_eq!(thunk.to_bytes()[8..], [0xFF; 8]);
}

#[test]
fn x86_thunk_knows_its_address() {
    let mut thunk = x86::Thunk::new(0xDEADBEEF);
    assert_eq!(thunk.to_bytes(), b"\xFF\x25\x00\x00\x00\x00\xCC\xCC\xEF\xBE\xAD\xDE");
    thunk.init(0x00401000);
    assert_eq!(thunk.target(), 0xDEADBEEF);
    assert_eq!(thunk.to_bytes(), b"\xFF\x25\x08\x10\x40\x00\xCC\xCC\xEF\xBE\xAD\xDE");
    thunk.set_target(7);
    assert_eq!(thunk.to_bytes(), b"\xFF\x25\x08\x10\x40\x00\xCC\xCC\x07\x00\x00\x00");
}

#[test]
fn numbers_are_little_endian() {
    let mut code = vec![0x90];
    bytes::push_le(&mut code, 0x01020304, 3);
    bytes::push_all(&mut code, &[9, 8]);
    assert_eq!(code, [0x90, 4, 3, 2, 9, 8]);
}
