use vga_console::fixed_string::{String as FixedString, MAX_SIZE};
use vga_console::QemuExitCode;

#[test]
fn exit_codes_are_fixed() {
    assert_eq!(QemuExitCode::Success.code(), 0x10);
    assert_eq!(QemuExitCode::Failed.code(), 0x11);
}

#[test]
fn fixed_string_keeps_pushed_bytes() {
    let mut s = FixedString::new();
    assert_eq!(s.as_slice(), &[] as &[u8]);
    s.push(b'h');
    s.push(b'i');
    assert_eq!(s.as_slice(), b"hi");
    assert_eq!(s.len(), 2);
}

#[test]
fn fixed_string_fills_to_capacity() {
    let mut s = FixedString::new();
    for i in 0..MAX_SIZE {
        s.push((i % 251) as u8);
    }
    assert_eq!(s.len(), MAX_SIZE);
    assert_eq!(s.as_slice()[MAX_SIZE - 1], ((MAX_SIZE - 1) % 251) as u8);
}
