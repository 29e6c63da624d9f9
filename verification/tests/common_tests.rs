use kernel_core::common::_print;
use kernel_core::common::strcpy;
use kernel_core::common::strlen;
use kernel_core::sbi::SbiConsole;

#[test]
fn strlen_counts_characters() {
    assert_eq!(strlen(""), 0);
    assert_eq!(strlen("hello"), 5);
}

#[test]
fn strlen_counts_characters_not_bytes() {
    // two characters, three bytes
    assert_eq!(strlen("aé"), 2);
}

#[test]
fn strcpy_copies_bytes_and_leaves_the_rest() {
    let mut dst: Vec<u8> = vec![9; 8];
    strcpy(&mut dst, "abc");
    assert_eq!(dst, vec![b'a', b'b', b'c', 9, 9, 9, 9, 9]);
}

#[test]
fn strcpy_into_exactly_fitting_buffer() {
    let mut dst: Vec<u8> = vec![0; 3];
    strcpy(&mut dst, "xyz");
    assert_eq!(dst, vec![b'x', b'y', b'z']);
}

#[test]
fn print_writes_every_byte_to_the_console() {
    let mut con = SbiConsole::new();
    _print(&mut con, "Hello, world!\n");
    assert_eq!(con.output().as_slice(), b"Hello, world!\n");
    _print(&mut con, "again");
    assert_eq!(con.output().as_slice(), b"Hello, world!\nagain");
}
