use kernel_core::sbi::CONSOLE_PUTCHAR_EID;
use kernel_core::sbi::CONSOLE_PUTCHAR_FID;
use kernel_core::sbi::SBI_ERR_NOT_SUPPORTED;
use kernel_core::sbi::SbiConsole;
use kernel_core::sbi::putchar;
use kernel_core::sbi::sbi_call;

#[test]
fn putchar_appends_one_byte() {
    let mut con = SbiConsole::new();
    putchar(&mut con, b'X');
    putchar(&mut con, b'Y');
    assert_eq!(con.output().as_slice(), b"XY");
}

#[test]
fn console_call_outputs_and_reports_success() {
    let mut con = SbiConsole::new();
    let ret = sbi_call(&mut con, b'Z' as i32, 0, 0, 0, 0, 0, CONSOLE_PUTCHAR_FID, CONSOLE_PUTCHAR_EID);
    assert_eq!(ret.error, 0);
    assert_eq!(ret.value, 0);
    assert_eq!(con.output().as_slice(), b"Z");
}

#[test]
fn unknown_service_is_not_supported_and_outputs_nothing() {
    let mut con = SbiConsole::new();
    let ret = sbi_call(&mut con, 1, 2, 3, 4, 5, 6, 0, 0x10);
    assert_eq!(ret.error, SBI_ERR_NOT_SUPPORTED);
    assert_eq!(ret.value, 0);
    assert!(con.output().is_empty());
}
