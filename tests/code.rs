use ftp_core::code::fmt_msg;

#[test]
fn test_fmt_msg() {
    assert_eq!("220 FTP server ready.\r\n", fmt_msg(220, "FTP server ready."));
}

#[test]
fn fmt_msg_zero_and_large_codes() {
    assert_eq!(fmt_msg(0, ""), "0 \r\n");
    assert_eq!(fmt_msg(4294967295, "x"), "4294967295 x\r\n");
}
