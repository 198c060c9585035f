use ftp_core::cmd::{FtpCommand, FtpCommandParser, IFtpCommandParser, ParseError, SocketAddress};
use ftp_core::file::FileType;

#[test]
fn test_parse_ftp_command() {
    let addr = match FtpCommandParser::parse("PORT 192,168,1,10,12,34").unwrap() {
        FtpCommand::PORT(s) => s,
        _ => panic!("Invalid command"),
    };

    assert_eq!(addr.to_string(), "192.168.1.10:3106");
}

#[test]
fn port_fields_give_address_and_port() {
    let addr = match FtpCommandParser::parse("PORT 0,0,0,0,255,255").unwrap() {
        FtpCommand::PORT(s) => s,
        _ => panic!("not PORT"),
    };
    assert_eq!(addr, SocketAddress { a: 0, b: 0, c: 0, d: 0, port: 65535 });
    assert_eq!(addr.to_string(), "0.0.0.0:65535");
}

#[test]
fn port_out_of_range_fails() {
    assert!(matches!(
        FtpCommandParser::parse("PORT 192,168,1,256,12,34"),
        Err(ParseError::InvalidPortNumber)
    ));
    assert!(matches!(
        FtpCommandParser::parse("PORT 192,168,1,-1,12,34"),
        Err(ParseError::InvalidPortNumber)
    ));
    assert!(matches!(
        FtpCommandParser::parse("PORT 192,168,,1,12,34"),
        Err(ParseError::InvalidPortNumber)
    ));
}

#[test]
fn port_wrong_count_fails() {
    assert!(matches!(
        FtpCommandParser::parse("PORT 192,168,1,10,12"),
        Err(ParseError::InvalidPortCount)
    ));
    assert!(matches!(
        FtpCommandParser::parse("PORT 1,2,3,4,5,6,7"),
        Err(ParseError::InvalidPortCount)
    ));
}

#[test]
fn no_argument_verbs_ignore_trailing_text() {
    assert!(matches!(FtpCommandParser::parse("QUIT now please"), Ok(FtpCommand::QUIT)));
    assert!(matches!(FtpCommandParser::parse("ABOR x"), Ok(FtpCommand::ABOR)));
    assert!(matches!(FtpCommandParser::parse("CDUP .."), Ok(FtpCommand::CDUP)));
    assert!(matches!(FtpCommandParser::parse("PWD a b"), Ok(FtpCommand::PWD)));
    assert!(matches!(FtpCommandParser::parse("PASV 1"), Ok(FtpCommand::PASV)));
    assert!(matches!(FtpCommandParser::parse("NOOP !"), Ok(FtpCommand::NOOP)));
    assert!(matches!(FtpCommandParser::parse("SYST  \t more"), Ok(FtpCommand::SYST)));
}

#[test]
fn type_codes() {
    let cases = [
        ("TYPE A", FileType::Ascii),
        ("TYPE E", FileType::Ebcdic),
        ("TYPE I", FileType::Image),
        ("TYPE N", FileType::NoPrint),
        ("TYPE T", FileType::Telnet),
    ];
    for (line, ft) in cases {
        match FtpCommandParser::parse(line) {
            Ok(FtpCommand::TYPE(t)) => assert_eq!(t, ft),
            _ => panic!("TYPE failed"),
        }
    }
    for line in ["TYPE X", "TYPE a", "TYPE", "TYPE A N"] {
        assert!(matches!(FtpCommandParser::parse(line), Err(ParseError::InvalidFileType)));
    }
}

#[test]
fn unknown_verb_is_noop() {
    assert!(matches!(FtpCommandParser::parse("FOO bar"), Ok(FtpCommand::NOOP)));
    assert!(matches!(FtpCommandParser::parse("user bob"), Ok(FtpCommand::NOOP)));
}

#[test]
fn arguments_are_joined_with_single_spaces() {
    match FtpCommandParser::parse("  RETR   my   file.txt \r\n") {
        Ok(FtpCommand::RETR(s)) => assert_eq!(s, "my file.txt"),
        _ => panic!("not RETR"),
    }
    match FtpCommandParser::parse("USER bob") {
        Ok(FtpCommand::USER(s)) => assert_eq!(s, "bob"),
        _ => panic!("not USER"),
    }
}

#[test]
fn optional_path_arguments() {
    assert!(matches!(FtpCommandParser::parse("LIST"), Ok(FtpCommand::LIST(None))));
    match FtpCommandParser::parse("NLIST dir") {
        Ok(FtpCommand::NLIST(Some(s))) => assert_eq!(s, "dir"),
        _ => panic!("not NLIST"),
    }
    assert!(matches!(FtpCommandParser::parse("STAT   "), Ok(FtpCommand::STAT(None))));
}

#[test]
fn numeric_arguments() {
    assert!(matches!(FtpCommandParser::parse("REST 1024"), Ok(FtpCommand::REST(1024))));
    assert!(matches!(
        FtpCommandParser::parse("ALLO 18446744073709551615"),
        Ok(FtpCommand::ALLO(18446744073709551615))
    ));
    assert!(matches!(FtpCommandParser::parse("REST +7"), Ok(FtpCommand::REST(7))));
    assert!(matches!(
        FtpCommandParser::parse("ALLO 18446744073709551616"),
        Err(ParseError::InvalidNumber)
    ));
    assert!(matches!(FtpCommandParser::parse("REST abc"), Err(ParseError::InvalidNumber)));
    assert!(matches!(FtpCommandParser::parse("REST"), Err(ParseError::InvalidNumber)));
}

#[test]
fn empty_line_is_an_error() {
    assert!(matches!(FtpCommandParser::parse(""), Err(ParseError::Empty)));
    assert!(matches!(FtpCommandParser::parse(" \r\n"), Err(ParseError::Empty)));
}
