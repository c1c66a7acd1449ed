use ansi_to_html::tty::{escape_bash_string, get_stdout, FromUtf8Error};

#[test]
fn test_escaping() {
    assert_eq!(
        escape_bash_string(r#"Hello $`"' world!"#).as_str(),
        r#"Hello \$\`\"' world!"#
    );
}

#[test]
fn escaping_keeps_other_characters() {
    assert_eq!(escape_bash_string("").as_str(), "");
    assert_eq!(escape_bash_string("a\\b").as_str(), "a\\\\b");
    assert_eq!(escape_bash_string("h\u{e9} \u{1f600}$").as_str(), "h\u{e9} \u{1f600}\\$");
}

#[test]
fn stdout_gets_unix_line_ends() {
    assert_eq!(get_stdout(b"1\r\n2\r\n3\r\n".to_vec()).unwrap(), "1\n2\n3\n");
    assert_eq!(get_stdout(b"hello world\n".to_vec()).unwrap(), "hello world\n");
    assert_eq!(get_stdout(b"a\rb\r\r\nc\r".to_vec()).unwrap(), "a\rb\r\nc\r");
    assert_eq!(get_stdout("\u{e9}\r\n\u{1f600}".as_bytes().to_vec()).unwrap(), "\u{e9}\n\u{1f600}");
    assert_eq!(get_stdout(Vec::new()).unwrap(), "");
}

#[test]
fn stdout_that_is_not_utf8_is_an_error() {
    assert_eq!(get_stdout(vec![b'a', 0xff, b'b']), Err(FromUtf8Error));
    assert_eq!(get_stdout(vec![0xc3]), Err(FromUtf8Error));
}
