use managesieve::parser;
use managesieve::command::{decimal, to_lit_c2s, to_qs, to_sieve_name};
use managesieve::{Command, Error};

#[test]
fn commands_without_arguments() {
    assert_eq!(Command::authenticate().to_string(), "AUTHENTICATE\r\n");
    assert_eq!(Command::start_tls().to_string(), "STARTTLS\r\n");
    assert_eq!(Command::logout().to_string(), "LOGOUT\r\n");
    assert_eq!(Command::capability().to_string(), "CAPABILITY\r\n");
    assert_eq!(Command::list_scripts().to_string(), "LISTSCRIPTS\r\n");
    assert_eq!(Command::noop().to_string(), "NOOP\r\n");
    assert_eq!(Command::unauthenticate().to_string(), "UNAUTHENTICATE\r\n");
}

#[test]
fn commands_with_a_script_name() {
    assert_eq!(
        Command::have_space("myscript", 999999).unwrap().to_string(),
        "HAVESPACE \"myscript\" 999999\r\n"
    );
    assert_eq!(
        Command::have_space("", 0).unwrap().to_string(),
        "HAVESPACE \"\" 0\r\n"
    );
    assert_eq!(
        Command::set_active("baz").unwrap().to_string(),
        "SETACTIVE \"baz\"\r\n"
    );
    assert_eq!(
        Command::deletescript("foo").unwrap().to_string(),
        "DELETESCRIPT \"foo\"\r\n"
    );
    assert_eq!(
        Command::renamescript("foo").unwrap().to_string(),
        "RENAMESCRIPT \"foo\"\r\n"
    );
    assert_eq!(
        Command::checkscript("caf\u{e9}").unwrap().to_string(),
        "CHECKSCRIPT \"caf\u{e9}\"\r\n"
    );
}

#[test]
fn put_script_frames_the_body_as_a_synchronizing_literal() {
    assert_eq!(
        Command::put_script("foo", "keep;\r\n").unwrap().to_string(),
        "PUTSCRIPT \"foo\" {7+}\r\nkeep;\r\n\r\n"
    );
    assert_eq!(
        Command::put_script("foo", "").unwrap().to_string(),
        "PUTSCRIPT \"foo\" {0+}\r\n\r\n"
    );
    assert_eq!(
        Command::put_script("foo", "\u{e9}\"\\\0").unwrap().to_string(),
        "PUTSCRIPT \"foo\" {5+}\r\n\u{e9}\"\\\0\r\n"
    );
}

#[test]
fn names_are_quoted_without_escaping() {
    assert_eq!(
        Command::set_active("a\"b\\c").unwrap().to_string(),
        "SETACTIVE \"a\"b\\c\"\r\n"
    );
    assert_eq!(to_qs("a\"b"), "\"a\"b\"");
}

#[test]
fn every_command_ends_with_crlf() {
    let commands = vec![
        Command::authenticate(),
        Command::start_tls(),
        Command::logout(),
        Command::capability(),
        Command::have_space("s", 1).unwrap(),
        Command::put_script("s", "body without line end").unwrap(),
        Command::list_scripts(),
        Command::set_active("s").unwrap(),
        Command::deletescript("s").unwrap(),
        Command::renamescript("s").unwrap(),
        Command::checkscript("s").unwrap(),
        Command::noop(),
        Command::unauthenticate(),
    ];
    for command in commands {
        assert!(command.to_string().ends_with("\r\n"));
    }
}

#[test]
fn bad_names_are_rejected_at_construction() {
    assert_eq!(Command::set_active("a\u{1f}b"), Err(Error::InvalidInput));
    assert_eq!(Command::have_space("\u{0}", 1), Err(Error::InvalidInput));
    assert_eq!(Command::put_script("x\u{7f}", "keep;"), Err(Error::InvalidInput));
    assert_eq!(Command::deletescript("\u{85}"), Err(Error::InvalidInput));
    assert_eq!(Command::renamescript("a\u{2028}"), Err(Error::InvalidInput));
    assert_eq!(Command::checkscript("\u{2029}a"), Err(Error::InvalidInput));
    assert_eq!(to_sieve_name("line\nbreak"), Err(Error::InvalidInput));
}

#[test]
fn good_names_are_kept_as_they_are() {
    assert_eq!(to_sieve_name("a b~\u{a0}\u{1337}"), Ok("a b~\u{a0}\u{1337}".to_string()));
    assert_eq!(
        Command::set_active("\u{2027}\u{202a}"),
        Ok(Command::SetActive("\u{2027}\u{202a}".to_string()))
    );
    assert_eq!(
        Command::have_space("n", 7),
        Ok(Command::HaveSpace("n".to_string(), 7))
    );
    assert_eq!(
        Command::put_script("n", "b"),
        Ok(Command::PutScript("n".to_string(), "b".to_string()))
    );
}

#[test]
fn numbers_are_written_in_decimal() {
    assert_eq!(decimal(0), "0");
    assert_eq!(decimal(9), "9");
    assert_eq!(decimal(10), "10");
    assert_eq!(decimal(1234567890), "1234567890");
    assert_eq!(decimal(usize::MAX), usize::MAX.to_string());
}

#[test]
fn literal_length_counts_bytes() {
    assert_eq!(to_lit_c2s("abc"), "{3+}\r\nabc");
    assert_eq!(to_lit_c2s("\u{20ac}"), "{3+}\r\n\u{20ac}");
    assert_eq!(to_lit_c2s(""), "{0+}\r\n");
}

#[test]
fn what_put_script_sends_decodes_to_the_script() {
    let script = "if true {\r\n  keep;\r\n}\r\n\0";
    let sent = to_lit_c2s(script);
    assert_eq!(
        parser::literal_c2s(sent.as_bytes()),
        Ok((&b""[..], script.as_bytes().to_vec()))
    );
    let sent = to_qs("my script");
    assert_eq!(
        parser::sieve_name_c2s(sent.as_bytes()),
        Ok((&b""[..], b"my script".to_vec()))
    );
}
