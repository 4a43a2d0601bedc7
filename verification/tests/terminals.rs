use managesieve::capability::{bytes_eq, capabilities, split_tokens, unsigned};
use managesieve::parser::{
    bye, crlf, keyword, keyword_no_case, no, nobye, number, ok, script_entry, spaces, to_lower,
};
use managesieve::reply::one_active_at_most;
use managesieve::{Capability, Error, OkNoBye, ParseError};

#[test]
fn keyword_matches_byte_for_byte() {
    assert_eq!(keyword(b"TAG)", b"TAG"), Ok((&b")"[..], ())));
    assert_eq!(keyword(b"TAG", b"TAG"), Ok((&b""[..], ())));
    assert_eq!(keyword(b"tag", b"TAG"), Err(ParseError::Error));
    assert_eq!(keyword(b"TA", b"TAG"), Err(ParseError::Incomplete));
    assert_eq!(keyword(b"", b"TAG"), Err(ParseError::Incomplete));
    assert_eq!(keyword(b"TX", b"TAG"), Err(ParseError::Error));
    assert_eq!(keyword(b"anything", b""), Ok((&b"anything"[..], ())));
}

#[test]
fn keyword_without_case_folds_ascii_letters_only() {
    assert_eq!(keyword_no_case(b"aCtIvE\r\n", b"ACTIVE"), Ok((&b"\r\n"[..], ())));
    assert_eq!(keyword_no_case(b"ACTIV", b"ACTIVE"), Err(ParseError::Incomplete));
    assert_eq!(keyword_no_case(b"ACTIVA", b"ACTIVE"), Err(ParseError::Error));
    assert_eq!(keyword_no_case(b"@B", b"`b"), Err(ParseError::Error));
    assert_eq!(keyword_no_case(b"[", b"{"), Err(ParseError::Error));
    assert_eq!(
        keyword_no_case("O\u{212a}".as_bytes(), b"OK"),
        Err(ParseError::Error)
    );
    assert_eq!(to_lower(b'A'), b'a');
    assert_eq!(to_lower(b'Z'), b'z');
    assert_eq!(to_lower(b'@'), b'@');
    assert_eq!(to_lower(b'['), b'[');
    assert_eq!(to_lower(b'a'), b'a');
    assert_eq!(to_lower(0xc9), 0xc9);
}

#[test]
fn status_words_in_any_case() {
    assert_eq!(ok(b"oK "), Ok((&b" "[..], OkNoBye::Okay)));
    assert_eq!(no(b"No"), Ok((&b""[..], OkNoBye::No)));
    assert_eq!(bye(b"bYe\r\n"), Ok((&b"\r\n"[..], OkNoBye::Bye)));
    assert_eq!(nobye(b"BYE"), Ok((&b""[..], OkNoBye::Bye)));
    assert_eq!(nobye(b"no"), Ok((&b""[..], OkNoBye::No)));
    assert_eq!(nobye(b"OK"), Err(ParseError::Error));
    assert_eq!(nobye(b"N"), Err(ParseError::Incomplete));
    assert_eq!(nobye(b"B"), Err(ParseError::Incomplete));
    assert_eq!(nobye(b""), Err(ParseError::Incomplete));
    assert_eq!(ok(b"O"), Err(ParseError::Incomplete));
    assert_eq!(ok(b"NO"), Err(ParseError::Error));
}

#[test]
fn line_end_is_cr_lf() {
    assert_eq!(crlf(b"\r\nx"), Ok((&b"x"[..], ())));
    assert_eq!(crlf(b"\r"), Err(ParseError::Incomplete));
    assert_eq!(crlf(b""), Err(ParseError::Incomplete));
    assert_eq!(crlf(b"\n"), Err(ParseError::Error));
    assert_eq!(crlf(b"\rx"), Err(ParseError::Error));
}

#[test]
fn spaces_need_a_byte_that_ends_them() {
    assert_eq!(spaces(b" \t x"), Ok((&b"x"[..], ())));
    assert_eq!(spaces(b" x"), Ok((&b"x"[..], ())));
    assert_eq!(spaces(b"  "), Err(ParseError::Incomplete));
    assert_eq!(spaces(b""), Err(ParseError::Incomplete));
    assert_eq!(spaces(b"x "), Err(ParseError::Error));
    assert_eq!(spaces(b"\r\n"), Err(ParseError::Error));
}

#[test]
fn numbers_need_a_byte_that_ends_them() {
    assert_eq!(number(b"0}"), Ok((&b"}"[..], 0)));
    assert_eq!(number(b"0042 "), Ok((&b" "[..], 42)));
    assert_eq!(number(b"1234567890x"), Ok((&b"x"[..], 1234567890)));
    assert_eq!(number(b"12"), Err(ParseError::Incomplete));
    assert_eq!(number(b""), Err(ParseError::Incomplete));
    assert_eq!(number(b"x12"), Err(ParseError::Error));
    assert_eq!(number(b"+12}"), Err(ParseError::Error));
    let largest = format!("{}}}", usize::MAX);
    assert_eq!(number(largest.as_bytes()), Ok((&b"}"[..], usize::MAX)));
    let beyond = format!("{}0}}", usize::MAX);
    assert_eq!(number(beyond.as_bytes()), Err(ParseError::Error));
    let beyond = format!("{}0", usize::MAX);
    assert_eq!(number(beyond.as_bytes()), Err(ParseError::Incomplete));
}

#[test]
fn script_lines() {
    assert_eq!(
        script_entry(b"\"a\"\r\n\"b\""),
        Ok((&b"\"b\""[..], (b"a".to_vec(), false)))
    );
    assert_eq!(
        script_entry(b"\"a\" \tactive\r\n"),
        Ok((&b""[..], (b"a".to_vec(), true)))
    );
    assert_eq!(script_entry(b"\"a\"ACTIVE\r\n"), Err(ParseError::Error));
    assert_eq!(script_entry(b"\"a\" ACTIVE \r\n"), Err(ParseError::Error));
    assert_eq!(script_entry(b"\"a\" "), Err(ParseError::Incomplete));
    assert_eq!(script_entry(b"OK\r\n"), Err(ParseError::Error));
}

#[test]
fn byte_strings_compare() {
    assert!(bytes_eq(b"", b""));
    assert!(bytes_eq(b"SASL", b"SASL"));
    assert!(!bytes_eq(b"SASL", b"SASl"));
    assert!(!bytes_eq(b"SASL", b"SAS"));
    assert!(!bytes_eq(b"SAS", b"SASL"));
}

#[test]
fn list_values_split_at_each_space() {
    assert_eq!(split_tokens(b""), vec![b"".to_vec()]);
    assert_eq!(split_tokens(b"PLAIN"), vec![b"PLAIN".to_vec()]);
    assert_eq!(
        split_tokens(b"PLAIN LOGIN"),
        vec![b"PLAIN".to_vec(), b"LOGIN".to_vec()]
    );
    assert_eq!(
        split_tokens(b" a  b "),
        vec![
            b"".to_vec(),
            b"a".to_vec(),
            b"".to_vec(),
            b"b".to_vec(),
            b"".to_vec()
        ]
    );
    assert_eq!(split_tokens(b"a\tb"), vec![b"a\tb".to_vec()]);
    for value in [&b"a b c"[..], b"", b" ", b"  x", b"x y  z "] {
        let tokens = split_tokens(value);
        assert!(tokens.iter().all(|t| !t.contains(&b' ')));
        assert_eq!(tokens.join(&b' '), value);
    }
}

#[test]
fn values_read_as_numbers() {
    assert_eq!(unsigned(b"0"), Some(0));
    assert_eq!(unsigned(b"+0"), Some(0));
    assert_eq!(unsigned(b"00012"), Some(12));
    assert_eq!(unsigned(b"+12"), Some(12));
    assert_eq!(unsigned(b""), None);
    assert_eq!(unsigned(b"+"), None);
    assert_eq!(unsigned(b"++1"), None);
    assert_eq!(unsigned(b"-1"), None);
    assert_eq!(unsigned(b"1 "), None);
    assert_eq!(unsigned(b" 1"), None);
    assert_eq!(unsigned(b"1a"), None);
    assert_eq!(unsigned(b"0x10"), None);
    assert_eq!(
        unsigned(usize::MAX.to_string().as_bytes()),
        Some(usize::MAX)
    );
    assert_eq!(unsigned(format!("{}0", usize::MAX).as_bytes()), None);
    assert_eq!(unsigned(format!("{}a", usize::MAX).as_bytes()), None);
    assert_eq!(unsigned(b"99999999999999999999999999999999999999999"), None);
}

#[test]
fn at_most_one_script_is_active() {
    let entry = |name: &str, active: bool| (name.as_bytes().to_vec(), active);
    assert!(one_active_at_most(&vec![]));
    assert!(one_active_at_most(&vec![entry("a", false)]));
    assert!(one_active_at_most(&vec![entry("a", true)]));
    assert!(one_active_at_most(&vec![
        entry("a", false),
        entry("b", true),
        entry("c", false)
    ]));
    assert!(!one_active_at_most(&vec![entry("a", true), entry("b", true)]));
    assert!(!one_active_at_most(&vec![
        entry("a", true),
        entry("b", false),
        entry("a", true)
    ]));
}

#[test]
fn listing_lines_become_capabilities() {
    let line = |name: &str, value: Option<&str>| {
        (name.as_bytes().to_vec(), value.map(|v| v.as_bytes().to_vec()))
    };
    assert_eq!(capabilities(&vec![]), Ok(vec![]));
    assert_eq!(
        capabilities(&vec![
            line("LANGUAGE", Some("fr")),
            line("OWNER", Some("bob")),
            line("MAXREDIRECTS", Some("0")),
        ]),
        Ok(vec![
            Capability::Language(b"fr".to_vec()),
            Capability::Owner(b"bob".to_vec()),
            Capability::MaxRedirects(0),
        ])
    );
    assert_eq!(
        capabilities(&vec![
            line("LANGUAGE", Some("fr")),
            line("OWNER", None),
            line("MAXREDIRECTS", Some("0")),
        ]),
        Err(Error::InvalidResponse)
    );
}
