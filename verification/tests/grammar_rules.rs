use either::Either;
use managesieve::parser::{
    active_sieve_name, atom, code, literal_c2s, literal_c2s_len, literal_s2c, literal_s2c_len,
    quoted_string, response, response_authenticate_complete, response_authenticate_initial,
    response_capability, response_getscript, response_listscripts, response_starttls,
    sieve_name_c2s, sievestring_c2s, sievestring_s2c, single_capability,
};
use managesieve::{OkNoBye, ParseError, QuotaVariant, ResponseCode};

#[test]
fn test_atom() {
    assert!(matches!(atom(b"SASL"), Ok((b"", ResponseCode::Sasl))));
    assert!(atom(b"ABCDE").is_err());
}

#[test]
fn test_literal_s2c_len() {
    assert!(matches!(literal_s2c_len(b"{3}\r\n"), Ok((b"", 3))));
    assert!(matches!(literal_s2c_len(b"{0}\r\n"), Ok((b"", 0))));
    assert!(literal_s2c_len(b"{3}").is_err());
    assert!(matches!(literal_s2c_len(b"{3}\r\nab"), Ok((b"ab", 3))));
}

#[test]
fn test_literal_s2c() {
    assert_eq!(literal_s2c(b"{3}\r\nabc").unwrap().1, b"abc");
    assert!(literal_s2c(b"{4}\r\nabc").is_err());
    assert!(literal_s2c(b"{0}\r\n").is_ok());
}

#[test]
fn test_sievestring_s2c() {
    assert_eq!(sievestring_s2c(b"{3}\r\nabc").unwrap().1, b"abc");
    assert_eq!(sievestring_s2c(b"\"hello\"").unwrap().1, b"hello");
}

#[test]
fn test_literal_c2s_len() {
    test_literal_s2c_len();
    assert!(matches!(literal_c2s_len(b"{3}\r\n"), Ok((b"", 3))));
    assert!(matches!(literal_c2s_len(b"{0}\r\n"), Ok((b"", 0))));
    assert!(literal_c2s_len(b"{3}").is_err());
    assert!(matches!(literal_c2s_len(b"{3}\r\nab"), Ok((b"ab", 3))));
    assert!(matches!(literal_c2s_len(b"{3+}\r\n"), Ok((b"", 3))));
}

#[test]
fn test_literal_c2s() {
    test_literal_s2c();
    assert_eq!(literal_c2s(b"{3}\r\nabc").unwrap().1, b"abc");
    assert!(literal_c2s(b"{4}\r\nabc").is_err());
    assert!(literal_c2s(b"{0}\r\n").is_ok());
    assert_eq!(literal_c2s(b"{3+}\r\nabc").unwrap().1, b"abc");
    assert!(literal_c2s(b"{4+}\r\nabc").is_err());
}

#[test]
fn test_sievestring_c2s() {
    assert_eq!(sievestring_c2s(b"{3+}\r\nabc").unwrap().1, b"abc");
    assert_eq!(sievestring_c2s(b"\"hello\"").unwrap().1, b"hello");
}

#[test]
fn test_code() {
    assert!(matches!(
        code(b"(QUOTA)"),
        Ok((b"", (ResponseCode::Quota(QuotaVariant::Unspecified), None)))
    ));
    assert_eq!(
        code(b"(TAG {16}\r\nSTARTTLS-SYNC-42)"),
        Ok((
            &b""[..],
            (ResponseCode::Tag, Some(b"STARTTLS-SYNC-42".to_vec()))
        ))
    );
    assert_eq!(
        code(b"(TAG \"STARTTLS-SYNC-42\")"),
        Ok((
            &b""[..],
            (ResponseCode::Tag, Some(b"STARTTLS-SYNC-42".to_vec()))
        ))
    );
}

#[test]
fn test_quoted_string() {
    quoted_string(b"\"hello\"").unwrap();
    quoted_string(b"\"\"").unwrap();
    assert!(quoted_string(b"hello").is_err());
}

#[test]
fn test_sieve_name_c2s() {
    sieve_name_c2s(b"\"hello\"").unwrap();
    sieve_name_c2s("\"hello\u{1337}\"".as_bytes()).unwrap();
    sieve_name_c2s(b"{3}\r\nabc").unwrap();
    assert!(matches!(
        sieve_name_c2s(b"\"he\x1f\""),
        Err(ParseError::Failure)
    ));
    assert!(matches!(sieve_name_c2s(b"\"he\" \x1f"), Ok((b" \x1f", _))));
}

#[test]
fn test_active_sieve_name() {
    assert!(active_sieve_name(b"hello  ").unwrap().1.is_none());
    assert!(active_sieve_name(b"\"hello \" ").unwrap().1.is_some());
    assert!(active_sieve_name(b"\"hello\x7f \" ").is_err());
    assert!(active_sieve_name(b"\"\"").is_ok());
    assert!(matches!(
        active_sieve_name(b"hello   "),
        Ok((b"hello   ", None))
    ));
    assert!(matches!(active_sieve_name(b"   "), Ok((_, None))));
}

#[test]
fn test_response() {
    response(b"ok\r\n").unwrap();
    response(b"nO\r\n").unwrap();
    response(b"BYE\r\n").unwrap();
    response(b"ok (QUOTA)\r\n").unwrap();
    response(b"ok (QUOTA) \"hello\"\r\n").unwrap();
    assert!(response(b"ok").is_err());
    assert!(response(b" ok\r\n").is_err());
    assert!(response(b"ok (\r\n").is_err());
    assert!(response(b"ok (QUOTA\r\n").is_err());
    assert!(response(b"ok (QUOTA/)\r\n").is_err());
}

#[test]
fn test_response_getscript() {
    response_getscript(b"\"hello\"\r\nOK\r\n").unwrap();
    response_getscript(b"NO\r\n").unwrap();
    assert!(response_getscript(b"\"hello\"\r\nBYE\r\n").is_err());
}

#[test]
fn test_response_listscripts() {
    response_listscripts(b"\"script1\"\r\n\"script2\"\r\nOK\r\n").unwrap();
    response_listscripts(b"\"script1\" ACTIVE\r\n\"script2\"\r\nOK\r\n").unwrap();
    response_listscripts(b"\"script1\" active\r\n\"script2\"\r\nOK\r\n").unwrap();
    response_listscripts(b"OK\r\n").unwrap();
    response_listscripts(b"BYE\r\n").unwrap();
}

#[test]
fn test_single_capability() {
    single_capability(b"\"CAPABILITY1\"\r\n").unwrap();
    single_capability(b"\"CAPABILITY2\" \"a b c d e\"\r\n").unwrap();
    assert!(single_capability(b"\"CAPABILITY2\" \r\n").is_err());
}

#[test]
fn test_response_capability() {
    response_capability(b"\"CAPABILITY1\"\r\n\"CAPABILITY2\"\r\nOK\r\n").unwrap();
}

#[test]
fn test_response_capability_2() {
    let listing = b"\"IMPLEMENTATION\" \"Example1 ManageSieved v001\"\r\n\
        \"VERSION\" \"1.0\"\r\n\
        \"SASL\" \"PLAIN SCRAM-SHA-1 GSSAPI\"\r\n\
        \"SIEVE\" \"fileinto vacation\"\r\n\
        \"STARTTLS\"\r\n\
        OK\r\n";
    let (rest, (entries, status)) = response_capability(listing).unwrap();
    assert!(rest.is_empty());
    assert_eq!(entries.len(), 5);
    assert_eq!(entries[4], (b"STARTTLS".to_vec(), None));
    assert_eq!(status.tag, OkNoBye::Okay);
}

#[test]
fn test_response_starttls() {
    response_starttls(b"OK\r\n\"CAPABILITY1\"\r\n\"CAPABILITY2\"\r\nOK\r\n").unwrap();
    response_starttls(b"BYE\r\n").unwrap();
}

#[test]
fn test_response_authenticate_initial() {
    response_authenticate_initial(b"{4}\r\nabcd\r\n").unwrap();
    response_authenticate_initial(b"BYE\r\n").unwrap();
}

#[test]
fn test_response_authenticate_complete() {
    response_authenticate_complete(b"OK\r\n\"CAPABILITY1\"\r\n\"CAPABILITY2\"\r\nOK\r\n")
        .unwrap();
    response_authenticate_complete(b"BYE\r\n").unwrap();
}

#[test]
fn authenticate_initial_tells_challenge_from_refusal() {
    let (rest, reply) = response_authenticate_initial(b"{4}\r\nabcd\r\nrest").unwrap();
    assert_eq!(rest, b"rest");
    assert_eq!(reply, Either::Left(b"abcd".to_vec()));
    let (rest, reply) = response_authenticate_initial(b"NO \"go away\"\r\n").unwrap();
    assert!(rest.is_empty());
    match reply {
        Either::Right(status) => {
            assert_eq!(status.tag, OkNoBye::No);
            assert_eq!(status.human, Some(b"go away".to_vec()));
        }
        Either::Left(_) => panic!("a refusal is no challenge"),
    }
    assert_eq!(
        response_authenticate_initial(b"OK\r\n"),
        Err(ParseError::Error)
    );
}
