use managesieve::parser;
use managesieve::{
    response_authenticate, response_capability, response_checkscript, response_deletescript,
    response_getscript, response_havespace, response_listscripts, response_logout,
    response_noop, response_putscript, response_renamescript, response_setactive,
    response_starttls, response_unauthenticate, Capability, Error, OkNoBye, ParseError,
    QuotaVariant, Response, ResponseCode,
};

fn bytes(text: &str) -> Vec<u8> {
    text.as_bytes().to_vec()
}

fn plain(tag: OkNoBye) -> Response {
    Response {
        tag,
        code: None,
        human: None,
    }
}

#[test]
fn quoted_string_drops_backslashes_and_keeps_escaped_bytes() {
    assert_eq!(
        parser::quoted_string(b"\"a\\\"b\""),
        Ok((&b""[..], bytes("a\"b")))
    );
    assert_eq!(
        parser::quoted_string(b"\"\\\\\""),
        Ok((&b""[..], bytes("\\")))
    );
    assert_eq!(
        parser::quoted_string(b"\"\\n\\x\" tail"),
        Ok((&b" tail"[..], bytes("nx")))
    );
}

#[test]
fn quoted_string_without_closing_quote_is_incomplete() {
    assert_eq!(parser::quoted_string(b"\"abc"), Err(ParseError::Incomplete));
    assert_eq!(parser::quoted_string(b"\""), Err(ParseError::Incomplete));
    assert_eq!(parser::quoted_string(b""), Err(ParseError::Incomplete));
    assert_eq!(parser::quoted_string(b"\"abc\\"), Err(ParseError::Incomplete));
    assert_eq!(parser::quoted_string(b"\"abc\\\""), Err(ParseError::Incomplete));
}

#[test]
fn quoted_string_without_opening_quote_is_an_error() {
    assert_eq!(parser::quoted_string(b"abc\""), Err(ParseError::Error));
}

#[test]
fn literal_takes_exactly_the_announced_bytes() {
    assert_eq!(
        parser::literal_s2c(b"{7}\r\na\r\n\0\"{b\r\nOK\r\n"),
        Ok((&b"\r\nOK\r\n"[..], b"a\r\n\0\"{b".to_vec()))
    );
    assert_eq!(
        parser::literal_s2c(b"{007}\r\nabcdefgh"),
        Ok((&b"h"[..], bytes("abcdefg")))
    );
    assert_eq!(parser::literal_s2c(b"{0}\r\nabc"), Ok((&b"abc"[..], Vec::new())));
}

#[test]
fn literal_header_or_body_cut_short_is_incomplete() {
    assert_eq!(parser::literal_s2c(b"{"), Err(ParseError::Incomplete));
    assert_eq!(parser::literal_s2c(b"{12"), Err(ParseError::Incomplete));
    assert_eq!(parser::literal_s2c(b"{12}"), Err(ParseError::Incomplete));
    assert_eq!(parser::literal_s2c(b"{12}\r"), Err(ParseError::Incomplete));
    assert_eq!(parser::literal_s2c(b"{12}\r\n"), Err(ParseError::Incomplete));
    assert_eq!(parser::literal_s2c(b"{12}\r\nabc"), Err(ParseError::Incomplete));
    assert_eq!(parser::literal_c2s(b"{12+"), Err(ParseError::Incomplete));
}

#[test]
fn literal_with_a_bad_header_is_an_error() {
    assert_eq!(parser::literal_s2c(b"{}\r\n"), Err(ParseError::Error));
    assert_eq!(parser::literal_s2c(b"{a}\r\n"), Err(ParseError::Error));
    assert_eq!(parser::literal_s2c(b"{3}\nabc"), Err(ParseError::Error));
    assert_eq!(parser::literal_s2c(b"{3 }\r\nabc"), Err(ParseError::Error));
    assert_eq!(parser::literal_s2c(b"3}\r\nabc"), Err(ParseError::Error));
}

#[test]
fn synchronizing_literal_is_accepted_from_the_client_only() {
    assert_eq!(
        parser::literal_c2s(b"{3+}\r\nabcd"),
        Ok((&b"d"[..], bytes("abc")))
    );
    assert_eq!(parser::literal_s2c(b"{3+}\r\nabcd"), Err(ParseError::Error));
    assert_eq!(parser::sievestring_s2c(b"{3+}\r\nabcd"), Err(ParseError::Error));
}

#[test]
fn literal_length_beyond_the_machine_word_is_an_error() {
    assert_eq!(
        parser::literal_s2c_len(b"{99999999999999999999999999999999}\r\n"),
        Err(ParseError::Error)
    );
    let largest = format!("{{{}}}\r\n", usize::MAX);
    assert_eq!(
        parser::literal_s2c_len(largest.as_bytes()),
        Ok((&b""[..], usize::MAX))
    );
    assert_eq!(
        parser::literal_s2c(largest.as_bytes()),
        Err(ParseError::Incomplete)
    );
}

#[test]
fn atom_knows_the_whole_vocabulary() {
    let words: Vec<(&[u8], ResponseCode)> = vec![
        (b"AUTH-TOO-WEAK)", ResponseCode::AuthTooWeak),
        (b"ENCRYPT-NEEDED)", ResponseCode::EncryptNeeded),
        (b"QUOTA)", ResponseCode::Quota(QuotaVariant::Unspecified)),
        (
            b"QUOTA/MAXSCRIPTS)",
            ResponseCode::Quota(QuotaVariant::MaxScripts),
        ),
        (b"QUOTA/MAXSIZE)", ResponseCode::Quota(QuotaVariant::MaxSize)),
        (b"REFERRAL)", ResponseCode::Referral(Vec::new())),
        (b"SASL)", ResponseCode::Sasl),
        (b"TRANSITION-NEEDED)", ResponseCode::TransitionNeeded),
        (b"TRYLATER)", ResponseCode::TryLater),
        (b"ACTIVE)", ResponseCode::Active),
        (b"NONEXISTENT)", ResponseCode::Nonexistent),
        (b"ALREADYEXISTS)", ResponseCode::AlreadyExists),
        (b"TAG)", ResponseCode::Tag),
        (b"WARNINGS)", ResponseCode::Warnings),
    ];
    for (input, expected) in words {
        assert_eq!(parser::atom(input), Ok((&b")"[..], expected)));
    }
}

#[test]
fn atom_is_case_sensitive_and_closed() {
    assert_eq!(parser::atom(b"sasl)"), Err(ParseError::Error));
    assert_eq!(parser::atom(b"X-CUSTOM)"), Err(ParseError::Error));
    assert_eq!(parser::atom(b"QUOT"), Err(ParseError::Incomplete));
    assert_eq!(parser::atom(b"QUOTA"), Err(ParseError::Incomplete));
    assert_eq!(parser::atom(b""), Err(ParseError::Incomplete));
}

#[test]
fn status_line_carries_code_detail_and_text() {
    let (rest, status) =
        parser::response(b"NO (QUOTA/MAXSIZE \"too big\") \"Quota exceeded\"\r\nnext").unwrap();
    assert_eq!(rest, b"next");
    assert_eq!(
        status,
        Response {
            tag: OkNoBye::No,
            code: Some((
                ResponseCode::Quota(QuotaVariant::MaxSize),
                Some(bytes("too big"))
            )),
            human: Some(bytes("Quota exceeded")),
        }
    );
    let (_, status) = parser::response(b"bye \"closing\"\r\n").unwrap();
    assert_eq!(
        status,
        Response {
            tag: OkNoBye::Bye,
            code: None,
            human: Some(bytes("closing")),
        }
    );
    let (_, status) = parser::response(b"Ok\t(WARNINGS {5}\r\nL1\r\nX)\r\n").unwrap();
    assert_eq!(
        status,
        Response {
            tag: OkNoBye::Okay,
            code: Some((ResponseCode::Warnings, Some(bytes("L1\r\nX")))),
            human: None,
        }
    );
}

#[test]
fn status_line_rejects_what_the_grammar_does_not_allow() {
    assert_eq!(parser::response(b"OKAY\r\n"), Err(ParseError::Error));
    assert_eq!(parser::response(b"OK \r\n"), Err(ParseError::Error));
    assert_eq!(parser::response(b"OK (UNKNOWN)\r\n"), Err(ParseError::Error));
    assert_eq!(parser::response(b"OK {2}\r\nhi\r\n"), Err(ParseError::Error));
    assert_eq!(parser::response(b"OK\n"), Err(ParseError::Error));
    assert_eq!(parser::response(b"MAYBE\r\n"), Err(ParseError::Error));
    assert_eq!(parser::response_ok(b"NO\r\n"), Err(ParseError::Error));
    assert_eq!(parser::response_nobye(b"OK\r\n"), Err(ParseError::Error));
}

#[test]
fn status_only_replies_share_one_rule() {
    let decoders: Vec<fn(&[u8]) -> Result<(&[u8], Response), Error>> = vec![
        response_logout,
        response_setactive,
        response_deletescript,
        response_putscript,
        response_checkscript,
        response_havespace,
        response_renamescript,
        response_unauthenticate,
    ];
    for decode in decoders {
        assert_eq!(
            decode(b"OK\r\nNO\r\n"),
            Ok((&b"NO\r\n"[..], plain(OkNoBye::Okay)))
        );
        assert_eq!(decode(b"No\r\n"), Ok((&b""[..], plain(OkNoBye::No))));
        assert_eq!(decode(b"BYE\r\n"), Ok((&b""[..], plain(OkNoBye::Bye))));
        assert_eq!(decode(b"BY"), Err(Error::IncompleteResponse));
        assert_eq!(decode(b""), Err(Error::IncompleteResponse));
        assert_eq!(decode(b"HELLO\r\n"), Err(Error::InvalidResponse));
    }
}

#[test]
fn noop_accepts_ok_only() {
    assert_eq!(
        response_noop(b"OK (TAG \"t\") \"Done\"\r\n"),
        Ok((
            &b""[..],
            Response {
                tag: OkNoBye::Okay,
                code: Some((ResponseCode::Tag, Some(bytes("t")))),
                human: Some(bytes("Done")),
            }
        ))
    );
    assert_eq!(response_noop(b"NO\r\n"), Err(Error::InvalidResponse));
    assert_eq!(response_noop(b"BYE\r\n"), Err(Error::InvalidResponse));
    assert_eq!(response_noop(b"N"), Err(Error::IncompleteResponse));
    assert_eq!(response_noop(b"?"), Err(Error::InvalidResponse));
}

#[test]
fn getscript_gives_the_script_or_the_refusal() {
    assert_eq!(
        response_getscript(b"{14}\r\nkeep;\r\nstop;\r\n\r\nOK\r\nrest"),
        Ok((
            &b"rest"[..],
            Some(bytes("keep;\r\nstop;\r\n")),
            plain(OkNoBye::Okay)
        ))
    );
    assert_eq!(
        response_getscript(b"\"keep;\"\r\nok\r\n"),
        Ok((&b""[..], Some(bytes("keep;")), plain(OkNoBye::Okay)))
    );
    assert_eq!(
        response_getscript(b"NO (NONEXISTENT) \"no such script\"\r\n"),
        Ok((
            &b""[..],
            None,
            Response {
                tag: OkNoBye::No,
                code: Some((ResponseCode::Nonexistent, None)),
                human: Some(bytes("no such script")),
            }
        ))
    );
    assert_eq!(
        response_getscript(b"bye\r\n"),
        Ok((&b""[..], None, plain(OkNoBye::Bye)))
    );
}

#[test]
fn getscript_rejects_ok_without_a_script_and_a_script_without_ok() {
    assert_eq!(response_getscript(b"OK\r\n"), Err(Error::InvalidResponse));
    assert_eq!(
        response_getscript(b"\"keep;\"\r\nNO\r\n"),
        Err(Error::InvalidResponse)
    );
    assert_eq!(
        response_getscript(b"\"keep;\" OK\r\n"),
        Err(Error::InvalidResponse)
    );
    assert_eq!(
        response_getscript(b"\"keep;\"\r\n"),
        Err(Error::IncompleteResponse)
    );
}

#[test]
fn listscripts_accepts_one_active_script() {
    assert_eq!(
        response_listscripts(b"\"a\"\r\n\"b\" ACTIVE\r\n\"c\"\r\nOK\r\n"),
        Ok((
            &b""[..],
            vec![
                (bytes("a"), false),
                (bytes("b"), true),
                (bytes("c"), false)
            ],
            plain(OkNoBye::Okay)
        ))
    );
    assert_eq!(
        response_listscripts(b"{1}\r\na  \t aCtIvE\r\nOK\r\n"),
        Ok((&b""[..], vec![(bytes("a"), true)], plain(OkNoBye::Okay)))
    );
    assert_eq!(
        response_listscripts(b"NO\r\n"),
        Ok((&b""[..], Vec::new(), plain(OkNoBye::No)))
    );
}

#[test]
fn listscripts_rejects_two_active_scripts() {
    let two = b"\"a\"\r\n\"b\" ACTIVE\r\n\"c\" active\r\nOK\r\n";
    assert!(parser::response_listscripts(two).is_ok());
    assert_eq!(response_listscripts(two), Err(Error::InvalidResponse));
    assert_eq!(
        response_listscripts(b"\"a\" ACTIVE\r\n\"a\" ACTIVE\r\nOK\r\n"),
        Err(Error::InvalidResponse)
    );
}

#[test]
fn listscripts_rejects_a_broken_line() {
    assert_eq!(
        response_listscripts(b"\"a\" ACTIV\r\nOK\r\n"),
        Err(Error::InvalidResponse)
    );
    assert_eq!(
        response_listscripts(b"\"a\"\r\n\"b\" ACTIVE"),
        Err(Error::IncompleteResponse)
    );
    assert_eq!(
        response_listscripts(b"\"a\"\r\n"),
        Err(Error::IncompleteResponse)
    );
}

#[test]
fn capability_decodes_lists() {
    assert_eq!(
        response_capability(b"\"SASL\" \"PLAIN LOGIN\"\r\n\"SIEVE\" \"fileinto\"\r\nOK\r\n"),
        Ok((
            &b""[..],
            vec![
                Capability::Sasl(vec![bytes("PLAIN"), bytes("LOGIN")]),
                Capability::Sieve(vec![bytes("fileinto")])
            ],
            plain(OkNoBye::Okay)
        ))
    );
}

#[test]
fn capability_knows_each_name() {
    let listing = b"\"IMPLEMENTATION\" \"Example 1.0\"\r\n\
        \"SASL\" \"\"\r\n\
        \"SIEVE\" \"a  b\"\r\n\
        \"STARTTLS\"\r\n\
        \"MAXREDIRECTS\" \"5\"\r\n\
        \"NOTIFY\" {11}\r\nxmpp mailto\r\n\
        \"LANGUAGE\" \"en\"\r\n\
        \"OWNER\" \"alice\"\r\n\
        \"VERSION\" \"1.0\"\r\n\
        \"X-EXTENSION\" \"value\"\r\n\
        \"X-FLAG\"\r\n\
        \"sasl\" \"PLAIN\"\r\n\
        OK \"Capability completed.\"\r\n";
    let (rest, caps, status) = response_capability(listing).unwrap();
    assert!(rest.is_empty());
    assert_eq!(
        caps,
        vec![
            Capability::Implementation(bytes("Example 1.0")),
            Capability::Sasl(vec![bytes("")]),
            Capability::Sieve(vec![bytes("a"), bytes(""), bytes("b")]),
            Capability::StartTls,
            Capability::MaxRedirects(5),
            Capability::Notify(vec![bytes("xmpp"), bytes("mailto")]),
            Capability::Language(bytes("en")),
            Capability::Owner(bytes("alice")),
            Capability::Version(bytes("1.0")),
            Capability::Unknown(bytes("X-EXTENSION"), Some(bytes("value"))),
            Capability::Unknown(bytes("X-FLAG"), None),
            Capability::Unknown(bytes("sasl"), Some(bytes("PLAIN"))),
        ]
    );
    assert_eq!(status.human, Some(bytes("Capability completed.")));
}

#[test]
fn capability_value_rules() {
    assert_eq!(
        Capability::try_from((b"MAXREDIRECTS", Some(b"+17"))),
        Ok(Capability::MaxRedirects(17))
    );
    assert_eq!(
        Capability::try_from((b"MAXREDIRECTS", Some(b"007"))),
        Ok(Capability::MaxRedirects(7))
    );
    let largest = usize::MAX.to_string();
    assert_eq!(
        Capability::try_from((b"MAXREDIRECTS", Some(largest.as_bytes()))),
        Ok(Capability::MaxRedirects(usize::MAX))
    );
    for bad in [
        &b""[..],
        b"+",
        b"-1",
        b"five",
        b"5 ",
        b"1+1",
        b"340282366920938463463374607431768211456",
    ] {
        assert_eq!(
            Capability::try_from((b"MAXREDIRECTS", Some(bad))),
            Err(Error::InvalidResponse)
        );
    }
    for name in [
        &b"IMPLEMENTATION"[..],
        b"SASL",
        b"SIEVE",
        b"MAXREDIRECTS",
        b"NOTIFY",
        b"LANGUAGE",
        b"OWNER",
        b"VERSION",
    ] {
        assert_eq!(
            Capability::try_from((name, None)),
            Err(Error::InvalidResponse)
        );
    }
    assert_eq!(
        Capability::try_from((b"STARTTLS", Some(b"ignored"))),
        Ok(Capability::StartTls)
    );
    assert_eq!(
        response_capability(b"\"MAXREDIRECTS\" \"many\"\r\nOK\r\n"),
        Err(Error::InvalidResponse)
    );
    assert_eq!(
        response_capability(b"\"VERSION\"\r\nOK\r\n"),
        Err(Error::InvalidResponse)
    );
}

#[test]
fn starttls_announces_capabilities_anew() {
    assert_eq!(
        response_starttls(b"OK \"Begin TLS\"\r\n\"SASL\" \"PLAIN\"\r\nOK\r\nrest"),
        Ok((
            &b"rest"[..],
            vec![Capability::Sasl(vec![bytes("PLAIN")])],
            plain(OkNoBye::Okay)
        ))
    );
    assert_eq!(
        response_starttls(b"NO \"not now\"\r\n"),
        Ok((
            &b""[..],
            Vec::new(),
            Response {
                tag: OkNoBye::No,
                code: None,
                human: Some(bytes("not now")),
            }
        ))
    );
    assert_eq!(response_starttls(b"OK\r\n"), Err(Error::IncompleteResponse));
    assert_eq!(
        response_starttls(b"OK\r\n\"MAXREDIRECTS\" \"x\"\r\nOK\r\n"),
        Err(Error::InvalidResponse)
    );
    assert_eq!(response_starttls(b"OK\r\n?"), Err(Error::InvalidResponse));
}

#[test]
fn authenticate_ends_with_status_and_optional_capabilities() {
    assert_eq!(
        response_authenticate(b"OK\r\n\"SIEVE\" \"fileinto\"\r\nOK \"done\"\r\n"),
        Ok((
            &b""[..],
            Some(vec![Capability::Sieve(vec![bytes("fileinto")])]),
            Response {
                tag: OkNoBye::Okay,
                code: None,
                human: Some(bytes("done")),
            }
        ))
    );
    assert_eq!(
        response_authenticate(b"OK (SASL \"cnNwYXV0aD1l\")\r\n*"),
        Ok((
            &b"*"[..],
            None,
            Response {
                tag: OkNoBye::Okay,
                code: Some((ResponseCode::Sasl, Some(bytes("cnNwYXV0aD1l")))),
                human: None,
            }
        ))
    );
    assert_eq!(
        response_authenticate(b"NO \"Authentication failed\"\r\n"),
        Ok((
            &b""[..],
            None,
            Response {
                tag: OkNoBye::No,
                code: None,
                human: Some(bytes("Authentication failed")),
            }
        ))
    );
    assert_eq!(
        response_authenticate(b"OK\r\n"),
        Err(Error::IncompleteResponse)
    );
    assert_eq!(
        response_authenticate(b"OK\r\n\"MAXREDIRECTS\" \"x\"\r\nOK\r\n"),
        Err(Error::InvalidResponse)
    );
}

#[test]
fn script_names_from_the_client_are_validated() {
    assert_eq!(
        parser::sieve_name_c2s("\"caf\u{e9} \u{a0}\u{2027}\u{202a}\" x".as_bytes()),
        Ok((&b" x"[..], bytes("caf\u{e9} \u{a0}\u{2027}\u{202a}")))
    );
    for bad in ["\u{0}", "\u{1f}", "\u{7f}", "\u{80}", "\u{9f}", "\u{2028}", "\u{2029}"] {
        let quoted = format!("\"ab{}cd\"", bad);
        assert_eq!(
            parser::sieve_name_c2s(quoted.as_bytes()),
            Err(ParseError::Failure)
        );
        let literal = format!("{{{}+}}\r\n{}", bad.len(), bad);
        assert_eq!(
            parser::sieve_name_c2s(literal.as_bytes()),
            Err(ParseError::Failure)
        );
        assert_eq!(
            parser::active_sieve_name(quoted.as_bytes()),
            Err(ParseError::Failure)
        );
        assert!(parser::is_bad_sieve_name(bad.as_bytes()));
    }
    assert!(!parser::is_bad_sieve_name(b""));
    assert!(!parser::is_bad_sieve_name(b" ~"));
    assert!(!parser::is_bad_sieve_name(&[0xc2]));
    assert!(!parser::is_bad_sieve_name(&[0xe2, 0x80]));
    assert_eq!(parser::sieve_name_c2s(b"\"abc"), Err(ParseError::Incomplete));
    assert_eq!(parser::sieve_name_c2s(b"abc"), Err(ParseError::Error));
}

#[test]
fn bad_name_characters_are_the_control_and_separator_ranges() {
    for (c, bad) in [
        ('\u{0}', true),
        ('\t', true),
        ('\u{1f}', true),
        (' ', false),
        ('~', false),
        ('\u{7f}', true),
        ('\u{80}', true),
        ('\u{9f}', true),
        ('\u{a0}', false),
        ('\u{2027}', false),
        ('\u{2028}', true),
        ('\u{2029}', true),
        ('\u{202a}', false),
        ('\u{10ffff}', false),
    ] {
        assert_eq!(parser::is_bad_sieve_name_char(c), bad);
    }
}

#[test]
fn grammar_errors_become_typed_errors() {
    assert_eq!(Error::from(ParseError::Incomplete), Error::IncompleteResponse);
    assert_eq!(Error::from(ParseError::Error), Error::InvalidResponse);
    assert_eq!(Error::from(ParseError::Failure), Error::InvalidResponse);
}

#[test]
fn status_words_print_in_capitals() {
    assert_eq!(OkNoBye::Okay.to_string(), "OK");
    assert_eq!(OkNoBye::No.to_string(), "NO");
    assert_eq!(OkNoBye::Bye.to_string(), "BYE");
}
