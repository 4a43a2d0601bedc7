use managesieve::parser;
use managesieve::{
    response_authenticate, response_capability, response_getscript, response_listscripts,
    response_logout, response_noop, response_starttls, Error, OkNoBye, ParseError,
};

const STATUS: &[u8] = b"NO (QUOTA/MAXSCRIPTS {3}\r\n\r\n\0) \"too \\\"many\\\"\"\r\n";

const SCRIPT: &[u8] = b"{13}\r\nkeep;\r\n{1}\r\n\"\r\nOk \"here it is\"\r\n";

const LISTING: &[u8] = b"\"a\"\r\n{4}\r\n{1+}\t Active\r\nOK\r\n";

const CAPABILITIES: &[u8] =
    b"\"IMPLEMENTATION\" {7}\r\nExample\r\n\"MAXREDIRECTS\" \"5\"\r\n\"STARTTLS\"\r\nOK\r\n";

const UPGRADE: &[u8] = b"OK \"Begin TLS\"\r\n\"SASL\" \"PLAIN LOGIN\"\r\nOK (SASL \"x\")\r\n";

#[test]
fn every_truncation_of_a_status_line_is_incomplete() {
    let whole = response_logout(STATUS).unwrap();
    assert!(whole.0.is_empty());
    for k in 0..STATUS.len() {
        assert_eq!(response_logout(&STATUS[..k]), Err(Error::IncompleteResponse));
        assert_eq!(parser::response(&STATUS[..k]), Err(ParseError::Incomplete));
    }
    for k in 0..4 {
        assert_eq!(response_noop(&b"OK\r\n"[..k]), Err(Error::IncompleteResponse));
    }
}

#[test]
fn every_truncation_of_a_script_answer_is_incomplete() {
    let whole = response_getscript(SCRIPT).unwrap();
    assert_eq!(whole.1, Some(b"keep;\r\n{1}\r\n\"".to_vec()));
    for k in 0..SCRIPT.len() {
        assert_eq!(response_getscript(&SCRIPT[..k]), Err(Error::IncompleteResponse));
    }
}

#[test]
fn every_truncation_of_a_listing_is_incomplete() {
    let whole = response_listscripts(LISTING).unwrap();
    assert_eq!(whole.1, vec![(b"a".to_vec(), false), (b"{1+}".to_vec(), true)]);
    for k in 0..LISTING.len() {
        assert_eq!(response_listscripts(&LISTING[..k]), Err(Error::IncompleteResponse));
    }
    let whole = response_capability(CAPABILITIES).unwrap();
    assert_eq!(whole.1.len(), 3);
    for k in 0..CAPABILITIES.len() {
        assert_eq!(
            response_capability(&CAPABILITIES[..k]),
            Err(Error::IncompleteResponse)
        );
    }
}

#[test]
fn every_truncation_of_an_upgrade_answer_is_incomplete() {
    let whole = response_starttls(UPGRADE).unwrap();
    assert_eq!(whole.1.len(), 1);
    for k in 0..UPGRADE.len() {
        assert_eq!(response_starttls(&UPGRADE[..k]), Err(Error::IncompleteResponse));
        assert_eq!(response_authenticate(&UPGRADE[..k]), Err(Error::IncompleteResponse));
    }
    assert_eq!(response_authenticate(UPGRADE), response_starttls(UPGRADE).map(
        |(rest, caps, status)| (rest, Some(caps), status)
    ));
}

#[test]
fn completing_a_buffer_gives_what_one_call_gives() {
    for k in 0..=SCRIPT.len() {
        let mut buffer = SCRIPT[..k].to_vec();
        let early = response_getscript(&buffer).map(|(rest, s, r)| (rest.to_vec(), s, r));
        buffer.extend_from_slice(&SCRIPT[k..]);
        buffer.extend_from_slice(b"NO\r\n");
        let late = response_getscript(&buffer).map(|(rest, s, r)| (rest.to_vec(), s, r));
        let late_rest = late.clone().unwrap().0;
        assert_eq!(late_rest, b"NO\r\n");
        match early {
            Err(e) => assert_eq!(e, Error::IncompleteResponse),
            Ok((rest, script, status)) => {
                assert!(rest.is_empty());
                assert_eq!(late, Ok((late_rest, script, status)));
            }
        }
        assert_eq!(early_again(&buffer), late);
    }
}

fn early_again(
    buffer: &[u8],
) -> Result<(Vec<u8>, Option<Vec<u8>>, managesieve::Response), Error> {
    response_getscript(buffer).map(|(rest, s, r)| (rest.to_vec(), s, r))
}

#[test]
fn an_invalid_answer_stays_invalid_once_it_is_known() {
    let bad = b"\"a\" ACTIVE\r\n\"b\" ACTIVE\r\nOK\r\n";
    assert_eq!(response_listscripts(bad), Err(Error::InvalidResponse));
    let mut seen_invalid = false;
    for k in 0..=bad.len() {
        match response_listscripts(&bad[..k]) {
            Err(Error::IncompleteResponse) => assert!(!seen_invalid),
            Err(Error::InvalidResponse) => seen_invalid = true,
            other => panic!("unexpected reply {:?}", other),
        }
    }
    let garbage = b"OK (QUOTA/MAXSIZES)\r\n";
    let mut seen_invalid = false;
    for k in 0..=garbage.len() {
        match response_logout(&garbage[..k]) {
            Err(Error::IncompleteResponse) => assert!(!seen_invalid),
            Err(Error::InvalidResponse) => seen_invalid = true,
            other => panic!("unexpected reply {:?}", other),
        }
    }
    assert!(seen_invalid);
}

#[test]
fn responses_in_one_buffer_are_decoded_one_by_one() {
    let mut buffer = Vec::new();
    buffer.extend_from_slice(STATUS);
    buffer.extend_from_slice(LISTING);
    buffer.extend_from_slice(SCRIPT);
    buffer.extend_from_slice(b"bye\r\n");
    let (rest, first) = response_logout(&buffer).unwrap();
    assert_eq!(first.tag, OkNoBye::No);
    assert_eq!(rest.len(), buffer.len() - STATUS.len());
    let (rest, scripts, second) = response_listscripts(rest).unwrap();
    assert_eq!(scripts.len(), 2);
    assert_eq!(second.tag, OkNoBye::Okay);
    let (rest, script, third) = response_getscript(rest).unwrap();
    assert_eq!(script.map(|s| s.len()), Some(13));
    assert_eq!(third.human, Some(b"here it is".to_vec()));
    let (rest, last) = response_logout(rest).unwrap();
    assert_eq!(last.tag, OkNoBye::Bye);
    assert!(rest.is_empty());
    assert_eq!(response_logout(rest), Err(Error::IncompleteResponse));
}

#[test]
fn decoding_twice_gives_the_same() {
    assert_eq!(response_capability(CAPABILITIES), response_capability(CAPABILITIES));
    assert_eq!(response_logout(b"OK"), response_logout(b"OK"));
    assert_eq!(response_logout(b"KO\r\n"), response_logout(b"KO\r\n"));
}
