//! Streaming decoders for the grammar rules, from the terminals up to the
//! response of each command.
//!
//! Every decoder takes the bytes that remain and returns the bytes that
//! follow what it consumed together with the decoded value. Its contract is
//! the rule of the same name in [`crate::grammar`].
use vstd::prelude::*;
use vstd::slice::{slice_subrange, slice_to_vec};
use either::Either;
use crate::grammar::{
    blank_class, digit_class, digits_value, is_blank,
    is_digit, lemma_run_end_unique, lower, spec_active_sieve_name, spec_atom, spec_bye,
    spec_capabilities, spec_code, spec_code_word, spec_crlf, spec_keyword,
    spec_keyword_no_case, spec_literal, spec_literal_close, spec_literal_len, spec_no,
    spec_nobye, spec_number, spec_ok, spec_quoted_body, spec_quoted_string, spec_response,
    spec_response_authenticate_complete, spec_response_authenticate_initial,
    spec_response_capability, spec_response_getscript, spec_response_listscripts,
    spec_response_nobye, spec_response_ok, spec_response_starttls, spec_script_entries,
    spec_script_entry, spec_script_then_ok, spec_sieve_name, spec_sievestring,
    spec_single_capability, spec_spaced_active, spec_spaced_code, spec_spaced_quoted,
    spec_spaced_string, spec_spaces, spec_status_line, BACKSLASH, CLOSE_BRACE, CLOSE_PAREN,
    OPEN_BRACE, OPEN_PAREN, PLUS, QUOTE, SPACE, TAB,
};
use crate::names::{bad_name, bad_name_at, bad_name_char};
use crate::outcome::{advance, decoded, lemma_bytes_deep_view, Outcome, ParseError};
use crate::types::{OkNoBye, QuotaVariant, Response, ResponseCode, ResponseView};

verus! {

broadcast use {
    vstd::seq_lib::lemma_seq_skip_of_skip,
    vstd::seq_lib::lemma_seq_skip_nothing,
    lemma_bytes_deep_view,
};

/// ASCII lower-case form of a byte.
pub fn to_lower(b: u8) -> (r: u8)
    ensures
        r == lower(b),
{
    if 0x41 <= b && b <= 0x5a {
        b + 0x20
    } else {
        b
    }
}

/// Matches the fixed byte string `word` at the front of `input`.
pub fn keyword<'a>(input: &'a [u8], word: &[u8]) -> (r: Result<(&'a [u8], ()), ParseError>)
    ensures
        decoded(input@, r, spec_keyword(input@, word@)),
{
    let mut i: usize = 0;
    while i < input.len() && i < word.len()
        invariant
            i <= input@.len(),
            i <= word@.len(),
            forall|j: int| 0 <= j < i ==> input@[j] == word@[j],
        decreases input@.len() - i,
    {
        if input[i] != word[i] {
            return Err(ParseError::Error);
        }
        i += 1;
    }
    if input.len() < word.len() {
        Err(ParseError::Incomplete)
    } else {
        Ok((advance(input, i), ()))
    }
}

/// Matches the fixed byte string `word` at the front of `input`, without
/// regard to ASCII case.
pub fn keyword_no_case<'a>(input: &'a [u8], word: &[u8]) -> (r: Result<
    (&'a [u8], ()),
    ParseError,
>)
    ensures
        decoded(input@, r, spec_keyword_no_case(input@, word@)),
{
    let mut i: usize = 0;
    while i < input.len() && i < word.len()
        invariant
            i <= input@.len(),
            i <= word@.len(),
            forall|j: int| 0 <= j < i ==> lower(input@[j]) == lower(word@[j]),
        decreases input@.len() - i,
    {
        if to_lower(input[i]) != to_lower(word[i]) {
            return Err(ParseError::Error);
        }
        i += 1;
    }
    if input.len() < word.len() {
        Err(ParseError::Incomplete)
    } else {
        Ok((advance(input, i), ()))
    }
}

/// Matches CR LF.
pub fn crlf(input: &[u8]) -> (r: Result<(&[u8], ()), ParseError>)
    ensures
        decoded(input@, r, spec_crlf(input@)),
{
    let word: [u8; 2] = [0x0d, 0x0a];
    keyword(input, word.as_slice())
}

/// Matches one or more spaces or tabs.
pub fn spaces(input: &[u8]) -> (r: Result<(&[u8], ()), ParseError>)
    ensures
        decoded(input@, r, spec_spaces(input@)),
{
    let mut i: usize = 0;
    while i < input.len() && (input[i] == SPACE || input[i] == TAB)
        invariant
            i <= input@.len(),
            forall|j: int| 0 <= j < i ==> is_blank(#[trigger] input@[j]),
        decreases input@.len() - i,
    {
        i += 1;
    }
    proof {
        lemma_run_end_unique(input@, blank_class(), 0, i as int);
    }
    if i >= input.len() {
        Err(ParseError::Incomplete)
    } else if i == 0 {
        Err(ParseError::Error)
    } else {
        Ok((advance(input, i), ()))
    }
}

/// Reads one or more decimal digits as a number.
pub fn number(input: &[u8]) -> (r: Result<(&[u8], usize), ParseError>)
    ensures
        decoded(input@, r, spec_number(input@)),
{
    let mut i: usize = 0;
    let mut value: usize = 0;
    let mut fits = true;
    while i < input.len() && 0x30 <= input[i] && input[i] <= 0x39
        invariant
            i <= input@.len(),
            forall|j: int| 0 <= j < i ==> is_digit(#[trigger] input@[j]),
            fits ==> value == digits_value(input@.take(i as int)),
            !fits ==> digits_value(input@.take(i as int)) > usize::MAX,
        decreases input@.len() - i,
    {
        let d: usize = (input[i] - 0x30) as usize;
        proof {
            assert(input@.take(i + 1).drop_last() =~= input@.take(i as int));
        }
        if fits {
            match value.checked_mul(10) {
                Some(tens) => match tens.checked_add(d) {
                    Some(sum) => {
                        value = sum;
                    },
                    None => {
                        fits = false;
                    },
                },
                None => {
                    fits = false;
                },
            }
        }
        i += 1;
    }
    proof {
        lemma_run_end_unique(input@, digit_class(), 0, i as int);
    }
    if i >= input.len() {
        Err(ParseError::Incomplete)
    } else if i == 0 || !fits {
        Err(ParseError::Error)
    } else {
        Ok((advance(input, i), value))
    }
}

/// Decodes what closes the number of a literal header.
fn literal_close(input: &[u8], c2s: bool) -> (r: Result<(&[u8], ()), ParseError>)
    ensures
        decoded(input@, r, spec_literal_close(input@, c2s)),
{
    let plain: [u8; 1] = [CLOSE_BRACE];
    if c2s {
        let synchronizing: [u8; 2] = [PLUS, CLOSE_BRACE];
        match keyword(input, synchronizing.as_slice()) {
            Err(ParseError::Error) => keyword(input, plain.as_slice()),
            r => r,
        }
    } else {
        keyword(input, plain.as_slice())
    }
}

/// Decodes the length header of a literal in the given direction.
fn literal_len(input: &[u8], c2s: bool) -> (r: Result<(&[u8], usize), ParseError>)
    ensures
        decoded(input@, r, spec_literal_len(input@, c2s)),
{
    let open: [u8; 1] = [OPEN_BRACE];
    let (rest, _) = match keyword(input, open.as_slice()) {
        Ok(x) => x,
        Err(e) => return Err(e),
    };
    let (rest, value) = match number(rest) {
        Ok(x) => x,
        Err(e) => return Err(e),
    };
    let (rest, _) = match literal_close(rest, c2s) {
        Ok(x) => x,
        Err(e) => return Err(e),
    };
    let (rest, _) = match crlf(rest) {
        Ok(x) => x,
        Err(e) => return Err(e),
    };
    Ok((rest, value))
}

/// Decodes a literal in the given direction.
fn literal(input: &[u8], c2s: bool) -> (r: Result<(&[u8], Vec<u8>), ParseError>)
    ensures
        decoded(input@, r, spec_literal(input@, c2s)),
{
    let (rest, n) = match literal_len(input, c2s) {
        Ok(x) => x,
        Err(e) => return Err(e),
    };
    if rest.len() < n {
        return Err(ParseError::Incomplete);
    }
    let content = slice_to_vec(slice_subrange(rest, 0, n));
    proof {
        let used = input@.len() - rest@.len();
        assert(rest@.subrange(0, n as int) =~= input@.subrange(used, used + n));
    }
    Ok((advance(rest, n), content))
}

/// Decodes the length header of a server-to-client literal.
pub fn literal_s2c_len(input: &[u8]) -> (r: Result<(&[u8], usize), ParseError>)
    ensures
        decoded(input@, r, spec_literal_len(input@, false)),
{
    literal_len(input, false)
}

/// Decodes a server-to-client literal.
pub fn literal_s2c(input: &[u8]) -> (r: Result<(&[u8], Vec<u8>), ParseError>)
    ensures
        decoded(input@, r, spec_literal(input@, false)),
{
    literal(input, false)
}

/// Decodes the length header of a client-to-server literal.
pub fn literal_c2s_len(input: &[u8]) -> (r: Result<(&[u8], usize), ParseError>)
    ensures
        decoded(input@, r, spec_literal_len(input@, true)),
{
    literal_len(input, true)
}

/// Decodes a client-to-server literal.
pub fn literal_c2s(input: &[u8]) -> (r: Result<(&[u8], Vec<u8>), ParseError>)
    ensures
        decoded(input@, r, spec_literal(input@, true)),
{
    literal(input, true)
}

/// Decodes a quoted string.
pub fn quoted_string(input: &[u8]) -> (r: Result<(&[u8], Vec<u8>), ParseError>)
    ensures
        decoded(input@, r, spec_quoted_string(input@)),
{
    let quote: [u8; 1] = [QUOTE];
    match keyword(input, quote.as_slice()) {
        Ok(_) => {},
        Err(e) => return Err(e),
    }
    let mut content: Vec<u8> = Vec::new();
    let mut i: usize = 1;
    loop
        invariant
            1 <= i <= input@.len(),
            spec_quoted_body(input@, 1) == match spec_quoted_body(input@, i as int) {
                Some((c, e)) => Some((content@ + c, e)),
                None => None,
            },
            spec_keyword(input@, seq![QUOTE]) is Done,
        decreases input@.len() - i,
    {
        if i >= input.len() {
            return Err(ParseError::Incomplete);
        }
        let b = input[i];
        if b == QUOTE {
            assert(content@ + Seq::<u8>::empty() =~= content@);
            return Ok((advance(input, i + 1), content));
        }
        if b == BACKSLASH {
            if i + 1 >= input.len() {
                return Err(ParseError::Incomplete);
            }
            let ghost before = content@;
            content.push(input[i + 1]);
            proof {
                assert forall|c: Seq<u8>| before + (seq![input@[i + 1]] + c) == content@ + c by {
                    assert(before + (seq![input@[i + 1]] + c) =~= content@ + c);
                }
            }
            i += 2;
        } else {
            let ghost before = content@;
            content.push(b);
            proof {
                assert forall|c: Seq<u8>| before + (seq![b] + c) == content@ + c by {
                    assert(before + (seq![b] + c) =~= content@ + c);
                }
            }
            i += 1;
        }
    }
}

/// Decodes a string sent by the server: a literal or a quoted string.
pub fn sievestring_s2c(input: &[u8]) -> (r: Result<(&[u8], Vec<u8>), ParseError>)
    ensures
        decoded(input@, r, spec_sievestring(input@, false)),
{
    match literal_s2c(input) {
        Err(ParseError::Error) => quoted_string(input),
        r => r,
    }
}

/// Decodes a string sent by the client: a literal or a quoted string.
pub fn sievestring_c2s(input: &[u8]) -> (r: Result<(&[u8], Vec<u8>), ParseError>)
    ensures
        decoded(input@, r, spec_sievestring(input@, true)),
{
    match literal_c2s(input) {
        Err(ParseError::Error) => quoted_string(input),
        r => r,
    }
}

/// Decodes the status word `OK`, in any case.
pub fn ok(input: &[u8]) -> (r: Result<(&[u8], OkNoBye), ParseError>)
    ensures
        decoded(input@, r, spec_ok(input@)),
{
    match keyword_no_case(input, "OK".as_bytes()) {
        Ok((rest, _)) => Ok((rest, OkNoBye::Okay)),
        Err(e) => Err(e),
    }
}

/// Decodes the status word `NO`, in any case.
pub fn no(input: &[u8]) -> (r: Result<(&[u8], OkNoBye), ParseError>)
    ensures
        decoded(input@, r, spec_no(input@)),
{
    match keyword_no_case(input, "NO".as_bytes()) {
        Ok((rest, _)) => Ok((rest, OkNoBye::No)),
        Err(e) => Err(e),
    }
}

/// Decodes the status word `BYE`, in any case.
pub fn bye(input: &[u8]) -> (r: Result<(&[u8], OkNoBye), ParseError>)
    ensures
        decoded(input@, r, spec_bye(input@)),
{
    match keyword_no_case(input, "BYE".as_bytes()) {
        Ok((rest, _)) => Ok((rest, OkNoBye::Bye)),
        Err(e) => Err(e),
    }
}

/// Decodes the status word `NO` or `BYE`.
pub fn nobye(input: &[u8]) -> (r: Result<(&[u8], OkNoBye), ParseError>)
    ensures
        decoded(input@, r, spec_nobye(input@)),
{
    match no(input) {
        Err(ParseError::Error) => bye(input),
        r => r,
    }
}

/// Decodes one word of the response code vocabulary.
fn code_word<'a>(input: &'a [u8], word: &str, code: ResponseCode) -> (r: Result<
    (&'a [u8], ResponseCode),
    ParseError,
>)
    ensures
        decoded(input@, r, spec_code_word(input@, word, code.deep_view())),
{
    match keyword(input, word.as_bytes()) {
        Ok((rest, _)) => Ok((rest, code)),
        Err(e) => Err(e),
    }
}

/// Decodes the name of a response code.
pub fn atom(input: &[u8]) -> (r: Result<(&[u8], ResponseCode), ParseError>)
    ensures
        decoded(input@, r, spec_atom(input@)),
{
    match code_word(input, "AUTH-TOO-WEAK", ResponseCode::AuthTooWeak) {
        Err(ParseError::Error) => {},
        r => return r,
    }
    match code_word(input, "ENCRYPT-NEEDED", ResponseCode::EncryptNeeded) {
        Err(ParseError::Error) => {},
        r => return r,
    }
    match code_word(input, "QUOTA/MAXSCRIPTS", ResponseCode::Quota(QuotaVariant::MaxScripts)) {
        Err(ParseError::Error) => {},
        r => return r,
    }
    match code_word(input, "QUOTA/MAXSIZE", ResponseCode::Quota(QuotaVariant::MaxSize)) {
        Err(ParseError::Error) => {},
        r => return r,
    }
    match code_word(input, "QUOTA", ResponseCode::Quota(QuotaVariant::Unspecified)) {
        Err(ParseError::Error) => {},
        r => return r,
    }
    match code_word(input, "REFERRAL", ResponseCode::Referral(Vec::new())) {
        Err(ParseError::Error) => {},
        r => return r,
    }
    match code_word(input, "SASL", ResponseCode::Sasl) {
        Err(ParseError::Error) => {},
        r => return r,
    }
    match code_word(input, "TRANSITION-NEEDED", ResponseCode::TransitionNeeded) {
        Err(ParseError::Error) => {},
        r => return r,
    }
    match code_word(input, "TRYLATER", ResponseCode::TryLater) {
        Err(ParseError::Error) => {},
        r => return r,
    }
    match code_word(input, "ACTIVE", ResponseCode::Active) {
        Err(ParseError::Error) => {},
        r => return r,
    }
    match code_word(input, "NONEXISTENT", ResponseCode::Nonexistent) {
        Err(ParseError::Error) => {},
        r => return r,
    }
    match code_word(input, "ALREADYEXISTS", ResponseCode::AlreadyExists) {
        Err(ParseError::Error) => {},
        r => return r,
    }
    match code_word(input, "TAG", ResponseCode::Tag) {
        Err(ParseError::Error) => {},
        r => return r,
    }
    code_word(input, "WARNINGS", ResponseCode::Warnings)
}

/// Decodes spaces and the string that follows them.
fn spaced_string(input: &[u8]) -> (r: Result<(&[u8], Vec<u8>), ParseError>)
    ensures
        decoded(input@, r, spec_spaced_string(input@)),
{
    match spaces(input) {
        Ok((rest, _)) => sievestring_s2c(rest),
        Err(e) => Err(e),
    }
}

/// Decodes spaces and the quoted string that follows them.
fn spaced_quoted(input: &[u8]) -> (r: Result<(&[u8], Vec<u8>), ParseError>)
    ensures
        decoded(input@, r, spec_spaced_quoted(input@)),
{
    match spaces(input) {
        Ok((rest, _)) => quoted_string(rest),
        Err(e) => Err(e),
    }
}

/// Decodes spaces and the response code that follows them.
fn spaced_code(input: &[u8]) -> (r: Result<(&[u8], (ResponseCode, Option<Vec<u8>>)), ParseError>)
    ensures
        decoded(input@, r, spec_spaced_code(input@)),
{
    match spaces(input) {
        Ok((rest, _)) => code(rest),
        Err(e) => Err(e),
    }
}

/// Decodes a response code in its parentheses.
pub fn code(input: &[u8]) -> (r: Result<(&[u8], (ResponseCode, Option<Vec<u8>>)), ParseError>)
    ensures
        decoded(input@, r, spec_code(input@)),
{
    let open: [u8; 1] = [OPEN_PAREN];
    let close: [u8; 1] = [CLOSE_PAREN];
    let (rest, _) = match keyword(input, open.as_slice()) {
        Ok(x) => x,
        Err(e) => return Err(e),
    };
    let (rest, name) = match atom(rest) {
        Ok(x) => x,
        Err(e) => return Err(e),
    };
    let (rest, detail) = match spaced_string(rest) {
        Ok((after, v)) => (after, Some(v)),
        Err(ParseError::Error) => (rest, None),
        Err(e) => return Err(e),
    };
    let (rest, _) = match keyword(rest, close.as_slice()) {
        Ok(x) => x,
        Err(e) => return Err(e),
    };
    Ok((rest, (name, detail)))
}

/// Decodes what follows the status word of a status line, and builds the
/// response.
fn status_tail(input: &[u8], tag: OkNoBye) -> (r: Result<(&[u8], Response), ParseError>)
    ensures
        decoded(input@, r, spec_status_line(input@, Outcome::Done(tag, 0))),
{
    let (rest, code) = match spaced_code(input) {
        Ok((after, v)) => (after, Some(v)),
        Err(ParseError::Error) => (input, None),
        Err(e) => return Err(e),
    };
    let (rest, human) = match spaced_quoted(rest) {
        Ok((after, v)) => (after, Some(v)),
        Err(ParseError::Error) => (rest, None),
        Err(e) => return Err(e),
    };
    let (rest, _) = match crlf(rest) {
        Ok(x) => x,
        Err(e) => return Err(e),
    };
    Ok((rest, Response { tag, code, human }))
}

/// Decodes a status line whose status is `OK`.
pub fn response_ok(input: &[u8]) -> (r: Result<(&[u8], Response), ParseError>)
    ensures
        decoded(input@, r, spec_response_ok(input@)),
{
    match ok(input) {
        Ok((rest, tag)) => status_tail(rest, tag),
        Err(e) => Err(e),
    }
}

/// Decodes a status line whose status is `NO` or `BYE`.
pub fn response_nobye(input: &[u8]) -> (r: Result<(&[u8], Response), ParseError>)
    ensures
        decoded(input@, r, spec_response_nobye(input@)),
{
    match nobye(input) {
        Ok((rest, tag)) => status_tail(rest, tag),
        Err(e) => Err(e),
    }
}

/// Decodes a status line.
pub fn response(input: &[u8]) -> (r: Result<(&[u8], Response), ParseError>)
    ensures
        decoded(input@, r, spec_response(input@)),
{
    match response_ok(input) {
        Err(ParseError::Error) => response_nobye(input),
        r => r,
    }
}

/// Tells whether a character is one that no script name may hold.
pub fn is_bad_sieve_name_char(c: char) -> (r: bool)
    ensures
        r == bad_name_char(c),
{
    let v: u32 = c as u32;
    v <= 0x1f || (0x7f <= v && v <= 0x9f) || v == 0x2028 || v == 0x2029
}

/// Tells whether the bytes of a name hold the UTF-8 form of a character
/// that no script name may hold.
pub fn is_bad_sieve_name(name: &[u8]) -> (r: bool)
    ensures
        r == bad_name(name@),
{
    let mut i: usize = 0;
    while i < name.len()
        invariant
            i <= name@.len(),
            forall|j: int| 0 <= j < i ==> !bad_name_at(name@, j),
        decreases name@.len() - i,
    {
        let b = name[i];
        if b <= 0x1f || b == 0x7f {
            assert(bad_name_at(name@, i as int));
            return true;
        }
        if b == 0xc2 && i + 1 < name.len() && 0x80 <= name[i + 1] && name[i + 1] <= 0x9f {
            assert(bad_name_at(name@, i as int));
            return true;
        }
        if b == 0xe2 && name.len() - i > 2 && name[i + 1] == 0x80 && (name[i + 2] == 0xa8
            || name[i + 2] == 0xa9) {
            assert(bad_name_at(name@, i as int));
            return true;
        }
        i += 1;
    }
    false
}

/// Decodes a script name sent by the client.
pub fn sieve_name_c2s(input: &[u8]) -> (r: Result<(&[u8], Vec<u8>), ParseError>)
    ensures
        decoded(input@, r, spec_sieve_name(input@)),
{
    match sievestring_c2s(input) {
        Err(e) => Err(e),
        Ok((rest, name)) => {
            if is_bad_sieve_name(name.as_slice()) {
                Err(ParseError::Failure)
            } else {
                Ok((rest, name))
            }
        },
    }
}

/// Decodes the name of the active script, if one is given.
pub fn active_sieve_name(input: &[u8]) -> (r: Result<(&[u8], Option<Vec<u8>>), ParseError>)
    ensures
        decoded(input@, r, spec_active_sieve_name(input@)),
{
    match sieve_name_c2s(input) {
        Ok((rest, name)) => Ok((rest, Some(name))),
        Err(ParseError::Error) => Ok((input, None)),
        Err(e) => Err(e),
    }
}

/// Decodes the answer to GETSCRIPT.
pub fn response_getscript(input: &[u8]) -> (r: Result<
    (&[u8], (Option<Vec<u8>>, Response)),
    ParseError,
>)
    ensures
        decoded(input@, r, spec_response_getscript(input@)),
{
    match script_then_ok(input) {
        Err(ParseError::Error) => match response_nobye(input) {
            Ok((rest, status)) => Ok((rest, (None, status))),
            Err(e) => Err(e),
        },
        r => r,
    }
}

/// Decodes a script, CR LF and an `OK` status line.
fn script_then_ok(input: &[u8]) -> (r: Result<(&[u8], (Option<Vec<u8>>, Response)), ParseError>)
    ensures
        decoded(input@, r, spec_script_then_ok(input@)),
{
    let (rest, script) = match sievestring_s2c(input) {
        Ok(x) => x,
        Err(e) => return Err(e),
    };
    let (rest, _) = match crlf(rest) {
        Ok(x) => x,
        Err(e) => return Err(e),
    };
    let (rest, status) = match response_ok(rest) {
        Ok(x) => x,
        Err(e) => return Err(e),
    };
    Ok((rest, (Some(script), status)))
}

/// Decodes spaces and the mark of the active script.
fn spaced_active(input: &[u8]) -> (r: Result<(&[u8], ()), ParseError>)
    ensures
        decoded(input@, r, spec_spaced_active(input@)),
{
    match spaces(input) {
        Ok((rest, _)) => keyword_no_case(rest, "ACTIVE".as_bytes()),
        Err(e) => Err(e),
    }
}

/// Decodes one line of a script listing.
pub fn script_entry(input: &[u8]) -> (r: Result<(&[u8], (Vec<u8>, bool)), ParseError>)
    ensures
        decoded(input@, r, spec_script_entry(input@)),
{
    let (rest, name) = match sievestring_s2c(input) {
        Ok(x) => x,
        Err(e) => return Err(e),
    };
    let (rest, active) = match spaced_active(rest) {
        Ok((after, _)) => (after, true),
        Err(ParseError::Error) => (rest, false),
        Err(e) => return Err(e),
    };
    let (rest, _) = match crlf(rest) {
        Ok(x) => x,
        Err(e) => return Err(e),
    };
    Ok((rest, (name, active)))
}

/// Decodes the answer to LISTSCRIPTS: the scripts, each with the mark of the
/// active script, and the status line.
pub fn response_listscripts(input: &[u8]) -> (r: Result<
    (&[u8], (Vec<(Vec<u8>, bool)>, Response)),
    ParseError,
>)
    ensures
        decoded(input@, r, spec_response_listscripts(input@)),
{
    let mut entries: Vec<(Vec<u8>, bool)> = Vec::new();
    let mut rest = input;
    loop
        invariant
            rest@.len() <= input@.len(),
            rest@ == input@.skip(input@.len() - rest@.len()),
            spec_script_entries(input@) == match spec_script_entries(rest@) {
                Outcome::Done(more, m) => Outcome::Done(
                    entries.deep_view() + more,
                    input@.len() - rest@.len() + m,
                ),
                o => o,
            },
        decreases rest@.len(),
    {
        match script_entry(rest) {
            Ok((after, entry)) => {
                if after.len() >= rest.len() {
                    return Err(ParseError::Error);
                }
                let ghost before = entries.deep_view();
                entries.push(entry);
                proof {
                    assert(entries.deep_view() =~= before.push(entry.deep_view()));
                    if let Outcome::Done(more, _) = spec_script_entries(after@) {
                        assert(before + (seq![entry.deep_view()] + more) =~= entries.deep_view()
                            + more);
                    }
                }
                rest = after;
            },
            Err(ParseError::Error) => {
                assert(entries.deep_view() + Seq::<(Seq<u8>, bool)>::empty()
                    =~= entries.deep_view());
                return match response(rest) {
                    Ok((after, status)) => Ok((after, (entries, status))),
                    Err(e) => Err(e),
                };
            },
            Err(e) => {
                return Err(e);
            },
        }
    }
}

/// Decodes one line of a capability listing.
pub fn single_capability(input: &[u8]) -> (r: Result<
    (&[u8], (Vec<u8>, Option<Vec<u8>>)),
    ParseError,
>)
    ensures
        decoded(input@, r, spec_single_capability(input@)),
{
    let (rest, name) = match sievestring_s2c(input) {
        Ok(x) => x,
        Err(e) => return Err(e),
    };
    let (rest, value) = match spaced_string(rest) {
        Ok((after, v)) => (after, Some(v)),
        Err(ParseError::Error) => (rest, None),
        Err(e) => return Err(e),
    };
    let (rest, _) = match crlf(rest) {
        Ok(x) => x,
        Err(e) => return Err(e),
    };
    Ok((rest, (name, value)))
}

/// Decodes the answer to CAPABILITY: the capabilities as pairs of a name and
/// the value that may follow it, and the status line.
pub fn response_capability(input: &[u8]) -> (r: Result<
    (&[u8], (Vec<(Vec<u8>, Option<Vec<u8>>)>, Response)),
    ParseError,
>)
    ensures
        decoded(input@, r, spec_response_capability(input@)),
{
    let mut entries: Vec<(Vec<u8>, Option<Vec<u8>>)> = Vec::new();
    let mut rest = input;
    loop
        invariant
            rest@.len() <= input@.len(),
            rest@ == input@.skip(input@.len() - rest@.len()),
            spec_capabilities(input@) == match spec_capabilities(rest@) {
                Outcome::Done(more, m) => Outcome::Done(
                    entries.deep_view() + more,
                    input@.len() - rest@.len() + m,
                ),
                o => o,
            },
        decreases rest@.len(),
    {
        match single_capability(rest) {
            Ok((after, entry)) => {
                if after.len() >= rest.len() {
                    return Err(ParseError::Error);
                }
                let ghost before = entries.deep_view();
                entries.push(entry);
                proof {
                    assert(entries.deep_view() =~= before.push(entry.deep_view()));
                    if let Outcome::Done(more, _) = spec_capabilities(after@) {
                        assert(before + (seq![entry.deep_view()] + more) =~= entries.deep_view()
                            + more);
                    }
                }
                rest = after;
            },
            Err(ParseError::Error) => {
                assert(entries.deep_view() + Seq::<(Seq<u8>, Option<Seq<u8>>)>::empty()
                    =~= entries.deep_view());
                return match response(rest) {
                    Ok((after, status)) => Ok((after, (entries, status))),
                    Err(e) => Err(e),
                };
            },
            Err(e) => {
                return Err(e);
            },
        }
    }
}

/// Decodes the answer to STARTTLS: after `OK`, the capabilities that the
/// server announces anew and their status line; else the refusal.
pub fn response_starttls(input: &[u8]) -> (r: Result<
    (&[u8], (Vec<(Vec<u8>, Option<Vec<u8>>)>, Response)),
    ParseError,
>)
    ensures
        decoded(input@, r, spec_response_starttls(input@)),
{
    let accepted = match response_ok(input) {
        Ok((rest, _)) => response_capability(rest),
        Err(e) => Err(e),
    };
    match accepted {
        Err(ParseError::Error) => match response_nobye(input) {
            Ok((rest, status)) => {
                let none: Vec<(Vec<u8>, Option<Vec<u8>>)> = Vec::new();
                assert(none.deep_view() =~= Seq::empty());
                Ok((rest, (none, status)))
            },
            Err(e) => Err(e),
        },
        r => r,
    }
}

/// Decodes the first answer to AUTHENTICATE: on the left the challenge of
/// the server, on the right the status line with which it refuses.
pub fn response_authenticate_initial(input: &[u8]) -> (r: Result<
    (&[u8], Either<Vec<u8>, Response>),
    ParseError,
>)
    ensures
        match r {
            Ok((rest, Either::Left(c))) => {
                &&& spec_response_authenticate_initial(input@) matches Outcome::Done(w, n)
                &&& w == Either::<Seq<u8>, ResponseView>::Left(c@)
                &&& 0 <= n <= input@.len()
                &&& rest@ == input@.skip(n)
            },
            Ok((rest, Either::Right(status))) => {
                &&& spec_response_authenticate_initial(input@) matches Outcome::Done(w, n)
                &&& w == Either::<Seq<u8>, ResponseView>::Right(status.deep_view())
                &&& 0 <= n <= input@.len()
                &&& rest@ == input@.skip(n)
            },
            Err(e) => spec_response_authenticate_initial(input@) == Outcome::<
                Either<Seq<u8>, ResponseView>,
            >::failed(e),
        },
{
    let challenge = match sievestring_s2c(input) {
        Ok((rest, c)) => match crlf(rest) {
            Ok((after, _)) => Ok((after, c)),
            Err(e) => Err(e),
        },
        Err(e) => Err(e),
    };
    match challenge {
        Ok((rest, c)) => Ok((rest, Either::Left(c))),
        Err(ParseError::Error) => match response_nobye(input) {
            Ok((rest, status)) => Ok((rest, Either::Right(status))),
            Err(e) => Err(e),
        },
        Err(e) => Err(e),
    }
}

/// Decodes the answer that ends an AUTHENTICATE exchange: the status line
/// and, after `OK`, the capability response that may follow at once.
pub fn response_authenticate_complete(input: &[u8]) -> (r: Result<
    (&[u8], (Option<Vec<(Vec<u8>, Option<Vec<u8>>)>>, Response)),
    ParseError,
>)
    ensures
        decoded(input@, r, spec_response_authenticate_complete(input@)),
{
    let accepted = match response_ok(input) {
        Ok((rest, first)) => match response_capability(rest) {
            Ok((after, (entries, last))) => Ok((after, (Some(entries), last))),
            Err(ParseError::Error) => Ok((rest, (None, first))),
            Err(e) => Err(e),
        },
        Err(e) => Err(e),
    };
    match accepted {
        Err(ParseError::Error) => match response_nobye(input) {
            Ok((rest, status)) => Ok((rest, (None, status))),
            Err(e) => Err(e),
        },
        r => r,
    }
}

} // verus!
