//! The wire grammar as mathematics: each rule is a function from the bytes
//! that remain to an [`Outcome`].
//!
//! The rules are streaming rules. A rule answers `Incomplete` whenever the
//! bytes at hand end before it can decide, `Error` on a definite mismatch,
//! and `Done` with the number of bytes it consumed otherwise. A choice tries
//! its alternatives in order and moves on only after `Error`.
use vstd::prelude::*;
use vstd::string::StringSliceAdditionalSpecFns;
use either::Either;
use crate::names::bad_name;
use crate::outcome::Outcome;
use crate::types::{OkNoBye, QuotaVariant, ResponseCodeView, ResponseView};

verus! {

/// The type `Either` of the crate `either`, made known to Verus so that
/// verified code can build and match its variants `Left` and `Right`. Verus
/// reads the two variants from the crate itself; nothing is claimed of them.
#[verifier::external_type_specification]
#[verifier::reject_recursive_types(L)]
#[verifier::reject_recursive_types(R)]
pub struct ExEither<L, R>(Either<L, R>);

pub const QUOTE: u8 = 0x22;

pub const BACKSLASH: u8 = 0x5c;

pub const OPEN_BRACE: u8 = 0x7b;

pub const CLOSE_BRACE: u8 = 0x7d;

pub const PLUS: u8 = 0x2b;

pub const OPEN_PAREN: u8 = 0x28;

pub const CLOSE_PAREN: u8 = 0x29;

pub const SPACE: u8 = 0x20;

pub const TAB: u8 = 0x09;

/// ASCII lower-case form of a byte.
pub open spec fn lower(b: u8) -> u8 {
    if 0x41 <= b <= 0x5a {
        (b + 0x20) as u8
    } else {
        b
    }
}

pub open spec fn is_digit(b: u8) -> bool {
    0x30 <= b <= 0x39
}

/// Space or horizontal tab.
pub open spec fn is_blank(b: u8) -> bool {
    b == SPACE || b == TAB
}

/// The fixed byte string `word`, compared byte for byte.
pub open spec fn spec_keyword(s: Seq<u8>, word: Seq<u8>) -> Outcome<()> {
    if exists|i: int| 0 <= i < s.len() && i < word.len() && s[i] != word[i] {
        Outcome::Error
    } else if s.len() < word.len() {
        Outcome::Incomplete
    } else {
        Outcome::Done((), word.len() as int)
    }
}

/// The fixed byte string `word`, compared without regard to ASCII case.
pub open spec fn spec_keyword_no_case(s: Seq<u8>, word: Seq<u8>) -> Outcome<()> {
    if exists|i: int| 0 <= i < s.len() && i < word.len() && lower(s[i]) != lower(word[i]) {
        Outcome::Error
    } else if s.len() < word.len() {
        Outcome::Incomplete
    } else {
        Outcome::Done((), word.len() as int)
    }
}

/// The line terminator CR LF.
pub open spec fn spec_crlf(s: Seq<u8>) -> Outcome<()> {
    spec_keyword(s, seq![0x0du8, 0x0au8])
}

/// Index of the first byte at or after `i` that is not in the class `p`,
/// or the length of `s` when there is none.
pub open spec fn run_end(s: Seq<u8>, p: spec_fn(u8) -> bool, i: int) -> int
    decreases s.len() - i,
{
    if 0 <= i < s.len() && p(s[i]) {
        run_end(s, p, i + 1)
    } else {
        i
    }
}

/// One or more bytes of the class `p`, followed by a byte outside it. The
/// run is known to have ended only when that following byte has been seen.
pub open spec fn spec_run1(s: Seq<u8>, p: spec_fn(u8) -> bool) -> Outcome<()> {
    let n = run_end(s, p, 0);
    if n >= s.len() {
        Outcome::Incomplete
    } else if n == 0 {
        Outcome::Error
    } else {
        Outcome::Done((), n)
    }
}

/// The class of decimal digits.
pub open spec fn digit_class() -> spec_fn(u8) -> bool {
    |b: u8| is_digit(b)
}

/// The class of spaces and tabs.
pub open spec fn blank_class() -> spec_fn(u8) -> bool {
    |b: u8| is_blank(b)
}

/// One or more spaces or tabs.
pub open spec fn spec_spaces(s: Seq<u8>) -> Outcome<()> {
    spec_run1(s, blank_class())
}

/// Every byte is a decimal digit.
pub open spec fn all_digits(d: Seq<u8>) -> bool {
    forall|i: int| 0 <= i < d.len() ==> is_digit(#[trigger] d[i])
}

/// The number that a sequence of decimal digits denotes.
pub open spec fn digits_value(d: Seq<u8>) -> nat
    decreases d.len(),
{
    if d.len() == 0 {
        0
    } else {
        (digits_value(d.drop_last()) * 10 + (d.last() - 0x30)) as nat
    }
}

/// One or more decimal digits, read as a number that must fit a `usize`.
pub open spec fn spec_number(s: Seq<u8>) -> Outcome<usize> {
    match spec_run1(s, digit_class()) {
        Outcome::Done(_, n) => {
            let v = digits_value(s.take(n));
            if v <= usize::MAX {
                Outcome::Done(v as usize, n)
            } else {
                Outcome::Error
            }
        },
        o => o.fail_as(),
    }
}

/// The length header of a literal: `{`, a number, `}` (or, from client to
/// server only, `+}`), CR LF.
pub open spec fn spec_literal_len(s: Seq<u8>, c2s: bool) -> Outcome<usize> {
    match spec_keyword(s, seq![OPEN_BRACE]) {
        Outcome::Done(_, a) => match spec_number(s.skip(a)) {
            Outcome::Done(v, b) => match spec_literal_close(s.skip(a).skip(b), c2s) {
                Outcome::Done(_, c) => match spec_crlf(s.skip(a).skip(b).skip(c)) {
                    Outcome::Done(_, d) => Outcome::Done(v, a + b + c + d),
                    o => o.fail_as(),
                },
                o => o.fail_as(),
            },
            o => o.fail_as(),
        },
        o => o.fail_as(),
    }
}

/// What closes the number of a literal header.
pub open spec fn spec_literal_close(s: Seq<u8>, c2s: bool) -> Outcome<()> {
    if c2s {
        spec_keyword(s, seq![PLUS, CLOSE_BRACE]).or_else(spec_keyword(s, seq![CLOSE_BRACE]))
    } else {
        spec_keyword(s, seq![CLOSE_BRACE])
    }
}

/// A literal: a length header, then exactly that many bytes, whatever they
/// are.
pub open spec fn spec_literal(s: Seq<u8>, c2s: bool) -> Outcome<Seq<u8>> {
    match spec_literal_len(s, c2s) {
        Outcome::Done(v, n) => {
            if s.len() - n < v {
                Outcome::Incomplete
            } else {
                Outcome::Done(s.subrange(n, n + v), n + v)
            }
        },
        o => o.fail_as(),
    }
}

/// The body of a quoted string from index `i` on: the content up to the
/// closing quote, with each backslash dropped and the byte after it kept
/// whatever it is, and the index of the closing quote. `None` where the
/// bytes end before a closing quote.
pub open spec fn spec_quoted_body(s: Seq<u8>, i: int) -> Option<(Seq<u8>, int)>
    decreases s.len() - i,
{
    if i < 0 || i >= s.len() {
        None
    } else if s[i] == QUOTE {
        Some((Seq::empty(), i))
    } else if s[i] == BACKSLASH {
        if i + 1 >= s.len() {
            None
        } else {
            match spec_quoted_body(s, i + 2) {
                Some((c, e)) => Some((seq![s[i + 1]] + c, e)),
                None => None,
            }
        }
    } else {
        match spec_quoted_body(s, i + 1) {
            Some((c, e)) => Some((seq![s[i]] + c, e)),
            None => None,
        }
    }
}

/// A quoted string: `"`, the body, `"`.
pub open spec fn spec_quoted_string(s: Seq<u8>) -> Outcome<Seq<u8>> {
    match spec_keyword(s, seq![QUOTE]) {
        Outcome::Done(_, _) => match spec_quoted_body(s, 1) {
            Some((c, e)) => Outcome::Done(c, e + 1),
            None => Outcome::Incomplete,
        },
        o => o.fail_as(),
    }
}

/// A string in either framing: a literal, tried first, else a quoted
/// string.
pub open spec fn spec_sievestring(s: Seq<u8>, c2s: bool) -> Outcome<Seq<u8>> {
    spec_literal(s, c2s).or_else(spec_quoted_string(s))
}

/// The status word `OK`, in any case.
pub open spec fn spec_ok(s: Seq<u8>) -> Outcome<OkNoBye> {
    spec_keyword_no_case(s, "OK".spec_bytes()).with(OkNoBye::Okay)
}

/// The status word `NO`, in any case.
pub open spec fn spec_no(s: Seq<u8>) -> Outcome<OkNoBye> {
    spec_keyword_no_case(s, "NO".spec_bytes()).with(OkNoBye::No)
}

/// The status word `BYE`, in any case.
pub open spec fn spec_bye(s: Seq<u8>) -> Outcome<OkNoBye> {
    spec_keyword_no_case(s, "BYE".spec_bytes()).with(OkNoBye::Bye)
}

/// `NO` or `BYE`.
pub open spec fn spec_nobye(s: Seq<u8>) -> Outcome<OkNoBye> {
    spec_no(s).or_else(spec_bye(s))
}

/// One word of the response code vocabulary, standing for `code`.
pub open spec fn spec_code_word(s: Seq<u8>, word: &str, code: ResponseCodeView) -> Outcome<
    ResponseCodeView,
> {
    spec_keyword(s, word.spec_bytes()).with(code)
}

/// The name of a response code: the first word of the fixed vocabulary, in
/// this order, that the input matches or may still come to match.
pub open spec fn spec_atom(s: Seq<u8>) -> Outcome<ResponseCodeView> {
    spec_code_word(s, "AUTH-TOO-WEAK", ResponseCodeView::AuthTooWeak)
        .or_else(spec_code_word(s, "ENCRYPT-NEEDED", ResponseCodeView::EncryptNeeded))
        .or_else(
            spec_code_word(
                s,
                "QUOTA/MAXSCRIPTS",
                ResponseCodeView::Quota(QuotaVariant::MaxScripts),
            ),
        )
        .or_else(
            spec_code_word(s, "QUOTA/MAXSIZE", ResponseCodeView::Quota(QuotaVariant::MaxSize)),
        )
        .or_else(spec_code_word(s, "QUOTA", ResponseCodeView::Quota(QuotaVariant::Unspecified)))
        .or_else(spec_code_word(s, "REFERRAL", ResponseCodeView::Referral(Seq::empty())))
        .or_else(spec_code_word(s, "SASL", ResponseCodeView::Sasl))
        .or_else(spec_code_word(s, "TRANSITION-NEEDED", ResponseCodeView::TransitionNeeded))
        .or_else(spec_code_word(s, "TRYLATER", ResponseCodeView::TryLater))
        .or_else(spec_code_word(s, "ACTIVE", ResponseCodeView::Active))
        .or_else(spec_code_word(s, "NONEXISTENT", ResponseCodeView::Nonexistent))
        .or_else(spec_code_word(s, "ALREADYEXISTS", ResponseCodeView::AlreadyExists))
        .or_else(spec_code_word(s, "TAG", ResponseCodeView::Tag))
        .or_else(spec_code_word(s, "WARNINGS", ResponseCodeView::Warnings))
}

/// Spaces, then a string sent by the server.
pub open spec fn spec_spaced_string(s: Seq<u8>) -> Outcome<Seq<u8>> {
    match spec_spaces(s) {
        Outcome::Done(_, a) => spec_sievestring(s.skip(a), false).after(a),
        o => o.fail_as(),
    }
}

/// Spaces, then a quoted string.
pub open spec fn spec_spaced_quoted(s: Seq<u8>) -> Outcome<Seq<u8>> {
    match spec_spaces(s) {
        Outcome::Done(_, a) => spec_quoted_string(s.skip(a)).after(a),
        o => o.fail_as(),
    }
}

/// Spaces, then a response code.
pub open spec fn spec_spaced_code(s: Seq<u8>) -> Outcome<(ResponseCodeView, Option<Seq<u8>>)> {
    match spec_spaces(s) {
        Outcome::Done(_, a) => spec_code(s.skip(a)).after(a),
        o => o.fail_as(),
    }
}

/// A response code: `(`, its name, optionally spaces and a string, `)`.
pub open spec fn spec_code(s: Seq<u8>) -> Outcome<(ResponseCodeView, Option<Seq<u8>>)> {
    match spec_keyword(s, seq![OPEN_PAREN]) {
        Outcome::Done(_, a) => match spec_atom(s.skip(a)) {
            Outcome::Done(name, b) => match spec_spaced_string(s.skip(a).skip(b)).optional() {
                Outcome::Done(detail, c) => match spec_keyword(
                    s.skip(a).skip(b).skip(c),
                    seq![CLOSE_PAREN],
                ) {
                    Outcome::Done(_, d) => Outcome::Done((name, detail), a + b + c + d),
                    o => o.fail_as(),
                },
                o => o.fail_as(),
            },
            o => o.fail_as(),
        },
        o => o.fail_as(),
    }
}

/// What follows the status word of a status line: optionally spaces and a
/// response code, optionally spaces and a quoted string, CR LF.
pub open spec fn spec_status_tail(s: Seq<u8>) -> Outcome<
    (Option<(ResponseCodeView, Option<Seq<u8>>)>, Option<Seq<u8>>),
> {
    match spec_spaced_code(s).optional() {
        Outcome::Done(code, a) => match spec_spaced_quoted(s.skip(a)).optional() {
            Outcome::Done(human, b) => match spec_crlf(s.skip(a).skip(b)) {
                Outcome::Done(_, c) => Outcome::Done((code, human), a + b + c),
                o => o.fail_as(),
            },
            o => o.fail_as(),
        },
        o => o.fail_as(),
    }
}

/// A status line that begins with the given status word.
pub open spec fn spec_status_line(s: Seq<u8>, word: Outcome<OkNoBye>) -> Outcome<ResponseView> {
    match word {
        Outcome::Done(tag, a) => match spec_status_tail(s.skip(a)) {
            Outcome::Done((code, human), b) => Outcome::Done(
                ResponseView { tag, code, human },
                a + b,
            ),
            o => o.fail_as(),
        },
        o => o.fail_as(),
    }
}

/// A status line whose status is `OK`.
pub open spec fn spec_response_ok(s: Seq<u8>) -> Outcome<ResponseView> {
    spec_status_line(s, spec_ok(s))
}

/// A status line whose status is `NO` or `BYE`.
pub open spec fn spec_response_nobye(s: Seq<u8>) -> Outcome<ResponseView> {
    spec_status_line(s, spec_nobye(s))
}

/// A status line.
pub open spec fn spec_response(s: Seq<u8>) -> Outcome<ResponseView> {
    spec_response_ok(s).or_else(spec_response_nobye(s))
}

/// A script name sent by the client: a string whose value is a valid name.
/// A string that is not one fails for good.
pub open spec fn spec_sieve_name(s: Seq<u8>) -> Outcome<Seq<u8>> {
    match spec_sievestring(s, true) {
        Outcome::Done(name, n) => if bad_name(name) {
            Outcome::Failure
        } else {
            Outcome::Done(name, n)
        },
        o => o,
    }
}

/// The name of the active script, if one is given.
pub open spec fn spec_active_sieve_name(s: Seq<u8>) -> Outcome<Option<Seq<u8>>> {
    spec_sieve_name(s).optional()
}

/// A script, CR LF, and a status line that says `OK`.
pub open spec fn spec_script_then_ok(s: Seq<u8>) -> Outcome<(Option<Seq<u8>>, ResponseView)> {
    match spec_sievestring(s, false) {
        Outcome::Done(script, a) => match spec_crlf(s.skip(a)) {
            Outcome::Done(_, b) => match spec_response_ok(s.skip(a).skip(b)) {
                Outcome::Done(r, c) => Outcome::Done((Some(script), r), a + b + c),
                o => o.fail_as(),
            },
            o => o.fail_as(),
        },
        o => o.fail_as(),
    }
}

/// A script and the `OK` status line that must follow it, or a status line
/// alone that says `NO` or `BYE`.
pub open spec fn spec_response_getscript(s: Seq<u8>) -> Outcome<(Option<Seq<u8>>, ResponseView)> {
    let absent = match spec_response_nobye(s) {
        Outcome::Done(r, n) => Outcome::Done((None, r), n),
        o => o.fail_as(),
    };
    spec_script_then_ok(s).or_else(absent)
}

/// Spaces, then the word `ACTIVE` in any case.
pub open spec fn spec_spaced_active(s: Seq<u8>) -> Outcome<()> {
    match spec_spaces(s) {
        Outcome::Done(_, a) => spec_keyword_no_case(s.skip(a), "ACTIVE".spec_bytes()).after(a),
        o => o.fail_as(),
    }
}

/// One line of a script listing: the name, optionally the mark of the
/// active script, CR LF.
pub open spec fn spec_script_entry(s: Seq<u8>) -> Outcome<(Seq<u8>, bool)> {
    match spec_sievestring(s, false) {
        Outcome::Done(name, a) => match spec_spaced_active(s.skip(a)).optional() {
            Outcome::Done(mark, b) => match spec_crlf(s.skip(a).skip(b)) {
                Outcome::Done(_, c) => Outcome::Done((name, mark is Some), a + b + c),
                o => o.fail_as(),
            },
            o => o.fail_as(),
        },
        o => o.fail_as(),
    }
}

/// As many script lines as there are: the listing ends where a line
/// definitely does not match.
pub open spec fn spec_script_entries(s: Seq<u8>) -> Outcome<Seq<(Seq<u8>, bool)>>
    decreases s.len(),
{
    match spec_script_entry(s) {
        Outcome::Done(entry, n) => if 0 < n <= s.len() {
            match spec_script_entries(s.skip(n)) {
                Outcome::Done(more, m) => Outcome::Done(seq![entry] + more, n + m),
                o => o,
            }
        } else {
            Outcome::Error
        },
        Outcome::Error => Outcome::Done(Seq::empty(), 0),
        o => o.fail_as(),
    }
}

/// A script listing and the status line that ends it.
pub open spec fn spec_response_listscripts(s: Seq<u8>) -> Outcome<
    (Seq<(Seq<u8>, bool)>, ResponseView),
> {
    match spec_script_entries(s) {
        Outcome::Done(entries, a) => match spec_response(s.skip(a)) {
            Outcome::Done(r, b) => Outcome::Done((entries, r), a + b),
            o => o.fail_as(),
        },
        o => o.fail_as(),
    }
}

/// One line of a capability listing: the name, optionally spaces and a
/// value, CR LF.
pub open spec fn spec_single_capability(s: Seq<u8>) -> Outcome<(Seq<u8>, Option<Seq<u8>>)> {
    match spec_sievestring(s, false) {
        Outcome::Done(name, a) => match spec_spaced_string(s.skip(a)).optional() {
            Outcome::Done(value, b) => match spec_crlf(s.skip(a).skip(b)) {
                Outcome::Done(_, c) => Outcome::Done((name, value), a + b + c),
                o => o.fail_as(),
            },
            o => o.fail_as(),
        },
        o => o.fail_as(),
    }
}

/// As many capability lines as there are.
pub open spec fn spec_capabilities(s: Seq<u8>) -> Outcome<Seq<(Seq<u8>, Option<Seq<u8>>)>>
    decreases s.len(),
{
    match spec_single_capability(s) {
        Outcome::Done(entry, n) => if 0 < n <= s.len() {
            match spec_capabilities(s.skip(n)) {
                Outcome::Done(more, m) => Outcome::Done(seq![entry] + more, n + m),
                o => o,
            }
        } else {
            Outcome::Error
        },
        Outcome::Error => Outcome::Done(Seq::empty(), 0),
        o => o.fail_as(),
    }
}

/// A capability listing and the status line that ends it.
pub open spec fn spec_response_capability(s: Seq<u8>) -> Outcome<
    (Seq<(Seq<u8>, Option<Seq<u8>>)>, ResponseView),
> {
    match spec_capabilities(s) {
        Outcome::Done(entries, a) => match spec_response(s.skip(a)) {
            Outcome::Done(r, b) => Outcome::Done((entries, r), a + b),
            o => o.fail_as(),
        },
        o => o.fail_as(),
    }
}

/// An `OK` status line followed at once by a capability response, or a
/// status line alone that says `NO` or `BYE`.
pub open spec fn spec_response_starttls(s: Seq<u8>) -> Outcome<
    (Seq<(Seq<u8>, Option<Seq<u8>>)>, ResponseView),
> {
    let accepted = match spec_response_ok(s) {
        Outcome::Done(_, a) => spec_response_capability(s.skip(a)).after(a),
        o => o.fail_as(),
    };
    let refused = match spec_response_nobye(s) {
        Outcome::Done(r, n) => Outcome::Done((Seq::empty(), r), n),
        o => o.fail_as(),
    };
    accepted.or_else(refused)
}

/// An `OK` status line, and the capability response that may follow it at
/// once and then takes its place; or a status line that says `NO` or `BYE`.
pub open spec fn spec_response_authenticate_complete(s: Seq<u8>) -> Outcome<
    (Option<Seq<(Seq<u8>, Option<Seq<u8>>)>>, ResponseView),
> {
    let accepted = match spec_response_ok(s) {
        Outcome::Done(first, a) => match spec_response_capability(s.skip(a)).optional() {
            Outcome::Done(Some((entries, last)), b) => Outcome::Done((Some(entries), last), a + b),
            Outcome::Done(None, _) => Outcome::Done((None, first), a),
            o => o.fail_as(),
        },
        o => o.fail_as(),
    };
    let refused = match spec_response_nobye(s) {
        Outcome::Done(r, n) => Outcome::Done((None, r), n),
        o => o.fail_as(),
    };
    accepted.or_else(refused)
}

/// The first answer to AUTHENTICATE: on the left a challenge, which is a
/// string and CR LF; on the right a status line that says `NO` or `BYE`.
pub open spec fn spec_response_authenticate_initial(s: Seq<u8>) -> Outcome<
    Either<Seq<u8>, ResponseView>,
> {
    let challenge = match spec_sievestring(s, false) {
        Outcome::Done(c, a) => match spec_crlf(s.skip(a)) {
            Outcome::Done(_, b) => Outcome::Done(Either::Left(c), a + b),
            o => o.fail_as(),
        },
        o => o.fail_as(),
    };
    let refused = match spec_response_nobye(s) {
        Outcome::Done(r, n) => Outcome::Done(Either::Right(r), n),
        o => o.fail_as(),
    };
    challenge.or_else(refused)
}

/// The closing quote that `spec_quoted_body` finds lies at or after the
/// start index and within the sequence.
pub proof fn lemma_quoted_body_end(s: Seq<u8>, i: int)
    ensures
        spec_quoted_body(s, i) matches Some((c, e)) ==> 0 <= i <= e < s.len() && s[e] == QUOTE,
    decreases s.len() - i,
{
    if 0 <= i < s.len() && s[i] != QUOTE {
        if s[i] == BACKSLASH {
            if i + 1 < s.len() {
                lemma_quoted_body_end(s, i + 2);
            }
        } else {
            lemma_quoted_body_end(s, i + 1);
        }
    }
}

/// `run_end` is within the sequence, everything before it is in the class,
/// and the byte at it, if any, is not.
pub proof fn lemma_run_end(s: Seq<u8>, p: spec_fn(u8) -> bool, i: int)
    requires
        0 <= i <= s.len(),
    ensures
        i <= run_end(s, p, i) <= s.len(),
        forall|j: int| i <= j < run_end(s, p, i) ==> p(#[trigger] s[j]),
        run_end(s, p, i) < s.len() ==> !p(s[run_end(s, p, i)]),
    decreases s.len() - i,
{
    if i < s.len() && p(s[i]) {
        lemma_run_end(s, p, i + 1);
    }
}

/// An index with the three properties of `run_end` is `run_end`.
pub proof fn lemma_run_end_unique(s: Seq<u8>, p: spec_fn(u8) -> bool, i: int, n: int)
    requires
        0 <= i <= n <= s.len(),
        forall|j: int| i <= j < n ==> p(#[trigger] s[j]),
        n < s.len() ==> !p(s[n]),
    ensures
        run_end(s, p, i) == n,
    decreases n - i,
{
    if i < n {
        lemma_run_end_unique(s, p, i + 1, n);
    }
}

} // verus!
