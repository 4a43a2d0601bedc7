//! What a decoder may say of a buffer that is still growing.
//!
//! Every rule of the grammar, applied to a beginning of the bytes that it
//! will be given in the end, either asks for more bytes or already yields
//! what it yields on all of them: the same value, the same number of bytes
//! consumed, or the same failure. So a caller that reads on after
//! `Incomplete` and decodes the longer buffer from its start loses nothing,
//! and an answer other than `Incomplete` is final.
//!
//! For each rule `x` of the grammar there are two lemmas. `lemma_x_bound`
//! says that the rule consumes no more bytes than it is given.
//! `lemma_x_prefix` says that on the first `k` bytes of an input the rule
//! asks for more bytes or yields what it yields on the whole input. The laws
//! at the end of the file state the same of the reply to each command.
use vstd::prelude::*;
use vstd::string::StringSliceAdditionalSpecFns;
use crate::grammar::{
    blank_class, digit_class, lemma_quoted_body_end, lemma_run_end, lemma_run_end_unique, lower,
    run_end, spec_active_sieve_name, spec_atom, spec_capabilities, spec_code, spec_crlf,
    spec_keyword, spec_keyword_no_case, spec_literal, spec_literal_close, spec_literal_len,
    spec_nobye, spec_number, spec_ok, spec_quoted_body, spec_quoted_string, spec_response,
    spec_response_authenticate_complete, spec_response_authenticate_initial,
    spec_response_capability, spec_response_getscript, spec_response_listscripts,
    spec_response_nobye, spec_response_ok, spec_response_starttls, spec_run1, spec_script_entries,
    spec_script_entry, spec_script_then_ok, spec_sieve_name, spec_sievestring,
    spec_single_capability, spec_spaced_active, spec_spaced_code, spec_spaced_quoted,
    spec_spaced_string, spec_spaces, spec_status_line, spec_status_tail, BACKSLASH, CLOSE_BRACE,
    CLOSE_PAREN, OPEN_BRACE, OPEN_PAREN, PLUS, QUOTE,
};
use crate::outcome::Outcome;
use crate::reply::{
    reply_authenticate, reply_capability, reply_getscript, reply_listscripts, reply_noop,
    reply_starttls, reply_status, Reply,
};
use crate::types::{Error, OkNoBye};

verus! {

/// `part`, the outcome on a beginning of the input, asks for more bytes or
/// is `whole`, the outcome on all of it.
pub open spec fn refines<T>(part: Outcome<T>, whole: Outcome<T>) -> bool {
    part is Incomplete || part == whole
}

/// An outcome consumes no more than `len` bytes.
pub open spec fn within<T>(o: Outcome<T>, len: nat) -> bool {
    o matches Outcome::Done(_, n) ==> 0 <= n <= len
}

/// Dropping bytes from the front of a beginning is taking a beginning of
/// what follows those bytes.
pub proof fn lemma_take_skip(s: Seq<u8>, k: int, a: int)
    requires
        0 <= a <= k <= s.len(),
    ensures
        s.take(k).skip(a) == s.skip(a).take(k - a),
{
    assert(s.take(k).skip(a) =~= s.skip(a).take(k - a));
}

proof fn lemma_keyword_bound(s: Seq<u8>, word: Seq<u8>)
    ensures
        within(spec_keyword(s, word), s.len()),
{
}

proof fn lemma_keyword_prefix(s: Seq<u8>, k: int, word: Seq<u8>)
    requires
        0 <= k <= s.len(),
    ensures
        refines(spec_keyword(s.take(k), word), spec_keyword(s, word)),
{
    let t = s.take(k);
    if exists|i: int| 0 <= i < t.len() && i < word.len() && t[i] != word[i] {
        let i = choose|i: int| 0 <= i < t.len() && i < word.len() && t[i] != word[i];
        assert(s[i] != word[i]);
    } else if t.len() >= word.len() {
        assert forall|i: int| 0 <= i < s.len() && i < word.len() implies s[i] == word[i] by {
            assert(t[i] == s[i]);
        }
    }
}

proof fn lemma_keyword_no_case_bound(s: Seq<u8>, word: Seq<u8>)
    ensures
        within(spec_keyword_no_case(s, word), s.len()),
{
}

proof fn lemma_keyword_no_case_prefix(s: Seq<u8>, k: int, word: Seq<u8>)
    requires
        0 <= k <= s.len(),
    ensures
        refines(spec_keyword_no_case(s.take(k), word), spec_keyword_no_case(s, word)),
{
    let t = s.take(k);
    if exists|i: int|
        0 <= i < t.len() && i < word.len() && lower(t[i]) != lower(
            word[i],
        ) {
        let i = choose|i: int|
            0 <= i < t.len() && i < word.len() && lower(t[i])
                != lower(word[i]);
        assert(lower(s[i]) != lower(word[i]));
    } else if t.len() >= word.len() {
        assert forall|i: int| 0 <= i < s.len() && i < word.len() implies lower(
            s[i],
        ) == lower(word[i]) by {
            assert(t[i] == s[i]);
        }
    }
}

proof fn lemma_run1_bound(s: Seq<u8>, p: spec_fn(u8) -> bool)
    ensures
        within(spec_run1(s, p), s.len()),
{
    lemma_run_end(s, p, 0);
}

proof fn lemma_run1_prefix(s: Seq<u8>, k: int, p: spec_fn(u8) -> bool)
    requires
        0 <= k <= s.len(),
    ensures
        refines(spec_run1(s.take(k), p), spec_run1(s, p)),
{
    let t = s.take(k);
    lemma_run_end(t, p, 0);
    lemma_run_end(s, p, 0);
    let n = run_end(t, p, 0);
    if n < t.len() {
        assert forall|j: int| 0 <= j < n implies p(#[trigger] s[j]) by {
            assert(t[j] == s[j]);
        }
        assert(t[n] == s[n]);
        lemma_run_end_unique(s, p, 0, n);
    }
}

proof fn lemma_number_bound(s: Seq<u8>)
    ensures
        within(spec_number(s), s.len()),
{
    lemma_run1_bound(s, digit_class());
}

proof fn lemma_number_prefix(s: Seq<u8>, k: int)
    requires
        0 <= k <= s.len(),
    ensures
        refines(spec_number(s.take(k)), spec_number(s)),
{
    let t = s.take(k);
    lemma_run1_prefix(s, k, digit_class());
    lemma_run1_bound(t, digit_class());
    if let Outcome::Done(_, n) = spec_run1(t, digit_class()) {
        assert(t.take(n) =~= s.take(n));
    }
}

proof fn lemma_spaces_bound(s: Seq<u8>)
    ensures
        within(spec_spaces(s), s.len()),
{
    lemma_run1_bound(s, blank_class());
}

proof fn lemma_spaces_prefix(s: Seq<u8>, k: int)
    requires
        0 <= k <= s.len(),
    ensures
        refines(spec_spaces(s.take(k)), spec_spaces(s)),
{
    lemma_run1_prefix(s, k, blank_class());
}

proof fn lemma_literal_close_bound(s: Seq<u8>, c2s: bool)
    ensures
        within(spec_literal_close(s, c2s), s.len()),
{
}

proof fn lemma_literal_close_prefix(s: Seq<u8>, k: int, c2s: bool)
    requires
        0 <= k <= s.len(),
    ensures
        refines(spec_literal_close(s.take(k), c2s), spec_literal_close(s, c2s)),
{
    lemma_keyword_prefix(s, k, seq![PLUS, CLOSE_BRACE]);
    lemma_keyword_prefix(s, k, seq![CLOSE_BRACE]);
}

proof fn lemma_literal_len_bound(s: Seq<u8>, c2s: bool)
    ensures
        within(spec_literal_len(s, c2s), s.len()),
{
    if let Outcome::Done(_, a) = spec_keyword(s, seq![OPEN_BRACE]) {
        lemma_number_bound(s.skip(a));
        if let Outcome::Done(_, b) = spec_number(s.skip(a)) {
            lemma_literal_close_bound(s.skip(a).skip(b), c2s);
        }
    }
}

proof fn lemma_literal_len_prefix(s: Seq<u8>, k: int, c2s: bool)
    requires
        0 <= k <= s.len(),
    ensures
        refines(spec_literal_len(s.take(k), c2s), spec_literal_len(s, c2s)),
{
    let t = s.take(k);
    lemma_keyword_prefix(s, k, seq![OPEN_BRACE]);
    if let Outcome::Done(_, a) = spec_keyword(t, seq![OPEN_BRACE]) {
        lemma_take_skip(s, k, a);
        let s1 = s.skip(a);
        let k1 = k - a;
        lemma_number_prefix(s1, k1);
        lemma_number_bound(s1.take(k1));
        if let Outcome::Done(_, b) = spec_number(s1.take(k1)) {
            lemma_take_skip(s1, k1, b);
            let s2 = s1.skip(b);
            let k2 = k1 - b;
            lemma_literal_close_prefix(s2, k2, c2s);
            lemma_literal_close_bound(s2.take(k2), c2s);
            if let Outcome::Done(_, c) = spec_literal_close(s2.take(k2), c2s) {
                lemma_take_skip(s2, k2, c);
                lemma_keyword_prefix(s2.skip(c), k2 - c, seq![0x0du8, 0x0au8]);
            }
        }
    }
}

proof fn lemma_literal_bound(s: Seq<u8>, c2s: bool)
    ensures
        within(spec_literal(s, c2s), s.len()),
{
    lemma_literal_len_bound(s, c2s);
}

proof fn lemma_literal_prefix(s: Seq<u8>, k: int, c2s: bool)
    requires
        0 <= k <= s.len(),
    ensures
        refines(spec_literal(s.take(k), c2s), spec_literal(s, c2s)),
{
    let t = s.take(k);
    lemma_literal_len_prefix(s, k, c2s);
    lemma_literal_len_bound(t, c2s);
    if let Outcome::Done(v, n) = spec_literal_len(t, c2s) {
        if t.len() - n >= v {
            assert(t.subrange(n, n + v) =~= s.subrange(n, n + v));
        }
    }
}

proof fn lemma_quoted_body_prefix(s: Seq<u8>, k: int, i: int)
    requires
        0 <= k <= s.len(),
        0 <= i,
    ensures
        spec_quoted_body(s.take(k), i) is None || spec_quoted_body(s.take(k), i)
            == spec_quoted_body(s, i),
    decreases k - i,
{
    let t = s.take(k);
    if i < k {
        assert(t[i] == s[i]);
        if s[i] == QUOTE {
        } else if s[i] == BACKSLASH {
            if i + 1 < k {
                assert(t[i + 1] == s[i + 1]);
                lemma_quoted_body_prefix(s, k, i + 2);
            }
        } else {
            lemma_quoted_body_prefix(s, k, i + 1);
        }
    }
}

proof fn lemma_quoted_string_bound(s: Seq<u8>)
    ensures
        within(spec_quoted_string(s), s.len()),
{
    lemma_quoted_body_end(s, 1);
}

proof fn lemma_quoted_string_prefix(s: Seq<u8>, k: int)
    requires
        0 <= k <= s.len(),
    ensures
        refines(spec_quoted_string(s.take(k)), spec_quoted_string(s)),
{
    lemma_keyword_prefix(s, k, seq![QUOTE]);
    lemma_quoted_body_prefix(s, k, 1);
}

proof fn lemma_sievestring_bound(s: Seq<u8>, c2s: bool)
    ensures
        within(spec_sievestring(s, c2s), s.len()),
{
    lemma_literal_bound(s, c2s);
    lemma_quoted_string_bound(s);
}

proof fn lemma_sievestring_prefix(s: Seq<u8>, k: int, c2s: bool)
    requires
        0 <= k <= s.len(),
    ensures
        refines(spec_sievestring(s.take(k), c2s), spec_sievestring(s, c2s)),
{
    lemma_literal_prefix(s, k, c2s);
    lemma_quoted_string_prefix(s, k);
}

proof fn lemma_atom_bound(s: Seq<u8>)
    ensures
        within(spec_atom(s), s.len()),
{
}

proof fn lemma_atom_prefix(s: Seq<u8>, k: int)
    requires
        0 <= k <= s.len(),
    ensures
        refines(spec_atom(s.take(k)), spec_atom(s)),
{
    lemma_keyword_prefix(s, k, "AUTH-TOO-WEAK".spec_bytes());
    lemma_keyword_prefix(s, k, "ENCRYPT-NEEDED".spec_bytes());
    lemma_keyword_prefix(s, k, "QUOTA/MAXSCRIPTS".spec_bytes());
    lemma_keyword_prefix(s, k, "QUOTA/MAXSIZE".spec_bytes());
    lemma_keyword_prefix(s, k, "QUOTA".spec_bytes());
    lemma_keyword_prefix(s, k, "REFERRAL".spec_bytes());
    lemma_keyword_prefix(s, k, "SASL".spec_bytes());
    lemma_keyword_prefix(s, k, "TRANSITION-NEEDED".spec_bytes());
    lemma_keyword_prefix(s, k, "TRYLATER".spec_bytes());
    lemma_keyword_prefix(s, k, "ACTIVE".spec_bytes());
    lemma_keyword_prefix(s, k, "NONEXISTENT".spec_bytes());
    lemma_keyword_prefix(s, k, "ALREADYEXISTS".spec_bytes());
    lemma_keyword_prefix(s, k, "TAG".spec_bytes());
    lemma_keyword_prefix(s, k, "WARNINGS".spec_bytes());
}

proof fn lemma_spaced_string_bound(s: Seq<u8>)
    ensures
        within(spec_spaced_string(s), s.len()),
{
    lemma_spaces_bound(s);
    if let Outcome::Done(_, a) = spec_spaces(s) {
        lemma_sievestring_bound(s.skip(a), false);
    }
}

proof fn lemma_spaced_string_prefix(s: Seq<u8>, k: int)
    requires
        0 <= k <= s.len(),
    ensures
        refines(spec_spaced_string(s.take(k)), spec_spaced_string(s)),
{
    let t = s.take(k);
    lemma_spaces_prefix(s, k);
    lemma_spaces_bound(t);
    if let Outcome::Done(_, a) = spec_spaces(t) {
        lemma_take_skip(s, k, a);
        lemma_sievestring_prefix(s.skip(a), k - a, false);
    }
}

proof fn lemma_spaced_quoted_bound(s: Seq<u8>)
    ensures
        within(spec_spaced_quoted(s), s.len()),
{
    lemma_spaces_bound(s);
    if let Outcome::Done(_, a) = spec_spaces(s) {
        lemma_quoted_string_bound(s.skip(a));
    }
}

proof fn lemma_spaced_quoted_prefix(s: Seq<u8>, k: int)
    requires
        0 <= k <= s.len(),
    ensures
        refines(spec_spaced_quoted(s.take(k)), spec_spaced_quoted(s)),
{
    let t = s.take(k);
    lemma_spaces_prefix(s, k);
    lemma_spaces_bound(t);
    if let Outcome::Done(_, a) = spec_spaces(t) {
        lemma_take_skip(s, k, a);
        lemma_quoted_string_prefix(s.skip(a), k - a);
    }
}

proof fn lemma_spaced_active_bound(s: Seq<u8>)
    ensures
        within(spec_spaced_active(s), s.len()),
{
    lemma_spaces_bound(s);
}

proof fn lemma_spaced_active_prefix(s: Seq<u8>, k: int)
    requires
        0 <= k <= s.len(),
    ensures
        refines(spec_spaced_active(s.take(k)), spec_spaced_active(s)),
{
    let t = s.take(k);
    lemma_spaces_prefix(s, k);
    lemma_spaces_bound(t);
    if let Outcome::Done(_, a) = spec_spaces(t) {
        lemma_take_skip(s, k, a);
        lemma_keyword_no_case_prefix(s.skip(a), k - a, "ACTIVE".spec_bytes());
    }
}

proof fn lemma_code_bound(s: Seq<u8>)
    ensures
        within(spec_code(s), s.len()),
{
    if let Outcome::Done(_, a) = spec_keyword(s, seq![OPEN_PAREN]) {
        lemma_atom_bound(s.skip(a));
        if let Outcome::Done(_, b) = spec_atom(s.skip(a)) {
            lemma_spaced_string_bound(s.skip(a).skip(b));
        }
    }
}

proof fn lemma_code_prefix(s: Seq<u8>, k: int)
    requires
        0 <= k <= s.len(),
    ensures
        refines(spec_code(s.take(k)), spec_code(s)),
{
    let t = s.take(k);
    lemma_keyword_prefix(s, k, seq![OPEN_PAREN]);
    if let Outcome::Done(_, a) = spec_keyword(t, seq![OPEN_PAREN]) {
        lemma_take_skip(s, k, a);
        let s1 = s.skip(a);
        let k1 = k - a;
        lemma_atom_prefix(s1, k1);
        lemma_atom_bound(s1.take(k1));
        if let Outcome::Done(_, b) = spec_atom(s1.take(k1)) {
            lemma_take_skip(s1, k1, b);
            let s2 = s1.skip(b);
            let k2 = k1 - b;
            lemma_spaced_string_prefix(s2, k2);
            lemma_spaced_string_bound(s2.take(k2));
            if let Outcome::Done(_, c) = spec_spaced_string(s2.take(k2)).optional() {
                lemma_take_skip(s2, k2, c);
                lemma_keyword_prefix(s2.skip(c), k2 - c, seq![CLOSE_PAREN]);
            }
        }
    }
}

proof fn lemma_spaced_code_bound(s: Seq<u8>)
    ensures
        within(spec_spaced_code(s), s.len()),
{
    lemma_spaces_bound(s);
    if let Outcome::Done(_, a) = spec_spaces(s) {
        lemma_code_bound(s.skip(a));
    }
}

proof fn lemma_spaced_code_prefix(s: Seq<u8>, k: int)
    requires
        0 <= k <= s.len(),
    ensures
        refines(spec_spaced_code(s.take(k)), spec_spaced_code(s)),
{
    let t = s.take(k);
    lemma_spaces_prefix(s, k);
    lemma_spaces_bound(t);
    if let Outcome::Done(_, a) = spec_spaces(t) {
        lemma_take_skip(s, k, a);
        lemma_code_prefix(s.skip(a), k - a);
    }
}

proof fn lemma_status_tail_bound(s: Seq<u8>)
    ensures
        within(spec_status_tail(s), s.len()),
{
    lemma_spaced_code_bound(s);
    if let Outcome::Done(_, a) = spec_spaced_code(s).optional() {
        lemma_spaced_quoted_bound(s.skip(a));
    }
}

proof fn lemma_status_tail_prefix(s: Seq<u8>, k: int)
    requires
        0 <= k <= s.len(),
    ensures
        refines(spec_status_tail(s.take(k)), spec_status_tail(s)),
{
    let t = s.take(k);
    lemma_spaced_code_prefix(s, k);
    lemma_spaced_code_bound(t);
    if let Outcome::Done(_, a) = spec_spaced_code(t).optional() {
        lemma_take_skip(s, k, a);
        let s1 = s.skip(a);
        let k1 = k - a;
        lemma_spaced_quoted_prefix(s1, k1);
        lemma_spaced_quoted_bound(s1.take(k1));
        if let Outcome::Done(_, b) = spec_spaced_quoted(s1.take(k1)).optional() {
            lemma_take_skip(s1, k1, b);
            lemma_keyword_prefix(s1.skip(b), k1 - b, seq![0x0du8, 0x0au8]);
        }
    }
}

proof fn lemma_status_line_bound(s: Seq<u8>, word: Outcome<OkNoBye>)
    requires
        within(word, s.len()),
    ensures
        within(spec_status_line(s, word), s.len()),
{
    if let Outcome::Done(_, a) = word {
        lemma_status_tail_bound(s.skip(a));
    }
}

proof fn lemma_status_line_prefix(
    s: Seq<u8>,
    k: int,
    part: Outcome<OkNoBye>,
    whole: Outcome<OkNoBye>,
)
    requires
        0 <= k <= s.len(),
        refines(part, whole),
        within(part, k as nat),
    ensures
        refines(spec_status_line(s.take(k), part), spec_status_line(s, whole)),
{
    if let Outcome::Done(_, a) = part {
        lemma_take_skip(s, k, a);
        lemma_status_tail_prefix(s.skip(a), k - a);
    }
}

proof fn lemma_response_ok_bound(s: Seq<u8>)
    ensures
        within(spec_response_ok(s), s.len()),
{
    lemma_status_line_bound(s, spec_ok(s));
}

proof fn lemma_response_ok_prefix(s: Seq<u8>, k: int)
    requires
        0 <= k <= s.len(),
    ensures
        refines(spec_response_ok(s.take(k)), spec_response_ok(s)),
{
    lemma_keyword_no_case_prefix(s, k, "OK".spec_bytes());
    lemma_status_line_prefix(s, k, spec_ok(s.take(k)), spec_ok(s));
}

proof fn lemma_response_nobye_bound(s: Seq<u8>)
    ensures
        within(spec_response_nobye(s), s.len()),
{
    lemma_status_line_bound(s, spec_nobye(s));
}

proof fn lemma_response_nobye_prefix(s: Seq<u8>, k: int)
    requires
        0 <= k <= s.len(),
    ensures
        refines(spec_response_nobye(s.take(k)), spec_response_nobye(s)),
{
    lemma_keyword_no_case_prefix(s, k, "NO".spec_bytes());
    lemma_keyword_no_case_prefix(s, k, "BYE".spec_bytes());
    lemma_status_line_prefix(s, k, spec_nobye(s.take(k)), spec_nobye(s));
}

proof fn lemma_response_bound(s: Seq<u8>)
    ensures
        within(spec_response(s), s.len()),
{
    lemma_response_ok_bound(s);
    lemma_response_nobye_bound(s);
}

proof fn lemma_response_prefix(s: Seq<u8>, k: int)
    requires
        0 <= k <= s.len(),
    ensures
        refines(spec_response(s.take(k)), spec_response(s)),
{
    lemma_response_ok_prefix(s, k);
    lemma_response_nobye_prefix(s, k);
}

proof fn lemma_sieve_name_prefix(s: Seq<u8>, k: int)
    requires
        0 <= k <= s.len(),
    ensures
        refines(spec_sieve_name(s.take(k)), spec_sieve_name(s)),
        refines(spec_active_sieve_name(s.take(k)), spec_active_sieve_name(s)),
{
    lemma_sievestring_prefix(s, k, true);
}

proof fn lemma_script_then_ok_bound(s: Seq<u8>)
    ensures
        within(spec_script_then_ok(s), s.len()),
{
    lemma_sievestring_bound(s, false);
    if let Outcome::Done(_, a) = spec_sievestring(s, false) {
        if let Outcome::Done(_, b) = spec_crlf(s.skip(a)) {
            lemma_response_ok_bound(s.skip(a).skip(b));
        }
    }
}

proof fn lemma_script_then_ok_prefix(s: Seq<u8>, k: int)
    requires
        0 <= k <= s.len(),
    ensures
        refines(spec_script_then_ok(s.take(k)), spec_script_then_ok(s)),
{
    let t = s.take(k);
    lemma_sievestring_prefix(s, k, false);
    lemma_sievestring_bound(t, false);
    if let Outcome::Done(_, a) = spec_sievestring(t, false) {
        lemma_take_skip(s, k, a);
        let s1 = s.skip(a);
        let k1 = k - a;
        lemma_keyword_prefix(s1, k1, seq![0x0du8, 0x0au8]);
        if let Outcome::Done(_, b) = spec_crlf(s1.take(k1)) {
            lemma_take_skip(s1, k1, b);
            lemma_response_ok_prefix(s1.skip(b), k1 - b);
        }
    }
}

proof fn lemma_response_getscript_bound(s: Seq<u8>)
    ensures
        within(spec_response_getscript(s), s.len()),
{
    lemma_script_then_ok_bound(s);
    lemma_response_nobye_bound(s);
}

proof fn lemma_response_getscript_prefix(s: Seq<u8>, k: int)
    requires
        0 <= k <= s.len(),
    ensures
        refines(spec_response_getscript(s.take(k)), spec_response_getscript(s)),
{
    lemma_script_then_ok_prefix(s, k);
    lemma_response_nobye_prefix(s, k);
}

proof fn lemma_script_entry_bound(s: Seq<u8>)
    ensures
        within(spec_script_entry(s), s.len()),
{
    lemma_sievestring_bound(s, false);
    if let Outcome::Done(_, a) = spec_sievestring(s, false) {
        lemma_spaced_active_bound(s.skip(a));
    }
}

proof fn lemma_script_entry_prefix(s: Seq<u8>, k: int)
    requires
        0 <= k <= s.len(),
    ensures
        refines(spec_script_entry(s.take(k)), spec_script_entry(s)),
{
    let t = s.take(k);
    lemma_sievestring_prefix(s, k, false);
    lemma_sievestring_bound(t, false);
    if let Outcome::Done(_, a) = spec_sievestring(t, false) {
        lemma_take_skip(s, k, a);
        let s1 = s.skip(a);
        let k1 = k - a;
        lemma_spaced_active_prefix(s1, k1);
        lemma_spaced_active_bound(s1.take(k1));
        if let Outcome::Done(_, b) = spec_spaced_active(s1.take(k1)).optional() {
            lemma_take_skip(s1, k1, b);
            lemma_keyword_prefix(s1.skip(b), k1 - b, seq![0x0du8, 0x0au8]);
        }
    }
}

proof fn lemma_script_entries_bound(s: Seq<u8>)
    ensures
        within(spec_script_entries(s), s.len()),
    decreases s.len(),
{
    if let Outcome::Done(_, n) = spec_script_entry(s) {
        if 0 < n <= s.len() {
            lemma_script_entries_bound(s.skip(n));
        }
    }
}

proof fn lemma_script_entries_prefix(s: Seq<u8>, k: int)
    requires
        0 <= k <= s.len(),
    ensures
        refines(spec_script_entries(s.take(k)), spec_script_entries(s)),
    decreases s.len(),
{
    let t = s.take(k);
    lemma_script_entry_prefix(s, k);
    lemma_script_entry_bound(t);
    if let Outcome::Done(_, n) = spec_script_entry(t) {
        if 0 < n <= t.len() {
            lemma_take_skip(s, k, n);
            lemma_script_entries_prefix(s.skip(n), k - n);
        }
    }
}

proof fn lemma_response_listscripts_bound(s: Seq<u8>)
    ensures
        within(spec_response_listscripts(s), s.len()),
{
    lemma_script_entries_bound(s);
    if let Outcome::Done(_, a) = spec_script_entries(s) {
        lemma_response_bound(s.skip(a));
    }
}

proof fn lemma_response_listscripts_prefix(s: Seq<u8>, k: int)
    requires
        0 <= k <= s.len(),
    ensures
        refines(spec_response_listscripts(s.take(k)), spec_response_listscripts(s)),
{
    let t = s.take(k);
    lemma_script_entries_prefix(s, k);
    lemma_script_entries_bound(t);
    if let Outcome::Done(_, a) = spec_script_entries(t) {
        lemma_take_skip(s, k, a);
        lemma_response_prefix(s.skip(a), k - a);
    }
}

proof fn lemma_single_capability_bound(s: Seq<u8>)
    ensures
        within(spec_single_capability(s), s.len()),
{
    lemma_sievestring_bound(s, false);
    if let Outcome::Done(_, a) = spec_sievestring(s, false) {
        lemma_spaced_string_bound(s.skip(a));
    }
}

proof fn lemma_single_capability_prefix(s: Seq<u8>, k: int)
    requires
        0 <= k <= s.len(),
    ensures
        refines(spec_single_capability(s.take(k)), spec_single_capability(s)),
{
    let t = s.take(k);
    lemma_sievestring_prefix(s, k, false);
    lemma_sievestring_bound(t, false);
    if let Outcome::Done(_, a) = spec_sievestring(t, false) {
        lemma_take_skip(s, k, a);
        let s1 = s.skip(a);
        let k1 = k - a;
        lemma_spaced_string_prefix(s1, k1);
        lemma_spaced_string_bound(s1.take(k1));
        if let Outcome::Done(_, b) = spec_spaced_string(s1.take(k1)).optional() {
            lemma_take_skip(s1, k1, b);
            lemma_keyword_prefix(s1.skip(b), k1 - b, seq![0x0du8, 0x0au8]);
        }
    }
}

proof fn lemma_capabilities_bound(s: Seq<u8>)
    ensures
        within(spec_capabilities(s), s.len()),
    decreases s.len(),
{
    if let Outcome::Done(_, n) = spec_single_capability(s) {
        if 0 < n <= s.len() {
            lemma_capabilities_bound(s.skip(n));
        }
    }
}

proof fn lemma_capabilities_prefix(s: Seq<u8>, k: int)
    requires
        0 <= k <= s.len(),
    ensures
        refines(spec_capabilities(s.take(k)), spec_capabilities(s)),
    decreases s.len(),
{
    let t = s.take(k);
    lemma_single_capability_prefix(s, k);
    lemma_single_capability_bound(t);
    if let Outcome::Done(_, n) = spec_single_capability(t) {
        if 0 < n <= t.len() {
            lemma_take_skip(s, k, n);
            lemma_capabilities_prefix(s.skip(n), k - n);
        }
    }
}

proof fn lemma_response_capability_bound(s: Seq<u8>)
    ensures
        within(spec_response_capability(s), s.len()),
{
    lemma_capabilities_bound(s);
    if let Outcome::Done(_, a) = spec_capabilities(s) {
        lemma_response_bound(s.skip(a));
    }
}

proof fn lemma_response_capability_prefix(s: Seq<u8>, k: int)
    requires
        0 <= k <= s.len(),
    ensures
        refines(spec_response_capability(s.take(k)), spec_response_capability(s)),
{
    let t = s.take(k);
    lemma_capabilities_prefix(s, k);
    lemma_capabilities_bound(t);
    if let Outcome::Done(_, a) = spec_capabilities(t) {
        lemma_take_skip(s, k, a);
        lemma_response_prefix(s.skip(a), k - a);
    }
}

proof fn lemma_response_starttls_bound(s: Seq<u8>)
    ensures
        within(spec_response_starttls(s), s.len()),
{
    lemma_response_ok_bound(s);
    if let Outcome::Done(_, a) = spec_response_ok(s) {
        lemma_response_capability_bound(s.skip(a));
    }
    lemma_response_nobye_bound(s);
}

proof fn lemma_response_starttls_prefix(s: Seq<u8>, k: int)
    requires
        0 <= k <= s.len(),
    ensures
        refines(spec_response_starttls(s.take(k)), spec_response_starttls(s)),
{
    let t = s.take(k);
    lemma_response_ok_prefix(s, k);
    lemma_response_ok_bound(t);
    if let Outcome::Done(_, a) = spec_response_ok(t) {
        lemma_take_skip(s, k, a);
        lemma_response_capability_prefix(s.skip(a), k - a);
    }
    lemma_response_nobye_prefix(s, k);
}

proof fn lemma_response_authenticate_complete_bound(s: Seq<u8>)
    ensures
        within(spec_response_authenticate_complete(s), s.len()),
{
    lemma_response_ok_bound(s);
    if let Outcome::Done(_, a) = spec_response_ok(s) {
        lemma_response_capability_bound(s.skip(a));
    }
    lemma_response_nobye_bound(s);
}

proof fn lemma_response_authenticate_complete_prefix(s: Seq<u8>, k: int)
    requires
        0 <= k <= s.len(),
    ensures
        refines(
            spec_response_authenticate_complete(s.take(k)),
            spec_response_authenticate_complete(s),
        ),
{
    let t = s.take(k);
    lemma_response_ok_prefix(s, k);
    lemma_response_ok_bound(t);
    if let Outcome::Done(_, a) = spec_response_ok(t) {
        lemma_take_skip(s, k, a);
        lemma_response_capability_prefix(s.skip(a), k - a);
    }
    lemma_response_nobye_prefix(s, k);
}

proof fn lemma_response_authenticate_initial_bound(s: Seq<u8>)
    ensures
        within(spec_response_authenticate_initial(s), s.len()),
{
    lemma_sievestring_bound(s, false);
    lemma_response_nobye_bound(s);
}

proof fn lemma_response_authenticate_initial_prefix(s: Seq<u8>, k: int)
    requires
        0 <= k <= s.len(),
    ensures
        refines(
            spec_response_authenticate_initial(s.take(k)),
            spec_response_authenticate_initial(s),
        ),
{
    let t = s.take(k);
    lemma_sievestring_prefix(s, k, false);
    lemma_sievestring_bound(t, false);
    if let Outcome::Done(_, a) = spec_sievestring(t, false) {
        lemma_take_skip(s, k, a);
        lemma_keyword_prefix(s.skip(a), k - a, seq![0x0du8, 0x0au8]);
    }
    lemma_response_nobye_prefix(s, k);
}

/// `part`, the reply on a beginning of the buffer, asks for more bytes or
/// is `whole`, the reply on all of it.
pub open spec fn settles<V>(part: Reply<V>, whole: Reply<V>) -> bool {
    part == Err::<(V, int), Error>(Error::IncompleteResponse) || part == whole
}

/// `part`, the reply on the first `len` bytes of a buffer, asks for more
/// bytes wherever `whole`, the reply on all of it, consumes more than `len`.
pub open spec fn waits<V>(part: Reply<V>, whole: Reply<V>, len: nat) -> bool {
    whole matches Ok((_, n)) && len < n ==> part == Err::<(V, int), Error>(
        Error::IncompleteResponse,
    )
}

/// Decoding a status line from a buffer `a` that the bytes `b` will extend
/// either asks for more bytes or gives what decoding `a + b` gives; and it
/// asks for more bytes whenever the status line ends beyond `a`. This is the
/// law of the answers to LOGOUT, SETACTIVE, DELETESCRIPT, PUTSCRIPT,
/// CHECKSCRIPT, HAVESPACE, RENAMESCRIPT and UNAUTHENTICATE.
pub proof fn law_status_settles(a: Seq<u8>, b: Seq<u8>)
    ensures
        settles(reply_status(a), reply_status(a + b)),
        waits(reply_status(a), reply_status(a + b), a.len()),
{
    assert((a + b).take(a.len() as int) =~= a);
    lemma_response_prefix(a + b, a.len() as int);
    lemma_response_bound(a);
}

/// Decoding the answer to NOOP from a buffer `a` that the bytes `b` will
/// extend either asks for more bytes or gives what decoding `a + b` gives;
/// and it asks for more bytes whenever the answer ends beyond `a`.
pub proof fn law_noop_settles(a: Seq<u8>, b: Seq<u8>)
    ensures
        settles(reply_noop(a), reply_noop(a + b)),
        waits(reply_noop(a), reply_noop(a + b), a.len()),
{
    law_status_settles(a, b);
}

/// Decoding the answer to GETSCRIPT from a buffer `a` that the bytes `b`
/// will extend either asks for more bytes or gives what decoding `a + b`
/// gives; and it asks for more bytes whenever the answer ends beyond `a`.
pub proof fn law_getscript_settles(a: Seq<u8>, b: Seq<u8>)
    ensures
        settles(reply_getscript(a), reply_getscript(a + b)),
        waits(reply_getscript(a), reply_getscript(a + b), a.len()),
{
    assert((a + b).take(a.len() as int) =~= a);
    lemma_response_getscript_prefix(a + b, a.len() as int);
    lemma_response_getscript_bound(a);
}

/// Decoding the answer to LISTSCRIPTS from a buffer `a` that the bytes `b`
/// will extend either asks for more bytes or gives what decoding `a + b`
/// gives; and it asks for more bytes whenever the answer ends beyond `a`.
pub proof fn law_listscripts_settles(a: Seq<u8>, b: Seq<u8>)
    ensures
        settles(reply_listscripts(a), reply_listscripts(a + b)),
        waits(reply_listscripts(a), reply_listscripts(a + b), a.len()),
{
    assert((a + b).take(a.len() as int) =~= a);
    lemma_response_listscripts_prefix(a + b, a.len() as int);
    lemma_response_listscripts_bound(a);
}

/// Decoding the answer to CAPABILITY from a buffer `a` that the bytes `b`
/// will extend either asks for more bytes or gives what decoding `a + b`
/// gives; and it asks for more bytes whenever the answer ends beyond `a`.
pub proof fn law_capability_settles(a: Seq<u8>, b: Seq<u8>)
    ensures
        settles(reply_capability(a), reply_capability(a + b)),
        waits(reply_capability(a), reply_capability(a + b), a.len()),
{
    assert((a + b).take(a.len() as int) =~= a);
    lemma_response_capability_prefix(a + b, a.len() as int);
    lemma_response_capability_bound(a);
}

/// Decoding the answer to STARTTLS from a buffer `a` that the bytes `b` will
/// extend either asks for more bytes or gives what decoding `a + b` gives;
/// and it asks for more bytes whenever the answer ends beyond `a`.
pub proof fn law_starttls_settles(a: Seq<u8>, b: Seq<u8>)
    ensures
        settles(reply_starttls(a), reply_starttls(a + b)),
        waits(reply_starttls(a), reply_starttls(a + b), a.len()),
{
    assert((a + b).take(a.len() as int) =~= a);
    lemma_response_starttls_prefix(a + b, a.len() as int);
    lemma_response_starttls_bound(a);
}

/// Decoding the answer that ends an AUTHENTICATE exchange from a buffer `a`
/// that the bytes `b` will extend either asks for more bytes or gives what
/// decoding `a + b` gives; and it asks for more bytes whenever the answer
/// ends beyond `a`.
pub proof fn law_authenticate_settles(a: Seq<u8>, b: Seq<u8>)
    ensures
        settles(reply_authenticate(a), reply_authenticate(a + b)),
        waits(reply_authenticate(a), reply_authenticate(a + b), a.len()),
{
    assert((a + b).take(a.len() as int) =~= a);
    lemma_response_authenticate_complete_prefix(a + b, a.len() as int);
    lemma_response_authenticate_complete_bound(a);
}

/// Decoding the first answer to AUTHENTICATE from a buffer `a` that the
/// bytes `b` will extend either asks for more bytes or gives what decoding
/// `a + b` gives, and it consumes no more than it was given.
pub proof fn law_authenticate_initial_settles(a: Seq<u8>, b: Seq<u8>)
    ensures
        refines(spec_response_authenticate_initial(a), spec_response_authenticate_initial(a + b)),
        within(spec_response_authenticate_initial(a), a.len()),
{
    assert((a + b).take(a.len() as int) =~= a);
    lemma_response_authenticate_initial_prefix(a + b, a.len() as int);
    lemma_response_authenticate_initial_bound(a);
}

/// Decoding a script name, or the name of the active script, from a buffer
/// `a` that the bytes `b` will extend either asks for more bytes or gives
/// what decoding `a + b` gives.
pub proof fn law_sieve_name_settles(a: Seq<u8>, b: Seq<u8>)
    ensures
        refines(spec_sieve_name(a), spec_sieve_name(a + b)),
        refines(spec_active_sieve_name(a), spec_active_sieve_name(a + b)),
{
    assert((a + b).take(a.len() as int) =~= a);
    lemma_sieve_name_prefix(a + b, a.len() as int);
}

} // verus!
