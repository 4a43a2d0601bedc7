//! The fixed words of the grammar.
//!
//! The name of a response code is found by trying the words of the
//! vocabulary in a fixed order. The order is such that no word hides
//! another: each word, followed by whatever may follow a name, is read as
//! itself. The three status words are read in any mix of upper and lower
//! case.
use vstd::prelude::*;
use vstd::string::StringSliceAdditionalSpecFns;
use vstd::utf8::{is_ascii_chars, is_ascii_chars_encode_utf8};
use crate::grammar::{
    lower, spec_atom, spec_keyword, spec_keyword_no_case, spec_nobye, spec_ok,
};
use crate::outcome::Outcome;
use crate::types::{OkNoBye, QuotaVariant, ResponseCodeView};

verus! {

/// The bytes of a text of ASCII characters are its characters.
proof fn lemma_ascii_bytes(text: &str)
    requires
        is_ascii_chars(text@),
    ensures
        text.spec_bytes() == Seq::new(text@.len(), |i: int| text@[i] as u8),
{
    is_ascii_chars_encode_utf8(text@);
    assert(text.spec_bytes() =~= Seq::new(text@.len(), |i: int| text@[i] as u8));
}

/// A word does not match bytes that differ from it at index `i`.
proof fn lemma_differs(s: Seq<u8>, word: Seq<u8>, i: int)
    requires
        0 <= i < s.len(),
        i < word.len(),
        s[i] != word[i],
    ensures
        spec_keyword(s, word) is Error,
{
}

/// A word matches bytes that begin with it.
proof fn lemma_begins(word: Seq<u8>, rest: Seq<u8>)
    ensures
        spec_keyword(word + rest, word) == Outcome::Done((), word.len() as int),
{
    assert forall|i: int| 0 <= i < (word + rest).len() && i < word.len() implies (word + rest)[i]
        == word[i] by {}
}

/// The words of the vocabulary, byte for byte.
pub proof fn lemma_vocabulary_bytes()
    ensures
        "AUTH-TOO-WEAK".spec_bytes() == seq![
            'A' as u8, 'U' as u8, 'T' as u8, 'H' as u8, '-' as u8, 'T' as u8, 'O' as u8, 'O' as u8,
            '-' as u8, 'W' as u8, 'E' as u8, 'A' as u8, 'K' as u8,
        ],
        "ENCRYPT-NEEDED".spec_bytes() == seq![
            'E' as u8, 'N' as u8, 'C' as u8, 'R' as u8, 'Y' as u8, 'P' as u8, 'T' as u8, '-' as u8,
            'N' as u8, 'E' as u8, 'E' as u8, 'D' as u8, 'E' as u8, 'D' as u8,
        ],
        "QUOTA/MAXSCRIPTS".spec_bytes() == seq![
            'Q' as u8, 'U' as u8, 'O' as u8, 'T' as u8, 'A' as u8, '/' as u8, 'M' as u8, 'A' as u8,
            'X' as u8, 'S' as u8, 'C' as u8, 'R' as u8, 'I' as u8, 'P' as u8, 'T' as u8, 'S' as u8,
        ],
        "QUOTA/MAXSIZE".spec_bytes() == seq![
            'Q' as u8, 'U' as u8, 'O' as u8, 'T' as u8, 'A' as u8, '/' as u8, 'M' as u8, 'A' as u8,
            'X' as u8, 'S' as u8, 'I' as u8, 'Z' as u8, 'E' as u8,
        ],
        "QUOTA".spec_bytes() == seq![
            'Q' as u8, 'U' as u8, 'O' as u8, 'T' as u8, 'A' as u8,
        ],
        "REFERRAL".spec_bytes() == seq![
            'R' as u8, 'E' as u8, 'F' as u8, 'E' as u8, 'R' as u8, 'R' as u8, 'A' as u8, 'L' as u8,
        ],
        "SASL".spec_bytes() == seq![
            'S' as u8, 'A' as u8, 'S' as u8, 'L' as u8,
        ],
        "TRANSITION-NEEDED".spec_bytes() == seq![
            'T' as u8, 'R' as u8, 'A' as u8, 'N' as u8, 'S' as u8, 'I' as u8, 'T' as u8, 'I' as u8,
            'O' as u8, 'N' as u8, '-' as u8, 'N' as u8, 'E' as u8, 'E' as u8, 'D' as u8, 'E' as u8,
            'D' as u8,
        ],
        "TRYLATER".spec_bytes() == seq![
            'T' as u8, 'R' as u8, 'Y' as u8, 'L' as u8, 'A' as u8, 'T' as u8, 'E' as u8, 'R' as u8,
        ],
        "ACTIVE".spec_bytes() == seq![
            'A' as u8, 'C' as u8, 'T' as u8, 'I' as u8, 'V' as u8, 'E' as u8,
        ],
        "NONEXISTENT".spec_bytes() == seq![
            'N' as u8, 'O' as u8, 'N' as u8, 'E' as u8, 'X' as u8, 'I' as u8, 'S' as u8, 'T' as u8,
            'E' as u8, 'N' as u8, 'T' as u8,
        ],
        "ALREADYEXISTS".spec_bytes() == seq![
            'A' as u8, 'L' as u8, 'R' as u8, 'E' as u8, 'A' as u8, 'D' as u8, 'Y' as u8, 'E' as u8,
            'X' as u8, 'I' as u8, 'S' as u8, 'T' as u8, 'S' as u8,
        ],
        "TAG".spec_bytes() == seq![
            'T' as u8, 'A' as u8, 'G' as u8,
        ],
        "WARNINGS".spec_bytes() == seq![
            'W' as u8, 'A' as u8, 'R' as u8, 'N' as u8, 'I' as u8, 'N' as u8, 'G' as u8, 'S' as u8,
        ],
{
    assert("AUTH-TOO-WEAK".spec_bytes() =~= seq![
        'A' as u8, 'U' as u8, 'T' as u8, 'H' as u8, '-' as u8, 'T' as u8, 'O' as u8, 'O' as u8,
        '-' as u8, 'W' as u8, 'E' as u8, 'A' as u8, 'K' as u8,
    ]) by {
        reveal_strlit("AUTH-TOO-WEAK");
        lemma_ascii_bytes("AUTH-TOO-WEAK");
    }
    assert("ENCRYPT-NEEDED".spec_bytes() =~= seq![
        'E' as u8, 'N' as u8, 'C' as u8, 'R' as u8, 'Y' as u8, 'P' as u8, 'T' as u8, '-' as u8,
        'N' as u8, 'E' as u8, 'E' as u8, 'D' as u8, 'E' as u8, 'D' as u8,
    ]) by {
        reveal_strlit("ENCRYPT-NEEDED");
        lemma_ascii_bytes("ENCRYPT-NEEDED");
    }
    assert("QUOTA/MAXSCRIPTS".spec_bytes() =~= seq![
        'Q' as u8, 'U' as u8, 'O' as u8, 'T' as u8, 'A' as u8, '/' as u8, 'M' as u8, 'A' as u8,
        'X' as u8, 'S' as u8, 'C' as u8, 'R' as u8, 'I' as u8, 'P' as u8, 'T' as u8, 'S' as u8,
    ]) by {
        reveal_strlit("QUOTA/MAXSCRIPTS");
        lemma_ascii_bytes("QUOTA/MAXSCRIPTS");
    }
    assert("QUOTA/MAXSIZE".spec_bytes() =~= seq![
        'Q' as u8, 'U' as u8, 'O' as u8, 'T' as u8, 'A' as u8, '/' as u8, 'M' as u8, 'A' as u8,
        'X' as u8, 'S' as u8, 'I' as u8, 'Z' as u8, 'E' as u8,
    ]) by {
        reveal_strlit("QUOTA/MAXSIZE");
        lemma_ascii_bytes("QUOTA/MAXSIZE");
    }
    assert("QUOTA".spec_bytes() =~= seq![
        'Q' as u8, 'U' as u8, 'O' as u8, 'T' as u8, 'A' as u8,
    ]) by {
        reveal_strlit("QUOTA");
        lemma_ascii_bytes("QUOTA");
    }
    assert("REFERRAL".spec_bytes() =~= seq![
        'R' as u8, 'E' as u8, 'F' as u8, 'E' as u8, 'R' as u8, 'R' as u8, 'A' as u8, 'L' as u8,
    ]) by {
        reveal_strlit("REFERRAL");
        lemma_ascii_bytes("REFERRAL");
    }
    assert("SASL".spec_bytes() =~= seq![
        'S' as u8, 'A' as u8, 'S' as u8, 'L' as u8,
    ]) by {
        reveal_strlit("SASL");
        lemma_ascii_bytes("SASL");
    }
    assert("TRANSITION-NEEDED".spec_bytes() =~= seq![
        'T' as u8, 'R' as u8, 'A' as u8, 'N' as u8, 'S' as u8, 'I' as u8, 'T' as u8, 'I' as u8,
        'O' as u8, 'N' as u8, '-' as u8, 'N' as u8, 'E' as u8, 'E' as u8, 'D' as u8, 'E' as u8,
        'D' as u8,
    ]) by {
        reveal_strlit("TRANSITION-NEEDED");
        lemma_ascii_bytes("TRANSITION-NEEDED");
    }
    assert("TRYLATER".spec_bytes() =~= seq![
        'T' as u8, 'R' as u8, 'Y' as u8, 'L' as u8, 'A' as u8, 'T' as u8, 'E' as u8, 'R' as u8,
    ]) by {
        reveal_strlit("TRYLATER");
        lemma_ascii_bytes("TRYLATER");
    }
    assert("ACTIVE".spec_bytes() =~= seq![
        'A' as u8, 'C' as u8, 'T' as u8, 'I' as u8, 'V' as u8, 'E' as u8,
    ]) by {
        reveal_strlit("ACTIVE");
        lemma_ascii_bytes("ACTIVE");
    }
    assert("NONEXISTENT".spec_bytes() =~= seq![
        'N' as u8, 'O' as u8, 'N' as u8, 'E' as u8, 'X' as u8, 'I' as u8, 'S' as u8, 'T' as u8,
        'E' as u8, 'N' as u8, 'T' as u8,
    ]) by {
        reveal_strlit("NONEXISTENT");
        lemma_ascii_bytes("NONEXISTENT");
    }
    assert("ALREADYEXISTS".spec_bytes() =~= seq![
        'A' as u8, 'L' as u8, 'R' as u8, 'E' as u8, 'A' as u8, 'D' as u8, 'Y' as u8, 'E' as u8,
        'X' as u8, 'I' as u8, 'S' as u8, 'T' as u8, 'S' as u8,
    ]) by {
        reveal_strlit("ALREADYEXISTS");
        lemma_ascii_bytes("ALREADYEXISTS");
    }
    assert("TAG".spec_bytes() =~= seq![
        'T' as u8, 'A' as u8, 'G' as u8,
    ]) by {
        reveal_strlit("TAG");
        lemma_ascii_bytes("TAG");
    }
    assert("WARNINGS".spec_bytes() =~= seq![
        'W' as u8, 'A' as u8, 'R' as u8, 'N' as u8, 'I' as u8, 'N' as u8, 'G' as u8, 'S' as u8,
    ]) by {
        reveal_strlit("WARNINGS");
        lemma_ascii_bytes("WARNINGS");
    }
}

proof fn lemma_reads_auth_too_weak(rest: Seq<u8>)
    ensures
        spec_atom("AUTH-TOO-WEAK".spec_bytes() + rest) == Outcome::Done(
            ResponseCodeView::AuthTooWeak,
            13,
        ),
{
    lemma_vocabulary_bytes();
    let s = "AUTH-TOO-WEAK".spec_bytes() + rest;
    lemma_begins("AUTH-TOO-WEAK".spec_bytes(), rest);
}

proof fn lemma_reads_encrypt_needed(rest: Seq<u8>)
    ensures
        spec_atom("ENCRYPT-NEEDED".spec_bytes() + rest) == Outcome::Done(
            ResponseCodeView::EncryptNeeded,
            14,
        ),
{
    lemma_vocabulary_bytes();
    let s = "ENCRYPT-NEEDED".spec_bytes() + rest;
    lemma_differs(s, "AUTH-TOO-WEAK".spec_bytes(), 0);
    lemma_begins("ENCRYPT-NEEDED".spec_bytes(), rest);
}

proof fn lemma_reads_quota_maxscripts(rest: Seq<u8>)
    ensures
        spec_atom("QUOTA/MAXSCRIPTS".spec_bytes() + rest) == Outcome::Done(
            ResponseCodeView::Quota(QuotaVariant::MaxScripts),
            16,
        ),
{
    lemma_vocabulary_bytes();
    let s = "QUOTA/MAXSCRIPTS".spec_bytes() + rest;
    lemma_differs(s, "AUTH-TOO-WEAK".spec_bytes(), 0);
    lemma_differs(s, "ENCRYPT-NEEDED".spec_bytes(), 0);
    lemma_begins("QUOTA/MAXSCRIPTS".spec_bytes(), rest);
}

proof fn lemma_reads_quota_maxsize(rest: Seq<u8>)
    ensures
        spec_atom("QUOTA/MAXSIZE".spec_bytes() + rest) == Outcome::Done(
            ResponseCodeView::Quota(QuotaVariant::MaxSize),
            13,
        ),
{
    lemma_vocabulary_bytes();
    let s = "QUOTA/MAXSIZE".spec_bytes() + rest;
    lemma_differs(s, "AUTH-TOO-WEAK".spec_bytes(), 0);
    lemma_differs(s, "ENCRYPT-NEEDED".spec_bytes(), 0);
    lemma_differs(s, "QUOTA/MAXSCRIPTS".spec_bytes(), 10);
    lemma_begins("QUOTA/MAXSIZE".spec_bytes(), rest);
}

proof fn lemma_reads_quota(rest: Seq<u8>)
    requires
        rest.len() > 0,
        rest[0] != '/' as u8,
    ensures
        spec_atom("QUOTA".spec_bytes() + rest) == Outcome::Done(
            ResponseCodeView::Quota(QuotaVariant::Unspecified),
            5,
        ),
{
    lemma_vocabulary_bytes();
    let s = "QUOTA".spec_bytes() + rest;
    lemma_differs(s, "AUTH-TOO-WEAK".spec_bytes(), 0);
    lemma_differs(s, "ENCRYPT-NEEDED".spec_bytes(), 0);
    assert(s[5] == rest[0]);
    lemma_differs(s, "QUOTA/MAXSCRIPTS".spec_bytes(), 5);
    assert(s[5] == rest[0]);
    lemma_differs(s, "QUOTA/MAXSIZE".spec_bytes(), 5);
    lemma_begins("QUOTA".spec_bytes(), rest);
}

proof fn lemma_reads_referral(rest: Seq<u8>)
    ensures
        spec_atom("REFERRAL".spec_bytes() + rest) == Outcome::Done(
            ResponseCodeView::Referral(Seq::empty()),
            8,
        ),
{
    lemma_vocabulary_bytes();
    let s = "REFERRAL".spec_bytes() + rest;
    lemma_differs(s, "AUTH-TOO-WEAK".spec_bytes(), 0);
    lemma_differs(s, "ENCRYPT-NEEDED".spec_bytes(), 0);
    lemma_differs(s, "QUOTA/MAXSCRIPTS".spec_bytes(), 0);
    lemma_differs(s, "QUOTA/MAXSIZE".spec_bytes(), 0);
    lemma_differs(s, "QUOTA".spec_bytes(), 0);
    lemma_begins("REFERRAL".spec_bytes(), rest);
}

proof fn lemma_reads_sasl(rest: Seq<u8>)
    ensures
        spec_atom("SASL".spec_bytes() + rest) == Outcome::Done(ResponseCodeView::Sasl, 4),
{
    lemma_vocabulary_bytes();
    let s = "SASL".spec_bytes() + rest;
    lemma_differs(s, "AUTH-TOO-WEAK".spec_bytes(), 0);
    lemma_differs(s, "ENCRYPT-NEEDED".spec_bytes(), 0);
    lemma_differs(s, "QUOTA/MAXSCRIPTS".spec_bytes(), 0);
    lemma_differs(s, "QUOTA/MAXSIZE".spec_bytes(), 0);
    lemma_differs(s, "QUOTA".spec_bytes(), 0);
    lemma_differs(s, "REFERRAL".spec_bytes(), 0);
    lemma_begins("SASL".spec_bytes(), rest);
}

proof fn lemma_reads_transition_needed(rest: Seq<u8>)
    ensures
        spec_atom("TRANSITION-NEEDED".spec_bytes() + rest) == Outcome::Done(
            ResponseCodeView::TransitionNeeded,
            17,
        ),
{
    lemma_vocabulary_bytes();
    let s = "TRANSITION-NEEDED".spec_bytes() + rest;
    lemma_differs(s, "AUTH-TOO-WEAK".spec_bytes(), 0);
    lemma_differs(s, "ENCRYPT-NEEDED".spec_bytes(), 0);
    lemma_differs(s, "QUOTA/MAXSCRIPTS".spec_bytes(), 0);
    lemma_differs(s, "QUOTA/MAXSIZE".spec_bytes(), 0);
    lemma_differs(s, "QUOTA".spec_bytes(), 0);
    lemma_differs(s, "REFERRAL".spec_bytes(), 0);
    lemma_differs(s, "SASL".spec_bytes(), 0);
    lemma_begins("TRANSITION-NEEDED".spec_bytes(), rest);
}

proof fn lemma_reads_trylater(rest: Seq<u8>)
    ensures
        spec_atom("TRYLATER".spec_bytes() + rest) == Outcome::Done(ResponseCodeView::TryLater, 8),
{
    lemma_vocabulary_bytes();
    let s = "TRYLATER".spec_bytes() + rest;
    lemma_differs(s, "AUTH-TOO-WEAK".spec_bytes(), 0);
    lemma_differs(s, "ENCRYPT-NEEDED".spec_bytes(), 0);
    lemma_differs(s, "QUOTA/MAXSCRIPTS".spec_bytes(), 0);
    lemma_differs(s, "QUOTA/MAXSIZE".spec_bytes(), 0);
    lemma_differs(s, "QUOTA".spec_bytes(), 0);
    lemma_differs(s, "REFERRAL".spec_bytes(), 0);
    lemma_differs(s, "SASL".spec_bytes(), 0);
    lemma_differs(s, "TRANSITION-NEEDED".spec_bytes(), 2);
    lemma_begins("TRYLATER".spec_bytes(), rest);
}

proof fn lemma_reads_active(rest: Seq<u8>)
    ensures
        spec_atom("ACTIVE".spec_bytes() + rest) == Outcome::Done(ResponseCodeView::Active, 6),
{
    lemma_vocabulary_bytes();
    let s = "ACTIVE".spec_bytes() + rest;
    lemma_differs(s, "AUTH-TOO-WEAK".spec_bytes(), 1);
    lemma_differs(s, "ENCRYPT-NEEDED".spec_bytes(), 0);
    lemma_differs(s, "QUOTA/MAXSCRIPTS".spec_bytes(), 0);
    lemma_differs(s, "QUOTA/MAXSIZE".spec_bytes(), 0);
    lemma_differs(s, "QUOTA".spec_bytes(), 0);
    lemma_differs(s, "REFERRAL".spec_bytes(), 0);
    lemma_differs(s, "SASL".spec_bytes(), 0);
    lemma_differs(s, "TRANSITION-NEEDED".spec_bytes(), 0);
    lemma_differs(s, "TRYLATER".spec_bytes(), 0);
    lemma_begins("ACTIVE".spec_bytes(), rest);
}

proof fn lemma_reads_nonexistent(rest: Seq<u8>)
    ensures
        spec_atom("NONEXISTENT".spec_bytes() + rest) == Outcome::Done(
            ResponseCodeView::Nonexistent,
            11,
        ),
{
    lemma_vocabulary_bytes();
    let s = "NONEXISTENT".spec_bytes() + rest;
    lemma_differs(s, "AUTH-TOO-WEAK".spec_bytes(), 0);
    lemma_differs(s, "ENCRYPT-NEEDED".spec_bytes(), 0);
    lemma_differs(s, "QUOTA/MAXSCRIPTS".spec_bytes(), 0);
    lemma_differs(s, "QUOTA/MAXSIZE".spec_bytes(), 0);
    lemma_differs(s, "QUOTA".spec_bytes(), 0);
    lemma_differs(s, "REFERRAL".spec_bytes(), 0);
    lemma_differs(s, "SASL".spec_bytes(), 0);
    lemma_differs(s, "TRANSITION-NEEDED".spec_bytes(), 0);
    lemma_differs(s, "TRYLATER".spec_bytes(), 0);
    lemma_differs(s, "ACTIVE".spec_bytes(), 0);
    lemma_begins("NONEXISTENT".spec_bytes(), rest);
}

proof fn lemma_reads_alreadyexists(rest: Seq<u8>)
    ensures
        spec_atom("ALREADYEXISTS".spec_bytes() + rest) == Outcome::Done(
            ResponseCodeView::AlreadyExists,
            13,
        ),
{
    lemma_vocabulary_bytes();
    let s = "ALREADYEXISTS".spec_bytes() + rest;
    lemma_differs(s, "AUTH-TOO-WEAK".spec_bytes(), 1);
    lemma_differs(s, "ENCRYPT-NEEDED".spec_bytes(), 0);
    lemma_differs(s, "QUOTA/MAXSCRIPTS".spec_bytes(), 0);
    lemma_differs(s, "QUOTA/MAXSIZE".spec_bytes(), 0);
    lemma_differs(s, "QUOTA".spec_bytes(), 0);
    lemma_differs(s, "REFERRAL".spec_bytes(), 0);
    lemma_differs(s, "SASL".spec_bytes(), 0);
    lemma_differs(s, "TRANSITION-NEEDED".spec_bytes(), 0);
    lemma_differs(s, "TRYLATER".spec_bytes(), 0);
    lemma_differs(s, "ACTIVE".spec_bytes(), 1);
    lemma_differs(s, "NONEXISTENT".spec_bytes(), 0);
    lemma_begins("ALREADYEXISTS".spec_bytes(), rest);
}

proof fn lemma_reads_tag(rest: Seq<u8>)
    ensures
        spec_atom("TAG".spec_bytes() + rest) == Outcome::Done(ResponseCodeView::Tag, 3),
{
    lemma_vocabulary_bytes();
    let s = "TAG".spec_bytes() + rest;
    lemma_differs(s, "AUTH-TOO-WEAK".spec_bytes(), 0);
    lemma_differs(s, "ENCRYPT-NEEDED".spec_bytes(), 0);
    lemma_differs(s, "QUOTA/MAXSCRIPTS".spec_bytes(), 0);
    lemma_differs(s, "QUOTA/MAXSIZE".spec_bytes(), 0);
    lemma_differs(s, "QUOTA".spec_bytes(), 0);
    lemma_differs(s, "REFERRAL".spec_bytes(), 0);
    lemma_differs(s, "SASL".spec_bytes(), 0);
    lemma_differs(s, "TRANSITION-NEEDED".spec_bytes(), 1);
    lemma_differs(s, "TRYLATER".spec_bytes(), 1);
    lemma_differs(s, "ACTIVE".spec_bytes(), 0);
    lemma_differs(s, "NONEXISTENT".spec_bytes(), 0);
    lemma_differs(s, "ALREADYEXISTS".spec_bytes(), 0);
    lemma_begins("TAG".spec_bytes(), rest);
}

proof fn lemma_reads_warnings(rest: Seq<u8>)
    ensures
        spec_atom("WARNINGS".spec_bytes() + rest) == Outcome::Done(ResponseCodeView::Warnings, 8),
{
    lemma_vocabulary_bytes();
    let s = "WARNINGS".spec_bytes() + rest;
    lemma_differs(s, "AUTH-TOO-WEAK".spec_bytes(), 0);
    lemma_differs(s, "ENCRYPT-NEEDED".spec_bytes(), 0);
    lemma_differs(s, "QUOTA/MAXSCRIPTS".spec_bytes(), 0);
    lemma_differs(s, "QUOTA/MAXSIZE".spec_bytes(), 0);
    lemma_differs(s, "QUOTA".spec_bytes(), 0);
    lemma_differs(s, "REFERRAL".spec_bytes(), 0);
    lemma_differs(s, "SASL".spec_bytes(), 0);
    lemma_differs(s, "TRANSITION-NEEDED".spec_bytes(), 0);
    lemma_differs(s, "TRYLATER".spec_bytes(), 0);
    lemma_differs(s, "ACTIVE".spec_bytes(), 0);
    lemma_differs(s, "NONEXISTENT".spec_bytes(), 0);
    lemma_differs(s, "ALREADYEXISTS".spec_bytes(), 0);
    lemma_differs(s, "TAG".spec_bytes(), 0);
    lemma_begins("WARNINGS".spec_bytes(), rest);
}

/// Every word of the vocabulary, followed by any bytes, is read as the
/// response code that it names, and nothing of what follows is consumed. For
/// `QUOTA` this holds where a byte follows that is not `/`, since the two
/// longer words that begin with `QUOTA/` are tried first.
pub proof fn law_vocabulary_is_read(rest: Seq<u8>)
    ensures
        spec_atom("AUTH-TOO-WEAK".spec_bytes() + rest) == Outcome::Done(
            ResponseCodeView::AuthTooWeak,
            13,
        ),
        spec_atom("ENCRYPT-NEEDED".spec_bytes() + rest) == Outcome::Done(
            ResponseCodeView::EncryptNeeded,
            14,
        ),
        spec_atom("QUOTA/MAXSCRIPTS".spec_bytes() + rest) == Outcome::Done(
            ResponseCodeView::Quota(QuotaVariant::MaxScripts),
            16,
        ),
        spec_atom("QUOTA/MAXSIZE".spec_bytes() + rest) == Outcome::Done(
            ResponseCodeView::Quota(QuotaVariant::MaxSize),
            13,
        ),
        rest.len() > 0 && rest[0] != '/' as u8 ==> spec_atom("QUOTA".spec_bytes() + rest)
            == Outcome::Done(ResponseCodeView::Quota(QuotaVariant::Unspecified), 5),
        spec_atom("REFERRAL".spec_bytes() + rest) == Outcome::Done(
            ResponseCodeView::Referral(Seq::empty()),
            8,
        ),
        spec_atom("SASL".spec_bytes() + rest) == Outcome::Done(ResponseCodeView::Sasl, 4),
        spec_atom("TRANSITION-NEEDED".spec_bytes() + rest) == Outcome::Done(
            ResponseCodeView::TransitionNeeded,
            17,
        ),
        spec_atom("TRYLATER".spec_bytes() + rest) == Outcome::Done(ResponseCodeView::TryLater, 8),
        spec_atom("ACTIVE".spec_bytes() + rest) == Outcome::Done(ResponseCodeView::Active, 6),
        spec_atom("NONEXISTENT".spec_bytes() + rest) == Outcome::Done(
            ResponseCodeView::Nonexistent,
            11,
        ),
        spec_atom("ALREADYEXISTS".spec_bytes() + rest) == Outcome::Done(
            ResponseCodeView::AlreadyExists,
            13,
        ),
        spec_atom("TAG".spec_bytes() + rest) == Outcome::Done(ResponseCodeView::Tag, 3),
        spec_atom("WARNINGS".spec_bytes() + rest) == Outcome::Done(ResponseCodeView::Warnings, 8),
{
    lemma_reads_auth_too_weak(rest);
    lemma_reads_encrypt_needed(rest);
    lemma_reads_quota_maxscripts(rest);
    lemma_reads_quota_maxsize(rest);
    if rest.len() > 0 && rest[0] != '/' as u8 {
        lemma_reads_quota(rest);
    }
    lemma_reads_referral(rest);
    lemma_reads_sasl(rest);
    lemma_reads_transition_needed(rest);
    lemma_reads_trylater(rest);
    lemma_reads_active(rest);
    lemma_reads_nonexistent(rest);
    lemma_reads_alreadyexists(rest);
    lemma_reads_tag(rest);
    lemma_reads_warnings(rest);
}

/// Two byte strings are the same word but for the case of ASCII letters.
pub open spec fn same_word(a: Seq<u8>, b: Seq<u8>) -> bool {
    a.len() == b.len() && forall|i: int| 0 <= i < a.len() ==> lower(#[trigger] a[i]) == lower(b[i])
}

/// A word matches, without regard to case, bytes that begin with the same
/// word in another case.
proof fn lemma_begins_in_any_case(written: Seq<u8>, word: Seq<u8>, rest: Seq<u8>)
    requires
        same_word(written, word),
    ensures
        spec_keyword_no_case(written + rest, word) == Outcome::Done((), word.len() as int),
{
    assert forall|i: int| 0 <= i < (written + rest).len() && i < word.len() implies lower(
        (written + rest)[i],
    ) == lower(word[i]) by {
        assert((written + rest)[i] == written[i]);
    }
}

/// The status words, byte for byte.
pub proof fn lemma_status_bytes()
    ensures
        "OK".spec_bytes() == seq!['O' as u8, 'K' as u8],
        "NO".spec_bytes() == seq!['N' as u8, 'O' as u8],
        "BYE".spec_bytes() == seq!['B' as u8, 'Y' as u8, 'E' as u8],
{
    assert("OK".spec_bytes() =~= seq!['O' as u8, 'K' as u8]) by {
        reveal_strlit("OK");
        lemma_ascii_bytes("OK");
    }
    assert("NO".spec_bytes() =~= seq!['N' as u8, 'O' as u8]) by {
        reveal_strlit("NO");
        lemma_ascii_bytes("NO");
    }
    assert("BYE".spec_bytes() =~= seq!['B' as u8, 'Y' as u8, 'E' as u8]) by {
        reveal_strlit("BYE");
        lemma_ascii_bytes("BYE");
    }
}

/// A status word written in any mix of upper and lower case, followed by
/// any bytes, is read as that status word, and nothing of what follows is
/// consumed.
pub proof fn law_status_words_ignore_case(written: Seq<u8>, rest: Seq<u8>)
    ensures
        same_word(written, "OK".spec_bytes()) ==> spec_ok(written + rest) == Outcome::Done(
            OkNoBye::Okay,
            2,
        ),
        same_word(written, "NO".spec_bytes()) ==> spec_nobye(written + rest) == Outcome::Done(
            OkNoBye::No,
            2,
        ),
        same_word(written, "BYE".spec_bytes()) ==> spec_nobye(written + rest) == Outcome::Done(
            OkNoBye::Bye,
            3,
        ),
{
    lemma_status_bytes();
    let s = written + rest;
    if same_word(written, "OK".spec_bytes()) {
        lemma_begins_in_any_case(written, "OK".spec_bytes(), rest);
    }
    if same_word(written, "NO".spec_bytes()) {
        lemma_begins_in_any_case(written, "NO".spec_bytes(), rest);
    }
    if same_word(written, "BYE".spec_bytes()) {
        lemma_begins_in_any_case(written, "BYE".spec_bytes(), rest);
        assert(s[0] == written[0]);
        assert(lower(written[0]) == lower("BYE".spec_bytes()[0]));
        assert(lower(s[0]) != lower("NO".spec_bytes()[0]));
        assert(spec_keyword_no_case(s, "NO".spec_bytes()) is Error);
    }
}

} // verus!
