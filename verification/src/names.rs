//! Script names as characters and as bytes.
//!
//! A command validates the characters of a name; a decoder validates the
//! bytes of one. The two agree on every name, because the byte patterns that
//! the decoder looks for are the UTF-8 forms of the characters that the
//! command refuses, and no UTF-8 form holds such a pattern astride two
//! characters.
use vstd::prelude::*;
use vstd::utf8::{
    encode_scalar, encode_utf8, has_width_1_encoding, has_width_2_encoding,
    has_width_3_encoding, is_scalar,
};

verus! {

/// A character that no script name may hold: a control character
/// (U+0000 to U+001F, U+007F to U+009F) or a line or paragraph separator
/// (U+2028, U+2029).
pub open spec fn bad_name_char(c: char) -> bool {
    let v = c as u32;
    v <= 0x1f || 0x7f <= v <= 0x9f || v == 0x2028 || v == 0x2029
}

/// The UTF-8 form of a character that no script name may hold begins at
/// index `i` of `name`.
pub open spec fn bad_name_at(name: Seq<u8>, i: int) -> bool {
    ||| name[i] <= 0x1f
    ||| name[i] == 0x7f
    ||| (name[i] == 0xc2 && i + 1 < name.len() && 0x80 <= name[i + 1] <= 0x9f)
    ||| (name[i] == 0xe2 && i + 2 < name.len() && name[i + 1] == 0x80 && (name[i + 2] == 0xa8
        || name[i + 2] == 0xa9))
}

/// The bytes of a name hold the UTF-8 form of a character that no script
/// name may hold.
pub open spec fn bad_name(name: Seq<u8>) -> bool {
    exists|i: int| 0 <= i < name.len() && bad_name_at(name, i)
}

/// No character of the name is one that a script name may not hold.
pub open spec fn valid_name(name: Seq<char>) -> bool {
    forall|i: int| 0 <= i < name.len() ==> !bad_name_char(#[trigger] name[i])
}

proof fn lemma_width_1_bytes(v: u32)
    by (bit_vector)
    requires
        v <= 0x7f,
    ensures
        (v & 0x7f) as u8 == v,
        (v & 0x7f) as u8 <= 0x7fu8,
{
}

proof fn lemma_width_2_bytes(v: u32)
    by (bit_vector)
    requires
        0x80 <= v <= 0x7ff,
    ensures
        0xc0u8 <= (0xc0u8 | ((v >> 6) & 0x1f) as u8) <= 0xdfu8,
        0x80u8 <= (0x80u8 | (v & 0x3f) as u8) <= 0xbfu8,
        ((0xc0u8 | ((v >> 6) & 0x1f) as u8) == 0xc2u8 && (0x80u8 | (v & 0x3f) as u8) <= 0x9fu8)
            <==> (0x80 <= v <= 0x9f),
{
}

proof fn lemma_width_3_bytes(v: u32)
    by (bit_vector)
    requires
        0x800 <= v <= 0xffff,
    ensures
        0xe0u8 <= (0xe0u8 | ((v >> 12) & 0x0f) as u8) <= 0xefu8,
        0x80u8 <= (0x80u8 | ((v >> 6) & 0x3f) as u8) <= 0xbfu8,
        0x80u8 <= (0x80u8 | (v & 0x3f) as u8) <= 0xbfu8,
        ((0xe0u8 | ((v >> 12) & 0x0f) as u8) == 0xe2u8 && (0x80u8 | ((v >> 6) & 0x3f) as u8)
            == 0x80u8 && ((0x80u8 | (v & 0x3f) as u8) == 0xa8u8 || (0x80u8 | (v & 0x3f) as u8)
            == 0xa9u8)) <==> (v == 0x2028 || v == 0x2029),
{
}

proof fn lemma_width_4_bytes(v: u32)
    by (bit_vector)
    requires
        0x10000 <= v <= 0x10ffff,
    ensures
        0xf0u8 <= (0xf0u8 | ((v >> 18) & 0x7) as u8),
        0x80u8 <= (0x80u8 | ((v >> 12) & 0x3f) as u8) <= 0xbfu8,
        0x80u8 <= (0x80u8 | ((v >> 6) & 0x3f) as u8) <= 0xbfu8,
        0x80u8 <= (0x80u8 | (v & 0x3f) as u8) <= 0xbfu8,
{
}

/// In the UTF-8 form of one character, followed by anything, a forbidden
/// pattern begins at the first byte exactly if the character is a forbidden
/// one, and none begins at a later byte of the form.
proof fn lemma_one_character(c: char, tail: Seq<u8>)
    ensures
        1 <= encode_scalar(c as u32).len() <= 4,
        bad_name_at(encode_scalar(c as u32) + tail, 0) == bad_name_char(c),
        forall|i: int|
            1 <= i < encode_scalar(c as u32).len() ==> !#[trigger] bad_name_at(
                encode_scalar(c as u32) + tail,
                i,
            ),
{
    let v = c as u32;
    let e = encode_scalar(v);
    let s = e + tail;
    assert(is_scalar(v));
    if has_width_1_encoding(v) {
        lemma_width_1_bytes(v);
        assert(s[0] == e[0]);
    } else if has_width_2_encoding(v) {
        lemma_width_2_bytes(v);
        assert(s[0] == e[0] && s[1] == e[1]);
    } else if has_width_3_encoding(v) {
        lemma_width_3_bytes(v);
        assert(s[0] == e[0] && s[1] == e[1] && s[2] == e[2]);
    } else {
        lemma_width_4_bytes(v);
        assert(s[0] == e[0] && s[1] == e[1] && s[2] == e[2] && s[3] == e[3]);
    }
}

/// A forbidden pattern begins at a byte of `tail` exactly if it does so when
/// `head` stands before `tail`.
proof fn lemma_pattern_shift(head: Seq<u8>, tail: Seq<u8>, i: int)
    requires
        0 <= i < tail.len(),
    ensures
        bad_name_at(head + tail, head.len() + i) == bad_name_at(tail, i),
{
    let s = head + tail;
    assert(s[head.len() + i] == tail[i]);
    if i + 1 < tail.len() {
        assert(s[head.len() + i + 1] == tail[i + 1]);
    }
    if i + 2 < tail.len() {
        assert(s[head.len() + i + 2] == tail[i + 2]);
    }
}

/// The bytes of a text hold a forbidden pattern exactly if the text holds a
/// character that no script name may hold: the check that a decoder makes
/// on bytes and the check that a command makes on characters accept the same
/// names.
pub proof fn law_names_agree(name: Seq<char>)
    ensures
        bad_name(encode_utf8(name)) <==> !valid_name(name),
    decreases name.len(),
{
    if name.len() > 0 {
        let c = name[0];
        let rest = name.drop_first();
        let e = encode_scalar(c as u32);
        let r = encode_utf8(rest);
        let s = e + r;
        assert(encode_utf8(name) == s);
        law_names_agree(rest);
        lemma_one_character(c, r);
        if bad_name(s) {
            let i = choose|i: int| 0 <= i < s.len() && bad_name_at(s, i);
            if i == 0 {
                assert(bad_name_char(name[0]));
            } else {
                lemma_pattern_shift(e, r, i - e.len());
                assert(bad_name_at(r, i - e.len()));
                assert(!valid_name(rest));
                let j = choose|j: int| 0 <= j < rest.len() && bad_name_char(rest[j]);
                assert(bad_name_char(name[j + 1]));
            }
        }
        if !valid_name(name) {
            let j = choose|j: int| 0 <= j < name.len() && bad_name_char(name[j]);
            if j == 0 {
                assert(bad_name_at(s, 0));
            } else {
                assert(bad_name_char(rest[j - 1]));
                assert(!valid_name(rest));
                let i = choose|i: int| 0 <= i < r.len() && bad_name_at(r, i);
                lemma_pattern_shift(e, r, i);
                assert(bad_name_at(s, e.len() + i));
            }
        }
    }
}

/// The text holds neither a double quote nor a backslash, the two
/// characters that a quoted string would have to escape.
pub open spec fn plain_text(text: Seq<char>) -> bool {
    forall|i: int| 0 <= i < text.len() ==> (#[trigger] text[i]) != '"' && text[i] != '\\'
}

/// The bytes hold neither a double quote nor a backslash.
pub open spec fn plain_bytes(bytes: Seq<u8>) -> bool {
    forall|i: int| 0 <= i < bytes.len() ==> (#[trigger] bytes[i]) != 0x22 && bytes[i] != 0x5c
}

/// The UTF-8 form of a character other than the double quote and the
/// backslash holds neither of the two as a byte.
proof fn lemma_one_plain_character(c: char)
    requires
        c != '"',
        c != '\\',
    ensures
        plain_bytes(encode_scalar(c as u32)),
{
    let v = c as u32;
    assert(is_scalar(v));
    if has_width_1_encoding(v) {
        lemma_width_1_bytes(v);
    } else if has_width_2_encoding(v) {
        lemma_width_2_bytes(v);
    } else if has_width_3_encoding(v) {
        lemma_width_3_bytes(v);
    } else {
        lemma_width_4_bytes(v);
    }
}

/// The bytes of a text without double quote and backslash hold neither.
pub proof fn lemma_plain_text_bytes(text: Seq<char>)
    requires
        plain_text(text),
    ensures
        plain_bytes(encode_utf8(text)),
    decreases text.len(),
{
    if text.len() > 0 {
        let e = encode_scalar(text[0] as u32);
        let r = encode_utf8(text.drop_first());
        assert forall|i: int| 0 <= i < text.drop_first().len() implies (
        #[trigger] text.drop_first()[i]) != '"' && text.drop_first()[i] != '\\' by {
            assert(text.drop_first()[i] == text[i + 1]);
        }
        lemma_plain_text_bytes(text.drop_first());
        lemma_one_plain_character(text[0]);
        assert forall|i: int| 0 <= i < (e + r).len() implies (#[trigger] (e + r)[i]) != 0x22 && (e
            + r)[i] != 0x5c by {
            if i < e.len() {
                assert((e + r)[i] == e[i]);
            } else {
                assert((e + r)[i] == r[i - e.len()]);
            }
        }
    }
}

} // verus!
