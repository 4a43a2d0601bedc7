//! Laws of the two ways in which a string is framed.
use vstd::prelude::*;
use vstd::utf8::{encode_utf8, is_ascii_chars, is_ascii_chars_encode_utf8};
use crate::names::{
    law_names_agree, lemma_plain_text_bytes, plain_bytes, plain_text, valid_name,
};
use crate::command::{decimal_text, digit_char, literal_text, quoted_text, Command};
use crate::grammar::{
    all_digits, digit_class, digits_value, lemma_run_end_unique, spec_keyword, spec_literal,
    spec_literal_close, spec_literal_len, spec_number, spec_quoted_body, spec_quoted_string,
    spec_sieve_name, spec_sievestring, BACKSLASH, CLOSE_BRACE, OPEN_BRACE, PLUS, QUOTE,
};
use crate::outcome::Outcome;

verus! {

/// The header of a literal that announces the number that `digits` denote:
/// with the `+` of a synchronizing literal where `plus` is set.
pub open spec fn literal_header(digits: Seq<u8>, plus: bool) -> Seq<u8> {
    if plus {
        seq![OPEN_BRACE] + digits + seq![PLUS, CLOSE_BRACE, 0x0du8, 0x0au8]
    } else {
        seq![OPEN_BRACE] + digits + seq![CLOSE_BRACE, 0x0du8, 0x0au8]
    }
}

/// A literal header that announces as many bytes as `body` has, followed by
/// `body` and by anything, decodes to `body` exactly: whatever bytes `body`
/// is made of, CR, LF and NUL included, none of them is read as grammar, and
/// what follows `body` is left untouched. The `+` of a synchronizing
/// literal is accepted only from client to server.
pub proof fn law_literal_takes_announced_bytes(
    digits: Seq<u8>,
    plus: bool,
    body: Seq<u8>,
    rest: Seq<u8>,
    c2s: bool,
)
    requires
        digits.len() > 0,
        all_digits(digits),
        digits_value(digits) == body.len(),
        body.len() <= usize::MAX,
        plus ==> c2s,
    ensures
        spec_literal(literal_header(digits, plus) + body + rest, c2s) == Outcome::Done(
            body,
            (literal_header(digits, plus).len() + body.len()) as int,
        ),
        spec_sievestring(literal_header(digits, plus) + body + rest, c2s) == Outcome::Done(
            body,
            (literal_header(digits, plus).len() + body.len()) as int,
        ),
{
    let header = literal_header(digits, plus);
    let s = header + body + rest;
    let n = digits.len() as int;
    assert(s[0] == OPEN_BRACE);
    assert(spec_keyword(s, seq![OPEN_BRACE]) == Outcome::Done((), 1));
    let s1 = s.skip(1);
    assert forall|j: int| 0 <= j < n implies digit_class()(#[trigger] s1[j]) by {
        assert(s1[j] == digits[j]);
    }
    assert(s1[n] == if plus {
        PLUS
    } else {
        CLOSE_BRACE
    });
    lemma_run_end_unique(s1, digit_class(), 0, n);
    assert(s1.take(n) =~= digits);
    assert(spec_number(s1) == Outcome::Done(body.len() as usize, n));
    let s2 = s1.skip(n);
    if plus {
        assert(s2[0] == PLUS && s2[1] == CLOSE_BRACE);
        assert(spec_keyword(s2, seq![PLUS, CLOSE_BRACE]) == Outcome::Done((), 2));
    } else {
        assert(s2[0] == CLOSE_BRACE);
        assert(s2[0] != seq![PLUS, CLOSE_BRACE][0]);
        assert(spec_keyword(s2, seq![PLUS, CLOSE_BRACE]) is Error);
        assert(spec_keyword(s2, seq![CLOSE_BRACE]) == Outcome::Done((), 1));
    }
    let c: int = if plus {
        2
    } else {
        1
    };
    assert(spec_literal_close(s2, c2s) == Outcome::Done((), c));
    let s3 = s2.skip(c);
    assert(s3[0] == 0x0d && s3[1] == 0x0a);
    assert(spec_keyword(s3, seq![0x0du8, 0x0au8]) == Outcome::Done((), 2));
    assert(spec_literal_len(s, c2s) == Outcome::Done(body.len() as usize, header.len() as int));
    assert(s.subrange(header.len() as int, (header.len() + body.len()) as int) =~= body);
}

/// A content as it stands between the quotes of a quoted string: a
/// backslash before each double quote and each backslash, every other byte
/// as it is.
pub open spec fn escaped(content: Seq<u8>) -> Seq<u8>
    decreases content.len(),
{
    if content.len() == 0 {
        Seq::empty()
    } else if content[0] == QUOTE || content[0] == BACKSLASH {
        seq![BACKSLASH, content[0]] + escaped(content.drop_first())
    } else {
        seq![content[0]] + escaped(content.drop_first())
    }
}

/// Where the escaped form of `content` and a double quote stand at index `i`
/// of `s`, the body of the quoted string at `i` is `content`, and it ends at
/// that double quote.
proof fn lemma_body_of_escaped(s: Seq<u8>, i: int, content: Seq<u8>)
    requires
        0 <= i,
        i + escaped(content).len() < s.len(),
        s.subrange(i, i + escaped(content).len() as int) == escaped(content),
        s[i + escaped(content).len() as int] == QUOTE,
    ensures
        spec_quoted_body(s, i) == Some((content, i + escaped(content).len() as int)),
    decreases content.len(),
{
    let e = escaped(content);
    if content.len() == 0 {
        assert(content =~= Seq::empty());
    } else {
        let more = content.drop_first();
        let special = content[0] == QUOTE || content[0] == BACKSLASH;
        let w: int = if special {
            2
        } else {
            1
        };
        assert(e.len() == w + escaped(more).len());
        assert(s[i] == e[0]);
        if special {
            assert(s[i + 1] == e[1]);
        }
        assert(s.subrange(i + w, i + w + escaped(more).len() as int) =~= escaped(more)) by {
            assert forall|j: int| 0 <= j < escaped(more).len() implies s[i + w + j] == escaped(
                more,
            )[j] by {
                assert(s[i + w + j] == e[w + j]);
            }
        }
        lemma_body_of_escaped(s, i + w, more);
        assert(seq![content[0]] + more =~= content);
    }
}

/// A quoted string made of any content, escaped, decodes to that content,
/// whatever bytes the content holds and whatever follows the closing quote.
pub proof fn law_quoted_string_returns_content(content: Seq<u8>, rest: Seq<u8>)
    ensures
        spec_quoted_string(seq![QUOTE] + escaped(content) + seq![QUOTE] + rest) == Outcome::Done(
            content,
            (escaped(content).len() + 2) as int,
        ),
        spec_sievestring(seq![QUOTE] + escaped(content) + seq![QUOTE] + rest, false)
            == Outcome::Done(content, (escaped(content).len() + 2) as int),
        spec_sievestring(seq![QUOTE] + escaped(content) + seq![QUOTE] + rest, true)
            == Outcome::Done(content, (escaped(content).len() + 2) as int),
{
    let s = seq![QUOTE] + escaped(content) + seq![QUOTE] + rest;
    assert(s[0] == QUOTE);
    assert(s.subrange(1, 1 + escaped(content).len() as int) =~= escaped(content));
    assert(s[1 + escaped(content).len() as int] == QUOTE);
    lemma_body_of_escaped(s, 1, content);
    assert(spec_keyword(s, seq![QUOTE]) == Outcome::Done((), 1));
    assert(s[0] != seq![OPEN_BRACE][0]);
    assert(spec_keyword(s, seq![OPEN_BRACE]) is Error);
}

/// The bytes of a text made of two parts are the bytes of the first part
/// followed by those of the second.
pub proof fn lemma_bytes_of_joined(a: Seq<char>, b: Seq<char>)
    ensures
        encode_utf8(a + b) == encode_utf8(a) + encode_utf8(b),
    decreases a.len(),
{
    if a.len() == 0 {
        assert(a + b =~= b);
        assert(encode_utf8(a) + encode_utf8(b) =~= encode_utf8(b));
    } else {
        assert((a + b).drop_first() =~= a.drop_first() + b);
        lemma_bytes_of_joined(a.drop_first(), b);
        assert((a + b)[0] == a[0]);
        assert(encode_utf8(a + b) =~= encode_utf8(a) + encode_utf8(b));
    }
}

/// The bytes of a number written in decimal are digits, and they denote the
/// number.
pub proof fn lemma_decimal_denotes(n: nat)
    ensures
        encode_utf8(decimal_text(n)).len() > 0,
        all_digits(encode_utf8(decimal_text(n))),
        digits_value(encode_utf8(decimal_text(n))) == n,
    decreases n,
{
    let text = decimal_text(n);
    let last = digit_char(n % 10);
    assert(is_ascii_chars(seq![last]));
    is_ascii_chars_encode_utf8(seq![last]);
    assert(encode_utf8(seq![last]) =~= seq![(0x30 + n % 10) as u8]);
    if n < 10 {
        assert(text == seq![last]);
        let d = encode_utf8(text);
        assert(d.drop_last() =~= Seq::<u8>::empty());
        assert(digits_value(d.drop_last()) == 0);
    } else {
        let front = decimal_text(n / 10);
        lemma_decimal_denotes(n / 10);
        assert(text =~= front + seq![last]);
        lemma_bytes_of_joined(front, seq![last]);
        let d = encode_utf8(text);
        assert(d.drop_last() =~= encode_utf8(front));
        assert(d.last() == (0x30 + n % 10) as u8);
    }
}

/// The script that PUTSCRIPT frames as a synchronizing literal is what a
/// decoder of client-to-server literals reads out of it, byte for byte,
/// whatever the script holds and whatever follows it.
pub proof fn law_sent_literal_returns_text(body: Seq<char>, rest: Seq<u8>)
    requires
        encode_utf8(body).len() <= usize::MAX,
    ensures
        spec_literal(encode_utf8(literal_text(body)) + rest, true) == Outcome::Done(
            encode_utf8(body),
            encode_utf8(literal_text(body)).len() as int,
        ),
{
    let n = encode_utf8(body).len();
    let digits = encode_utf8(decimal_text(n));
    lemma_decimal_denotes(n);
    let open = seq!['{'];
    let close = seq!['+', '}', '\r', '\n'];
    assert(is_ascii_chars(open));
    is_ascii_chars_encode_utf8(open);
    assert(encode_utf8(open) =~= seq![OPEN_BRACE]);
    assert(is_ascii_chars(close));
    is_ascii_chars_encode_utf8(close);
    assert(encode_utf8(close) =~= seq![PLUS, CLOSE_BRACE, 0x0du8, 0x0au8]);
    lemma_bytes_of_joined(open, decimal_text(n));
    lemma_bytes_of_joined(open + decimal_text(n), close);
    lemma_bytes_of_joined(open + decimal_text(n) + close, body);
    assert(encode_utf8(literal_text(body)) == literal_header(digits, true) + encode_utf8(body));
    law_literal_takes_announced_bytes(digits, true, encode_utf8(body), rest, true);
}

/// Bytes that hold neither a double quote nor a backslash are their own
/// escaped form.
proof fn lemma_escaped_plain(content: Seq<u8>)
    requires
        plain_bytes(content),
    ensures
        escaped(content) == content,
    decreases content.len(),
{
    if content.len() == 0 {
        assert(content =~= Seq::empty());
    } else {
        let more = content.drop_first();
        assert forall|i: int| 0 <= i < more.len() implies (#[trigger] more[i]) != 0x22 && more[i]
            != 0x5c by {
            assert(more[i] == content[i + 1]);
        }
        lemma_escaped_plain(more);
        assert(content[0] != 0x22 && content[0] != 0x5c);
        assert(seq![content[0]] + more =~= content);
    }
}

/// A valid script name that holds neither a double quote nor a backslash,
/// sent between quotes as a command sends it, decodes to the bytes of that
/// name and passes the check of names. A name that holds one of the two
/// characters is sent unescaped, and nothing is claimed of it here.
pub proof fn law_sent_name_is_accepted(name: Seq<char>, rest: Seq<u8>)
    requires
        valid_name(name),
        plain_text(name),
    ensures
        spec_sieve_name(encode_utf8(quoted_text(name)) + rest) == Outcome::Done(
            encode_utf8(name),
            (encode_utf8(name).len() + 2) as int,
        ),
{
    let bytes = encode_utf8(name);
    let quote = seq!['"'];
    assert(is_ascii_chars(quote));
    is_ascii_chars_encode_utf8(quote);
    assert(encode_utf8(quote) =~= seq![QUOTE]);
    lemma_bytes_of_joined(quote, name);
    lemma_bytes_of_joined(quote + name, quote);
    assert(encode_utf8(quoted_text(name)) == seq![QUOTE] + bytes + seq![QUOTE]);
    lemma_plain_text_bytes(name);
    lemma_escaped_plain(bytes);
    law_quoted_string_returns_content(bytes, rest);
    law_names_agree(name);
}

/// The bytes that any command is sent as end with CR LF.
pub proof fn law_sent_command_ends_line(command: Command)
    ensures
        encode_utf8(command.wire()) == encode_utf8(command.text()) + seq![0x0du8, 0x0au8],
{
    let end = seq!['\r', '\n'];
    assert(is_ascii_chars(end));
    is_ascii_chars_encode_utf8(end);
    assert(encode_utf8(end) =~= seq![0x0du8, 0x0au8]);
    lemma_bytes_of_joined(command.text(), end);
}

} // verus!
