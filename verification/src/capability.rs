//! What a server announces of itself: the capabilities, and how the lines of
//! a capability listing are read.
use vstd::prelude::*;
use vstd::slice::slice_to_vec;
use vstd::string::StringSliceAdditionalSpecFns;
use crate::grammar::{all_digits, digits_value, is_digit, PLUS, SPACE};
use crate::outcome::lemma_bytes_deep_view;
use crate::types::Error;

verus! {

broadcast use lemma_bytes_deep_view;

/// Something that the server says it supports, or a limit it sets.
#[derive(Debug, Clone, PartialEq, Eq)]
pub enum Capability {
    Implementation(Vec<u8>),
    Sasl(Vec<Vec<u8>>),
    Sieve(Vec<Vec<u8>>),
    StartTls,
    MaxRedirects(usize),
    Notify(Vec<Vec<u8>>),
    Language(Vec<u8>),
    Owner(Vec<u8>),
    Version(Vec<u8>),
    /// A capability that this library does not know, kept as it came.
    Unknown(Vec<u8>, Option<Vec<u8>>),
}

/// Mathematical value of a [`Capability`].
pub enum CapabilityView {
    Implementation(Seq<u8>),
    Sasl(Seq<Seq<u8>>),
    Sieve(Seq<Seq<u8>>),
    StartTls,
    MaxRedirects(usize),
    Notify(Seq<Seq<u8>>),
    Language(Seq<u8>),
    Owner(Seq<u8>),
    Version(Seq<u8>),
    Unknown(Seq<u8>, Option<Seq<u8>>),
}

impl DeepView for Capability {
    type V = CapabilityView;

    open spec fn deep_view(&self) -> CapabilityView {
        match self {
            Capability::Implementation(v) => CapabilityView::Implementation(v@),
            Capability::Sasl(l) => CapabilityView::Sasl(l.deep_view()),
            Capability::Sieve(l) => CapabilityView::Sieve(l.deep_view()),
            Capability::StartTls => CapabilityView::StartTls,
            Capability::MaxRedirects(n) => CapabilityView::MaxRedirects(*n),
            Capability::Notify(l) => CapabilityView::Notify(l.deep_view()),
            Capability::Language(v) => CapabilityView::Language(v@),
            Capability::Owner(v) => CapabilityView::Owner(v@),
            Capability::Version(v) => CapabilityView::Version(v@),
            Capability::Unknown(name, value) => CapabilityView::Unknown(
                name@,
                match value {
                    Some(v) => Some(v@),
                    None => None,
                },
            ),
        }
    }
}

/// The tokens of the part of `v` that begins at `start`, where no byte from
/// `start` up to `i` is a space: the stretches between single spaces, empty
/// ones included.
pub open spec fn tokens_from(v: Seq<u8>, start: int, i: int) -> Seq<Seq<u8>>
    decreases v.len() - i,
{
    if i >= v.len() {
        seq![v.subrange(start, v.len() as int)]
    } else if v[i] == SPACE {
        seq![v.subrange(start, i)] + tokens_from(v, i + 1, i + 1)
    } else {
        tokens_from(v, start, i + 1)
    }
}

/// A list value split at each space.
pub open spec fn spec_tokens(v: Seq<u8>) -> Seq<Seq<u8>> {
    tokens_from(v, 0, 0)
}

/// Tokens put together again, with one space between each two.
pub open spec fn joined(tokens: Seq<Seq<u8>>) -> Seq<u8>
    decreases tokens.len(),
{
    if tokens.len() == 0 {
        Seq::empty()
    } else if tokens.len() == 1 {
        tokens[0]
    } else {
        tokens[0] + seq![SPACE] + joined(tokens.drop_first())
    }
}

/// No byte is a space.
pub open spec fn spaceless(token: Seq<u8>) -> bool {
    forall|i: int| 0 <= i < token.len() ==> #[trigger] token[i] != SPACE
}

proof fn lemma_tokens_from(v: Seq<u8>, start: int, i: int)
    requires
        0 <= start <= i <= v.len(),
        spaceless(v.subrange(start, i)),
    ensures
        tokens_from(v, start, i).len() >= 1,
        forall|k: int|
            0 <= k < tokens_from(v, start, i).len() ==> spaceless(
                #[trigger] tokens_from(v, start, i)[k],
            ),
        joined(tokens_from(v, start, i)) == v.subrange(start, v.len() as int),
    decreases v.len() - i,
{
    if i >= v.len() {
    } else if v[i] == SPACE {
        let first = v.subrange(start, i);
        let more = tokens_from(v, i + 1, i + 1);
        assert(v.subrange(i + 1, i + 1) =~= Seq::<u8>::empty());
        lemma_tokens_from(v, i + 1, i + 1);
        let all = seq![first] + more;
        assert(all.drop_first() =~= more);
        assert(all[0] == first);
        assert(first + seq![SPACE] + v.subrange(i + 1, v.len() as int) =~= v.subrange(
            start,
            v.len() as int,
        ));
        assert forall|k: int| 0 <= k < all.len() implies spaceless(#[trigger] all[k]) by {
            if k > 0 {
                assert(all[k] == more[k - 1]);
            }
        }
    } else {
        assert forall|k: int| 0 <= k < i + 1 - start implies #[trigger] v.subrange(start, i + 1)[k]
            != SPACE by {
            if k < i - start {
                assert(v.subrange(start, i)[k] == v.subrange(start, i + 1)[k]);
            }
        }
        lemma_tokens_from(v, start, i + 1);
    }
}

/// The tokens of a list value are what stands between its spaces: there is
/// at least one token, no token holds a space, and the tokens, put together
/// again with one space between each two, are the value.
pub proof fn law_tokens_partition_the_value(v: Seq<u8>)
    ensures
        spec_tokens(v).len() >= 1,
        forall|k: int| 0 <= k < spec_tokens(v).len() ==> spaceless(#[trigger] spec_tokens(v)[k]),
        joined(spec_tokens(v)) == v,
{
    assert(v.subrange(0, 0) =~= Seq::<u8>::empty());
    lemma_tokens_from(v, 0, 0);
    assert(v.subrange(0, v.len() as int) =~= v);
}

/// The number that a value denotes: decimal digits, at least one, after an
/// optional `+`, as long as the number fits a `usize`.
pub open spec fn spec_unsigned(v: Seq<u8>) -> Option<usize> {
    let d = unsigned_digits(v);
    if d.len() > 0 && all_digits(d) && digits_value(d) <= usize::MAX {
        Some(digits_value(d) as usize)
    } else {
        None
    }
}

/// A value without the `+` that may stand at its front.
pub open spec fn unsigned_digits(v: Seq<u8>) -> Seq<u8> {
    if v.len() > 0 && v[0] == PLUS {
        v.skip(1)
    } else {
        v
    }
}


/// The capability that a name and the value after it stand for. A name is
/// known only in capitals. `None` where a known name lacks the value it needs
/// or the value of `MAXREDIRECTS` is no number.
pub open spec fn spec_capability(name: Seq<u8>, value: Option<Seq<u8>>) -> Option<
    CapabilityView,
> {
    if name == "IMPLEMENTATION".spec_bytes() {
        match value {
            Some(v) => Some(CapabilityView::Implementation(v)),
            None => None,
        }
    } else if name == "SASL".spec_bytes() {
        match value {
            Some(v) => Some(CapabilityView::Sasl(spec_tokens(v))),
            None => None,
        }
    } else if name == "SIEVE".spec_bytes() {
        match value {
            Some(v) => Some(CapabilityView::Sieve(spec_tokens(v))),
            None => None,
        }
    } else if name == "STARTTLS".spec_bytes() {
        Some(CapabilityView::StartTls)
    } else if name == "MAXREDIRECTS".spec_bytes() {
        match value {
            Some(v) => match spec_unsigned(v) {
                Some(n) => Some(CapabilityView::MaxRedirects(n)),
                None => None,
            },
            None => None,
        }
    } else if name == "NOTIFY".spec_bytes() {
        match value {
            Some(v) => Some(CapabilityView::Notify(spec_tokens(v))),
            None => None,
        }
    } else if name == "LANGUAGE".spec_bytes() {
        match value {
            Some(v) => Some(CapabilityView::Language(v)),
            None => None,
        }
    } else if name == "OWNER".spec_bytes() {
        match value {
            Some(v) => Some(CapabilityView::Owner(v)),
            None => None,
        }
    } else if name == "VERSION".spec_bytes() {
        match value {
            Some(v) => Some(CapabilityView::Version(v)),
            None => None,
        }
    } else {
        Some(CapabilityView::Unknown(name, value))
    }
}

/// The capabilities that a listing stands for, or `None` where one of its
/// lines stands for none.
pub open spec fn spec_capability_list(raw: Seq<(Seq<u8>, Option<Seq<u8>>)>) -> Option<
    Seq<CapabilityView>,
> {
    if forall|i: int|
        0 <= i < raw.len() ==> spec_capability((#[trigger] raw[i]).0, raw[i].1) is Some {
        Some(Seq::new(raw.len(), |i: int| spec_capability(raw[i].0, raw[i].1).unwrap()))
    } else {
        None
    }
}

/// The bytes behind an optional slice.
pub open spec fn opt_bytes(o: Option<&[u8]>) -> Option<Seq<u8>> {
    match o {
        Some(v) => Some(v@),
        None => None,
    }
}

/// Tells whether two byte strings are the same.
pub fn bytes_eq(a: &[u8], b: &[u8]) -> (r: bool)
    ensures
        r == (a@ == b@),
{
    if a.len() != b.len() {
        return false;
    }
    let mut i: usize = 0;
    while i < a.len()
        invariant
            a@.len() == b@.len(),
            i <= a@.len(),
            forall|j: int| 0 <= j < i ==> a@[j] == b@[j],
        decreases a@.len() - i,
    {
        if a[i] != b[i] {
            return false;
        }
        i += 1;
    }
    assert(a@ =~= b@);
    true
}

/// Splits a list value at each space.
pub fn split_tokens(v: &[u8]) -> (r: Vec<Vec<u8>>)
    ensures
        r.deep_view() == spec_tokens(v@),
{
    let mut tokens: Vec<Vec<u8>> = Vec::new();
    let mut current: Vec<u8> = Vec::new();
    let mut i: usize = 0;
    let ghost mut start: int = 0;
    assert(tokens.deep_view() + tokens_from(v@, 0, 0) =~= spec_tokens(v@));
    while i < v.len()
        invariant
            0 <= start <= i <= v@.len(),
            current@ == v@.subrange(start, i as int),
            spec_tokens(v@) == tokens.deep_view() + tokens_from(v@, start, i as int),
        decreases v@.len() - i,
    {
        if v[i] == SPACE {
            let ghost before = tokens.deep_view();
            tokens.push(current);
            proof {
                assert(tokens.deep_view() =~= before.push(v@.subrange(start, i as int)));
                assert(before + (seq![v@.subrange(start, i as int)] + tokens_from(
                    v@,
                    i + 1,
                    i + 1,
                )) =~= tokens.deep_view() + tokens_from(v@, i + 1, i + 1));
                start = i + 1;
            }
            current = Vec::new();
            assert(current@ =~= v@.subrange(start, i + 1));
        } else {
            current.push(v[i]);
            assert(current@ =~= v@.subrange(start, i + 1));
        }
        i += 1;
    }
    let ghost before = tokens.deep_view();
    tokens.push(current);
    proof {
        assert(tokens.deep_view() =~= before.push(v@.subrange(start, v@.len() as int)));
        assert(tokens.deep_view() =~= before + seq![v@.subrange(start, v@.len() as int)]);
    }
    tokens
}

/// Reads a value as a number.
pub fn unsigned(v: &[u8]) -> (r: Option<usize>)
    ensures
        r == spec_unsigned(v@),
{
    let first: usize = if v.len() > 0 && v[0] == PLUS {
        1
    } else {
        0
    };
    let ghost d = unsigned_digits(v@);
    assert(v@.skip(0) =~= v@);
    let mut i: usize = first;
    let mut value: usize = 0;
    let mut fits = true;
    while i < v.len()
        invariant
            first <= i <= v@.len(),
            d == unsigned_digits(v@),
            d == v@.skip(first as int),
            forall|j: int| 0 <= j < i - first ==> is_digit(#[trigger] d[j]),
            fits ==> value == digits_value(d.take(i - first)),
            !fits ==> digits_value(d.take(i - first)) > usize::MAX,
        decreases v@.len() - i,
    {
        if !(0x30 <= v[i] && v[i] <= 0x39) {
            assert(!is_digit(d[i - first]));
            return None;
        }
        let digit: usize = (v[i] - 0x30) as usize;
        proof {
            assert(d.take(i - first + 1).drop_last() =~= d.take(i - first));
        }
        if fits {
            match value.checked_mul(10) {
                Some(tens) => match tens.checked_add(digit) {
                    Some(sum) => {
                        value = sum;
                    },
                    None => {
                        fits = false;
                    },
                },
                None => {
                    fits = false;
                },
            }
        }
        i += 1;
    }
    assert(d.take(d.len() as int) =~= d);
    if i == first || !fits {
        None
    } else {
        Some(value)
    }
}

impl Capability {
    /// Builds the capability that a name and the value after it stand for.
    pub fn try_from(pair: (&[u8], Option<&[u8]>)) -> (r: Result<Capability, Error>)
        ensures
            match r {
                Ok(c) => spec_capability(pair.0@, opt_bytes(pair.1)) == Some(c.deep_view()),
                Err(e) => e == Error::InvalidResponse && spec_capability(
                    pair.0@,
                    opt_bytes(pair.1),
                ) is None,
            },
    {
        let (name, value) = pair;
        if bytes_eq(name, "IMPLEMENTATION".as_bytes()) {
            match value {
                Some(v) => Ok(Capability::Implementation(slice_to_vec(v))),
                None => Err(Error::InvalidResponse),
            }
        } else if bytes_eq(name, "SASL".as_bytes()) {
            match value {
                Some(v) => Ok(Capability::Sasl(split_tokens(v))),
                None => Err(Error::InvalidResponse),
            }
        } else if bytes_eq(name, "SIEVE".as_bytes()) {
            match value {
                Some(v) => Ok(Capability::Sieve(split_tokens(v))),
                None => Err(Error::InvalidResponse),
            }
        } else if bytes_eq(name, "STARTTLS".as_bytes()) {
            Ok(Capability::StartTls)
        } else if bytes_eq(name, "MAXREDIRECTS".as_bytes()) {
            match value {
                Some(v) => match unsigned(v) {
                    Some(n) => Ok(Capability::MaxRedirects(n)),
                    None => Err(Error::InvalidResponse),
                },
                None => Err(Error::InvalidResponse),
            }
        } else if bytes_eq(name, "NOTIFY".as_bytes()) {
            match value {
                Some(v) => Ok(Capability::Notify(split_tokens(v))),
                None => Err(Error::InvalidResponse),
            }
        } else if bytes_eq(name, "LANGUAGE".as_bytes()) {
            match value {
                Some(v) => Ok(Capability::Language(slice_to_vec(v))),
                None => Err(Error::InvalidResponse),
            }
        } else if bytes_eq(name, "OWNER".as_bytes()) {
            match value {
                Some(v) => Ok(Capability::Owner(slice_to_vec(v))),
                None => Err(Error::InvalidResponse),
            }
        } else if bytes_eq(name, "VERSION".as_bytes()) {
            match value {
                Some(v) => Ok(Capability::Version(slice_to_vec(v))),
                None => Err(Error::InvalidResponse),
            }
        } else {
            Ok(
                Capability::Unknown(
                    slice_to_vec(name),
                    match value {
                        Some(v) => Some(slice_to_vec(v)),
                        None => None,
                    },
                ),
            )
        }
    }
}

/// Builds the capabilities that the lines of a listing stand for.
pub fn capabilities(raw: &Vec<(Vec<u8>, Option<Vec<u8>>)>) -> (r: Result<Vec<Capability>, Error>)
    ensures
        match r {
            Ok(caps) => spec_capability_list(raw.deep_view()) == Some(caps.deep_view()),
            Err(e) => e == Error::InvalidResponse && spec_capability_list(raw.deep_view()) is None,
        },
{
    let ghost list = raw.deep_view();
    let mut caps: Vec<Capability> = Vec::new();
    let mut i: usize = 0;
    while i < raw.len()
        invariant
            i <= raw@.len(),
            list == raw.deep_view(),
            list.len() == raw@.len(),
            caps@.len() == i,
            forall|j: int|
                0 <= j < i ==> spec_capability((#[trigger] list[j]).0, list[j].1) == Some(
                    caps@[j].deep_view(),
                ),
        decreases raw@.len() - i,
    {
        let entry = &raw[i];
        let value: Option<&[u8]> = match &entry.1 {
            Some(v) => Some(v.as_slice()),
            None => None,
        };
        assert(list[i as int] == entry.deep_view());
        match Capability::try_from((entry.0.as_slice(), value)) {
            Ok(c) => {
                caps.push(c);
            },
            Err(e) => {
                return Err(e);
            },
        }
        i += 1;
    }
    assert(caps.deep_view() =~= spec_capability_list(list).unwrap());
    Ok(caps)
}

} // verus!
