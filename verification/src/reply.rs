//! The typed layer: what the answer to each command decodes to.
//!
//! Each decoder takes the bytes received so far and returns the bytes that
//! follow the answer, the data of the answer, and its status line. Running
//! out of bytes is [`Error::IncompleteResponse`]; anything that the grammar
//! or a rule on the decoded values forbids is [`Error::InvalidResponse`].
use vstd::prelude::*;
use crate::capability::{capabilities, spec_capability_list, Capability, CapabilityView};
use crate::grammar::{
    spec_response, spec_response_authenticate_complete, spec_response_capability,
    spec_response_getscript, spec_response_listscripts, spec_response_starttls,
};
use crate::outcome::{lemma_bytes_deep_view, Outcome};
use crate::parser;
use crate::types::{Error, OkNoBye, Response, ResponseView};

verus! {

broadcast use lemma_bytes_deep_view;

/// The scripts of a listing, each with a flag that tells whether it is the
/// active one.
pub type ScriptList = Vec<(Vec<u8>, bool)>;

/// What a decoder owes for the bytes it was given: the value and the number
/// of bytes consumed, or the error.
pub type Reply<V> = Result<(V, int), Error>;

/// The answer of the typed layer to an outcome of the grammar: running out
/// of bytes asks for more, every other failure condemns the response.
pub open spec fn classify<V>(o: Outcome<V>) -> Reply<V> {
    match o {
        Outcome::Done(v, n) => Ok((v, n)),
        Outcome::Incomplete => Err(Error::IncompleteResponse),
        _ => Err(Error::InvalidResponse),
    }
}

/// An executable result `r`, obtained on `input`, is exactly the reply `m`.
pub open spec fn replied<T: DeepView>(
    input: Seq<u8>,
    r: Result<(&[u8], T), Error>,
    m: Reply<T::V>,
) -> bool {
    match r {
        Ok((rest, v)) => {
            &&& m matches Ok((w, n))
            &&& w == v.deep_view()
            &&& 0 <= n <= input.len()
            &&& rest@ == input.skip(n)
        },
        Err(e) => m == Err::<(T::V, int), Error>(e),
    }
}

/// An executable result `r` that holds data beside the response, obtained on
/// `input`, is exactly the reply `m`.
pub open spec fn replied_with<D: DeepView, T: DeepView>(
    input: Seq<u8>,
    r: Result<(&[u8], D, T), Error>,
    m: Reply<(D::V, T::V)>,
) -> bool {
    match r {
        Ok((rest, d, v)) => {
            &&& m matches Ok((w, n))
            &&& w == (d.deep_view(), v.deep_view())
            &&& 0 <= n <= input.len()
            &&& rest@ == input.skip(n)
        },
        Err(e) => m == Err::<((D::V, T::V), int), Error>(e),
    }
}

/// The reply to a status line alone.
pub open spec fn reply_status(s: Seq<u8>) -> Reply<ResponseView> {
    classify(spec_response(s))
}

/// The reply to the answer to NOOP: a status line, which must say `OK`.
pub open spec fn reply_noop(s: Seq<u8>) -> Reply<ResponseView> {
    match reply_status(s) {
        Ok((r, n)) => if r.tag == OkNoBye::Okay {
            Ok((r, n))
        } else {
            Err(Error::InvalidResponse)
        },
        Err(e) => Err(e),
    }
}

/// The reply to the answer to GETSCRIPT: the script, where the server sent
/// one, and the status line.
pub open spec fn reply_getscript(s: Seq<u8>) -> Reply<(Option<Seq<u8>>, ResponseView)> {
    classify(spec_response_getscript(s))
}

/// No two scripts of a listing are marked active.
pub open spec fn at_most_one_active(entries: Seq<(Seq<u8>, bool)>) -> bool {
    forall|i: int, j: int|
        0 <= i < j < entries.len() ==> !((#[trigger] entries[i]).1 && (#[trigger] entries[j]).1)
}

/// The reply to the answer to LISTSCRIPTS: the listing and the status line,
/// where at most one script is marked active.
pub open spec fn reply_listscripts(s: Seq<u8>) -> Reply<(Seq<(Seq<u8>, bool)>, ResponseView)> {
    match classify(spec_response_listscripts(s)) {
        Ok(((entries, r), n)) => if at_most_one_active(entries) {
            Ok(((entries, r), n))
        } else {
            Err(Error::InvalidResponse)
        },
        Err(e) => Err(e),
    }
}

/// The reply to a capability listing with its status line, as decoded by the
/// grammar: the capabilities that the lines stand for.
pub open spec fn reply_capabilities(
    o: Outcome<(Seq<(Seq<u8>, Option<Seq<u8>>)>, ResponseView)>,
) -> Reply<(Seq<CapabilityView>, ResponseView)> {
    match classify(o) {
        Ok(((raw, r), n)) => match spec_capability_list(raw) {
            Some(caps) => Ok(((caps, r), n)),
            None => Err(Error::InvalidResponse),
        },
        Err(e) => Err(e),
    }
}

/// The reply to the answer to CAPABILITY.
pub open spec fn reply_capability(s: Seq<u8>) -> Reply<(Seq<CapabilityView>, ResponseView)> {
    reply_capabilities(spec_response_capability(s))
}

/// The reply to the answer to STARTTLS.
pub open spec fn reply_starttls(s: Seq<u8>) -> Reply<(Seq<CapabilityView>, ResponseView)> {
    reply_capabilities(spec_response_starttls(s))
}

/// The reply to the answer that ends an AUTHENTICATE exchange: the
/// capabilities, where the server sent a listing, and the status line.
pub open spec fn reply_authenticate(s: Seq<u8>) -> Reply<
    (Option<Seq<CapabilityView>>, ResponseView),
> {
    match classify(spec_response_authenticate_complete(s)) {
        Ok(((Some(raw), r), n)) => match spec_capability_list(raw) {
            Some(caps) => Ok(((Some(caps), r), n)),
            None => Err(Error::InvalidResponse),
        },
        Ok(((None, r), n)) => Ok(((None, r), n)),
        Err(e) => Err(e),
    }
}

/// Decodes a status line for the typed layer.
fn response_oknobye(input: &[u8]) -> (r: Result<(&[u8], Response), Error>)
    ensures
        replied(input@, r, reply_status(input@)),
{
    match parser::response(input) {
        Ok(x) => Ok(x),
        Err(e) => Err(Error::from(e)),
    }
}

/// Decodes the answer to LOGOUT.
pub fn response_logout(input: &[u8]) -> (r: Result<(&[u8], Response), Error>)
    ensures
        replied(input@, r, reply_status(input@)),
{
    response_oknobye(input)
}

/// Decodes the answer to GETSCRIPT: the script with the `OK` that follows
/// it, or no script with the `NO` or `BYE` of the server.
pub fn response_getscript(input: &[u8]) -> (r: Result<
    (&[u8], Option<Vec<u8>>, Response),
    Error,
>)
    ensures
        replied_with(input@, r, reply_getscript(input@)),
{
    match parser::response_getscript(input) {
        Ok((rest, (script, status))) => Ok((rest, script, status)),
        Err(e) => Err(Error::from(e)),
    }
}

/// Decodes the answer to SETACTIVE.
pub fn response_setactive(input: &[u8]) -> (r: Result<(&[u8], Response), Error>)
    ensures
        replied(input@, r, reply_status(input@)),
{
    response_oknobye(input)
}

/// Tells whether at most one script of a listing is marked active.
pub fn one_active_at_most(entries: &ScriptList) -> (r: bool)
    ensures
        r == at_most_one_active(entries.deep_view()),
{
    let ghost list = entries.deep_view();
    let mut seen = false;
    let ghost mut at: int = 0;
    let mut i: usize = 0;
    while i < entries.len()
        invariant
            i <= entries@.len(),
            list == entries.deep_view(),
            list.len() == entries@.len(),
            !seen ==> forall|j: int| 0 <= j < i ==> !(#[trigger] list[j]).1,
            seen ==> 0 <= at < i && list[at].1 && forall|j: int|
                0 <= j < i && j != at ==> !(#[trigger] list[j]).1,
        decreases entries@.len() - i,
    {
        if entries[i].1 {
            if seen {
                assert(list[at].1 && list[i as int].1);
                return false;
            }
            seen = true;
            proof {
                at = i as int;
            }
        }
        i += 1;
    }
    true
}

/// Decodes the answer to LISTSCRIPTS: the scripts, each with a flag that
/// tells whether it is the active one, and the status line.
pub fn response_listscripts(input: &[u8]) -> (r: Result<(&[u8], ScriptList, Response), Error>)
    ensures
        replied_with(input@, r, reply_listscripts(input@)),
{
    match parser::response_listscripts(input) {
        Ok((rest, (entries, status))) => {
            if one_active_at_most(&entries) {
                Ok((rest, entries, status))
            } else {
                Err(Error::InvalidResponse)
            }
        },
        Err(e) => Err(Error::from(e)),
    }
}

/// Decodes the answer to DELETESCRIPT.
pub fn response_deletescript(input: &[u8]) -> (r: Result<(&[u8], Response), Error>)
    ensures
        replied(input@, r, reply_status(input@)),
{
    response_oknobye(input)
}

/// Decodes the answer to PUTSCRIPT.
pub fn response_putscript(input: &[u8]) -> (r: Result<(&[u8], Response), Error>)
    ensures
        replied(input@, r, reply_status(input@)),
{
    response_oknobye(input)
}

/// Decodes the answer to CHECKSCRIPT.
pub fn response_checkscript(input: &[u8]) -> (r: Result<(&[u8], Response), Error>)
    ensures
        replied(input@, r, reply_status(input@)),
{
    response_oknobye(input)
}

/// Decodes the answer to CAPABILITY: the capabilities and the status line.
pub fn response_capability(input: &[u8]) -> (r: Result<
    (&[u8], Vec<Capability>, Response),
    Error,
>)
    ensures
        replied_with(input@, r, reply_capability(input@)),
{
    match parser::response_capability(input) {
        Ok((rest, (raw, status))) => match capabilities(&raw) {
            Ok(caps) => Ok((rest, caps, status)),
            Err(e) => Err(e),
        },
        Err(e) => Err(Error::from(e)),
    }
}

/// Decodes the answer to HAVESPACE.
pub fn response_havespace(input: &[u8]) -> (r: Result<(&[u8], Response), Error>)
    ensures
        replied(input@, r, reply_status(input@)),
{
    response_oknobye(input)
}

/// Decodes the answer to STARTTLS: the capabilities that the server
/// announces anew, none where it refuses, and the status line.
pub fn response_starttls(input: &[u8]) -> (r: Result<(&[u8], Vec<Capability>, Response), Error>)
    ensures
        replied_with(input@, r, reply_starttls(input@)),
{
    match parser::response_starttls(input) {
        Ok((rest, (raw, status))) => match capabilities(&raw) {
            Ok(caps) => Ok((rest, caps, status)),
            Err(e) => Err(e),
        },
        Err(e) => Err(Error::from(e)),
    }
}

/// Decodes the answer to RENAMESCRIPT.
pub fn response_renamescript(input: &[u8]) -> (r: Result<(&[u8], Response), Error>)
    ensures
        replied(input@, r, reply_status(input@)),
{
    response_oknobye(input)
}

/// Decodes the answer to NOOP, which must say `OK`.
pub fn response_noop(input: &[u8]) -> (r: Result<(&[u8], Response), Error>)
    ensures
        replied(input@, r, reply_noop(input@)),
{
    match response_oknobye(input) {
        Ok((rest, status)) => match status.tag {
            OkNoBye::Okay => Ok((rest, status)),
            _ => Err(Error::InvalidResponse),
        },
        Err(e) => Err(e),
    }
}

/// Decodes the answer to UNAUTHENTICATE.
pub fn response_unauthenticate(input: &[u8]) -> (r: Result<(&[u8], Response), Error>)
    ensures
        replied(input@, r, reply_status(input@)),
{
    response_oknobye(input)
}

/// Decodes the answer that ends an AUTHENTICATE exchange: the capabilities,
/// where the server sent a listing after `OK`, and the status line.
pub fn response_authenticate(input: &[u8]) -> (r: Result<
    (&[u8], Option<Vec<Capability>>, Response),
    Error,
>)
    ensures
        replied_with(input@, r, reply_authenticate(input@)),
{
    match parser::response_authenticate_complete(input) {
        Ok((rest, (Some(raw), status))) => match capabilities(&raw) {
            Ok(caps) => Ok((rest, Some(caps), status)),
            Err(e) => Err(e),
        },
        Ok((rest, (None, status))) => Ok((rest, None, status)),
        Err(e) => Err(Error::from(e)),
    }
}

} // verus!
