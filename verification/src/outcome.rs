//! Results of grammar rules: what an executable rule returns, what its
//! mathematical model yields, and how the two are related.
use vstd::prelude::*;

verus! {

/// Why a grammar rule did not produce a value.
#[derive(Debug, Clone, Copy, PartialEq, Eq, Structural)]
pub enum ParseError {
    /// The input is a proper beginning of something the rule accepts, or
    /// may be one: more bytes are needed to decide.
    Incomplete,
    /// The input does not match the rule; an enclosing choice may try
    /// another alternative.
    Error,
    /// The input matched the shape of the rule but broke a condition on its
    /// value; no alternative is tried.
    Failure,
}

/// Mathematical result of applying a grammar rule to a byte sequence.
pub enum Outcome<T> {
    /// The rule matched: the value it yields and the number of bytes it
    /// consumed from the front of the input.
    Done(T, int),
    Incomplete,
    Error,
    Failure,
}

impl<T> Outcome<T> {
    /// A failing outcome, carried over to a rule with another value type.
    pub open spec fn fail_as<U>(self) -> Outcome<U> {
        match self {
            Outcome::Incomplete => Outcome::Incomplete,
            Outcome::Failure => Outcome::Failure,
            _ => Outcome::Error,
        }
    }

    /// Ordered choice: the second outcome counts only where the first is a
    /// plain mismatch.
    pub open spec fn or_else(self, other: Outcome<T>) -> Outcome<T> {
        match self {
            Outcome::Error => other,
            _ => self,
        }
    }

    /// An optional rule: a plain mismatch becomes "absent", with nothing
    /// consumed.
    pub open spec fn optional(self) -> Outcome<Option<T>> {
        match self {
            Outcome::Done(v, n) => Outcome::Done(Some(v), n),
            Outcome::Error => Outcome::Done(None, 0),
            Outcome::Incomplete => Outcome::Incomplete,
            Outcome::Failure => Outcome::Failure,
        }
    }

    /// The same outcome with another value in place of the one yielded.
    pub open spec fn with<U>(self, v: U) -> Outcome<U> {
        match self {
            Outcome::Done(_, n) => Outcome::Done(v, n),
            o => o.fail_as(),
        }
    }

    /// The same outcome for a rule that was applied after `n` bytes had
    /// been consumed.
    pub open spec fn after(self, n: int) -> Outcome<T> {
        match self {
            Outcome::Done(v, m) => Outcome::Done(v, n + m),
            o => o,
        }
    }

    /// The outcome that stands for a given error.
    pub open spec fn failed(e: ParseError) -> Outcome<T> {
        match e {
            ParseError::Incomplete => Outcome::Incomplete,
            ParseError::Error => Outcome::Error,
            ParseError::Failure => Outcome::Failure,
        }
    }
}

/// An executable result `r`, obtained on `input`, is exactly the outcome `o`:
/// on success the value has the modelled view and the returned slice is the
/// input without the consumed bytes; on failure the error is the modelled one.
pub open spec fn decoded<T: DeepView>(
    input: Seq<u8>,
    r: Result<(&[u8], T), ParseError>,
    o: Outcome<T::V>,
) -> bool {
    match r {
        Ok((rest, v)) => {
            &&& o matches Outcome::Done(w, n)
            &&& w == v.deep_view()
            &&& 0 <= n <= input.len()
            &&& rest@ == input.skip(n)
        },
        Err(e) => o == Outcome::<T::V>::failed(e),
    }
}

/// The deep view of a byte vector is its view.
pub broadcast proof fn lemma_bytes_deep_view(v: Vec<u8>)
    ensures
        #[trigger] v.deep_view() == v@,
{
}

/// Skips `n` bytes of `input`.
pub(crate) fn advance(input: &[u8], n: usize) -> (rest: &[u8])
    requires
        n <= input@.len(),
    ensures
        rest@ == input@.skip(n as int),
{
    vstd::slice::slice_subrange(input, n, input.len())
}

} // verus!
