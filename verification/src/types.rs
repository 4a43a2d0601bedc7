//! The values that responses are made of, and the errors.
use vstd::prelude::*;
use crate::outcome::ParseError;

verus! {

/// Why a response could not be decoded, or a command not be built.
#[derive(Debug, Clone, Copy, PartialEq, Eq, Structural)]
pub enum Error {
    /// The bytes are a proper beginning of a response: read more, and decode
    /// again from the start of the buffer.
    IncompleteResponse,
    /// The bytes cannot begin a response of the expected shape.
    InvalidResponse,
    /// A script name holds a character that no script name may hold.
    InvalidInput,
}

/// The status that ends every response.
#[derive(Debug, Clone, Copy, PartialEq, Eq, Structural)]
pub enum OkNoBye {
    Okay,
    No,
    Bye,
}

impl DeepView for OkNoBye {
    type V = OkNoBye;

    open spec fn deep_view(&self) -> OkNoBye {
        *self
    }
}

/// Which quota a `QUOTA` response code speaks of.
#[derive(Debug, Clone, Copy, PartialEq, Eq, Structural)]
pub enum QuotaVariant {
    /// The quota is not said to be of one kind.
    Unspecified,
    MaxScripts,
    MaxSize,
}

/// The address of another server, as a `REFERRAL` response code gives it.
pub type SieveUrl = Vec<u8>;

/// The code that a response may carry in parentheses.
#[derive(Debug, Clone, PartialEq, Eq)]
pub enum ResponseCode {
    AuthTooWeak,
    EncryptNeeded,
    Quota(QuotaVariant),
    Referral(SieveUrl),
    Sasl,
    TransitionNeeded,
    TryLater,
    Active,
    Nonexistent,
    AlreadyExists,
    Tag,
    Warnings,
}

/// Mathematical value of a [`ResponseCode`].
pub enum ResponseCodeView {
    AuthTooWeak,
    EncryptNeeded,
    Quota(QuotaVariant),
    Referral(Seq<u8>),
    Sasl,
    TransitionNeeded,
    TryLater,
    Active,
    Nonexistent,
    AlreadyExists,
    Tag,
    Warnings,
}

impl DeepView for ResponseCode {
    type V = ResponseCodeView;

    open spec fn deep_view(&self) -> ResponseCodeView {
        match self {
            ResponseCode::AuthTooWeak => ResponseCodeView::AuthTooWeak,
            ResponseCode::EncryptNeeded => ResponseCodeView::EncryptNeeded,
            ResponseCode::Quota(q) => ResponseCodeView::Quota(*q),
            ResponseCode::Referral(url) => ResponseCodeView::Referral(url@),
            ResponseCode::Sasl => ResponseCodeView::Sasl,
            ResponseCode::TransitionNeeded => ResponseCodeView::TransitionNeeded,
            ResponseCode::TryLater => ResponseCodeView::TryLater,
            ResponseCode::Active => ResponseCodeView::Active,
            ResponseCode::Nonexistent => ResponseCodeView::Nonexistent,
            ResponseCode::AlreadyExists => ResponseCodeView::AlreadyExists,
            ResponseCode::Tag => ResponseCodeView::Tag,
            ResponseCode::Warnings => ResponseCodeView::Warnings,
        }
    }
}

/// A decoded status line.
#[derive(Debug, Clone, PartialEq, Eq)]
pub struct Response {
    pub tag: OkNoBye,
    /// The response code and the string that may follow it.
    pub code: Option<(ResponseCode, Option<Vec<u8>>)>,
    /// The text meant for a human reader.
    pub human: Option<Vec<u8>>,
}

/// Mathematical value of a [`Response`].
pub struct ResponseView {
    pub tag: OkNoBye,
    pub code: Option<(ResponseCodeView, Option<Seq<u8>>)>,
    pub human: Option<Seq<u8>>,
}

impl DeepView for Response {
    type V = ResponseView;

    open spec fn deep_view(&self) -> ResponseView {
        ResponseView {
            tag: self.tag,
            code: match self.code {
                Some((c, d)) => Some(
                    (
                        c.deep_view(),
                        match d {
                            Some(v) => Some(v@),
                            None => None,
                        },
                    ),
                ),
                None => None,
            },
            human: match self.human {
                Some(v) => Some(v@),
                None => None,
            },
        }
    }
}

impl OkNoBye {
    /// The status word in capitals.
    pub open spec fn word(&self) -> Seq<char> {
        match self {
            OkNoBye::Okay => "OK"@,
            OkNoBye::No => "NO"@,
            OkNoBye::Bye => "BYE"@,
        }
    }

    /// The status word as the protocol writes it.
    pub fn to_string(&self) -> (r: String)
        ensures
            r@ == self.word(),
    {
        match self {
            OkNoBye::Okay => "OK".to_owned(),
            OkNoBye::No => "NO".to_owned(),
            OkNoBye::Bye => "BYE".to_owned(),
        }
    }
}

impl Error {
    /// The error of the typed layer for an error of the grammar.
    pub fn from(e: ParseError) -> (r: Error)
        ensures
            r == (match e {
                ParseError::Incomplete => Error::IncompleteResponse,
                _ => Error::InvalidResponse,
            }),
    {
        match e {
            ParseError::Incomplete => Error::IncompleteResponse,
            ParseError::Error => Error::InvalidResponse,
            ParseError::Failure => Error::InvalidResponse,
        }
    }
}

} // verus!
