//! Responses of the content gateway to the failures of a block or
//! transaction lookup.
use vstd::prelude::*;

verus! {

/// What a request is answered with.
pub enum Out {
    /// The raw bytes of the object.
    OctetStream(Vec<u8>),
    /// No such object; the reason is the body.
    NotFound(&'static str),
    /// The request could not be served; the reason is the body.
    Bad(&'static str),
}

/// Why a lookup failed.
pub enum Error {
    CidParsingFailed,
    UnsupportedHash,
    UnsupportedCid,
    BlockNotFound,
    TransactionNotFound,
}

/// The response that reports `err`.
pub open spec fn response_for(err: Error) -> Out {
    match err {
        Error::UnsupportedHash => Out::Bad("Hash must be Keccak-256"),
        Error::UnsupportedCid => Out::Bad("CID codec not supported"),
        Error::CidParsingFailed => Out::Bad("CID parsing failed"),
        Error::BlockNotFound => Out::NotFound("Block not found"),
        Error::TransactionNotFound => Out::NotFound("Transaction not found"),
    }
}

impl From<Error> for Out {
    fn from(err: Error) -> (r: Out)
        ensures
            r == response_for(err),
    {
        match err {
            Error::UnsupportedHash => Out::Bad("Hash must be Keccak-256"),
            Error::UnsupportedCid => Out::Bad("CID codec not supported"),
            Error::CidParsingFailed => Out::Bad("CID parsing failed"),
            Error::BlockNotFound => Out::NotFound("Block not found"),
            Error::TransactionNotFound => Out::NotFound("Transaction not found"),
        }
    }
}

impl vstd::std_specs::convert::FromSpecImpl<Error> for Out {
    open spec fn obeys_from_spec() -> bool {
        true
    }

    open spec fn from_spec(err: Error) -> Out {
        response_for(err)
    }
}

} // verus!
