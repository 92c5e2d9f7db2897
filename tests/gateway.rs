use ethstore::gateway::{Error, Out};

fn reason(out: Out) -> (&'static str, bool) {
    match out {
        Out::Bad(r) => (r, true),
        Out::NotFound(r) => (r, false),
        Out::OctetStream(_) => ("", false),
    }
}

#[test]
fn lookup_errors_map_to_responses() {
    assert_eq!(reason(Out::from(Error::UnsupportedHash)), ("Hash must be Keccak-256", true));
    assert_eq!(reason(Out::from(Error::UnsupportedCid)), ("CID codec not supported", true));
    assert_eq!(reason(Out::from(Error::CidParsingFailed)), ("CID parsing failed", true));
    assert_eq!(reason(Out::from(Error::BlockNotFound)), ("Block not found", false));
    assert_eq!(reason(Out::from(Error::TransactionNotFound)), ("Transaction not found", false));
}
