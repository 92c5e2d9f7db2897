//! The key record kept in a key directory, and the errors of the store.
use vstd::prelude::*;

verus! {

/// An encrypted account key as the store sees it: an identity (`id` and
/// `address`), the name of the file that holds it, and payloads that the store
/// carries without reading them.
#[derive(Clone, Debug)]
pub struct KeyRecord {
    /// Unique identifier of the record.
    pub id: [u8; 16],
    /// Public address derived from the key.
    pub address: [u8; 20],
    /// Format version of the serialized record.
    pub version: u32,
    /// The serialized crypto section (cipher text, derivation parameters, MAC).
    pub crypto: Vec<u8>,
    /// Human readable name of the account.
    pub name: String,
    /// Free-form metadata, JSON text.
    pub meta: String,
    /// Name of the file that holds the record, once it has one.
    pub filename: Option<String>,
}

/// Failures of the key store.
#[derive(Debug)]
pub enum Error {
    /// A filesystem operation failed; the text describes how.
    Io(String),
    /// No record in the directory has the requested identity.
    InvalidAccount,
    /// A record could not be read from or written to bytes.
    Custom(String),
}

/// Two records have the same identity when both their ids and their
/// addresses agree; the file name plays no part.
pub open spec fn same_identity(a: KeyRecord, b: KeyRecord) -> bool {
    a.id@ == b.id@ && a.address@ == b.address@
}

/// `r` is `a` with its file name set to `filename`, every other field kept.
pub open spec fn with_filename(r: KeyRecord, a: KeyRecord, filename: Seq<char>) -> bool {
    &&& r.id@ == a.id@
    &&& r.address@ == a.address@
    &&& r.version == a.version
    &&& r.crypto@ == a.crypto@
    &&& r.name@ == a.name@
    &&& r.meta@ == a.meta@
    &&& r.filename matches Some(f) && f@ == filename
}

fn bytes_equal(a: &[u8], b: &[u8]) -> (r: bool)
    ensures
        r == (a@ == b@),
{
    if a.len() != b.len() {
        return false;
    }
    let mut i: usize = 0;
    while i < a.len()
        invariant
            a@.len() == b@.len(),
            0 <= i <= a@.len(),
            forall|k: int| 0 <= k < i ==> a@[k] == b@[k],
        decreases a@.len() - i,
    {
        if a[i] != b[i] {
            return false;
        }
        i = i + 1;
    }
    assert(a@ =~= b@);
    true
}

impl KeyRecord {
    /// Whether `self` and `other` have the same id and the same address.
    pub fn same_identity_as(&self, other: &KeyRecord) -> (r: bool)
        ensures
            r == same_identity(*self, *other),
    {
        bytes_equal(self.id.as_slice(), other.id.as_slice()) && bytes_equal(
            self.address.as_slice(),
            other.address.as_slice(),
        )
    }
}

} // verus!
