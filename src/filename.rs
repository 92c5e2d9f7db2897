//! Which directory entries are key files, and the names given to new ones.
use vstd::prelude::*;
use vstd::string::*;
use crate::ident::{lemma_uuid_text_digits, lemma_uuid_text_injective, uuid_string, uuid_text};
use crate::record::KeyRecord;

verus! {

broadcast use {axiom_spec_iter, next_postcondition, to_string_from_display_ensures_for_str};

/// Names in the root directory that are never key files: caches of other
/// components and the vault marker.
pub open spec fn ignored_names() -> Seq<Seq<char>> {
    seq![
        "thumbs.db"@,
        "address_book.json"@,
        "dapps_policy.json"@,
        "dapps_accounts.json"@,
        "dapps_history.json"@,
        "vault.json"@,
    ]
}

/// Name of the file whose presence makes a sub-directory a vault.
pub open spec fn vault_marker() -> Seq<char> {
    "vault.json"@
}

/// A hidden entry: its name starts with a dot.
pub open spec fn is_hidden_name(name: Seq<char>) -> bool {
    name.len() > 0 && name[0] == '.'
}

/// An entry may hold a key record when it is no directory, is not hidden and
/// is not one of the ignored names.
pub open spec fn is_key_file(name: Seq<char>, is_dir: bool) -> bool {
    !is_dir && !is_hidden_name(name) && !ignored_names().contains(name)
}

/// The ignored names, as values.
pub fn ignored_files() -> (r: Vec<String>)
    ensures
        r@.len() == ignored_names().len(),
        forall|i: int| 0 <= i < r@.len() ==> #[trigger] r@[i]@ == ignored_names()[i],
{
    let r = vec![
        "thumbs.db".to_string(),
        "address_book.json".to_string(),
        "dapps_policy.json".to_string(),
        "dapps_accounts.json".to_string(),
        "dapps_history.json".to_string(),
        "vault.json".to_string(),
    ];
    proof {
        reveal_strlit("thumbs.db");
        reveal_strlit("address_book.json");
        reveal_strlit("dapps_policy.json");
        reveal_strlit("dapps_accounts.json");
        reveal_strlit("dapps_history.json");
        reveal_strlit("vault.json");
    }
    r
}

/// The name of the vault marker file.
pub fn vault_file_name() -> (r: String)
    ensures
        r@ == vault_marker(),
{
    proof {
        reveal_strlit("vault.json");
    }
    "vault.json".to_string()
}

/// Whether `name` is one of the ignored names.
pub fn is_ignored(name: &str) -> (r: bool)
    ensures
        r == ignored_names().contains(name@),
{
    let owned = name.to_owned();
    let list = ignored_files();
    let mut i: usize = 0;
    while i < list.len()
        invariant
            owned@ == name@,
            list@.len() == ignored_names().len(),
            forall|k: int| 0 <= k < list@.len() ==> #[trigger] list@[k]@ == ignored_names()[k],
            0 <= i <= list@.len(),
            forall|k: int| 0 <= k < i ==> ignored_names()[k] != name@,
        decreases list@.len() - i,
    {
        if list[i] == owned {
            assert(ignored_names()[i as int] == name@);
            return true;
        }
        i = i + 1;
    }
    false
}

/// Whether `name` starts with a dot.
pub fn is_hidden(name: &str) -> (r: bool)
    ensures
        r == is_hidden_name(name@),
{
    let mut chars = name.chars();
    match chars.next() {
        Some(c) => c == '.',
        None => false,
    }
}

/// Whether a directory entry called `name` may hold a key record.
pub fn is_key_file_entry(name: &str, is_dir: bool) -> (r: bool)
    ensures
        r == is_key_file(name@, is_dir),
{
    !is_dir && !is_hidden(name) && !is_ignored(name)
}

/// The name given to a record that has none, from the time of writing and
/// the record's id.
pub open spec fn generated_name(timestamp: Seq<char>, id: Seq<u8>) -> Seq<char> {
    "UTC--"@ + timestamp + "Z--"@ + uuid_text(id)
}

/// Names generated at timestamps of one length (a fixed time format) differ
/// when the timestamps differ or the ids differ.
pub proof fn lemma_generated_names_distinct(
    ts1: Seq<char>,
    ts2: Seq<char>,
    id1: Seq<u8>,
    id2: Seq<u8>,
)
    requires
        ts1.len() == ts2.len(),
        id1.len() == 16,
        id2.len() == 16,
        ts1 != ts2 || id1 != id2,
    ensures
        generated_name(ts1, id1) != generated_name(ts2, id2),
{
    reveal_strlit("UTC--");
    reveal_strlit("Z--");
    lemma_uuid_text_digits(id1);
    lemma_uuid_text_digits(id2);
    let start = ts1.len() as int + 8;
    let n1 = generated_name(ts1, id1);
    let n2 = generated_name(ts2, id2);
    assert(n1.subrange(5, start - 3) =~= ts1);
    assert(n2.subrange(5, start - 3) =~= ts2);
    assert(n1.subrange(start, start + 36) =~= uuid_text(id1));
    assert(n2.subrange(start, start + 36) =~= uuid_text(id2));
    if n1 == n2 {
        lemma_uuid_text_injective(id1, id2);
    }
}

/// A generated name is always a key file name: it is not hidden and is none
/// of the ignored names.
pub proof fn lemma_generated_name_is_key_file(ts: Seq<char>, id: Seq<u8>)
    ensures
        is_key_file(generated_name(ts, id), false),
{
    reveal_strlit("UTC--");
    reveal_strlit("Z--");
    reveal_strlit("thumbs.db");
    reveal_strlit("address_book.json");
    reveal_strlit("dapps_policy.json");
    reveal_strlit("dapps_accounts.json");
    reveal_strlit("dapps_history.json");
    reveal_strlit("vault.json");
    let n = generated_name(ts, id);
    assert(n[0] == 'U');
    if ignored_names().contains(n) {
        let i = choose|i: int| 0 <= i < ignored_names().len() && ignored_names()[i] == n;
        assert(ignored_names()[i][0] != 'U');
    }
}

/// The name under which `record` is stored when written at `timestamp`.
pub open spec fn filename_for(record: KeyRecord, timestamp: Seq<char>) -> Seq<char> {
    match record.filename {
        Some(f) => f@,
        None => generated_name(timestamp, record.id@),
    }
}

/// The name given to a record with id `id` that is written at `timestamp`:
/// `UTC--<timestamp>Z--<id as text>`.
pub fn generated_filename(timestamp: &str, id: &[u8; 16]) -> (r: String)
    ensures
        r@ == generated_name(timestamp@, id@),
{
    proof {
        reveal_strlit("UTC--");
        reveal_strlit("Z--");
    }
    let mut out = "UTC--".to_string();
    out.append(timestamp);
    out.append("Z--");
    let u = uuid_string(id);
    out.append(u.as_str());
    out
}

/// The name under which `record` is stored when written at `timestamp`: its
/// own file name where it has one, a generated one otherwise.
pub fn storage_filename(record: &KeyRecord, timestamp: &str) -> (r: String)
    ensures
        r@ == filename_for(*record, timestamp@),
{
    match &record.filename {
        Some(f) => f.clone(),
        None => generated_filename(timestamp, &record.id),
    }
}

/// A decimal digit.
pub open spec fn is_digit(c: char) -> bool {
    '0' <= c <= '9'
}

/// The time as `<year>-MM-DDTHH-MM-SS`: a year of at least one character,
/// then month, day, hour, minute and second of two digits each.
pub open spec fn timestamp_shape(t: Seq<char>) -> bool {
    let o = t.len() - 15;
    &&& t.len() >= 16
    &&& t[o] == '-' && t[o + 3] == '-' && t[o + 6] == 'T' && t[o + 9] == '-' && t[o + 12] == '-'
    &&& is_digit(t[o + 1]) && is_digit(t[o + 2])
    &&& is_digit(t[o + 4]) && is_digit(t[o + 5])
    &&& is_digit(t[o + 7]) && is_digit(t[o + 8])
    &&& is_digit(t[o + 10]) && is_digit(t[o + 11])
    &&& is_digit(t[o + 13]) && is_digit(t[o + 14])
}

/// Relies on `time::now_utc` and `time::strftime`: the current UTC time in the
/// given format. The value depends on the clock; for the format of file names
/// the call always succeeds (every specifier in it is known and the calendar
/// fields of `now_utc` are in range) and writes the year with `{}`, the other
/// fields with `{:02}`.
#[verifier::external_body]
fn utc_now_formatted(format: &str) -> (r: Option<String>)
    ensures
        r is None ==> format@ != "%Y-%m-%dT%H-%M-%S"@,
        r matches Some(t) ==> (format@ == "%Y-%m-%dT%H-%M-%S"@ ==> timestamp_shape(t@)),
{
    time::strftime(format, &time::now_utc()).ok()
}

/// The current UTC time to the second, as used in generated file names
/// (`2017-03-15T10-42-07`).
pub fn current_timestamp() -> (r: String)
    ensures
        timestamp_shape(r@),
{
    let format = "%Y-%m-%dT%H-%M-%S";
    proof {
        reveal_strlit("%Y-%m-%dT%H-%M-%S");
    }
    utc_now_formatted(format).unwrap()
}

/// The name under which `record` is to be written now: its own file name
/// where it has one; otherwise a name generated from the current time and its
/// id.
pub fn insert_filename(record: &KeyRecord) -> (r: String)
    ensures
        record.filename matches Some(f) ==> r@ == f@,
        record.filename is None ==> exists|ts: Seq<char>|
            timestamp_shape(ts) && r@ == #[trigger] generated_name(ts, record.id@),
{
    match &record.filename {
        Some(f) => f.clone(),
        None => {
            let ts = current_timestamp();
            let n = storage_filename(record, ts.as_str());
            assert(timestamp_shape(ts@) && n@ == generated_name(ts@, record.id@));
            n
        },
    }
}

} // verus!
