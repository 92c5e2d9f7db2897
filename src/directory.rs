//! The decisions of the disk directory engine, on the values that the
//! filesystem hands over: which entries are key files, which records a listing
//! yields, which file a removal deletes, when an insertion is kept, and which
//! sub-directories are vaults.
use vstd::prelude::*;
use crate::filename::{generated_name, is_key_file, is_key_file_entry, lemma_generated_name_is_key_file};
use crate::record::{Error, KeyRecord, same_identity, with_filename};

verus! {

/// An entry of a directory listing.
pub struct DirEntry {
    pub name: String,
    pub is_dir: bool,
}

/// A record read from the file `filename` of the directory.
pub struct StoredRecord {
    pub filename: String,
    pub record: KeyRecord,
}

/// A sub-directory of the root, and whether it holds the vault marker file.
pub struct VaultEntry {
    pub name: String,
    pub has_marker: bool,
}

/// The names of the entries of `entries` that may hold key records, in order.
pub open spec fn key_files(entries: Seq<DirEntry>) -> Seq<Seq<char>>
    decreases entries.len(),
{
    if entries.len() == 0 {
        seq![]
    } else {
        let e = entries.last();
        let rest = key_files(entries.drop_last());
        if is_key_file(e.name@, e.is_dir) {
            rest.push(e.name@)
        } else {
            rest
        }
    }
}

/// The entries of `read` whose bytes could be read as a record, in order.
pub open spec fn readable(read: Seq<(String, Result<KeyRecord, Error>)>) -> Seq<StoredRecord>
    decreases read.len(),
{
    if read.len() == 0 {
        seq![]
    } else {
        let rest = readable(read.drop_first());
        match read[0].1 {
            Ok(r) => seq![StoredRecord { filename: read[0].0, record: r }] + rest,
            Err(_) => rest,
        }
    }
}

/// The names of the sub-directories in `entries` that are vaults, in order.
pub open spec fn vaults(entries: Seq<VaultEntry>) -> Seq<Seq<char>>
    decreases entries.len(),
{
    if entries.len() == 0 {
        seq![]
    } else {
        let e = entries.last();
        let rest = vaults(entries.drop_last());
        if e.has_marker {
            rest.push(e.name@)
        } else {
            rest
        }
    }
}

/// The index of the first stored record with the identity of `target`.
pub open spec fn first_with_identity(records: Seq<KeyRecord>, target: KeyRecord) -> Option<int> {
    if exists|i: int| 0 <= i < records.len() && same_identity(#[trigger] records[i], target) {
        Some(
            choose|i: int|
                0 <= i < records.len() && same_identity(#[trigger] records[i], target) && forall|
                    j: int,
                |
                    0 <= j < i ==> !same_identity(#[trigger] records[j], target),
        )
    } else {
        None
    }
}

/// The texts of the strings of `v`.
pub open spec fn names_of(v: Seq<String>) -> Seq<Seq<char>> {
    v.map_values(|s: String| s@)
}

/// The records of `files`, in order.
pub open spec fn records_in(files: Seq<StoredRecord>) -> Seq<KeyRecord> {
    files.map_values(|f: StoredRecord| f.record)
}

/// The names of the directory entries that may hold key records: no
/// sub-directory, no hidden entry, none of the ignored names.
pub fn key_file_names(entries: &Vec<DirEntry>) -> (r: Vec<String>)
    ensures
        names_of(r@) == key_files(entries@),
{
    let mut out: Vec<String> = Vec::new();
    let mut i: usize = 0;
    while i < entries.len()
        invariant
            0 <= i <= entries@.len(),
            names_of(out@) == key_files(entries@.subrange(0, i as int)),
        decreases entries@.len() - i,
    {
        let e = &entries[i];
        proof {
            assert(entries@.subrange(0, i + 1).drop_last() =~= entries@.subrange(0, i as int));
        }
        if is_key_file_entry(e.name.as_str(), e.is_dir) {
            out.push(e.name.clone());
            assert(names_of(out@) =~= key_files(entries@.subrange(0, i + 1)));
        }
        i = i + 1;
    }
    assert(entries@.subrange(0, entries@.len() as int) =~= entries@);
    out
}

/// The records of a listing: each file whose bytes were read as a record,
/// with its name; the files that could not be read are left out.
pub fn keep_readable(read: Vec<(String, Result<KeyRecord, Error>)>) -> (r: Vec<StoredRecord>)
    ensures
        r@ == readable(read@),
{
    let mut out: Vec<StoredRecord> = Vec::new();
    let mut rest = read;
    while rest.len() > 0
        invariant
            out@ + readable(rest@) == readable(read@),
        decreases rest@.len(),
    {
        let ghost before = rest@;
        let (filename, res) = rest.remove(0);
        assert(rest@ =~= before.drop_first());
        match res {
            Ok(record) => {
                let ghost prev = out@;
                out.push(StoredRecord { filename, record });
                assert(out@ + readable(rest@) =~= prev + readable(before));
            },
            Err(_) => {},
        }
    }
    assert(out@ =~= out@ + readable(rest@));
    out
}

/// The records of a listing, without their file names.
pub fn records_of(files: Vec<StoredRecord>) -> (r: Vec<KeyRecord>)
    ensures
        r@ == records_in(files@),
{
    let mut out: Vec<KeyRecord> = Vec::new();
    let mut rest = files;
    while rest.len() > 0
        invariant
            out@ + records_in(rest@) == records_in(files@),
        decreases rest@.len(),
    {
        let ghost before = rest@;
        let f = rest.remove(0);
        assert(rest@ =~= before.drop_first());
        let ghost prev = out@;
        out.push(f.record);
        assert(out@ + records_in(rest@) =~= prev + records_in(before));
    }
    assert(out@ =~= out@ + records_in(rest@));
    out
}

/// The index of the file to delete to remove `target`: the first record with
/// the same id and address, whatever its file name. `InvalidAccount` when no
/// record has that identity.
pub fn find_to_remove(files: &Vec<StoredRecord>, target: &KeyRecord) -> (r: Result<usize, Error>)
    ensures
        match r {
            Ok(i) => first_with_identity(records_in(files@), *target) == Some(i as int),
            Err(e) => e is InvalidAccount && first_with_identity(records_in(files@), *target) is None,
        },
{
    let ghost recs = records_in(files@);
    let mut i: usize = 0;
    while i < files.len()
        invariant
            recs == records_in(files@),
            recs.len() == files@.len(),
            0 <= i <= files@.len(),
            forall|j: int| 0 <= j < i ==> !same_identity(#[trigger] recs[j], *target),
        decreases files@.len() - i,
    {
        if files[i].record.same_identity_as(target) {
            assert(recs[i as int] == files@[i as int].record);
            let ghost k = choose|k: int|
                0 <= k < recs.len() && same_identity(#[trigger] recs[k], *target)
                    && forall|j: int| 0 <= j < k ==> !same_identity(#[trigger] recs[j], *target);
            assert(k == i) by {
                if k > i {
                    assert(!same_identity(recs[i as int], *target));
                }
            }
            return Ok(i);
        }
        assert(recs[i as int] == files@[i as int].record);
        i = i + 1;
    }
    Err(Error::InvalidAccount)
}

/// The result of an insertion once the file has been created: the record
/// under its new file name where both the write and the permission hardening
/// succeeded; otherwise the first failure, and the file is to be deleted.
pub fn commit_insert(
    record: KeyRecord,
    filename: String,
    written: Result<(), Error>,
    hardened: Result<(), Error>,
) -> (r: Result<KeyRecord, Error>)
    ensures
        r is Ok <==> (written is Ok && hardened is Ok),
        r matches Ok(s) ==> with_filename(s, record, filename@),
        written matches Err(e) ==> r == Err::<KeyRecord, Error>(e),
        written is Ok ==> (hardened matches Err(e) ==> r == Err::<KeyRecord, Error>(e)),
{
    match written {
        Err(e) => Err(e),
        Ok(()) => match hardened {
            Err(e) => Err(e),
            Ok(()) => {
                let mut stored = record;
                stored.filename = Some(filename);
                Ok(stored)
            },
        },
    }
}

/// The names of the sub-directories that hold the vault marker file.
pub fn vault_names(entries: &Vec<VaultEntry>) -> (r: Vec<String>)
    ensures
        names_of(r@) == vaults(entries@),
{
    let mut out: Vec<String> = Vec::new();
    let mut i: usize = 0;
    while i < entries.len()
        invariant
            0 <= i <= entries@.len(),
            names_of(out@) == vaults(entries@.subrange(0, i as int)),
        decreases entries@.len() - i,
    {
        let e = &entries[i];
        proof {
            assert(entries@.subrange(0, i + 1).drop_last() =~= entries@.subrange(0, i as int));
        }
        if e.has_marker {
            out.push(e.name.clone());
            assert(names_of(out@) =~= vaults(entries@.subrange(0, i + 1)));
        }
        i = i + 1;
    }
    assert(entries@.subrange(0, entries@.len() as int) =~= entries@);
    out
}

/// No hidden entry and no ignored name is ever listed as a key file, whatever
/// the directory holds, and every listed name is that of an entry that is no
/// directory.
pub proof fn lemma_key_files_exclude_reserved(entries: Seq<DirEntry>)
    ensures
        forall|k: int|
            0 <= k < key_files(entries).len() ==> is_key_file(#[trigger] key_files(entries)[k], false),
        forall|k: int|
            #![trigger key_files(entries)[k]]
            0 <= k < key_files(entries).len() ==> exists|i: int|
                0 <= i < entries.len() && !entries[i].is_dir && #[trigger] entries[i].name@
                    == key_files(entries)[k],
    decreases entries.len(),
{
    if entries.len() > 0 {
        let init = entries.drop_last();
        lemma_key_files_exclude_reserved(init);
        assert forall|k: int|
            #![trigger key_files(entries)[k]]
            0 <= k < key_files(entries).len() implies exists|i: int|
            0 <= i < entries.len() && !entries[i].is_dir && #[trigger] entries[i].name@
                == key_files(entries)[k] by {
            if k < key_files(init).len() {
                let i = choose|i: int|
                    0 <= i < init.len() && !init[i].is_dir && #[trigger] init[i].name@
                        == key_files(init)[k];
                assert(entries[i] == init[i]);
            } else {
                assert(entries[entries.len() - 1].name@ == key_files(entries)[k]);
            }
        }
    }
}

/// A name is listed as a vault exactly when some entry of that name holds the
/// marker file; an entry without it is never listed, whatever else it holds.
pub proof fn lemma_vaults_are_marked_entries(entries: Seq<VaultEntry>)
    ensures
        forall|n: Seq<char>|
            #[trigger] vaults(entries).contains(n) <==> exists|i: int|
                0 <= i < entries.len() && entries[i].has_marker && #[trigger] entries[i].name@ == n,
    decreases entries.len(),
{
    if entries.len() > 0 {
        let init = entries.drop_last();
        let last = entries.last();
        lemma_vaults_are_marked_entries(init);
        assert forall|n: Seq<char>|
            #[trigger] vaults(entries).contains(n) <==> exists|i: int|
                0 <= i < entries.len() && entries[i].has_marker && #[trigger] entries[i].name@
                    == n by {
            if vaults(entries).contains(n) {
                if vaults(init).contains(n) {
                    let i = choose|i: int|
                        0 <= i < init.len() && init[i].has_marker && #[trigger] init[i].name@ == n;
                    assert(entries[i] == init[i]);
                } else {
                    assert(entries[entries.len() - 1] == last);
                }
            }
            if exists|i: int|
                0 <= i < entries.len() && entries[i].has_marker && #[trigger] entries[i].name@ == n {
                let i = choose|i: int|
                    0 <= i < entries.len() && entries[i].has_marker && #[trigger] entries[i].name@
                        == n;
                if i < entries.len() - 1 {
                    assert(init[i] == entries[i]);
                    assert(vaults(init).contains(n));
                    if last.has_marker {
                        assert(vaults(entries) == vaults(init).push(last.name@));
                        assert(vaults(entries)[vaults(init).index_of(n)] == n);
                    }
                } else {
                    assert(vaults(entries) == vaults(init).push(last.name@));
                    assert(vaults(entries)[vaults(init).len() as int] == n);
                }
            }
        }
    }
}

/// Which record a removal finds depends on the records alone: two listings
/// that hold the same records under other file names find the same one.
pub proof fn lemma_removal_ignores_file_names(
    a: Seq<StoredRecord>,
    b: Seq<StoredRecord>,
    target: KeyRecord,
)
    requires
        a.len() == b.len(),
        forall|i: int| 0 <= i < a.len() ==> #[trigger] a[i].record == b[i].record,
    ensures
        first_with_identity(records_in(a), target) == first_with_identity(records_in(b), target),
{
    assert(records_in(a) =~= records_in(b));
}

/// A record kept by an insertion under a file name that is neither hidden nor
/// ignored is the only key file that a listing of a directory holding just
/// that file names, and reading it back yields just that record.
pub proof fn lemma_inserted_record_is_listed(
    record: KeyRecord,
    filename: String,
    stored: KeyRecord,
)
    requires
        is_key_file(filename@, false),
        with_filename(stored, record, filename@),
    ensures
        key_files(seq![DirEntry { name: filename, is_dir: false }]) == seq![filename@],
        records_in(readable(seq![(filename, Ok::<KeyRecord, Error>(stored))])) == seq![stored],
        stored.filename matches Some(f) && f@ == filename@,
{
    let entries = seq![DirEntry { name: filename, is_dir: false }];
    assert(entries.drop_last() =~= Seq::<DirEntry>::empty());
    assert(key_files(Seq::<DirEntry>::empty()) == Seq::<Seq<char>>::empty());
    assert(key_files(entries) =~= seq![filename@]);
    let read = seq![(filename, Ok::<KeyRecord, Error>(stored))];
    assert(read.drop_first() =~= Seq::<(String, Result<KeyRecord, Error>)>::empty());
    assert(readable(Seq::<(String, Result<KeyRecord, Error>)>::empty()) == Seq::<StoredRecord>::empty());
    assert(readable(read) =~= seq![StoredRecord { filename, record: stored }]);
    assert(records_in(readable(read)) =~= seq![stored]);
}

/// A record without a file name, kept by an insertion under the name
/// generated for it, is listed and read back alone from a directory that
/// holds just its file.
pub proof fn lemma_auto_named_record_is_listed(
    record: KeyRecord,
    filename: String,
    stored: KeyRecord,
    ts: Seq<char>,
)
    requires
        record.filename is None,
        filename@ == generated_name(ts, record.id@),
        with_filename(stored, record, filename@),
    ensures
        key_files(seq![DirEntry { name: filename, is_dir: false }]) == seq![filename@],
        records_in(readable(seq![(filename, Ok::<KeyRecord, Error>(stored))])) == seq![stored],
{
    lemma_generated_name_is_key_file(ts, record.id@);
    lemma_inserted_record_is_listed(record, filename, stored);
}

/// Where the entries have distinct names, no vault is listed twice.
pub proof fn lemma_vaults_distinct(entries: Seq<VaultEntry>)
    requires
        forall|i: int, j: int|
            0 <= i < j < entries.len() ==> #[trigger] entries[i].name@ != #[trigger] entries[j].name@,
    ensures
        vaults(entries).no_duplicates(),
    decreases entries.len(),
{
    if entries.len() > 0 {
        let init = entries.drop_last();
        let last = entries.last();
        assert forall|i: int, j: int|
            0 <= i < j < init.len() implies #[trigger] init[i].name@ != #[trigger] init[j].name@ by {
            assert(init[i] == entries[i] && init[j] == entries[j]);
        }
        lemma_vaults_distinct(init);
        if last.has_marker {
            lemma_vaults_are_marked_entries(init);
            if vaults(init).contains(last.name@) {
                let i = choose|i: int|
                    0 <= i < init.len() && init[i].has_marker && #[trigger] init[i].name@
                        == last.name@;
                assert(entries[i] == init[i]);
                assert(entries[i].name@ != entries[entries.len() - 1].name@);
            }
            let v = vaults(entries);
            assert(v == vaults(init).push(last.name@));
            assert forall|a: int, b: int| 0 <= a < v.len() && 0 <= b < v.len() && a != b implies v[a]
                != v[b] by {
                if a < v.len() - 1 && b < v.len() - 1 {
                    assert(v[a] == vaults(init)[a] && v[b] == vaults(init)[b]);
                } else if a == v.len() - 1 {
                    assert(v[b] == vaults(init)[b]);
                } else {
                    assert(v[a] == vaults(init)[a]);
                }
            }
        }
    }
}

} // verus!
