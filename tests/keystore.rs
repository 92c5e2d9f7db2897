use ethstore::directory::{
    commit_insert, find_to_remove, keep_readable, key_file_names, records_of, vault_names,
    DirEntry, StoredRecord, VaultEntry,
};
use ethstore::filename::{
    current_timestamp, generated_filename, ignored_files, insert_filename, is_hidden,
    is_ignored, is_key_file_entry, storage_filename,
};
use ethstore::ident::uuid_string;
use ethstore::record::{Error, KeyRecord};

fn record(seed: u8, filename: Option<&str>) -> KeyRecord {
    KeyRecord {
        id: [seed; 16],
        address: [seed.wrapping_add(1); 20],
        version: 3,
        crypto: vec![seed, 1, 2, 3],
        name: "Test".to_string(),
        meta: "{}".to_string(),
        filename: filename.map(|f| f.to_string()),
    }
}

fn entry(name: &str, is_dir: bool) -> DirEntry {
    DirEntry { name: name.to_string(), is_dir }
}

fn stored(name: &str, r: KeyRecord) -> StoredRecord {
    StoredRecord { filename: name.to_string(), record: r }
}

fn sample_id() -> [u8; 16] {
    [
        0x3f, 0x8a, 0x00, 0x01, 0xb2, 0xc4, 0x4d, 0xe5, 0x9a, 0x10, 0xff, 0xee, 0x01, 0x23,
        0x45, 0x67,
    ]
}

#[test]
fn uuid_string_is_hyphenated_lower_hex() {
    assert_eq!(uuid_string(&sample_id()), "3f8a0001-b2c4-4de5-9a10-ffee01234567");
    assert_eq!(uuid_string(&[0u8; 16]), "00000000-0000-0000-0000-000000000000");
}

#[test]
fn generated_filename_has_fixed_shape() {
    let name = generated_filename("2017-03-15T10-42-07", &sample_id());
    assert_eq!(name, "UTC--2017-03-15T10-42-07Z--3f8a0001-b2c4-4de5-9a10-ffee01234567");
}

#[test]
fn storage_filename_prefers_own_name() {
    let named = record(1, Some("a.json"));
    assert_eq!(storage_filename(&named, "2017-03-15T10-42-07"), "a.json");
    let unnamed = record(0, None);
    assert_eq!(
        storage_filename(&unnamed, "2017-03-15T10-42-07"),
        "UTC--2017-03-15T10-42-07Z--00000000-0000-0000-0000-000000000000"
    );
}

#[test]
fn insert_filename_generates_name_for_unnamed_record() {
    let mut r = record(7, None);
    r.id = sample_id();
    let name = insert_filename(&r);
    assert!(name.starts_with("UTC--"));
    assert!(name.ends_with("Z--3f8a0001-b2c4-4de5-9a10-ffee01234567"));
    // "UTC--" + 19 characters of time + "Z--" + 36 characters of id
    assert_eq!(name.len(), 5 + 19 + 3 + 36);
    let ts = current_timestamp();
    assert_eq!(ts.len(), 19);
    assert_eq!(&ts[4..5], "-");
    assert_eq!(&ts[10..11], "T");
}

#[test]
fn insert_filename_keeps_given_name() {
    let r = record(2, Some("b.json"));
    assert_eq!(insert_filename(&r), "b.json");
}

#[test]
fn generated_names_differ_by_id() {
    let a = generated_filename("2017-03-15T10-42-07", &[1u8; 16]);
    let b = generated_filename("2017-03-15T10-42-07", &[2u8; 16]);
    assert_ne!(a, b);
}

#[test]
fn ignored_and_hidden_names() {
    assert_eq!(ignored_files().len(), 6);
    for name in ["thumbs.db", "address_book.json", "dapps_policy.json", "dapps_accounts.json", "dapps_history.json", "vault.json"] {
        assert!(is_ignored(name));
        assert!(!is_key_file_entry(name, false));
    }
    assert!(!is_ignored("a.json"));
    assert!(is_hidden(".a.json"));
    assert!(!is_hidden("a.json"));
    assert!(!is_hidden(""));
    assert!(is_key_file_entry("a.json", false));
    assert!(!is_key_file_entry("a.json", true));
    assert!(!is_key_file_entry(".a.json", false));
}

#[test]
fn listing_skips_reserved_hidden_and_directories() {
    let entries = vec![
        entry("UTC--2017-03-15T10-42-07Z--x", false),
        entry("address_book.json", false),
        entry(".hidden.json", false),
        entry("vault1", true),
        entry("vault.json", false),
        entry("b.json", false),
        entry("thumbs.db", false),
    ];
    assert_eq!(key_file_names(&entries), vec!["UTC--2017-03-15T10-42-07Z--x".to_string(), "b.json".to_string()]);
    assert!(key_file_names(&Vec::new()).is_empty());
}

#[test]
fn unreadable_files_are_left_out() {
    let read = vec![
        ("a.json".to_string(), Ok(record(1, Some("a.json")))),
        ("junk".to_string(), Err(Error::Custom("bad json".to_string()))),
        ("b.json".to_string(), Ok(record(2, Some("b.json")))),
    ];
    let files = keep_readable(read);
    assert_eq!(files.len(), 2);
    assert_eq!(files[0].filename, "a.json");
    assert_eq!(files[1].filename, "b.json");
    let records = records_of(files);
    assert_eq!(records.len(), 2);
    assert_eq!(records[0].id, [1u8; 16]);
    assert_eq!(records[1].id, [2u8; 16]);
}

#[test]
fn commit_keeps_record_under_new_name() {
    let r = record(4, None);
    let kept = commit_insert(r, "a.json".to_string(), Ok(()), Ok(())).ok().unwrap();
    assert_eq!(kept.filename, Some("a.json".to_string()));
    assert_eq!(kept.id, [4u8; 16]);
    assert_eq!(kept.address, [5u8; 20]);
    assert_eq!(kept.crypto, vec![4, 1, 2, 3]);
    assert_eq!(kept.name, "Test");
    assert_eq!(kept.meta, "{}");
}

#[test]
fn commit_fails_on_write_error() {
    let r = record(4, None);
    let res = commit_insert(r, "a.json".to_string(), Err(Error::Custom("write".to_string())), Ok(()));
    assert!(matches!(res, Err(Error::Custom(ref m)) if m == "write"));
}

#[test]
fn commit_fails_on_hardening_error() {
    let r = record(4, None);
    let res = commit_insert(r, "a.json".to_string(), Ok(()), Err(Error::Io("chmod".to_string())));
    assert!(matches!(res, Err(Error::Io(ref m)) if m == "chmod"));
}

#[test]
fn remove_finds_by_identity_not_filename() {
    let a = record(1, Some("a.json"));
    let files = vec![stored("b.json", record(2, Some("b.json"))), stored("renamed.json", a)];
    let target = record(1, Some("a.json"));
    assert_eq!(find_to_remove(&files, &target).ok(), Some(1));
}

#[test]
fn remove_needs_both_id_and_address() {
    let files = vec![stored("a.json", record(1, Some("a.json")))];
    let mut target = record(1, None);
    target.address = [9u8; 20];
    assert!(matches!(find_to_remove(&files, &target), Err(Error::InvalidAccount)));
    let mut other = record(1, None);
    other.id = [9u8; 16];
    assert!(matches!(find_to_remove(&files, &other), Err(Error::InvalidAccount)));
    assert!(matches!(find_to_remove(&Vec::new(), &other), Err(Error::InvalidAccount)));
}

#[test]
fn remove_one_of_two_leaves_the_other() {
    let read = vec![
        ("a.json".to_string(), Ok(record(1, Some("a.json")))),
        ("b.json".to_string(), Ok(record(2, Some("b.json")))),
    ];
    let mut files = keep_readable(read);
    let i = find_to_remove(&files, &record(1, None)).ok().unwrap();
    assert_eq!(files[i].filename, "a.json");
    files.remove(i);
    assert_eq!(files.len(), 1);
    assert_eq!(files[0].filename, "b.json");
    assert_eq!(files[0].record.id, [2u8; 16]);
}

#[test]
fn should_list_vaults() {
    let entries = vec![
        VaultEntry { name: "vault1".to_string(), has_marker: true },
        VaultEntry { name: "vault2".to_string(), has_marker: true },
    ];
    let vaults = vault_names(&entries);
    assert_eq!(vaults.len(), 2);
    assert!(vaults.iter().any(|v| &*v == "vault1"));
    assert!(vaults.iter().any(|v| &*v == "vault2"));
}

#[test]
fn vaults_without_marker_are_excluded() {
    let entries = vec![
        VaultEntry { name: "v1".to_string(), has_marker: true },
        VaultEntry { name: "stuff".to_string(), has_marker: false },
        VaultEntry { name: "v2".to_string(), has_marker: true },
    ];
    assert_eq!(vault_names(&entries), vec!["v1".to_string(), "v2".to_string()]);
    assert!(vault_names(&Vec::new()).is_empty());
}

#[test]
fn unnamed_record_is_named_stored_and_loaded() {
    let mut a = record(5, None);
    a.id = sample_id();
    let name = insert_filename(&a);
    assert!(name.starts_with("UTC--"));
    assert!(name.ends_with("Z--3f8a0001-b2c4-4de5-9a10-ffee01234567"));
    let kept = commit_insert(a.clone(), name.clone(), Ok(()), Ok(())).ok().unwrap();
    assert_eq!(kept.filename, Some(name.clone()));

    let listed = key_file_names(&vec![entry(&name, false)]);
    assert_eq!(listed, vec![name.clone()]);
    let files = keep_readable(vec![(listed[0].clone(), Ok(kept))]);
    let loaded = records_of(files);
    assert_eq!(loaded.len(), 1);
    assert_eq!(loaded[0].id, a.id);
    assert_eq!(loaded[0].address, a.address);
    assert_eq!(loaded[0].crypto, a.crypto);
    assert_eq!(loaded[0].filename, Some(name));
}

#[test]
fn two_created_vaults_are_listed() {
    let entries = vec![
        VaultEntry { name: "v1".to_string(), has_marker: true },
        VaultEntry { name: "v2".to_string(), has_marker: true },
    ];
    let mut vaults = vault_names(&entries);
    vaults.sort();
    assert_eq!(vaults, vec!["v1".to_string(), "v2".to_string()]);
}

#[test]
fn timestamp_has_two_digit_fields() {
    let ts = current_timestamp();
    let tail = &ts[ts.len() - 15..];
    let b = tail.as_bytes();
    assert_eq!(b[0], b'-');
    assert_eq!(b[3], b'-');
    assert_eq!(b[6], b'T');
    assert_eq!(b[9], b'-');
    assert_eq!(b[12], b'-');
    for i in [1usize, 2, 4, 5, 7, 8, 10, 11, 13, 14] {
        assert!(b[i].is_ascii_digit());
    }
}

#[test]
fn generated_names_differ_by_timestamp() {
    let a = generated_filename("2017-03-15T10-42-07", &[1u8; 16]);
    let b = generated_filename("2017-03-15T10-42-08", &[1u8; 16]);
    assert_ne!(a, b);
    assert!(is_key_file_entry(&a, false));
}
