use codefactory::backup::{
    backup_body_start, encode_backup, mark_restored, next_backup_entry, parse_backup,
    write_entry, BackupEntry, ImportResult,
};

fn entry(name: &str, data: &[u8]) -> BackupEntry {
    BackupEntry { name: name.to_string(), data: data.to_vec() }
}

#[test]
fn entries_are_length_prefixed_little_endian() {
    let mut w = Vec::new();
    write_entry(&mut w, "ab", &[7, 8, 9]);
    assert_eq!(w, vec![2, 0, 0, 0, b'a', b'b', 3, 0, 0, 0, 0, 0, 0, 0, 7, 8, 9]);
}

#[test]
fn a_backup_reads_back_what_was_written() {
    let entries = vec![entry("settings.json", b"{\"a\":1}"), entry("codefactory.db", &[0, 1, 2, 255])];
    let bytes = encode_backup(&entries);
    assert!(bytes.starts_with(b"CFBKP01"));
    let parsed = parse_backup(&bytes).ok().unwrap();
    assert_eq!(parsed.len(), 2);
    assert_eq!(parsed[0].name, "settings.json");
    assert_eq!(parsed[0].data, b"{\"a\":1}".to_vec());
    assert_eq!(parsed[1].name, "codefactory.db");
    assert_eq!(parsed[1].data, vec![0, 1, 2, 255]);
    let empty = parse_backup(&encode_backup(&[])).ok().unwrap();
    assert!(empty.is_empty());
}

#[test]
fn foreign_files_are_refused_by_magic() {
    let err = parse_backup(b"PK\x03\x04rest").err().unwrap();
    assert_eq!(err.to_message(), "Not a CodeFactory backup file (bad magic)");
    assert!(backup_body_start(b"CFBKP0").is_err());
    assert_eq!(backup_body_start(b"CFBKP01").ok(), Some(7));
}

#[test]
fn corrupt_entries_are_reported() {
    let mut truncated = b"CFBKP01".to_vec();
    truncated.extend_from_slice(&[5, 0, 0, 0, b'a']);
    assert_eq!(
        parse_backup(&truncated).err().unwrap().to_message(),
        "Corrupt backup file (truncated)"
    );
    let mut short = b"CFBKP01".to_vec();
    write_entry(&mut short, "x", &[1, 2, 3]);
    short.truncate(short.len() - 1);
    assert_eq!(
        parse_backup(&short).err().unwrap().to_message(),
        "Corrupt backup file (data short)"
    );
    let mut bad_name = b"CFBKP01".to_vec();
    bad_name.extend_from_slice(&[1, 0, 0, 0, 0xff, 0, 0, 0, 0, 0, 0, 0, 0]);
    assert!(parse_backup(&bad_name)
        .err()
        .unwrap()
        .to_message()
        .starts_with("Bad entry name: "));
    let mut trailing = encode_backup(&[entry("a", b"z")]);
    trailing.extend_from_slice(&[1, 2, 3]);
    assert_eq!(parse_backup(&trailing).ok().unwrap().len(), 1);
}

#[test]
fn entries_can_be_read_one_at_a_time() {
    let bytes = encode_backup(&[entry("settings.json", b"s"), entry("other", b"o")]);
    let mut pos = backup_body_start(&bytes).ok().unwrap();
    let mut result = ImportResult { restored_settings: false, restored_db: false };
    let mut names = Vec::new();
    while let Some((e, next)) = next_backup_entry(&bytes, pos).ok().unwrap() {
        mark_restored(&mut result, &e.name);
        names.push(e.name);
        pos = next;
    }
    assert_eq!(names, vec!["settings.json".to_string(), "other".to_string()]);
    assert!(result.restored_settings);
    assert!(!result.restored_db);
}
