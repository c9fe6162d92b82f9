use civ_dedup::file_hash::hash_bytes;
use civ_dedup::index::GroupIndex;
use civ_dedup::report::Report;

const HELLO: &str = "2cf24dba5fb0a30e26e83b2ac5b9e29e1b161e5c1fa7425e73043362938b9824";
const WORLD: &str = "486ea46224d1bb4fb680f34f7c9ad96a8f24ec88be73ea8e5a6c65260e9cb8a7";

fn record(index: &mut GroupIndex, path: &str, content: &[u8]) {
    let digest = hash_bytes(content).unwrap();
    index.record(&digest, path.to_string());
}

#[test]
fn a_new_index_has_no_entry() {
    let index = GroupIndex::new();
    assert_eq!(index.len(), 0);
    assert!(index.entries().is_empty());
}

#[test]
fn the_first_file_of_a_digest_makes_its_entry() {
    let mut index = GroupIndex::new();
    record(&mut index, "a", b"hello");
    assert_eq!(index.len(), 1);
    assert_eq!(index.entries()[0].hash, HELLO);
    assert_eq!(index.entries()[0].files, vec!["a".to_string()]);
    assert_eq!(index.entries()[0].len(), 1);
}

#[test]
fn a_further_file_of_a_digest_is_appended_to_its_entry() {
    let mut index = GroupIndex::new();
    record(&mut index, "a", b"hello");
    record(&mut index, "b", b"world");
    record(&mut index, "c", b"hello");
    record(&mut index, "d", b"hello");
    record(&mut index, "e", b"world");
    assert_eq!(index.len(), 2);
    let entries = index.entries();
    assert_eq!(entries[0].hash, HELLO);
    assert_eq!(entries[0].files, vec!["a".to_string(), "c".to_string(), "d".to_string()]);
    assert_eq!(entries[1].hash, WORLD);
    assert_eq!(entries[1].files, vec!["b".to_string(), "e".to_string()]);
}

#[test]
fn the_same_path_recorded_twice_is_listed_twice() {
    let mut index = GroupIndex::new();
    record(&mut index, "a", b"hello");
    record(&mut index, "a", b"hello");
    assert_eq!(index.into_entries()[0].files, vec!["a".to_string(), "a".to_string()]);
}

#[test]
fn keys_are_unique_and_no_entry_is_empty() {
    let mut index = GroupIndex::new();
    for (at, content) in [&b"x"[..], &b"y"[..], &b"x"[..], &b"z"[..], &b"y"[..], &b"x"[..]]
        .into_iter()
        .enumerate()
    {
        record(&mut index, &format!("file{}", at), content);
    }
    let entries = index.entries();
    assert_eq!(entries.len(), 3);
    for (i, entry) in entries.iter().enumerate() {
        assert!(!entry.files.is_empty());
        for other in &entries[i + 1..] {
            assert_ne!(entry.hash, other.hash);
        }
    }
    let listed: usize = entries.iter().map(|entry| entry.files.len()).sum();
    assert_eq!(listed, 6);
}

#[test]
fn the_report_drops_entries_of_one_file() {
    let mut index = GroupIndex::new();
    record(&mut index, "a", b"hello");
    record(&mut index, "b", b"world");
    record(&mut index, "c", b"hello");
    let report = Report::build(index);
    assert_eq!(report.count(), 1);
    assert!(!report.is_empty());
    assert_eq!(report.groups()[0].hash, HELLO);
    assert_eq!(report.groups()[0].files, vec!["a".to_string(), "c".to_string()]);
}

#[test]
fn the_report_of_an_empty_index_is_empty() {
    let report = Report::build(GroupIndex::new());
    assert_eq!(report.count(), 0);
    assert!(report.is_empty());
    assert!(report.into_groups().is_empty());
}

#[test]
fn the_report_keeps_the_order_of_the_index() {
    let mut index = GroupIndex::new();
    record(&mut index, "w1", b"world");
    record(&mut index, "lone", b"alone");
    record(&mut index, "h1", b"hello");
    record(&mut index, "h2", b"hello");
    record(&mut index, "w2", b"world");
    let groups = Report::build(index).into_groups();
    assert_eq!(groups.len(), 2);
    assert_eq!(groups[0].hash, WORLD);
    assert_eq!(groups[0].files, vec!["w1".to_string(), "w2".to_string()]);
    assert_eq!(groups[1].hash, HELLO);
    assert_eq!(groups[1].files, vec!["h1".to_string(), "h2".to_string()]);
}
