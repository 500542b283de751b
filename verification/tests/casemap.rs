use myriad::casemap::key_of;
use myriad::casemap::same_key;
use myriad::config::CaseMap;

fn collide(map: CaseMap, a: &str, b: &str) -> bool {
    same_key(&key_of(map, a), &key_of(map, b))
}

#[test]
fn ascii_folds_letters_only() {
    assert_eq!(key_of(CaseMap::Ascii, "Al[]"), vec![0x61, 0x6c, 0x5b, 0x5d]);
    assert!(collide(CaseMap::Ascii, "Alice", "aLICE"));
    assert!(!collide(CaseMap::Ascii, "alice[", "alice{"));
    assert!(!collide(CaseMap::Ascii, "alice", "alice_"));
    assert!(!collide(CaseMap::Ascii, "Ä", "ä"));
}

#[test]
fn rfc1459_folds_brackets_and_caret() {
    assert_eq!(key_of(CaseMap::Rfc1459, "A[\\]^"), vec![0x61, 0x7b, 0x7c, 0x7d, 0x7e]);
    assert!(collide(CaseMap::Rfc1459, "nick[a]", "NICK{A}"));
    assert!(collide(CaseMap::Rfc1459, "a\\b", "a|b"));
    assert!(collide(CaseMap::Rfc1459, "a^", "a~"));
    assert!(!collide(CaseMap::Rfc1459, "a_", "a\u{7f}"));
}

#[test]
fn rfc1459_strict_leaves_the_caret() {
    assert_eq!(key_of(CaseMap::Rfc1459Strict, "A[\\]^"), vec![0x61, 0x7b, 0x7c, 0x7d, 0x5e]);
    assert!(collide(CaseMap::Rfc1459Strict, "nick[a]", "NICK{A}"));
    assert!(!collide(CaseMap::Rfc1459Strict, "a^", "a~"));
}

#[test]
fn rfc7613_folds_by_unicode_lower_case() {
    assert_eq!(key_of(CaseMap::Rfc7613, "ÄB"), vec![0xe4, 0x62]);
    assert!(collide(CaseMap::Rfc7613, "Ärger", "ärGER"));
    assert!(!collide(CaseMap::Rfc7613, "a[", "a{"));
}

#[test]
fn same_key_compares_whole_keys() {
    assert!(same_key(&vec![], &vec![]));
    assert!(same_key(&vec![1, 2], &vec![1, 2]));
    assert!(!same_key(&vec![1, 2], &vec![1]));
    assert!(!same_key(&vec![1, 2], &vec![1, 3]));
}
