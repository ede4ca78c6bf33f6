use cesride::{Diger, Indexer, Matter, Siger, Signer};
use keri::error::KeriError;
use keri::keys::{signing_index, KeySet};

fn salted(count: usize, offset: usize, transferable: bool, path: &str) -> KeySet {
    KeySet::generate_from_salt(
        &[7u8; 16], None, Some(count), offset, Some(transferable), path, None, Some(true),
    )
    .unwrap()
}

#[test]
fn salted_keys_are_repeatable() {
    let a = salted(2, 3, true, "p");
    let b = salted(2, 3, true, "p");
    assert_eq!(a.len(), 2);
    assert_eq!(a.keys(), b.keys());
    assert_eq!(a.index_offset(), 3);
    assert!(a.transferable());
    assert_ne!(a.keys()[0], a.keys()[1]);
    assert_ne!(a.keys(), salted(2, 3, true, "q").keys());
    // One key where no count is given, none where none is asked for.
    let one =
        KeySet::generate_from_salt(&[7u8; 16], None, None, 0, None, "p", None, Some(true)).unwrap();
    assert_eq!(one.len(), 1);
    assert!(!one.transferable());
    assert_eq!(salted(0, 0, true, "p").len(), 0);
    // A salt of the wrong size is refused.
    assert_eq!(
        KeySet::generate_from_salt(&[7u8; 3], None, Some(1), 0, None, "p", None, Some(true)).err(),
        Some(KeriError::Primitive)
    );
}

#[test]
fn random_keys_differ() {
    let a = KeySet::generate(None, Some(2), 1, Some(true), "p", None, Some(true)).unwrap();
    let b = KeySet::generate(None, Some(2), 1, Some(true), "p", None, Some(true)).unwrap();
    assert_eq!(a.len(), 2);
    assert_eq!(a.index_offset(), 1);
    assert!(a.transferable());
    assert_ne!(a.keys(), b.keys());
    assert!(!KeySet::generate(None, None, 0, None, "p", None, Some(true)).unwrap().transferable());
}

#[test]
fn verification_keys_and_commitments_follow_the_keys() {
    let set = salted(3, 0, true, "p");
    let verfers = set.verfers_qb64().unwrap();
    let digers = set.digers_qb64().unwrap();
    assert_eq!(verfers.len(), 3);
    assert_eq!(digers.len(), 3);
    for i in 0..3 {
        let signer = Signer::new_with_qb64(&set.keys()[i], Some(true)).unwrap();
        assert_eq!(verfers[i], signer.verfer().qb64().unwrap());
        assert_ne!(verfers[i], set.keys()[i]);
        let diger = Diger::new_with_ser(verfers[i].as_bytes(), None).unwrap();
        assert_eq!(digers[i], diger.qb64().unwrap());
        assert_ne!(digers[i], verfers[i]);
    }
    // A key set that cannot rotate has other verification keys.
    let fixed = KeySet::from_parts(set.keys().clone(), 0, false);
    assert_ne!(fixed.verfers_qb64().unwrap(), verfers);
    assert!(fixed.verfers_qb64().unwrap()[0].starts_with('B'));
    assert!(verfers[0].starts_with('D'));
}

#[test]
fn broken_key_fails_the_set() {
    let set = KeySet::from_parts(vec!["not a key".to_string()], 0, true);
    assert_eq!(set.verfers_qb64().err(), Some(KeriError::Primitive));
    assert_eq!(set.digers_qb64().err(), Some(KeriError::Primitive));
    assert_eq!(set.sign(b"abc").err(), Some(KeriError::Primitive));
}

#[test]
fn signatures_carry_offset_indices() {
    let set = salted(2, 5, true, "p");
    let sigs = set.sign(b"abc").unwrap();
    assert_eq!(sigs.len(), 2);
    let verfers = set.verfers_qb64().unwrap();
    for i in 0..2 {
        let siger = Siger::new_with_qb64(&sigs[i], None).unwrap();
        assert_eq!(siger.index(), 5 + i as u32);
        let verfer = cesride::Verfer::new_with_qb64(&verfers[i]).unwrap();
        assert!(verfer.verify(&siger.raw(), b"abc").unwrap());
        assert!(!verfer.verify(&siger.raw(), b"abd").unwrap());
    }
    let empty = salted(0, 0, true, "p");
    assert_eq!(empty.sign(b"abc").unwrap().len(), 0);
}

#[test]
fn index_beyond_32_bits_is_refused() {
    let keys = salted(2, 0, true, "p").keys().clone();
    let big = KeySet::from_parts(keys.clone(), 100, true);
    assert_eq!(big.sign(b"abc").unwrap().len(), 2);
    // The second index would be 2^32; the first is too large for a signature already.
    let edge = KeySet::from_parts(keys.clone(), u32::MAX as usize, true);
    assert!(edge.sign(b"abc").is_err());
    let over = KeySet::from_parts(keys.clone(), u32::MAX as usize + 1, true);
    assert_eq!(over.sign(b"abc").err(), Some(KeriError::Value));
    let beyond = KeySet::from_parts(keys, usize::MAX, true);
    assert_eq!(beyond.sign(b"abc").err(), Some(KeriError::Value));
}

#[test]
fn scrubbing_empties_the_set() {
    let mut set = salted(2, 4, true, "p");
    set.zeroize();
    assert_eq!(set.len(), 0);
    assert!(set.keys().is_empty());
    assert_eq!(set.index_offset(), 4);
    assert!(set.transferable());
}

#[test]
fn keys_beyond_ascii_are_refused() {
    let set = KeySet::from_parts(vec!["1\u{e9}\u{e9}".to_string()], 0, true);
    assert_eq!(set.verfers_qb64().err(), Some(KeriError::Primitive));
    assert_eq!(set.digers_qb64().err(), Some(KeriError::Primitive));
    assert_eq!(set.sign(b"abc").err(), Some(KeriError::Primitive));
    // A code of variable size with nothing behind it.
    for empty in [
        "5AAA",
        "6BAA",
        "8AAAAAAA",
        "9AABAAAA",
        "3AAAAA==",
        "0AAAAAAAAAAAAAAAAAAAAA==",
        "AAAA AAAA",
    ] {
        let set = KeySet::from_parts(vec![empty.to_string()], 0, true);
        assert_eq!(set.verfers_qb64().err(), Some(KeriError::Primitive));
        assert_eq!(set.sign(b"abc").err(), Some(KeriError::Primitive));
    }
    let far = KeySet::from_parts(vec!["1\u{e9}\u{e9}".to_string()], usize::MAX, true);
    assert_eq!(far.sign(b"abc").err(), Some(KeriError::Value));
}

#[test]
fn signing_index_is_offset_plus_position() {
    assert_eq!(signing_index(0, 0), Some(0));
    assert_eq!(signing_index(5, 2), Some(7));
    assert_eq!(signing_index(u32::MAX as usize, 0), Some(u32::MAX));
    assert_eq!(signing_index(u32::MAX as usize - 1, 1), Some(u32::MAX));
    assert_eq!(signing_index(u32::MAX as usize, 1), None);
    assert_eq!(signing_index(0, u32::MAX as usize + 1), None);
    assert_eq!(signing_index(usize::MAX, usize::MAX), None);
}
