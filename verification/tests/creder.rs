use keri::acdc::{compact_acdc, expand_acdc};
use keri::creder::{Creder, Event};
use keri::data::Sad;
use keri::error::KeriError;
use keri::event::{assemble, create, current_version, Draft, Version};
use keri::keys::KeySet;
use keri::store::KeriStore;
use std::collections::HashMap;

fn tree(json: &str) -> Sad {
    Sad::from_json(json).unwrap()
}

/// A store of self-addressing data only.
#[derive(Default)]
struct Sads {
    sads: HashMap<String, Sad>,
}

impl Sads {
    fn holding(sads: &[Sad]) -> Self {
        let mut store = Sads::default();
        for sad in sads {
            store.sads.insert(sad.get_text("d").unwrap().clone(), sad.clone());
        }
        store
    }
}

impl KeriStore for Sads {
    fn prefix(&self) -> String {
        String::new()
    }

    fn insert_keys(&mut self, _pre: &str, _keys: &KeySet) -> Result<(), KeriError> {
        Err(KeriError::Value)
    }

    fn insert_sad(&mut self, _sad: &str) -> Result<(), KeriError> {
        Err(KeriError::Value)
    }

    fn insert_acdc(&mut self, _acdc: &str, _issued: bool) -> Result<(), KeriError> {
        Err(KeriError::Value)
    }

    fn insert_key_event(&mut self, _pre: &str, _event: &str) -> Result<(), KeriError> {
        Err(KeriError::Value)
    }

    fn insert_transaction_event(&mut self, _pre: &str, _event: &str) -> Result<(), KeriError> {
        Err(KeriError::Value)
    }

    fn get_current_keys(&self, _pre: &str) -> Result<KeySet, KeriError> {
        Err(KeriError::NotFound)
    }

    fn get_next_keys(&self, _pre: &str) -> Result<KeySet, KeriError> {
        Err(KeriError::NotFound)
    }

    fn get_sad(&self, said: &str) -> Result<Sad, KeriError> {
        self.sads.get(said).cloned().ok_or(KeriError::NotFound)
    }

    fn get_acdc(&self, _said: &str) -> Result<String, KeriError> {
        Err(KeriError::NotFound)
    }

    fn get_key_event(&self, _pre: &str, _version: u32) -> Result<String, KeriError> {
        Err(KeriError::NotFound)
    }

    fn get_transaction_event(&self, _pre: &str, _version: u32) -> Result<String, KeriError> {
        Err(KeriError::NotFound)
    }

    fn get_latest_establishment_event(&self, _pre: &str) -> Result<(String, u128), KeriError> {
        Err(KeriError::NotFound)
    }

    fn get_latest_establishment_event_as_of_sn(
        &self,
        _pre: &str,
        _sn: u32,
    ) -> Result<(String, u128), KeriError> {
        Err(KeriError::NotFound)
    }

    fn get_latest_transaction_event(&self, _pre: &str) -> Result<String, KeriError> {
        Err(KeriError::NotFound)
    }

    fn get_latest_key_event_said(&self, _pre: &str) -> Result<String, KeriError> {
        Err(KeriError::NotFound)
    }

    fn get_latest_establishment_event_said(&self, _pre: &str) -> Result<(String, u128), KeriError> {
        Err(KeriError::NotFound)
    }

    fn get_latest_establishment_event_said_as_of_sn(
        &self,
        _pre: &str,
        _sn: u32,
    ) -> Result<(String, u128), KeriError> {
        Err(KeriError::NotFound)
    }

    fn get_kel(&self, _pre: &str) -> Result<Vec<String>, KeriError> {
        Err(KeriError::NotFound)
    }

    fn get_tel(&self, _pre: &str) -> Result<Vec<String>, KeriError> {
        Err(KeriError::NotFound)
    }

    fn count_key_events(&self, _pre: &str) -> Result<usize, KeriError> {
        Ok(0)
    }

    fn count_transaction_events(&self, _pre: &str) -> Result<usize, KeriError> {
        Ok(0)
    }

    fn count_establishment_events(&self, _pre: &str) -> Result<usize, KeriError> {
        Ok(0)
    }
}

/// A serialization of the protocol `ident` whose version string declares
/// its true size; `rest` is what follows the version string.
fn sized(ident: &str, rest: &str) -> String {
    let size = r#"{"v":"KERI10JSON000000_"#.len() + rest.len();
    format!(r#"{{"v":"{ident}10JSON{size:06x}_{rest}"#)
}

fn draft(data: &str) -> Draft {
    Draft {
        schema: "S1".to_string(),
        issuer: "E1".to_string(),
        data: tree(data),
        recipient: None,
        salts: None,
        stamp: "2024-01-01T00:00:00+00:00".to_string(),
        status: None,
        source: None,
        rules: None,
        disclosable: None,
        field_salts: vec![],
        major: 1,
        minor: 0,
        kind: "JSON".to_string(),
    }
}

#[test]
fn built_credential_refers_to_its_subject_by_digest() {
    let data = tree(r#"{"a":1}"#);
    let (creder, sads) =
        create("S1", "E1", &data, None, None, None, None, None, None, None, None, None).unwrap();
    assert_eq!(sads.len(), 1);
    let subject = &sads[0];
    let subject_said = subject.get_text("d").unwrap();
    assert_ne!(subject_said, creder.said());
    assert_eq!(creder.crd().get_text("a"), Some(subject_said));
    assert_eq!(creder.crd().get_text("d"), Some(creder.said()));
    // The subject carries the instant of issuance and the attributes.
    let stamp = subject.get_text("dt").unwrap();
    assert!(chrono::DateTime::parse_from_rfc3339(stamp).is_ok());
    assert_eq!(subject.get("a").unwrap().to_json().unwrap(), "1");
    assert_eq!(creder.issuer().unwrap(), "E1");
    assert_eq!(creder.schema().unwrap(), "S1");
    assert_eq!(creder.status().unwrap(), None);
    assert!(!creder.crd().contains_key("u"));
    assert!(!creder.crd().contains_key("e"));
    assert_eq!(creder.kind(), "JSON");
    assert_eq!(creder.code(), "E");
}

#[test]
fn assembled_credential_is_a_function_of_its_draft() {
    let (a, sads) = assemble(&draft(r#"{"a":1}"#)).unwrap();
    let (b, _) = assemble(&draft(r#"{"a":1}"#)).unwrap();
    let (c, _) = assemble(&draft(r#"{"a":2}"#)).unwrap();
    assert_eq!(a.said(), b.said());
    assert_eq!(a.raw(), b.raw());
    assert_ne!(a.said(), c.said());
    let subject = sads[0].get_text("d").unwrap();
    assert_eq!(
        sads[0].to_json().unwrap(),
        format!(r#"{{"d":"{subject}","dt":"2024-01-01T00:00:00+00:00","a":1}}"#)
    );
    let said = a.said();
    assert_eq!(
        a.raw(),
        &format!(r#"{{"v":"ACDC10JSON000091_","d":"{said}","i":"E1","s":"S1","a":"{subject}"}}"#)
    );
    assert_eq!(a.raw().len(), 0x91);
    assert_eq!(a.crd().to_json().unwrap(), *a.raw());
}

#[test]
fn attributes_keep_their_own_instant() {
    let (_, sads) = assemble(&draft(r#"{"x":"y","dt":"2020-02-02T02:02:02+00:00"}"#)).unwrap();
    let subject = sads[0].get_text("d").unwrap();
    assert_eq!(
        sads[0].to_json().unwrap(),
        format!(r#"{{"d":"{subject}","dt":"2020-02-02T02:02:02+00:00","x":"y"}}"#)
    );
}

#[test]
fn private_credential_carries_salts() {
    let data = tree(r#"{"a":1}"#);
    let (creder, sads) = create(
        "S1", "E1", &data, Some("ERecipient"), Some(true), Some("0AAsalt"), Some("ERegistry"),
        None, None, None, None, None,
    )
    .unwrap();
    assert_eq!(creder.crd().get_text("u").unwrap(), "0AAsalt");
    assert_eq!(sads[0].get_text("u").unwrap(), "0AAsalt");
    assert_eq!(sads[0].get_text("i").unwrap(), "ERecipient");
    assert_eq!(creder.status().unwrap(), Some("ERegistry".to_string()));
    // Fresh salts where none is given.
    let (creder, sads) =
        create("S1", "E1", &data, None, Some(true), None, None, None, None, None, None, None)
            .unwrap();
    assert_eq!(creder.crd().get_text("u").unwrap().len(), 24);
    assert_eq!(sads[0].get_text("u").unwrap().len(), 24);
    assert_ne!(creder.crd().get_text("u"), sads[0].get_text("u"));
}

#[test]
fn blocks_join_in_order() {
    let mut d = draft(r#"{"a":1}"#);
    d.source = Some(tree(r#"{"d":"","parent":{"d":"","n":"EParent"}}"#));
    d.rules = Some(tree(r#"{"d":"","usage":"none"}"#));
    d.disclosable = Some(tree(r#"{"name":"Ann","age":30}"#));
    d.field_salts = vec!["0AAone".to_string(), "0AAtwo".to_string()];
    let (creder, sads) = assemble(&d).unwrap();
    // The edge node, the edges, the rules, the two fields, the subject.
    assert_eq!(sads.len(), 6);
    assert_eq!(sads[0].get_text("n").unwrap(), "EParent");
    assert_eq!(creder.crd().get_text("e"), sads[1].get_text("d"));
    assert_eq!(creder.crd().get_text("r"), sads[2].get_text("d"));
    assert_eq!(sads[3].get_text("u").unwrap(), "0AAone");
    assert_eq!(sads[3].get("value").unwrap().to_json().unwrap(), r#""Ann""#);
    assert_eq!(sads[4].get_text("u").unwrap(), "0AAtwo");
    assert_eq!(sads[4].get("value").unwrap().to_json().unwrap(), "30");
    assert_eq!(creder.crd().get_text("a"), sads[5].get_text("d"));
    assert_eq!(sads[5].get_text("name"), sads[3].get_text("d"));
    assert_eq!(sads[5].get_text("age"), sads[4].get_text("d"));
    let keys: Vec<&str> = match creder.crd() {
        Sad::Dict(entries) => entries.iter().map(|(k, _)| k.as_str()).collect(),
        _ => vec![],
    };
    assert_eq!(keys, vec!["v", "d", "i", "s", "a", "e", "r"]);
}

#[test]
fn drafts_that_cannot_be_assembled() {
    let mut d = draft(r#"{"a":1}"#);
    d.kind = "CBOR".to_string();
    assert_eq!(assemble(&d).err(), Some(KeriError::Primitive));
    assert_eq!(assemble(&draft("[1]")).err(), Some(KeriError::Conversion));
    let mut d = draft(r#"{"a":1}"#);
    d.source = Some(tree(r#"{"parent":{"n":"EParent"}}"#));
    assert_eq!(assemble(&d).err(), Some(KeriError::Conversion));
    let mut d = draft(r#"{"a":1}"#);
    d.disclosable = Some(tree(r#"{"name":"Ann"}"#));
    assert_eq!(assemble(&d).err(), Some(KeriError::Value));
    d.disclosable = Some(tree(r#"["name"]"#));
    assert_eq!(assemble(&d).err(), Some(KeriError::Conversion));
    let data = tree(r#"{"a":1}"#);
    let old = Version { major: 0, minor: 9 };
    assert_eq!(current_version(), Version { major: 1, minor: 0 });
    assert_eq!(
        create("S1", "E1", &data, None, None, None, None, None, None, None, Some(&old), None).err(),
        Some(KeriError::Primitive)
    );
    assert_eq!(
        create("S1", "E1", &data, None, None, None, None, None, None, None, None, Some("MGPK"))
            .err(),
        Some(KeriError::Primitive)
    );
}

#[test]
fn serializations_are_read_with_care() {
    let (creder, _) = assemble(&draft(r#"{"a":1}"#)).unwrap();
    let raw = creder.raw().clone();
    let read = Creder::new_with_raw(raw.as_bytes()).unwrap();
    assert_eq!(read.said(), creder.said());
    assert_eq!(read.raw(), &raw);
    // What follows the declared size is not part of the credential.
    let longer = format!("{raw}-GAB0AAAAAAAAAAAAAAAAAAAAAAB");
    assert_eq!(Creder::new_with_raw(longer.as_bytes()).unwrap().raw(), &raw);
    // A serialization that is shorter than it declares.
    assert_eq!(Creder::new_with_raw(raw[..raw.len() - 1].as_bytes()).err(), Some(KeriError::Decoding));
    assert_eq!(Creder::new_with_raw(b"").err(), Some(KeriError::Decoding));
    // A number that is no integer, behind a valid version string.
    let float = sized("ACDC", r#"","d":"","a":1.5}"#);
    assert_eq!(Creder::new_with_raw(float.as_bytes()).err(), Some(KeriError::Decoding));
    let whole = sized("ACDC", &format!(r#"","d":"{}","a":15}}"#, creder.said()));
    assert!(Creder::new_with_raw(whole.as_bytes()).is_ok());
    // No digest field.
    let bare = sized("ACDC", r#"","a":"b"}"#);
    assert_eq!(Creder::new_with_raw(bare.as_bytes()).err(), Some(KeriError::Conversion));
    // No mapping.
    let list = r#"["ACDC10JSON000020_","aaaaaaaa"]"#;
    assert_eq!(list.len(), 0x20);
    assert_eq!(Creder::new_with_raw(list.as_bytes()).err(), Some(KeriError::Conversion));
    // An event is no credential, and a credential is no event.
    assert_eq!(Event::new_with_raw(raw.as_bytes()).err(), Some(KeriError::Primitive));
    let event =
        sized("KERI", &format!(r#"","t":"ixn","d":"{}","i":"E1","s":"1"}}"#, creder.said()));
    let read = Event::new_with_raw(event.as_bytes()).unwrap();
    assert_eq!(read.said(), creder.said());
    assert_eq!(read.pre().unwrap(), "E1");
    assert_eq!(read.ilk().unwrap(), "ixn");
    assert_eq!(read.raw(), &event);
    assert_eq!(Creder::new_with_raw(event.as_bytes()).err(), Some(KeriError::Primitive));
}

#[test]
fn building_wants_version_and_digest() {
    assert_eq!(
        Creder::new_with_ked(&tree(r#"{"v":"ACDC10JSON000000_"}"#), None, None).err(),
        Some(KeriError::Conversion)
    );
    assert_eq!(
        Creder::new_with_ked(&tree(r#"{"d":""}"#), None, None).err(),
        Some(KeriError::Primitive)
    );
}

#[test]
fn compact_expand_compact_is_compact() {
    let mut d = draft(r#"{"a":1}"#);
    d.rules = Some(tree(r#"{"d":"","usage":{"d":"","l":"none"}}"#));
    let (creder, sads) = assemble(&d).unwrap();
    let store = Sads::holding(&sads);
    let (compacted, none) = compact_acdc(&creder).unwrap();
    assert_eq!(compacted.said(), creder.said());
    assert!(none.is_empty());

    let paths = [vec!["a"], vec!["r"], vec!["r", "usage"]];
    let expanded = expand_acdc(&compacted, &paths, &store).unwrap();
    assert_ne!(expanded.said(), creder.said());
    assert_eq!(expanded.crd().get("a").unwrap().get("a").unwrap().to_json().unwrap(), "1");
    assert_eq!(
        expanded.crd().get("r").unwrap().get("usage").unwrap().get_text("l").unwrap(),
        "none"
    );
    let (again, subs) = compact_acdc(&expanded).unwrap();
    assert_eq!(again.said(), creder.said());
    assert_eq!(again.raw(), compacted.raw());
    assert_eq!(subs.len(), 3);

    // Only what is named is expanded.
    let partly = expand_acdc(&compacted, &[vec!["a"]], &store).unwrap();
    assert_eq!(partly.crd().get_text("r"), creder.crd().get_text("r"));
    // Nothing named, nothing expanded.
    let same = expand_acdc(&compacted, &[], &store).unwrap();
    assert_eq!(same.raw(), compacted.raw());
    let same = expand_acdc(&compacted, &[vec![]], &store).unwrap();
    assert_eq!(same.raw(), compacted.raw());
    // A path that leads nowhere, a field that holds no digest, a digest that is not held.
    assert_eq!(expand_acdc(&compacted, &[vec!["x"]], &store).err(), Some(KeriError::Conversion));
    assert_eq!(
        expand_acdc(&compacted, &[vec!["a", "a", "b"]], &store).err(),
        Some(KeriError::Conversion)
    );
    assert_eq!(expand_acdc(&compacted, &[vec!["i"]], &store).err(), Some(KeriError::NotFound));
}

#[test]
fn digests_beyond_ascii_are_refused() {
    let odd = sized("ACDC", "\",\"d\":\"1\u{e9}\u{e9}\",\"a\":1}");
    assert_eq!(Creder::new_with_raw(odd.as_bytes()).err(), Some(KeriError::Decoding));
    let odd = sized("KERI", "\",\"t\":\"ixn\",\"d\":\"1\u{e9}\u{e9}\"}");
    assert_eq!(Event::new_with_raw(odd.as_bytes()).err(), Some(KeriError::Decoding));
    let ked = tree("{\"v\":\"ACDC10JSON000000_\",\"d\":\"1\u{e9}\u{e9}\"}");
    assert_eq!(Creder::new_with_ked(&ked, None, None).err(), Some(KeriError::Conversion));
    // A code of variable size with nothing behind it.
    for empty in ["5AAA", "6BAA", "8AAAAAAA", "9AABAAAA", "3AAAAA==", "EAAA.AAA"] {
        let odd = sized("ACDC", &format!("\",\"d\":\"{empty}\",\"a\":1}}"));
        assert_eq!(Creder::new_with_raw(odd.as_bytes()).err(), Some(KeriError::Decoding));
        let odd = sized("KERI", &format!("\",\"t\":\"ixn\",\"d\":\"{empty}\"}}"));
        assert_eq!(Event::new_with_raw(odd.as_bytes()).err(), Some(KeriError::Decoding));
        let ked = tree(&format!("{{\"v\":\"ACDC10JSON000000_\",\"d\":\"{empty}\"}}"));
        assert_eq!(Creder::new_with_ked(&ked, None, None).err(), Some(KeriError::Conversion));
    }
    let (creder, _) = assemble(&draft(r#"{"a":1}"#)).unwrap();
    let (compacted, _) = compact_acdc(&creder).unwrap();
    assert_eq!(compacted.code(), creder.code());
    assert_eq!(compacted.kind(), creder.kind());
    assert_eq!(compacted.crd().get_text("d"), Some(compacted.said()));
}
