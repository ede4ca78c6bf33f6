use cesride::data::Value;
use cesride::{Matter, Saider};
use keri::data::Sad;
use keri::error::KeriError;
use keri::said::{compact_sad, saidify, saidify_value};

fn tree(json: &str) -> Sad {
    Sad::from_json(json).unwrap()
}

fn text(sad: &Sad) -> String {
    sad.to_json().unwrap()
}

/// The digest that the encoding library derives for a datum by itself.
fn digest(json: &str) -> String {
    let parsed: serde_json::Value = serde_json::from_str(json).unwrap();
    Saider::saidify(&Value::from(&parsed), None, None, None, None).unwrap().0.qb64().unwrap()
}

#[test]
fn json_round_trip_keeps_order() {
    let json = r#"{"z":1,"a":[true,null,"x",-5],"m":{"k":"v"}}"#;
    assert_eq!(text(&tree(json)), json);
    assert_eq!(tree(json).get("a").unwrap().to_json().unwrap(), r#"[true,null,"x",-5]"#);
    assert!(tree(json).get("missing").is_none());
    assert_eq!(tree(json).get_text("z"), None);
    assert!(tree(json).contains_key("m"));
}

#[test]
fn json_with_other_numbers_is_refused() {
    assert_eq!(Sad::from_json(r#"{"a":1.5}"#).err(), Some(KeriError::Decoding));
    assert_eq!(Sad::from_json(r#"{"a":1e300}"#).err(), Some(KeriError::Decoding));
    assert_eq!(Sad::from_json(r#"{"a":18446744073709551615}"#).err(), Some(KeriError::Decoding));
    assert_eq!(Sad::from_json(r#"{"a":"#).err(), Some(KeriError::Decoding));
    assert!(Sad::from_json(r#"{"a":9223372036854775807}"#).is_ok());
}

#[test]
fn compaction_takes_blocks_out_deepest_first() {
    let mut sad = tree(
        r#"{"d":"","a":{"d":"","x":1,"deep":{"d":"","y":2}},"plain":{"z":3},"list":[{"d":"","w":4},5]}"#,
    );
    let mut sads = Vec::new();
    let (out, all) = compact_sad(&mut sad, &mut sads).unwrap();
    assert_eq!(text(&out), text(&sad));
    assert_eq!(all.len(), 3);
    assert_eq!(sads.len(), 3);

    let deep = digest(r#"{"d":"","y":2}"#);
    assert_eq!(text(&sads[0]), format!(r#"{{"d":"{deep}","y":2}}"#));
    let a = digest(&format!(r#"{{"d":"","x":1,"deep":"{deep}"}}"#));
    assert_eq!(text(&sads[1]), format!(r#"{{"d":"{a}","x":1,"deep":"{deep}"}}"#));
    let item = digest(r#"{"d":"","w":4}"#);
    assert_eq!(text(&sads[2]), format!(r#"{{"d":"{item}","w":4}}"#));

    let body = format!(r#""a":"{a}","plain":{{"z":3}},"list":["{item}",5]"#);
    let top = digest(&format!(r#"{{"d":"",{body}}}"#));
    assert_eq!(text(&sad), format!(r#"{{"d":"{top}",{body}}}"#));
    assert_eq!(top.len(), 44);
    assert_ne!(top, a);
}

#[test]
fn compaction_is_idempotent() {
    let mut sad = tree(r#"{"d":"","a":{"d":"","x":1},"b":{"c":{"d":"","y":[1,2]}}}"#);
    let mut sads = Vec::new();
    compact_sad(&mut sad, &mut sads).unwrap();
    assert_eq!(sads.len(), 2);
    let once = text(&sad);
    let mut again = Vec::new();
    let (out, all) = compact_sad(&mut sad, &mut again).unwrap();
    assert_eq!(text(&sad), once);
    assert_eq!(text(&out), once);
    assert!(again.is_empty());
    assert!(all.is_empty());
}

#[test]
fn compaction_renews_a_stale_digest() {
    let fresh = digest(r#"{"d":"","x":1}"#);
    let mut sad = tree(&format!(r#"{{"d":"{}","x":2}}"#, fresh));
    let mut sads = Vec::new();
    compact_sad(&mut sad, &mut sads).unwrap();
    assert_eq!(sad.get_text("d"), Some(&digest(r#"{"d":"","x":2}"#)));
    assert_ne!(sad.get_text("d"), Some(&fresh));
}

#[test]
fn compaction_wants_a_mapping() {
    let mut sad = tree(r#"[{"d":""}]"#);
    let mut sads = vec![tree(r#"{"k":1}"#)];
    assert_eq!(compact_sad(&mut sad, &mut sads).err(), Some(KeriError::Conversion));
    assert_eq!(text(&sad), r#"[{"d":""}]"#);
    assert_eq!(sads.len(), 1);
}

#[test]
fn compaction_keeps_what_was_collected_before() {
    let mut sad = tree(r#"{"a":{"d":"","x":1}}"#);
    let mut sads = vec![tree(r#"{"k":1}"#)];
    let (_, all) = compact_sad(&mut sad, &mut sads).unwrap();
    assert_eq!(all.len(), 2);
    assert_eq!(text(&all[0]), r#"{"k":1}"#);
    assert_eq!(sad.get_text("a"), sads[1].get_text("d"));
    // A mapping without a digest of its own gets none.
    assert!(!sad.contains_key("d"));
}

#[test]
fn digests_are_filled_in_nested_first() {
    let out = saidify(r#"{"d":"","x":{"d":"","y":1},"l":[{"d":"","z":2}]}"#, None, None).unwrap();
    let sad = tree(&out);
    let inner = sad.get("x").unwrap().get_text("d").unwrap().clone();
    assert_eq!(inner.len(), 44);
    // The nested mappings stay in place; only their digests are filled in.
    assert_eq!(text(sad.get("x").unwrap()), format!(r#"{{"d":"{inner}","y":1}}"#));
    // The digest of a mapping is that of the mapping with the field blanked.
    assert_eq!(inner, digest(r#"{"d":"","y":1}"#));
    let item = digest(r#"{"d":"","z":2}"#);
    let top = digest(&format!(
        r#"{{"d":"","x":{{"d":"{inner}","y":1}},"l":[{{"d":"{item}","z":2}}]}}"#
    ));
    assert_eq!(sad.get_text("d"), Some(&top));
}

#[test]
fn digesting_again_changes_nothing() {
    let once = saidify(r#"{"d":"","x":{"d":"","y":1}}"#, None, None).unwrap();
    let twice = saidify(&once, None, None).unwrap();
    assert_eq!(once, twice);
    // A digest that is there stays, right or wrong.
    let kept = r#"{"d":"EXISTING","x":1}"#;
    assert_eq!(saidify(kept, None, None).unwrap(), kept);
    // The same content gives the same digest.
    assert_eq!(saidify(r#"{"d":"","x":1}"#, None, None), saidify(r#"{"d":"","x":1}"#, None, None));
    assert_ne!(saidify(r#"{"d":"","x":1}"#, None, None), saidify(r#"{"d":"","x":2}"#, None, None));
}

#[test]
fn digests_go_under_the_label() {
    let out = saidify(r#"{"d":"","id":"","x":1}"#, Some("id"), None).unwrap();
    let sad = tree(&out);
    assert_eq!(sad.get_text("d"), Some(&String::new()));
    assert_eq!(sad.get_text("id").unwrap().len(), 44);
    assert_eq!(saidify("not json", None, None), Err(KeriError::Decoding));
}

#[test]
fn overwrite_renews_digests() {
    let stale = digest(r#"{"d":"","x":1}"#);
    let mut sad = tree(&format!(r#"{{"d":"{stale}","x":2}}"#));
    let (out, salted) = saidify_value(&mut sad, None, None, Some(true)).unwrap();
    assert!(!salted);
    assert_eq!(text(&out), text(&sad));
    assert_eq!(sad.get_text("d"), Some(&digest(r#"{"d":"","x":2}"#)));
    // Without overwrite the stale digest stays.
    let mut kept = tree(&format!(r#"{{"d":"{stale}","x":2}}"#));
    saidify_value(&mut kept, None, None, None).unwrap();
    assert_eq!(kept.get_text("d"), Some(&stale));
    // A digest that cannot be read cannot be renewed.
    let mut broken = tree(r#"{"d":"garbage","x":2}"#);
    assert_eq!(
        saidify_value(&mut broken, None, None, Some(true)).err(),
        Some(KeriError::Primitive)
    );
    assert_eq!(text(&broken), r#"{"d":"garbage","x":2}"#);
}

#[test]
fn anonymizing_salts_the_innermost_mappings() {
    let mut sad = tree(r#"{"d":"","x":{"d":"","y":1}}"#);
    let (_, salted) = saidify_value(&mut sad, None, Some(true), None).unwrap();
    // The nested mapping was salted, so the outer one is not.
    assert!(!salted);
    assert!(!sad.contains_key("u"));
    let inner = sad.get("x").unwrap();
    assert_eq!(inner.get_text("u").unwrap().len(), 24);
    assert_eq!(inner.get_text("d").unwrap().len(), 44);
    let mut flat = tree(r#"{"d":"","y":1}"#);
    let (_, salted) = saidify_value(&mut flat, None, Some(true), None).unwrap();
    assert!(salted);
    assert!(flat.contains_key("u"));
}

#[test]
fn digest_beyond_ascii_cannot_be_renewed() {
    let mut odd = tree("{\"d\":\"1\u{e9}\u{e9}\",\"x\":2}");
    assert_eq!(saidify_value(&mut odd, None, None, Some(true)).err(), Some(KeriError::Primitive));
    let mut empty = tree("{\"d\":\"5AAA\",\"x\":2}");
    assert_eq!(saidify_value(&mut empty, None, None, Some(true)).err(), Some(KeriError::Primitive));
    let mut padded = tree("{\"d\":\"3AAAAA==\",\"x\":2}");
    assert_eq!(
        saidify_value(&mut padded, None, None, Some(true)).err(),
        Some(KeriError::Primitive)
    );
    // Without overwrite it stays as it is.
    let (out, _) = saidify_value(&mut odd, None, None, None).unwrap();
    assert_eq!(text(&out), "{\"d\":\"1\u{e9}\u{e9}\",\"x\":2}");
}

#[test]
fn digested_structure_is_left_alone_with_salting() {
    let mut sad = tree(r#"{"d":"","a":{"d":"","x":1},"l":[{"d":"","y":2}]}"#);
    let (first, _) = saidify_value(&mut sad, None, None, None).unwrap();
    let (again, salted) = saidify_value(&mut sad, None, Some(true), None).unwrap();
    assert!(!salted);
    assert_eq!(text(&again), text(&first));
    assert_eq!(saidify(&text(&first), None, Some(true)).unwrap(), text(&first));
    // Salted once, it is left alone as well.
    let mut fresh = tree(r#"{"d":"","a":{"d":"","x":1}}"#);
    let (once, _) = saidify_value(&mut fresh, None, Some(true), None).unwrap();
    let (twice, salted) = saidify_value(&mut fresh, None, Some(true), None).unwrap();
    assert!(!salted);
    assert_eq!(text(&twice), text(&once));
}
