use keri::creder::Event;
use keri::data::Sad;
use keri::error::KeriError;
use keri::parsing::{needs_check, plan_write, route, AttachmentKind, Route};
use keri::verification::{
    chains_to_saids, check_anchor, check_fresh, check_state, enforce_operator, holds_not,
    judge_schema, normalize_operators, read_operators, Operator,
    DEFAULT_CREDENTIAL_EXPIRY_SECONDS,
};
use keri::visited::VisitedSet;

fn tree(json: &str) -> Sad {
    Sad::from_json(json).unwrap()
}

fn ops(tokens: &[&str]) -> Vec<String> {
    tokens.iter().map(|t| t.to_string()).collect()
}

#[test]
fn provenance_lists_its_credentials() {
    let group = r#"{"d":"EGroup","o":"AND","first":{"n":"EA"},"second":{"n":"EB","s":"ES"}}"#;
    assert_eq!(chains_to_saids(&tree(group)), Ok(ops(&["EA", "EB"])));
    let groups = format!(r#"[{group},{{"third":{{"n":"EC"}}}}]"#);
    assert_eq!(chains_to_saids(&tree(&groups)), Ok(ops(&["EA", "EB", "EC"])));
    assert_eq!(chains_to_saids(&tree("{}")), Ok(vec![]));
    assert_eq!(chains_to_saids(&tree("[]")), Ok(vec![]));
    assert_eq!(chains_to_saids(&tree(r#""EA""#)), Err(KeriError::Verification));
    assert_eq!(chains_to_saids(&tree("7")), Err(KeriError::Verification));
    assert_eq!(chains_to_saids(&tree(r#"["EA"]"#)), Err(KeriError::Conversion));
    assert_eq!(chains_to_saids(&tree(r#"{"first":{"s":"ES"}}"#)), Err(KeriError::Conversion));
    assert_eq!(chains_to_saids(&tree(r#"{"first":"EA"}"#)), Err(KeriError::Conversion));
    assert_eq!(chains_to_saids(&tree(r#"{"first":{"n":5}}"#)), Err(KeriError::Conversion));
}

#[test]
fn operators_are_normalised() {
    assert_eq!(normalize_operators(&ops(&[]), true), Ok(Operator::I2I));
    assert_eq!(normalize_operators(&ops(&[]), false), Ok(Operator::NI2I));
    assert_eq!(normalize_operators(&ops(&["I2I"]), false), Ok(Operator::I2I));
    assert_eq!(normalize_operators(&ops(&["NI2I"]), true), Ok(Operator::NI2I));
    assert_eq!(normalize_operators(&ops(&["DI2I"]), true), Ok(Operator::DI2I));
    // Tokens that are no unary operator are dropped before the default.
    assert_eq!(normalize_operators(&ops(&["AND", "OR"]), true), Ok(Operator::I2I));
    assert_eq!(normalize_operators(&ops(&["AND", "NI2I", "x"]), true), Ok(Operator::NI2I));
    assert_eq!(normalize_operators(&ops(&["I2I", "NI2I"]), true), Err(KeriError::Validation));
    assert_eq!(normalize_operators(&ops(&["I2I", "I2I"]), true), Err(KeriError::Validation));
    assert_eq!(normalize_operators(&ops(&["NOT"]), true), Err(KeriError::Value));
    assert_eq!(normalize_operators(&ops(&["I2I", "NOT"]), true), Err(KeriError::Value));
    assert!(holds_not(&ops(&["a", "NOT"])));
    assert!(!holds_not(&ops(&["not", "NOTE"])));
}

#[test]
fn operators_are_read_from_the_edge() {
    assert_eq!(read_operators(&tree(r#"{"n":"EA"}"#)), Ok(vec![]));
    assert_eq!(read_operators(&tree(r#"{"n":"EA","o":"I2I"}"#)), Ok(ops(&["I2I"])));
    assert_eq!(read_operators(&tree(r#"{"o":["NOT","I2I"]}"#)), Ok(ops(&["NOT", "I2I"])));
    assert_eq!(read_operators(&tree(r#"{"o":["I2I",1]}"#)), Err(KeriError::Conversion));
    assert_eq!(read_operators(&tree(r#"{"o":{"x":"I2I"}}"#)), Err(KeriError::Conversion));
}

#[test]
fn operators_are_enforced() {
    let subject = tree(r#"{"d":"ES","i":"EIssuer","a":1}"#);
    assert_eq!(enforce_operator(Operator::I2I, &subject, "EIssuer"), Ok(()));
    assert_eq!(enforce_operator(Operator::I2I, &subject, "EOther"), Err(KeriError::Validation));
    assert_eq!(enforce_operator(Operator::NI2I, &subject, "EOther"), Ok(()));
    assert_eq!(enforce_operator(Operator::DI2I, &subject, "EIssuer"), Err(KeriError::Validation));
    let anonymous = tree(r#"{"d":"ES"}"#);
    assert_eq!(enforce_operator(Operator::I2I, &anonymous, "EIssuer"), Err(KeriError::Conversion));
    assert_eq!(enforce_operator(Operator::NI2I, &anonymous, "EIssuer"), Ok(()));
}

#[test]
fn freshness_counts_whole_seconds() {
    let stamp = "2024-01-01T00:00:00+00:00";
    assert_eq!(check_fresh("2024-01-01T00:00:10+00:00", stamp, 10), Ok(()));
    assert_eq!(check_fresh("2024-01-01T00:00:10.999+00:00", stamp, 10), Ok(()));
    assert_eq!(check_fresh("2024-01-01T00:00:11+00:00", stamp, 10), Err(KeriError::Validation));
    // The same instant in another zone.
    assert_eq!(check_fresh("2024-01-01T01:00:10+01:00", stamp, 10), Ok(()));
    assert_eq!(check_fresh("2024-01-01T01:00:11+01:00", stamp, 10), Err(KeriError::Validation));
    // An event from the future is fresh.
    assert_eq!(check_fresh("2023-01-01T00:00:00+00:00", stamp, 0), Ok(()));
    assert_eq!(check_fresh("2024-01-01T00:00:00Z", stamp, 0), Ok(()));
    assert_eq!(check_fresh("yesterday", stamp, 10), Err(KeriError::Conversion));
    assert_eq!(check_fresh(stamp, "2024-01-01", 10), Err(KeriError::Conversion));
    assert_eq!(DEFAULT_CREDENTIAL_EXPIRY_SECONDS, 36000000000);
}

fn event(ilk: &str, rest: &str) -> Event {
    let said = "EBdXt3gIXOf2BBWNHdSXCJnFJL5OuQPyM5K0neuniccM";
    let body = format!(r#""t":"{ilk}","d":"{said}","i":"EA"{rest}}}"#);
    let size = r#"{"v":"KERI10JSON000000_","#.len() + body.len();
    let raw = format!(r#"{{"v":"KERI10JSON{size:06x}_",{body}"#);
    Event::new_with_raw(raw.as_bytes()).unwrap()
}

#[test]
fn status_events_are_judged() {
    let now = "2024-01-01T00:00:00+00:00";
    let iss = event("iss", r#","dt":"2023-12-31T23:00:00+00:00""#);
    assert_eq!(check_state(&iss, now, 3600), Ok(true));
    assert_eq!(check_state(&iss, now, 3599), Err(KeriError::Validation));
    let rev = event("rev", r#","dt":"2023-12-31T23:00:00+00:00""#);
    assert_eq!(check_state(&rev, now, 3600), Ok(false));
    // A stale revocation is stale first.
    assert_eq!(check_state(&rev, now, 3599), Err(KeriError::Validation));
    let brv = event("brv", r#","dt":"2023-12-31T23:00:00+00:00""#);
    assert_eq!(check_state(&brv, now, 3600), Ok(false));
    assert_eq!(check_state(&event("iss", ""), now, 3600), Err(KeriError::Conversion));
    assert_eq!(check_state(&event("iss", r#","dt":"soon""#), now, 3600), Err(KeriError::Conversion));
}

#[test]
fn anchors_are_checked() {
    let said = "EBdXt3gIXOf2BBWNHdSXCJnFJL5OuQPyM5K0neuniccM";
    let ixn = event("ixn", r#","a":[{"i":"EOther","s":"0","d":"EX"},{"i":"EMine","s":"0","d":"EY"}]"#);
    assert_eq!(check_anchor(&ixn, said, "EMine"), Ok(()));
    assert_eq!(check_anchor(&ixn, said, "EOther"), Ok(()));
    assert_eq!(check_anchor(&ixn, said, "EY"), Err(KeriError::Verification));
    assert_eq!(check_anchor(&ixn, "EWrongDigest", "EMine"), Err(KeriError::Verification));
    assert_eq!(check_anchor(&event("ixn", r#","a":[]"#), said, "EMine"), Err(KeriError::Verification));
    assert_eq!(check_anchor(&event("ixn", ""), said, "EMine"), Err(KeriError::Conversion));
    assert_eq!(check_anchor(&event("ixn", r#","a":{"i":"EMine"}"#), said, "EMine"), Err(KeriError::Conversion));
    // Every seal has to name what it refers to, also behind a match.
    let broken = event("ixn", r#","a":[{"i":"EMine"},{"d":"EY"}]"#);
    assert_eq!(check_anchor(&broken, said, "EMine"), Err(KeriError::Conversion));
}

#[test]
fn schema_answers_are_judged() {
    assert_eq!(judge_schema(Ok(true)), Ok(()));
    assert_eq!(judge_schema(Ok(false)), Err(KeriError::Validation));
    assert_eq!(judge_schema(Err(KeriError::NotFound)), Err(KeriError::NotFound));
}

#[test]
fn messages_are_routed() {
    let (quadlets, couples, other) = (
        AttachmentKind::AttachedMaterialQuadlets,
        AttachmentKind::SealSourceCouples,
        AttachmentKind::Other,
    );
    for ilk in ["icp", "rot", "ixn"] {
        assert_eq!(route("KERI", Some(ilk), Some(quadlets)), Ok(Route::KeyEvent));
        assert_eq!(route("KERI", Some(ilk), Some(couples)), Err(KeriError::Decoding));
        assert_eq!(route("KERI", Some(ilk), Some(other)), Err(KeriError::Decoding));
        assert_eq!(route("KERI", Some(ilk), None), Err(KeriError::Decoding));
    }
    for ilk in ["vcp", "iss", "rev"] {
        assert_eq!(route("KERI", Some(ilk), Some(couples)), Ok(Route::StatusEvent));
        assert_eq!(route("KERI", Some(ilk), Some(quadlets)), Err(KeriError::Decoding));
    }
    for ilk in ["qry", "bar", "brv", "dip", ""] {
        assert_eq!(route("KERI", Some(ilk), Some(couples)), Err(KeriError::Decoding));
        assert_eq!(route("KERI", Some(ilk), Some(quadlets)), Err(KeriError::Decoding));
    }
    assert_eq!(route("KERI", None, Some(couples)), Err(KeriError::Decoding));
    assert_eq!(route("ACDC", None, Some(couples)), Ok(Route::Credential));
    assert_eq!(route("ACDC", Some("iss"), Some(couples)), Ok(Route::Credential));
    assert_eq!(route("ACDC", None, Some(quadlets)), Err(KeriError::Decoding));
    assert_eq!(route("ACDC", None, None), Err(KeriError::Decoding));
    assert_eq!(route("JSON", Some("icp"), Some(quadlets)), Err(KeriError::Decoding));
}

#[test]
fn visited_set_guards_verification() {
    let mut visited = VisitedSet::new();
    assert!(!visited.contains("EA"));
    assert!(needs_check(None, &visited, "EA"));
    assert!(needs_check(Some(true), &visited, "EA"));
    assert!(!needs_check(Some(false), &visited, "EA"));
    assert!(visited.insert("EA".to_string()));
    assert!(!visited.insert("EA".to_string()));
    assert!(visited.contains("EA"));
    assert!(!visited.contains("EB"));
    assert!(!needs_check(None, &visited, "EA"));
    assert!(needs_check(None, &visited, "EB"));
}

#[test]
fn errors_describe_themselves() {
    assert_eq!(KeriError::Decoding.describe(), "decoding error");
    assert_eq!(KeriError::Validation.describe(), "validation error");
    assert_eq!(KeriError::Verification.describe(), "verification error");
    assert_eq!(KeriError::Value.describe(), "value error");
    assert_eq!(KeriError::Programmer.describe(), "programmer error");
    assert_eq!(KeriError::NotFound.describe(), "not found");
    assert_eq!(KeriError::Conversion.describe(), "conversion error");
    assert_eq!(KeriError::Primitive.describe(), "primitive error");
}

#[test]
fn held_messages_are_not_written() {
    assert_eq!(plan_write(Route::KeyEvent, true), None);
    assert_eq!(plan_write(Route::Credential, true), None);
    assert_eq!(plan_write(Route::KeyEvent, false), Some(Route::KeyEvent));
    assert_eq!(plan_write(Route::StatusEvent, false), Some(Route::StatusEvent));
    assert_eq!(plan_write(Route::Credential, false), Some(Route::Credential));
}
