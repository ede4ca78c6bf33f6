use cesride::data::Value;
use cesride::{Matter, Saider};
use keri::acdc::{
    attach_source, check_anchoring, expand_acdc, issue_acdc, revoke_acdc, seal_for,
};
use keri::creder::{Creder, Event, SealSourceCouple, SealSourceCouples};
use keri::data::Sad;
use keri::error::KeriError;
use keri::event::create;
use keri::keys::KeySet;
use keri::parsing::{ingest_messages, ingest_stream, ingest_stream_at};
use keri::verification::{DEFAULT_CHAIN_DEPTH, DEFAULT_CREDENTIAL_EXPIRY_SECONDS};
use keri::store::{EventProducer, EventVerifier, KeriStore, SchemaValidator};
use keri::verification::{acdc_status, acdc_status_at, verify_acdc, verify_acdc_at};
use keri::visited::VisitedSet;
use std::cell::RefCell;
use std::collections::HashMap;

const NOW: &str = "2024-01-01T00:00:00+00:00";
const LATELY: &str = "2023-12-31T23:59:00+00:00";
const WINDOW: i64 = 3600;

/// Fills size and digest into an event or datum given as JSON text.
fn sealed(json: &str) -> (String, String) {
    let parsed: serde_json::Value = serde_json::from_str(json).unwrap();
    let (saider, sad) = Saider::saidify(&Value::from(&parsed), None, None, None, None).unwrap();
    (saider.qb64().unwrap(), sad.to_json().unwrap())
}

#[derive(Default)]
struct MemStore {
    sads: HashMap<String, Sad>,
    acdcs: HashMap<String, String>,
    kels: HashMap<String, Vec<String>>,
    tels: HashMap<String, Vec<String>>,
    writes: usize,
}

fn latest(log: Option<&Vec<String>>) -> Result<String, KeriError> {
    log.and_then(|l| l.last()).cloned().ok_or(KeriError::NotFound)
}

impl KeriStore for MemStore {
    fn prefix(&self) -> String {
        "EController".to_string()
    }

    fn insert_keys(&mut self, _pre: &str, _keys: &KeySet) -> Result<(), KeriError> {
        self.writes += 1;
        Ok(())
    }

    fn insert_sad(&mut self, sad: &str) -> Result<(), KeriError> {
        let tree = Sad::from_json(sad)?;
        let said = tree.get_text("d").ok_or(KeriError::Value)?.clone();
        self.sads.insert(said, tree);
        self.writes += 1;
        Ok(())
    }

    fn insert_acdc(&mut self, acdc: &str, _issued: bool) -> Result<(), KeriError> {
        let creder = Creder::new_with_raw(acdc.as_bytes())?;
        self.acdcs.insert(creder.said().clone(), acdc.to_string());
        self.writes += 1;
        Ok(())
    }

    fn insert_key_event(&mut self, pre: &str, event: &str) -> Result<(), KeriError> {
        self.kels.entry(pre.to_string()).or_default().push(event.to_string());
        self.writes += 1;
        Ok(())
    }

    fn insert_transaction_event(&mut self, pre: &str, event: &str) -> Result<(), KeriError> {
        self.tels.entry(pre.to_string()).or_default().push(event.to_string());
        self.writes += 1;
        Ok(())
    }

    fn get_current_keys(&self, _pre: &str) -> Result<KeySet, KeriError> {
        KeySet::generate_from_salt(&[1u8; 16], None, Some(1), 0, Some(true), "k", None, Some(true))
    }

    fn get_next_keys(&self, _pre: &str) -> Result<KeySet, KeriError> {
        KeySet::generate_from_salt(&[1u8; 16], None, Some(1), 0, Some(true), "n", None, Some(true))
    }

    fn get_sad(&self, said: &str) -> Result<Sad, KeriError> {
        self.sads.get(said).cloned().ok_or(KeriError::NotFound)
    }

    fn get_acdc(&self, said: &str) -> Result<String, KeriError> {
        self.acdcs.get(said).cloned().ok_or(KeriError::NotFound)
    }

    fn get_key_event(&self, pre: &str, version: u32) -> Result<String, KeriError> {
        self.kels
            .get(pre)
            .and_then(|l| l.get(version as usize))
            .cloned()
            .ok_or(KeriError::NotFound)
    }

    fn get_transaction_event(&self, pre: &str, version: u32) -> Result<String, KeriError> {
        self.tels
            .get(pre)
            .and_then(|l| l.get(version as usize))
            .cloned()
            .ok_or(KeriError::NotFound)
    }

    fn get_latest_establishment_event(&self, pre: &str) -> Result<(String, u128), KeriError> {
        Ok((self.get_key_event(pre, 0)?, 0))
    }

    fn get_latest_establishment_event_as_of_sn(
        &self,
        pre: &str,
        _sn: u32,
    ) -> Result<(String, u128), KeriError> {
        self.get_latest_establishment_event(pre)
    }

    fn get_latest_transaction_event(&self, pre: &str) -> Result<String, KeriError> {
        latest(self.tels.get(pre))
    }

    fn get_latest_key_event_said(&self, pre: &str) -> Result<String, KeriError> {
        let text = latest(self.kels.get(pre))?;
        Ok(Event::new_with_raw(text.as_bytes())?.said().clone())
    }

    fn get_latest_establishment_event_said(&self, pre: &str) -> Result<(String, u128), KeriError> {
        let (text, sn) = self.get_latest_establishment_event(pre)?;
        Ok((Event::new_with_raw(text.as_bytes())?.said().clone(), sn))
    }

    fn get_latest_establishment_event_said_as_of_sn(
        &self,
        pre: &str,
        _sn: u32,
    ) -> Result<(String, u128), KeriError> {
        self.get_latest_establishment_event_said(pre)
    }

    fn get_kel(&self, pre: &str) -> Result<Vec<String>, KeriError> {
        self.kels.get(pre).cloned().ok_or(KeriError::NotFound)
    }

    fn get_tel(&self, pre: &str) -> Result<Vec<String>, KeriError> {
        self.tels.get(pre).cloned().ok_or(KeriError::NotFound)
    }

    fn count_key_events(&self, pre: &str) -> Result<usize, KeriError> {
        Ok(self.kels.get(pre).map(|l| l.len()).unwrap_or(0))
    }

    fn count_transaction_events(&self, pre: &str) -> Result<usize, KeriError> {
        Ok(self.tels.get(pre).map(|l| l.len()).unwrap_or(0))
    }

    fn count_establishment_events(&self, pre: &str) -> Result<usize, KeriError> {
        Ok(self.kels.get(pre).map(|l| l.len().min(1)).unwrap_or(0))
    }
}

struct Schemas {
    accept: bool,
    asked: RefCell<usize>,
}

impl Schemas {
    fn accepting() -> Self {
        Schemas { accept: true, asked: RefCell::new(0) }
    }

    fn refusing() -> Self {
        Schemas { accept: false, asked: RefCell::new(0) }
    }
}

impl SchemaValidator for Schemas {
    fn verify(&self, _schema: &str, _raw: &str) -> Result<bool, KeriError> {
        *self.asked.borrow_mut() += 1;
        Ok(self.accept)
    }
}

/// Reports an event as held where the store holds a datum or an event under
/// its digest, and counts how often it is asked.
struct Verifiers {
    asked: RefCell<usize>,
}

impl EventVerifier for Verifiers {
    fn verify_key_event<S: KeriStore>(
        &self,
        store: &S,
        event: &Event,
        _attachment: &str,
        _deep: Option<bool>,
        verifying: &mut VisitedSet,
        _depth: usize,
    ) -> Result<bool, KeriError> {
        *self.asked.borrow_mut() += 1;
        assert!(verifying.contains(event.said()));
        let pre = event.pre()?;
        let held = store.get_kel(&pre).unwrap_or_default();
        Ok(held.iter().any(|text| text.starts_with(event.raw().as_str())))
    }

    fn verify_transaction_event<S: KeriStore>(
        &self,
        store: &S,
        event: &Event,
        couples: &SealSourceCouples,
        _deep: Option<bool>,
        verifying: &mut VisitedSet,
        _depth: usize,
    ) -> Result<bool, KeriError> {
        *self.asked.borrow_mut() += 1;
        assert!(verifying.contains(event.said()));
        assert_eq!(couples.value.len(), 1);
        let pre = event.pre()?;
        let held = store.get_tel(&pre).unwrap_or_default();
        Ok(held.iter().any(|text| text.starts_with(event.raw().as_str())))
    }
}

/// Makes unsigned events with digests of their own.
struct Producer {
    stamp: String,
}

impl EventProducer for Producer {
    fn issue(&self, said: &str, registry: &str) -> Result<(String, String), KeriError> {
        Ok(sealed(&format!(
            r#"{{"v":"KERI10JSON000000_","t":"iss","d":"","i":"{said}","s":"0","ri":"{registry}","dt":"{}"}}"#,
            self.stamp
        )))
    }

    fn revoke(&self, said: &str, registry: &str, prior: &str) -> Result<(String, String), KeriError> {
        Ok(sealed(&format!(
            r#"{{"v":"KERI10JSON000000_","t":"rev","d":"","i":"{said}","s":"1","ri":"{registry}","p":"{prior}","dt":"{}"}}"#,
            self.stamp
        )))
    }

    fn interact(
        &self,
        keys: &KeySet,
        pre: &str,
        dig: &str,
        sn: u128,
        data: &Sad,
    ) -> Result<(String, String), KeriError> {
        assert_eq!(keys.len(), 1);
        Ok(sealed(&format!(
            r#"{{"v":"KERI10JSON000000_","t":"ixn","d":"","i":"{pre}","s":"{sn:x}","p":"{dig}","a":{}}}"#,
            data.to_json()?
        )))
    }
}

const ISSUER: &str = "EIssuerIssuerIssuerIssuerIssuerIssuerIssuer0";
const REGISTRY: &str = "ERegistryRegistryRegistryRegistryRegistry000";
const SCHEMA: &str = "ESchemaSchemaSchemaSchemaSchemaSchemaSchema0";

/// A store with the inception event of the issuer.
fn store_with_issuer() -> MemStore {
    let mut store = MemStore::default();
    let (_, icp) = sealed(&format!(
        r#"{{"v":"KERI10JSON000000_","t":"icp","d":"","i":"{ISSUER}","s":"0","a":[]}}"#
    ));
    store.insert_key_event(ISSUER, &icp).unwrap();
    store
}

/// What an issuance gave.
struct Issued {
    said: String,
    ixn: String,
    iss: String,
    acdc: String,
    sads: Vec<Sad>,
}

/// Issues a credential and keeps it with its events in the store, as an
/// intake would.
fn issue_into(store: &mut MemStore, data: &str, source: Option<&str>, recipient: Option<&str>) -> Issued {
    let producer = Producer { stamp: LATELY.to_string() };
    let (said, ixn, iss, acdc, sads) = issue_acdc(
        &*store, &producer, REGISTRY, ISSUER, SCHEMA, data, recipient, None, source, None, None,
    )
    .unwrap();
    store.insert_key_event(ISSUER, &ixn).unwrap();
    store.insert_transaction_event(&said, &iss).unwrap();
    store.insert_acdc(&acdc, true).unwrap();
    for sad in &sads {
        store.insert_sad(&sad.to_json().unwrap()).unwrap();
    }
    Issued { said, ixn, iss, acdc, sads }
}

/// The seal source couples that `text` ends with.
fn couples_of(store: &MemStore, ixn: &str) -> SealSourceCouples {
    let event = Event::new_with_raw(ixn.as_bytes()).unwrap();
    let sn = store
        .get_kel(ISSUER)
        .unwrap()
        .iter()
        .position(|text| text == ixn)
        .unwrap() as u128;
    SealSourceCouples { value: vec![SealSourceCouple { sn, said: event.said().clone() }] }
}

#[test]
fn issued_credential_stands_and_verifies() {
    let mut store = store_with_issuer();
    let issued = issue_into(&mut store, r#"{"a":1}"#, None, None);
    assert_eq!(acdc_status_at(&store, &issued.said, NOW, WINDOW, 8), Ok(true));
    let creder = Creder::new_with_raw(issued.acdc.as_bytes()).unwrap();
    assert_eq!(creder.said(), &issued.said);
    let couples = couples_of(&store, &issued.ixn);
    let schemas = Schemas::accepting();
    assert_eq!(verify_acdc_at(&store, &schemas, &creder, &couples, NOW, WINDOW, 8), Ok(true));
    assert_eq!(*schemas.asked.borrow(), 1);
    assert_eq!(issued.sads.len(), 1);
    assert!(issued.iss.starts_with(r#"{"v":"KERI10JSON"#));
}

#[test]
fn fresh_credential_is_new_until_stored() {
    let mut store = store_with_issuer();
    let producer = Producer { stamp: LATELY.to_string() };
    let (said, ixn, iss, acdc, _) = issue_acdc(
        &store, &producer, REGISTRY, ISSUER, SCHEMA, r#"{"a":1}"#, None, None, None, None, None,
    )
    .unwrap();
    store.insert_key_event(ISSUER, &ixn).unwrap();
    store.insert_transaction_event(&said, &iss).unwrap();
    let creder = Creder::new_with_raw(acdc.as_bytes()).unwrap();
    let couples = couples_of(&store, &ixn);
    let schemas = Schemas::accepting();
    assert_eq!(verify_acdc_at(&store, &schemas, &creder, &couples, NOW, WINDOW, 8), Ok(false));
}

#[test]
fn revoked_credential_is_invalid() {
    let mut store = store_with_issuer();
    let issued = issue_into(&mut store, r#"{"a":1}"#, None, None);
    let producer = Producer { stamp: LATELY.to_string() };
    let (ixn, rev) = revoke_acdc(&store, &producer, REGISTRY, ISSUER, &issued.said).unwrap();
    store.insert_key_event(ISSUER, &ixn).unwrap();
    store.insert_transaction_event(&issued.said, &rev).unwrap();
    assert_eq!(acdc_status_at(&store, &issued.said, NOW, WINDOW, 8), Ok(false));
    let creder = Creder::new_with_raw(issued.acdc.as_bytes()).unwrap();
    let couples = couples_of(&store, &issued.ixn);
    let schemas = Schemas::accepting();
    assert_eq!(
        verify_acdc_at(&store, &schemas, &creder, &couples, NOW, WINDOW, 8),
        Err(KeriError::Validation)
    );
    assert_eq!(*schemas.asked.borrow(), 0);
}

#[test]
fn revocation_needs_exactly_one_prior_event() {
    let mut store = store_with_issuer();
    let issued = issue_into(&mut store, r#"{"a":1}"#, None, None);
    let producer = Producer { stamp: LATELY.to_string() };
    let (_, rev) = revoke_acdc(&store, &producer, REGISTRY, ISSUER, &issued.said).unwrap();
    store.insert_transaction_event(&issued.said, &rev).unwrap();
    assert_eq!(
        revoke_acdc(&store, &producer, REGISTRY, ISSUER, &issued.said),
        Err(KeriError::Value)
    );
    assert_eq!(
        revoke_acdc(&store, &producer, REGISTRY, ISSUER, "ENothingHere"),
        Err(KeriError::NotFound)
    );
}

#[test]
fn stale_status_fails_validation() {
    let mut store = store_with_issuer();
    let issued = issue_into(&mut store, r#"{"a":1}"#, None, None);
    let later = "2024-01-01T01:00:00+00:00";
    // 3660 whole seconds after the event: one minute beyond the window.
    assert_eq!(acdc_status_at(&store, &issued.said, later, WINDOW, 8), Err(KeriError::Validation));
    // 3600 seconds after the event is within the window.
    assert_eq!(acdc_status_at(&store, &issued.said, "2024-01-01T00:59:00+00:00", WINDOW, 8), Ok(true));
    let creder = Creder::new_with_raw(issued.acdc.as_bytes()).unwrap();
    let couples = couples_of(&store, &issued.ixn);
    assert_eq!(
        verify_acdc_at(&store, &Schemas::accepting(), &creder, &couples, later, WINDOW, 8),
        Err(KeriError::Validation)
    );
}

#[test]
fn proof_count_and_anchor_are_checked() {
    let mut store = store_with_issuer();
    let issued = issue_into(&mut store, r#"{"a":1}"#, None, None);
    let creder = Creder::new_with_raw(issued.acdc.as_bytes()).unwrap();
    let schemas = Schemas::accepting();
    let none = SealSourceCouples { value: vec![] };
    assert_eq!(
        verify_acdc_at(&store, &schemas, &creder, &none, NOW, WINDOW, 8),
        Err(KeriError::Decoding)
    );
    let good = couples_of(&store, &issued.ixn);
    let two = SealSourceCouples {
        value: vec![
            SealSourceCouple { sn: good.value[0].sn, said: good.value[0].said.clone() },
            SealSourceCouple { sn: good.value[0].sn, said: good.value[0].said.clone() },
        ],
    };
    assert_eq!(
        verify_acdc_at(&store, &schemas, &creder, &two, NOW, WINDOW, 8),
        Err(KeriError::Decoding)
    );
    // The inception event carries no seal for the credential.
    let icp = Event::new_with_raw(store.get_key_event(ISSUER, 0).unwrap().as_bytes()).unwrap();
    let unanchored =
        SealSourceCouples { value: vec![SealSourceCouple { sn: 0, said: icp.said().clone() }] };
    assert_eq!(
        verify_acdc_at(&store, &schemas, &creder, &unanchored, NOW, WINDOW, 8),
        Err(KeriError::Verification)
    );
    // The right event under the wrong digest.
    let wrong =
        SealSourceCouples { value: vec![SealSourceCouple { sn: 1, said: icp.said().clone() }] };
    assert_eq!(
        verify_acdc_at(&store, &schemas, &creder, &wrong, NOW, WINDOW, 8),
        Err(KeriError::Verification)
    );
    // A sequence number that no store can hold.
    let far = SealSourceCouples {
        value: vec![SealSourceCouple { sn: 1u128 << 40, said: good.value[0].said.clone() }],
    };
    assert_eq!(
        verify_acdc_at(&store, &schemas, &creder, &far, NOW, WINDOW, 8),
        Err(KeriError::NotFound)
    );
}

#[test]
fn tampered_credential_fails_verification() {
    let mut store = store_with_issuer();
    let issued = issue_into(&mut store, r#"{"a":1}"#, None, None);
    let couples = couples_of(&store, &issued.ixn);
    // Another schema under the same digest.
    let forged = issued.acdc.replace(SCHEMA, "ESchemaSchemaSchemaSchemaSchemaSchemaSchema1");
    assert_ne!(forged, issued.acdc);
    let creder = Creder::new_with_raw(forged.as_bytes()).unwrap();
    assert_eq!(creder.said(), &issued.said);
    let schemas = Schemas::accepting();
    assert_eq!(
        verify_acdc_at(&store, &schemas, &creder, &couples, NOW, WINDOW, 8),
        Err(KeriError::Verification)
    );
    assert_eq!(*schemas.asked.borrow(), 0);
}

#[test]
fn schema_mismatch_fails_validation() {
    let mut store = store_with_issuer();
    let issued = issue_into(&mut store, r#"{"a":1}"#, None, None);
    let creder = Creder::new_with_raw(issued.acdc.as_bytes()).unwrap();
    let couples = couples_of(&store, &issued.ixn);
    assert_eq!(
        verify_acdc_at(&store, &Schemas::refusing(), &creder, &couples, NOW, WINDOW, 8),
        Err(KeriError::Validation)
    );
}

#[test]
fn credential_without_registry_fails_validation() {
    let data = Sad::from_json(r#"{"a":1}"#).unwrap();
    let (creder, _) =
        create(SCHEMA, ISSUER, &data, None, None, None, None, None, None, None, None, None).unwrap();
    let store = store_with_issuer();
    let none = SealSourceCouples { value: vec![] };
    assert_eq!(
        verify_acdc(&store, &Schemas::accepting(), &creder, &none),
        Err(KeriError::Validation)
    );
}

/// The edges block of a credential that refers to `said` under `operator`.
fn edge_to(said: &str, operator: Option<&str>) -> String {
    match operator {
        Some(o) => format!(r#"{{"d":"","parent":{{"d":"","n":"{said}","o":"{o}"}}}}"#),
        None => format!(r#"{{"d":"","parent":{{"d":"","n":"{said}"}}}}"#),
    }
}

#[test]
fn i2i_edge_binds_issuer_to_subject() {
    let mut store = store_with_issuer();
    // The subject of the first credential is the issuer of the second.
    let parent = issue_into(&mut store, r#"{"a":1}"#, None, Some(ISSUER));
    let child = issue_into(&mut store, r#"{"b":2}"#, Some(&edge_to(&parent.said, Some("I2I"))), None);
    let creder = Creder::new_with_raw(child.acdc.as_bytes()).unwrap();
    let couples = couples_of(&store, &child.ixn);
    let schemas = Schemas::accepting();
    assert_eq!(verify_acdc_at(&store, &schemas, &creder, &couples, NOW, WINDOW, 8), Ok(true));
    assert_eq!(chain_of(&store, &child.said), vec![parent.said.clone()]);

    // Another subject identifier on the referenced credential breaks the edge.
    let stranger = issue_into(&mut store, r#"{"a":1}"#, None, Some("EStranger"));
    let orphan =
        issue_into(&mut store, r#"{"b":2}"#, Some(&edge_to(&stranger.said, Some("I2I"))), None);
    let creder = Creder::new_with_raw(orphan.acdc.as_bytes()).unwrap();
    let couples = couples_of(&store, &orphan.ixn);
    assert_eq!(
        verify_acdc_at(&store, &schemas, &creder, &couples, NOW, WINDOW, 8),
        Err(KeriError::Validation)
    );
    // Without a constraint the same edge holds.
    let free =
        issue_into(&mut store, r#"{"b":2}"#, Some(&edge_to(&stranger.said, Some("NI2I"))), None);
    let creder = Creder::new_with_raw(free.acdc.as_bytes()).unwrap();
    let couples = couples_of(&store, &free.ixn);
    assert_eq!(verify_acdc_at(&store, &schemas, &creder, &couples, NOW, WINDOW, 8), Ok(true));
}

/// The digests that the provenance of a stored credential refers to.
fn chain_of(store: &MemStore, said: &str) -> Vec<String> {
    let creder = Creder::new_with_raw(store.get_acdc(said).unwrap().as_bytes()).unwrap();
    let edges = store.get_sad(creder.crd().get_text("e").unwrap()).unwrap();
    let mut expanded = Vec::new();
    if let Sad::Dict(entries) = &edges {
        for (key, value) in entries {
            let value = match value {
                Sad::Text(t) if key != "d" && key != "o" => store.get_sad(t).unwrap(),
                other => other.clone(),
            };
            expanded.push((key.clone(), value));
        }
    }
    keri::verification::chains_to_saids(&Sad::Dict(expanded)).unwrap()
}

#[test]
fn default_operator_follows_the_subject() {
    let mut store = store_with_issuer();
    // A subject without identifier: the edge defaults to no constraint.
    let parent = issue_into(&mut store, r#"{"a":1}"#, None, None);
    let child = issue_into(&mut store, r#"{"b":2}"#, Some(&edge_to(&parent.said, None)), None);
    let creder = Creder::new_with_raw(child.acdc.as_bytes()).unwrap();
    let couples = couples_of(&store, &child.ixn);
    let schemas = Schemas::accepting();
    assert_eq!(verify_acdc_at(&store, &schemas, &creder, &couples, NOW, WINDOW, 8), Ok(true));
    // A subject with an identifier that is not the issuer: the edge defaults
    // to the issuer constraint and fails.
    let stranger = issue_into(&mut store, r#"{"a":1}"#, None, Some("EStranger"));
    let orphan = issue_into(&mut store, r#"{"b":2}"#, Some(&edge_to(&stranger.said, None)), None);
    let creder = Creder::new_with_raw(orphan.acdc.as_bytes()).unwrap();
    let couples = couples_of(&store, &orphan.ixn);
    assert_eq!(
        verify_acdc_at(&store, &schemas, &creder, &couples, NOW, WINDOW, 8),
        Err(KeriError::Validation)
    );
}

#[test]
fn delegated_and_negated_edges_fail() {
    let mut store = store_with_issuer();
    let parent = issue_into(&mut store, r#"{"a":1}"#, None, Some(ISSUER));
    let schemas = Schemas::accepting();
    let delegated =
        issue_into(&mut store, r#"{"b":2}"#, Some(&edge_to(&parent.said, Some("DI2I"))), None);
    let creder = Creder::new_with_raw(delegated.acdc.as_bytes()).unwrap();
    let couples = couples_of(&store, &delegated.ixn);
    assert_eq!(
        verify_acdc_at(&store, &schemas, &creder, &couples, NOW, WINDOW, 8),
        Err(KeriError::Validation)
    );
    let negated =
        issue_into(&mut store, r#"{"b":2}"#, Some(&edge_to(&parent.said, Some("NOT"))), None);
    let creder = Creder::new_with_raw(negated.acdc.as_bytes()).unwrap();
    let couples = couples_of(&store, &negated.ixn);
    assert_eq!(
        verify_acdc_at(&store, &schemas, &creder, &couples, NOW, WINDOW, 8),
        Err(KeriError::Value)
    );
}

#[test]
fn revoked_parent_fails_the_child() {
    let mut store = store_with_issuer();
    let parent = issue_into(&mut store, r#"{"a":1}"#, None, Some(ISSUER));
    let child = issue_into(&mut store, r#"{"b":2}"#, Some(&edge_to(&parent.said, Some("I2I"))), None);
    let producer = Producer { stamp: LATELY.to_string() };
    let (ixn, rev) = revoke_acdc(&store, &producer, REGISTRY, ISSUER, &parent.said).unwrap();
    store.insert_key_event(ISSUER, &ixn).unwrap();
    store.insert_transaction_event(&parent.said, &rev).unwrap();
    assert_eq!(acdc_status_at(&store, &child.said, NOW, WINDOW, 8), Ok(false));
    // One credential deep is not deep enough to see the parent.
    assert_eq!(acdc_status_at(&store, &child.said, NOW, WINDOW, 1), Err(KeriError::Validation));
    assert_eq!(acdc_status_at(&store, &child.said, NOW, WINDOW, 0), Err(KeriError::Validation));
    let creder = Creder::new_with_raw(child.acdc.as_bytes()).unwrap();
    let couples = couples_of(&store, &child.ixn);
    assert_eq!(
        verify_acdc_at(&store, &Schemas::accepting(), &creder, &couples, NOW, WINDOW, 8),
        Err(KeriError::Validation)
    );
}

#[test]
fn status_wants_edges_by_digest() {
    let mut store = store_with_issuer();
    let parent = issue_into(&mut store, r#"{"a":1}"#, None, Some(ISSUER));
    // An edge that declares no digest stays in its group when the group is
    // compacted: verification reads it there, the status check does not.
    let inline = format!(r#"{{"d":"","parent":{{"n":"{}"}}}}"#, parent.said);
    let child = issue_into(&mut store, r#"{"b":2}"#, Some(&inline), None);
    let creder = Creder::new_with_raw(child.acdc.as_bytes()).unwrap();
    let couples = couples_of(&store, &child.ixn);
    assert_eq!(
        verify_acdc_at(&store, &Schemas::accepting(), &creder, &couples, NOW, WINDOW, 8),
        Ok(true)
    );
    assert_eq!(acdc_status_at(&store, &child.said, NOW, WINDOW, 8), Err(KeriError::Conversion));
}

#[test]
fn status_of_unknown_credential_is_not_found() {
    let store = store_with_issuer();
    assert_eq!(acdc_status_at(&store, "ENothingHere", NOW, WINDOW, 8), Err(KeriError::NotFound));
    assert_eq!(acdc_status(&store, "ENothingHere"), Err(KeriError::NotFound));
}

#[test]
fn identical_stream_is_taken_in_once() {
    let mut source = store_with_issuer();
    let issued = issue_into(&mut source, r#"{"a":1}"#, None, None);
    let stream = format!("{}{}", issued.iss, issued.acdc);

    let mut store = store_with_issuer();
    store.insert_key_event(ISSUER, &issued.ixn).unwrap();
    let before = store.writes;
    let verifiers = Verifiers { asked: RefCell::new(0) };
    let schemas = Schemas::accepting();
    assert_eq!(
        ingest_stream(&mut store, &verifiers, &schemas, &stream, None, None, false),
        Ok(2)
    );
    // The event and the credential, which comes compacted.
    assert_eq!(store.writes, before + 2);
    assert_eq!(store.get_tel(&issued.said).unwrap().len(), 1);
    assert!(store.get_acdc(&issued.said).is_ok());
    assert_eq!(acdc_status_at(&store, &issued.said, NOW, 36000000000, 8), Ok(true));

    let after = store.writes;
    assert_eq!(
        ingest_stream(&mut store, &verifiers, &schemas, &stream, None, None, false),
        Ok(0)
    );
    assert_eq!(store.writes, after);
    assert_eq!(ingest_messages(&mut store, &verifiers, &schemas, &stream, None, None, false), Ok(()));
    assert_eq!(store.writes, after);
}

#[test]
fn existence_check_stands_in_without_verification() {
    let mut source = store_with_issuer();
    let issued = issue_into(&mut source, r#"{"a":1}"#, None, None);
    let stream = format!("{}{}", issued.iss, issued.acdc);
    let mut store = MemStore::default();
    let verifiers = Verifiers { asked: RefCell::new(0) };
    let schemas = Schemas::refusing();
    assert_eq!(
        ingest_stream(&mut store, &verifiers, &schemas, &stream, None, Some(false), true),
        Ok(2)
    );
    assert_eq!(*verifiers.asked.borrow(), 0);
    assert_eq!(*schemas.asked.borrow(), 0);
    assert!(store.get_acdc(&issued.said).is_ok());
}

#[test]
fn malformed_streams_fail_decoding() {
    let mut source = store_with_issuer();
    let issued = issue_into(&mut source, r#"{"a":1}"#, None, None);
    let verifiers = Verifiers { asked: RefCell::new(0) };
    let schemas = Schemas::accepting();
    let mut store = store_with_issuer();
    let before = store.writes;
    // An empty stream.
    assert_eq!(
        ingest_messages(&mut store, &verifiers, &schemas, "", None, None, false),
        Err(KeriError::Decoding)
    );
    // A payload without its attachment.
    let bare = Creder::new_with_raw(issued.acdc.as_bytes()).unwrap().raw().clone();
    assert_eq!(
        ingest_messages(&mut store, &verifiers, &schemas, &bare, None, None, false),
        Err(KeriError::Decoding)
    );
    // Two payloads in a row.
    let twice = format!("{bare}{bare}");
    assert_eq!(
        ingest_messages(&mut store, &verifiers, &schemas, &twice, None, None, false),
        Err(KeriError::Decoding)
    );
    // An attachment first.
    let attachment = &issued.acdc[bare.len()..];
    assert_eq!(
        ingest_messages(&mut store, &verifiers, &schemas, attachment, None, None, false),
        Err(KeriError::Decoding)
    );
    // A key event with seal source couples.
    let ixn = format!("{}{}", issued.ixn, attachment);
    assert_eq!(
        ingest_messages(&mut store, &verifiers, &schemas, &ixn, None, None, false),
        Err(KeriError::Decoding)
    );
    assert_eq!(store.writes, before);
}

#[test]
fn attachment_points_at_the_anchoring_event() {
    let mut store = store_with_issuer();
    let issued = issue_into(&mut store, r#"{"a":1}"#, None, None);
    let anchor = Event::new_with_raw(issued.ixn.as_bytes()).unwrap();
    let attachment = attach_source(1, anchor.said()).unwrap();
    assert!(attachment.starts_with("-GAB0AAAAAAAAAAAAAAAAAAAAAAB"));
    assert!(attachment.ends_with(anchor.said().as_str()));
    assert!(issued.acdc.ends_with(&attachment));
    assert!(issued.iss.ends_with(&attachment));
    let seal = seal_for("EA", "0", "EB");
    assert_eq!(seal.to_json().unwrap(), r#"[{"i":"EA","s":"0","d":"EB"}]"#);
    assert_eq!(anchor.ked().get("a").unwrap().to_json().unwrap().contains(&issued.said), true);
}

#[test]
fn odd_streams_do_not_panic() {
    let verifiers = Verifiers { asked: RefCell::new(0) };
    let schemas = Schemas::accepting();
    let mut store = store_with_issuer();
    let before = store.writes;
    // A group that is shorter than its code.
    for stream in [
        "-",
        "-G",
        "-GAB",
        "-GAB5AAA",
        "-GAB0AAAAAAAAAAAAAAAAAAAAAAB5AAA",
        "-GAB0AAAAAAAAAAAAAAAAAAAAAAB9AAAAAAA",
        "-GAB0AAAAAAAAAAAAAAAAAAAAA==",
        "-GAB0AAAAAAAAAAAAAAAAAAAAAAB3AAAAA==",
        "-GAB3AAAAA==",
        "-V==",
        "-F",
        "-FAB-",
        "-VAA-",
        "-VAB",
        "-LAB5AABAA-",
        "_",
        "{",
    ] {
        assert!(ingest_stream(&mut store, &verifiers, &schemas, stream, None, None, false).is_ok()
            || ingest_stream(&mut store, &verifiers, &schemas, stream, None, None, false)
                == Err(KeriError::Decoding));
    }
    // Text beyond ASCII.
    assert_eq!(
        ingest_stream(&mut store, &verifiers, &schemas, "{\"a\":\"\u{e9}\"}", None, None, false),
        Err(KeriError::Decoding)
    );
    // No group is read from bytes beyond the alphabet: the stream ends there.
    assert_eq!(
        ingest_messages(&mut store, &verifiers, &schemas, "1\u{e9}\u{e9}", None, None, false),
        Ok(())
    );
    assert_eq!(
        ingest_messages(&mut store, &verifiers, &schemas, "-GAB\u{e9}", None, None, false),
        Ok(())
    );
    // Nothing that is a message.
    assert_eq!(ingest_stream(&mut store, &verifiers, &schemas, "rest", None, None, false), Ok(0));
    assert_eq!(ingest_messages(&mut store, &verifiers, &schemas, "-", None, None, false), Ok(()));
    assert_eq!(store.writes, before);
}

#[test]
fn stored_stream_is_held_without_verification() {
    let mut source = store_with_issuer();
    let issued = issue_into(&mut source, r#"{"a":1}"#, None, None);
    let stream = format!("{}{}", issued.iss, issued.acdc);
    let mut store = MemStore::default();
    let verifiers = Verifiers { asked: RefCell::new(0) };
    let schemas = Schemas::accepting();
    // Held under their digests: the event and the compacted credential.
    let event = Event::new_with_raw(issued.iss.as_bytes()).unwrap();
    store.insert_sad(event.raw()).unwrap();
    let creder = Creder::new_with_raw(issued.acdc.as_bytes()).unwrap();
    store.insert_sad(creder.raw()).unwrap();
    let before = store.writes;
    assert_eq!(
        ingest_stream(&mut store, &verifiers, &schemas, &stream, None, Some(false), false),
        Ok(0)
    );
    assert_eq!(store.writes, before);
    assert_eq!(*verifiers.asked.borrow(), 0);
}

#[test]
fn long_chains_are_followed() {
    assert_eq!(DEFAULT_CHAIN_DEPTH, usize::MAX);
    let mut store = store_with_issuer();
    let mut parent = issue_into(&mut store, r#"{"n":0}"#, None, Some(ISSUER));
    let first = parent.said.clone();
    for n in 1..70 {
        parent = issue_into(
            &mut store,
            &format!(r#"{{"n":{n}}}"#),
            Some(&edge_to(&parent.said, Some("NI2I"))),
            Some(ISSUER),
        );
    }
    assert_eq!(acdc_status_at(&store, &parent.said, NOW, WINDOW, DEFAULT_CHAIN_DEPTH), Ok(true));
    assert_eq!(acdc_status_at(&store, &parent.said, NOW, WINDOW, 70), Ok(true));
    assert_eq!(acdc_status_at(&store, &parent.said, NOW, WINDOW, 69), Err(KeriError::Validation));
    // The first of the chain is revoked.
    let producer = Producer { stamp: LATELY.to_string() };
    let (ixn, rev) = revoke_acdc(&store, &producer, REGISTRY, ISSUER, &first).unwrap();
    store.insert_key_event(ISSUER, &ixn).unwrap();
    store.insert_transaction_event(&first, &rev).unwrap();
    assert_eq!(acdc_status_at(&store, &parent.said, NOW, WINDOW, DEFAULT_CHAIN_DEPTH), Ok(false));
}

#[test]
fn issuance_wants_json() {
    let store = store_with_issuer();
    let producer = Producer { stamp: LATELY.to_string() };
    let issue = |data: &str, source: Option<&str>, rules: Option<&str>, fields: Option<&str>| {
        issue_acdc(&store, &producer, REGISTRY, ISSUER, SCHEMA, data, None, None, source, rules, fields)
            .err()
    };
    assert_eq!(issue("{", None, None, None), Some(KeriError::Decoding));
    assert_eq!(issue("{}", Some("{"), None, None), Some(KeriError::Decoding));
    assert_eq!(issue("{}", None, Some("nope"), None), Some(KeriError::Decoding));
    assert_eq!(issue("{}", None, None, Some("1.5")), Some(KeriError::Decoding));
    // What parses but cannot be assembled.
    assert_eq!(issue("[]", None, None, None), Some(KeriError::Conversion));
    assert_eq!(issue("{}", Some(r#"{"x":1}"#), None, None), Some(KeriError::Conversion));
    assert_eq!(issue("{}", None, None, None), None);
}

/// Makes interaction events that seal nothing.
struct Forgetful;

impl EventProducer for Forgetful {
    fn issue(&self, said: &str, registry: &str) -> Result<(String, String), KeriError> {
        Producer { stamp: LATELY.to_string() }.issue(said, registry)
    }

    fn revoke(&self, said: &str, registry: &str, prior: &str) -> Result<(String, String), KeriError> {
        Producer { stamp: LATELY.to_string() }.revoke(said, registry, prior)
    }

    fn interact(
        &self,
        keys: &KeySet,
        pre: &str,
        dig: &str,
        sn: u128,
        _data: &Sad,
    ) -> Result<(String, String), KeriError> {
        Producer { stamp: LATELY.to_string() }.interact(keys, pre, dig, sn, &Sad::List(vec![]))
    }
}

#[test]
fn anchoring_event_is_checked() {
    let store = store_with_issuer();
    assert_eq!(
        issue_acdc(&store, &Forgetful, REGISTRY, ISSUER, SCHEMA, "{}", None, None, None, None, None)
            .err(),
        Some(KeriError::Verification)
    );
    let mut store = store_with_issuer();
    let issued = issue_into(&mut store, r#"{"a":1}"#, None, None);
    assert_eq!(
        revoke_acdc(&store, &Forgetful, REGISTRY, ISSUER, &issued.said).err(),
        Some(KeriError::Verification)
    );
    let anchor = Event::new_with_raw(issued.ixn.as_bytes()).unwrap();
    assert_eq!(check_anchoring(&issued.ixn, anchor.said(), &issued.said), Ok(()));
    assert_eq!(
        check_anchoring(&issued.ixn, anchor.said(), "EOther"),
        Err(KeriError::Verification)
    );
    assert_eq!(
        check_anchoring(&issued.ixn, &issued.said, &issued.said),
        Err(KeriError::Verification)
    );
}

#[test]
fn built_credential_fits_its_digest() {
    let mut store = store_with_issuer();
    let issued = issue_into(&mut store, r#"{"a":1}"#, None, None);
    let creder = Creder::new_with_raw(issued.acdc.as_bytes()).unwrap();
    assert_eq!(keri::creder::check_digest(creder.said(), creder.crd()), Some(true));
    assert_eq!(keri::creder::check_digest("1\u{e9}\u{e9}", creder.crd()), None);
    assert_eq!(keri::creder::check_digest(creder.said(), &Sad::Null), None);
    assert_eq!(creder.crd().get_text("a"), issued.sads.last().unwrap().get_text("d"));
    assert_eq!(creder.crd().get_text("d"), Some(&issued.said));
}

#[test]
fn stream_is_judged_at_the_given_instant() {
    let mut source = store_with_issuer();
    let issued = issue_into(&mut source, r#"{"a":1}"#, None, None);
    let stream = format!("{}{}", issued.iss, issued.acdc);
    let mut store = store_with_issuer();
    store.insert_key_event(ISSUER, &issued.ixn).unwrap();
    let before = store.writes;
    let verifiers = Verifiers { asked: RefCell::new(0) };
    let schemas = Schemas::accepting();
    // Ages later the status of the credential is stale; the event before it
    // stays written.
    assert_eq!(
        ingest_stream_at(
            &mut store,
            &verifiers,
            &schemas,
            &stream,
            None,
            None,
            false,
            "9999-01-01T00:00:00+00:00",
            DEFAULT_CREDENTIAL_EXPIRY_SECONDS,
            DEFAULT_CHAIN_DEPTH,
        ),
        Err(KeriError::Validation)
    );
    assert_eq!(store.writes, before + 1);
    assert_eq!(
        ingest_stream_at(
            &mut store,
            &verifiers,
            &schemas,
            &stream,
            None,
            None,
            false,
            NOW,
            DEFAULT_CREDENTIAL_EXPIRY_SECONDS,
            DEFAULT_CHAIN_DEPTH,
        ),
        Ok(1)
    );
    assert_eq!(store.writes, before + 2);
    // Everything is held now: nothing is written.
    assert_eq!(
        ingest_stream_at(
            &mut store,
            &verifiers,
            &schemas,
            &stream,
            None,
            None,
            false,
            NOW,
            DEFAULT_CREDENTIAL_EXPIRY_SECONDS,
            DEFAULT_CHAIN_DEPTH,
        ),
        Ok(0)
    );
    assert_eq!(store.writes, before + 2);
}

#[test]
fn key_event_goes_with_its_quadlets() {
    let mut source = store_with_issuer();
    let issued = issue_into(&mut source, r#"{"a":1}"#, None, None);
    let event = Event::new_with_raw(issued.ixn.as_bytes()).unwrap();
    let verifiers = Verifiers { asked: RefCell::new(0) };
    let schemas = Schemas::accepting();

    let first = format!("{}-VABABCD", event.raw());
    let mut store = MemStore::default();
    assert_eq!(
        ingest_stream(&mut store, &verifiers, &schemas, &first, None, None, false),
        Ok(1)
    );
    assert_eq!(store.get_kel(ISSUER).unwrap(), vec![first.clone()]);
    assert_eq!(*verifiers.asked.borrow(), 1);

    // A group ends where its count says: the next message starts there.
    let second = format!("{}-VACABCDEFGH", event.raw());
    let both = format!("{first}{second}");
    let mut store = MemStore::default();
    assert_eq!(
        ingest_stream(&mut store, &verifiers, &schemas, &both, None, None, false),
        Ok(2)
    );
    assert_eq!(store.get_kel(ISSUER).unwrap(), vec![first.clone(), second]);
    // The second message is under verification already: it is not verified
    // again.
    assert_eq!(*verifiers.asked.borrow(), 2);

    // Quadlets that hold groups of their own: signatures, receipts and a
    // first seen couple.
    let groups = "-VA--AABAAAEmCc25ETG2m1Ya-tPGuEqsPywOtusQwXKy076ve56IHXzX2bs0xsdQ4dk0XsanstpThg71ynIy-yUDSue6jMD-BABAABfvC7zCIVOVMol9C4AlSALS9JhL8PCdfgRnJgkXG4U11gFyZbsI_J828POrtwtoOmFhs20hoH1pYw4NZr2cdwN-EAB0AAAAAAAAAAAAAAAAAAAAAAE1AAG2023-02-07T15c00c00d025640p00c00";
    let signed = format!("{}{}", event.raw(), groups);
    let mut store = MemStore::default();
    assert_eq!(
        ingest_stream(&mut store, &verifiers, &schemas, &signed, None, None, false),
        Ok(1)
    );
    assert_eq!(store.get_kel(ISSUER).unwrap(), vec![signed.clone()]);
    let again = format!("{signed}{first}");
    let mut store = MemStore::default();
    assert_eq!(
        ingest_stream(&mut store, &verifiers, &schemas, &again, None, None, false),
        Ok(2)
    );
    assert_eq!(store.get_kel(ISSUER).unwrap(), vec![signed, first.clone()]);

    // A group that is cut short is no attachment.
    let short = format!("{}-VACABCD", event.raw());
    let mut store = MemStore::default();
    assert_eq!(
        ingest_stream(&mut store, &verifiers, &schemas, &short, None, None, false),
        Err(KeriError::Decoding)
    );
    assert_eq!(store.writes, 0);
    // Quadlets do not go with a transaction event.
    let wrong = format!("{}-VABABCD", Event::new_with_raw(issued.iss.as_bytes()).unwrap().raw());
    assert_eq!(
        ingest_stream(&mut store, &verifiers, &schemas, &wrong, None, None, false),
        Err(KeriError::Decoding)
    );
    assert_eq!(store.writes, 0);
}

#[test]
fn streams_may_hold_any_text() {
    let mut source = store_with_issuer();
    let issued = issue_into(&mut source, "{\"name\":\"Ren\u{e9}e \u{1f511}\"}", None, None);
    assert!(!issued.acdc.is_ascii() || !issued.sads.is_empty());
    let stream = format!("{}{}", issued.iss, issued.acdc);
    let mut store = store_with_issuer();
    store.insert_key_event(ISSUER, &issued.ixn).unwrap();
    for sad in &issued.sads {
        store.insert_sad(&sad.to_json().unwrap()).unwrap();
    }
    let before = store.writes;
    let verifiers = Verifiers { asked: RefCell::new(0) };
    let schemas = Schemas::accepting();
    assert_eq!(
        ingest_stream(&mut store, &verifiers, &schemas, &stream, None, None, false),
        Ok(2)
    );
    assert_eq!(store.writes, before + 2);
    assert!(store.get_acdc(&issued.said).is_ok());
    // A payload that is no event, of any text, is a decoding error.
    assert_eq!(
        ingest_stream(&mut store, &verifiers, &schemas, "{\"a\":\"\u{e9}\"}-GAB", None, None, false),
        Err(KeriError::Decoding)
    );
}

#[test]
fn window_of_a_stream_can_be_given() {
    let mut source = store_with_issuer();
    let issued = issue_into(&mut source, r#"{"a":1}"#, None, None);
    let stream = format!("{}{}", issued.iss, issued.acdc);
    let mut store = store_with_issuer();
    store.insert_key_event(ISSUER, &issued.ixn).unwrap();
    let verifiers = Verifiers { asked: RefCell::new(0) };
    let schemas = Schemas::accepting();
    // The status event is a minute old: a window of ten seconds is too short.
    assert_eq!(
        ingest_stream_at(&mut store, &verifiers, &schemas, &stream, None, None, false, NOW, 10, 8),
        Err(KeriError::Validation)
    );
    assert_eq!(
        ingest_stream_at(&mut store, &verifiers, &schemas, &stream, None, None, false, NOW, 61, 8),
        Ok(1)
    );
}

#[test]
fn expanded_credential_is_written_with_its_blocks() {
    let mut source = store_with_issuer();
    let issued = issue_into(&mut source, r#"{"a":1}"#, None, None);
    assert!(!issued.sads.is_empty());
    let compacted = Creder::new_with_raw(issued.acdc.as_bytes()).unwrap();
    let attachment = &issued.acdc[compacted.raw().len()..];
    let expanded = expand_acdc(&compacted, &[vec!["a"]], &source).unwrap();
    assert_ne!(expanded.raw(), compacted.raw());
    let stream = format!("{}{}{}", issued.iss, expanded.raw(), attachment);

    let mut store = store_with_issuer();
    store.insert_key_event(ISSUER, &issued.ixn).unwrap();
    let before = store.writes;
    let verifiers = Verifiers { asked: RefCell::new(0) };
    let schemas = Schemas::accepting();
    assert_eq!(
        ingest_stream(&mut store, &verifiers, &schemas, &stream, None, None, false),
        Ok(2)
    );
    // The event, the credential in compact form, and the block that was
    // taken out of it.
    assert_eq!(store.writes, before + 3);
    assert_eq!(store.get_acdc(&issued.said).unwrap(), issued.acdc);
    let block = issued.sads[0].get_text("d").unwrap().clone();
    assert_eq!(
        store.get_sad(&block).unwrap().to_json().unwrap(),
        issued.sads[0].to_json().unwrap()
    );
}
