use crate::creder::{couple_views, Event, EventV, SealSourceCouples};
use crate::data::{Sad, SadV};
use crate::error::KeriError;
use crate::keys::{KeySet, KeySetV};
use crate::visited::VisitedSet;
use vstd::prelude::*;

verus! {

/// The persistent store that the protocol reads and writes. Every lookup
/// fails where the store holds nothing under the key.
///
/// The lookups that verification rests on are functions of the store and
/// their arguments: each has a specification function that names its result.
/// By default the name stands for some function that is not known further;
/// an implementation that is verified says what it holds by giving the
/// specification functions bodies of its own. Whether an insert succeeds,
/// and the store that it leaves, are named in the same way: an insert is a
/// function of the store and what it is handed.
pub trait KeriStore: Sized {
    /// What `get_sad` returns for `said`.
    open spec fn sad_at(&self, said: Seq<char>) -> Result<SadV, KeriError> {
        arbitrary::<spec_fn(&Self, Seq<char>) -> Result<SadV, KeriError>>()(self, said)
    }

    /// What `get_acdc` returns for `said`.
    open spec fn acdc_at(&self, said: Seq<char>) -> Result<Seq<char>, KeriError> {
        arbitrary::<spec_fn(&Self, Seq<char>) -> Result<Seq<char>, KeriError>>()(self, said)
    }

    /// What `get_key_event` returns for `pre` and `version`.
    open spec fn key_event_at(&self, pre: Seq<char>, version: u32) -> Result<Seq<char>, KeriError> {
        arbitrary::<spec_fn(&Self, Seq<char>, u32) -> Result<Seq<char>, KeriError>>()(self, pre, version)
    }

    /// What `get_latest_transaction_event` returns for `pre`.
    open spec fn latest_transaction_event_at(&self, pre: Seq<char>) -> Result<Seq<char>, KeriError> {
        arbitrary::<spec_fn(&Self, Seq<char>) -> Result<Seq<char>, KeriError>>()(self, pre)
    }

    /// What `get_latest_key_event_said` returns for `pre`.
    open spec fn latest_key_event_said_at(&self, pre: Seq<char>) -> Result<Seq<char>, KeriError> {
        arbitrary::<spec_fn(&Self, Seq<char>) -> Result<Seq<char>, KeriError>>()(self, pre)
    }

    /// What `get_tel` returns for `pre`.
    open spec fn tel_at(&self, pre: Seq<char>) -> Result<Seq<Seq<char>>, KeriError> {
        arbitrary::<spec_fn(&Self, Seq<char>) -> Result<Seq<Seq<char>>, KeriError>>()(self, pre)
    }

    /// What `count_key_events` returns for `pre`.
    open spec fn key_event_count_at(&self, pre: Seq<char>) -> Result<usize, KeriError> {
        arbitrary::<spec_fn(&Self, Seq<char>) -> Result<usize, KeriError>>()(self, pre)
    }

    /// What `insert_sad` returns for `sad`.
    open spec fn sad_insert(&self, sad: Seq<char>) -> Result<(), KeriError> {
        arbitrary::<spec_fn(&Self, Seq<char>) -> Result<(), KeriError>>()(self, sad)
    }

    /// What `insert_acdc` returns for `acdc` and `issued`.
    open spec fn acdc_insert(&self, acdc: Seq<char>, issued: bool) -> Result<(), KeriError> {
        arbitrary::<spec_fn(&Self, Seq<char>, bool) -> Result<(), KeriError>>()(self, acdc, issued)
    }

    /// What `insert_key_event` returns for `pre` and `event`.
    open spec fn key_event_insert(&self, pre: Seq<char>, event: Seq<char>) -> Result<(), KeriError> {
        arbitrary::<spec_fn(&Self, Seq<char>, Seq<char>) -> Result<(), KeriError>>()(self, pre, event)
    }

    /// What `insert_transaction_event` returns for `pre` and `event`.
    open spec fn transaction_event_insert(&self, pre: Seq<char>, event: Seq<char>) -> Result<(), KeriError> {
        arbitrary::<spec_fn(&Self, Seq<char>, Seq<char>) -> Result<(), KeriError>>()(self, pre, event)
    }

    /// What `get_current_keys` returns for `pre`.
    open spec fn current_keys_at(&self, pre: Seq<char>) -> Result<KeySetV, KeriError> {
        arbitrary::<spec_fn(&Self, Seq<char>) -> Result<KeySetV, KeriError>>()(self, pre)
    }

    /// The store that `insert_sad` leaves for `sad`.
    open spec fn with_sad(&self, sad: Seq<char>) -> Self {
        arbitrary::<spec_fn(&Self, Seq<char>) -> Self>()(self, sad)
    }

    /// The store that `insert_acdc` leaves for `acdc` and `issued`.
    open spec fn with_acdc(&self, acdc: Seq<char>, issued: bool) -> Self {
        arbitrary::<spec_fn(&Self, Seq<char>, bool) -> Self>()(self, acdc, issued)
    }

    /// The store that `insert_key_event` leaves for `pre` and `event`.
    open spec fn with_key_event(&self, pre: Seq<char>, event: Seq<char>) -> Self {
        arbitrary::<spec_fn(&Self, Seq<char>, Seq<char>) -> Self>()(self, pre, event)
    }

    /// The store that `insert_transaction_event` leaves for `pre` and
    /// `event`.
    open spec fn with_transaction_event(&self, pre: Seq<char>, event: Seq<char>) -> Self {
        arbitrary::<spec_fn(&Self, Seq<char>, Seq<char>) -> Self>()(self, pre, event)
    }

    /// The identifier prefix of the controller of this store.
    fn prefix(&self) -> String;

    /// Stores the key set of an identifier.
    fn insert_keys(&mut self, pre: &str, keys: &KeySet) -> Result<(), KeriError>;

    /// Stores a self-addressing datum, given as JSON text.
    fn insert_sad(&mut self, sad: &str) -> (r: Result<(), KeriError>)
        ensures
            r == old(self).sad_insert(sad@),
            *final(self) == old(self).with_sad(sad@),
    ;

    /// Stores a credential with its attachment, and whether this controller
    /// issued it.
    fn insert_acdc(&mut self, acdc: &str, issued: bool) -> (r: Result<(), KeriError>)
        ensures
            r == old(self).acdc_insert(acdc@, issued),
            *final(self) == old(self).with_acdc(acdc@, issued),
    ;

    /// Appends a key event with its attachment to the log of an identifier.
    fn insert_key_event(&mut self, pre: &str, event: &str) -> (r: Result<(), KeriError>)
        ensures
            r == old(self).key_event_insert(pre@, event@),
            *final(self) == old(self).with_key_event(pre@, event@),
    ;

    /// Appends a transaction event with its attachment to the log of a
    /// registry or credential.
    fn insert_transaction_event(&mut self, pre: &str, event: &str) -> (r: Result<(), KeriError>)
        ensures
            r == old(self).transaction_event_insert(pre@, event@),
            *final(self) == old(self).with_transaction_event(pre@, event@),
    ;

    /// The current key set of an identifier.
    fn get_current_keys(&self, pre: &str) -> (r: Result<KeySet, KeriError>)
        ensures
            match r {
                Ok(keys) => self.current_keys_at(pre@) == Ok::<KeySetV, KeriError>(keys@),
                Err(e) => self.current_keys_at(pre@) == Err::<KeySetV, KeriError>(e),
            },
    ;

    /// The next key set of an identifier.
    fn get_next_keys(&self, pre: &str) -> Result<KeySet, KeriError>;

    /// The self-addressing datum with the digest `said`.
    fn get_sad(&self, said: &str) -> (r: Result<Sad, KeriError>)
        ensures
            match r {
                Ok(sad) => self.sad_at(said@) == Ok::<SadV, KeriError>(sad@) && sad@.wf(),
                Err(e) => self.sad_at(said@) == Err::<SadV, KeriError>(e),
            },
    ;

    /// The stored credential with the digest `said`, with its attachment.
    fn get_acdc(&self, said: &str) -> (r: Result<String, KeriError>)
        ensures
            match r {
                Ok(text) => self.acdc_at(said@) == Ok::<Seq<char>, KeriError>(text@),
                Err(e) => self.acdc_at(said@) == Err::<Seq<char>, KeriError>(e),
            },
    ;

    /// The key event of `pre` with the sequence number `version`.
    fn get_key_event(&self, pre: &str, version: u32) -> (r: Result<String, KeriError>)
        ensures
            match r {
                Ok(text) => self.key_event_at(pre@, version) == Ok::<Seq<char>, KeriError>(text@),
                Err(e) => self.key_event_at(pre@, version) == Err::<Seq<char>, KeriError>(e),
            },
    ;

    /// The transaction event of `pre` with the sequence number `version`.
    fn get_transaction_event(&self, pre: &str, version: u32) -> Result<String, KeriError>;

    /// The latest establishment event of `pre` and its sequence number.
    fn get_latest_establishment_event(&self, pre: &str) -> Result<(String, u128), KeriError>;

    /// The latest establishment event of `pre` at or before `sn`, and its
    /// sequence number.
    fn get_latest_establishment_event_as_of_sn(&self, pre: &str, sn: u32) -> Result<
        (String, u128),
        KeriError,
    >;

    /// The latest transaction event of `pre`.
    fn get_latest_transaction_event(&self, pre: &str) -> (r: Result<String, KeriError>)
        ensures
            match r {
                Ok(text) => self.latest_transaction_event_at(pre@) == Ok::<Seq<char>, KeriError>(
                    text@,
                ),
                Err(e) => self.latest_transaction_event_at(pre@) == Err::<Seq<char>, KeriError>(e),
            },
    ;

    /// The digest of the latest key event of `pre`.
    fn get_latest_key_event_said(&self, pre: &str) -> (r: Result<String, KeriError>)
        ensures
            match r {
                Ok(text) => self.latest_key_event_said_at(pre@) == Ok::<Seq<char>, KeriError>(
                    text@,
                ),
                Err(e) => self.latest_key_event_said_at(pre@) == Err::<Seq<char>, KeriError>(e),
            },
    ;

    /// The digest of the latest establishment event of `pre` and its sequence
    /// number.
    fn get_latest_establishment_event_said(&self, pre: &str) -> Result<(String, u128), KeriError>;

    /// The digest of the latest establishment event of `pre` at or before
    /// `sn`, and its sequence number.
    fn get_latest_establishment_event_said_as_of_sn(&self, pre: &str, sn: u32) -> Result<
        (String, u128),
        KeriError,
    >;

    /// The key event log of `pre`.
    fn get_kel(&self, pre: &str) -> Result<Vec<String>, KeriError>;

    /// The transaction event log of `pre`.
    fn get_tel(&self, pre: &str) -> (r: Result<Vec<String>, KeriError>)
        ensures
            match r {
                Ok(log) => self.tel_at(pre@) == Ok::<Seq<Seq<char>>, KeriError>(
                    crate::keys::texts(log@),
                ),
                Err(e) => self.tel_at(pre@) == Err::<Seq<Seq<char>>, KeriError>(e),
            },
    ;

    /// The number of key events of `pre`.
    fn count_key_events(&self, pre: &str) -> (r: Result<usize, KeriError>)
        ensures
            r == self.key_event_count_at(pre@),
    ;

    /// The number of transaction events of `pre`.
    fn count_transaction_events(&self, pre: &str) -> Result<usize, KeriError>;

    /// The number of establishment events of `pre`.
    fn count_establishment_events(&self, pre: &str) -> Result<usize, KeriError>;
}

/// The validator of credential payloads against schemas: whether the
/// serialization `raw` meets the schema with the digest `schema`.
///
/// The answer is a function of the validator, the schema and the
/// serialization: a specification function names it. By default the name
/// stands for some function that is not known further.
pub trait SchemaValidator {
    /// What `verify` answers for `schema` and `raw`.
    open spec fn answer(&self, schema: Seq<char>, raw: Seq<char>) -> Result<bool, KeriError> {
        arbitrary::<spec_fn(&Self, Seq<char>, Seq<char>) -> Result<bool, KeriError>>()(
            self,
            schema,
            raw,
        )
    }

    /// Validates `raw` against the schema `schema`.
    fn verify(&self, schema: &str, raw: &str) -> (r: Result<bool, KeriError>)
        ensures
            r == self.answer(schema@, raw@),
    ;
}

/// The verifiers of key events and of transaction events. Each checks what
/// is attached to a new event against the store, verifies what the event
/// anchors before it accepts it, and reports whether the event was in the
/// store already. Both keep to the set of digests under verification that
/// they are handed, and count the depth of their recursion.
///
/// What a verifier reports, and the set that it leaves, are functions of the
/// verifier, the store and what it is handed: a specification function names
/// both. By default the name stands for some function that is not known
/// further.
pub trait EventVerifier {
    /// What `verify_key_event` reports, and the set of digests that it
    /// leaves.
    open spec fn key_event_report<S: KeriStore>(
        &self,
        store: &S,
        event: EventV,
        attachment: Seq<char>,
        deep: Option<bool>,
        visited: Set<Seq<char>>,
        depth: usize,
    ) -> (Result<bool, KeriError>, Set<Seq<char>>) {
        arbitrary::<
            spec_fn(&Self, &S, EventV, Seq<char>, Option<bool>, Set<Seq<char>>, usize) -> (
                Result<bool, KeriError>,
                Set<Seq<char>>,
            ),
        >()(self, store, event, attachment, deep, visited, depth)
    }

    /// What `verify_transaction_event` reports, and the set of digests that
    /// it leaves.
    open spec fn transaction_event_report<S: KeriStore>(
        &self,
        store: &S,
        event: EventV,
        couples: Seq<(u128, Seq<char>)>,
        deep: Option<bool>,
        visited: Set<Seq<char>>,
        depth: usize,
    ) -> (Result<bool, KeriError>, Set<Seq<char>>) {
        arbitrary::<
            spec_fn(
                &Self,
                &S,
                EventV,
                Seq<(u128, Seq<char>)>,
                Option<bool>,
                Set<Seq<char>>,
                usize,
            ) -> (Result<bool, KeriError>, Set<Seq<char>>),
        >()(self, store, event, couples, deep, visited, depth)
    }

    /// Verifies a key event against the signatures attached to it, given as
    /// the text of the attachment group.
    fn verify_key_event<S: KeriStore>(
        &self,
        store: &S,
        event: &Event,
        attachment: &str,
        deep: Option<bool>,
        verifying: &mut VisitedSet,
        depth: usize,
    ) -> (r: Result<bool, KeriError>)
        ensures
            (r, final(verifying)@) == self.key_event_report(
                store,
                event@,
                attachment@,
                deep,
                old(verifying)@,
                depth,
            ),
    ;

    /// Verifies a transaction event against the seal source couples attached
    /// to it.
    fn verify_transaction_event<S: KeriStore>(
        &self,
        store: &S,
        event: &Event,
        couples: &SealSourceCouples,
        deep: Option<bool>,
        verifying: &mut VisitedSet,
        depth: usize,
    ) -> (r: Result<bool, KeriError>)
        ensures
            (r, final(verifying)@) == self.transaction_event_report(
                store,
                event@,
                couple_views(couples.value@),
                deep,
                old(verifying)@,
                depth,
            ),
    ;
}

/// The producers of events: of the transaction events of a credential, and of
/// the interaction event that anchors one. Each returns the digest of the
/// event and its serialization.
///
/// What a producer makes is a function of the producer and what it is
/// handed: a specification function names it. A producer that stamps its
/// events holds the instant that it stamps them with. By default the name
/// stands for some function that is not known further.
pub trait EventProducer {
    /// What `issue` returns.
    open spec fn issued(&self, said: Seq<char>, registry: Seq<char>) -> Result<
        (Seq<char>, Seq<char>),
        KeriError,
    > {
        arbitrary::<
            spec_fn(&Self, Seq<char>, Seq<char>) -> Result<(Seq<char>, Seq<char>), KeriError>,
        >()(self, said, registry)
    }

    /// What `revoke` returns.
    open spec fn revoked(&self, said: Seq<char>, registry: Seq<char>, prior: Seq<char>) -> Result<
        (Seq<char>, Seq<char>),
        KeriError,
    > {
        arbitrary::<
            spec_fn(&Self, Seq<char>, Seq<char>, Seq<char>) -> Result<
                (Seq<char>, Seq<char>),
                KeriError,
            >,
        >()(self, said, registry, prior)
    }

    /// What `interact` returns.
    open spec fn interacted(
        &self,
        keys: KeySetV,
        pre: Seq<char>,
        dig: Seq<char>,
        sn: u128,
        data: SadV,
    ) -> Result<(Seq<char>, Seq<char>), KeriError> {
        arbitrary::<
            spec_fn(&Self, KeySetV, Seq<char>, Seq<char>, u128, SadV) -> Result<
                (Seq<char>, Seq<char>),
                KeriError,
            >,
        >()(self, keys, pre, dig, sn, data)
    }

    /// The issuance event of the credential `said` in the registry
    /// `registry`.
    fn issue(&self, said: &str, registry: &str) -> (r: Result<(String, String), KeriError>)
        ensures
            match r {
                Ok((digest, text)) => self.issued(said@, registry@) == Ok::<
                    (Seq<char>, Seq<char>),
                    KeriError,
                >((digest@, text@)),
                Err(e) => self.issued(said@, registry@) == Err::<
                    (Seq<char>, Seq<char>),
                    KeriError,
                >(e),
            },
    ;

    /// The revocation event of the credential `said` in the registry
    /// `registry`, after the event with the digest `prior`.
    fn revoke(&self, said: &str, registry: &str, prior: &str) -> (r: Result<
        (String, String),
        KeriError,
    >)
        ensures
            match r {
                Ok((digest, text)) => self.revoked(said@, registry@, prior@) == Ok::<
                    (Seq<char>, Seq<char>),
                    KeriError,
                >((digest@, text@)),
                Err(e) => self.revoked(said@, registry@, prior@) == Err::<
                    (Seq<char>, Seq<char>),
                    KeriError,
                >(e),
            },
    ;

    /// The interaction event of `pre` with the sequence number `sn`, after
    /// the event with the digest `dig`, that seals `data`, signed with `keys`.
    fn interact(&self, keys: &KeySet, pre: &str, dig: &str, sn: u128, data: &Sad) -> (r: Result<
        (String, String),
        KeriError,
    >)
        requires
            data@.wf(),
        ensures
            match r {
                Ok((digest, text)) => self.interacted(keys@, pre@, dig@, sn, data@) == Ok::<
                    (Seq<char>, Seq<char>),
                    KeriError,
                >((digest@, text@)),
                Err(e) => self.interacted(keys@, pre@, dig@, sn, data@) == Err::<
                    (Seq<char>, Seq<char>),
                    KeriError,
                >(e),
            },
    ;
}

} // verus!
