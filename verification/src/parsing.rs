use crate::acdc::{compact_acdc, compacted_credential};
use crate::codes::{cuttable_bytes, in_alphabet, is_in_alphabet};
use crate::creder::{
    couple_views, read_credential, read_event, required_text, Creder, Event, SealSourceCouple,
    SealSourceCouples,
};
use crate::data::{list_view, Sad, SadV};
use crate::error::KeriError;
use crate::json::{join, written};
use crate::primitives::{
    all_alphabet, ascii_text, counter_head, counter_head_of, json_head, json_head_of,
    saider_head, saider_head_of, seqner_head, seqner_head_of, sniff, sniffed, text_of, utc_now,
};
use crate::said::all_wf;
use crate::store::{EventVerifier, KeriStore, SchemaValidator};
use crate::verification::{
    verified, verify_acdc_at, DEFAULT_CHAIN_DEPTH, DEFAULT_CREDENTIAL_EXPIRY_SECONDS,
};
use crate::visited::VisitedSet;
use vstd::prelude::*;
use vstd::slice::slice_subrange;
use vstd::string::StringSliceAdditionalSpecFns;
use vstd::utf8::encode_utf8;

verus! {

/// The kinds of attachment group that the dispatcher tells apart.
#[derive(Debug, Clone, Copy, PartialEq, Eq, Structural)]
pub enum AttachmentKind {
    /// Signatures and receipts of a key event.
    AttachedMaterialQuadlets,
    /// References to anchoring events.
    SealSourceCouples,
    /// Any other group.
    Other,
}

/// The attachment group that follows a payload.
#[derive(Debug)]
pub struct Attachment {
    /// The kind of the group.
    pub kind: AttachmentKind,
    /// The group in text form.
    pub qb64: String,
    /// The couples of a group of seal source couples.
    pub couples: SealSourceCouples,
}

/// Where a message goes.
#[derive(Debug, Clone, Copy, PartialEq, Eq, Structural)]
pub enum Route {
    /// To the verifier of key events.
    KeyEvent,
    /// To the verifier of transaction events.
    StatusEvent,
    /// To the verifier of credentials.
    Credential,
}

/// The dispatch table. A key event (inception, rotation, interaction) goes
/// with attached material quadlets to the verifier of key events; a
/// transaction event (registry inception, issuance, revocation) goes with
/// seal source couples to the verifier of transaction events; a credential
/// goes with seal source couples to the verifier of credentials. Anything
/// else is a decoding error: another protocol, another event type, a
/// payload without its attachment, an attachment of the wrong kind.
pub open spec fn routed(
    ident: Seq<char>,
    ilk: Option<Seq<char>>,
    kind: Option<AttachmentKind>,
) -> Result<Route, KeriError> {
    if ident == "KERI"@ {
        match (ilk, kind) {
            (Some(t), Some(k)) => if t == "icp"@ || t == "rot"@ || t == "ixn"@ {
                if k == AttachmentKind::AttachedMaterialQuadlets {
                    Ok(Route::KeyEvent)
                } else {
                    Err(KeriError::Decoding)
                }
            } else if t == "vcp"@ || t == "iss"@ || t == "rev"@ {
                if k == AttachmentKind::SealSourceCouples {
                    Ok(Route::StatusEvent)
                } else {
                    Err(KeriError::Decoding)
                }
            } else {
                Err(KeriError::Decoding)
            },
            _ => Err(KeriError::Decoding),
        }
    } else if ident == "ACDC"@ {
        if kind == Some(AttachmentKind::SealSourceCouples) {
            Ok(Route::Credential)
        } else {
            Err(KeriError::Decoding)
        }
    } else {
        Err(KeriError::Decoding)
    }
}

/// Looks a message up in the dispatch table.
pub fn route(ident: &str, ilk: Option<&str>, kind: Option<AttachmentKind>) -> (r: Result<
    Route,
    KeriError,
>)
    ensures
        r == routed(ident@, crate::event::opt_str(ilk), kind),
{
    let ident = ident.to_owned();
    if ident == "KERI".to_owned() {
        match (ilk, kind) {
            (Some(t), Some(k)) => {
                let t = t.to_owned();
                if t == "icp".to_owned() || t == "rot".to_owned() || t == "ixn".to_owned() {
                    match k {
                        AttachmentKind::AttachedMaterialQuadlets => Ok(Route::KeyEvent),
                        _ => Err(KeriError::Decoding),
                    }
                } else if t == "vcp".to_owned() || t == "iss".to_owned() || t == "rev".to_owned() {
                    match k {
                        AttachmentKind::SealSourceCouples => Ok(Route::StatusEvent),
                        _ => Err(KeriError::Decoding),
                    }
                } else {
                    Err(KeriError::Decoding)
                }
            },
            _ => Err(KeriError::Decoding),
        }
    } else if ident == "ACDC".to_owned() {
        match kind {
            Some(AttachmentKind::SealSourceCouples) => Ok(Route::Credential),
            _ => Err(KeriError::Decoding),
        }
    } else {
        Err(KeriError::Decoding)
    }
}

/// The mathematical value of an attachment group: its kind, its text and
/// the values of its couples.
pub struct GroupV {
    pub kind: AttachmentKind,
    pub text: Seq<char>,
    pub couples: Seq<(u128, Seq<char>)>,
}

impl View for Attachment {
    type V = GroupV;

    open spec fn view(&self) -> GroupV {
        GroupV { kind: self.kind, text: self.qb64@, couples: couple_views(self.couples.value@) }
    }
}

/// The kind of an optional attachment.
pub open spec fn kind_of(attachment: Option<&Attachment>) -> Option<AttachmentKind> {
    match attachment {
        Some(a) => Some(a.kind),
        None => None,
    }
}

/// The value of an optional attachment.
pub open spec fn group_of(attachment: Option<&Attachment>) -> Option<GroupV> {
    match attachment {
        Some(a) => Some(a@),
        None => None,
    }
}

/// The kind of an optional group.
pub open spec fn kind_in(group: Option<GroupV>) -> Option<AttachmentKind> {
    match group {
        Some(g) => Some(g.kind),
        None => None,
    }
}

/// Where a payload with its attachment goes, and under which digest it is
/// verified: the payload is sniffed for its protocol and read; an event is
/// routed by its type and known by its own digest, a credential is known by
/// the digest of its compacted form.
pub open spec fn routing(payload: Seq<char>, kind: Option<AttachmentKind>) -> Result<
    (Route, Seq<char>),
    KeriError,
> {
    let raw = encode_utf8(payload);
    match sniffed(raw) {
        None => Err(KeriError::Decoding),
        Some((ident, _)) => if ident == "KERI"@ {
            match read_event(raw) {
                Err(e) => Err(e),
                Ok(event) => if kind is None {
                    Err(KeriError::Decoding)
                } else {
                    match required_text(event.ked, "t"@) {
                        Err(e) => Err(e),
                        Ok(ilk) => match routed(ident, Some(ilk), kind) {
                            Err(e) => Err(e),
                            Ok(route) => Ok((route, event.said)),
                        },
                    }
                },
            }
        } else if ident == "ACDC"@ {
            match read_credential(raw) {
                Err(e) => Err(e),
                Ok(creder) => match compacted_credential(creder) {
                    Err(e) => Err(e),
                    Ok((compacted, _)) => match routed(ident, None, kind) {
                        Err(e) => Err(e),
                        Ok(route) => Ok((route, compacted.said)),
                    },
                },
            }
        } else {
            Err(KeriError::Decoding)
        },
    }
}

/// Whether a message is verified in full: verification is not switched off,
/// and its digest is not under verification already.
pub open spec fn wants_check(verify: Option<bool>, visited: Set<Seq<char>>, said: Seq<char>) -> bool {
    verify != Some(false) && !visited.contains(said)
}

/// Decides whether a message is verified in full.
pub fn needs_check(verify: Option<bool>, visited: &VisitedSet, said: &str) -> (r: bool)
    ensures
        r == wants_check(verify, visited@, said@),
{
    let on = match verify {
        Some(b) => b,
        None => true,
    };
    on && !visited.contains(said)
}

/// Whether the store holds `said` already, by an existence check alone.
pub fn seen_said<S: KeriStore>(store: &S, said: &str) -> (r: bool)
    ensures
        r == store.sad_at(said@) is Ok,
{
    store.get_sad(said).is_ok()
}

/// What writing the first `n` of the sub-SADs `subs` to `store` gives, each
/// as JSON text, in order, up to the first that cannot be written as JSON or
/// that the store refuses: the result, and the store that is left.
pub open spec fn sads_outcome<S: KeriStore>(store: S, subs: Seq<SadV>, n: nat) -> (
    Result<(), KeriError>,
    S,
)
    decreases n,
{
    if n == 0 || n > subs.len() {
        (Ok(()), store)
    } else {
        let before = sads_outcome(store, subs, (n - 1) as nat);
        match before.0 {
            Err(e) => before,
            Ok(()) => match written(subs[n - 1]) {
                Err(e) => (Err(e), before.1),
                Ok(text) => match before.1.sad_insert(text) {
                    Err(e) => (Err(e), before.1.with_sad(text)),
                    Ok(_) => (Ok(()), before.1.with_sad(text)),
                },
            },
        }
    }
}

/// A failure among the first `n` sub-SADs is the outcome of every longer
/// prefix.
pub proof fn lemma_sads_failure_stays<S: KeriStore>(store: S, subs: Seq<SadV>, n: nat, k: nat)
    requires
        n <= k <= subs.len(),
        sads_outcome(store, subs, n).0 is Err,
    ensures
        sads_outcome(store, subs, k) == sads_outcome(store, subs, n),
    decreases k,
{
    if n < k {
        lemma_sads_failure_stays(store, subs, n, (k - 1) as nat);
    }
}

/// Writes the sub-SADs of a credential to the store, each as JSON text, in
/// order, up to the first that cannot be written as JSON or that the store
/// refuses.
fn insert_sads<S: KeriStore>(store: &mut S, sads: &Vec<Sad>) -> (r: Result<(), KeriError>)
    requires
        all_wf(list_view(sads@)),
    ensures
        (r, *final(store)) == sads_outcome(*old(store), list_view(sads@), sads@.len() as nat),
{
    let ghost subs = list_view(sads@);
    let mut i: usize = 0;
    while i < sads.len()
        invariant
            i <= sads.len(),
            subs == list_view(sads@),
            all_wf(subs),
            sads_outcome(*old(store), subs, i as nat) == (Ok::<(), KeriError>(()), *store),
        decreases sads.len() - i,
    {
        assert(subs[i as int] == sads@[i as int]@);
        let ghost before = *store;
        match sads[i].to_json() {
            Err(e) => {
                proof {
                    assert(sads_outcome(*old(store), subs, (i + 1) as nat) == (
                        Err::<(), KeriError>(e),
                        before,
                    ));
                    lemma_sads_failure_stays(
                        *old(store),
                        subs,
                        (i + 1) as nat,
                        sads@.len() as nat,
                    );
                }
                return Err(e);
            },
            Ok(text) => {
                let wrote = store.insert_sad(text.as_str());
                match wrote {
                    Err(e) => {
                        proof {
                            assert(sads_outcome(*old(store), subs, (i + 1) as nat) == (
                                Err::<(), KeriError>(e),
                                *store,
                            ));
                            lemma_sads_failure_stays(
                                *old(store),
                                subs,
                                (i + 1) as nat,
                                sads@.len() as nat,
                            );
                        }
                        return Err(e);
                    },
                    Ok(_) => {
                        assert(sads_outcome(*old(store), subs, (i + 1) as nat) == (
                            Ok::<(), KeriError>(()),
                            *store,
                        )) by {
                            assert(sads_outcome(*old(store), subs, i as nat) == (
                                Ok::<(), KeriError>(()),
                                before,
                            ));
                            assert(written(subs[i as int]) == Ok::<Seq<char>, KeriError>(text@));
                        }
                    },
                }
            },
        }
        i = i + 1;
    }
    Ok(())
}

/// What is written for a message: nothing where it is reported as held
/// already, else what its route names.
pub open spec fn planned(route: Route, existing: bool) -> Option<Route> {
    if existing {
        None
    } else {
        Some(route)
    }
}

/// Decides what is written for a message that was routed and reported on.
pub fn plan_write(route: Route, existing: bool) -> (r: Option<Route>)
    ensures
        r == planned(route, existing),
{
    if existing {
        None
    } else {
        Some(route)
    }
}

/// What the check of a routed message reports, whether the store held the
/// message already, and the set of digests under verification that the check
/// leaves. Where the message is not verified in full, the existence check
/// answers and the set stays. Else the digest of the message joins the set,
/// and the verifier that the message is routed to answers: for a credential
/// the verification of the library at the instant `now`, with the window
/// `expiry` and the chain depth `depth`.
pub open spec fn reported<S: KeriStore, E: EventVerifier, V: SchemaValidator>(
    store: &S,
    verifier: &E,
    validator: &V,
    payload: Seq<char>,
    group: GroupV,
    deep: Option<bool>,
    verify: Option<bool>,
    visited: Set<Seq<char>>,
    now: Seq<char>,
    expiry: int,
    depth: nat,
) -> (Result<bool, KeriError>, Set<Seq<char>>) {
    let raw = encode_utf8(payload);
    match routing(payload, Some(group.kind)) {
        Err(e) => (Err(e), visited),
        Ok((route, said)) => if !wants_check(verify, visited, said) {
            (Ok(store.sad_at(said) is Ok), visited)
        } else {
            match route {
                Route::KeyEvent => verifier.key_event_report(
                    store,
                    read_event(raw)->Ok_0,
                    group.text,
                    deep,
                    visited.insert(said),
                    0,
                ),
                Route::StatusEvent => verifier.transaction_event_report(
                    store,
                    read_event(raw)->Ok_0,
                    group.couples,
                    deep,
                    visited.insert(said),
                    0,
                ),
                Route::Credential => (
                    verified(
                        store,
                        validator,
                        read_credential(raw)->Ok_0,
                        group.couples,
                        now,
                        expiry,
                        depth,
                    ),
                    visited.insert(said),
                ),
            }
        },
    }
}

/// What writing a routed message that is new gives: the result, and the
/// store that is left. A key event or a transaction event goes, with its
/// attachment behind it, to the log of the identifier in its field `i`. A
/// credential goes compacted, as JSON text with its attachment behind it, to
/// the credentials of the store; then its sub-SADs are written, each as JSON
/// text, in order. The first step that fails ends the writing.
pub open spec fn write_outcome<S: KeriStore>(
    store: S,
    payload: Seq<char>,
    group: GroupV,
    route: Route,
    issuing: bool,
) -> (Result<bool, KeriError>, S) {
    let raw = encode_utf8(payload);
    match route {
        Route::Credential => match read_credential(raw) {
            Err(e) => (Err(e), store),
            Ok(creder) => match compacted_credential(creder) {
                Err(e) => (Err(e), store),
                Ok((compacted, subs)) => match written(compacted.crd) {
                    Err(e) => (Err(e), store),
                    Ok(body) => match store.acdc_insert(body + group.text, issuing) {
                        Err(e) => (Err(e), store.with_acdc(body + group.text, issuing)),
                        Ok(()) => {
                            let rest = sads_outcome(
                                store.with_acdc(body + group.text, issuing),
                                subs,
                                subs.len(),
                            );
                            match rest.0 {
                                Err(e) => (Err(e), rest.1),
                                Ok(()) => (Ok(true), rest.1),
                            }
                        },
                    },
                },
            },
        },
        _ => match read_event(raw) {
            Err(e) => (Err(e), store),
            Ok(event) => match required_text(event.ked, "i"@) {
                Err(e) => (Err(e), store),
                Ok(pre) => if route == Route::KeyEvent {
                    match store.key_event_insert(pre, event.raw + group.text) {
                        Err(e) => (Err(e), store.with_key_event(pre, event.raw + group.text)),
                        Ok(()) => (Ok(true), store.with_key_event(pre, event.raw + group.text)),
                    }
                } else {
                    match store.transaction_event_insert(pre, event.raw + group.text) {
                        Err(e) => (
                            Err(e),
                            store.with_transaction_event(pre, event.raw + group.text),
                        ),
                        Ok(()) => (
                            Ok(true),
                            store.with_transaction_event(pre, event.raw + group.text),
                        ),
                    }
                },
            },
        },
    }
}

/// What taking in one message gives: whether it was written, the store that
/// is left, and the set of digests under verification that is left. A
/// message that does not route fails with the error of the routing, and
/// store and set stay. A message whose check fails, fails with that error,
/// and the store stays. A message that is reported as held is not written,
/// and the store stays. A message that is reported as new is written.
pub open spec fn pair_outcome<S: KeriStore, E: EventVerifier, V: SchemaValidator>(
    store: S,
    verifier: &E,
    validator: &V,
    payload: Seq<char>,
    group: Option<GroupV>,
    deep: Option<bool>,
    verify: Option<bool>,
    issuing: bool,
    visited: Set<Seq<char>>,
    now: Seq<char>,
    expiry: int,
    depth: nat,
) -> (Result<bool, KeriError>, S, Set<Seq<char>>) {
    match routing(payload, kind_in(group)) {
        Err(e) => (Err(e), store, visited),
        Ok((route, _)) => {
            let report = reported(
                &store,
                verifier,
                validator,
                payload,
                group->Some_0,
                deep,
                verify,
                visited,
                now,
                expiry,
                depth,
            );
            match report.0 {
                Err(e) => (Err(e), store, report.1),
                Ok(true) => (Ok(false), store, report.1),
                Ok(false) => {
                    let wrote = write_outcome(store, payload, group->Some_0, route, issuing);
                    (wrote.0, wrote.1, report.1)
                },
            }
        },
    }
}

/// A payload without an attachment does not route.
pub proof fn lemma_routing_wants_attachment(payload: Seq<char>)
    ensures
        routing(payload, None) is Err,
{
}

/// Takes in one message of a stream at the instant `now`: the payload with
/// the attachment group that follows it. The message is routed; verified by
/// the verifier that it is routed to, unless verification is switched off or
/// its digest is under verification already, in which case an existence
/// check stands in; and written to the store where it is reported as new.
/// Returns whether it was written.
pub fn ingest_pair_at<S: KeriStore, E: EventVerifier, V: SchemaValidator>(
    store: &mut S,
    verifier: &E,
    validator: &V,
    payload: &str,
    attachment: Option<&Attachment>,
    deep: Option<bool>,
    verify: Option<bool>,
    issuing: bool,
    verifying: &mut VisitedSet,
    now: &str,
    expiry: i64,
    depth: usize,
) -> (r: Result<bool, KeriError>)
    ensures
        (r, *final(store), final(verifying)@) == pair_outcome(
            *old(store),
            verifier,
            validator,
            payload@,
            group_of(attachment),
            deep,
            verify,
            issuing,
            old(verifying)@,
            now@,
            expiry as int,
            depth as nat,
        ),
{
    assert(kind_in(group_of(attachment)) == kind_of(attachment));
    let raw = payload.as_bytes();
    let ident = match sniff(raw) {
        Ok((ident, _)) => ident,
        Err(_) => {
            return Err(KeriError::Decoding);
        },
    };
    if ident == "KERI".to_owned() {
        let event = Event::new_with_raw(raw)?;
        let group = match attachment {
            Some(group) => group,
            None => {
                return Err(KeriError::Decoding);
            },
        };
        let ilk = event.ilk()?;
        let said = event.said().clone();
        let way = route(ident.as_str(), Some(ilk.as_str()), Some(group.kind))?;
        let existing = if needs_check(verify, verifying, said.as_str()) {
            verifying.insert(said.clone());
            match way {
                Route::KeyEvent => verifier.verify_key_event(
                    &*store,
                    &event,
                    group.qb64.as_str(),
                    deep,
                    verifying,
                    0,
                )?,
                _ => verifier.verify_transaction_event(
                    &*store,
                    &event,
                    &group.couples,
                    deep,
                    verifying,
                    0,
                )?,
            }
        } else {
            seen_said(&*store, said.as_str())
        };
        match plan_write(way, existing) {
            None => Ok(false),
            Some(what) => {
                let pre = event.pre()?;
                let text = join(event.raw().clone(), group.qb64.as_str());
                match what {
                    Route::KeyEvent => store.insert_key_event(pre.as_str(), text.as_str())?,
                    _ => store.insert_transaction_event(pre.as_str(), text.as_str())?,
                }
                Ok(true)
            },
        }
    } else if ident == "ACDC".to_owned() {
        let creder = Creder::new_with_raw(raw)?;
        let (compacted, sads) = compact_acdc(&creder)?;
        let said = compacted.said().clone();
        let group = match attachment {
            Some(group) => group,
            None => {
                return Err(KeriError::Decoding);
            },
        };
        let way = route(ident.as_str(), None, Some(group.kind))?;
        let existing = if needs_check(verify, verifying, said.as_str()) {
            verifying.insert(said.clone());
            verify_acdc_at(&*store, validator, &creder, &group.couples, now, expiry, depth)?
        } else {
            seen_said(&*store, said.as_str())
        };
        match plan_write(way, existing) {
            None => Ok(false),
            Some(_) => {
                let body = compacted.crd().to_json()?;
                let text = join(body, group.qb64.as_str());
                store.insert_acdc(text.as_str(), issuing)?;
                insert_sads(store, &sads)?;
                Ok(true)
            },
        }
    } else {
        Err(KeriError::Decoding)
    }
}

/// The mathematical value of an item of a stream: a payload as JSON text,
/// or an attachment group.
///
/// The stream is framed item by item, on bytes: the first byte of an item
/// tells a payload from a group; the JSON library reads the payload, which
/// may hold any text; the primitives read the counter of a group and the
/// sequence numbers and digests of its couples, from the bytes of the
/// base64 alphabet that stand there. The frame itself (where an item ends,
/// which groups carry what) is stated and verified here, so that every
/// stream, also one that is none, gets an answer.
pub enum ItemV {
    Payload(Seq<char>),
    Group(GroupV),
}

/// An item of a stream.
#[derive(Debug)]
pub enum Item {
    /// A payload, as JSON text.
    Payload(String),
    /// An attachment group.
    Group(Attachment),
}

/// The value of an item.
pub open spec fn item_view(item: Item) -> ItemV {
    match item {
        Item::Payload(text) => ItemV::Payload(text@),
        Item::Group(group) => ItemV::Group(group@),
    }
}

/// The bytes from position `p` on.
pub open spec fn tail(bytes: Seq<u8>, p: nat) -> Seq<u8> {
    bytes.subrange(p as int, bytes.len() as int)
}

/// The number of bytes of the base64 alphabet that stand at position `p`
/// without a break.
pub open spec fn run_len(bytes: Seq<u8>, p: nat) -> nat
    decreases bytes.len() - p,
{
    if p < bytes.len() && in_alphabet(bytes[p as int]) {
        1 + run_len(bytes, p + 1)
    } else {
        0
    }
}

/// The bytes of the base64 alphabet that stand at position `p` without a
/// break: what a group there can be read from.
pub open spec fn run_at(bytes: Seq<u8>, p: nat) -> Seq<u8> {
    bytes.subrange(p as int, (p + run_len(bytes, p)) as int)
}

/// Finds the end of the run of bytes of the alphabet at position `p`.
fn read_run(bytes: &[u8], p: usize) -> (end: usize)
    requires
        p <= bytes@.len(),
    ensures
        end == p + run_len(bytes@, p as nat),
        p <= end <= bytes@.len(),
        all_alphabet(bytes@.subrange(p as int, end as int)),
{
    let mut i: usize = p;
    let mut more = true;
    while more && i < bytes.len()
        invariant
            p <= i <= bytes@.len(),
            run_len(bytes@, p as nat) == (i - p) + run_len(bytes@, i as nat),
            forall|k: int| p <= k < i ==> in_alphabet(#[trigger] bytes@[k]),
            !more ==> run_len(bytes@, i as nat) == 0,
        decreases
                (if more {
                    1 + bytes@.len() - i
                } else {
                    0
                }),
    {
        if is_in_alphabet(bytes[i]) {
            i = i + 1;
        } else {
            more = false;
        }
    }
    i
}

/// The `n` seal source couples that stand in `rest` from position `at` on,
/// each a sequence number and a digest that the primitives can cut from the
/// bytes, and the position behind them.
pub open spec fn couples_at(rest: Seq<u8>, at: nat, n: nat) -> Option<
    (Seq<(u128, Seq<char>)>, nat),
>
    decreases n,
{
    if at > rest.len() {
        None
    } else if n == 0 {
        Some((Seq::empty(), at))
    } else if !cuttable_bytes(tail(rest, at)) {
        None
    } else {
        match seqner_head_of(tail(rest, at)) {
            None => None,
            Some((sn, s1)) => if at + s1 > rest.len() || !cuttable_bytes(
                tail(rest, (at + s1) as nat),
            ) {
                None
            } else {
                match saider_head_of(tail(rest, (at + s1) as nat)) {
                    None => None,
                    Some((said, s2)) => if at + s1 + s2 > rest.len() {
                        None
                    } else {
                        match couples_at(rest, (at + s1 + s2) as nat, (n - 1) as nat) {
                            None => None,
                            Some((more, end)) => Some((seq![(sn, said)] + more, end)),
                        }
                    },
                }
            },
        }
    }
}

/// The attachment group at the head of `rest`, which starts at position `p`
/// of its stream, and the position behind it. A group of attached material
/// quadlets takes four characters for each quadlet that its counter counts;
/// a group of seal source couples takes its couples; of any other group only
/// the counter is read, since no message goes with it.
pub open spec fn group_at(rest: Seq<u8>, p: nat) -> Option<(ItemV, nat)> {
    if rest.len() < 2 {
        None
    } else {
        match counter_head_of(rest) {
            None => None,
            Some((code, count, size)) => if size == 0 || size > rest.len() {
                None
            } else if code == "-V"@ {
                if size + 4 * count > rest.len() {
                    None
                } else {
                    Some(
                        (
                            ItemV::Group(
                                GroupV {
                                    kind: AttachmentKind::AttachedMaterialQuadlets,
                                    text: ascii_text(rest.subrange(0, size + 4 * count)),
                                    couples: Seq::empty(),
                                },
                            ),
                            (p + size + 4 * count) as nat,
                        ),
                    )
                }
            } else if code == "-G"@ {
                match couples_at(rest, size as nat, count as nat) {
                    None => None,
                    Some((couples, end)) => Some(
                        (
                            ItemV::Group(
                                GroupV {
                                    kind: AttachmentKind::SealSourceCouples,
                                    text: ascii_text(rest.subrange(0, end as int)),
                                    couples,
                                },
                            ),
                            p + end,
                        ),
                    ),
                }
            } else {
                Some(
                    (
                        ItemV::Group(
                            GroupV {
                                kind: AttachmentKind::Other,
                                text: ascii_text(rest.subrange(0, size as int)),
                                couples: Seq::empty(),
                            },
                        ),
                        (p + size) as nat,
                    ),
                )
            },
        }
    }
}

/// The item that stands at position `p` of a stream, and the position
/// behind it. The first byte tells what stands there: a JSON payload, an
/// attachment group, or nothing that the stream can go on with.
pub open spec fn item_at(bytes: Seq<u8>, p: nat) -> Option<(ItemV, nat)> {
    if p >= bytes.len() {
        None
    } else {
        let first = bytes[p as int];
        if 0x60 <= first && first < 0x80 {
            match json_head_of(tail(bytes, p)) {
                Some((payload, used)) => if 0 < used && used <= bytes.len() - p {
                    Some((ItemV::Payload(payload), (p + used) as nat))
                } else {
                    None
                },
                None => None,
            }
        } else if 0x20 <= first && first < 0x60 {
            group_at(run_at(bytes, p), p)
        } else {
            None
        }
    }
}

/// Whether bytes of the alphabet can be cut: the first is no digit from 4 to
/// 9.
fn starts_cuttable(bytes: &[u8]) -> (r: bool)
    requires
        all_alphabet(bytes@),
    ensures
        r == cuttable_bytes(bytes@),
{
    if bytes.len() == 0 {
        return true;
    }
    let first = bytes[0];
    !(first >= 0x34 && first <= 0x39)
}

/// Reads `n` seal source couples from position `at` of `rest` on, and puts
/// them behind those in `out`.
fn read_couples(rest: &[u8], at: usize, n: u32, out: &mut Vec<SealSourceCouple>) -> (r: Option<
    usize,
>)
    requires
        all_alphabet(rest@),
    ensures
        match couples_at(rest@, at as nat, n as nat) {
            Some((couples, end)) => r == Some(end as usize) && at <= end <= rest@.len()
                && couple_views(final(out)@) == couple_views(old(out)@) + couples,
            None => r is None,
        },
    decreases n,
{
    let len = rest.len();
    if at > len {
        return None;
    }
    if n == 0 {
        assert(couple_views(out@) =~= couple_views(out@) + Seq::empty());
        return Some(at);
    }
    let number = slice_subrange(rest, at, len);
    if !starts_cuttable(number) {
        return None;
    }
    let (sn, s1) = match seqner_head(number) {
        Some(found) => found,
        None => {
            return None;
        },
    };
    if s1 > len - at {
        return None;
    }
    let digest = slice_subrange(rest, at + s1, len);
    if !starts_cuttable(digest) {
        return None;
    }
    let (said, s2) = match saider_head(digest) {
        Some(found) => found,
        None => {
            return None;
        },
    };
    if s2 > len - at - s1 {
        return None;
    }
    let ghost before = couple_views(out@);
    out.push(SealSourceCouple { sn, said });
    assert(couple_views(out@) =~= before.push((sn, said@)));
    let r = read_couples(rest, at + s1 + s2, n - 1, out);
    proof {
        if let Some((more, _)) = couples_at(rest@, (at + s1 + s2) as nat, (n - 1) as nat) {
            assert(before.push((sn, said@)) + more =~= before + (seq![(sn, said@)] + more));
        }
    }
    r
}

/// Reads the attachment group at the head of `rest`, which starts at
/// position `p` of its stream.
fn read_group(rest: &[u8], p: usize) -> (r: Option<(Item, usize)>)
    requires
        all_alphabet(rest@),
        p + rest@.len() <= usize::MAX,
    ensures
        match group_at(rest@, p as nat) {
            Some((item, q)) => r matches Some((found, next)) && item_view(found) == item && next
                == q && p < q <= p + rest@.len(),
            None => r is None,
        },
{
    let room = rest.len();
    if room < 2 {
        return None;
    }
    let (code, count, size) = match counter_head(rest) {
        Some(found) => found,
        None => {
            return None;
        },
    };
    if size == 0 || size > room {
        return None;
    }
    if code == "-V".to_owned() {
        if count as u64 * 4 > (room - size) as u64 {
            return None;
        }
        let end = size + (count as usize) * 4;
        let qb64 = text_of(slice_subrange(rest, 0, end));
        let none: Vec<SealSourceCouple> = Vec::new();
        assert(couple_views(none@) =~= Seq::empty());
        let group = Attachment {
            kind: AttachmentKind::AttachedMaterialQuadlets,
            qb64,
            couples: SealSourceCouples { value: none },
        };
        Some((Item::Group(group), p + end))
    } else if code == "-G".to_owned() {
        let mut value: Vec<SealSourceCouple> = Vec::new();
        assert(couple_views(value@) =~= Seq::empty());
        let end = match read_couples(rest, size, count, &mut value) {
            Some(end) => end,
            None => {
                return None;
            },
        };
        assert(Seq::<(u128, Seq<char>)>::empty() + couples_at(
            rest@,
            size as nat,
            count as nat,
        )->Some_0.0 =~= couples_at(rest@, size as nat, count as nat)->Some_0.0);
        let qb64 = text_of(slice_subrange(rest, 0, end));
        let group = Attachment {
            kind: AttachmentKind::SealSourceCouples,
            qb64,
            couples: SealSourceCouples { value },
        };
        Some((Item::Group(group), p + end))
    } else {
        let qb64 = text_of(slice_subrange(rest, 0, size));
        let none: Vec<SealSourceCouple> = Vec::new();
        assert(couple_views(none@) =~= Seq::empty());
        let group = Attachment {
            kind: AttachmentKind::Other,
            qb64,
            couples: SealSourceCouples { value: none },
        };
        Some((Item::Group(group), p + size))
    }
}

/// Reads the item that stands at position `p` of a stream.
pub fn read_item(bytes: &[u8], p: usize) -> (r: Option<(Item, usize)>)
    ensures
        match item_at(bytes@, p as nat) {
            Some((item, q)) => r matches Some((found, next)) && item_view(found) == item && next
                == q && p < q <= bytes@.len(),
            None => r is None,
        },
{
    let len = bytes.len();
    if p >= len {
        return None;
    }
    let first = bytes[p];
    if first >= 0x60 && first < 0x80 {
        let rest = slice_subrange(bytes, p, len);
        match json_head(rest) {
            Some((payload, used)) => {
                if used > 0 && used <= len - p {
                    Some((Item::Payload(payload), p + used))
                } else {
                    None
                }
            },
            None => None,
        }
    } else if first >= 0x20 && first < 0x60 {
        let end = read_run(bytes, p);
        let rest = slice_subrange(bytes, p, end);
        read_group(rest, p)
    } else {
        None
    }
}

/// The attachment group that stands at position `q`, where one stands
/// there, and the position behind it.
pub open spec fn group_after(bytes: Seq<u8>, q: nat) -> Option<(GroupV, nat)> {
    match item_at(bytes, q) {
        Some((ItemV::Group(group), next)) => Some((group, next)),
        _ => None,
    }
}

/// The group of an optional group with its end.
pub open spec fn group_in(following: Option<(GroupV, nat)>) -> Option<GroupV> {
    match following {
        Some((group, _)) => Some(group),
        None => None,
    }
}

/// What taking in a stream from position `p` on gives, with the store, the
/// set of digests under verification and the count of written messages that
/// the messages before `p` left: the number of messages written, or the
/// error of the first message that fails, and the store that is left.
///
/// The stream ends where no item stands. A group where a payload has to
/// stand is a decoding error. A payload is taken in with the group that
/// follows it, or with none where none follows. The first message that
/// fails ends the stream with its error: the fault of its routing, the
/// error of its check, or the error of its writing. What was written before
/// stays written.
pub open spec fn stream_outcome<S: KeriStore, E: EventVerifier, V: SchemaValidator>(
    store: S,
    verifier: &E,
    validator: &V,
    bytes: Seq<u8>,
    p: nat,
    deep: Option<bool>,
    verify: Option<bool>,
    issuing: bool,
    visited: Set<Seq<char>>,
    now: Seq<char>,
    expiry: int,
    depth: nat,
    count: nat,
) -> (Result<nat, KeriError>, S)
    decreases bytes.len() - p,
{
    match item_at(bytes, p) {
        None => (Ok(count), store),
        Some((ItemV::Group(_), _)) => (Err(KeriError::Decoding), store),
        Some((ItemV::Payload(payload), q)) => {
            let following = group_after(bytes, q);
            let taken = pair_outcome(
                store,
                verifier,
                validator,
                payload,
                group_in(following),
                deep,
                verify,
                issuing,
                visited,
                now,
                expiry,
                depth,
            );
            match (taken.0, following) {
                (Err(e), _) => (Err(e), taken.1),
                (Ok(wrote), Some((_, next))) => if p < next && next <= bytes.len() {
                    stream_outcome(
                        taken.1,
                        verifier,
                        validator,
                        bytes,
                        next,
                        deep,
                        verify,
                        issuing,
                        taken.2,
                        now,
                        expiry,
                        depth,
                        if wrote {
                            count + 1
                        } else {
                            count
                        },
                    )
                } else {
                    (Ok(count), taken.1)
                },
                (Ok(_), None) => (Ok(count), taken.1),
            }
        },
    }
}

/// What taking in a stream gives: an empty stream is a decoding error; any
/// other is taken in from its first byte on, with no digest under
/// verification and nothing written yet.
pub open spec fn stream_result<S: KeriStore, E: EventVerifier, V: SchemaValidator>(
    store: S,
    verifier: &E,
    validator: &V,
    bytes: Seq<u8>,
    deep: Option<bool>,
    verify: Option<bool>,
    issuing: bool,
    now: Seq<char>,
    expiry: int,
    depth: nat,
) -> (Result<nat, KeriError>, S) {
    if bytes.len() == 0 {
        (Err(KeriError::Decoding), store)
    } else {
        stream_outcome(
            store,
            verifier,
            validator,
            bytes,
            0,
            deep,
            verify,
            issuing,
            Set::empty(),
            now,
            expiry,
            depth,
            0,
        )
    }
}

/// From position `p` on, the check of every message of the stream reports
/// the message as held already, with the set of digests under verification
/// that the checks before it left.
pub open spec fn all_reported_held<S: KeriStore, E: EventVerifier, V: SchemaValidator>(
    store: &S,
    verifier: &E,
    validator: &V,
    bytes: Seq<u8>,
    p: nat,
    deep: Option<bool>,
    verify: Option<bool>,
    visited: Set<Seq<char>>,
    now: Seq<char>,
    expiry: int,
    depth: nat,
) -> bool
    decreases bytes.len() - p,
{
    match item_at(bytes, p) {
        None => true,
        Some((ItemV::Group(_), _)) => false,
        Some((ItemV::Payload(payload), q)) => match group_after(bytes, q) {
            None => false,
            Some((group, next)) => {
                let report = reported(
                    store,
                    verifier,
                    validator,
                    payload,
                    group,
                    deep,
                    verify,
                    visited,
                    now,
                    expiry,
                    depth,
                );
                &&& p < next && next <= bytes.len()
                &&& routing(payload, Some(group.kind)) is Ok
                &&& report.0 == Ok::<bool, KeriError>(true)
                &&& all_reported_held(
                    store,
                    verifier,
                    validator,
                    bytes,
                    next,
                    deep,
                    verify,
                    report.1,
                    now,
                    expiry,
                    depth,
                )
            },
        },
    }
}

/// Taking in a stream every message of which is reported as held already
/// writes nothing: it succeeds, counts no message and leaves the store as it
/// was. So does a second pass over a stream, where the first pass left a
/// store in which the checks report every message of the stream as held.
pub proof fn law_held_stream_writes_nothing<S: KeriStore, E: EventVerifier, V: SchemaValidator>(
    store: S,
    verifier: &E,
    validator: &V,
    bytes: Seq<u8>,
    p: nat,
    deep: Option<bool>,
    verify: Option<bool>,
    issuing: bool,
    visited: Set<Seq<char>>,
    now: Seq<char>,
    expiry: int,
    depth: nat,
    count: nat,
)
    requires
        all_reported_held(
            &store,
            verifier,
            validator,
            bytes,
            p,
            deep,
            verify,
            visited,
            now,
            expiry,
            depth,
        ),
    ensures
        stream_outcome(
            store,
            verifier,
            validator,
            bytes,
            p,
            deep,
            verify,
            issuing,
            visited,
            now,
            expiry,
            depth,
            count,
        ) == (Ok::<nat, KeriError>(count), store),
    decreases bytes.len() - p,
{
    match item_at(bytes, p) {
        Some((ItemV::Payload(payload), q)) => {
            let (group, next) = group_after(bytes, q)->Some_0;
            let report = reported(
                &store,
                verifier,
                validator,
                payload,
                group,
                deep,
                verify,
                visited,
                now,
                expiry,
                depth,
            );
            law_held_stream_writes_nothing(
                store,
                verifier,
                validator,
                bytes,
                next,
                deep,
                verify,
                issuing,
                report.1,
                now,
                expiry,
                depth,
                count,
            );
        },
        _ => {},
    }
}

/// Taking in a stream a second time writes nothing, where the first pass
/// left a store in which the checks report every message of the stream as
/// held: the second pass succeeds, counts no message and leaves the store
/// that the first pass left. Whether a store holds what was written to it,
/// and whether the verifiers report what the store holds as held, is theirs
/// to say: where they do not, a second pass writes again or fails.
pub proof fn law_second_pass_writes_nothing<S: KeriStore, E: EventVerifier, V: SchemaValidator>(
    store: S,
    verifier: &E,
    validator: &V,
    bytes: Seq<u8>,
    deep: Option<bool>,
    verify: Option<bool>,
    issuing: bool,
    first: Seq<char>,
    second: Seq<char>,
    expiry: int,
    depth: nat,
)
    requires
        stream_result(
            store,
            verifier,
            validator,
            bytes,
            deep,
            verify,
            issuing,
            first,
            expiry,
            depth,
        ).0 is Ok,
        all_reported_held(
            &stream_result(
                store,
                verifier,
                validator,
                bytes,
                deep,
                verify,
                issuing,
                first,
                expiry,
                depth,
            ).1,
            verifier,
            validator,
            bytes,
            0,
            deep,
            verify,
            Set::empty(),
            second,
            expiry,
            depth,
        ),
    ensures
        stream_result(
            stream_result(
                store,
                verifier,
                validator,
                bytes,
                deep,
                verify,
                issuing,
                first,
                expiry,
                depth,
            ).1,
            verifier,
            validator,
            bytes,
            deep,
            verify,
            issuing,
            second,
            expiry,
            depth,
        ) == (
            Ok::<nat, KeriError>(0),
            stream_result(
                store,
                verifier,
                validator,
                bytes,
                deep,
                verify,
                issuing,
                first,
                expiry,
                depth,
            ).1,
        ),
{
    let left = stream_result(
        store,
        verifier,
        validator,
        bytes,
        deep,
        verify,
        issuing,
        first,
        expiry,
        depth,
    ).1;
    law_held_stream_writes_nothing(
        left,
        verifier,
        validator,
        bytes,
        0,
        deep,
        verify,
        issuing,
        Set::empty(),
        second,
        expiry,
        depth,
        0,
    );
}

/// The stream fails at position `p` with `e`: taking in the message that
/// stands there fails with that error, or a group stands there where a
/// payload has to stand and the error is a decoding error.
pub open spec fn fails_at<S: KeriStore, E: EventVerifier, V: SchemaValidator>(
    store: S,
    verifier: &E,
    validator: &V,
    bytes: Seq<u8>,
    p: nat,
    deep: Option<bool>,
    verify: Option<bool>,
    issuing: bool,
    visited: Set<Seq<char>>,
    now: Seq<char>,
    expiry: int,
    depth: nat,
    e: KeriError,
) -> bool {
    match item_at(bytes, p) {
        None => false,
        Some((ItemV::Group(_), _)) => e == KeriError::Decoding,
        Some((ItemV::Payload(payload), q)) => pair_outcome(
            store,
            verifier,
            validator,
            payload,
            group_in(group_after(bytes, q)),
            deep,
            verify,
            issuing,
            visited,
            now,
            expiry,
            depth,
        ).0 == Err::<bool, KeriError>(e),
    }
}

/// Where taking in a stream fails, some message of it is the first that
/// fails, and the error is that of its routing, its check or its writing:
/// there are a position, and the store and the set of digests that the
/// messages before it left, at which the message fails with that error.
pub proof fn law_stream_fails_with_a_message<
    S: KeriStore,
    E: EventVerifier,
    V: SchemaValidator,
>(
    store: S,
    verifier: &E,
    validator: &V,
    bytes: Seq<u8>,
    p: nat,
    deep: Option<bool>,
    verify: Option<bool>,
    issuing: bool,
    visited: Set<Seq<char>>,
    now: Seq<char>,
    expiry: int,
    depth: nat,
    count: nat,
) -> (at: (S, nat, Set<Seq<char>>))
    requires
        stream_outcome(
            store,
            verifier,
            validator,
            bytes,
            p,
            deep,
            verify,
            issuing,
            visited,
            now,
            expiry,
            depth,
            count,
        ).0 is Err,
    ensures
        p <= at.1 < bytes.len(),
        fails_at(
            at.0,
            verifier,
            validator,
            bytes,
            at.1,
            deep,
            verify,
            issuing,
            at.2,
            now,
            expiry,
            depth,
            stream_outcome(
                store,
                verifier,
                validator,
                bytes,
                p,
                deep,
                verify,
                issuing,
                visited,
                now,
                expiry,
                depth,
                count,
            ).0->Err_0,
        ),
    decreases bytes.len() - p,
{
    match item_at(bytes, p) {
        Some((ItemV::Payload(payload), q)) => {
            let following = group_after(bytes, q);
            let taken = pair_outcome(
                store,
                verifier,
                validator,
                payload,
                group_in(following),
                deep,
                verify,
                issuing,
                visited,
                now,
                expiry,
                depth,
            );
            match (taken.0, following) {
                (Ok(wrote), Some((_, next))) => {
                    law_stream_fails_with_a_message(
                        taken.1,
                        verifier,
                        validator,
                        bytes,
                        next,
                        deep,
                        verify,
                        issuing,
                        taken.2,
                        now,
                        expiry,
                        depth,
                        if wrote {
                            count + 1
                        } else {
                            count
                        },
                    )
                },
                _ => (store, p, visited),
            }
        },
        _ => (store, p, visited),
    }
}

/// The count of a result as a number.
pub open spec fn counted(r: Result<usize, KeriError>) -> Result<nat, KeriError> {
    match r {
        Ok(n) => Ok(n as nat),
        Err(e) => Err(e),
    }
}

/// A result without its count.
pub open spec fn uncounted<S>(x: (Result<nat, KeriError>, S)) -> (Result<(), KeriError>, S) {
    match x.0 {
        Ok(_) => (Ok(()), x.1),
        Err(e) => (Err(e), x.1),
    }
}

/// Takes in a stream of pipelined messages at the instant `now`, with the
/// freshness window `expiry` and the chain depth `depth` for the
/// credentials in it, and tells how many messages were written to the
/// store. Every payload has to be followed by its attachment group. One
/// visited set serves the whole stream. The first message that fails ends
/// the call with its error; what was written before it stays written. The
/// stream ends where no item stands any more.
#[verifier::loop_isolation(false)]
pub fn ingest_stream_at<S: KeriStore, E: EventVerifier, V: SchemaValidator>(
    store: &mut S,
    verifier: &E,
    validator: &V,
    messages: &str,
    deep: Option<bool>,
    verify: Option<bool>,
    issuing: bool,
    now: &str,
    expiry: i64,
    depth: usize,
) -> (r: Result<usize, KeriError>)
    ensures
        (counted(r), *final(store)) == stream_result(
            *old(store),
            verifier,
            validator,
            encode_utf8(messages@),
            deep,
            verify,
            issuing,
            now@,
            expiry as int,
            depth as nat,
        ),
{
    let mut verifying = VisitedSet::new();
    let bytes = messages.as_bytes();
    let len = bytes.len();
    if len == 0 {
        return Err(KeriError::Decoding);
    }
    let ghost text = bytes@;
    let ghost whole = stream_result(
        *old(store),
        verifier,
        validator,
        text,
        deep,
        verify,
        issuing,
        now@,
        expiry as int,
        depth as nat,
    );
    let mut written: usize = 0;
    let mut p: usize = 0;
    let mut done = false;
    while !done && p < len
        invariant
            p <= len,
            written <= p,
            len == text.len(),
            text == bytes@,
            whole == stream_outcome(
                *store,
                verifier,
                validator,
                text,
                p as nat,
                deep,
                verify,
                issuing,
                verifying@,
                now@,
                expiry as int,
                depth as nat,
                written as nat,
            ),
            done ==> item_at(text, p as nat) is None,
        decreases
                (if done {
                    0
                } else {
                    1 + len - p
                }),
    {
        match read_item(bytes, p) {
            None => {
                done = true;
            },
            Some((Item::Group(_), _)) => {
                return Err(KeriError::Decoding);
            },
            Some((Item::Payload(payload), q)) => {
                let (attachment, next) = match read_item(bytes, q) {
                    Some((Item::Group(group), next)) => (Some(group), next),
                    _ => (None, q),
                };
                let following = attachment.as_ref();
                assert(group_of(following) == group_in(group_after(text, q as nat)));
                let wrote = ingest_pair_at(
                    store,
                    verifier,
                    validator,
                    payload.as_str(),
                    following,
                    deep,
                    verify,
                    issuing,
                    &mut verifying,
                    now,
                    expiry,
                    depth,
                )?;
                assert(attachment is Some) by {
                    lemma_routing_wants_attachment(payload@);
                }
                if wrote {
                    written = written + 1;
                }
                p = next;
            },
        }
    }
    Ok(written)
}

/// Takes in a stream of pipelined messages now, with the default freshness
/// window and chain depth, and tells how many of them were written to the
/// store. The instant is read from the clock once for the stream: the result
/// and the store that is left are those of the stream at some instant.
pub fn ingest_stream<S: KeriStore, E: EventVerifier, V: SchemaValidator>(
    store: &mut S,
    verifier: &E,
    validator: &V,
    messages: &str,
    deep: Option<bool>,
    verify: Option<bool>,
    issuing: bool,
) -> (r: Result<usize, KeriError>)
    ensures
        exists|now: Seq<char>|
            (counted(r), *final(store)) == #[trigger] stream_result(
                *old(store),
                verifier,
                validator,
                encode_utf8(messages@),
                deep,
                verify,
                issuing,
                now,
                DEFAULT_CREDENTIAL_EXPIRY_SECONDS as int,
                DEFAULT_CHAIN_DEPTH as nat,
            ),
{
    let now = utc_now();
    ingest_stream_at(
        store,
        verifier,
        validator,
        messages,
        deep,
        verify,
        issuing,
        now.as_str(),
        DEFAULT_CREDENTIAL_EXPIRY_SECONDS,
        DEFAULT_CHAIN_DEPTH,
    )
}

/// Takes in a stream of pipelined messages: each payload (key event,
/// transaction event or credential) with the attachment group that follows
/// it is routed to its verifier and written to the store where the verifier
/// reports it as newly verified. With `verify` switched off an existence
/// check stands in for the verifiers. `deep` is handed on to the verifiers
/// of events; `issuing` marks credentials as issued by the controller of the
/// store. The result and the store that is left are those of the stream at
/// the instant that the clock gave.
pub fn ingest_messages<S: KeriStore, E: EventVerifier, V: SchemaValidator>(
    store: &mut S,
    verifier: &E,
    validator: &V,
    messages: &str,
    deep: Option<bool>,
    verify: Option<bool>,
    issuing: bool,
) -> (r: Result<(), KeriError>)
    ensures
        exists|now: Seq<char>|
            (r, *final(store)) == uncounted(
                #[trigger] stream_result(
                    *old(store),
                    verifier,
                    validator,
                    encode_utf8(messages@),
                    deep,
                    verify,
                    issuing,
                    now,
                    DEFAULT_CREDENTIAL_EXPIRY_SECONDS as int,
                    DEFAULT_CHAIN_DEPTH as nat,
                ),
            ),
{
    match ingest_stream(store, verifier, validator, messages, deep, verify, issuing) {
        Ok(_) => Ok(()),
        Err(e) => Err(e),
    }
}

} // verus!
