use crate::creder::{
    read_credential, read_event, required_text, CrederV, EventV,
};
use crate::data::SadV;
use crate::error::KeriError;
use crate::store::KeriStore;
use crate::primitives::seconds_between;
use crate::store::SchemaValidator;
use crate::verification::{
    admitted, already_stored, anchored, chain_saids, chain_status, declared_operators,
    edges_verified, effective_operator, enforced, entered, is_revocation, node_rule,
    proven, seals_root, status_at, status_provenance, unary_among, verified, Operator,
};
use vstd::prelude::*;
use vstd::utf8::encode_utf8;

verus! {

/// The latest status event of `said` in the store is `event`.
pub open spec fn latest_event_is<S: KeriStore>(store: &S, said: Seq<char>, event: EventV) -> bool {
    store.latest_transaction_event_at(said) matches Ok(text) && read_event(encode_utf8(text))
        == Ok::<EventV, KeriError>(event)
}

/// `event` is a status event that is older than `expiry` seconds at the
/// instant `now`.
pub open spec fn is_stale(event: EventV, now: Seq<char>, expiry: int) -> bool {
    required_text(event.ked, "dt"@) matches Ok(stamp) && (seconds_between(now, stamp) matches Some(
        age,
    ) && age > expiry)
}

/// `event` is a status event that is no older than `expiry` seconds at the
/// instant `now`.
pub open spec fn is_fresh(event: EventV, now: Seq<char>, expiry: int) -> bool {
    required_text(event.ked, "dt"@) matches Ok(stamp) && (seconds_between(now, stamp) matches Some(
        age,
    ) && age <= expiry)
}

/// The credential `said` is in the store, and every credential that its
/// provenance refers to stands.
pub open spec fn chain_stands<S: KeriStore>(
    store: &S,
    said: Seq<char>,
    now: Seq<char>,
    expiry: int,
    depth: nat,
) -> bool {
    &&& depth > 0
    &&& store.acdc_at(said) matches Ok(text)
    &&& read_credential(encode_utf8(text)) matches Ok(c)
    &&& status_provenance(store, c.crd) matches Ok(prov)
    &&& chain_saids(prov) matches Ok(saids)
    &&& chain_status(store, saids, saids.len(), now, expiry, (depth - 1) as nat) == Ok::<
        bool,
        KeriError,
    >(true)
}

/// The credential `c` passes every gate that does not look at the instant,
/// and compacts to a credential with the digest `vcid`.
pub open spec fn reaches_status<S: KeriStore>(store: &S, c: CrederV, vcid: Seq<char>) -> bool {
    entered(store, c) matches Ok((found, _, _)) && found == vcid
}

/// The credential `c` passes the entry gates at the instant `now`, and the
/// validator finds that it meets its schema.
pub open spec fn passes_schema<S: KeriStore, V: SchemaValidator>(
    store: &S,
    validator: &V,
    c: CrederV,
    now: Seq<char>,
    expiry: int,
) -> bool {
    admitted(store, c, now, expiry) matches Ok((_, schema, _)) && validator.answer(schema, c.raw)
        == Ok::<bool, KeriError>(true)
}

/// A status event older than the freshness window fails the status check
/// with a validation error, whatever its type, once the credential and what
/// its provenance refers to are found to stand.
pub proof fn law_stale_status_is_invalid<S: KeriStore>(
    store: &S,
    said: Seq<char>,
    event: EventV,
    now: Seq<char>,
    expiry: int,
    depth: nat,
)
    requires
        chain_stands(store, said, now, expiry, depth),
        latest_event_is(store, said, event),
        is_stale(event, now, expiry),
    ensures
        status_at(store, said, now, expiry, depth) == Err::<bool, KeriError>(KeriError::Validation),
{
}

/// A status event older than the freshness window fails the verification of
/// a credential with a validation error, whatever its type, once the gates
/// before it are passed.
pub proof fn law_stale_credential_is_invalid<S: KeriStore, V: SchemaValidator>(
    store: &S,
    validator: &V,
    c: CrederV,
    vcid: Seq<char>,
    couples: Seq<(u128, Seq<char>)>,
    event: EventV,
    now: Seq<char>,
    expiry: int,
    depth: nat,
)
    requires
        reaches_status(store, c, vcid),
        latest_event_is(store, vcid, event),
        is_stale(event, now, expiry),
    ensures
        verified(store, validator, c, couples, now, expiry, depth) == Err::<bool, KeriError>(
            KeriError::Validation,
        ),
{
}

/// A credential whose latest status event is fresh and no revocation
/// stands, once what its provenance refers to is found to stand.
pub proof fn law_issued_stands<S: KeriStore>(
    store: &S,
    said: Seq<char>,
    event: EventV,
    now: Seq<char>,
    expiry: int,
    depth: nat,
)
    requires
        chain_stands(store, said, now, expiry, depth),
        latest_event_is(store, said, event),
        is_fresh(event, now, expiry),
        required_text(event.ked, "t"@) matches Ok(ilk) && !is_revocation(ilk),
    ensures
        status_at(store, said, now, expiry, depth) == Ok::<bool, KeriError>(true),
{
}

/// A credential whose latest status event is a fresh revocation does not
/// stand, and its verification fails with a validation error once the gates
/// before its status are passed.
pub proof fn law_revoked_is_invalid<S: KeriStore, V: SchemaValidator>(
    store: &S,
    validator: &V,
    c: CrederV,
    vcid: Seq<char>,
    couples: Seq<(u128, Seq<char>)>,
    event: EventV,
    now: Seq<char>,
    expiry: int,
    depth: nat,
)
    requires
        latest_event_is(store, vcid, event),
        is_fresh(event, now, expiry),
        required_text(event.ked, "t"@) matches Ok(ilk) && is_revocation(ilk),
    ensures
        chain_stands(store, vcid, now, expiry, depth) ==> status_at(store, vcid, now, expiry, depth)
            == Ok::<bool, KeriError>(false),
        reaches_status(store, c, vcid) ==> verified(
            store,
            validator,
            c,
            couples,
            now,
            expiry,
            depth,
        ) == Err::<bool, KeriError>(KeriError::Validation),
{
}

/// A credential whose digest does not fit its content fails with a
/// verification error, whatever the status log, the schema and the proof
/// say, once it declares a registry, compacts, names its schema and has its
/// provenance at hand.
pub proof fn law_tampered_fails<S: KeriStore, V: SchemaValidator>(
    store: &S,
    validator: &V,
    c: CrederV,
    couples: Seq<(u128, Seq<char>)>,
    now: Seq<char>,
    expiry: int,
    depth: nat,
)
    requires
        crate::creder::declared_status(c.crd) matches Ok(Some(_)),
        crate::acdc::compacted_credential(c) is Ok,
        required_text(c.crd, "s"@) is Ok,
        crate::verification::loaded_provenance(store, c.crd) is Ok,
        crate::creder::digest_fits(c.said, c.crd) == Some(false),
    ensures
        entered(store, c) == Err::<(Seq<char>, Seq<char>, SadV), KeriError>(
            KeriError::Verification,
        ),
        verified(store, validator, c, couples, now, expiry, depth) == Err::<bool, KeriError>(
            KeriError::Verification,
        ),
{
}

/// None of the first `n` seals refers to `vcid`, and each names what it
/// refers to.
pub open spec fn no_seal_for(seals: Seq<SadV>, n: nat, vcid: Seq<char>) -> bool {
    forall|i: int|
        0 <= i < n ==> (required_text(#[trigger] seals[i], "i"@) matches Ok(what) && what != vcid)
}

/// Seals of which none refers to the credential do not root it.
pub proof fn lemma_no_seal_no_root(seals: Seq<SadV>, n: nat, vcid: Seq<char>)
    requires
        n <= seals.len(),
        no_seal_for(seals, n, vcid),
    ensures
        seals_root(seals, n, vcid) == Ok::<bool, KeriError>(false),
    decreases n,
{
    if n > 0 {
        lemma_no_seal_no_root(seals, (n - 1) as nat, vcid);
        assert(required_text(seals[n - 1], "i"@) is Ok);
    }
}

/// A credential that passes its schema and whose proof points at a key
/// event without a seal for it fails with a verification error.
pub proof fn law_unanchored_fails<S: KeriStore, V: SchemaValidator>(
    store: &S,
    validator: &V,
    c: CrederV,
    couples: Seq<(u128, Seq<char>)>,
    event: EventV,
    seals: Seq<SadV>,
    now: Seq<char>,
    expiry: int,
    depth: nat,
)
    requires
        passes_schema(store, validator, c, now, expiry),
        couples.len() == 1,
        couples[0].0 <= u32::MAX,
        required_text(c.crd, "i"@) matches Ok(issuer) && (store.key_event_at(
            issuer,
            couples[0].0 as u32,
        ) matches Ok(text) && read_event(encode_utf8(text)) == Ok::<EventV, KeriError>(event)),
        event.said == couples[0].1,
        event.ked.get("a"@) == Some(SadV::List(seals)),
        no_seal_for(seals, seals.len(), admitted(store, c, now, expiry)->Ok_0.0),
    ensures
        anchored(event, couples[0].1, admitted(store, c, now, expiry)->Ok_0.0) == Err::<
            (),
            KeriError,
        >(KeriError::Verification),
        verified(store, validator, c, couples, now, expiry, depth) == Err::<bool, KeriError>(
            KeriError::Verification,
        ),
{
    let vcid = admitted(store, c, now, expiry)->Ok_0.0;
    lemma_no_seal_no_root(seals, seals.len(), vcid);
}

/// A credential that passes its schema and comes with no proof, or with
/// more than one, fails with a decoding error.
pub proof fn law_proof_count<S: KeriStore, V: SchemaValidator>(
    store: &S,
    validator: &V,
    c: CrederV,
    couples: Seq<(u128, Seq<char>)>,
    now: Seq<char>,
    expiry: int,
    depth: nat,
)
    requires
        passes_schema(store, validator, c, now, expiry),
        couples.len() != 1,
    ensures
        verified(store, validator, c, couples, now, expiry, depth) == Err::<bool, KeriError>(
            KeriError::Decoding,
        ),
{
}

/// A credential that passes every gate verifies, and what comes back is
/// whether the store holds it already.
pub proof fn law_all_gates_pass<S: KeriStore, V: SchemaValidator>(
    store: &S,
    validator: &V,
    c: CrederV,
    couples: Seq<(u128, Seq<char>)>,
    now: Seq<char>,
    expiry: int,
    depth: nat,
)
    requires
        passes_schema(store, validator, c, now, expiry),
        proven(store, c, admitted(store, c, now, expiry)->Ok_0.0, couples) matches Ok(issuer)
            && edges_verified(
            store,
            validator,
            admitted(store, c, now, expiry)->Ok_0.2,
            issuer,
            now,
            expiry,
            depth,
        ) is Ok,
    ensures
        verified(store, validator, c, couples, now, expiry, depth) == already_stored(
            store,
            admitted(store, c, now, expiry)->Ok_0.0,
        ),
{
}

/// An edge under the operator `I2I` holds only where the identifier of the
/// referenced subject is the issuer of the verifying credential: with any
/// other subject it fails with a validation error.
pub proof fn law_i2i_binds_issuer<S: KeriStore>(
    store: &S,
    node: SadV,
    said: Seq<char>,
    target: CrederV,
    subject: SadV,
    issuer: Seq<char>,
    now: Seq<char>,
    expiry: int,
    depth: nat,
)
    requires
        declared_operators(node) matches Ok(ops) && effective_operator(
            ops,
            subject.get("i"@) is Some,
        ) == Ok::<Operator, KeriError>(Operator::I2I),
        required_text(target.crd, "a"@) matches Ok(subject_said) && store.sad_at(subject_said)
            == Ok::<SadV, KeriError>(subject),
        subject is Dict,
    ensures
        enforced(Operator::I2I, subject, issuer) is Ok <==> required_text(subject, "i"@) == Ok::<
            Seq<char>,
            KeriError,
        >(issuer),
        node_rule(store, node, said, target, issuer, now, expiry, depth) is Ok ==> required_text(
            subject,
            "i"@,
        ) == Ok::<Seq<char>, KeriError>(issuer),
        required_text(subject, "i"@) matches Ok(id) ==> id != issuer ==> node_rule(
            store,
            node,
            said,
            target,
            issuer,
            now,
            expiry,
            depth,
        ) == Err::<(), KeriError>(KeriError::Validation),
{
}

/// An edge that declares `NOT` fails with a value error. An edge without
/// `NOT` that keeps two or more unary operators fails with a validation
/// error, once the subject of its target is at hand.
pub proof fn law_operator_errors<S: KeriStore>(
    store: &S,
    node: SadV,
    said: Seq<char>,
    target: CrederV,
    subject: SadV,
    issuer: Seq<char>,
    now: Seq<char>,
    expiry: int,
    depth: nat,
)
    requires
        declared_operators(node) is Ok,
    ensures
        ({
            let ops = declared_operators(node)->Ok_0;
            let negated = exists|i: int| 0 <= i < ops.len() && ops[i] == "NOT"@;
            &&& negated ==> node_rule(store, node, said, target, issuer, now, expiry, depth)
                == Err::<(), KeriError>(KeriError::Value)
            &&& (!negated && unary_among(ops, ops.len()).len() >= 2 && required_text(
                target.crd,
                "a"@,
            ) is Ok && store.sad_at(required_text(target.crd, "a"@)->Ok_0) == Ok::<
                SadV,
                KeriError,
            >(subject) && subject is Dict) ==> node_rule(
                store,
                node,
                said,
                target,
                issuer,
                now,
                expiry,
                depth,
            ) == Err::<(), KeriError>(KeriError::Validation)
        }),
{
}

} // verus!
