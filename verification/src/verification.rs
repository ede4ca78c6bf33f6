use crate::acdc::{compact_acdc, compacted_credential};
use crate::creder::{
    check_digest, couple_views, declared_status, digest_fits, read_credential, read_event,
    read_text,
    required_text, Creder, CrederV, Event, EventV, SealSourceCouples,
};
use crate::data::{entries_view, list_view, EntriesV, Sad, SadV};
use crate::error::KeriError;
use crate::keys::texts;
use crate::primitives::{seconds_between, utc_now, whole_seconds_between};
use crate::store::{KeriStore, SchemaValidator};
use vstd::prelude::*;
use vstd::utf8::encode_utf8;

verus! {

/// The freshness window of a status event, in seconds, where none is
/// configured.
pub const DEFAULT_CREDENTIAL_EXPIRY_SECONDS: i64 = 36000000000;

/// How many credentials deep a chain of provenance is followed where no
/// limit is configured: as deep as the machine can count.
pub const DEFAULT_CHAIN_DEPTH: usize = usize::MAX;

/// The unary operator of an edge.
#[derive(Debug, Clone, Copy, PartialEq, Eq, Structural)]
pub enum Operator {
    /// The subject of the referenced credential is the issuer of this one.
    I2I,
    /// No constraint.
    NI2I,
    /// The issuer of this one is a delegate of the subject of the referenced
    /// credential. Recognised, never satisfied.
    DI2I,
}

/// The edge groups of a provenance block: the block itself where it is a
/// mapping, its items where it is a sequence.
pub open spec fn edge_groups(chains: SadV) -> Result<Seq<SadV>, KeriError> {
    match chains {
        SadV::Dict(_) => Ok(seq![chains]),
        SadV::List(a) => Ok(a),
        _ => Err(KeriError::Verification),
    }
}

/// Whether an entry of an edge group is an edge: every entry is, but the
/// group's own digest `d` and operator `o`.
pub open spec fn is_edge_label(label: Seq<char>) -> bool {
    label != "d"@ && label != "o"@
}

/// The digests that the edges among the first `n` entries of a group refer
/// to, in order.
pub open spec fn group_saids(m: EntriesV, n: nat) -> Result<Seq<Seq<char>>, KeriError>
    decreases n,
{
    if n == 0 || n > m.len() {
        Ok(Seq::empty())
    } else {
        match group_saids(m, (n - 1) as nat) {
            Err(e) => Err(e),
            Ok(saids) => if is_edge_label(m[n - 1].0) {
                match required_text(m[n - 1].1, "n"@) {
                    Err(e) => Err(e),
                    Ok(said) => Ok(saids.push(said)),
                }
            } else {
                Ok(saids)
            },
        }
    }
}

/// The digests that the edges of the first `n` groups refer to, in order.
pub open spec fn groups_saids(groups: Seq<SadV>, n: nat) -> Result<Seq<Seq<char>>, KeriError>
    decreases n,
{
    if n == 0 || n > groups.len() {
        Ok(Seq::empty())
    } else {
        match groups_saids(groups, (n - 1) as nat) {
            Err(e) => Err(e),
            Ok(saids) => match groups[n - 1] {
                SadV::Dict(m) => match group_saids(m, m.len()) {
                    Err(e) => Err(e),
                    Ok(more) => Ok(saids + more),
                },
                _ => Err(KeriError::Conversion),
            },
        }
    }
}

/// The digests of the credentials that a provenance block refers to, in
/// order.
pub open spec fn chain_saids(chains: SadV) -> Result<Seq<Seq<char>>, KeriError> {
    match edge_groups(chains) {
        Err(e) => Err(e),
        Ok(groups) => groups_saids(groups, groups.len()),
    }
}

/// A failure among the first `n` entries is the failure of every longer
/// prefix.
pub proof fn lemma_group_saids_failure_stays(m: EntriesV, n: nat, k: nat)
    requires
        n <= k <= m.len(),
        group_saids(m, n) is Err,
    ensures
        group_saids(m, k) == group_saids(m, n),
    decreases k,
{
    if n < k {
        lemma_group_saids_failure_stays(m, n, (k - 1) as nat);
    }
}

/// A failure among the first `n` groups is the failure of every longer
/// prefix.
pub proof fn lemma_groups_saids_failure_stays(groups: Seq<SadV>, n: nat, k: nat)
    requires
        n <= k <= groups.len(),
        groups_saids(groups, n) is Err,
    ensures
        groups_saids(groups, k) == groups_saids(groups, n),
    decreases k,
{
    if n < k {
        lemma_groups_saids_failure_stays(groups, n, (k - 1) as nat);
    }
}

/// Whether `label` names an edge.
fn edge_label(label: &String) -> (r: bool)
    ensures
        r == is_edge_label(label@),
{
    let d = "d".to_owned();
    let o = "o".to_owned();
    !(*label == d) && !(*label == o)
}

/// Appends to `out` the digests that the edges of one group refer to.
fn group_to_saids(m: &Vec<(String, Sad)>, out: &mut Vec<String>) -> (r: Result<(), KeriError>)
    ensures
        match group_saids(entries_view(m@), m@.len()) {
            Ok(saids) => r is Ok && texts(final(out)@) == texts(old(out)@) + saids,
            Err(e) => r == Err::<(), KeriError>(e),
        },
{
    let ghost ev = entries_view(m@);
    let ghost before = texts(out@);
    let mut i: usize = 0;
    assert(texts(out@) =~= before + Seq::<Seq<char>>::empty());
    while i < m.len()
        invariant
            i <= m.len(),
            ev == entries_view(m@),
            group_saids(ev, i as nat) matches Ok(saids) && texts(out@) == before + saids,
        decreases m.len() - i,
    {
        let ghost saids = group_saids(ev, i as nat)->Ok_0;
        assert(ev[i as int].0 == m@[i as int].0@);
        assert(ev[i as int].1 == m@[i as int].1@);
        if edge_label(&m[i].0) {
            match read_text(&m[i].1, "n") {
                Err(e) => {
                    proof {
                        lemma_group_saids_failure_stays(ev, (i + 1) as nat, m.len() as nat);
                    }
                    return Err(e);
                },
                Ok(said) => {
                    let ghost prior = texts(out@);
                    out.push(said);
                    assert(texts(out@) =~= prior.push(said@));
                    assert(prior.push(said@) =~= before + saids.push(said@));
                },
            }
        }
        i = i + 1;
    }
    Ok(())
}

/// The digests of the credentials that a provenance block refers to, in
/// order. The block is one edge group or a sequence of them; every entry of
/// a group but `d` and `o` is an edge and names its credential under `n`.
/// Anything else than a mapping or a sequence is a verification error; a
/// group that is no mapping, or an edge without a text under `n`, is a
/// conversion error.
pub fn chains_to_saids(chains: &Sad) -> (r: Result<Vec<String>, KeriError>)
    ensures
        match chain_saids(chains@) {
            Ok(saids) => r matches Ok(v) && texts(v@) == saids,
            Err(e) => r == Err::<Vec<String>, KeriError>(e),
        },
{
    let mut out: Vec<String> = Vec::new();
    assert(texts(out@) =~= Seq::<Seq<char>>::empty());
    match chains {
        Sad::Dict(m) => {
            let ghost groups = seq![chains@];
            assert(groups_saids(groups, 0) == Ok::<Seq<Seq<char>>, KeriError>(Seq::empty()));
            match group_to_saids(m, &mut out) {
                Err(e) => Err(e),
                Ok(()) => {
                    let ghost saids = group_saids(entries_view(m@), m@.len())->Ok_0;
                    assert(Seq::<Seq<char>>::empty() + saids =~= saids);
                    Ok(out)
                },
            }
        },
        Sad::List(a) => {
            let ghost groups = list_view(a@);
            let mut i: usize = 0;
            while i < a.len()
                invariant
                    i <= a.len(),
                    *chains == Sad::List(*a),
                    groups == list_view(a@),
                    groups_saids(groups, i as nat) matches Ok(saids) && texts(out@) == saids,
                decreases a.len() - i,
            {
                assert(groups[i as int] == a@[i as int]@);
                match &a[i] {
                    Sad::Dict(m) => {
                        match group_to_saids(m, &mut out) {
                            Err(e) => {
                                proof {
                                    lemma_groups_saids_failure_stays(
                                        groups,
                                        (i + 1) as nat,
                                        a.len() as nat,
                                    );
                                }
                                return Err(e);
                            },
                            Ok(()) => {},
                        }
                    },
                    _ => {
                        proof {
                            lemma_groups_saids_failure_stays(
                                groups,
                                (i + 1) as nat,
                                a.len() as nat,
                            );
                        }
                        return Err(KeriError::Conversion);
                    },
                }
                i = i + 1;
            }
            Ok(out)
        },
        _ => Err(KeriError::Verification),
    }
}

/// Whether an event type revokes a credential. The type of a partial
/// revocation is reserved and counts as one.
pub open spec fn is_revocation(ilk: Seq<char>) -> bool {
    ilk == "rev"@ || ilk == "brv"@
}

/// Whether a status event of the instant `stamp` is fresh at the instant
/// `now`: a conversion error where either is no RFC 3339 instant, a
/// validation error where more than `expiry` whole seconds lie between them.
pub open spec fn age_verdict(now: Seq<char>, stamp: Seq<char>, expiry: int) -> Result<
    (),
    KeriError,
> {
    match seconds_between(now, stamp) {
        None => Err(KeriError::Conversion),
        Some(age) => if age > expiry {
            Err(KeriError::Validation)
        } else {
            Ok(())
        },
    }
}

/// What a status event says of its credential at the instant `now`: a
/// validation error where the event is stale, else whether the credential
/// stands, which it does unless the event is a revocation.
pub open spec fn state_verdict(ked: SadV, now: Seq<char>, expiry: int) -> Result<bool, KeriError> {
    match required_text(ked, "dt"@) {
        Err(e) => Err(e),
        Ok(stamp) => match age_verdict(now, stamp, expiry) {
            Err(e) => Err(e),
            Ok(()) => match required_text(ked, "t"@) {
                Err(e) => Err(e),
                Ok(ilk) => Ok(!is_revocation(ilk)),
            },
        },
    }
}

/// Checks the freshness of a status event of the instant `stamp` at the
/// instant `now`.
pub fn check_fresh(now: &str, stamp: &str, expiry: i64) -> (r: Result<(), KeriError>)
    ensures
        r == age_verdict(now@, stamp@, expiry as int),
{
    match whole_seconds_between(now, stamp) {
        Err(_) => Err(KeriError::Conversion),
        Ok(age) => if age > expiry {
            Err(KeriError::Validation)
        } else {
            Ok(())
        },
    }
}

/// Judges the status event `state` at the instant `now`: fails with a
/// validation error where it is older than `expiry` seconds, else tells
/// whether the credential stands.
pub fn check_state(state: &Event, now: &str, expiry: i64) -> (r: Result<bool, KeriError>)
    ensures
        r == state_verdict(state@.ked, now@, expiry as int),
{
    let stamp = read_text(state.ked(), "dt")?;
    check_fresh(now, stamp.as_str(), expiry)?;
    let ilk = read_text(state.ked(), "t")?;
    let rev = "rev".to_owned();
    let brv = "brv".to_owned();
    Ok(!(ilk == rev || ilk == brv))
}

/// The first `n` entries of an edge group with every edge expanded: the
/// digest that stands for its node replaced by the node that the store holds
/// under it.
pub open spec fn expanded_edges<S: KeriStore>(store: &S, m: EntriesV, n: nat) -> Result<
    EntriesV,
    KeriError,
>
    decreases n,
{
    if n == 0 || n > m.len() {
        Ok(Seq::empty())
    } else {
        match expanded_edges(store, m, (n - 1) as nat) {
            Err(e) => Err(e),
            Ok(es) => if is_edge_label(m[n - 1].0) {
                match m[n - 1].1 {
                    SadV::Text(t) => match store.sad_at(t) {
                        Err(e) => Err(e),
                        Ok(node) => Ok(es.push((m[n - 1].0, node))),
                    },
                    _ => Err(KeriError::Conversion),
                }
            } else {
                Ok(es.push(m[n - 1]))
            },
        }
    }
}

/// The provenance of a stored credential, which keeps it compacted: the edge
/// group that the store holds under the digest in field `e`, with every edge
/// expanded. A credential without that field has no provenance.
pub open spec fn status_provenance<S: KeriStore>(store: &S, crd: SadV) -> Result<SadV, KeriError> {
    match crd.get("e"@) {
        None => Ok(SadV::Dict(Seq::empty())),
        Some(SadV::Text(t)) => match store.sad_at(t) {
            Err(e) => Err(e),
            Ok(SadV::Dict(m)) => match expanded_edges(store, m, m.len()) {
                Err(e) => Err(e),
                Ok(es) => Ok(SadV::Dict(es)),
            },
            Ok(_) => Err(KeriError::Conversion),
        },
        Some(_) => Err(KeriError::Conversion),
    }
}

/// What the latest status event of `said` in the store says at the instant
/// `now`.
pub open spec fn latest_state<S: KeriStore>(
    store: &S,
    said: Seq<char>,
    now: Seq<char>,
    expiry: int,
) -> Result<bool, KeriError> {
    match store.latest_transaction_event_at(said) {
        Err(e) => Err(e),
        Ok(text) => match read_event(encode_utf8(text)) {
            Err(e) => Err(e),
            Ok(event) => state_verdict(event.ked, now, expiry),
        },
    }
}

/// Whether the credential `said` stands at the instant `now`: every
/// credential that its provenance refers to stands, depth first, and its own
/// latest status event is fresh and no revocation. A chain of provenance is
/// followed `depth` credentials deep; one that goes deeper is a validation
/// error.
pub open spec fn status_at<S: KeriStore>(
    store: &S,
    said: Seq<char>,
    now: Seq<char>,
    expiry: int,
    depth: nat,
) -> Result<bool, KeriError>
    decreases depth, 0nat,
{
    if depth == 0 {
        Err(KeriError::Validation)
    } else {
        match store.acdc_at(said) {
            Err(e) => Err(e),
            Ok(text) => match read_credential(encode_utf8(text)) {
                Err(e) => Err(e),
                Ok(c) => match status_provenance(store, c.crd) {
                    Err(e) => Err(e),
                    Ok(prov) => match chain_saids(prov) {
                        Err(e) => Err(e),
                        Ok(saids) => match chain_status(
                            store,
                            saids,
                            saids.len(),
                            now,
                            expiry,
                            (depth - 1) as nat,
                        ) {
                            Err(e) => Err(e),
                            Ok(false) => Ok(false),
                            Ok(true) => latest_state(store, said, now, expiry),
                        },
                    },
                },
            },
        }
    }
}

/// Whether the first `n` of `saids` all stand, asked in order up to the
/// first that does not.
pub open spec fn chain_status<S: KeriStore>(
    store: &S,
    saids: Seq<Seq<char>>,
    n: nat,
    now: Seq<char>,
    expiry: int,
    depth: nat,
) -> Result<bool, KeriError>
    decreases depth, n,
{
    if n == 0 || n > saids.len() {
        Ok(true)
    } else {
        match chain_status(store, saids, (n - 1) as nat, now, expiry, depth) {
            Err(e) => Err(e),
            Ok(false) => Ok(false),
            Ok(true) => status_at(store, saids[n - 1], now, expiry, depth),
        }
    }
}

/// A failure among the first `n` entries is the failure of every longer
/// prefix.
pub proof fn lemma_expanded_edges_failure_stays<S: KeriStore>(
    store: &S,
    m: EntriesV,
    n: nat,
    k: nat,
)
    requires
        n <= k <= m.len(),
        expanded_edges(store, m, n) is Err,
    ensures
        expanded_edges(store, m, k) == expanded_edges(store, m, n),
    decreases k,
{
    if n < k {
        lemma_expanded_edges_failure_stays(store, m, n, (k - 1) as nat);
    }
}

/// Once one of the first `n` credentials fails or does not stand, longer
/// prefixes give the same answer.
pub proof fn lemma_chain_status_stays<S: KeriStore>(
    store: &S,
    saids: Seq<Seq<char>>,
    n: nat,
    k: nat,
    now: Seq<char>,
    expiry: int,
    depth: nat,
)
    requires
        n <= k <= saids.len(),
        chain_status(store, saids, n, now, expiry, depth) != Ok::<bool, KeriError>(true),
    ensures
        chain_status(store, saids, k, now, expiry, depth) == chain_status(
            store,
            saids,
            n,
            now,
            expiry,
            depth,
        ),
    decreases k,
{
    if n < k {
        lemma_chain_status_stays(store, saids, n, (k - 1) as nat, now, expiry, depth);
    }
}

/// Loads the provenance of a stored credential with every edge expanded.
#[verifier::loop_isolation(false)]
fn load_status_provenance<S: KeriStore>(store: &S, crd: &Sad) -> (r: Result<Sad, KeriError>)
    ensures
        match status_provenance(store, crd@) {
            Ok(v) => r matches Ok(out) && out@ == v,
            Err(e) => r == Err::<Sad, KeriError>(e),
        },
{
    match crd.get("e") {
        None => {
            let none: Vec<(String, Sad)> = Vec::new();
            assert(entries_view(none@) =~= Seq::empty());
            Ok(Sad::Dict(none))
        },
        Some(Sad::Text(t)) => {
            let sad = store.get_sad(t.as_str())?;
            match sad {
                Sad::Dict(m) => {
                    let ghost ev = entries_view(m@);
                    let mut out: Vec<(String, Sad)> = Vec::new();
                    let mut i: usize = 0;
                    while i < m.len()
                        invariant
                            i <= m.len(),
                            ev == entries_view(m@),
                            expanded_edges(store, ev, i as nat) matches Ok(es) && es
                                == entries_view(out@),
                        decreases m.len() - i,
                    {
                        let ghost es = entries_view(out@);
                        assert(ev[i as int].0 == m@[i as int].0@);
                        assert(ev[i as int].1 == m@[i as int].1@);
                        if edge_label(&m[i].0) {
                            match &m[i].1 {
                                Sad::Text(t) => {
                                    match store.get_sad(t.as_str()) {
                                        Err(e) => {
                                            proof {
                                                lemma_expanded_edges_failure_stays(
                                                    store,
                                                    ev,
                                                    (i + 1) as nat,
                                                    m.len() as nat,
                                                );
                                            }
                                            return Err(e);
                                        },
                                        Ok(node) => {
                                            out.push((m[i].0.clone(), node));
                                            assert(entries_view(out@) =~= es.push(
                                                (ev[i as int].0, node@),
                                            ));
                                        },
                                    }
                                },
                                _ => {
                                    proof {
                                        lemma_expanded_edges_failure_stays(
                                            store,
                                            ev,
                                            (i + 1) as nat,
                                            m.len() as nat,
                                        );
                                    }
                                    return Err(KeriError::Conversion);
                                },
                            }
                        } else {
                            out.push((m[i].0.clone(), m[i].1.clone()));
                            assert(entries_view(out@) =~= es.push(ev[i as int]));
                        }
                        i = i + 1;
                    }
                    Ok(Sad::Dict(out))
                },
                _ => Err(KeriError::Conversion),
            }
        },
        Some(_) => Err(KeriError::Conversion),
    }
}

/// Reads the latest status event of `said` from the store and judges it at
/// the instant `now`.
fn check_latest_state<S: KeriStore>(store: &S, said: &str, now: &str, expiry: i64) -> (r: Result<
    bool,
    KeriError,
>)
    ensures
        r == latest_state(store, said@, now@, expiry as int),
{
    let event = store.get_latest_transaction_event(said)?;
    let state = Event::new_with_raw(event.as_str().as_bytes())?;
    check_state(&state, now, expiry)
}

/// Whether the credential `said` stands at the instant `now`, with a
/// freshness window of `expiry` seconds, following provenance `depth`
/// credentials deep: every credential that its provenance refers to stands,
/// depth first and up to the first that does not, and its own latest status
/// event is no revocation. Fails with a validation error where that event is
/// older than the window or the chain goes deeper than `depth`.
#[verifier::loop_isolation(false)]
pub fn acdc_status_at<S: KeriStore>(
    store: &S,
    said: &str,
    now: &str,
    expiry: i64,
    depth: usize,
) -> (r: Result<bool, KeriError>)
    ensures
        r == status_at(store, said@, now@, expiry as int, depth as nat),
    decreases depth,
{
    if depth == 0 {
        return Err(KeriError::Validation);
    }
    let message = store.get_acdc(said)?;
    let acdc = Creder::new_with_raw(message.as_str().as_bytes())?;
    let prov = load_status_provenance(store, acdc.crd())?;
    let saids = chains_to_saids(&prov)?;
    let ghost sv = texts(saids@);
    let mut i: usize = 0;
    while i < saids.len()
        invariant
            i <= saids.len(),
            depth > 0,
            sv == texts(saids@),
            chain_status(store, sv, i as nat, now@, expiry as int, (depth - 1) as nat) == Ok::<
                bool,
                KeriError,
            >(true),
        decreases saids.len() - i,
    {
        assert(sv[i as int] == saids@[i as int]@);
        match acdc_status_at(store, saids[i].as_str(), now, expiry, depth - 1) {
            Err(e) => {
                proof {
                    lemma_chain_status_stays(
                        store,
                        sv,
                        (i + 1) as nat,
                        saids.len() as nat,
                        now@,
                        expiry as int,
                        (depth - 1) as nat,
                    );
                }
                return Err(e);
            },
            Ok(false) => {
                proof {
                    lemma_chain_status_stays(
                        store,
                        sv,
                        (i + 1) as nat,
                        saids.len() as nat,
                        now@,
                        expiry as int,
                        (depth - 1) as nat,
                    );
                }
                return Ok(false);
            },
            Ok(true) => {},
        }
        i = i + 1;
    }
    check_latest_state(store, said, now, expiry)
}

/// Whether the credential `said` stands now, with the default freshness
/// window and chain depth.
pub fn acdc_status<S: KeriStore>(store: &S, said: &str) -> (r: Result<bool, KeriError>)
    ensures
        exists|now: Seq<char>|
            r == #[trigger] status_at(
                store,
                said@,
                now,
                DEFAULT_CREDENTIAL_EXPIRY_SECONDS as int,
                DEFAULT_CHAIN_DEPTH as nat,
            ),
{
    let now = utc_now();
    acdc_status_at(
        store,
        said,
        now.as_str(),
        DEFAULT_CREDENTIAL_EXPIRY_SECONDS,
        DEFAULT_CHAIN_DEPTH,
    )
}

/// The provenance block of a credential that is being verified: what the
/// store holds under the digest in field `e`, or the block itself where the
/// credential carries it expanded. A credential without that field has no
/// provenance.
pub open spec fn loaded_provenance<S: KeriStore>(store: &S, crd: SadV) -> Result<SadV, KeriError> {
    match crd.get("e"@) {
        None => Ok(SadV::Dict(Seq::empty())),
        Some(SadV::Text(t)) => store.sad_at(t),
        Some(block) => Ok(block),
    }
}

/// The gates that a credential passes whatever the instant, in order: it
/// declares a status registry; it compacts; it names its schema; its
/// provenance can be had; its digest fits its content. What comes back is
/// the digest of the compacted credential, the digest of the schema and the
/// provenance block.
pub open spec fn entered<S: KeriStore>(store: &S, c: CrederV) -> Result<
    (Seq<char>, Seq<char>, SadV),
    KeriError,
> {
    match declared_status(c.crd) {
        Err(e) => Err(e),
        Ok(None) => Err(KeriError::Validation),
        Ok(Some(_)) => match compacted_credential(c) {
            Err(e) => Err(e),
            Ok((compacted, _)) => match required_text(c.crd, "s"@) {
                Err(e) => Err(e),
                Ok(schema) => match loaded_provenance(store, c.crd) {
                    Err(e) => Err(e),
                    Ok(prov) => match digest_fits(c.said, c.crd) {
                        None => Err(KeriError::Primitive),
                        Some(false) => Err(KeriError::Verification),
                        Some(true) => Ok((compacted.said, schema, prov)),
                    },
                },
            },
        },
    }
}

/// The gates that a credential passes before its schema is asked for: those
/// that do not look at the instant, and then its latest status event, which
/// has to be fresh and no revocation.
pub open spec fn admitted<S: KeriStore>(
    store: &S,
    c: CrederV,
    now: Seq<char>,
    expiry: int,
) -> Result<(Seq<char>, Seq<char>, SadV), KeriError> {
    match entered(store, c) {
        Err(e) => Err(e),
        Ok((vcid, schema, prov)) => match latest_state(store, vcid, now, expiry) {
            Err(e) => Err(e),
            Ok(false) => Err(KeriError::Validation),
            Ok(true) => Ok((vcid, schema, prov)),
        },
    }
}

/// Whether one of the first `n` seals refers to the credential `vcid`. Every
/// seal has to name what it refers to under `i`.
pub open spec fn seals_root(seals: Seq<SadV>, n: nat, vcid: Seq<char>) -> Result<bool, KeriError>
    decreases n,
{
    if n == 0 || n > seals.len() {
        Ok(false)
    } else {
        match seals_root(seals, (n - 1) as nat, vcid) {
            Err(e) => Err(e),
            Ok(found) => match required_text(seals[n - 1], "i"@) {
                Err(e) => Err(e),
                Ok(what) => Ok(found || what == vcid),
            },
        }
    }
}

/// Whether the key event `event` anchors the credential `vcid` for a proof
/// that names the digest `proof_said`: a verification error where the event
/// has another digest, or where none of the seals in its field `a` refers to
/// the credential.
pub open spec fn anchored(event: EventV, proof_said: Seq<char>, vcid: Seq<char>) -> Result<
    (),
    KeriError,
> {
    if proof_said != event.said {
        Err(KeriError::Verification)
    } else {
        match event.ked.get("a"@) {
            Some(SadV::List(seals)) => match seals_root(seals, seals.len(), vcid) {
                Err(e) => Err(e),
                Ok(true) => Ok(()),
                Ok(false) => Err(KeriError::Verification),
            },
            _ => Err(KeriError::Conversion),
        }
    }
}

/// A failure among the first `n` seals is the failure of every longer prefix.
pub proof fn lemma_seals_root_failure_stays(seals: Seq<SadV>, n: nat, k: nat, vcid: Seq<char>)
    requires
        n <= k <= seals.len(),
        seals_root(seals, n, vcid) is Err,
    ensures
        seals_root(seals, k, vcid) == seals_root(seals, n, vcid),
    decreases k,
{
    if n < k {
        lemma_seals_root_failure_stays(seals, n, (k - 1) as nat, vcid);
    }
}

/// Checks that the key event `event` anchors the credential `vcid` for a
/// proof that names the digest `proof_said`.
#[verifier::loop_isolation(false)]
pub fn check_anchor(event: &Event, proof_said: &str, vcid: &str) -> (r: Result<(), KeriError>)
    ensures
        r == anchored(event@, proof_said@, vcid@),
{
    let proof_owned = proof_said.to_owned();
    let vcid_owned = vcid.to_owned();
    if !(proof_owned == *event.said()) {
        return Err(KeriError::Verification);
    }
    match event.ked().get("a") {
        Some(Sad::List(seals)) => {
            let ghost sv = list_view(seals@);
            let mut rooted = false;
            let mut i: usize = 0;
            while i < seals.len()
                invariant
                    i <= seals.len(),
                    seals_root(sv, i as nat, vcid@) == Ok::<bool, KeriError>(rooted),
                decreases seals.len() - i,
            {
                assert(sv[i as int] == seals@[i as int]@);
                match read_text(&seals[i], "i") {
                    Err(e) => {
                        proof {
                            lemma_seals_root_failure_stays(
                                sv,
                                (i + 1) as nat,
                                seals.len() as nat,
                                vcid@,
                            );
                        }
                        return Err(e);
                    },
                    Ok(what) => {
                        if what == vcid_owned {
                            rooted = true;
                        }
                    },
                }
                i = i + 1;
            }
            if rooted {
                Ok(())
            } else {
                Err(KeriError::Verification)
            }
        },
        _ => Err(KeriError::Conversion),
    }
}

/// The anchoring proof of a credential, judged: a decoding error unless
/// exactly one seal source couple is attached; then the issuer's key event at
/// the sequence number of the couple has to anchor the credential. A sequence
/// number beyond 32 bits has no event in the store. What comes back is the
/// identifier of the issuer.
pub open spec fn proven<S: KeriStore>(
    store: &S,
    c: CrederV,
    vcid: Seq<char>,
    couples: Seq<(u128, Seq<char>)>,
) -> Result<Seq<char>, KeriError> {
    if couples.len() != 1 {
        Err(KeriError::Decoding)
    } else {
        match required_text(c.crd, "i"@) {
            Err(e) => Err(e),
            Ok(issuer) => if couples[0].0 > u32::MAX {
                Err(KeriError::NotFound)
            } else {
                match store.key_event_at(issuer, couples[0].0 as u32) {
                    Err(e) => Err(e),
                    Ok(text) => match read_event(encode_utf8(text)) {
                        Err(e) => Err(e),
                        Ok(event) => match anchored(event, couples[0].1, vcid) {
                            Err(e) => Err(e),
                            Ok(()) => Ok(issuer),
                        },
                    },
                }
            },
        }
    }
}

/// Judges the anchoring proof of a credential.
pub fn check_proof<S: KeriStore>(
    store: &S,
    creder: &Creder,
    vcid: &str,
    couples: &SealSourceCouples,
) -> (r: Result<String, KeriError>)
    ensures
        match proven(store, creder@, vcid@, couple_views(couples.value@)) {
            Ok(issuer) => r matches Ok(s) && s@ == issuer,
            Err(e) => r == Err::<String, KeriError>(e),
        },
{
    if couples.value.len() != 1 {
        return Err(KeriError::Decoding);
    }
    let issuer = creder.issuer()?;
    let sn = couples.value[0].sn;
    if sn > u32::MAX as u128 {
        return Err(KeriError::NotFound);
    }
    let key_event = store.get_key_event(issuer.as_str(), sn as u32)?;
    let event = Event::new_with_raw(key_event.as_str().as_bytes())?;
    check_anchor(&event, couples.value[0].said.as_str(), vcid)?;
    Ok(issuer)
}

/// The texts of the first `n` items, each of which has to be a text.
pub open spec fn item_texts(items: Seq<SadV>, n: nat) -> Result<Seq<Seq<char>>, KeriError>
    decreases n,
{
    if n == 0 || n > items.len() {
        Ok(Seq::empty())
    } else {
        match item_texts(items, (n - 1) as nat) {
            Err(e) => Err(e),
            Ok(found) => match items[n - 1] {
                SadV::Text(t) => Ok(found.push(t)),
                _ => Err(KeriError::Conversion),
            },
        }
    }
}

/// A failure among the first `n` items is the failure of every longer prefix.
pub proof fn lemma_item_texts_failure_stays(items: Seq<SadV>, n: nat, k: nat)
    requires
        n <= k <= items.len(),
        item_texts(items, n) is Err,
    ensures
        item_texts(items, k) == item_texts(items, n),
    decreases k,
{
    if n < k {
        lemma_item_texts_failure_stays(items, n, (k - 1) as nat);
    }
}

/// The operators that an edge declares in its field `o`: one text or a
/// sequence of texts.
pub open spec fn declared_operators(node: SadV) -> Result<Seq<Seq<char>>, KeriError> {
    match node.get("o"@) {
        None => Ok(Seq::empty()),
        Some(SadV::Text(t)) => Ok(seq![t]),
        Some(SadV::List(items)) => item_texts(items, items.len()),
        Some(_) => Err(KeriError::Conversion),
    }
}

/// Whether `op` is one of the unary operators.
pub open spec fn is_unary(op: Seq<char>) -> bool {
    op == "I2I"@ || op == "NI2I"@ || op == "DI2I"@
}

/// The unary operators among the first `n` of `ops`, in order.
pub open spec fn unary_among(ops: Seq<Seq<char>>, n: nat) -> Seq<Seq<char>>
    decreases n,
{
    if n == 0 || n > ops.len() {
        Seq::empty()
    } else if is_unary(ops[n - 1]) {
        unary_among(ops, (n - 1) as nat).push(ops[n - 1])
    } else {
        unary_among(ops, (n - 1) as nat)
    }
}

/// The operator that a unary operator token names.
pub open spec fn operator_of(op: Seq<char>) -> Operator {
    if op == "I2I"@ {
        Operator::I2I
    } else if op == "NI2I"@ {
        Operator::NI2I
    } else {
        Operator::DI2I
    }
}

/// The one operator that holds of an edge: an explicit `NOT` is a value
/// error; tokens that are no unary operator are dropped; where none is left,
/// the operator is `I2I` if the referenced subject has an identifier and
/// `NI2I` if not; more than one left is a validation error.
pub open spec fn effective_operator(ops: Seq<Seq<char>>, subject_has_id: bool) -> Result<
    Operator,
    KeriError,
> {
    if exists|i: int| 0 <= i < ops.len() && ops[i] == "NOT"@ {
        Err(KeriError::Value)
    } else {
        let kept = unary_among(ops, ops.len());
        if kept.len() == 0 {
            if subject_has_id {
                Ok(Operator::I2I)
            } else {
                Ok(Operator::NI2I)
            }
        } else if kept.len() != 1 {
            Err(KeriError::Validation)
        } else {
            Ok(operator_of(kept[0]))
        }
    }
}

/// What an operator asks of the referenced subject and the issuer of the
/// verifying credential: `I2I`, that the identifier of the subject is the
/// issuer; `NI2I`, nothing; `DI2I`, which is not implemented, fails always.
pub open spec fn enforced(op: Operator, subject: SadV, issuer: Seq<char>) -> Result<(), KeriError> {
    match op {
        Operator::I2I => match required_text(subject, "i"@) {
            Err(e) => Err(e),
            Ok(id) => if id != issuer {
                Err(KeriError::Validation)
            } else {
                Ok(())
            },
        },
        Operator::NI2I => Ok(()),
        Operator::DI2I => Err(KeriError::Validation),
    }
}

/// Whether `ops` holds the token `NOT`.
#[verifier::loop_isolation(false)]
pub fn holds_not(ops: &Vec<String>) -> (r: bool)
    ensures
        r == (exists|i: int| 0 <= i < ops@.len() && texts(ops@)[i] == "NOT"@),
{
    let not = "NOT".to_owned();
    let mut i: usize = 0;
    while i < ops.len()
        invariant
            i <= ops.len(),
            forall|j: int| 0 <= j < i ==> texts(ops@)[j] != "NOT"@,
        decreases ops.len() - i,
    {
        if ops[i] == not {
            assert(texts(ops@)[i as int] == "NOT"@);
            return true;
        }
        i = i + 1;
    }
    false
}

/// Normalises the operators of an edge to the one that holds.
#[verifier::loop_isolation(false)]
pub fn normalize_operators(ops: &Vec<String>, subject_has_id: bool) -> (r: Result<
    Operator,
    KeriError,
>)
    ensures
        r == effective_operator(texts(ops@), subject_has_id),
{
    if holds_not(ops) {
        return Err(KeriError::Value);
    }
    let i2i = "I2I".to_owned();
    let ni2i = "NI2I".to_owned();
    let di2i = "DI2I".to_owned();
    let ghost ov = texts(ops@);
    let mut count: usize = 0;
    let mut found = Operator::NI2I;
    let mut i: usize = 0;
    while i < ops.len()
        invariant
            i <= ops.len(),
            count <= i,
            count == unary_among(ov, i as nat).len(),
            count > 0 ==> found == operator_of(unary_among(ov, i as nat)[0]),
        decreases ops.len() - i,
    {
        assert(ov[i as int] == ops@[i as int]@);
        if ops[i] == i2i || ops[i] == ni2i || ops[i] == di2i {
            if count == 0 {
                found = if ops[i] == i2i {
                    Operator::I2I
                } else if ops[i] == ni2i {
                    Operator::NI2I
                } else {
                    Operator::DI2I
                };
            }
            count = count + 1;
        }
        i = i + 1;
    }
    if count == 0 {
        if subject_has_id {
            Ok(Operator::I2I)
        } else {
            Ok(Operator::NI2I)
        }
    } else if count != 1 {
        Err(KeriError::Validation)
    } else {
        Ok(found)
    }
}

/// Enforces an operator on the referenced subject and the issuer of the
/// verifying credential.
pub fn enforce_operator(op: Operator, subject: &Sad, issuer: &str) -> (r: Result<(), KeriError>)
    ensures
        r == enforced(op, subject@, issuer@),
{
    match op {
        Operator::I2I => {
            let id = read_text(subject, "i")?;
            let owned = issuer.to_owned();
            if id == owned {
                Ok(())
            } else {
                Err(KeriError::Validation)
            }
        },
        Operator::NI2I => Ok(()),
        Operator::DI2I => Err(KeriError::Validation),
    }
}

/// Reads the operators that an edge declares.
#[verifier::loop_isolation(false)]
pub fn read_operators(node: &Sad) -> (r: Result<Vec<String>, KeriError>)
    ensures
        match declared_operators(node@) {
            Ok(ops) => r matches Ok(v) && texts(v@) == ops,
            Err(e) => r == Err::<Vec<String>, KeriError>(e),
        },
{
    let mut out: Vec<String> = Vec::new();
    assert(texts(out@) =~= Seq::<Seq<char>>::empty());
    match node.get("o") {
        None => Ok(out),
        Some(Sad::Text(t)) => {
            out.push(t.clone());
            assert(texts(out@) =~= seq![t@]);
            Ok(out)
        },
        Some(Sad::List(items)) => {
            let ghost iv = list_view(items@);
            let mut i: usize = 0;
            while i < items.len()
                invariant
                    i <= items.len(),
                    item_texts(iv, i as nat) matches Ok(found) && found == texts(out@),
                decreases items.len() - i,
            {
                assert(iv[i as int] == items@[i as int]@);
                match &items[i] {
                    Sad::Text(t) => {
                        let ghost prior = texts(out@);
                        out.push(t.clone());
                        assert(texts(out@) =~= prior.push(t@));
                    },
                    _ => {
                        proof {
                            lemma_item_texts_failure_stays(
                                iv,
                                (i + 1) as nat,
                                items.len() as nat,
                            );
                        }
                        return Err(KeriError::Conversion);
                    },
                }
                i = i + 1;
            }
            Ok(out)
        },
        Some(_) => Err(KeriError::Conversion),
    }
}

/// What an edge points at: the node of the edge, fetched from the store
/// where the edge holds only its digest; the digest of the credential that
/// the node names under `n`; that credential, as the store holds it; and the
/// schema that the node asks of it in field `s`, where it asks for one.
pub open spec fn node_target<S: KeriStore>(store: &S, edge: SadV) -> Result<
    (SadV, Seq<char>, CrederV, Option<Seq<char>>),
    KeriError,
> {
    let fetched = match edge {
        SadV::Text(t) => store.sad_at(t),
        _ => Ok(edge),
    };
    match fetched {
        Err(e) => Err(e),
        Ok(node) => match required_text(node, "n"@) {
            Err(e) => Err(e),
            Ok(said) => match store.acdc_at(said) {
                Err(e) => Err(e),
                Ok(text) => match read_credential(encode_utf8(text)) {
                    Err(e) => Err(e),
                    Ok(target) => if node.get("s"@) is Some {
                        match required_text(node, "s"@) {
                            Err(e) => Err(e),
                            Ok(schema) => Ok((node, said, target, Some(schema))),
                        }
                    } else {
                        Ok((node, said, target, None))
                    },
                },
            },
        },
    }
}

/// The rule of an edge, judged once its target is known and its schema has
/// passed: the operators of the node are read and must not hold `NOT`; the
/// subject of the target is fetched by the digest in its field `a`; the one
/// operator that holds is enforced; and the target has to stand.
pub open spec fn node_rule<S: KeriStore>(
    store: &S,
    node: SadV,
    said: Seq<char>,
    target: CrederV,
    issuer: Seq<char>,
    now: Seq<char>,
    expiry: int,
    depth: nat,
) -> Result<(), KeriError> {
    match declared_operators(node) {
        Err(e) => Err(e),
        Ok(ops) => if exists|i: int| 0 <= i < ops.len() && ops[i] == "NOT"@ {
            Err(KeriError::Value)
        } else {
            match required_text(target.crd, "a"@) {
                Err(e) => Err(e),
                Ok(subject_said) => match store.sad_at(subject_said) {
                    Err(e) => Err(e),
                    Ok(subject) => if !(subject is Dict) {
                        Err(KeriError::Conversion)
                    } else {
                        match effective_operator(ops, subject.get("i"@) is Some) {
                            Err(e) => Err(e),
                            Ok(op) => match enforced(op, subject, issuer) {
                                Err(e) => Err(e),
                                Ok(()) => match status_at(store, said, now, expiry, depth) {
                                    Err(e) => Err(e),
                                    Ok(false) => Err(KeriError::Validation),
                                    Ok(true) => Ok(()),
                                },
                            },
                        }
                    },
                },
            }
        },
    }
}

/// An edge, verified: its target is found; the schema that the edge asks of
/// it, where it asks for one, passes; and its rule holds.
pub open spec fn node_verified<S: KeriStore, V: SchemaValidator>(
    store: &S,
    validator: &V,
    edge: SadV,
    issuer: Seq<char>,
    now: Seq<char>,
    expiry: int,
    depth: nat,
) -> Result<(), KeriError> {
    match node_target(store, edge) {
        Err(e) => Err(e),
        Ok((node, said, target, schema)) => {
            let asked = match schema {
                Some(text) => schema_verdict(validator.answer(text, target.raw)),
                None => Ok(()),
            };
            match asked {
                Err(e) => Err(e),
                Ok(()) => node_rule(store, node, said, target, issuer, now, expiry, depth),
            }
        },
    }
}

/// The edges among the first `n` entries of a group, verified in order up
/// to the first that fails.
pub open spec fn group_verified<S: KeriStore, V: SchemaValidator>(
    store: &S,
    validator: &V,
    m: EntriesV,
    n: nat,
    issuer: Seq<char>,
    now: Seq<char>,
    expiry: int,
    depth: nat,
) -> Result<(), KeriError>
    decreases n,
{
    if n == 0 || n > m.len() {
        Ok(())
    } else {
        match group_verified(store, validator, m, (n - 1) as nat, issuer, now, expiry, depth) {
            Err(e) => Err(e),
            Ok(()) => if is_edge_label(m[n - 1].0) {
                node_verified(store, validator, m[n - 1].1, issuer, now, expiry, depth)
            } else {
                Ok(())
            },
        }
    }
}

/// The first `n` edge groups, verified in order up to the first edge that
/// fails. Every group has to be a mapping.
pub open spec fn groups_verified<S: KeriStore, V: SchemaValidator>(
    store: &S,
    validator: &V,
    groups: Seq<SadV>,
    n: nat,
    issuer: Seq<char>,
    now: Seq<char>,
    expiry: int,
    depth: nat,
) -> Result<(), KeriError>
    decreases n,
{
    if n == 0 || n > groups.len() {
        Ok(())
    } else {
        match groups_verified(store, validator, groups, (n - 1) as nat, issuer, now, expiry, depth) {
            Err(e) => Err(e),
            Ok(()) => match groups[n - 1] {
                SadV::Dict(m) => group_verified(
                    store,
                    validator,
                    m,
                    m.len(),
                    issuer,
                    now,
                    expiry,
                    depth,
                ),
                _ => Err(KeriError::Conversion),
            },
        }
    }
}

/// The edges of a provenance block, verified group by group. A block that is
/// neither a mapping nor a sequence is a verification error.
pub open spec fn edges_verified<S: KeriStore, V: SchemaValidator>(
    store: &S,
    validator: &V,
    prov: SadV,
    issuer: Seq<char>,
    now: Seq<char>,
    expiry: int,
    depth: nat,
) -> Result<(), KeriError> {
    match edge_groups(prov) {
        Err(e) => Err(e),
        Ok(groups) => groups_verified(
            store,
            validator,
            groups,
            groups.len(),
            issuer,
            now,
            expiry,
            depth,
        ),
    }
}

/// Whether the store holds the credential `vcid` already. A stored record
/// whose own digest is another one is a fault of the store.
pub open spec fn already_stored<S: KeriStore>(store: &S, vcid: Seq<char>) -> Result<
    bool,
    KeriError,
> {
    match store.acdc_at(vcid) {
        Err(_) => Ok(false),
        Ok(text) => match read_credential(encode_utf8(text)) {
            Err(e) => Err(e),
            Ok(existing) => if existing.said != vcid {
                Err(KeriError::Programmer)
            } else {
                Ok(true)
            },
        },
    }
}

/// What follows the entry gates, given the validator's answer for the
/// credential's own schema: the answer has to be a match; the anchoring
/// proof has to hold; every edge of the provenance has to hold; and what
/// comes back is whether the store holds the credential already.
pub open spec fn concluded<S: KeriStore, V: SchemaValidator>(
    store: &S,
    validator: &V,
    c: CrederV,
    vcid: Seq<char>,
    prov: SadV,
    couples: Seq<(u128, Seq<char>)>,
    answer: Result<bool, KeriError>,
    now: Seq<char>,
    expiry: int,
    depth: nat,
) -> Result<bool, KeriError> {
    match schema_verdict(answer) {
        Err(e) => Err(e),
        Ok(()) => match proven(store, c, vcid, couples) {
            Err(e) => Err(e),
            Ok(issuer) => match edges_verified(store, validator, prov, issuer, now, expiry, depth) {
                Err(e) => Err(e),
                Ok(()) => already_stored(store, vcid),
            },
        },
    }
}

/// What the verification of a credential comes to: the entry gates, the
/// credential's own schema, the anchoring proof, the edges of the
/// provenance, and whether the store holds the credential already. The
/// first gate that fails gives the result.
pub open spec fn verified<S: KeriStore, V: SchemaValidator>(
    store: &S,
    validator: &V,
    c: CrederV,
    couples: Seq<(u128, Seq<char>)>,
    now: Seq<char>,
    expiry: int,
    depth: nat,
) -> Result<bool, KeriError> {
    match admitted(store, c, now, expiry) {
        Err(e) => Err(e),
        Ok((vcid, schema, prov)) => concluded(
            store,
            validator,
            c,
            vcid,
            prov,
            couples,
            validator.answer(schema, c.raw),
            now,
            expiry,
            depth,
        ),
    }
}

/// A failure among the first `n` entries is the failure of every longer
/// prefix.
pub proof fn lemma_group_verified_failure_stays<S: KeriStore, V: SchemaValidator>(
    store: &S,
    validator: &V,
    m: EntriesV,
    n: nat,
    k: nat,
    issuer: Seq<char>,
    now: Seq<char>,
    expiry: int,
    depth: nat,
)
    requires
        n <= k <= m.len(),
        group_verified(store, validator, m, n, issuer, now, expiry, depth) is Err,
    ensures
        group_verified(store, validator, m, k, issuer, now, expiry, depth) == group_verified(
            store,
            validator,
            m,
            n,
            issuer,
            now,
            expiry,
            depth,
        ),
    decreases k,
{
    if n < k {
        lemma_group_verified_failure_stays(
            store,
            validator,
            m,
            n,
            (k - 1) as nat,
            issuer,
            now,
            expiry,
            depth,
        );
    }
}

/// A failure among the first `n` groups is the failure of every longer
/// prefix.
pub proof fn lemma_groups_verified_failure_stays<S: KeriStore, V: SchemaValidator>(
    store: &S,
    validator: &V,
    groups: Seq<SadV>,
    n: nat,
    k: nat,
    issuer: Seq<char>,
    now: Seq<char>,
    expiry: int,
    depth: nat,
)
    requires
        n <= k <= groups.len(),
        groups_verified(store, validator, groups, n, issuer, now, expiry, depth) is Err,
    ensures
        groups_verified(store, validator, groups, k, issuer, now, expiry, depth)
            == groups_verified(store, validator, groups, n, issuer, now, expiry, depth),
    decreases k,
{
    if n < k {
        lemma_groups_verified_failure_stays(
            store,
            validator,
            groups,
            n,
            (k - 1) as nat,
            issuer,
            now,
            expiry,
            depth,
        );
    }
}

/// What a schema validator's answer comes to: a mismatch is a validation
/// error, a failure of the validator is passed on.
pub open spec fn schema_verdict(answer: Result<bool, KeriError>) -> Result<(), KeriError> {
    match answer {
        Ok(true) => Ok(()),
        Ok(false) => Err(KeriError::Validation),
        Err(e) => Err(e),
    }
}

/// Judges the answer of a schema validator: only a match passes.
pub fn judge_schema(answer: Result<bool, KeriError>) -> (r: Result<(), KeriError>)
    ensures
        r == schema_verdict(answer),
{
    match answer {
        Ok(true) => Ok(()),
        Ok(false) => Err(KeriError::Validation),
        Err(e) => Err(e),
    }
}

/// Passes a credential through the gates that do not look at the instant.
pub fn enter<S: KeriStore>(store: &S, creder: &Creder) -> (r: Result<
    (String, String, Sad),
    KeriError,
>)
    ensures
        match entered(store, creder@) {
            Ok((vcid, schema, prov)) => r matches Ok((v, s, p)) && v@ == vcid && s@ == schema
                && p@ == prov,
            Err(e) => r == Err::<(String, String, Sad), KeriError>(e),
        },
{
    match creder.status()? {
        None => {
            return Err(KeriError::Validation);
        },
        Some(_) => {},
    }
    let (compacted, _) = compact_acdc(creder)?;
    let vcid = compacted.said().clone();
    let schema = creder.schema()?;
    let prov = match creder.crd().get("e") {
        None => {
            let none: Vec<(String, Sad)> = Vec::new();
            assert(entries_view(none@) =~= Seq::empty());
            Sad::Dict(none)
        },
        Some(Sad::Text(t)) => store.get_sad(t.as_str())?,
        Some(block) => block.clone(),
    };
    match check_digest(creder.said().as_str(), creder.crd()) {
        None => {
            return Err(KeriError::Primitive);
        },
        Some(false) => {
            return Err(KeriError::Verification);
        },
        Some(true) => {},
    }
    Ok((vcid, schema, prov))
}

/// Passes a credential through the gates that come before its schema.
pub fn pass_entry_gates<S: KeriStore>(store: &S, creder: &Creder, now: &str, expiry: i64) -> (r: Result<
    (String, String, Sad),
    KeriError,
>)
    ensures
        match admitted(store, creder@, now@, expiry as int) {
            Ok((vcid, schema, prov)) => r matches Ok((v, s, p)) && v@ == vcid && s@ == schema
                && p@ == prov,
            Err(e) => r == Err::<(String, String, Sad), KeriError>(e),
        },
{
    let (vcid, schema, prov) = enter(store, creder)?;
    if !check_latest_state(store, vcid.as_str(), now, expiry)? {
        return Err(KeriError::Validation);
    }
    Ok((vcid, schema, prov))
}

/// Finds what an edge points at.
pub fn find_target<S: KeriStore>(store: &S, edge: &Sad) -> (r: Result<
    (Sad, String, Creder, Option<String>),
    KeriError,
>)
    ensures
        match node_target(store, edge@) {
            Ok((node, said, target, schema)) => r matches Ok((n, s, t, sch)) && n@ == node && s@
                == said && t@ == target && (match schema {
                Some(text) => sch matches Some(x) && x@ == text,
                None => sch is None,
            }),
            Err(e) => r == Err::<(Sad, String, Creder, Option<String>), KeriError>(e),
        },
{
    let node = match edge {
        Sad::Text(t) => store.get_sad(t.as_str())?,
        other => other.clone(),
    };
    let said = read_text(&node, "n")?;
    let message = store.get_acdc(said.as_str())?;
    let target = Creder::new_with_raw(message.as_str().as_bytes())?;
    if node.contains_key("s") {
        let schema = read_text(&node, "s")?;
        Ok((node, said, target, Some(schema)))
    } else {
        Ok((node, said, target, None))
    }
}

/// Judges the rule of an edge whose target is known.
pub fn check_rule<S: KeriStore>(
    store: &S,
    node: &Sad,
    said: &str,
    target: &Creder,
    issuer: &str,
    now: &str,
    expiry: i64,
    depth: usize,
) -> (r: Result<(), KeriError>)
    ensures
        r == node_rule(
            store,
            node@,
            said@,
            target@,
            issuer@,
            now@,
            expiry as int,
            depth as nat,
        ),
{
    let ops = read_operators(node)?;
    if holds_not(&ops) {
        return Err(KeriError::Value);
    }
    let subject_said = read_text(target.crd(), "a")?;
    let subject = store.get_sad(subject_said.as_str())?;
    match &subject {
        Sad::Dict(_) => {},
        _ => {
            return Err(KeriError::Conversion);
        },
    }
    let op = normalize_operators(&ops, subject.contains_key("i"))?;
    enforce_operator(op, &subject, issuer)?;
    if !acdc_status_at(store, said, now, expiry, depth)? {
        return Err(KeriError::Validation);
    }
    Ok(())
}

/// Verifies one edge: finds its target, asks the validator where the edge
/// asks for a schema, and judges its rule.
pub fn verify_node<S: KeriStore, V: SchemaValidator>(
    store: &S,
    validator: &V,
    edge: &Sad,
    issuer: &str,
    now: &str,
    expiry: i64,
    depth: usize,
) -> (r: Result<(), KeriError>)
    ensures
        r == node_verified(
            store,
            validator,
            edge@,
            issuer@,
            now@,
            expiry as int,
            depth as nat,
        ),
{
    let (node, said, target, schema) = find_target(store, edge)?;
    match schema {
        Some(text) => {
            judge_schema(validator.verify(text.as_str(), target.raw().as_str()))?;
        },
        None => {},
    }
    check_rule(store, &node, said.as_str(), &target, issuer, now, expiry, depth)
}

/// Verifies the edges of one group in order, up to the first that fails.
/// An entry under `d` or `o` is no edge.
#[verifier::loop_isolation(false)]
fn verify_group<S: KeriStore, V: SchemaValidator>(
    store: &S,
    validator: &V,
    m: &Vec<(String, Sad)>,
    issuer: &str,
    now: &str,
    expiry: i64,
    depth: usize,
) -> (r: Result<(), KeriError>)
    ensures
        r == group_verified(
            store,
            validator,
            entries_view(m@),
            m@.len(),
            issuer@,
            now@,
            expiry as int,
            depth as nat,
        ),
{
    let ghost ev = entries_view(m@);
    let mut i: usize = 0;
    while i < m.len()
        invariant
            i <= m.len(),
            group_verified(
                store,
                validator,
                ev,
                i as nat,
                issuer@,
                now@,
                expiry as int,
                depth as nat,
            ) is Ok,
        decreases m.len() - i,
    {
        assert(ev[i as int].0 == m@[i as int].0@);
        assert(ev[i as int].1 == m@[i as int].1@);
        if edge_label(&m[i].0) {
            match verify_node(store, validator, &m[i].1, issuer, now, expiry, depth) {
                Ok(()) => {},
                Err(e) => {
                    proof {
                        lemma_group_verified_failure_stays(
                            store,
                            validator,
                            ev,
                            (i + 1) as nat,
                            m.len() as nat,
                            issuer@,
                            now@,
                            expiry as int,
                            depth as nat,
                        );
                    }
                    return Err(e);
                },
            }
        }
        i = i + 1;
    }
    Ok(())
}

/// Verifies the edges of a provenance block, group by group, up to the
/// first edge that fails. The block is one group or a sequence of groups;
/// anything else is a verification error, and a group that is no mapping is
/// a conversion error.
#[verifier::loop_isolation(false)]
fn verify_edges<S: KeriStore, V: SchemaValidator>(
    store: &S,
    validator: &V,
    prov: &Sad,
    issuer: &str,
    now: &str,
    expiry: i64,
    depth: usize,
) -> (r: Result<(), KeriError>)
    ensures
        r == edges_verified(
            store,
            validator,
            prov@,
            issuer@,
            now@,
            expiry as int,
            depth as nat,
        ),
{
    match prov {
        Sad::Dict(m) => {
            let ghost groups = seq![prov@];
            assert(groups_verified(
                store,
                validator,
                groups,
                0,
                issuer@,
                now@,
                expiry as int,
                depth as nat,
            ) is Ok);
            verify_group(store, validator, m, issuer, now, expiry, depth)
        },
        Sad::List(a) => {
            let ghost groups = list_view(a@);
            let mut i: usize = 0;
            while i < a.len()
                invariant
                    i <= a.len(),
                    groups_verified(
                        store,
                        validator,
                        groups,
                        i as nat,
                        issuer@,
                        now@,
                        expiry as int,
                        depth as nat,
                    ) is Ok,
                decreases a.len() - i,
            {
                assert(groups[i as int] == a@[i as int]@);
                match &a[i] {
                    Sad::Dict(m) => {
                        match verify_group(store, validator, m, issuer, now, expiry, depth) {
                            Ok(()) => {},
                            Err(e) => {
                                proof {
                                    lemma_groups_verified_failure_stays(
                                        store,
                                        validator,
                                        groups,
                                        (i + 1) as nat,
                                        a.len() as nat,
                                        issuer@,
                                        now@,
                                        expiry as int,
                                        depth as nat,
                                    );
                                }
                                return Err(e);
                            },
                        }
                    },
                    _ => {
                        proof {
                            lemma_groups_verified_failure_stays(
                                store,
                                validator,
                                groups,
                                (i + 1) as nat,
                                a.len() as nat,
                                issuer@,
                                now@,
                                expiry as int,
                                depth as nat,
                            );
                        }
                        return Err(KeriError::Conversion);
                    },
                }
                i = i + 1;
            }
            Ok(())
        },
        _ => Err(KeriError::Verification),
    }
}

/// Tells whether the store holds the credential `vcid` already.
pub fn check_existing<S: KeriStore>(store: &S, vcid: &str) -> (r: Result<bool, KeriError>)
    ensures
        r == already_stored(store, vcid@),
{
    match store.get_acdc(vcid) {
        Err(_) => Ok(false),
        Ok(message) => {
            let existing = Creder::new_with_raw(message.as_str().as_bytes())?;
            let owned = vcid.to_owned();
            if !(owned == *existing.said()) {
                return Err(KeriError::Programmer);
            }
            Ok(true)
        },
    }
}

/// Concludes the verification of a credential that has passed the entry
/// gates, given the validator's answer for its own schema: the answer has to
/// be a match, the anchoring proof and every edge of the provenance have to
/// hold. Returns whether the store held the credential already.
pub fn conclude<S: KeriStore, V: SchemaValidator>(
    store: &S,
    validator: &V,
    creder: &Creder,
    vcid: &str,
    prov: &Sad,
    seal_source_couples: &SealSourceCouples,
    answer: Result<bool, KeriError>,
    now: &str,
    expiry: i64,
    depth: usize,
) -> (r: Result<bool, KeriError>)
    ensures
        r == concluded(
            store,
            validator,
            creder@,
            vcid@,
            prov@,
            couple_views(seal_source_couples.value@),
            answer,
            now@,
            expiry as int,
            depth as nat,
        ),
{
    judge_schema(answer)?;
    let issuer = check_proof(store, creder, vcid, seal_source_couples)?;
    verify_edges(store, validator, prov, issuer.as_str(), now, expiry, depth)?;
    check_existing(store, vcid)
}

/// Verifies a credential against its anchoring proof at the instant `now`,
/// with a freshness window of `expiry` seconds, following provenance `depth`
/// credentials deep. The gates come in order, and the first that fails gives
/// the result: the credential declares a status registry; its digest fits;
/// its latest status event is fresh and no revocation; its schema passes;
/// exactly one seal source couple is attached, and the issuer's key event
/// that it names anchors the credential; every edge of its provenance holds.
/// Where all pass, it returns whether the store held the credential already.
pub fn verify_acdc_at<S: KeriStore, V: SchemaValidator>(
    store: &S,
    validator: &V,
    creder: &Creder,
    seal_source_couples: &SealSourceCouples,
    now: &str,
    expiry: i64,
    depth: usize,
) -> (r: Result<bool, KeriError>)
    ensures
        r == verified(
            store,
            validator,
            creder@,
            couple_views(seal_source_couples.value@),
            now@,
            expiry as int,
            depth as nat,
        ),
{
    let (vcid, schema, prov) = pass_entry_gates(store, creder, now, expiry)?;
    let answer = validator.verify(schema.as_str(), creder.raw().as_str());
    conclude(
        store,
        validator,
        creder,
        vcid.as_str(),
        &prov,
        seal_source_couples,
        answer,
        now,
        expiry,
        depth,
    )
}

/// Verifies a credential against its anchoring proof now, with the default
/// freshness window and chain depth. Returns whether the store held the
/// credential already. The instant is read from the clock: the result is
/// what the gates give at some instant, and a failure at a gate that does
/// not look at the instant is the result whatever the clock says.
pub fn verify_acdc<S: KeriStore, V: SchemaValidator>(
    store: &S,
    validator: &V,
    creder: &Creder,
    seal_source_couples: &SealSourceCouples,
) -> (r: Result<bool, KeriError>)
    ensures
        entered(store, creder@) matches Err(e) ==> r == Err::<bool, KeriError>(e),
        exists|now: Seq<char>|
            r == #[trigger] verified(
                store,
                validator,
                creder@,
                couple_views(seal_source_couples.value@),
                now,
                DEFAULT_CREDENTIAL_EXPIRY_SECONDS as int,
                DEFAULT_CHAIN_DEPTH as nat,
            ),
{
    let now = utc_now();
    verify_acdc_at(
        store,
        validator,
        creder,
        seal_source_couples,
        now.as_str(),
        DEFAULT_CREDENTIAL_EXPIRY_SECONDS,
        DEFAULT_CHAIN_DEPTH,
    )
}

} // verus!
