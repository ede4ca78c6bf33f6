use crate::creder::{built_credential, Creder, CrederV};
use crate::data::{
    entries_view, find_key, lemma_first_at_unique, list_view, lookup, pos, put, put_entry,
    EntriesV, Sad, SadV,
};
use crate::error::KeriError;
use crate::said::{all_wf, compact, compact_sad, lemma_put_keeps_wf, saidified, saidify_value};
use crate::creder::Event;
use crate::event::create;
use crate::json::{join, parsed, written};
use crate::primitives::{couples_counter, couples_counter_text, seqner, seqner_text};
use crate::store::{EventProducer, KeriStore};
use vstd::prelude::*;

verus! {

/// The credential `c`, compacted: its content compacted and serialized anew
/// under the same digest code and serialization kind, and the sub-SADs that
/// were taken out of it.
pub open spec fn compacted_credential(c: CrederV) -> Result<(CrederV, Seq<SadV>), KeriError> {
    match compact(c.crd) {
        Err(e) => Err(e),
        Ok((crd, subs)) => match built_credential(crd, Some(c.code), Some(c.kind)) {
            Err(e) => Err(e),
            Ok(out) => Ok((out, subs)),
        },
    }
}

/// Compacts a credential: every block of its content that declares a digest
/// is replaced by that digest, and the blocks come back beside the compacted
/// credential, deepest first. The compacted credential keeps digest code and
/// serialization kind.
pub fn compact_acdc(creder: &Creder) -> (r: Result<(Creder, Vec<Sad>), KeriError>)
    ensures
        match compacted_credential(creder@) {
            Ok((c, subs)) => r matches Ok((out, sads)) && out@ == c && list_view(sads@) == subs
                && all_wf(subs) && Creder::valid(c),
            Err(e) => r == Err::<(Creder, Vec<Sad>), KeriError>(e),
        },
        r matches Ok((out, _)) ==> out@.code == creder@.code && out@.kind == creder@.kind
            && out@.crd.get_text("d"@) == Some(out@.said),
{
    let mut crd = creder.crd().clone();
    let mut sads: Vec<Sad> = Vec::new();
    assert(list_view(sads@) =~= Seq::<SadV>::empty());
    compact_sad(&mut crd, &mut sads)?;
    assert(Seq::<SadV>::empty() + compact(creder@.crd)->Ok_0.1 =~= compact(creder@.crd)->Ok_0.1);
    let out = Creder::new_with_ked(&crd, Some(creder.code().as_str()), Some(creder.kind().as_str()))?;
    Ok((out, sads))
}

/// The texts of a path.
pub open spec fn path_view(path: Seq<&str>) -> Seq<Seq<char>> {
    Seq::new(path.len(), |i: int| path[i]@)
}

/// The texts of a sequence of paths.
pub open spec fn paths_view(paths: Seq<Vec<&str>>) -> Seq<Seq<Seq<char>>> {
    Seq::new(paths.len(), |i: int| path_view(paths[i]@))
}

/// `v` with the digest at the end of `path`, from its component `k` on,
/// replaced by what the store holds under it. Every component but the last
/// names a field of a mapping; the last names a field that holds a digest.
/// An empty path changes nothing.
pub open spec fn expanded_at<S: KeriStore>(store: &S, v: SadV, path: Seq<Seq<char>>, k: nat) -> Result<
    SadV,
    KeriError,
>
    decreases path.len() - k,
{
    if k >= path.len() {
        Ok(v)
    } else {
        match v {
            SadV::Dict(m) => match lookup(m, path[k as int]) {
                None => Err(KeriError::Conversion),
                Some(child) => if k == path.len() - 1 {
                    match child {
                        SadV::Text(said) => match store.sad_at(said) {
                            Err(e) => Err(e),
                            Ok(full) => Ok(SadV::Dict(put(m, path[k as int], full))),
                        },
                        _ => Err(KeriError::Conversion),
                    }
                } else {
                    match expanded_at(store, child, path, k + 1) {
                        Err(e) => Err(e),
                        Ok(grown) => Ok(SadV::Dict(put(m, path[k as int], grown))),
                    }
                },
            },
            _ => Err(KeriError::Conversion),
        }
    }
}

/// `v` expanded along the first `n` of `paths`, in order.
pub open spec fn expanded_along<S: KeriStore>(
    store: &S,
    v: SadV,
    paths: Seq<Seq<Seq<char>>>,
    n: nat,
) -> Result<SadV, KeriError>
    decreases n,
{
    if n == 0 || n > paths.len() {
        Ok(v)
    } else {
        match expanded_along(store, v, paths, (n - 1) as nat) {
            Err(e) => Err(e),
            Ok(grown) => expanded_at(store, grown, paths[n - 1], 0),
        }
    }
}

/// The credential `c` with the blocks at `paths` expanded: its content
/// expanded along the paths, every digest in it taken anew, and the whole
/// serialized anew under the same digest code and serialization kind.
pub open spec fn expanded_credential<S: KeriStore>(
    store: &S,
    c: CrederV,
    paths: Seq<Seq<Seq<char>>>,
) -> Result<CrederV, KeriError> {
    match expanded_along(store, c.crd, paths, paths.len()) {
        Err(e) => Err(e),
        Ok(grown) => match saidified(grown, "d"@, true) {
            Err(e) => Err(e),
            Ok(digested) => built_credential(digested, Some(c.code), Some(c.kind)),
        },
    }
}

/// A failure along the first `n` paths is the failure of every longer
/// prefix.
pub proof fn lemma_expanded_along_failure_stays<S: KeriStore>(
    store: &S,
    v: SadV,
    paths: Seq<Seq<Seq<char>>>,
    n: nat,
    k: nat,
)
    requires
        n <= k <= paths.len(),
        expanded_along(store, v, paths, n) is Err,
    ensures
        expanded_along(store, v, paths, k) == expanded_along(store, v, paths, n),
    decreases k,
{
    if n < k {
        lemma_expanded_along_failure_stays(store, v, paths, n, (k - 1) as nat);
    }
}

/// A value held by a well-formed mapping is well formed.
pub proof fn lemma_lookup_wf(m: EntriesV, key: Seq<char>)
    requires
        SadV::Dict(m).wf(),
        lookup(m, key) is Some,
    ensures
        lookup(m, key)->Some_0.wf(),
{
    let p = pos(m, key);
    assert(m[p].1.wf());
}

/// Expands `v` along one path, from its component `k` on.
fn expand_path<S: KeriStore>(store: &S, v: Sad, path: &Vec<&str>, k: usize) -> (r: Result<
    Sad,
    KeriError,
>)
    requires
        v@.wf(),
    ensures
        match expanded_at(store, v@, path_view(path@), k as nat) {
            Ok(grown) => r matches Ok(out) && out@ == grown && grown.wf(),
            Err(e) => r == Err::<Sad, KeriError>(e),
        },
    decreases path.len() - k,
{
    if k >= path.len() {
        return Ok(v);
    }
    match v {
        Sad::Dict(mut m) => {
            let ghost before = entries_view(m@);
            let key = path[k].to_owned();
            assert(key@ == path_view(path@)[k as int]);
            match find_key(&m, &key) {
                None => Err(KeriError::Conversion),
                Some(i) => {
                    proof {
                        lemma_first_at_unique(before, key@, i as int, pos(before, key@));
                        lemma_lookup_wf(before, key@);
                    }
                    assert(before[i as int].1 == m@[i as int].1@);
                    if k == path.len() - 1 {
                        let full = match &m[i].1 {
                            Sad::Text(said) => store.get_sad(said.as_str())?,
                            _ => {
                                return Err(KeriError::Conversion);
                            },
                        };
                        proof {
                            lemma_put_keeps_wf(before, key@, full@);
                        }
                        put_entry(&mut m, key, full);
                        Ok(Sad::Dict(m))
                    } else {
                        let child = m[i].1.clone();
                        let grown = expand_path(store, child, path, k + 1)?;
                        proof {
                            lemma_put_keeps_wf(before, key@, grown@);
                        }
                        put_entry(&mut m, key, grown);
                        Ok(Sad::Dict(m))
                    }
                },
            }
        },
        _ => Err(KeriError::Conversion),
    }
}

/// Expands blocks of a credential: along each of the paths `to_expand`, in
/// order, the digest at the end of the path is replaced by what the store
/// holds under it. Only what the paths name is expanded. Then every digest
/// of the content is taken anew and the credential is serialized anew.
#[verifier::loop_isolation(false)]
pub fn expand_acdc<S: KeriStore>(creder: &Creder, to_expand: &[Vec<&str>], store: &S) -> (r: Result<
    Creder,
    KeriError,
>)
    ensures
        match expanded_credential(store, creder@, paths_view(to_expand@)) {
            Ok(c) => r matches Ok(out) && out@ == c && Creder::valid(c),
            Err(e) => r == Err::<Creder, KeriError>(e),
        },
        r matches Ok(out) ==> out@.code == creder@.code && out@.kind == creder@.kind
            && out@.crd.get_text("d"@) == Some(out@.said),
{
    let ghost paths = paths_view(to_expand@);
    let mut crd = creder.crd().clone();
    let mut i: usize = 0;
    while i < to_expand.len()
        invariant
            i <= to_expand.len(),
            crd@.wf(),
            expanded_along(store, creder@.crd, paths, i as nat) == Ok::<SadV, KeriError>(crd@),
        decreases to_expand.len() - i,
    {
        assert(paths[i as int] == path_view(to_expand@[i as int]@));
        match expand_path(store, crd, &to_expand[i], 0) {
            Err(e) => {
                proof {
                    lemma_expanded_along_failure_stays(
                        store,
                        creder@.crd,
                        paths,
                        (i + 1) as nat,
                        to_expand.len() as nat,
                    );
                }
                return Err(e);
            },
            Ok(grown) => {
                crd = grown;
            },
        }
        i = i + 1;
    }
    saidify_value(&mut crd, Some("d"), Some(false), Some(true))?;
    Creder::new_with_ked(&crd, Some(creder.code().as_str()), Some(creder.kind().as_str()))
}

/// The seal list of the interaction event that anchors a status event of
/// the credential `said`: one seal of the credential's digest, the status
/// code and the digest of the status event.
pub open spec fn anchor_seal(said: Seq<char>, code: Seq<char>, event_said: Seq<char>) -> SadV {
    let s0 = put(Seq::empty(), "i"@, SadV::Text(said));
    let s1 = put(s0, "s"@, SadV::Text(code));
    let s2 = put(s1, "d"@, SadV::Text(event_said));
    SadV::List(seq![SadV::Dict(s2)])
}

/// Builds the seal list of the interaction event that anchors a status event.
pub fn seal_for(said: &str, code: &str, event_said: &str) -> (r: Sad)
    ensures
        r@ == anchor_seal(said@, code@, event_said@),
        r@.wf(),
{
    let mut seal: Vec<(String, Sad)> = Vec::new();
    assert(entries_view(seal@) =~= Seq::<(Seq<char>, SadV)>::empty());
    proof {
        lemma_put_keeps_wf(Seq::empty(), "i"@, SadV::Text(said@));
    }
    put_entry(&mut seal, "i".to_owned(), Sad::Text(said.to_owned()));
    proof {
        lemma_put_keeps_wf(entries_view(seal@), "s"@, SadV::Text(code@));
    }
    put_entry(&mut seal, "s".to_owned(), Sad::Text(code.to_owned()));
    proof {
        lemma_put_keeps_wf(entries_view(seal@), "d"@, SadV::Text(event_said@));
    }
    put_entry(&mut seal, "d".to_owned(), Sad::Text(event_said.to_owned()));
    let mut list: Vec<Sad> = Vec::new();
    let node = Sad::Dict(seal);
    list.push(node);
    assert(list_view(list@) =~= seq![node@]);
    let out = Sad::List(list);
    assert(out@.wf()) by {
        assert(SadV::List(list_view(list@))->List_0 == list_view(list@));
    }
    out
}

/// The attachment that points at the anchoring event: the counter of one
/// seal source couple, the sequence number `sn`, and the digest `anchor` of
/// the event.
pub open spec fn source_attachment(sn: u128, anchor: Seq<char>) -> Option<Seq<char>> {
    match couples_counter_text(1) {
        None => None,
        Some(counter) => match seqner_text(sn) {
            None => None,
            Some(number) => Some(counter + number + anchor),
        },
    }
}

/// Writes the attachment that points at the anchoring event.
pub fn attach_source(sn: u128, anchor: &str) -> (r: Result<String, KeriError>)
    ensures
        match source_attachment(sn, anchor@) {
            Some(text) => r matches Ok(s) && s@ == text,
            None => r == Err::<String, KeriError>(KeriError::Primitive),
        },
{
    let counter = match couples_counter(1) {
        Ok(c) => c,
        Err(_) => {
            return Err(KeriError::Primitive);
        },
    };
    let number = match seqner(sn) {
        Ok(n) => n,
        Err(_) => {
            return Err(KeriError::Primitive);
        },
    };
    Ok(join(join(counter, number.as_str()), anchor))
}

/// Reads an optional JSON text.
fn read_optional(text: Option<&str>) -> (r: Result<Option<Sad>, KeriError>)
    ensures
        r matches Ok(Some(sad)) ==> sad@.wf(),
        r matches Ok(None) ==> text is None,
        r matches Ok(Some(sad)) ==> (text matches Some(t) && parsed(t@) == Ok::<SadV, KeriError>(
            sad@,
        )),
        r matches Err(e) ==> (text matches Some(t) && parsed(t@) == Err::<SadV, KeriError>(e)),
{
    match text {
        Some(t) => Ok(Some(Sad::from_json(t)?)),
        None => Ok(None),
    }
}

/// What an issuance or a revocation hands back of the texts it anchored:
/// `text` is `event` followed by the attachment that points at the anchoring
/// event of the sequence number `sn`.
pub open spec fn anchored_text(text: Seq<char>, event: Seq<char>, sn: u128, anchor: Seq<char>) -> bool {
    source_attachment(sn, anchor) matches Some(att) && text == event + att
}

/// The trees that optional JSON texts spell.
pub open spec fn opt_parsed(text: Option<&str>) -> Option<SadV> {
    match text {
        Some(t) => match parsed(t@) {
            Ok(tree) => Some(tree),
            Err(_) => None,
        },
        None => None,
    }
}

/// One of the JSON texts of an issuance does not parse.
pub open spec fn unparsed(
    data: &str,
    source: Option<&str>,
    rules: Option<&str>,
    disclosable: Option<&str>,
) -> bool {
    ||| parsed(data@) is Err
    ||| source matches Some(t) && parsed(t@) is Err
    ||| rules matches Some(t) && parsed(t@) is Err
    ||| disclosable matches Some(t) && parsed(t@) is Err
}

/// Whether the interaction event `ixn` can be read, has the digest `anchor`
/// and holds a seal for the credential `said`; else why not.
pub open spec fn anchor_check(ixn: Seq<char>, anchor: Seq<char>, said: Seq<char>) -> Result<
    (),
    KeriError,
> {
    match crate::creder::read_event(vstd::utf8::encode_utf8(ixn)) {
        Err(e) => Err(e),
        Ok(event) => crate::verification::anchored(event, anchor, said),
    }
}

/// The interaction event `ixn` has the digest `anchor` and holds a seal for
/// the credential `said`.
pub open spec fn anchors(ixn: Seq<char>, anchor: Seq<char>, said: Seq<char>) -> bool {
    anchor_check(ixn, anchor, said) is Ok
}

/// Checks that the interaction event `ixn` has the digest `anchor` and holds
/// a seal for the credential `said`.
pub fn check_anchoring(ixn: &str, anchor: &str, said: &str) -> (r: Result<(), KeriError>)
    ensures
        r == anchor_check(ixn@, anchor@, said@),
{
    let event = Event::new_with_raw(ixn.as_bytes())?;
    crate::verification::check_anchor(&event, anchor, said)
}

/// What anchoring a status event of the credential `said` gives: the
/// interaction event and the attachment that points at it. The producer is
/// handed the current keys of the issuer, the issuer, the digest of the
/// issuer's latest key event, the number of the issuer's key events as the
/// sequence number, and the one seal of the credential's digest, the status
/// code and the digest of the status event. What it hands back is checked:
/// the interaction event has to have the digest that comes with it and to
/// hold a seal for the credential.
pub open spec fn anchoring<S: KeriStore, P: EventProducer>(
    store: &S,
    producer: &P,
    issuer: Seq<char>,
    said: Seq<char>,
    code: Seq<char>,
    event_said: Seq<char>,
) -> Result<(Seq<char>, Seq<char>), KeriError> {
    match store.key_event_count_at(issuer) {
        Err(e) => Err(e),
        Ok(n) => match store.latest_key_event_said_at(issuer) {
            Err(e) => Err(e),
            Ok(dig) => match store.current_keys_at(issuer) {
                Err(e) => Err(e),
                Ok(keys) => match producer.interacted(
                    keys,
                    issuer,
                    dig,
                    n as u128,
                    anchor_seal(said, code, event_said),
                ) {
                    Err(e) => Err(e),
                    Ok((anchor, ixn)) => match anchor_check(ixn, anchor, said) {
                        Err(e) => Err(e),
                        Ok(_) => match source_attachment(n as u128, anchor) {
                            None => Err(KeriError::Primitive),
                            Some(attachment) => Ok((ixn, attachment)),
                        },
                    },
                },
            },
        },
    }
}

/// Has a status event of the credential `said` anchored by an interaction
/// event of the issuer, and returns that event and the attachment that
/// points at it.
pub fn anchor_event<S: KeriStore, P: EventProducer>(
    store: &S,
    producer: &P,
    issuer: &str,
    said: &str,
    code: &str,
    event_said: &str,
) -> (r: Result<(String, String), KeriError>)
    ensures
        match anchoring(store, producer, issuer@, said@, code@, event_said@) {
            Ok((ixn, attachment)) => r matches Ok(out) && out.0@ == ixn && out.1@ == attachment,
            Err(e) => r == Err::<(String, String), KeriError>(e),
        },
{
    let sn = store.count_key_events(issuer)? as u128;
    let dig = store.get_latest_key_event_said(issuer)?;
    let seal = seal_for(said, code, event_said);
    let mut keys = store.get_current_keys(issuer)?;
    let made = producer.interact(&keys, issuer, dig.as_str(), sn, &seal);
    keys.zeroize();
    let (ixn_said, ixn) = made?;
    check_anchoring(ixn.as_str(), ixn_said.as_str(), said)?;
    let attachment = attach_source(sn, ixn_said.as_str())?;
    Ok((ixn, attachment))
}

/// What issuing the credential `c` gives: the interaction event, the
/// issuance event and the credential as JSON text, the last two with the
/// attachment that points at the interaction event behind them. The
/// producer is handed the digest of the credential and the registry for the
/// issuance event; the interaction event seals the status code `0` and the
/// digest of the issuance event.
pub open spec fn issued_texts<S: KeriStore, P: EventProducer>(
    store: &S,
    producer: &P,
    c: CrederV,
    status: Seq<char>,
    issuer: Seq<char>,
) -> Result<(Seq<char>, Seq<char>, Seq<char>), KeriError> {
    match producer.issued(c.said, status) {
        Err(e) => Err(e),
        Ok((iss_said, iss)) => match anchoring(store, producer, issuer, c.said, "0"@, iss_said) {
            Err(e) => Err(e),
            Ok((ixn, attachment)) => match written(c.crd) {
                Err(e) => Err(e),
                Ok(body) => Ok((ixn, iss + attachment, body + attachment)),
            },
        },
    }
}

/// What issuing the credential of the draft `d` gives: the digest of the
/// credential, the texts of the issuance, and the sub-SADs of the
/// credential; or the error of the first step that fails.
pub open spec fn issue_outcome<S: KeriStore, P: EventProducer>(
    store: &S,
    producer: &P,
    d: crate::event::DraftV,
    status: Seq<char>,
    issuer: Seq<char>,
) -> Result<(Seq<char>, (Seq<char>, Seq<char>, Seq<char>), Seq<SadV>), KeriError> {
    match crate::event::assembled(d) {
        Err(e) => Err(e),
        Ok((c, subs)) => match issued_texts(store, producer, c, status, issuer) {
            Err(e) => Err(e),
            Ok(texts) => Ok((c.said, texts, subs)),
        },
    }
}

/// The result `r` of an issuance is `outcome`.
pub open spec fn issue_comes_to(
    r: Result<(String, String, String, String, Vec<Sad>), KeriError>,
    outcome: Result<(Seq<char>, (Seq<char>, Seq<char>, Seq<char>), Seq<SadV>), KeriError>,
) -> bool {
    match outcome {
        Err(e) => r == Err::<(String, String, String, String, Vec<Sad>), KeriError>(e),
        Ok((said, texts, subs)) => r matches Ok(out) && out.0@ == said && out.1@ == texts.0
            && out.2@ == texts.1 && out.3@ == texts.2 && list_view(out.4@) == subs,
    }
}

/// What revoking the credential `said` gives: the interaction event, and the
/// revocation event with the attachment that points at the interaction
/// event behind it. The status log of the credential has to hold exactly one
/// event; the producer is handed the digest of the credential, the registry
/// and the digest of that event for the revocation event; the interaction
/// event seals the status code `1` and the digest of the revocation event.
pub open spec fn revoked_texts<S: KeriStore, P: EventProducer>(
    store: &S,
    producer: &P,
    status: Seq<char>,
    issuer: Seq<char>,
    said: Seq<char>,
) -> Result<(Seq<char>, Seq<char>), KeriError> {
    match store.tel_at(said) {
        Err(e) => Err(e),
        Ok(log) => if log.len() != 1 {
            Err(KeriError::Value)
        } else {
            match crate::creder::read_event(vstd::utf8::encode_utf8(log[0])) {
                Err(e) => Err(e),
                Ok(prior) => match producer.revoked(said, status, prior.said) {
                    Err(e) => Err(e),
                    Ok((rev_said, rev)) => match anchoring(
                        store,
                        producer,
                        issuer,
                        said,
                        "1"@,
                        rev_said,
                    ) {
                        Err(e) => Err(e),
                        Ok((ixn, attachment)) => Ok((ixn, rev + attachment)),
                    },
                },
            }
        },
    }
}

/// Issues a credential against the status registry `status`: builds it from
/// the JSON texts of its attributes and blocks, has its issuance event made,
/// and has it anchored by an interaction event of the issuer at the
/// issuer's next sequence number, signed with the issuer's current keys. The
/// interaction event seals the digest of the credential, the status code
/// `0` and the digest of the issuance event.
///
/// Returns the digest of the credential, the interaction event, the
/// issuance event and the credential, the last two followed by the seal
/// source couple that points at the interaction event, and the sub-SADs of
/// the credential. Nothing is written to the store. What the producer hands
/// back is checked: the interaction event has to have the digest that comes
/// with it and to hold a seal for the credential.
///
/// Texts that do not parse are a decoding error. On success the credential
/// is well assembled, declares the registry, and the texts are those of its
/// issuance: what the producer makes of what it is handed. Where no salt is
/// drawn, the result is that of issuing the credential of some draft of the
/// inputs, whose instant the clock gave.
pub fn issue_acdc<S: KeriStore, P: EventProducer>(
    store: &S,
    producer: &P,
    status: &str,
    issuer: &str,
    schema: &str,
    data: &str,
    recipient: Option<&str>,
    private: Option<bool>,
    source: Option<&str>,
    rules: Option<&str>,
    partially_disclosable: Option<&str>,
) -> (r: Result<(String, String, String, String, Vec<Sad>), KeriError>)
    ensures
        unparsed(data, source, rules, partially_disclosable) ==> r == Err::<
            (String, String, String, String, Vec<Sad>),
            KeriError,
        >(KeriError::Decoding),
        !unparsed(data, source, rules, partially_disclosable) && private != Some(true)
            && crate::event::field_count(opt_parsed(partially_disclosable)) == 0
            ==> exists|d: crate::event::DraftV|
            #[trigger] crate::event::drafted(
                d,
                schema@,
                issuer@,
                parsed(data@)->Ok_0,
                crate::event::opt_str(recipient),
                private,
                None,
                Some(status@),
                opt_parsed(source),
                opt_parsed(rules),
                opt_parsed(partially_disclosable),
                None,
                None,
            ) && issue_comes_to(r, issue_outcome(store, producer, d, status@, issuer@)),
        r is Ok ==> all_wf(list_view(r->Ok_0.4@)),
        r is Ok ==> exists|c: CrederV| #[trigger]
            crate::event::well_assembled(c, list_view(r->Ok_0.4@)) && c.said == r->Ok_0.0@
                && c.crd.get_text("ri"@) == Some(status@) && issued_texts(
                store,
                producer,
                c,
                status@,
                issuer@,
            ) == Ok::<(Seq<char>, Seq<char>, Seq<char>), KeriError>(
                (r->Ok_0.1@, r->Ok_0.2@, r->Ok_0.3@),
            ),
{
    let data_tree = Sad::from_json(data)?;
    let rules_tree = read_optional(rules)?;
    let source_tree = read_optional(source)?;
    let disclosable = read_optional(partially_disclosable)?;
    let source_ref = source_tree.as_ref();
    let rules_ref = rules_tree.as_ref();
    let disclosable_ref = disclosable.as_ref();
    let built = create(
        schema,
        issuer,
        &data_tree,
        recipient,
        private,
        None,
        Some(status),
        source_ref,
        rules_ref,
        disclosable_ref,
        None,
        None,
    );
    proof {
        assert(crate::event::opt_sad_ref(source_ref) == opt_parsed(source));
        assert(crate::event::opt_sad_ref(rules_ref) == opt_parsed(rules));
        assert(crate::event::opt_sad_ref(disclosable_ref) == opt_parsed(partially_disclosable));
        assert(crate::event::opt_str(None) == None::<Seq<char>>);
        assert(crate::event::opt_str(Some(status)) == Some(status@));
        assert(crate::event::opt_version(None) == None::<crate::event::Version>);
        if private != Some(true) && crate::event::field_count(opt_parsed(partially_disclosable))
            == 0 {
            let d = choose|d: crate::event::DraftV|
                #[trigger] crate::event::drafted(
                    d,
                    schema@,
                    issuer@,
                    data_tree@,
                    crate::event::opt_str(recipient),
                    private,
                    crate::event::opt_str(None),
                    crate::event::opt_str(Some(status)),
                    crate::event::opt_sad_ref(source_ref),
                    crate::event::opt_sad_ref(rules_ref),
                    crate::event::opt_sad_ref(disclosable_ref),
                    crate::event::opt_version(None),
                    crate::event::opt_str(None),
                ) && crate::event::comes_to(built, crate::event::assembled(d));
            assert(crate::event::drafted(
                d,
                schema@,
                issuer@,
                parsed(data@)->Ok_0,
                crate::event::opt_str(recipient),
                private,
                None,
                Some(status@),
                opt_parsed(source),
                opt_parsed(rules),
                opt_parsed(partially_disclosable),
                None,
                None,
            ));
        }
    }
    let (acdc, sads) = built?;
    proof {
        let d = choose|d: crate::event::DraftV|
            #[trigger] crate::event::drafted(
                d,
                schema@,
                issuer@,
                data_tree@,
                crate::event::opt_str(recipient),
                private,
                crate::event::opt_str(None),
                crate::event::opt_str(Some(status)),
                crate::event::opt_sad_ref(source_ref),
                crate::event::opt_sad_ref(rules_ref),
                crate::event::opt_sad_ref(disclosable_ref),
                crate::event::opt_version(None),
                crate::event::opt_str(None),
            ) && crate::event::assembled(d) == Ok::<(CrederV, Seq<SadV>), KeriError>(
                (acdc@, list_view(sads@)),
            );
        crate::event::lemma_assembled_registry(d, status@);
    }
    let said = acdc.said().clone();
    let (iss_said, iss) = producer.issue(said.as_str(), status)?;
    let (ixn, attachment) = anchor_event(
        store,
        producer,
        issuer,
        said.as_str(),
        "0",
        iss_said.as_str(),
    )?;
    let body = acdc.crd().to_json()?;
    let iss = join(iss, attachment.as_str());
    let text = join(body, attachment.as_str());
    let ghost c = acdc@;
    let out: Result<(String, String, String, String, Vec<Sad>), KeriError> = Ok(
        (said, ixn, iss, text, sads),
    );
    proof {
        assert(crate::event::well_assembled(c, list_view(out->Ok_0.4@)));
        assert(c.said == out->Ok_0.0@);
        assert(c.crd.get_text("ri"@) == Some(status@));
        assert(issued_texts(store, producer, c, status@, issuer@) == Ok::<
            (Seq<char>, Seq<char>, Seq<char>),
            KeriError,
        >((out->Ok_0.1@, out->Ok_0.2@, out->Ok_0.3@)));
    }
    out
}

/// Revokes the credential `said` in the status registry `status`: has its
/// revocation event made after the one event of its status log, and has it
/// anchored by an interaction event of the issuer at the issuer's next
/// sequence number, signed with the issuer's current keys. The interaction
/// event seals the digest of the credential, the status code `1` and the
/// digest of the revocation event. A status log that does not hold exactly
/// one event is a value error.
///
/// Returns the interaction event and the revocation event, the latter
/// followed by the seal source couple that points at the interaction event.
/// Nothing is written to the store. What the producer hands back is checked:
/// the interaction event has to have the digest that comes with it and to
/// hold a seal for the credential.
pub fn revoke_acdc<S: KeriStore, P: EventProducer>(
    store: &S,
    producer: &P,
    status: &str,
    issuer: &str,
    said: &str,
) -> (r: Result<(String, String), KeriError>)
    ensures
        match revoked_texts(store, producer, status@, issuer@, said@) {
            Ok((ixn, rev)) => r matches Ok(out) && out.0@ == ixn && out.1@ == rev,
            Err(e) => r == Err::<(String, String), KeriError>(e),
        },
{
    let priors = store.get_tel(said)?;
    if priors.len() != 1 {
        return Err(KeriError::Value);
    }
    assert(crate::keys::texts(priors@)[0] == priors@[0]@);
    let prior = Event::new_with_raw(priors[0].as_str().as_bytes())?;
    let (rev_said, rev) = producer.revoke(said, status, prior.said().as_str())?;
    let (ixn, attachment) = anchor_event(store, producer, issuer, said, "1", rev_said.as_str())?;
    let rev = join(rev, attachment.as_str());
    Ok((ixn, rev))
}

} // verus!
