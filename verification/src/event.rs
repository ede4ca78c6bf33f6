use crate::creder::{built_credential, check_digest, digest_fits, Creder, CrederV};
use crate::data::{
    entries_view, list_view, lookup, put, put_entry, EntriesV, Sad, SadV,
};
use crate::error::KeriError;
use crate::primitives::{
    blanked, fresh_salt, self_address, self_addressed, to_value, utc_now, version_string,
    versify_acdc,
};
use crate::said::{
    all_wf, compact, compact_sad, lemma_lookup_put, lemma_lookup_put_other, lemma_put_keeps_wf,
};
use vstd::prelude::*;

verus! {

/// What a credential is assembled from, as mathematical values.
pub struct DraftV {
    /// The digest of the schema.
    pub schema: Seq<char>,
    /// The identifier of the issuer.
    pub issuer: Seq<char>,
    /// The attributes, a mapping.
    pub data: SadV,
    /// The identifier of the recipient, where there is one.
    pub recipient: Option<Seq<char>>,
    /// The blinding salts of credential and subject, for a private
    /// credential.
    pub salts: Option<(Seq<char>, Seq<char>)>,
    /// The instant of issuance, for attributes that carry none.
    pub stamp: Seq<char>,
    /// The identifier of the status registry, where there is one.
    pub status: Option<Seq<char>>,
    /// The edges block, where there is one.
    pub source: Option<SadV>,
    /// The rules block, where there is one.
    pub rules: Option<SadV>,
    /// The fields that can be disclosed one by one, a mapping, where there
    /// are any.
    pub disclosable: Option<SadV>,
    /// The salts of those fields, one for each, in order.
    pub field_salts: Seq<Seq<char>>,
    /// The major version of the protocol.
    pub major: u8,
    /// The minor version of the protocol.
    pub minor: u8,
    /// The kind of the serialization.
    pub kind: Seq<char>,
}

/// What a credential is assembled from.
#[derive(Debug)]
pub struct Draft {
    /// The digest of the schema.
    pub schema: String,
    /// The identifier of the issuer.
    pub issuer: String,
    /// The attributes, a mapping.
    pub data: Sad,
    /// The identifier of the recipient, where there is one.
    pub recipient: Option<String>,
    /// The blinding salts of credential and subject, for a private
    /// credential.
    pub salts: Option<(String, String)>,
    /// The instant of issuance, for attributes that carry none.
    pub stamp: String,
    /// The identifier of the status registry, where there is one.
    pub status: Option<String>,
    /// The edges block, where there is one.
    pub source: Option<Sad>,
    /// The rules block, where there is one.
    pub rules: Option<Sad>,
    /// The fields that can be disclosed one by one, a mapping, where there
    /// are any.
    pub disclosable: Option<Sad>,
    /// The salts of those fields, one for each, in order.
    pub field_salts: Vec<String>,
    /// The major version of the protocol.
    pub major: u8,
    /// The minor version of the protocol.
    pub minor: u8,
    /// The kind of the serialization.
    pub kind: String,
}

/// The value of an optional text.
pub open spec fn opt_string(s: Option<String>) -> Option<Seq<char>> {
    match s {
        Some(t) => Some(t@),
        None => None,
    }
}

/// The value of an optional node.
pub open spec fn opt_sad(s: Option<Sad>) -> Option<SadV> {
    match s {
        Some(v) => Some(v@),
        None => None,
    }
}

impl View for Draft {
    type V = DraftV;

    open spec fn view(&self) -> DraftV {
        DraftV {
            schema: self.schema@,
            issuer: self.issuer@,
            data: self.data@,
            recipient: opt_string(self.recipient),
            salts: match self.salts {
                Some((a, b)) => Some((a@, b@)),
                None => None,
            },
            stamp: self.stamp@,
            status: opt_string(self.status),
            source: opt_sad(self.source),
            rules: opt_sad(self.rules),
            disclosable: opt_sad(self.disclosable),
            field_salts: crate::keys::texts(self.field_salts@),
            major: self.major,
            minor: self.minor,
            kind: self.kind@,
        }
    }
}

impl DraftV {
    /// Every tree of the draft is well formed.
    pub open spec fn wf(self) -> bool {
        &&& self.data.wf()
        &&& self.source matches Some(v) ==> v.wf()
        &&& self.rules matches Some(v) ==> v.wf()
        &&& self.disclosable matches Some(v) ==> v.wf()
    }
}

/// `m` with the first `n` of `items` put into it, in order.
pub open spec fn put_all(m: EntriesV, items: EntriesV, n: nat) -> EntriesV
    decreases n,
{
    if n == 0 || n > items.len() {
        m
    } else {
        put(put_all(m, items, (n - 1) as nat), items[n - 1].0, items[n - 1].1)
    }
}

/// `m` with `value` under `key`, where there is a value.
pub open spec fn put_text(m: EntriesV, key: Seq<char>, value: Option<Seq<char>>) -> EntriesV {
    match value {
        Some(t) => put(m, key, SadV::Text(t)),
        None => m,
    }
}

/// The subject block before its digest is taken: an empty digest; the
/// blinding salt of a private credential; the recipient; the instant of
/// issuance, which is that of the attributes where they carry one; then the
/// attributes.
pub open spec fn subject_block(d: DraftV) -> Result<EntriesV, KeriError> {
    match d.data {
        SadV::Dict(items) => {
            let s0 = put(Seq::empty(), "d"@, SadV::Text(Seq::empty()));
            let s1 = put_text(
                s0,
                "u"@,
                match d.salts {
                    Some((_, u)) => Some(u),
                    None => None,
                },
            );
            let s2 = put_text(s1, "i"@, d.recipient);
            let s3 = put(
                s2,
                "dt"@,
                match lookup(items, "dt"@) {
                    Some(v) => v,
                    None => SadV::Text(d.stamp),
                },
            );
            Ok(put_all(s3, items, items.len()))
        },
        _ => Err(KeriError::Conversion),
    }
}

/// The credential block before the blocks it refers to are known: version
/// string, an empty digest, the blinding salt of a private credential, the
/// issuer, the status registry, the schema, and a place for the subject.
pub open spec fn head_block(d: DraftV) -> EntriesV {
    let v0 = put(Seq::empty(), "v"@, SadV::Text(version_string(d.major, d.minor, d.kind)));
    let v1 = put(v0, "d"@, SadV::Text(Seq::empty()));
    let v2 = put_text(
        v1,
        "u"@,
        match d.salts {
            Some((u, _)) => Some(u),
            None => None,
        },
    );
    let v3 = put(v2, "i"@, SadV::Text(d.issuer));
    let v4 = put_text(v3, "ri"@, d.status);
    let v5 = put(v4, "s"@, SadV::Text(d.schema));
    put(v5, "a"@, SadV::Dict(Seq::empty()))
}

/// A block joins the credential: it is compacted, the credential refers to
/// it by its digest under `label`, and it follows what was taken out of it
/// among the sub-SADs.
pub open spec fn with_block(
    vc: EntriesV,
    sads: Seq<SadV>,
    label: Seq<char>,
    block: SadV,
) -> Result<(EntriesV, Seq<SadV>), KeriError> {
    match compact(block) {
        Err(e) => Err(e),
        Ok((c, subs)) => match c.get("d"@) {
            None => Err(KeriError::Conversion),
            Some(said) => Ok((put(vc, label, said), (sads + subs).push(c))),
        },
    }
}

/// A block joins the credential where there is one.
pub open spec fn with_optional_block(
    vc: EntriesV,
    sads: Seq<SadV>,
    label: Seq<char>,
    block: Option<SadV>,
) -> Result<(EntriesV, Seq<SadV>), KeriError> {
    match block {
        Some(b) => with_block(vc, sads, label, b),
        None => Ok((vc, sads)),
    }
}

/// A field that can be disclosed by itself: a self-addressed mapping of an
/// empty digest, a salt and the value.
pub open spec fn disclosable_field(salt: Seq<char>, value: SadV, kind: Seq<char>) -> Result<
    SadV,
    KeriError,
> {
    let f0 = put(Seq::empty(), "d"@, SadV::Text(Seq::empty()));
    let f1 = put(f0, "u"@, SadV::Text(salt));
    let f2 = put(f1, "value"@, value);
    match self_addressed(blanked(SadV::Dict(f2)), Some(kind)) {
        None => Err(KeriError::Primitive),
        Some(said) => Ok(SadV::Dict(put(f2, "d"@, SadV::Text(said)))),
    }
}

/// The subject with the first `n` of `fields` put into it, each wrapped as a
/// field that can be disclosed by itself, with its salt.
pub open spec fn disclosed(
    subject: EntriesV,
    fields: EntriesV,
    salts: Seq<Seq<char>>,
    n: nat,
    kind: Seq<char>,
) -> Result<EntriesV, KeriError>
    decreases n,
{
    if n == 0 || n > fields.len() || n > salts.len() {
        Ok(subject)
    } else {
        match disclosed(subject, fields, salts, (n - 1) as nat, kind) {
            Err(e) => Err(e),
            Ok(s) => match disclosable_field(salts[n - 1], fields[n - 1].1, kind) {
                Err(e) => Err(e),
                Ok(field) => Ok(put(s, fields[n - 1].0, field)),
            },
        }
    }
}

/// The subject with the fields that can be disclosed one by one.
pub open spec fn with_disclosable(
    subject: EntriesV,
    disclosable: Option<SadV>,
    salts: Seq<Seq<char>>,
    kind: Seq<char>,
) -> Result<EntriesV, KeriError> {
    match disclosable {
        None => Ok(subject),
        Some(SadV::Dict(fields)) => if salts.len() != fields.len() {
            Err(KeriError::Value)
        } else {
            disclosed(subject, fields, salts, fields.len(), kind)
        },
        Some(_) => Err(KeriError::Conversion),
    }
}

/// The credential whose block is `vc` and whose digest, taken over the
/// block, is `said`: the block with the digest under `d`, built. The digest
/// has to fit the credential as it is built, with the size in its version
/// string.
pub open spec fn sealed(vc: EntriesV, said: Seq<char>) -> Result<CrederV, KeriError> {
    match built_credential(SadV::Dict(put(vc, "d"@, SadV::Text(said))), None, None) {
        Err(e) => Err(e),
        Ok(c) => if digest_fits(c.said, c.crd) == Some(true) {
            Ok(c)
        } else {
            Err(KeriError::Primitive)
        },
    }
}

/// The credential that is assembled from a draft, with the sub-SADs to keep
/// beside it: edges, rules and subject are compacted and referred to by
/// digest, in that order, and the digest of the credential is taken last.
pub open spec fn assembled(d: DraftV) -> Result<(CrederV, Seq<SadV>), KeriError> {
    if d.kind != "JSON"@ {
        Err(KeriError::Primitive)
    } else {
        match subject_block(d) {
            Err(e) => Err(e),
            Ok(subject) => match with_optional_block(head_block(d), Seq::empty(), "e"@, d.source) {
                Err(e) => Err(e),
                Ok((vc1, sads1)) => match with_optional_block(vc1, sads1, "r"@, d.rules) {
                    Err(e) => Err(e),
                    Ok((vc2, sads2)) => match with_disclosable(
                        subject,
                        d.disclosable,
                        d.field_salts,
                        d.kind,
                    ) {
                        Err(e) => Err(e),
                        Ok(full) => match with_block(vc2, sads2, "a"@, SadV::Dict(full)) {
                            Err(e) => Err(e),
                            Ok((vc3, sads3)) => match self_addressed(
                                blanked(SadV::Dict(vc3)),
                                Some(d.kind),
                            ) {
                                None => Err(KeriError::Primitive),
                                Some(said) => match sealed(vc3, said) {
                                    Err(e) => Err(e),
                                    Ok(c) => Ok((c, sads3)),
                                },
                            },
                        },
                    },
                },
            },
        }
    }
}

/// A failure among the first `n` fields is the failure of every longer
/// prefix.
pub proof fn lemma_disclosed_failure_stays(
    subject: EntriesV,
    fields: EntriesV,
    salts: Seq<Seq<char>>,
    n: nat,
    k: nat,
    kind: Seq<char>,
)
    requires
        n <= k <= fields.len(),
        k <= salts.len(),
        disclosed(subject, fields, salts, n, kind) is Err,
    ensures
        disclosed(subject, fields, salts, k, kind) == disclosed(subject, fields, salts, n, kind),
    decreases k,
{
    if n < k {
        lemma_disclosed_failure_stays(subject, fields, salts, n, (k - 1) as nat, kind);
    }
}

/// Puts a text under `key` where there is one.
fn put_optional(m: &mut Vec<(String, Sad)>, key: &str, value: &Option<String>)
    requires
        SadV::Dict(entries_view(old(m)@)).wf(),
    ensures
        entries_view(final(m)@) == put_text(entries_view(old(m)@), key@, opt_string(*value)),
        SadV::Dict(entries_view(final(m)@)).wf(),
{
    match value {
        Some(t) => {
            proof {
                lemma_put_keeps_wf(entries_view(m@), key@, SadV::Text(t@));
            }
            put_entry(m, key.to_owned(), Sad::Text(t.clone()));
        },
        None => {},
    }
}

/// Puts `value` under `key`.
fn put_value(m: &mut Vec<(String, Sad)>, key: &str, value: Sad)
    requires
        SadV::Dict(entries_view(old(m)@)).wf(),
        value@.wf(),
    ensures
        entries_view(final(m)@) == put(entries_view(old(m)@), key@, value@),
        SadV::Dict(entries_view(final(m)@)).wf(),
{
    proof {
        lemma_put_keeps_wf(entries_view(m@), key@, value@);
    }
    put_entry(m, key.to_owned(), value);
}

/// An empty mapping.
fn no_entries() -> (r: Vec<(String, Sad)>)
    ensures
        entries_view(r@) == Seq::<(Seq<char>, SadV)>::empty(),
        SadV::Dict(entries_view(r@)).wf(),
{
    let r: Vec<(String, Sad)> = Vec::new();
    assert(entries_view(r@) =~= Seq::<(Seq<char>, SadV)>::empty());
    r
}

/// Lets a block join the credential.
fn add_block(vc: &mut Vec<(String, Sad)>, sads: &mut Vec<Sad>, label: &str, block: &Sad) -> (r:
    Result<(), KeriError>)
    requires
        SadV::Dict(entries_view(old(vc)@)).wf(),
        all_wf(list_view(old(sads)@)),
        block@.wf(),
    ensures
        match with_block(entries_view(old(vc)@), list_view(old(sads)@), label@, block@) {
            Ok((vc2, sads2)) => r is Ok && entries_view(final(vc)@) == vc2 && list_view(
                final(sads)@,
            ) == sads2 && SadV::Dict(vc2).wf() && all_wf(sads2),
            Err(e) => r == Err::<(), KeriError>(e),
        },
{
    let mut copy = block.clone();
    let (compacted, _) = compact_sad(&mut copy, sads)?;
    let said = match compacted.get("d") {
        Some(said) => said.clone(),
        None => {
            return Err(KeriError::Conversion);
        },
    };
    proof {
        if let SadV::Dict(c) = compacted@ {
            crate::acdc::lemma_lookup_wf(c, "d"@);
        }
    }
    put_value(vc, label, said);
    let ghost prior = list_view(sads@);
    sads.push(compacted);
    assert(list_view(sads@) =~= prior.push(compacted@));
    Ok(())
}

/// Wraps a value as a field that can be disclosed by itself.
fn wrap_field(salt: &String, value: &Sad, kind: &str) -> (r: Result<Sad, KeriError>)
    requires
        value@.wf(),
    ensures
        match disclosable_field(salt@, value@, kind@) {
            Ok(field) => r matches Ok(out) && out@ == field && field.wf(),
            Err(e) => r == Err::<Sad, KeriError>(e),
        },
{
    let mut field = no_entries();
    put_value(&mut field, "d", Sad::Text(String::new()));
    put_value(&mut field, "u", Sad::Text(salt.clone()));
    put_value(&mut field, "value", value.clone());
    let ghost f2 = entries_view(field@);
    let node = Sad::Dict(field);
    let tree = to_value(&node);
    match self_address(&tree, Some(kind)) {
        Err(_) => Err(KeriError::Primitive),
        Ok(said) => match node {
            Sad::Dict(mut entries) => {
                put_value(&mut entries, "d", Sad::Text(said));
                Ok(Sad::Dict(entries))
            },
            _ => Err(KeriError::Programmer),
        },
    }
}

/// Builds the subject block of a draft.
#[verifier::loop_isolation(false)]
fn build_subject(draft: &Draft) -> (r: Result<Vec<(String, Sad)>, KeriError>)
    requires
        draft@.wf(),
    ensures
        match subject_block(draft@) {
            Ok(subject) => r matches Ok(out) && entries_view(out@) == subject && SadV::Dict(
                subject,
            ).wf(),
            Err(e) => r == Err::<Vec<(String, Sad)>, KeriError>(e),
        },
{
    let items = match &draft.data {
        Sad::Dict(items) => items,
        _ => {
            return Err(KeriError::Conversion);
        },
    };
    let ghost iv = entries_view(items@);
    let subject_salt = match &draft.salts {
        Some((_, b)) => Some(b.clone()),
        None => None,
    };
    let mut subject = no_entries();
    put_value(&mut subject, "d", Sad::Text(String::new()));
    put_optional(&mut subject, "u", &subject_salt);
    put_optional(&mut subject, "i", &draft.recipient);
    let stamp = match draft.data.get("dt") {
        Some(v) => {
            proof {
                crate::acdc::lemma_lookup_wf(iv, "dt"@);
            }
            v.clone()
        },
        None => Sad::Text(draft.stamp.clone()),
    };
    put_value(&mut subject, "dt", stamp);
    let ghost s3 = entries_view(subject@);
    let mut i: usize = 0;
    while i < items.len()
        invariant
            i <= items.len(),
            entries_view(subject@) == put_all(s3, iv, i as nat),
            SadV::Dict(entries_view(subject@)).wf(),
        decreases items.len() - i,
    {
        assert(iv[i as int].0 == items@[i as int].0@);
        assert(iv[i as int].1 == items@[i as int].1@);
        assert(iv[i as int].1.wf());
        put_value(&mut subject, items[i].0.as_str(), items[i].1.clone());
        i = i + 1;
    }
    Ok(subject)
}

/// Builds the credential block of a draft before the blocks it refers to
/// are known.
fn build_head(draft: &Draft, vs: String) -> (r: Vec<(String, Sad)>)
    requires
        vs@ == version_string(draft.major, draft.minor, draft.kind@),
    ensures
        entries_view(r@) == head_block(draft@),
        SadV::Dict(entries_view(r@)).wf(),
{
    let vc_salt = match &draft.salts {
        Some((a, _)) => Some(a.clone()),
        None => None,
    };
    let mut vc = no_entries();
    put_value(&mut vc, "v", Sad::Text(vs));
    put_value(&mut vc, "d", Sad::Text(String::new()));
    put_optional(&mut vc, "u", &vc_salt);
    put_value(&mut vc, "i", Sad::Text(draft.issuer.clone()));
    put_optional(&mut vc, "ri", &draft.status);
    put_value(&mut vc, "s", Sad::Text(draft.schema.clone()));
    put_value(&mut vc, "a", Sad::Dict(no_entries()));
    vc
}

/// Puts the fields that can be disclosed one by one into the subject.
#[verifier::loop_isolation(false)]
fn disclose(subject: Vec<(String, Sad)>, draft: &Draft) -> (r: Result<
    Vec<(String, Sad)>,
    KeriError,
>)
    requires
        draft@.wf(),
        SadV::Dict(entries_view(subject@)).wf(),
    ensures
        match with_disclosable(
            entries_view(subject@),
            draft@.disclosable,
            draft@.field_salts,
            draft@.kind,
        ) {
            Ok(full) => r matches Ok(out) && entries_view(out@) == full && SadV::Dict(full).wf(),
            Err(e) => r == Err::<Vec<(String, Sad)>, KeriError>(e),
        },
{
    let mut subject = subject;
    match &draft.disclosable {
        None => Ok(subject),
        Some(Sad::Dict(fields)) => {
            assert(draft@.disclosable == Some(SadV::Dict(entries_view(fields@))));
            assert(draft@.field_salts.len() == draft.field_salts@.len());
            assert(entries_view(fields@).len() == fields@.len());
            if draft.field_salts.len() != fields.len() {
                return Err(KeriError::Value);
            }
            let ghost fv = entries_view(fields@);
            let ghost salts = crate::keys::texts(draft.field_salts@);
            let ghost base = entries_view(subject@);
            let mut k: usize = 0;
            while k < fields.len()
                invariant
                    k <= fields.len(),
                    disclosed(base, fv, salts, k as nat, draft.kind@) == Ok::<
                        EntriesV,
                        KeriError,
                    >(entries_view(subject@)),
                    SadV::Dict(entries_view(subject@)).wf(),
                decreases fields.len() - k,
            {
                assert(fv[k as int].0 == fields@[k as int].0@);
                assert(fv[k as int].1 == fields@[k as int].1@);
                assert(fv[k as int].1.wf());
                assert(salts[k as int] == draft.field_salts@[k as int]@);
                match wrap_field(&draft.field_salts[k], &fields[k].1, draft.kind.as_str()) {
                    Err(e) => {
                        proof {
                            lemma_disclosed_failure_stays(
                                base,
                                fv,
                                salts,
                                (k + 1) as nat,
                                fields.len() as nat,
                                draft.kind@,
                            );
                        }
                        return Err(e);
                    },
                    Ok(field) => {
                        put_value(&mut subject, fields[k].0.as_str(), field);
                    },
                }
                k = k + 1;
            }
            Ok(subject)
        },
        Some(_) => Err(KeriError::Conversion),
    }
}

/// Lets a block join the credential where there is one.
fn add_optional_block(
    vc: &mut Vec<(String, Sad)>,
    sads: &mut Vec<Sad>,
    label: &str,
    block: &Option<Sad>,
) -> (r: Result<(), KeriError>)
    requires
        SadV::Dict(entries_view(old(vc)@)).wf(),
        all_wf(list_view(old(sads)@)),
        block matches Some(b) ==> b@.wf(),
    ensures
        match with_optional_block(
            entries_view(old(vc)@),
            list_view(old(sads)@),
            label@,
            opt_sad(*block),
        ) {
            Ok((vc2, sads2)) => r is Ok && entries_view(final(vc)@) == vc2 && list_view(
                final(sads)@,
            ) == sads2 && SadV::Dict(vc2).wf() && all_wf(sads2),
            Err(e) => r == Err::<(), KeriError>(e),
        },
{
    match block {
        Some(b) => add_block(vc, sads, label, b),
        None => Ok(()),
    }
}

/// Takes the digest of the credential block, builds the credential, and
/// checks that the digest fits the credential as it is built.
fn seal_credential(vc: Vec<(String, Sad)>, kind: &str) -> (r: Result<Creder, KeriError>)
    requires
        SadV::Dict(entries_view(vc@)).wf(),
    ensures
        match self_addressed(blanked(SadV::Dict(entries_view(vc@))), Some(kind@)) {
            None => r == Err::<Creder, KeriError>(KeriError::Primitive),
            Some(said) => match sealed(entries_view(vc@), said) {
                Err(e) => r == Err::<Creder, KeriError>(e),
                Ok(c) => r matches Ok(out) && out@ == c && Creder::valid(c) && c.crd.get_text(
                    "d"@,
                ) == Some(c.said),
            },
        },
{
    let node = Sad::Dict(vc);
    let tree = to_value(&node);
    let said = match self_address(&tree, Some(kind)) {
        Ok(said) => said,
        Err(_) => {
            return Err(KeriError::Primitive);
        },
    };
    match node {
        Sad::Dict(mut entries) => {
            put_value(&mut entries, "d", Sad::Text(said));
            let ked = Sad::Dict(entries);
            let creder = Creder::new_with_ked(&ked, None, None)?;
            match check_digest(creder.said().as_str(), creder.crd()) {
                Some(true) => Ok(creder),
                _ => Err(KeriError::Primitive),
            }
        },
        _ => Err(KeriError::Programmer),
    }
}

/// Assembles a credential from a draft: builds the subject block of the
/// attributes, wraps each field that can be disclosed by itself, compacts
/// edges, rules and subject and refers to them by digest, and takes the
/// digest of the credential last. Returns the credential and the sub-SADs to
/// keep beside it. Everything that the credential depends on is in the
/// draft, salts and instant of issuance included.
pub fn assemble(draft: &Draft) -> (r: Result<(Creder, Vec<Sad>), KeriError>)
    requires
        draft@.wf(),
    ensures
        match assembled(draft@) {
            Ok((c, sads)) => r matches Ok((out, subs)) && out@ == c && list_view(subs@) == sads
                && Creder::valid(c) && all_wf(sads) && well_assembled(c, sads),
            Err(e) => r == Err::<(Creder, Vec<Sad>), KeriError>(e),
        },
{
    proof {
        if assembled(draft@) is Ok {
            lemma_well_assembled(draft@);
        }
    }
    let vs = match versify_acdc(draft.major, draft.minor, draft.kind.as_str()) {
        Ok(vs) => vs,
        Err(_) => {
            return Err(KeriError::Primitive);
        },
    };
    let subject = build_subject(draft)?;
    let mut vc = build_head(draft, vs);
    let mut sads: Vec<Sad> = Vec::new();
    assert(list_view(sads@) =~= Seq::<SadV>::empty());
    add_optional_block(&mut vc, &mut sads, "e", &draft.source)?;
    add_optional_block(&mut vc, &mut sads, "r", &draft.rules)?;
    let full = disclose(subject, draft)?;
    let block = Sad::Dict(full);
    add_block(&mut vc, &mut sads, "a", &block)?;
    let creder = seal_credential(vc, draft.kind.as_str())?;
    Ok((creder, sads))
}

/// A version of the protocol.
#[derive(Debug, Clone, Copy, PartialEq, Eq, Structural)]
pub struct Version {
    /// The major version.
    pub major: u8,
    /// The minor version.
    pub minor: u8,
}

/// The version of the protocol that credentials are built for where none is
/// asked for.
pub fn current_version() -> (r: Version)
    ensures
        r.major == 1,
        r.minor == 0,
{
    Version { major: 1, minor: 0 }
}

/// The value of an optional reference to a node.
pub open spec fn opt_sad_ref(s: Option<&Sad>) -> Option<SadV> {
    match s {
        Some(v) => Some(v@),
        None => None,
    }
}

/// The value of an optional reference to a text.
pub open spec fn opt_str(s: Option<&str>) -> Option<Seq<char>> {
    match s {
        Some(t) => Some(t@),
        None => None,
    }
}

/// The value of an optional reference to a version.
pub open spec fn opt_version(v: Option<&Version>) -> Option<Version> {
    match v {
        Some(x) => Some(*x),
        None => None,
    }
}

/// `d` is a draft of a credential with the given inputs: it holds them as
/// they are, with the defaults for version and kind; it holds blinding salts
/// exactly where the credential is private, and they are the salt that was
/// given where one was given; it holds one salt for each field that can be
/// disclosed by itself.
pub open spec fn drafted(
    d: DraftV,
    schema: Seq<char>,
    issuer: Seq<char>,
    data: SadV,
    recipient: Option<Seq<char>>,
    private: Option<bool>,
    salt: Option<Seq<char>>,
    status: Option<Seq<char>>,
    source: Option<SadV>,
    rules: Option<SadV>,
    disclosable: Option<SadV>,
    version: Option<Version>,
    kind: Option<Seq<char>>,
) -> bool {
    &&& d.schema == schema
    &&& d.issuer == issuer
    &&& d.data == data
    &&& d.recipient == recipient
    &&& d.status == status
    &&& d.source == source
    &&& d.rules == rules
    &&& d.disclosable == disclosable
    &&& d.major == (match version {
        Some(v) => v.major,
        None => 1u8,
    })
    &&& d.minor == (match version {
        Some(v) => v.minor,
        None => 0u8,
    })
    &&& d.kind == (match kind {
        Some(k) => k,
        None => "JSON"@,
    })
    &&& (d.salts is Some <==> private == Some(true))
    &&& (private == Some(true) && salt is Some ==> d.salts == Some((salt->Some_0, salt->Some_0)))
    &&& d.field_salts.len() == field_count(disclosable)
}

/// A copy of an optional text.
fn copy_text(s: Option<&str>) -> (r: Option<String>)
    ensures
        opt_string(r) == opt_str(s),
{
    match s {
        Some(t) => Some(t.to_owned()),
        None => None,
    }
}

/// A copy of an optional node.
fn copy_sad(s: Option<&Sad>) -> (r: Option<Sad>)
    ensures
        opt_sad(r) == opt_sad_ref(s),
{
    match s {
        Some(v) => Some(v.clone()),
        None => None,
    }
}

/// The number of fields that can be disclosed one by one: the entries of
/// the mapping that names them, none where there is no such mapping.
pub open spec fn field_count(disclosable: Option<SadV>) -> nat {
    match disclosable {
        Some(SadV::Dict(fields)) => fields.len(),
        _ => 0,
    }
}

/// Draws one fresh salt for each field that can be disclosed by itself, so
/// that a draft has as many salts as fields. A failure to draw is a
/// primitive error.
#[verifier::loop_isolation(false)]
fn draw_field_salts(disclosable: Option<&Sad>) -> (r: Result<Vec<String>, KeriError>)
    ensures
        r matches Ok(salts) ==> salts@.len() == field_count(opt_sad_ref(disclosable)),
        r matches Err(e) ==> e == KeriError::Primitive && field_count(opt_sad_ref(disclosable))
            > 0,
{
    let mut salts: Vec<String> = Vec::new();
    match disclosable {
        Some(Sad::Dict(fields)) => {
            assert(field_count(opt_sad_ref(disclosable)) == entries_view(fields@).len());
            assert(entries_view(fields@).len() == fields@.len());
            let mut i: usize = 0;
            while i < fields.len()
                invariant
                    i <= fields.len(),
                    salts@.len() == i,
                decreases fields.len() - i,
            {
                match fresh_salt(Some("low")) {
                    Ok(salt) => {
                        salts.push(salt);
                    },
                    Err(_) => {
                        return Err(KeriError::Primitive);
                    },
                }
                i = i + 1;
            }
        },
        _ => {},
    }
    Ok(salts)
}

/// The result `r` is what assembling came to.
pub open spec fn comes_to(
    r: Result<(Creder, Vec<Sad>), KeriError>,
    outcome: Result<(CrederV, Seq<SadV>), KeriError>,
) -> bool {
    match outcome {
        Ok((c, sads)) => r matches Ok((out, subs)) && out@ == c && list_view(subs@) == sads,
        Err(e) => r == Err::<(Creder, Vec<Sad>), KeriError>(e),
    }
}

/// Draws the blinding salts of a private credential: the salt that is given,
/// twice, or two fresh ones. A credential that is not private has none, and
/// nothing is drawn.
fn draw_salts(private: bool, salt: Option<&str>) -> (r: Result<Option<(String, String)>, KeriError>)
    ensures
        !private ==> r matches Ok(None),
        r matches Err(e) ==> e == KeriError::Primitive,
        r matches Ok(s) ==> (s is Some <==> private),
        r matches Ok(Some((a, b))) ==> (salt matches Some(given) ==> a@ == given@ && b@ == given@),
{
    if !private {
        return Ok(None);
    }
    match salt {
        Some(given) => Ok(Some((given.to_owned(), given.to_owned()))),
        None => {
            let first = match fresh_salt(Some("low")) {
                Ok(s) => s,
                Err(_) => {
                    return Err(KeriError::Primitive);
                },
            };
            let second = match fresh_salt(Some("low")) {
                Ok(s) => s,
                Err(_) => {
                    return Err(KeriError::Primitive);
                },
            };
            Ok(Some((first, second)))
        },
    }
}

/// Builds a credential: a subject block of the attributes `data`, with the
/// instant of issuance where they carry none; blinding salts on credential
/// and subject where it is `private`; each field of `partially_disclosable`
/// wrapped with a salt of its own; edges, rules and subject compacted and
/// referred to by digest; the digest of the credential taken last. Nothing
/// is read from or written to a store. Returns the credential and the
/// sub-SADs to keep beside it.
///
/// Salts and the instant are drawn here, so the contract speaks of some
/// draft of the inputs: what comes back is what that draft assembles to. A
/// failure to draw a salt is a primitive error.
pub fn create(
    schema: &str,
    issuer: &str,
    data: &Sad,
    recipient: Option<&str>,
    private: Option<bool>,
    salt: Option<&str>,
    status: Option<&str>,
    source: Option<&Sad>,
    rules: Option<&Sad>,
    partially_disclosable: Option<&Sad>,
    version: Option<&Version>,
    kind: Option<&str>,
) -> (r: Result<(Creder, Vec<Sad>), KeriError>)
    requires
        data@.wf(),
        source matches Some(v) ==> v@.wf(),
        rules matches Some(v) ==> v@.wf(),
        partially_disclosable matches Some(v) ==> v@.wf(),
    ensures
        r matches Ok((c, sads)) ==> exists|d: DraftV|
            #[trigger] drafted(
                d,
                schema@,
                issuer@,
                data@,
                opt_str(recipient),
                private,
                opt_str(salt),
                opt_str(status),
                opt_sad_ref(source),
                opt_sad_ref(rules),
                opt_sad_ref(partially_disclosable),
                opt_version(version),
                opt_str(kind),
            ) && assembled(d) == Ok::<(CrederV, Seq<SadV>), KeriError>((c@, list_view(sads@))),
        r matches Ok((c, sads)) ==> Creder::valid(c@) && all_wf(list_view(sads@))
            && well_assembled(c@, list_view(sads@)),
        private != Some(true) && field_count(opt_sad_ref(partially_disclosable)) == 0
            ==> exists|d: DraftV|
            #[trigger] drafted(
                d,
                schema@,
                issuer@,
                data@,
                opt_str(recipient),
                private,
                opt_str(salt),
                opt_str(status),
                opt_sad_ref(source),
                opt_sad_ref(rules),
                opt_sad_ref(partially_disclosable),
                opt_version(version),
                opt_str(kind),
            ) && comes_to(r, assembled(d)),
        r matches Err(e) ==> e == KeriError::Primitive || exists|d: DraftV|
            #[trigger] drafted(
                d,
                schema@,
                issuer@,
                data@,
                opt_str(recipient),
                private,
                opt_str(salt),
                opt_str(status),
                opt_sad_ref(source),
                opt_sad_ref(rules),
                opt_sad_ref(partially_disclosable),
                opt_version(version),
                opt_str(kind),
            ) && assembled(d) == Err::<(CrederV, Seq<SadV>), KeriError>(e),
        (kind matches Some(k) && k@ != "JSON"@) ==> r matches Err(KeriError::Primitive),
{
    let chosen = match version {
        Some(v) => *v,
        None => current_version(),
    };
    let kind_text = match kind {
        Some(k) => k.to_owned(),
        None => "JSON".to_owned(),
    };
    if versify_acdc(chosen.major, chosen.minor, kind_text.as_str()).is_err() {
        proof {
            let d = DraftV {
                schema: schema@,
                issuer: issuer@,
                data: data@,
                recipient: opt_str(recipient),
                salts: if private == Some(true) {
                    match opt_str(salt) {
                        Some(given) => Some((given, given)),
                        None => Some((Seq::empty(), Seq::empty())),
                    }
                } else {
                    None
                },
                stamp: Seq::empty(),
                status: opt_str(status),
                source: opt_sad_ref(source),
                rules: opt_sad_ref(rules),
                disclosable: opt_sad_ref(partially_disclosable),
                field_salts: Seq::new(
                    field_count(opt_sad_ref(partially_disclosable)),
                    |i: int| Seq::<char>::empty(),
                ),
                major: chosen.major,
                minor: chosen.minor,
                kind: kind_text@,
            };
            assert(drafted(
                d,
                schema@,
                issuer@,
                data@,
                opt_str(recipient),
                private,
                opt_str(salt),
                opt_str(status),
                opt_sad_ref(source),
                opt_sad_ref(rules),
                opt_sad_ref(partially_disclosable),
                opt_version(version),
                opt_str(kind),
            ));
            assert(assembled(d) == Err::<(CrederV, Seq<SadV>), KeriError>(KeriError::Primitive));
        }
        return Err(KeriError::Primitive);
    }
    let is_private = match private {
        Some(b) => b,
        None => false,
    };
    let salts = draw_salts(is_private, salt)?;
    let field_salts = draw_field_salts(partially_disclosable)?;
    let draft = Draft {
        schema: schema.to_owned(),
        issuer: issuer.to_owned(),
        data: data.clone(),
        recipient: copy_text(recipient),
        salts,
        stamp: utc_now(),
        status: copy_text(status),
        source: copy_sad(source),
        rules: copy_sad(rules),
        disclosable: copy_sad(partially_disclosable),
        field_salts,
        major: chosen.major,
        minor: chosen.minor,
        kind: kind_text,
    };
    let r = assemble(&draft);
    proof {
        assert(drafted(
            draft@,
            schema@,
            issuer@,
            data@,
            opt_str(recipient),
            private,
            opt_str(salt),
            opt_str(status),
            opt_sad_ref(source),
            opt_sad_ref(rules),
            opt_sad_ref(partially_disclosable),
            opt_version(version),
            opt_str(kind),
        ));
    }
    r
}

/// A block that joins the credential leaves the status registry that the
/// credential declares.
proof fn lemma_block_keeps_registry(
    vc: EntriesV,
    sads: Seq<SadV>,
    label: Seq<char>,
    block: Option<SadV>,
)
    requires
        label != "ri"@,
        with_optional_block(vc, sads, label, block) is Ok,
    ensures
        lookup(with_optional_block(vc, sads, label, block)->Ok_0.0, "ri"@) == lookup(vc, "ri"@),
{
    match block {
        Some(b) => {
            let c = compact(b)->Ok_0.0;
            lemma_lookup_put_other(vc, label, c.get("d"@)->Some_0, "ri"@);
        },
        None => {},
    }
}

/// What holds of a credential as it is assembled: it carries its digest
/// under `d`, and the digest fits it; its subject is the last of the
/// sub-SADs, and the credential refers to it by its digest under `a`.
pub open spec fn well_assembled(c: CrederV, sads: Seq<SadV>) -> bool {
    &&& c.crd.get_text("d"@) == Some(c.said)
    &&& digest_fits(c.said, c.crd) == Some(true)
    &&& sads.len() > 0
    &&& c.crd.get("a"@) is Some
    &&& c.crd.get("a"@) == sads.last().get("d"@)
}

/// A credential that is assembled from a draft is well assembled.
pub proof fn lemma_well_assembled(d: DraftV)
    requires
        assembled(d) is Ok,
    ensures
        well_assembled(assembled(d)->Ok_0.0, assembled(d)->Ok_0.1),
{
    reveal_strlit("a");
    reveal_strlit("d");
    reveal_strlit("v");
    assert("a"@ != "d"@) by {
        assert("a"@[0] != "d"@[0]);
    }
    assert("a"@ != "v"@) by {
        assert("a"@[0] != "v"@[0]);
    }
    let subject = subject_block(d)->Ok_0;
    let (vc1, sads1) = with_optional_block(head_block(d), Seq::empty(), "e"@, d.source)->Ok_0;
    let (vc2, sads2) = with_optional_block(vc1, sads1, "r"@, d.rules)->Ok_0;
    let full = with_disclosable(subject, d.disclosable, d.field_salts, d.kind)->Ok_0;
    let (vc3, sads3) = with_block(vc2, sads2, "a"@, SadV::Dict(full))->Ok_0;
    let block = compact(SadV::Dict(full))->Ok_0.0;
    let named = block.get("d"@)->Some_0;
    lemma_lookup_put(vc2, "a"@, named);
    let said = self_addressed(blanked(SadV::Dict(vc3)), Some(d.kind))->Some_0;
    let vc4 = put(vc3, "d"@, SadV::Text(said));
    lemma_lookup_put_other(vc3, "d"@, SadV::Text(said), "a"@);
    let built = crate::primitives::credential_from_ked(SadV::Dict(vc4), None, None)->Some_0;
    lemma_lookup_put_other(vc4, "v"@, SadV::Text(built.0), "a"@);
    crate::creder::lemma_built_digest(SadV::Dict(vc4), None, None);
    assert(sads3.last() == block);
}

/// A credential that is assembled from a draft with a status registry
/// declares that registry.
pub proof fn lemma_assembled_registry(d: DraftV, status: Seq<char>)
    requires
        assembled(d) is Ok,
        d.status == Some(status),
    ensures
        assembled(d)->Ok_0.0.crd.get_text("ri"@) == Some(status),
{
    reveal_strlit("ri");
    reveal_strlit("s");
    reveal_strlit("a");
    reveal_strlit("e");
    reveal_strlit("r");
    reveal_strlit("d");
    reveal_strlit("v");
    assert("ri"@.len() == 2);
    let v0 = put(Seq::empty(), "v"@, SadV::Text(version_string(d.major, d.minor, d.kind)));
    let v1 = put(v0, "d"@, SadV::Text(Seq::empty()));
    let v2 = put_text(
        v1,
        "u"@,
        match d.salts {
            Some((u, _)) => Some(u),
            None => None,
        },
    );
    let v3 = put(v2, "i"@, SadV::Text(d.issuer));
    let v4 = put(v3, "ri"@, SadV::Text(status));
    let v5 = put(v4, "s"@, SadV::Text(d.schema));
    let v6 = put(v5, "a"@, SadV::Dict(Seq::empty()));
    assert(v6 == head_block(d));
    lemma_lookup_put(v3, "ri"@, SadV::Text(status));
    lemma_lookup_put_other(v4, "s"@, SadV::Text(d.schema), "ri"@);
    lemma_lookup_put_other(v5, "a"@, SadV::Dict(Seq::empty()), "ri"@);
    let subject = subject_block(d)->Ok_0;
    let (vc1, sads1) = with_optional_block(v6, Seq::empty(), "e"@, d.source)->Ok_0;
    lemma_block_keeps_registry(v6, Seq::empty(), "e"@, d.source);
    let (vc2, sads2) = with_optional_block(vc1, sads1, "r"@, d.rules)->Ok_0;
    lemma_block_keeps_registry(vc1, sads1, "r"@, d.rules);
    let full = with_disclosable(subject, d.disclosable, d.field_salts, d.kind)->Ok_0;
    let (vc3, sads3) = with_block(vc2, sads2, "a"@, SadV::Dict(full))->Ok_0;
    lemma_block_keeps_registry(vc2, sads2, "a"@, Some(SadV::Dict(full)));
    let said = self_addressed(blanked(SadV::Dict(vc3)), Some(d.kind))->Some_0;
    let vc4 = put(vc3, "d"@, SadV::Text(said));
    lemma_lookup_put_other(vc3, "d"@, SadV::Text(said), "ri"@);
    let built = crate::primitives::credential_from_ked(SadV::Dict(vc4), None, None)->Some_0;
    lemma_lookup_put_other(vc4, "v"@, SadV::Text(built.0), "ri"@);
}

} // verus!
