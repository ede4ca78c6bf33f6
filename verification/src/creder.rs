use crate::data::{put, put_entry, Sad, SadV};
use crate::error::KeriError;
use crate::primitives::{
    creder_from_ked, creder_from_raw, credential_from_ked, credential_from_raw, event_from_raw,
    from_json, json_from_slice, json_tree, opt_text, readable, said_matches, said_verifies,
    serder_from_raw, sniff, sniffed, to_value,
};
use vstd::prelude::*;
use vstd::slice::slice_subrange;
use crate::codes::{cuttable, is_cuttable};

verus! {

/// The mathematical value of a credential.
pub struct CrederV {
    /// The content.
    pub crd: SadV,
    /// The serialization.
    pub raw: Seq<char>,
    /// The digest of the content, in text form.
    pub said: Seq<char>,
    /// The code of the digest.
    pub code: Seq<char>,
    /// The kind of the serialization.
    pub kind: Seq<char>,
}

/// The mathematical value of a key event or a transaction event.
pub struct EventV {
    /// The content.
    pub ked: SadV,
    /// The serialization.
    pub raw: Seq<char>,
    /// The digest of the content, in text form.
    pub said: Seq<char>,
}

/// A text that the content holds under `d` can be cut, as every digest in
/// text form can.
pub open spec fn cuttable_digest(content: SadV) -> bool {
    content.get_text("d"@) matches Some(said) ==> cuttable(said)
}

/// Whether a text that `sad` holds under `d` can be cut.
pub fn digest_is_cuttable(sad: &Sad) -> (r: bool)
    ensures
        r == cuttable_digest(sad@),
{
    match sad.get_text("d") {
        Some(said) => is_cuttable(said.as_str()),
        None => true,
    }
}

/// Whether the digest `said` fits the content `crd`: it is the digest of the
/// content, taken with the field `d` blanked and the size filled into the
/// version string. Nothing where the digest, which has to be a text that can
/// be cut, or the content, which has to be a mapping, cannot be read.
pub open spec fn digest_fits(said: Seq<char>, crd: SadV) -> Option<bool> {
    if cuttable(said) && crd is Dict {
        said_matches(said, crd)
    } else {
        None
    }
}

/// Checks whether the digest `said` fits the content `crd`.
pub fn check_digest(said: &str, crd: &Sad) -> (r: Option<bool>)
    requires
        crd@.wf(),
    ensures
        r == digest_fits(said@, crd@),
{
    if !is_cuttable(said) {
        return None;
    }
    match crd {
        Sad::Dict(_) => {},
        _ => {
            return None;
        },
    }
    match said_verifies(said, &to_value(crd)) {
        Ok(b) => Some(b),
        Err(_) => None,
    }
}

/// The content that the head of `raw` spells, where `raw` is a serialization
/// that can be read: its version string declares a size within `raw`, and up
/// to there it spells a JSON mapping that holds `d` and no number but 64-bit
/// integers; a text under `d` is one that can be cut.
pub open spec fn content_of(raw: Seq<u8>) -> Result<SadV, KeriError> {
    match sniffed(raw) {
        None => Err(KeriError::Decoding),
        Some((_, size)) => if size > raw.len() {
            Err(KeriError::Decoding)
        } else {
            match json_tree(raw.subrange(0, size as int)) {
                None => Err(KeriError::Decoding),
                Some(tree) => if tree.get("d"@) is None {
                    Err(KeriError::Conversion)
                } else if !cuttable_digest(tree) {
                    Err(KeriError::Decoding)
                } else {
                    Ok(tree)
                },
            }
        },
    }
}

/// The credential that `raw` spells.
pub open spec fn read_credential(raw: Seq<u8>) -> Result<CrederV, KeriError> {
    match content_of(raw) {
        Err(e) => Err(e),
        Ok(crd) => match credential_from_raw(raw) {
            None => Err(KeriError::Primitive),
            Some((text, said, code, kind)) => Ok(CrederV { crd, raw: text, said, code, kind }),
        },
    }
}

/// The event that `raw` spells.
pub open spec fn read_event(raw: Seq<u8>) -> Result<EventV, KeriError> {
    match content_of(raw) {
        Err(e) => Err(e),
        Ok(ked) => match event_from_raw(raw) {
            None => Err(KeriError::Primitive),
            Some((text, said)) => Ok(EventV { ked, raw: text, said }),
        },
    }
}

/// The credential that is built from the content `ked`, which has to hold
/// its digest under `d`, as a text that can be cut: the content with the
/// size filled into its version string, and its serialization. The digest
/// that the builder reads has to be the text under `d`.
pub open spec fn built_credential(
    ked: SadV,
    code: Option<Seq<char>>,
    kind: Option<Seq<char>>,
) -> Result<CrederV, KeriError> {
    if ked.get("d"@) is None || !cuttable_digest(ked) {
        Err(KeriError::Conversion)
    } else {
        match credential_from_ked(ked, code, kind) {
            None => Err(KeriError::Primitive),
            Some((vs, text, said, code2, kind2)) => if ked.get_text("d"@) != Some(said) {
                Err(KeriError::Primitive)
            } else {
                Ok(
                    CrederV {
                        crd: SadV::Dict(put(ked->Dict_0, "v"@, SadV::Text(vs))),
                        raw: text,
                        said,
                        code: code2,
                        kind: kind2,
                    },
                )
            },
        }
    }
}

/// A credential that is built carries its digest under `d`.
pub proof fn lemma_built_digest(ked: SadV, code: Option<Seq<char>>, kind: Option<Seq<char>>)
    requires
        built_credential(ked, code, kind) is Ok,
    ensures
        built_credential(ked, code, kind)->Ok_0.crd.get_text("d"@) == Some(
            built_credential(ked, code, kind)->Ok_0.said,
        ),
{
    reveal_strlit("v");
    reveal_strlit("d");
    assert("v"@ != "d"@) by {
        assert("v"@[0] != "d"@[0]);
    }
    let vs = credential_from_ked(ked, code, kind)->Some_0.0;
    crate::said::lemma_lookup_put_other(ked->Dict_0, "v"@, SadV::Text(vs), "d"@);
}

/// The text under `key` in a mapping, as a field that has to be there.
pub open spec fn required_text(v: SadV, key: Seq<char>) -> Result<Seq<char>, KeriError> {
    match v.get_text(key) {
        Some(t) => Ok(t),
        None => Err(KeriError::Conversion),
    }
}

/// Reads the text under `key`, a field that has to be there: a mapping that
/// lacks it, or holds another shape there, is a conversion error.
pub fn read_text(sad: &Sad, key: &str) -> (r: Result<String, KeriError>)
    ensures
        match required_text(sad@, key@) {
            Ok(t) => r matches Ok(s) && s@ == t,
            Err(e) => r == Err::<String, KeriError>(e),
        },
{
    match sad.get_text(key) {
        Some(s) => Ok(s.clone()),
        None => Err(KeriError::Conversion),
    }
}

/// Reads the content at the head of `raw`.
fn read_content(raw: &[u8]) -> (r: Result<Sad, KeriError>)
    ensures
        match content_of(raw@) {
            Ok(tree) => r matches Ok(sad) && sad@ == tree && tree.wf() && readable(raw@),
            Err(e) => r == Err::<Sad, KeriError>(e),
        },
{
    let size = match sniff(raw) {
        Ok((_, size)) => size as usize,
        Err(_) => {
            return Err(KeriError::Decoding);
        },
    };
    if size > raw.len() {
        return Err(KeriError::Decoding);
    }
    let head = slice_subrange(raw, 0, size);
    let json = match json_from_slice(head) {
        Ok(json) => json,
        Err(_) => {
            return Err(KeriError::Decoding);
        },
    };
    match from_json(&json) {
        None => Err(KeriError::Decoding),
        Some(tree) => {
            if !tree.contains_key("d") {
                Err(KeriError::Conversion)
            } else if !digest_is_cuttable(&tree) {
                Err(KeriError::Decoding)
            } else {
                Ok(tree)
            }
        },
    }
}

/// A credential: its content, its serialization and the digest that
/// identifies it.
#[derive(Debug)]
pub struct Creder {
    crd: Sad,
    raw: String,
    said: String,
    code: String,
    kind: String,
}

impl View for Creder {
    type V = CrederV;

    closed spec fn view(&self) -> CrederV {
        CrederV {
            crd: self.crd@,
            raw: self.raw@,
            said: self.said@,
            code: self.code@,
            kind: self.kind@,
        }
    }
}

impl Creder {
    #[verifier::type_invariant]
    spec fn well_formed(self) -> bool {
        self.crd@.wf() && self.crd@.get("d"@) is Some
    }

    /// What holds of every credential: its content is a well-formed mapping
    /// with a field `d`.
    pub open spec fn valid(v: CrederV) -> bool {
        v.crd.wf() && v.crd.get("d"@) is Some
    }

    /// Reads a credential from its serialization.
    pub fn new_with_raw(raw: &[u8]) -> (r: Result<Creder, KeriError>)
        ensures
            match read_credential(raw@) {
                Ok(v) => r matches Ok(c) && c@ == v && Self::valid(v),
                Err(e) => r == Err::<Creder, KeriError>(e),
            },
    {
        let crd = read_content(raw)?;
        match creder_from_raw(raw) {
            Err(_) => Err(KeriError::Primitive),
            Ok((text, said, code, kind)) => Ok(Creder { crd, raw: text, said, code, kind }),
        }
    }

    /// Builds a credential from its content, which has to hold the fields `v`
    /// and `d`: fills the size into the version string and serializes. The
    /// credential carries its digest under `d`, and keeps a digest code and a
    /// serialization kind that are given.
    pub fn new_with_ked(ked: &Sad, code: Option<&str>, kind: Option<&str>) -> (r: Result<
        Creder,
        KeriError,
    >)
        requires
            ked@.wf(),
        ensures
            match built_credential(ked@, opt_text(code), opt_text(kind)) {
                Ok(v) => r matches Ok(c) && c@ == v && Self::valid(v) && v.crd.get_text("d"@)
                    == Some(v.said),
                Err(e) => r == Err::<Creder, KeriError>(e),
            },
            r matches Ok(c) ==> (code matches Some(given) ==> c@.code == given@) && (
            kind matches Some(given) ==> c@.kind == given@),
    {
        if !ked.contains_key("d") || !digest_is_cuttable(ked) {
            return Err(KeriError::Conversion);
        }
        let tree = to_value(ked);
        match creder_from_ked(&tree, code, kind) {
            Err(_) => Err(KeriError::Primitive),
            Ok((vs, text, said, code2, kind2)) => {
                match ked.get_text("d") {
                    Some(held) => {
                        if !(*held == said) {
                            return Err(KeriError::Primitive);
                        }
                    },
                    None => {
                        return Err(KeriError::Primitive);
                    },
                }
                proof {
                    lemma_built_digest(ked@, opt_text(code), opt_text(kind));
                }
                match ked.clone() {
                    Sad::Dict(mut entries) => {
                        let ghost before = crate::data::entries_view(entries@);
                        put_entry(&mut entries, "v".to_owned(), Sad::Text(vs));
                        proof {
                            crate::said::lemma_put_keeps_wf(before, "v"@, SadV::Text(vs@));
                            crate::said::lemma_put_keeps_key(before, "v"@, SadV::Text(vs@), "d"@);
                        }
                        Ok(Creder { crd: Sad::Dict(entries), raw: text, said, code: code2, kind: kind2 })
                    },
                    _ => Err(KeriError::Programmer),
                }
            },
        }
    }

    /// The content.
    pub fn crd(&self) -> (r: &Sad)
        ensures
            r@ == self@.crd,
            Self::valid(self@),
    {
        proof {
            use_type_invariant(self);
        }
        &self.crd
    }

    /// The serialization.
    pub fn raw(&self) -> (r: &String)
        ensures
            r@ == self@.raw,
    {
        &self.raw
    }

    /// The digest that identifies the credential.
    pub fn said(&self) -> (r: &String)
        ensures
            r@ == self@.said,
    {
        &self.said
    }

    /// The code of the digest.
    pub fn code(&self) -> (r: &String)
        ensures
            r@ == self@.code,
    {
        &self.code
    }

    /// The kind of the serialization.
    pub fn kind(&self) -> (r: &String)
        ensures
            r@ == self@.kind,
    {
        &self.kind
    }

    /// The identifier of the issuer, field `i`.
    pub fn issuer(&self) -> (r: Result<String, KeriError>)
        ensures
            match required_text(self@.crd, "i"@) {
                Ok(t) => r matches Ok(s) && s@ == t,
                Err(e) => r == Err::<String, KeriError>(e),
            },
    {
        read_text(&self.crd, "i")
    }

    /// The digest of the schema, field `s`.
    pub fn schema(&self) -> (r: Result<String, KeriError>)
        ensures
            match required_text(self@.crd, "s"@) {
                Ok(t) => r matches Ok(s) && s@ == t,
                Err(e) => r == Err::<String, KeriError>(e),
            },
    {
        read_text(&self.crd, "s")
    }

    /// The identifier of the status registry, field `ri`, where the
    /// credential declares one.
    pub fn status(&self) -> (r: Result<Option<String>, KeriError>)
        ensures
            match declared_status(self@.crd) {
                Ok(Some(t)) => r matches Ok(Some(s)) && s@ == t,
                Ok(None) => r matches Ok(None),
                Err(e) => r == Err::<Option<String>, KeriError>(e),
            },
    {
        if self.crd.contains_key("ri") {
            match read_text(&self.crd, "ri") {
                Ok(s) => Ok(Some(s)),
                Err(e) => Err(e),
            }
        } else {
            Ok(None)
        }
    }
}

/// The status registry that a credential content declares.
pub open spec fn declared_status(crd: SadV) -> Result<Option<Seq<char>>, KeriError> {
    if crd.get("ri"@) is Some {
        match required_text(crd, "ri"@) {
            Ok(t) => Ok(Some(t)),
            Err(e) => Err(e),
        }
    } else {
        Ok(None)
    }
}

/// A key event or a transaction event: its content, its serialization and
/// the digest that identifies it.
#[derive(Debug)]
pub struct Event {
    ked: Sad,
    raw: String,
    said: String,
}

impl View for Event {
    type V = EventV;

    closed spec fn view(&self) -> EventV {
        EventV { ked: self.ked@, raw: self.raw@, said: self.said@ }
    }
}

impl Event {
    #[verifier::type_invariant]
    spec fn well_formed(self) -> bool {
        self.ked@.wf() && self.ked@.get("d"@) is Some
    }

    /// What holds of every event: its content is a well-formed mapping with a
    /// field `d`.
    pub open spec fn valid(v: EventV) -> bool {
        v.ked.wf() && v.ked.get("d"@) is Some
    }

    /// Reads an event from its serialization.
    pub fn new_with_raw(raw: &[u8]) -> (r: Result<Event, KeriError>)
        ensures
            match read_event(raw@) {
                Ok(v) => r matches Ok(c) && c@ == v && Self::valid(v),
                Err(e) => r == Err::<Event, KeriError>(e),
            },
    {
        let ked = read_content(raw)?;
        match serder_from_raw(raw) {
            Err(_) => Err(KeriError::Primitive),
            Ok((text, said)) => Ok(Event { ked, raw: text, said }),
        }
    }

    /// The content.
    pub fn ked(&self) -> (r: &Sad)
        ensures
            r@ == self@.ked,
            Self::valid(self@),
    {
        proof {
            use_type_invariant(self);
        }
        &self.ked
    }

    /// The serialization.
    pub fn raw(&self) -> (r: &String)
        ensures
            r@ == self@.raw,
    {
        &self.raw
    }

    /// The digest that identifies the event.
    pub fn said(&self) -> (r: &String)
        ensures
            r@ == self@.said,
    {
        &self.said
    }

    /// The identifier that the event belongs to, field `i`.
    pub fn pre(&self) -> (r: Result<String, KeriError>)
        ensures
            match required_text(self@.ked, "i"@) {
                Ok(t) => r matches Ok(s) && s@ == t,
                Err(e) => r == Err::<String, KeriError>(e),
            },
    {
        read_text(&self.ked, "i")
    }

    /// The type of the event, field `t`.
    pub fn ilk(&self) -> (r: Result<String, KeriError>)
        ensures
            match required_text(self@.ked, "t"@) {
                Ok(t) => r matches Ok(s) && s@ == t,
                Err(e) => r == Err::<String, KeriError>(e),
            },
    {
        read_text(&self.ked, "t")
    }
}

/// A reference to the event that anchors something: its sequence number and
/// its digest.
#[derive(Debug)]
pub struct SealSourceCouple {
    /// The sequence number of the anchoring event.
    pub sn: u128,
    /// The digest of the anchoring event, in text form.
    pub said: String,
}

/// The values of a sequence of couples: of each its sequence number and its
/// digest.
pub open spec fn couple_views(couples: Seq<SealSourceCouple>) -> Seq<(u128, Seq<char>)> {
    Seq::new(couples.len(), |i: int| (couples[i].sn, couples[i].said@))
}

/// The seal source couples attached to a message.
#[derive(Debug)]
pub struct SealSourceCouples {
    /// The couples, in the order of the attachment.
    pub value: Vec<SealSourceCouple>,
}

} // verus!
