use crate::codes::{cuttable, cuttable_bytes, in_alphabet};
use crate::data::{Sad, SadV};
use cesride::common::{Identage, Serialage, Version};
use cesride::data::Value;
use cesride::{
    Counter, Creder, Diger, Indexer, Matter, Sadder, Saider, Salter, Seqner, Serder, Siger,
    Signer,
};
use zeroize::Zeroize;
use vstd::prelude::*;

verus! {

/// The tree type of the encoding library.
#[verifier::external_type_specification]
#[verifier::external_body]
pub struct ExValue(Value);

/// The error type of the encoding library.
#[verifier::external_type_specification]
#[verifier::external_body]
pub struct ExPrimitiveError(anyhow::Error);

/// What a tree of the encoding library holds.
pub uninterp spec fn value_content(v: Value) -> SadV;

/// The digest, in text form, that `Saider::saidify` derives for a mapping
/// under the label `d` and the default digest code, or nothing where the
/// primitive refuses the mapping.
pub uninterp spec fn self_addressed(content: SadV, kind: Option<Seq<char>>) -> Option<Seq<char>>;

/// What `Saider::new_with_sad` derives for a mapping under `label`: the digest
/// in text form, or nothing where the primitive refuses the mapping.
pub uninterp spec fn said_under(content: SadV, label: Seq<char>) -> Option<Seq<char>>;

/// The view of an optional text.
pub open spec fn opt_text(s: Option<&str>) -> Option<Seq<char>> {
    match s {
        Some(t) => Some(t@),
        None => None,
    }
}

/// `content` with its field `d` blanked: an empty text in place of what it
/// holds there. A content without that field stays as it is.
pub open spec fn blanked(content: SadV) -> SadV {
    match content {
        SadV::Dict(m) => if crate::data::holds_key(m, "d"@) {
            SadV::Dict(crate::data::put(m, "d"@, SadV::Text(Seq::empty())))
        } else {
            content
        },
        _ => content,
    }
}

/// Builds the encoding library's tree from a well-formed node, variant by
/// variant. The contract claims that the tree holds what the node holds.
#[verifier::external_body]
pub(crate) fn to_value(sad: &Sad) -> (v: Value)
    requires
        sad@.wf(),
    ensures
        value_content(v) == sad@,
{
    match sad {
        Sad::Null => Value::Null,
        Sad::Bool(b) => Value::Boolean(*b),
        Sad::Int(i) => Value::from(*i),
        Sad::Text(s) => Value::String(s.clone()),
        Sad::List(a) => Value::Array(a.iter().map(to_value).collect()),
        Sad::Dict(m) => Value::Object(m.iter().map(|(k, v)| (k.clone(), to_value(v))).collect()),
    }
}

/// Calls `Saider::saidify` with the default digest code and the label `d`, and
/// returns the digest in text form. The primitive overwrites the field `d`
/// before it reads the mapping, so the contract names the result by the
/// mapping with that field blanked.
#[verifier::external_body]
pub(crate) fn self_address(sad: &Value, kind: Option<&str>) -> (r: Result<String, anyhow::Error>)
    ensures
        match r {
            Ok(said) => self_addressed(blanked(value_content(*sad)), opt_text(kind)) == Some(
                said@,
            ),
            Err(_) => self_addressed(blanked(value_content(*sad)), opt_text(kind)) is None,
        },
{
    Saider::saidify(sad, None, kind, None, None)?.0.qb64()
}

/// Calls `Saider::new_with_sad` under `label` and returns the digest in text
/// form. The contract names the result. The primitive reads the code of a
/// digest that stands under the label already: that text has to be one that
/// the primitive can cut.
#[verifier::external_body]
pub(crate) fn said_of(sad: &Value, label: &str) -> (r: Result<String, anyhow::Error>)
    requires
        value_content(*sad).get_text(label@) matches Some(held) ==> cuttable(held),
    ensures
        match r {
            Ok(said) => said_under(value_content(*sad), label@) == Some(said@),
            Err(_) => said_under(value_content(*sad), label@) is None,
        },
{
    Saider::new_with_sad(sad, Some(label), None, None, None)?.qb64()
}

/// Draws a random salt with `Salter::new_with_defaults` and returns it in text
/// form. Nothing is claimed of a random value.
#[verifier::external_body]
pub(crate) fn fresh_salt(tier: Option<&str>) -> (r: Result<String, anyhow::Error>) {
    Salter::new_with_defaults(tier)?.qb64()
}

/// The tree type of the JSON library.
#[verifier::external_type_specification]
#[verifier::external_body]
pub struct ExJsonValue(serde_json::Value);

/// The error type of the JSON library.
#[verifier::external_type_specification]
#[verifier::external_body]
pub struct ExJsonError(serde_json::Error);

/// The error type of the time library's parser.
#[verifier::external_type_specification]
#[verifier::external_body]
pub struct ExTimeParseError(chrono::ParseError);

/// What a tree of the JSON library holds, where every number in it is a
/// 64-bit integer.
pub uninterp spec fn json_content(v: serde_json::Value) -> Option<SadV>;

/// The tree that `bytes` spell in JSON, where they spell one and every number
/// in it is a 64-bit integer.
pub uninterp spec fn json_tree(bytes: Seq<u8>) -> Option<SadV>;

/// What `sniff` finds at the head of a serialization: the protocol
/// identifier and the size that the version string declares.
pub uninterp spec fn sniffed(raw: Seq<u8>) -> Option<(Seq<char>, u32)>;

/// What `Creder::new_with_raw` reads from a serialization: its text, digest,
/// digest code and serialization kind.
pub uninterp spec fn credential_from_raw(raw: Seq<u8>) -> Option<
    (Seq<char>, Seq<char>, Seq<char>, Seq<char>),
>;

/// What `Creder::new_with_ked` makes of a content: the version string with
/// the size filled in, then text, digest, digest code and serialization kind.
pub uninterp spec fn credential_from_ked(
    content: SadV,
    code: Option<Seq<char>>,
    kind: Option<Seq<char>>,
) -> Option<(Seq<char>, Seq<char>, Seq<char>, Seq<char>, Seq<char>)>;

/// What `Serder::new_with_raw` reads from a serialization: its text and
/// digest.
pub uninterp spec fn event_from_raw(raw: Seq<u8>) -> Option<(Seq<char>, Seq<char>)>;

/// Whether the digest `said` verifies against a content, as `Saider::verify`
/// decides it for an unprefixed, versioned JSON serialization.
pub uninterp spec fn said_matches(said: Seq<char>, content: SadV) -> Option<bool>;

/// The whole seconds from the instant `earlier` to the instant `later`, both
/// in RFC 3339 text, as the time library counts them.
pub uninterp spec fn seconds_between(later: Seq<char>, earlier: Seq<char>) -> Option<int>;

/// The text form of the counter that opens a group of `count` seal source
/// couples.
pub uninterp spec fn couples_counter_text(count: u32) -> Option<Seq<char>>;

/// The text form of the sequence number `sn`.
pub uninterp spec fn seqner_text(sn: u128) -> Option<Seq<char>>;

/// A serialization that the parsers of the encoding library can take: the
/// size that its version string declares lies within it, and up to there it
/// spells a JSON mapping that holds `d` and no number but 64-bit integers. A
/// text under `d` is one that the parsers can cut.
pub open spec fn readable(raw: Seq<u8>) -> bool {
    &&& sniffed(raw) matches Some((_, size))
    &&& size <= raw.len()
    &&& json_tree(raw.subrange(0, size as int)) matches Some(tree)
    &&& tree.get("d"@) is Some
    &&& tree.get_text("d"@) matches Some(said) ==> cuttable(said)
}

/// The lower-case hexadecimal digit of `n`.
pub open spec fn hex_digit(n: u8) -> char {
    "0123456789abcdef"@[n as int]
}

/// `n` in lower-case hexadecimal, without padding.
pub open spec fn hex(n: u8) -> Seq<char> {
    if n < 16 {
        seq![hex_digit(n)]
    } else {
        seq![hex_digit(n / 16), hex_digit(n % 16)]
    }
}

/// The version string of a credential before its size is known.
pub open spec fn version_string(major: u8, minor: u8, kind: Seq<char>) -> Seq<char> {
    "ACDC"@ + hex(major) + hex(minor) + kind + "000000_"@
}

/// Calls `serde_json::from_slice`. The contract names what the tree holds by
/// the bytes.
#[verifier::external_body]
pub(crate) fn json_from_slice(bytes: &[u8]) -> (r: Result<serde_json::Value, serde_json::Error>)
    ensures
        r matches Ok(v) ==> json_content(v) == json_tree(bytes@),
        r is Err ==> json_tree(bytes@) is None,
{
    serde_json::from_slice(bytes)
}

/// Reads a tree of the JSON library into a node, variant by variant, with
/// `Number::as_i64` for numbers. The contract claims that a node comes back
/// exactly where every number is a 64-bit integer, that it holds what the
/// tree holds, and that it is well formed.
#[verifier::external_body]
pub(crate) fn from_json(v: &serde_json::Value) -> (r: Option<Sad>)
    ensures
        match r {
            Some(sad) => json_content(*v) == Some(sad@) && sad@.wf(),
            None => json_content(*v) is None,
        },
{
    Some(match v {
        serde_json::Value::Null => Sad::Null,
        serde_json::Value::Bool(b) => Sad::Bool(*b),
        serde_json::Value::Number(n) => Sad::Int(n.as_i64()?),
        serde_json::Value::String(s) => Sad::Text(s.clone()),
        serde_json::Value::Array(a) => Sad::List(a.iter().map(from_json).collect::<Option<_>>()?),
        serde_json::Value::Object(m) => Sad::Dict(
            m.iter().map(|(k, v)| Some((k.clone(), from_json(v)?))).collect::<Option<_>>()?,
        ),
    })
}

/// Calls `Value::to_json`, which writes a tree as compact JSON. Nothing but
/// the name of the result is claimed.
#[verifier::external_body]
pub(crate) fn to_json(v: &Value) -> (r: Result<String, anyhow::Error>)
    ensures
        match r {
            Ok(text) => json_text(value_content(*v)) == Some(text@),
            Err(_) => json_text(value_content(*v)) is None,
        },
{
    v.to_json()
}

/// The compact JSON text of a content, as `Value::to_json` writes it.
pub uninterp spec fn json_text(content: SadV) -> Option<Seq<char>>;

/// Calls `sniff` and returns the protocol identifier and the declared size.
#[verifier::external_body]
pub(crate) fn sniff(raw: &[u8]) -> (r: Result<(String, u32), anyhow::Error>)
    ensures
        match r {
            Ok((ident, size)) => sniffed(raw@) == Some((ident@, size)),
            Err(_) => sniffed(raw@) is None,
        },
{
    let found = cesride::common::sniff(raw)?;
    Ok((found.ident, found.size))
}

/// Calls `Creder::new_with_raw` and returns what it read beside the content:
/// text, digest, digest code and serialization kind. The parser indexes past
/// the end of a serialization that is shorter than it declares, and into a
/// content that is no mapping or lacks `d`: `readable` leaves those out.
#[verifier::external_body]
pub(crate) fn creder_from_raw(raw: &[u8]) -> (r: Result<
    (String, String, String, String),
    anyhow::Error,
>)
    requires
        readable(raw@),
    ensures
        match r {
            Ok((text, said, code, kind)) => credential_from_raw(raw@) == Some(
                (text@, said@, code@, kind@),
            ),
            Err(_) => credential_from_raw(raw@) is None,
        },
{
    let c = Creder::new_with_raw(raw)?;
    Ok((String::from_utf8(c.raw())?, c.said()?, c.code(), c.kind()))
}

/// Calls `Creder::new_with_ked` and returns what it made: the version string
/// with the size filled in, which is all that it changes in the content, then
/// text, digest, digest code and serialization kind. The builder indexes into
/// the content under `d`, so the content has to hold that field, and a text
/// there has to be one that it can cut. The builder keeps a code and a kind
/// that it is given.
#[verifier::external_body]
pub(crate) fn creder_from_ked(ked: &Value, code: Option<&str>, kind: Option<&str>) -> (r: Result<
    (String, String, String, String, String),
    anyhow::Error,
>)
    requires
        value_content(*ked).get("d"@) is Some,
        value_content(*ked).get_text("d"@) matches Some(said) ==> cuttable(said),
    ensures
        match r {
            Ok((vs, text, said, code2, kind2)) => credential_from_ked(
                value_content(*ked),
                opt_text(code),
                opt_text(kind),
            ) == Some((vs@, text@, said@, code2@, kind2@)) && (code matches Some(c) ==> code2@
                == c@) && (kind matches Some(k) ==> kind2@ == k@),
            Err(_) => credential_from_ked(value_content(*ked), opt_text(code), opt_text(kind))
                is None,
        },
{
    let c = Creder::new_with_ked(ked, code, kind)?;
    Ok((c.crd()["v"].to_string()?, String::from_utf8(c.raw())?, c.said()?, c.code(), c.kind()))
}

/// Calls `Serder::new_with_raw` and returns what it read beside the content:
/// text and digest. The parser indexes as that of credentials does:
/// `readable` leaves those inputs out.
#[verifier::external_body]
pub(crate) fn serder_from_raw(raw: &[u8]) -> (r: Result<(String, String), anyhow::Error>)
    requires
        readable(raw@),
    ensures
        match r {
            Ok((text, said)) => event_from_raw(raw@) == Some((text@, said@)),
            Err(_) => event_from_raw(raw@) is None,
        },
{
    let s = Serder::new_with_raw(raw)?;
    Ok((String::from_utf8(s.raw())?, s.said()?))
}

/// Calls `Saider::verify` on a digest read with `Saider::new_with_qb64`, for
/// an unprefixed, versioned JSON serialization. The primitive writes into the
/// content under `d` before it looks at it, so the content has to be a
/// mapping, and the digest a text that it can cut.
#[verifier::external_body]
pub(crate) fn said_verifies(said: &str, crd: &Value) -> (r: Result<bool, anyhow::Error>)
    requires
        value_content(*crd) is Dict,
        cuttable(said@),
    ensures
        match r {
            Ok(b) => said_matches(said@, value_content(*crd)) == Some(b),
            Err(_) => said_matches(said@, value_content(*crd)) is None,
        },
{
    let saider = Saider::new_with_qb64(said)?;
    saider.verify(crd, Some(false), Some(true), Some(Serialage::JSON), None, None)
}

/// Calls `versify` for a credential of size zero. The library knows one
/// serialization kind, `JSON`, and fails on any other.
#[verifier::external_body]
pub(crate) fn versify_acdc(major: u8, minor: u8, kind: &str) -> (r: Result<String, anyhow::Error>)
    ensures
        r is Ok <==> kind@ == "JSON"@,
        r matches Ok(vs) ==> vs@ == version_string(major, minor, kind@),
{
    cesride::common::versify(
        Some(Identage::ACDC),
        Some(&Version { major, minor }),
        Some(kind),
        Some(0),
    )
}

/// Calls `Counter::new_with_code_and_count` with the code of seal source
/// couples and returns the counter in text form: the code `-G` and the
/// count in two base64 digits, which for one couple is `-GAB`.
#[verifier::external_body]
pub(crate) fn couples_counter(count: u32) -> (r: Result<String, anyhow::Error>)
    ensures
        match r {
            Ok(text) => couples_counter_text(count) == Some(text@) && (count == 1 ==> text@
                == "-GAB"@),
            Err(_) => couples_counter_text(count) is None && count != 1,
        },
{
    Counter::new_with_code_and_count(cesride::counter::Codex::SealSourceCouples, count)?.qb64()
}

/// Calls `Seqner::new_with_sn` and returns the sequence number in text form.
#[verifier::external_body]
pub(crate) fn seqner(sn: u128) -> (r: Result<String, anyhow::Error>)
    ensures
        match r {
            Ok(text) => seqner_text(sn) == Some(text@),
            Err(_) => seqner_text(sn) is None,
        },
{
    Seqner::new_with_sn(sn)?.qb64()
}

/// Reads the clock with `Utc::now` and writes the instant with
/// `DateTime::to_rfc3339`. Nothing is claimed of the time.
#[verifier::external_body]
pub(crate) fn utc_now() -> (r: String) {
    chrono::Utc::now().to_rfc3339()
}

/// Parses two instants with `DateTime::parse_from_rfc3339`, subtracts them and
/// counts the whole seconds with `TimeDelta::num_seconds`. Fails where either
/// text is no RFC 3339 instant.
#[verifier::external_body]
pub(crate) fn whole_seconds_between(later: &str, earlier: &str) -> (r: Result<
    i64,
    chrono::ParseError,
>)
    ensures
        match r {
            Ok(n) => seconds_between(later@, earlier@) == Some(n as int),
            Err(_) => seconds_between(later@, earlier@) is None,
        },
{
    let end = chrono::DateTime::parse_from_rfc3339(later)?;
    let start = chrono::DateTime::parse_from_rfc3339(earlier)?;
    Ok((end - start).num_seconds())
}

/// The signing keys, in text form, that `Salter::signers` derives from a salt
/// along a path.
pub uninterp spec fn derived_keys(
    salt: Seq<u8>,
    code: Option<Seq<char>>,
    count: Option<usize>,
    transferable: bool,
    path: Seq<char>,
    tier: Option<Seq<char>>,
    temp: Option<bool>,
) -> Option<Seq<Seq<char>>>;

/// The verification key, in text form, of a signing key in text form.
pub uninterp spec fn verfer_text(key: Seq<char>, transferable: bool) -> Option<Seq<char>>;

/// The digest, in text form, that `Diger::new_with_ser` takes of a
/// serialization under the default digest code.
pub uninterp spec fn diger_text(ser: Seq<u8>) -> Option<Seq<char>>;

/// The number of keys that are derived where `count` is asked for.
pub open spec fn key_count(count: Option<usize>) -> nat {
    match count {
        Some(n) => n as nat,
        None => 1,
    }
}

/// Draws a salt with `Salter::new_with_defaults` and derives transferable
/// signing keys from it with `Salter::signers`, which makes one key for each
/// number below the count. The keys come back in text form. The salt is
/// random, so only their number is claimed.
#[verifier::external_body]
pub(crate) fn random_keys(
    code: Option<&str>,
    count: Option<usize>,
    path: &str,
    tier: Option<&str>,
    temp: Option<bool>,
) -> (r: Result<Vec<String>, anyhow::Error>)
    ensures
        r matches Ok(keys) ==> keys@.len() == key_count(count),
{
    let salter = Salter::new_with_defaults(tier)?;
    let signers = salter.signers(count, None, Some(path), code, Some(true), None, temp)?;
    signers.iter().map(|signer| signer.qb64()).collect()
}

/// Derives signing keys from `salt` with `Salter::signers`, which makes one
/// key for each number below the count. The keys come back in text form.
#[verifier::external_body]
pub(crate) fn salted_keys(
    salt: &[u8],
    code: Option<&str>,
    count: Option<usize>,
    transferable: bool,
    path: &str,
    tier: Option<&str>,
    temp: Option<bool>,
) -> (r: Result<Vec<String>, anyhow::Error>)
    ensures
        match r {
            Ok(keys) => derived_keys(
                salt@,
                opt_text(code),
                count,
                transferable,
                path@,
                opt_text(tier),
                temp,
            ) == Some(Seq::new(keys@.len(), |i: int| keys@[i]@)) && keys@.len() == key_count(
                count,
            ),
            Err(_) => derived_keys(
                salt@,
                opt_text(code),
                count,
                transferable,
                path@,
                opt_text(tier),
                temp,
            ) is None,
        },
{
    let salter = Salter::new(tier, None, Some(salt), None, None, None)?;
    let signers = salter.signers(count, None, Some(path), code, Some(transferable), None, temp)?;
    signers.iter().map(|signer| signer.qb64()).collect()
}

/// Reads a signing key with `Signer::new_with_qb64` and returns its
/// verification key in text form. The key has to be a text that the
/// primitive can cut.
#[verifier::external_body]
pub(crate) fn verfer_of(key: &str, transferable: bool) -> (r: Result<String, anyhow::Error>)
    requires
        cuttable(key@),
    ensures
        match r {
            Ok(text) => verfer_text(key@, transferable) == Some(text@),
            Err(_) => verfer_text(key@, transferable) is None,
        },
{
    Signer::new_with_qb64(key, Some(transferable))?.verfer().qb64()
}

/// Takes the digest of a serialization with `Diger::new_with_ser` under the
/// default digest code and returns it in text form.
#[verifier::external_body]
pub(crate) fn diger_of(ser: &[u8]) -> (r: Result<String, anyhow::Error>)
    ensures
        match r {
            Ok(text) => diger_text(ser@) == Some(text@),
            Err(_) => diger_text(ser@) is None,
        },
{
    Diger::new_with_ser(ser, None)?.qb64()
}

/// Reads a signing key with `Signer::new_with_qb64`, signs a serialization
/// with `Signer::sign_indexed` and returns the signature in text form. Some
/// signature schemes draw random numbers, so nothing is claimed of it. The
/// key has to be a text that the primitive can cut.
#[verifier::external_body]
pub(crate) fn sign_indexed(key: &str, transferable: bool, ser: &[u8], index: u32) -> (r: Result<
    String,
    anyhow::Error,
>)
    requires
        cuttable(key@),
{
    Signer::new_with_qb64(key, Some(transferable))?.sign_indexed(ser, false, index, None)?.qb64()
}

/// Calls `Zeroize::zeroize` on a vector of texts, which overwrites every text
/// with zeros and then clears the vector.
#[verifier::external_body]
pub(crate) fn scrub(keys: &mut Vec<String>)
    ensures
        final(keys)@.len() == 0,
{
    keys.zeroize();
}

/// The JSON value at the head of bytes, written compactly, and the number
/// of bytes that it takes there.
pub uninterp spec fn json_head_of(bytes: Seq<u8>) -> Option<(Seq<char>, usize)>;

/// The counter at the head of bytes: its code, its count and its size in
/// text form.
pub uninterp spec fn counter_head_of(bytes: Seq<u8>) -> Option<(Seq<char>, u32, usize)>;

/// The sequence number at the head of bytes, and its size in text form.
pub uninterp spec fn seqner_head_of(bytes: Seq<u8>) -> Option<(u128, usize)>;

/// The digest at the head of bytes, in text form, and its size.
pub uninterp spec fn saider_head_of(bytes: Seq<u8>) -> Option<(Seq<char>, usize)>;

/// The index that an indexed signature in text form carries.
pub uninterp spec fn siger_index_of(text: Seq<char>) -> Option<u32>;

/// The text that ASCII bytes spell: a character for each byte.
pub open spec fn ascii_text(bytes: Seq<u8>) -> Seq<char> {
    Seq::new(bytes.len(), |i: int| bytes[i] as char)
}

/// Every one of the bytes is of the URL-safe base64 alphabet.
pub open spec fn all_alphabet(bytes: Seq<u8>) -> bool {
    forall|i: int| 0 <= i < bytes.len() ==> in_alphabet(#[trigger] bytes[i])
}

/// Reads one JSON value from the head of bytes with a stream deserializer
/// of the JSON library, and returns it written compactly, with the offset
/// behind it. Nothing comes back where no value stands there.
#[verifier::external_body]
pub(crate) fn json_head(bytes: &[u8]) -> (r: Option<(String, usize)>)
    ensures
        match r {
            Some((payload, used)) => json_head_of(bytes@) == Some((payload@, used)),
            None => json_head_of(bytes@) is None,
        },
{
    let mut stream = serde_json::Deserializer::from_slice(bytes).into_iter::<serde_json::Value>();
    let value = stream.next()?.ok()?;
    Some((value.to_string(), stream.byte_offset()))
}

/// Reads the counter at the head of bytes with `Counter::new_with_qb64b`.
/// The primitive takes the first two bytes for the code and cuts the text
/// by bytes, so the bytes have to be of the alphabet, and two at least.
#[verifier::external_body]
pub(crate) fn counter_head(bytes: &[u8]) -> (r: Option<(String, u32, usize)>)
    requires
        all_alphabet(bytes@),
        bytes@.len() >= 2,
    ensures
        match r {
            Some((code, count, size)) => counter_head_of(bytes@) == Some((code@, count, size)),
            None => counter_head_of(bytes@) is None,
        },
{
    let counter = Counter::new_with_qb64b(bytes).ok()?;
    Some((counter.code(), counter.count(), counter.full_size().ok()?))
}

/// Reads the sequence number at the head of bytes with
/// `Seqner::new_with_qb64b`. The bytes have to be such that the primitive
/// can cut them.
#[verifier::external_body]
pub(crate) fn seqner_head(bytes: &[u8]) -> (r: Option<(u128, usize)>)
    requires
        cuttable_bytes(bytes@),
    ensures
        r == seqner_head_of(bytes@),
{
    let seqner = Seqner::new_with_qb64b(bytes).ok()?;
    Some((seqner.sn().ok()?, seqner.full_size().ok()?))
}

/// Reads the digest at the head of bytes with `Saider::new_with_qb64b`. The
/// bytes have to be such that the primitive can cut them.
#[verifier::external_body]
pub(crate) fn saider_head(bytes: &[u8]) -> (r: Option<(String, usize)>)
    requires
        cuttable_bytes(bytes@),
    ensures
        match r {
            Some((said, size)) => saider_head_of(bytes@) == Some((said@, size)),
            None => saider_head_of(bytes@) is None,
        },
{
    let saider = Saider::new_with_qb64b(bytes).ok()?;
    Some((saider.qb64().ok()?, saider.full_size().ok()?))
}

/// Reads the index of an indexed signature in text form with
/// `Siger::new_with_qb64` and `Indexer::index`. The text has to be one that
/// the primitive can cut.
#[verifier::external_body]
pub(crate) fn siger_index(text: &str) -> (r: Option<u32>)
    requires
        cuttable(text@),
    ensures
        r == siger_index_of(text@),
{
    Some(Siger::new_with_qb64(text, None).ok()?.index())
}

/// Spells ASCII bytes as text with `String::from_utf8_lossy`, which keeps
/// every byte that is a character of its own.
#[verifier::external_body]
pub(crate) fn text_of(bytes: &[u8]) -> (r: String)
    requires
        forall|i: int| 0 <= i < bytes@.len() ==> bytes@[i] < 0x80,
    ensures
        r@ == ascii_text(bytes@),
{
    String::from_utf8_lossy(bytes).into_owned()
}

} // verus!
