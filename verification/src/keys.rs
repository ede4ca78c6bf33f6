use crate::error::KeriError;
use crate::primitives::{
    derived_keys, diger_of, diger_text, key_count, opt_text, random_keys, salted_keys, scrub,
    siger_index, siger_index_of, sign_indexed, verfer_of, verfer_text,
};
use vstd::prelude::*;
use crate::codes::{cuttable, is_cuttable};
use vstd::utf8::encode_utf8;

verus! {

/// The mathematical value of a key set.
pub struct KeySetV {
    /// The signing keys, in text form, in order.
    pub keys: Seq<Seq<char>>,
    /// The index of the first key in a signing group.
    pub index_offset: nat,
    /// Whether the identifiers made of the keys can rotate.
    pub transferable: bool,
}

/// The texts of a sequence of strings.
pub open spec fn texts(v: Seq<String>) -> Seq<Seq<char>> {
    Seq::new(v.len(), |i: int| v[i]@)
}

/// The index that the signature of the key at `position` carries: offset
/// plus position, where that fits in 32 bits.
pub open spec fn index_at(offset: nat, position: nat) -> Option<u32> {
    if offset + position <= u32::MAX {
        Some((offset + position) as u32)
    } else {
        None
    }
}

/// The index that the signature of the key at `position` carries.
pub fn signing_index(offset: usize, position: usize) -> (r: Option<u32>)
    ensures
        r == index_at(offset as nat, position as nat),
{
    if offset > u32::MAX as usize || position > u32::MAX as usize - offset {
        None
    } else {
        Some((offset + position) as u32)
    }
}

/// The signatures carry the indices from `offset` on: the one at position
/// `k` carries the index of that position.
pub open spec fn indexed_from(sigs: Seq<Seq<char>>, offset: nat) -> bool {
    forall|k: int|
        0 <= k < sigs.len() ==> siger_index_of(#[trigger] sigs[k]) == index_at(offset, k as nat)
}

/// Every one of `keys` can be cut.
pub open spec fn all_cuttable(keys: Seq<Seq<char>>) -> bool {
    forall|k: int| 0 <= k < keys.len() ==> cuttable(#[trigger] keys[k])
}

/// Why the first key of a set cannot sign, where the library decides that:
/// its index does not fit in 32 bits, or its text cannot be cut.
pub open spec fn first_key_fault(set: KeySetV) -> Option<KeriError> {
    if index_at(set.index_offset, 0) is None {
        Some(KeriError::Value)
    } else if !cuttable(set.keys[0]) {
        Some(KeriError::Primitive)
    } else {
        None
    }
}

/// An ordered set of signing keys with the index offset of the first one.
#[derive(Debug)]
pub struct KeySet {
    keys: Vec<String>,
    index_offset: usize,
    transferable: bool,
}

impl View for KeySet {
    type V = KeySetV;

    closed spec fn view(&self) -> KeySetV {
        KeySetV {
            keys: texts(self.keys@),
            index_offset: self.index_offset as nat,
            transferable: self.transferable,
        }
    }
}

/// The verification key of a signing key. A key whose text cannot be cut has
/// none.
pub open spec fn verfer_for(key: Seq<char>, transferable: bool) -> Option<Seq<char>> {
    if cuttable(key) {
        verfer_text(key, transferable)
    } else {
        None
    }
}

/// `verfers` holds the verification key of each of `keys`, in order.
pub open spec fn verfers_match(
    keys: Seq<Seq<char>>,
    transferable: bool,
    verfers: Seq<Seq<char>>,
) -> bool {
    &&& verfers.len() == keys.len()
    &&& forall|i: int|
        0 <= i < keys.len() ==> verfer_for(#[trigger] keys[i], transferable) == Some(verfers[i])
}

/// The verification keys of `keys`, in order, where each has one.
pub open spec fn verfers_of(keys: Seq<Seq<char>>, transferable: bool) -> Seq<Seq<char>> {
    Seq::new(keys.len(), |i: int| verfer_for(keys[i], transferable)->Some_0)
}

/// Every one of `keys` has a verification key.
pub open spec fn verfers_exist(keys: Seq<Seq<char>>, transferable: bool) -> bool {
    forall|i: int| 0 <= i < keys.len() ==> verfer_for(#[trigger] keys[i], transferable) is Some
}

/// `digers` holds the commitment to each of `verfers`, in order: the digest
/// of the bytes of its text.
pub open spec fn digers_match(verfers: Seq<Seq<char>>, digers: Seq<Seq<char>>) -> bool {
    &&& digers.len() == verfers.len()
    &&& forall|i: int|
        0 <= i < verfers.len() ==> diger_text(encode_utf8(#[trigger] verfers[i])) == Some(
            digers[i],
        )
}

/// Every one of `verfers` has a commitment.
pub open spec fn digers_exist(verfers: Seq<Seq<char>>) -> bool {
    forall|i: int| 0 <= i < verfers.len() ==> diger_text(encode_utf8(#[trigger] verfers[i])) is Some
}

impl KeySet {
    /// A key set of given parts.
    pub fn from_parts(keys: Vec<String>, index_offset: usize, transferable: bool) -> (r: KeySet)
        ensures
            r@ == (KeySetV { keys: texts(keys@), index_offset: index_offset as nat, transferable }),
    {
        KeySet { keys, index_offset, transferable }
    }

    /// Draws a fresh random salt and derives `count` signing keys (one where
    /// no count is given) along `path`.
    pub fn generate(
        code: Option<&str>,
        count: Option<usize>,
        offset: usize,
        transferable: Option<bool>,
        path: &str,
        tier: Option<&str>,
        temp: Option<bool>,
    ) -> (r: Result<KeySet, KeriError>)
        ensures
            r matches Ok(set) ==> set@.keys.len() == key_count(count) && set@.index_offset
                == offset && set@.transferable == (transferable == Some(true)),
            r matches Err(e) ==> e == KeriError::Primitive,
    {
        let transferable = match transferable {
            Some(b) => b,
            None => false,
        };
        match random_keys(code, count, path, tier, temp) {
            Ok(keys) => Ok(KeySet { keys, index_offset: offset, transferable }),
            Err(_) => Err(KeriError::Primitive),
        }
    }

    /// Derives `count` signing keys (one where no count is given) from `salt`
    /// along `path`. The same inputs give the same key set.
    pub fn generate_from_salt(
        salt: &[u8],
        code: Option<&str>,
        count: Option<usize>,
        offset: usize,
        transferable: Option<bool>,
        path: &str,
        tier: Option<&str>,
        temp: Option<bool>,
    ) -> (r: Result<KeySet, KeriError>)
        ensures
            match derived_keys(
                salt@,
                opt_text(code),
                count,
                transferable == Some(true),
                path@,
                opt_text(tier),
                temp,
            ) {
                Some(keys) => r matches Ok(set) && set@ == (KeySetV {
                    keys,
                    index_offset: offset as nat,
                    transferable: transferable == Some(true),
                }) && keys.len() == key_count(count),
                None => r == Err::<KeySet, KeriError>(KeriError::Primitive),
            },
    {
        let transferable = match transferable {
            Some(b) => b,
            None => false,
        };
        match salted_keys(salt, code, count, transferable, path, tier, temp) {
            Ok(keys) => {
                assert(texts(keys@) =~= Seq::new(keys@.len(), |i: int| keys@[i]@));
                Ok(KeySet { keys, index_offset: offset, transferable })
            },
            Err(_) => Err(KeriError::Primitive),
        }
    }

    /// The number of keys.
    pub fn len(&self) -> (r: usize)
        ensures
            r == self@.keys.len(),
    {
        self.keys.len()
    }

    /// Whether the identifiers made of the keys can rotate.
    pub fn transferable(&self) -> (r: bool)
        ensures
            r == self@.transferable,
    {
        self.transferable
    }

    /// The index of the first key in a signing group.
    pub fn index_offset(&self) -> (r: usize)
        ensures
            r == self@.index_offset,
    {
        self.index_offset
    }

    /// The signing keys, in text form.
    pub fn keys(&self) -> (r: &Vec<String>)
        ensures
            texts(r@) == self@.keys,
    {
        &self.keys
    }

    /// The verification keys in text form, one for each signing key, in the
    /// same order. Fails where a signing key has none.
    pub fn verfers_qb64(&self) -> (r: Result<Vec<String>, KeriError>)
        ensures
            match r {
                Ok(v) => verfers_match(self@.keys, self@.transferable, texts(v@)),
                Err(e) => e == KeriError::Primitive && !verfers_exist(
                    self@.keys,
                    self@.transferable,
                ),
            },
    {
        let mut out: Vec<String> = Vec::new();
        let mut i: usize = 0;
        while i < self.keys.len()
            invariant
                i <= self.keys.len(),
                out@.len() == i,
                forall|j: int|
                    0 <= j < i ==> verfer_for(
                        #[trigger] texts(self.keys@)[j],
                        self.transferable,
                    ) == Some(out@[j]@),
            decreases self.keys.len() - i,
        {
            assert(texts(self.keys@)[i as int] == self.keys@[i as int]@);
            if !is_cuttable(self.keys[i].as_str()) {
                assert(verfer_for(texts(self.keys@)[i as int], self.transferable) is None);
                return Err(KeriError::Primitive);
            }
            match verfer_of(self.keys[i].as_str(), self.transferable) {
                Ok(text) => {
                    out.push(text);
                },
                Err(_) => {
                    assert(verfer_for(texts(self.keys@)[i as int], self.transferable) is None);
                    return Err(KeriError::Primitive);
                },
            }
            i = i + 1;
        }
        Ok(out)
    }

    /// The commitments to the verification keys in text form, one for each
    /// key, in the same order: each is the digest of the text of a
    /// verification key. Fails where a signing key has no verification key or
    /// a digest cannot be taken.
    pub fn digers_qb64(&self) -> (r: Result<Vec<String>, KeriError>)
        ensures
            match r {
                Ok(d) => verfers_exist(self@.keys, self@.transferable) && digers_match(
                    verfers_of(self@.keys, self@.transferable),
                    texts(d@),
                ),
                Err(e) => e == KeriError::Primitive && (!verfers_exist(
                    self@.keys,
                    self@.transferable,
                ) || !digers_exist(verfers_of(self@.keys, self@.transferable))),
            },
    {
        let verfers = self.verfers_qb64()?;
        assert(texts(verfers@) =~= verfers_of(self@.keys, self@.transferable));
        let mut out: Vec<String> = Vec::new();
        let mut i: usize = 0;
        while i < verfers.len()
            invariant
                i <= verfers.len(),
                out@.len() == i,
                verfers_match(self@.keys, self@.transferable, texts(verfers@)),
                texts(verfers@) == verfers_of(self@.keys, self@.transferable),
                forall|j: int|
                    0 <= j < i ==> diger_text(encode_utf8(#[trigger] texts(verfers@)[j])) == Some(
                        out@[j]@,
                    ),
            decreases verfers.len() - i,
        {
            match diger_of(verfers[i].as_str().as_bytes()) {
                Ok(text) => {
                    out.push(text);
                },
                Err(_) => {
                    assert(diger_text(encode_utf8(texts(verfers@)[i as int])) is None);
                    assert(!digers_exist(texts(verfers@)));
                    return Err(KeriError::Primitive);
                },
            }
            i = i + 1;
        }
        assert(digers_match(texts(verfers@), texts(out@)));
        Ok(out)
    }

    /// Signs `ser` with every key, in order, up to the first that cannot
    /// sign: the signature of the key at position `i` carries the index
    /// `index_offset + i`. The signatures come back in text form, in the
    /// order of the keys. An index that does not fit in 32 bits is a value
    /// error; a key whose text cannot be cut, or that the primitive refuses,
    /// is a primitive error, and so is a signature that does not carry the
    /// index that was handed over when it is read back. An empty set gives
    /// no signature.
    #[verifier::loop_isolation(false)]
    pub fn sign(&self, ser: &[u8]) -> (r: Result<Vec<String>, KeriError>)
        ensures
            self@.keys.len() == 0 ==> (r matches Ok(sigs) && sigs@.len() == 0),
            r matches Ok(sigs) ==> sigs@.len() == self@.keys.len() && all_cuttable(self@.keys),
            r matches Ok(sigs) ==> indexed_from(texts(sigs@), self@.index_offset),
            r matches Err(e) ==> e == KeriError::Primitive || e == KeriError::Value,
            self@.keys.len() > 0 ==> (index_at(
                self@.index_offset,
                (self@.keys.len() - 1) as nat,
            ) is None ==> r is Err),
            r == Err::<Vec<String>, KeriError>(KeriError::Value) ==> self@.keys.len() > 0
                && index_at(self@.index_offset, (self@.keys.len() - 1) as nat) is None,
            self@.keys.len() > 0 ==> (first_key_fault(self@) matches Some(e) ==> r == Err::<
                Vec<String>,
                KeriError,
            >(e)),
    {
        let mut out: Vec<String> = Vec::new();
        let mut i: usize = 0;
        while i < self.keys.len()
            invariant
                i <= self.keys.len(),
                out@.len() == i,
                i > 0 ==> index_at(self@.index_offset, (i - 1) as nat) is Some,
                forall|k: int| 0 <= k < i ==> cuttable(#[trigger] self@.keys[k]),
                indexed_from(texts(out@), self@.index_offset),
            decreases self.keys.len() - i,
        {
            assert(self@.keys[i as int] == self.keys@[i as int]@);
            let index = match signing_index(self.index_offset, i) {
                Some(index) => index,
                None => {
                    return Err(KeriError::Value);
                },
            };
            if !is_cuttable(self.keys[i].as_str()) {
                return Err(KeriError::Primitive);
            }
            match sign_indexed(self.keys[i].as_str(), self.transferable, ser, index) {
                Ok(text) => {
                    if !is_cuttable(text.as_str()) {
                        return Err(KeriError::Primitive);
                    }
                    match siger_index(text.as_str()) {
                        Some(carried) => {
                            if carried != index {
                                return Err(KeriError::Primitive);
                            }
                        },
                        None => {
                            return Err(KeriError::Primitive);
                        },
                    }
                    let ghost before = texts(out@);
                    out.push(text);
                    assert(texts(out@) =~= before.push(text@));
                },
                Err(_) => {
                    return Err(KeriError::Primitive);
                },
            }
            i = i + 1;
        }
        Ok(out)
    }

    /// Overwrites the keys in memory and leaves the set empty.
    pub fn zeroize(&mut self)
        ensures
            final(self)@.keys.len() == 0,
            final(self)@.index_offset == old(self)@.index_offset,
            final(self)@.transferable == old(self)@.transferable,
    {
        scrub(&mut self.keys);
    }
}

} // verus!
