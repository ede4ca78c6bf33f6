use crate::data::{Sad, SadV};
use crate::error::KeriError;
use crate::primitives::{from_json, json_from_slice, json_text, json_tree, to_json, to_value};
use vstd::prelude::*;
use vstd::string::StringExecFns;
use vstd::utf8::encode_utf8;

verus! {

/// The tree that a JSON text spells. A text that is no JSON, or holds a
/// number that is no 64-bit integer, is a decoding error.
pub open spec fn parsed(text: Seq<char>) -> Result<SadV, KeriError> {
    match json_tree(encode_utf8(text)) {
        Some(v) => Ok(v),
        None => Err(KeriError::Decoding),
    }
}

/// The compact JSON text of a tree.
pub open spec fn written(v: SadV) -> Result<Seq<char>, KeriError> {
    match json_text(v) {
        Some(t) => Ok(t),
        None => Err(KeriError::Primitive),
    }
}

impl Sad {
    /// Reads a tree from JSON text.
    pub fn from_json(text: &str) -> (r: Result<Sad, KeriError>)
        ensures
            match parsed(text@) {
                Ok(v) => r matches Ok(sad) && sad@ == v && v.wf(),
                Err(e) => r == Err::<Sad, KeriError>(e),
            },
    {
        match json_from_slice(text.as_bytes()) {
            Err(_) => Err(KeriError::Decoding),
            Ok(json) => match from_json(&json) {
                Some(sad) => Ok(sad),
                None => Err(KeriError::Decoding),
            },
        }
    }

    /// Writes a well-formed tree as compact JSON text.
    pub fn to_json(&self) -> (r: Result<String, KeriError>)
        requires
            self@.wf(),
        ensures
            match written(self@) {
                Ok(t) => r matches Ok(s) && s@ == t,
                Err(e) => r == Err::<String, KeriError>(e),
            },
    {
        match to_json(&to_value(self)) {
            Ok(text) => Ok(text),
            Err(_) => Err(KeriError::Primitive),
        }
    }
}

/// `a` followed by `b`.
pub fn join(a: String, b: &str) -> (r: String)
    ensures
        r@ == a@ + b@,
{
    a.concat(b)
}

} // verus!
