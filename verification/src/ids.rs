//! Fresh identifiers.
use vstd::prelude::*;

verus! {

/// A fresh random identifier (`uuid::Uuid::new_v4`, hyphenated text).
/// Random: nothing is promised of its value.
#[verifier::external_body]
pub fn new_id() -> String {
    uuid::Uuid::new_v4().to_string()
}

} // verus!
