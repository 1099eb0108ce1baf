//! Identifiers of messages.

use vstd::prelude::*;

verus! {

/// `Uuid::new_v4` and its `to_string`: the text of a freshly drawn random
/// identifier. Nothing is claimed of it: two calls may give any two texts.
#[verifier::external_body]
pub(crate) fn fresh_id() -> String {
    uuid::Uuid::new_v4().to_string()
}

} // verus!
