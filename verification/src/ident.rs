use vstd::prelude::*;

use crate::registry::Registry;
use crate::registry::has_id;

verus! {

/// Relies on uuid::Uuid::new_v4: a fresh random 128-bit identifier.
/// Nothing is assumed of its value.  The draw reads the operating system's
/// random source and panics if that source fails — an environmental
/// failure with no input to exclude, like allocation failure.
#[verifier::external_body]
fn random_session_id() -> (r: u128) {
    uuid::Uuid::new_v4().as_u128()
}

/// Draw an identity for a new connection.  It is handed out only when no
/// registered session already carries it, so registering under it is
/// always legal; a collision yields nothing and the caller may draw again.
/// Nothing comes back only on a collision, so on an empty registry the
/// draw always succeeds.
pub fn fresh_session_id(reg: &Registry) -> (r: Option<u128>)
    ensures
        r matches Some(id) ==> !has_id(reg@, id),
        r is None ==> reg@.len() > 0,
{
    let id = random_session_id();
    if !reg.contains(id) {
        Some(id)
    } else {
        proof {
            let i = choose|i: int| 0 <= i < reg@.len() && reg@[i].0 == id;
            assert(reg@.len() > 0);
        }
        None
    }
}

} // verus!
