//! The context that all modules of a service share.

use vstd::prelude::*;
use qwreey_utility_rs::ArcRwMap;

verus! {

/// The shared context of the `qwreey_utility_rs` crate: a handle, counted by reference, to one
/// map that guards its own reads and writes. It is carried through and never looked into.
#[verifier::external_type_specification]
#[verifier::external_body]
pub struct ExArcRwMap(ArcRwMap);

/// `ArcRwMap::clone` of the `qwreey_utility_rs` crate gives a further handle to the map that
/// `userdata` is a handle to. A handle stands for its map: the two are one value here.
#[verifier::external_body]
pub(crate) fn share(userdata: &ArcRwMap) -> (r: ArcRwMap)
    ensures
        r == *userdata,
{
    userdata.clone()
}

} // verus!
