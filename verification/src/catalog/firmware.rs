use vstd::prelude::*;
use super::FirmwareProfile;

verus! {

/// The firmware signing policies this build knows.
pub open spec fn firmware_table() -> Seq<FirmwareProfile> {
    seq![]
}

pub fn firmware_profiles() -> (r: Vec<FirmwareProfile>)
    ensures
        r@ == firmware_table(),
{
    let r: Vec<FirmwareProfile> = Vec::new();
    assert(r@ =~= firmware_table());
    r
}

} // verus!
