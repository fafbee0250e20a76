use vstd::prelude::*;
use super::MeterProfile;

verus! {

/// The meter channel profiles this build knows.
pub open spec fn meter_table() -> Seq<MeterProfile> {
    seq![]
}

pub fn meter_profiles() -> (r: Vec<MeterProfile>)
    ensures
        r@ == meter_table(),
{
    let r: Vec<MeterProfile> = Vec::new();
    assert(r@ =~= meter_table());
    r
}

} // verus!
