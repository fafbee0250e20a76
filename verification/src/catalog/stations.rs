use vstd::prelude::*;
use super::StationProfile;

verus! {

/// The station profiles this build knows.
pub open spec fn station_table() -> Seq<StationProfile> {
    seq![]
}

pub fn station_profiles() -> (r: Vec<StationProfile>)
    ensures
        r@ == station_table(),
{
    let r: Vec<StationProfile> = Vec::new();
    assert(r@ =~= station_table());
    r
}

} // verus!
