use vstd::prelude::*;
use super::RuleProfile;

verus! {

/// The analysis rules this build knows.
pub open spec fn rule_table() -> Seq<RuleProfile> {
    seq![]
}

pub fn rule_profiles() -> (r: Vec<RuleProfile>)
    ensures
        r@ == rule_table(),
{
    let r: Vec<RuleProfile> = Vec::new();
    assert(r@ =~= rule_table());
    r
}

} // verus!
