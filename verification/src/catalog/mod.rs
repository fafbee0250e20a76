use vstd::prelude::*;

pub mod firmware;
pub mod meters;
pub mod rules;
pub mod stations;

use firmware::{firmware_profiles, firmware_table};
use meters::{meter_profiles, meter_table};
use rules::{rule_profiles, rule_table};
use stations::{station_profiles, station_table};

verus! {

#[derive(Debug, Clone, Copy)]
pub struct StationProfile {
    pub vendor_id: u16,
    pub model_id: u16,
    pub family: &'static str,
    pub max_kw: u16,
    pub min_fw: u16,
    pub capability_mask: u32,
    pub region: u16,
}

#[derive(Debug, Clone, Copy)]
pub struct FirmwareProfile {
    pub vendor_id: u16,
    pub branch: u16,
    pub build_floor: u32,
    pub signing_policy: u16,
    pub notes: &'static str,
}

#[derive(Debug, Clone, Copy)]
pub struct MeterProfile {
    pub channel: u16,
    pub phase: u8,
    pub scale_mv: i32,
    pub scale_ma: i32,
    pub quality_hint: u32,
    pub label: &'static str,
}

#[derive(Debug, Clone, Copy)]
pub struct RuleProfile {
    pub rule_id: u16,
    pub severity: u8,
    pub subject: &'static str,
    pub threshold: i32,
    pub cooldown_ms: u32,
}

/// The first station profile of `t` with the given model.
pub open spec fn find_station(t: Seq<StationProfile>, model_id: u16) -> Option<StationProfile>
    decreases t.len(),
{
    if t.len() == 0 {
        None
    } else if t[0].model_id == model_id {
        Some(t[0])
    } else {
        find_station(t.drop_first(), model_id)
    }
}

/// The first firmware profile of `t` with the given vendor and branch.
pub open spec fn find_firmware(t: Seq<FirmwareProfile>, vendor_id: u16, branch: u16) -> Option<FirmwareProfile>
    decreases t.len(),
{
    if t.len() == 0 {
        None
    } else if t[0].vendor_id == vendor_id && t[0].branch == branch {
        Some(t[0])
    } else {
        find_firmware(t.drop_first(), vendor_id, branch)
    }
}

/// The first meter profile of `t` for the given channel.
pub open spec fn find_meter(t: Seq<MeterProfile>, channel: u16) -> Option<MeterProfile>
    decreases t.len(),
{
    if t.len() == 0 {
        None
    } else if t[0].channel == channel {
        Some(t[0])
    } else {
        find_meter(t.drop_first(), channel)
    }
}

/// The first rule of `t` with the given id.
pub open spec fn find_rule(t: Seq<RuleProfile>, rule_id: u16) -> Option<RuleProfile>
    decreases t.len(),
{
    if t.len() == 0 {
        None
    } else if t[0].rule_id == rule_id {
        Some(t[0])
    } else {
        find_rule(t.drop_first(), rule_id)
    }
}

pub open spec fn station_spec(model_id: u16) -> Option<StationProfile> {
    find_station(station_table(), model_id)
}

/// The quality hint of a channel: that of its meter profile, else 100.
pub open spec fn meter_hint(channel: u16) -> u32 {
    match find_meter(meter_table(), channel) {
        Some(p) => p.quality_hint,
        None => 100,
    }
}

/// The station profile of a model.
pub fn station_by_model(model_id: u16) -> (r: Option<StationProfile>)
    ensures
        r == station_spec(model_id),
{
    let t = station_profiles();
    let mut i: usize = 0;
    assert(t@.skip(0) == t@);
    while i < t.len()
        invariant
            0 <= i <= t@.len(),
            t@ == station_table(),
            find_station(t@, model_id) == find_station(t@.skip(i as int), model_id),
        decreases t@.len() - i,
    {
        if t[i].model_id == model_id {
            return Some(t[i]);
        }
        assert(t@.skip(i as int).drop_first() =~= t@.skip(i + 1));
        i = i + 1;
    }
    None
}

/// The signing policy of a vendor's firmware branch.
pub fn firmware_policy(vendor_id: u16, branch: u16) -> (r: Option<FirmwareProfile>)
    ensures
        r == find_firmware(firmware_table(), vendor_id, branch),
{
    let t = firmware_profiles();
    let mut i: usize = 0;
    assert(t@.skip(0) == t@);
    while i < t.len()
        invariant
            0 <= i <= t@.len(),
            t@ == firmware_table(),
            find_firmware(t@, vendor_id, branch) == find_firmware(t@.skip(i as int), vendor_id, branch),
        decreases t@.len() - i,
    {
        if t[i].vendor_id == vendor_id && t[i].branch == branch {
            return Some(t[i]);
        }
        assert(t@.skip(i as int).drop_first() =~= t@.skip(i + 1));
        i = i + 1;
    }
    None
}

/// The quality hint of a meter channel, 100 when no profile names it.
pub fn meter_quality_hint(channel: u16) -> (r: u32)
    ensures
        r == meter_hint(channel),
{
    let t = meter_profiles();
    let mut i: usize = 0;
    assert(t@.skip(0) == t@);
    while i < t.len()
        invariant
            0 <= i <= t@.len(),
            t@ == meter_table(),
            find_meter(t@, channel) == find_meter(t@.skip(i as int), channel),
        decreases t@.len() - i,
    {
        if t[i].channel == channel {
            return t[i].quality_hint;
        }
        assert(t@.skip(i as int).drop_first() =~= t@.skip(i + 1));
        i = i + 1;
    }
    100
}

/// The rule with the given id.
pub fn rule_by_id(rule_id: u16) -> (r: Option<RuleProfile>)
    ensures
        r == find_rule(rule_table(), rule_id),
{
    let t = rule_profiles();
    let mut i: usize = 0;
    assert(t@.skip(0) == t@);
    while i < t.len()
        invariant
            0 <= i <= t@.len(),
            t@ == rule_table(),
            find_rule(t@, rule_id) == find_rule(t@.skip(i as int), rule_id),
        decreases t@.len() - i,
    {
        if t[i].rule_id == rule_id {
            return Some(t[i]);
        }
        assert(t@.skip(i as int).drop_first() =~= t@.skip(i + 1));
        i = i + 1;
    }
    None
}

} // verus!
