use vstd::prelude::*;
use crate::catalog::{meter_hint, meter_quality_hint, station_by_model, station_spec};
use crate::checksum::{rolling_score_spec, rolling_window_score, station_digest, station_digest_spec};
use crate::dictionary::DictView;
use crate::model::{
    AttachmentRecord, Bundle, BundleView, ManifestView, MeterSummary, ReceiptBatchView,
    ReceiptRecord, ReceiptStatus, RouteRecord, ScriptBundleView, TelemetryBatch, TelemetrySample,
    TelemetryView,
};

verus! {

/// One observation about a bundle.
#[derive(Debug, Clone)]
pub struct AnalysisFinding {
    pub code: u16,
    pub severity: u8,
    pub message: String,
    pub evidence: u64,
}

pub struct FindingView {
    pub code: u16,
    pub severity: u8,
    pub message: Seq<char>,
    pub evidence: u64,
}

impl View for AnalysisFinding {
    type V = FindingView;

    open spec fn view(&self) -> FindingView {
        FindingView {
            code: self.code,
            severity: self.severity,
            message: self.message@,
            evidence: self.evidence,
        }
    }
}

pub open spec fn findings_view(s: Seq<AnalysisFinding>) -> Seq<FindingView> {
    s.map_values(|f: AnalysisFinding| f@)
}

/// The findings of a bundle and the score folded over them.
#[derive(Debug, Clone)]
pub struct AnalysisReport {
    pub site_id: u32,
    pub sequence: u32,
    pub score: u32,
    pub findings: Vec<AnalysisFinding>,
}

pub struct AnalysisView {
    pub site_id: u32,
    pub sequence: u32,
    pub score: u32,
    pub findings: Seq<FindingView>,
}

impl View for AnalysisReport {
    type V = AnalysisView;

    open spec fn view(&self) -> AnalysisView {
        AnalysisView {
            site_id: self.site_id,
            sequence: self.sequence,
            score: self.score,
            findings: findings_view(self.findings@),
        }
    }
}

/// The voltage envelope of an analyzer, in millivolts.
pub struct AnalyzerView {
    pub min_voltage_mv: i32,
    pub max_voltage_mv: i32,
}

/// The service envelope 180 V to 265 V.
pub open spec fn default_analyzer() -> AnalyzerView {
    AnalyzerView { min_voltage_mv: 180_000, max_voltage_mv: 265_000 }
}

/// A single finding when `c` holds, none otherwise.
pub open spec fn when(c: bool, f: FindingView) -> Seq<FindingView> {
    if c {
        seq![f]
    } else {
        seq![]
    }
}

pub open spec fn abs_int(x: int) -> int {
    if x < 0 {
        -x
    } else {
        x
    }
}

/// The little-endian bytes of a 32-bit signed value.
pub open spec fn i32_le(v: i32) -> Seq<u8> {
    let u = v as u32;
    seq![(u & 0xffu32) as u8, ((u >> 8u32) & 0xffu32) as u8, ((u >> 16u32) & 0xffu32) as u8, (u >> 24u32) as u8]
}

// ---------------------------------------------------------------- manifest

/// Findings about the station profile of the manifest's model: firmware
/// older than the family baseline, and a high-power station with fewer than
/// two capabilities.
pub open spec fn profile_findings(m: ManifestView) -> Seq<FindingView> {
    match station_spec(m.station_model) {
        Some(p) => when(
            m.firmware_major < (p.min_fw >> 8u16),
            FindingView {
                code: 1001,
                severity: 2,
                message: "firmware below "@ + p.family@ + " baseline"@,
                evidence: p.capability_mask as u64,
            },
        ) + when(
            p.max_kw > 350 && m.capabilities.len() < 2,
            FindingView {
                code: 1002,
                severity: 1,
                message: "high power station has sparse capability map"@,
                evidence: p.max_kw as u64,
            },
        ),
        None => seq![],
    }
}

/// A route with more than 96 stations or the 0x4000 risk flag.
pub open spec fn route_finding(r: RouteRecord) -> Seq<FindingView> {
    when(
        r.station_count > 96 || r.risk_flags & 0x4000u16 != 0,
        FindingView {
            code: 1100,
            severity: 2,
            message: "route risk marker"@,
            evidence: ((r.route_id as u64) << 32u64) | (r.risk_flags as u64),
        },
    )
}

pub open spec fn route_findings(rs: Seq<RouteRecord>) -> Seq<FindingView>
    decreases rs.len(),
{
    if rs.len() == 0 {
        seq![]
    } else {
        route_findings(rs.drop_last()) + route_finding(rs.last())
    }
}

pub open spec fn manifest_findings(m: ManifestView) -> Seq<FindingView> {
    profile_findings(m) + route_findings(m.routes)
}

// ---------------------------------------------------------------- telemetry

/// A voltage outside the envelope, and a flagged sample drawing more than
/// 240 A either way.
pub open spec fn sample_findings(a: AnalyzerView, t: TelemetryView, s: TelemetrySample) -> Seq<FindingView> {
    when(
        s.voltage_mv < a.min_voltage_mv || s.voltage_mv > a.max_voltage_mv,
        FindingView {
            code: 2001,
            severity: 2,
            message: "voltage outside service envelope"@,
            evidence: station_digest_spec(t.source_id, t.port_id, i32_le(s.voltage_mv)),
        },
    ) + when(
        s.flags & 0x8000u16 != 0 && abs_int(s.current_ma as int) > 240_000,
        FindingView {
            code: 2002,
            severity: 3,
            message: "contactor current mismatch"@,
            evidence: s.current_ma as u64,
        },
    )
}

pub open spec fn voltage_findings(a: AnalyzerView, t: TelemetryView, ss: Seq<TelemetrySample>) -> Seq<FindingView>
    decreases ss.len(),
{
    if ss.len() == 0 {
        seq![]
    } else {
        voltage_findings(a, t, ss.drop_last()) + sample_findings(a, t, ss.last())
    }
}

/// The channel and temperature a sample is compared with: those of the
/// sample before it, or channel 255 at 0 m°C for the first.
pub open spec fn previous(ss: Seq<TelemetrySample>) -> (u8, i32) {
    if ss.len() == 0 {
        (255u8, 0i32)
    } else {
        (ss.last().channel, ss.last().temperature_mc)
    }
}

/// A jump of more than 35 °C between consecutive samples of one channel.
pub open spec fn temperature_step(prev: (u8, i32), s: TelemetrySample) -> Seq<FindingView> {
    when(
        s.channel == prev.0 && abs_int(s.temperature_mc - prev.1) > 35_000,
        FindingView {
            code: 2003,
            severity: 2,
            message: "temperature discontinuity"@,
            evidence: s.temperature_mc as u64,
        },
    )
}

pub open spec fn temperature_findings(ss: Seq<TelemetrySample>) -> Seq<FindingView>
    decreases ss.len(),
{
    if ss.len() == 0 {
        seq![]
    } else {
        temperature_findings(ss.drop_last()) + temperature_step(previous(ss.drop_last()), ss.last())
    }
}

/// A summary whose quality is below half its channel's profile hint.
pub open spec fn summary_finding(m: MeterSummary) -> Seq<FindingView> {
    when(
        (m.quality as u32) < meter_hint(m.channel as u16) / 2,
        FindingView {
            code: 2100,
            severity: 1,
            message: "meter quality below profile hint"@,
            evidence: ((m.channel as u64) << 32u64) | (m.quality as u64),
        },
    )
}

pub open spec fn summary_findings(ms: Seq<MeterSummary>) -> Seq<FindingView>
    decreases ms.len(),
{
    if ms.len() == 0 {
        seq![]
    } else {
        summary_findings(ms.drop_last()) + summary_finding(ms.last())
    }
}

pub open spec fn batch_findings(a: AnalyzerView, t: TelemetryView) -> Seq<FindingView> {
    voltage_findings(a, t, t.samples) + temperature_findings(t.samples) + summary_findings(t.summaries)
}

pub open spec fn telemetry_findings(a: AnalyzerView, ts: Seq<TelemetryView>) -> Seq<FindingView>
    decreases ts.len(),
{
    if ts.len() == 0 {
        seq![]
    } else {
        telemetry_findings(a, ts.drop_last()) + batch_findings(a, ts.last())
    }
}

// ---------------------------------------------------------------- receipts

/// A queued offline receipt above 200.00, and much energy for almost nothing.
pub open spec fn receipt_finding(r: ReceiptRecord) -> Seq<FindingView> {
    when(
        r.status == ReceiptStatus::OfflineQueued && r.amount_cents > 20_000,
        FindingView { code: 3001, severity: 2, message: "large offline receipt"@, evidence: r.session_id },
    ) + when(
        r.energy_wh > 500_000 && r.amount_cents < 100,
        FindingView {
            code: 3002,
            severity: 3,
            message: "energy amount mismatch"@,
            evidence: r.energy_wh as u64,
        },
    )
}

pub open spec fn receipt_list_findings(rs: Seq<ReceiptRecord>) -> Seq<FindingView>
    decreases rs.len(),
{
    if rs.len() == 0 {
        seq![]
    } else {
        receipt_list_findings(rs.drop_last()) + receipt_finding(rs.last())
    }
}

pub open spec fn receipt_findings(bs: Seq<ReceiptBatchView>) -> Seq<FindingView>
    decreases bs.len(),
{
    if bs.len() == 0 {
        seq![]
    } else {
        receipt_findings(bs.drop_last()) + receipt_list_findings(bs.last().receipts)
    }
}

// ---------------------------------------------------------------- scripts

/// A script of priority above 220 with more than 16 bytes of code.
pub open spec fn script_finding(s: ScriptBundleView) -> Seq<FindingView> {
    when(
        s.priority > 220 && s.bytecode.len() > 16,
        FindingView {
            code: 4001,
            severity: 1,
            message: "high priority script"@,
            evidence: rolling_score_spec(s.bytecode) as u64,
        },
    )
}

pub open spec fn script_findings(ss: Seq<ScriptBundleView>) -> Seq<FindingView>
    decreases ss.len(),
{
    if ss.len() == 0 {
        seq![]
    } else {
        script_findings(ss.drop_last()) + script_finding(ss.last())
    }
}

// ---------------------------------------------------------------- dictionary

/// An alias slot whose audit score ends in the byte 0x42.
pub open spec fn slot_finding(d: DictView, slot: int) -> Seq<FindingView> {
    match d.alias_score(slot) {
        Some(score) => when(
            score & 0xffu32 == 0x42,
            FindingView {
                code: 5001,
                severity: 1,
                message: "dictionary alias audit marker"@,
                evidence: score as u64,
            },
        ),
        None => seq![],
    }
}

/// The findings of alias slots `0..n`.
pub open spec fn slot_findings(d: DictView, n: int) -> Seq<FindingView>
    decreases n,
{
    if n <= 0 {
        seq![]
    } else {
        slot_findings(d, n - 1) + slot_finding(d, n - 1)
    }
}

pub open spec fn dictionary_findings(d: DictView) -> Seq<FindingView> {
    slot_findings(d, 16)
}

// ---------------------------------------------------------------- attachments

/// A non-empty attachment whose digest ends in two zero bytes.
pub open spec fn attachment_finding(a: AttachmentRecord) -> Seq<FindingView> {
    when(
        a.len > 0 && a.digest & 0xffffu64 == 0,
        FindingView { code: 6001, severity: 1, message: "attachment digest prefix"@, evidence: a.digest },
    )
}

pub open spec fn attachment_findings(s: Seq<AttachmentRecord>) -> Seq<FindingView>
    decreases s.len(),
{
    if s.len() == 0 {
        seq![]
    } else {
        attachment_findings(s.drop_last()) + attachment_finding(s.last())
    }
}

// ---------------------------------------------------------------- report

/// Every finding of a bundle, in the order the analysis makes them.
pub open spec fn all_findings(a: AnalyzerView, b: BundleView) -> Seq<FindingView> {
    manifest_findings(b.manifest) + telemetry_findings(a, b.telemetry) + receipt_findings(b.receipts)
        + script_findings(b.scripts) + dictionary_findings(b.dictionary) + attachment_findings(
        b.attachments,
    )
}

pub open spec fn wrap_add32(x: u32, y: u32) -> u32 {
    if x + y > u32::MAX {
        (x + y - 0x1_0000_0000) as u32
    } else {
        (x + y) as u32
    }
}

/// One step of the score: add code × (severity + 1), wrapping, then xor the
/// low 32 bits of the evidence.
pub open spec fn score_step(acc: u32, f: FindingView) -> u32 {
    wrap_add32(acc, (f.code * (f.severity + 1)) as u32) ^ (f.evidence as u32)
}

pub open spec fn score_of(seed: u32, fs: Seq<FindingView>) -> u32
    decreases fs.len(),
{
    if fs.len() == 0 {
        seed
    } else {
        score_step(score_of(seed, fs.drop_last()), fs.last())
    }
}

pub open spec fn analysis_spec(a: AnalyzerView, b: BundleView) -> AnalysisView {
    let fs = all_findings(a, b);
    AnalysisView {
        site_id: b.manifest.site_id,
        sequence: b.sequence,
        score: score_of(b.sequence, fs),
        findings: fs,
    }
}

/// Appends one finding.
fn push_finding(findings: &mut Vec<AnalysisFinding>, code: u16, severity: u8, message: String, evidence: u64)
    ensures
        findings_view(final(findings)@) == findings_view(old(findings)@).push(
            FindingView { code, severity, message: message@, evidence },
        ),
{
    findings.push(AnalysisFinding { code, severity, message, evidence });
    assert(findings_view(findings@) =~= findings_view(old(findings)@).push(
        FindingView { code, severity, message: message@, evidence },
    ));
}

/// The little-endian bytes of `v`.
fn i32_le_bytes(v: i32) -> (r: Vec<u8>)
    ensures
        r@ == i32_le(v),
{
    let u = v as u32;
    let mut r: Vec<u8> = Vec::new();
    r.push((u & 0xff) as u8);
    r.push(((u >> 8) & 0xff) as u8);
    r.push(((u >> 16) & 0xff) as u8);
    r.push((u >> 24) as u8);
    assert(r@ =~= i32_le(v));
    r
}

/// Checks a decoded bundle against station, meter and payment heuristics.
#[derive(Debug, Clone)]
pub struct Analyzer {
    min_voltage_mv: i32,
    max_voltage_mv: i32,
}

impl View for Analyzer {
    type V = AnalyzerView;

    closed spec fn view(&self) -> AnalyzerView {
        AnalyzerView { min_voltage_mv: self.min_voltage_mv, max_voltage_mv: self.max_voltage_mv }
    }
}

impl Default for Analyzer {
    fn default() -> (r: Self)
        ensures
            r@ == default_analyzer(),
    {
        Self::new()
    }
}

impl Analyzer {
    /// An analyzer with the 180 V to 265 V service envelope.
    pub fn new() -> (r: Self)
        ensures
            r@ == default_analyzer(),
    {
        Self { min_voltage_mv: 180_000, max_voltage_mv: 265_000 }
    }

    /// The findings of a bundle and their score, folded from the bundle's
    /// sequence number.
    pub fn analyze(&self, bundle: &Bundle) -> (r: AnalysisReport)
        ensures
            r@ == analysis_spec(self@, bundle@),
    {
        let mut findings: Vec<AnalysisFinding> = Vec::new();
        assert(findings_view(findings@) =~= seq![]);
        self.analyze_manifest(bundle, &mut findings);
        self.analyze_telemetry(bundle, &mut findings);
        self.analyze_receipts(bundle, &mut findings);
        self.analyze_scripts(bundle, &mut findings);
        self.analyze_dictionary(bundle, &mut findings);
        self.analyze_attachments(bundle, &mut findings);
        let ghost fs = findings_view(findings@);
        assert(fs =~= all_findings(self@, bundle@));
        let mut score: u32 = bundle.sequence;
        let mut i: usize = 0;
        while i < findings.len()
            invariant
                0 <= i <= findings@.len(),
                fs == findings_view(findings@),
                score == score_of(bundle.sequence, fs.take(i as int)),
            decreases findings@.len() - i,
        {
            let f = &findings[i];
            assert(fs.take(i + 1).drop_last() =~= fs.take(i as int));
            assert((f.code as u32) * ((f.severity as u32) + 1) <= 0xffff * 0x100) by (nonlinear_arith)
                requires
                    f.code <= 0xffff,
                    f.severity <= 0xff,
            ;
            let weight = (f.code as u32) * ((f.severity as u32) + 1);
            score = score.wrapping_add(weight) ^ (f.evidence as u32);
            i = i + 1;
        }
        assert(fs.take(findings@.len() as int) =~= fs);
        AnalysisReport { site_id: bundle.manifest.site_id, sequence: bundle.sequence, score, findings }
    }

    fn analyze_manifest(&self, bundle: &Bundle, findings: &mut Vec<AnalysisFinding>)
        ensures
            findings_view(final(findings)@) == findings_view(old(findings)@) + manifest_findings(
                bundle@.manifest,
            ),
    {
        let ghost f0 = findings_view(findings@);
        let manifest = &bundle.manifest;
        match station_by_model(manifest.station_model) {
            Some(profile) => {
                if manifest.firmware_major < (profile.min_fw >> 8) {
                    let mut message = String::from_str("firmware below ");
                    message.append(profile.family);
                    message.append(" baseline");
                    push_finding(findings, 1001, 2, message, profile.capability_mask as u64);
                }
                if profile.max_kw > 350 && manifest.capabilities.len() < 2 {
                    push_finding(
                        findings,
                        1002,
                        1,
                        String::from_str("high power station has sparse capability map"),
                        profile.max_kw as u64,
                    );
                }
            },
            None => {},
        }
        assert(findings_view(findings@) =~= f0 + profile_findings(bundle@.manifest));
        let ghost f1 = findings_view(findings@);
        let mut i: usize = 0;
        while i < manifest.routes.len()
            invariant
                0 <= i <= manifest.routes@.len(),
                manifest == &bundle.manifest,
                findings_view(findings@) == f1 + route_findings(manifest.routes@.take(i as int)),
            decreases manifest.routes@.len() - i,
        {
            let route = manifest.routes[i];
            let ghost before = findings_view(findings@);
            if route.station_count > 96 || route.risk_flags & 0x4000 != 0 {
                push_finding(
                    findings,
                    1100,
                    2,
                    String::from_str("route risk marker"),
                    ((route.route_id as u64) << 32) | route.risk_flags as u64,
                );
            }
            assert(manifest.routes@.take(i + 1).drop_last() =~= manifest.routes@.take(i as int));
            assert(findings_view(findings@) =~= before + route_finding(route));
            i = i + 1;
        }
        assert(manifest.routes@.take(manifest.routes@.len() as int) =~= manifest.routes@);
        assert(findings_view(findings@) =~= f0 + manifest_findings(bundle@.manifest));
    }

    fn analyze_telemetry(&self, bundle: &Bundle, findings: &mut Vec<AnalysisFinding>)
        ensures
            findings_view(final(findings)@) == findings_view(old(findings)@) + telemetry_findings(
                self@,
                bundle@.telemetry,
            ),
    {
        let ghost f0 = findings_view(findings@);
        let ghost ts = bundle@.telemetry;
        let mut i: usize = 0;
        while i < bundle.telemetry.len()
            invariant
                0 <= i <= bundle.telemetry@.len(),
                ts == bundle@.telemetry,
                ts.len() == bundle.telemetry@.len(),
                findings_view(findings@) == f0 + telemetry_findings(self@, ts.take(i as int)),
            decreases bundle.telemetry@.len() - i,
        {
            let batch = &bundle.telemetry[i];
            let ghost before = findings_view(findings@);
            self.scan_voltage(batch, findings);
            self.scan_temperature(batch, findings);
            let ghost mid = findings_view(findings@);
            let mut j: usize = 0;
            while j < batch.summaries.len()
                invariant
                    0 <= j <= batch.summaries@.len(),
                    findings_view(findings@) == mid + summary_findings(batch.summaries@.take(j as int)),
                decreases batch.summaries@.len() - j,
            {
                let summary = batch.summaries[j];
                let ghost b2 = findings_view(findings@);
                let hint = meter_quality_hint(summary.channel as u16);
                if (summary.quality as u32) < hint / 2 {
                    push_finding(
                        findings,
                        2100,
                        1,
                        String::from_str("meter quality below profile hint"),
                        ((summary.channel as u64) << 32) | summary.quality as u64,
                    );
                }
                assert(batch.summaries@.take(j + 1).drop_last() =~= batch.summaries@.take(j as int));
                assert(findings_view(findings@) =~= b2 + summary_finding(summary));
                j = j + 1;
            }
            assert(batch.summaries@.take(batch.summaries@.len() as int) =~= batch.summaries@);
            assert(ts[i as int] == batch@);
            assert(ts.take(i + 1).drop_last() =~= ts.take(i as int));
            assert(findings_view(findings@) =~= before + batch_findings(self@, batch@));
            i = i + 1;
        }
        assert(ts.take(ts.len() as int) =~= ts);
    }

    fn scan_voltage(&self, batch: &TelemetryBatch, findings: &mut Vec<AnalysisFinding>)
        ensures
            findings_view(final(findings)@) == findings_view(old(findings)@) + voltage_findings(
                self@,
                batch@,
                batch@.samples,
            ),
    {
        let ghost f0 = findings_view(findings@);
        let mut i: usize = 0;
        while i < batch.samples.len()
            invariant
                0 <= i <= batch.samples@.len(),
                findings_view(findings@) == f0 + voltage_findings(self@, batch@, batch.samples@.take(i as int)),
            decreases batch.samples@.len() - i,
        {
            let sample = batch.samples[i];
            let ghost before = findings_view(findings@);
            if sample.voltage_mv < self.min_voltage_mv || sample.voltage_mv > self.max_voltage_mv {
                let bytes = i32_le_bytes(sample.voltage_mv);
                let evidence = station_digest(batch.source_id, batch.port_id, bytes.as_slice());
                push_finding(findings, 2001, 2, String::from_str("voltage outside service envelope"), evidence);
            }
            let current = sample.current_ma as i64;
            let magnitude = if current < 0 { -current } else { current };
            if sample.flags & 0x8000 != 0 && magnitude > 240_000 {
                push_finding(
                    findings,
                    2002,
                    3,
                    String::from_str("contactor current mismatch"),
                    sample.current_ma as u64,
                );
            }
            assert(batch.samples@.take(i + 1).drop_last() =~= batch.samples@.take(i as int));
            assert(findings_view(findings@) =~= before + sample_findings(self@, batch@, sample));
            i = i + 1;
        }
        assert(batch.samples@.take(batch.samples@.len() as int) =~= batch.samples@);
    }

    fn scan_temperature(&self, batch: &TelemetryBatch, findings: &mut Vec<AnalysisFinding>)
        ensures
            findings_view(final(findings)@) == findings_view(old(findings)@) + temperature_findings(
                batch@.samples,
            ),
    {
        let ghost f0 = findings_view(findings@);
        let mut last_channel: u8 = 255;
        let mut last_temp: i32 = 0;
        let mut i: usize = 0;
        while i < batch.samples.len()
            invariant
                0 <= i <= batch.samples@.len(),
                (last_channel, last_temp) == previous(batch.samples@.take(i as int)),
                findings_view(findings@) == f0 + temperature_findings(batch.samples@.take(i as int)),
            decreases batch.samples@.len() - i,
        {
            let sample = batch.samples[i];
            let ghost before = findings_view(findings@);
            let diff = (sample.temperature_mc as i64) - (last_temp as i64);
            let magnitude = if diff < 0 { -diff } else { diff };
            if sample.channel == last_channel && magnitude > 35_000 {
                push_finding(
                    findings,
                    2003,
                    2,
                    String::from_str("temperature discontinuity"),
                    sample.temperature_mc as u64,
                );
            }
            assert(batch.samples@.take(i + 1).drop_last() =~= batch.samples@.take(i as int));
            assert(findings_view(findings@) =~= before + temperature_step((last_channel, last_temp), sample));
            last_channel = sample.channel;
            last_temp = sample.temperature_mc;
            i = i + 1;
        }
        assert(batch.samples@.take(batch.samples@.len() as int) =~= batch.samples@);
    }

    fn analyze_receipts(&self, bundle: &Bundle, findings: &mut Vec<AnalysisFinding>)
        ensures
            findings_view(final(findings)@) == findings_view(old(findings)@) + receipt_findings(
                bundle@.receipts,
            ),
    {
        let ghost f0 = findings_view(findings@);
        let ghost bs = bundle@.receipts;
        let mut i: usize = 0;
        while i < bundle.receipts.len()
            invariant
                0 <= i <= bundle.receipts@.len(),
                bs == bundle@.receipts,
                bs.len() == bundle.receipts@.len(),
                findings_view(findings@) == f0 + receipt_findings(bs.take(i as int)),
            decreases bundle.receipts@.len() - i,
        {
            let batch = &bundle.receipts[i];
            let ghost before = findings_view(findings@);
            let mut j: usize = 0;
            while j < batch.receipts.len()
                invariant
                    0 <= j <= batch.receipts@.len(),
                    findings_view(findings@) == before + receipt_list_findings(batch.receipts@.take(j as int)),
                decreases batch.receipts@.len() - j,
            {
                let receipt = batch.receipts[j];
                let ghost b2 = findings_view(findings@);
                if receipt.status == ReceiptStatus::OfflineQueued && receipt.amount_cents > 20_000 {
                    push_finding(findings, 3001, 2, String::from_str("large offline receipt"), receipt.session_id);
                }
                if receipt.energy_wh > 500_000 && receipt.amount_cents < 100 {
                    push_finding(
                        findings,
                        3002,
                        3,
                        String::from_str("energy amount mismatch"),
                        receipt.energy_wh as u64,
                    );
                }
                let _ = bundle.dictionary.resolve_alias(receipt.token_alias as usize);
                assert(batch.receipts@.take(j + 1).drop_last() =~= batch.receipts@.take(j as int));
                assert(findings_view(findings@) =~= b2 + receipt_finding(receipt));
                j = j + 1;
            }
            assert(batch.receipts@.take(batch.receipts@.len() as int) =~= batch.receipts@);
            assert(bs[i as int] == batch@);
            assert(bs.take(i + 1).drop_last() =~= bs.take(i as int));
            i = i + 1;
        }
        assert(bs.take(bs.len() as int) =~= bs);
    }

    fn analyze_scripts(&self, bundle: &Bundle, findings: &mut Vec<AnalysisFinding>)
        ensures
            findings_view(final(findings)@) == findings_view(old(findings)@) + script_findings(
                bundle@.scripts,
            ),
    {
        let ghost f0 = findings_view(findings@);
        let ghost ss = bundle@.scripts;
        let mut i: usize = 0;
        while i < bundle.scripts.len()
            invariant
                0 <= i <= bundle.scripts@.len(),
                ss == bundle@.scripts,
                ss.len() == bundle.scripts@.len(),
                findings_view(findings@) == f0 + script_findings(ss.take(i as int)),
            decreases bundle.scripts@.len() - i,
        {
            let script = &bundle.scripts[i];
            let ghost before = findings_view(findings@);
            if script.priority > 220 && script.bytecode.len() > 16 {
                let score = rolling_window_score(script.bytecode.as_slice());
                push_finding(findings, 4001, 1, String::from_str("high priority script"), score as u64);
            }
            assert(ss[i as int] == script@);
            assert(ss.take(i + 1).drop_last() =~= ss.take(i as int));
            assert(findings_view(findings@) =~= before + script_finding(script@));
            i = i + 1;
        }
        assert(ss.take(ss.len() as int) =~= ss);
    }

    fn analyze_dictionary(&self, bundle: &Bundle, findings: &mut Vec<AnalysisFinding>)
        ensures
            findings_view(final(findings)@) == findings_view(old(findings)@) + dictionary_findings(
                bundle@.dictionary,
            ),
    {
        let ghost f0 = findings_view(findings@);
        let mut slot: usize = 0;
        while slot < 16
            invariant
                0 <= slot <= 16,
                findings_view(findings@) == f0 + slot_findings(bundle@.dictionary, slot as int),
            decreases 16 - slot,
        {
            let ghost before = findings_view(findings@);
            match bundle.dictionary.alias_score(slot) {
                Some(score) => {
                    if score & 0xff == 0x42 {
                        push_finding(
                            findings,
                            5001,
                            1,
                            String::from_str("dictionary alias audit marker"),
                            score as u64,
                        );
                    }
                },
                None => {},
            }
            assert(findings_view(findings@) =~= before + slot_finding(bundle@.dictionary, slot as int));
            slot = slot + 1;
        }
    }

    fn analyze_attachments(&self, bundle: &Bundle, findings: &mut Vec<AnalysisFinding>)
        ensures
            findings_view(final(findings)@) == findings_view(old(findings)@) + attachment_findings(
                bundle@.attachments,
            ),
    {
        let ghost f0 = findings_view(findings@);
        let mut i: usize = 0;
        while i < bundle.attachments.len()
            invariant
                0 <= i <= bundle.attachments@.len(),
                findings_view(findings@) == f0 + attachment_findings(bundle.attachments@.take(i as int)),
            decreases bundle.attachments@.len() - i,
        {
            let attachment = bundle.attachments[i];
            let ghost before = findings_view(findings@);
            if attachment.len > 0 && attachment.digest & 0xffff == 0 {
                push_finding(findings, 6001, 1, String::from_str("attachment digest prefix"), attachment.digest);
            }
            assert(bundle.attachments@.take(i + 1).drop_last() =~= bundle.attachments@.take(i as int));
            assert(findings_view(findings@) =~= before + attachment_finding(attachment));
            i = i + 1;
        }
        assert(bundle.attachments@.take(bundle.attachments@.len() as int) =~= bundle.attachments@);
    }
}

/// No finding of `s` has code `c`.
pub open spec fn avoids_code(s: Seq<FindingView>, c: u16) -> bool {
    forall|k: int| 0 <= k < s.len() ==> (#[trigger] s[k]).code != c
}

/// Every finding of `x` is also one of `y`.
pub open spec fn reported_in(x: Seq<FindingView>, y: Seq<FindingView>) -> bool {
    forall|k: int| 0 <= k < x.len() ==> y.contains(#[trigger] x[k])
}

proof fn lemma_concat_parts(x: Seq<FindingView>, y: Seq<FindingView>)
    ensures
        reported_in(x, x + y),
        reported_in(y, x + y),
        forall|c: u16| avoids_code(x, c) && avoids_code(y, c) ==> #[trigger] avoids_code(x + y, c),
{
    assert forall|k: int| 0 <= k < x.len() implies (x + y).contains(#[trigger] x[k]) by {
        assert((x + y)[k] == x[k]);
    }
    assert forall|k: int| 0 <= k < y.len() implies (x + y).contains(#[trigger] y[k]) by {
        assert((x + y)[x.len() + k] == y[k]);
    }
    assert forall|c: u16| avoids_code(x, c) && avoids_code(y, c) implies #[trigger] avoids_code(x + y, c) by {
        assert forall|k: int| 0 <= k < (x + y).len() implies (#[trigger] (x + y)[k]).code != c by {
            if k < x.len() {
                assert((x + y)[k] == x[k]);
            } else {
                assert((x + y)[k] == y[k - x.len()]);
            }
        }
    }
}

proof fn lemma_reported_trans(x: Seq<FindingView>, y: Seq<FindingView>, z: Seq<FindingView>)
    requires
        reported_in(x, y),
        reported_in(y, z),
    ensures
        reported_in(x, z),
{
    assert forall|k: int| 0 <= k < x.len() implies z.contains(#[trigger] x[k]) by {
        assert(y.contains(x[k]));
        let w = choose|w: int| 0 <= w < y.len() && y[w] == x[k];
        assert(z.contains(y[w]));
    }
}

proof fn lemma_route_findings_avoid(rs: Seq<RouteRecord>)
    ensures
        avoids_code(route_findings(rs), 2001),
    decreases rs.len(),
{
    if rs.len() > 0 {
        lemma_route_findings_avoid(rs.drop_last());
        lemma_concat_parts(route_findings(rs.drop_last()), route_finding(rs.last()));
    }
}

proof fn lemma_temperature_findings_avoid(ss: Seq<TelemetrySample>)
    ensures
        avoids_code(temperature_findings(ss), 2001),
    decreases ss.len(),
{
    if ss.len() > 0 {
        lemma_temperature_findings_avoid(ss.drop_last());
        lemma_concat_parts(temperature_findings(ss.drop_last()), temperature_step(previous(ss.drop_last()), ss.last()));
    }
}

proof fn lemma_summary_findings_avoid(ms: Seq<MeterSummary>)
    ensures
        avoids_code(summary_findings(ms), 2001),
    decreases ms.len(),
{
    if ms.len() > 0 {
        lemma_summary_findings_avoid(ms.drop_last());
        lemma_concat_parts(summary_findings(ms.drop_last()), summary_finding(ms.last()));
    }
}

proof fn lemma_receipt_list_findings_avoid(rs: Seq<ReceiptRecord>)
    ensures
        avoids_code(receipt_list_findings(rs), 2001),
    decreases rs.len(),
{
    if rs.len() > 0 {
        lemma_receipt_list_findings_avoid(rs.drop_last());
        lemma_concat_parts(receipt_list_findings(rs.drop_last()), receipt_finding(rs.last()));
    }
}

proof fn lemma_script_findings_avoid(ss: Seq<ScriptBundleView>)
    ensures
        avoids_code(script_findings(ss), 2001),
    decreases ss.len(),
{
    if ss.len() > 0 {
        lemma_script_findings_avoid(ss.drop_last());
        lemma_concat_parts(script_findings(ss.drop_last()), script_finding(ss.last()));
    }
}

proof fn lemma_attachment_findings_avoid(ss: Seq<AttachmentRecord>)
    ensures
        avoids_code(attachment_findings(ss), 2001),
    decreases ss.len(),
{
    if ss.len() > 0 {
        lemma_attachment_findings_avoid(ss.drop_last());
        lemma_concat_parts(attachment_findings(ss.drop_last()), attachment_finding(ss.last()));
    }
}


proof fn lemma_receipt_findings_avoid(bs: Seq<ReceiptBatchView>)
    ensures
        avoids_code(receipt_findings(bs), 2001),
    decreases bs.len(),
{
    if bs.len() > 0 {
        lemma_receipt_findings_avoid(bs.drop_last());
        lemma_receipt_list_findings_avoid(bs.last().receipts);
        lemma_concat_parts(receipt_findings(bs.drop_last()), receipt_list_findings(bs.last().receipts));
    }
}

proof fn lemma_slot_findings_avoid(d: DictView, n: int)
    ensures
        avoids_code(slot_findings(d, n), 2001),
    decreases n,
{
    if n > 0 {
        lemma_slot_findings_avoid(d, n - 1);
        lemma_concat_parts(slot_findings(d, n - 1), slot_finding(d, n - 1));
    }
}

proof fn lemma_manifest_findings_avoid(m: ManifestView)
    ensures
        avoids_code(manifest_findings(m), 2001),
{
    lemma_route_findings_avoid(m.routes);
    match station_spec(m.station_model) {
        Some(p) => {
            let f1 = when(
                m.firmware_major < (p.min_fw >> 8u16),
                FindingView {
                    code: 1001,
                    severity: 2,
                    message: "firmware below "@ + p.family@ + " baseline"@,
                    evidence: p.capability_mask as u64,
                },
            );
            let f2 = when(
                p.max_kw > 350 && m.capabilities.len() < 2,
                FindingView {
                    code: 1002,
                    severity: 1,
                    message: "high power station has sparse capability map"@,
                    evidence: p.max_kw as u64,
                },
            );
            lemma_concat_parts(f1, f2);
        },
        None => {},
    }
    lemma_concat_parts(profile_findings(m), route_findings(m.routes));
}

/// The finding a sample outside the envelope gets.
pub open spec fn out_of_envelope(t: TelemetryView, s: TelemetrySample) -> FindingView {
    FindingView {
        code: 2001,
        severity: 2,
        message: "voltage outside service envelope"@,
        evidence: station_digest_spec(t.source_id, t.port_id, i32_le(s.voltage_mv)),
    }
}

pub open spec fn outside(a: AnalyzerView, s: TelemetrySample) -> bool {
    s.voltage_mv < a.min_voltage_mv || s.voltage_mv > a.max_voltage_mv
}

proof fn lemma_voltage_findings(a: AnalyzerView, t: TelemetryView, ss: Seq<TelemetrySample>)
    ensures
        forall|j: int|
            0 <= j < ss.len() && outside(a, ss[j]) ==> #[trigger] voltage_findings(a, t, ss).contains(
                out_of_envelope(t, ss[j]),
            ),
        forall|k: int|
            0 <= k < voltage_findings(a, t, ss).len() && (#[trigger] voltage_findings(a, t, ss)[k]).code == 2001
                ==> exists|j: int|
                0 <= j < ss.len() && outside(a, ss[j]) && voltage_findings(a, t, ss)[k] == out_of_envelope(
                    t,
                    #[trigger] ss[j],
                ),
    decreases ss.len(),
{
    if ss.len() > 0 {
        let p = ss.drop_last();
        lemma_voltage_findings(a, t, p);
        let x = voltage_findings(a, t, p);
        let y = sample_findings(a, t, ss.last());
        lemma_concat_parts(x, y);
        let v = voltage_findings(a, t, ss);
        assert(v == x + y);
        assert forall|j: int| 0 <= j < ss.len() && outside(a, ss[j]) implies #[trigger] v.contains(
            out_of_envelope(t, ss[j]),
        ) by {
            if j < p.len() {
                assert(ss[j] == p[j]);
                assert(x.contains(out_of_envelope(t, p[j])));
                let w = choose|w: int| 0 <= w < x.len() && x[w] == out_of_envelope(t, p[j]);
                assert(v[w] == x[w]);
            } else {
                assert(ss[j] == ss.last());
                assert(y[0] == out_of_envelope(t, ss.last()));
                assert(v[x.len() as int] == y[0]);
            }
        }
        assert forall|k: int| 0 <= k < v.len() && (#[trigger] v[k]).code == 2001 implies exists|j: int|
            0 <= j < ss.len() && outside(a, ss[j]) && v[k] == out_of_envelope(t, #[trigger] ss[j]) by {
            if k < x.len() {
                assert(v[k] == x[k]);
                let j = choose|j: int|
                    0 <= j < p.len() && outside(a, p[j]) && x[k] == out_of_envelope(t, #[trigger] p[j]);
                assert(p[j] == ss[j]);
            } else {
                assert(v[k] == y[k - x.len()]);
                let j = ss.len() - 1;
                assert(ss[j] == ss.last());
            }
        }
    }
}

proof fn lemma_telemetry_findings(a: AnalyzerView, ts: Seq<TelemetryView>)
    ensures
        forall|i: int, j: int|
            0 <= i < ts.len() && 0 <= j < ts[i].samples.len() && outside(a, ts[i].samples[j])
                ==> #[trigger] telemetry_findings(a, ts).contains(out_of_envelope(ts[i], #[trigger] ts[i].samples[j])),
        forall|k: int|
            0 <= k < telemetry_findings(a, ts).len() && (#[trigger] telemetry_findings(a, ts)[k]).code == 2001
                ==> exists|i: int, j: int|
                0 <= i < ts.len() && 0 <= j < ts[i].samples.len() && outside(a, ts[i].samples[j])
                    && telemetry_findings(a, ts)[k] == out_of_envelope(ts[i], #[trigger] ts[i].samples[j]),
    decreases ts.len(),
{
    if ts.len() > 0 {
        let p = ts.drop_last();
        let t = ts.last();
        lemma_telemetry_findings(a, p);
        let x = telemetry_findings(a, p);
        let vf = voltage_findings(a, t, t.samples);
        let tf = temperature_findings(t.samples);
        let sf = summary_findings(t.summaries);
        lemma_voltage_findings(a, t, t.samples);
        lemma_temperature_findings_avoid(t.samples);
        lemma_summary_findings_avoid(t.summaries);
        lemma_concat_parts(vf, tf);
        lemma_concat_parts(vf + tf, sf);
        let y = vf + tf + sf;
        assert(y == batch_findings(a, t));
        lemma_concat_parts(x, y);
        let v = telemetry_findings(a, ts);
        assert(v == x + y);
        assert forall|i: int, j: int|
            0 <= i < ts.len() && 0 <= j < ts[i].samples.len() && outside(a, ts[i].samples[j]) implies #[trigger] v.contains(
            out_of_envelope(ts[i], #[trigger] ts[i].samples[j]),
        ) by {
            let f = out_of_envelope(ts[i], ts[i].samples[j]);
            if i < p.len() {
                assert(p[i] == ts[i]);
                assert(x.contains(out_of_envelope(p[i], p[i].samples[j])));
                let w = choose|w: int| 0 <= w < x.len() && x[w] == f;
                assert(v[w] == x[w]);
            } else {
                assert(ts[i] == t);
                assert(vf.contains(out_of_envelope(t, t.samples[j])));
                let w = choose|w: int| 0 <= w < vf.len() && vf[w] == f;
                assert((vf + tf)[w] == vf[w]);
                assert(y[w] == vf[w]);
                assert(v[x.len() + w] == y[w]);
            }
        }
        assert forall|k: int| 0 <= k < v.len() && (#[trigger] v[k]).code == 2001 implies exists|i: int, j: int|
            0 <= i < ts.len() && 0 <= j < ts[i].samples.len() && outside(a, ts[i].samples[j]) && v[k]
                == out_of_envelope(ts[i], #[trigger] ts[i].samples[j]) by {
            if k < x.len() {
                assert(v[k] == x[k]);
                assert(x[k].code == 2001);
                let (i, j) = choose|i: int, j: int|
                    0 <= i < p.len() && 0 <= j < p[i].samples.len() && outside(a, p[i].samples[j]) && x[k]
                        == out_of_envelope(p[i], #[trigger] p[i].samples[j]);
                assert(p[i] == ts[i]);
            } else {
                let q = k - x.len();
                assert(v[k] == y[q]);
                assert(q < vf.len()) by {
                    if q >= vf.len() {
                        if q < vf.len() + tf.len() {
                            assert(y[q] == (vf + tf)[q]);
                            assert((vf + tf)[q] == tf[q - vf.len()]);
                        } else {
                            assert(y[q] == sf[q - vf.len() - tf.len()]);
                        }
                    }
                }
                assert(y[q] == (vf + tf)[q]);
                assert((vf + tf)[q] == vf[q]);
                assert(vf[q].code == 2001);
                let j = choose|j: int|
                    0 <= j < t.samples.len() && outside(a, t.samples[j]) && vf[q] == out_of_envelope(
                        t,
                        #[trigger] t.samples[j],
                    );
                let i = ts.len() - 1;
                assert(ts[i] == t);
            }
        }
    }
}

/// The analysis reports every telemetry sample whose voltage lies outside
/// the analyzer's envelope (below its minimum or above its maximum) with a
/// code 2001 finding carrying the station digest of that voltage, and every
/// code 2001 finding it makes is one of these.
pub proof fn voltage_outside_envelope_is_reported(a: AnalyzerView, b: BundleView)
    ensures
        forall|i: int, j: int|
            0 <= i < b.telemetry.len() && 0 <= j < b.telemetry[i].samples.len() && (b.telemetry[i].samples[j].voltage_mv
                < a.min_voltage_mv || b.telemetry[i].samples[j].voltage_mv > a.max_voltage_mv) ==> #[trigger] all_findings(
                a,
                b,
            ).contains(out_of_envelope(b.telemetry[i], #[trigger] b.telemetry[i].samples[j])),
        forall|k: int|
            0 <= k < all_findings(a, b).len() && (#[trigger] all_findings(a, b)[k]).code == 2001 ==> exists|
                i: int,
                j: int,
            |
                0 <= i < b.telemetry.len() && 0 <= j < b.telemetry[i].samples.len() && (
                b.telemetry[i].samples[j].voltage_mv < a.min_voltage_mv || b.telemetry[i].samples[j].voltage_mv
                    > a.max_voltage_mv) && all_findings(a, b)[k] == out_of_envelope(
                    b.telemetry[i],
                    #[trigger] b.telemetry[i].samples[j],
                ),
{
    let m = manifest_findings(b.manifest);
    let t = telemetry_findings(a, b.telemetry);
    let r = receipt_findings(b.receipts);
    let sc = script_findings(b.scripts);
    let d = dictionary_findings(b.dictionary);
    let at = attachment_findings(b.attachments);
    lemma_manifest_findings_avoid(b.manifest);
    lemma_telemetry_findings(a, b.telemetry);
    lemma_receipt_findings_avoid(b.receipts);
    lemma_script_findings_avoid(b.scripts);
    lemma_slot_findings_avoid(b.dictionary, 16);
    lemma_attachment_findings_avoid(b.attachments);
    lemma_concat_parts(m, t);
    lemma_concat_parts(m + t, r);
    lemma_concat_parts(m + t + r, sc);
    lemma_concat_parts(m + t + r + sc, d);
    lemma_concat_parts(m + t + r + sc + d, at);
    let all = all_findings(a, b);
    assert(all == m + t + r + sc + d + at);
    lemma_reported_trans(t, m + t, m + t + r);
    lemma_reported_trans(t, m + t + r, m + t + r + sc);
    lemma_reported_trans(t, m + t + r + sc, m + t + r + sc + d);
    lemma_reported_trans(t, m + t + r + sc + d, all);
    assert forall|i: int, j: int|
        0 <= i < b.telemetry.len() && 0 <= j < b.telemetry[i].samples.len() && (b.telemetry[i].samples[j].voltage_mv
            < a.min_voltage_mv || b.telemetry[i].samples[j].voltage_mv > a.max_voltage_mv) implies #[trigger] all.contains(
        out_of_envelope(b.telemetry[i], #[trigger] b.telemetry[i].samples[j]),
    ) by {
        let f = out_of_envelope(b.telemetry[i], b.telemetry[i].samples[j]);
        assert(outside(a, b.telemetry[i].samples[j]));
        assert(t.contains(f));
        let w = choose|w: int| 0 <= w < t.len() && t[w] == f;
        assert(all.contains(t[w]));
    }
    assert forall|k: int| 0 <= k < all.len() && (#[trigger] all[k]).code == 2001 implies exists|i: int, j: int|
        0 <= i < b.telemetry.len() && 0 <= j < b.telemetry[i].samples.len() && (b.telemetry[i].samples[j].voltage_mv
            < a.min_voltage_mv || b.telemetry[i].samples[j].voltage_mv > a.max_voltage_mv) && all[k] == out_of_envelope(
            b.telemetry[i],
            #[trigger] b.telemetry[i].samples[j],
        ) by {
        let ml = m.len() as int;
        let tl = t.len() as int;
        if k < ml {
            assert(all[k] == m[k]);
        } else if k < ml + tl {
            let rest = r + sc + d + at;
            assert(all =~= (m + t) + rest);
            assert(all[k] == t[k - ml]);
            assert(t[k - ml].code == 2001);
            let (i, j) = choose|i: int, j: int|
                0 <= i < b.telemetry.len() && 0 <= j < b.telemetry[i].samples.len() && outside(
                    a,
                    b.telemetry[i].samples[j],
                ) && t[k - ml] == out_of_envelope(b.telemetry[i], #[trigger] b.telemetry[i].samples[j]);
        } else {
            let rest = r + sc + d + at;
            assert(avoids_code(rest, 2001)) by {
                lemma_concat_parts(r, sc);
                lemma_concat_parts(r + sc, d);
                lemma_concat_parts(r + sc + d, at);
            }
            assert(all =~= (m + t) + rest);
            assert(all[k] == rest[k - ml - tl]);
        }
    }
}

} // verus!
