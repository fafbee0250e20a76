use vstd::prelude::*;
use crate::dictionary::{DictView, Dictionary};

verus! {

/// How a telemetry payload is compressed.
#[derive(Debug, Clone, Copy, PartialEq, Eq, Structural)]
pub enum Compression {
    Raw,
    Rle,
    BitBackref,
    DictionaryDelta,
}

/// The compression that bits 1 and 2 of a flags byte select.
pub open spec fn compression_of(flags: u8) -> Compression {
    let sel = (flags >> 1u8) & 0x03u8;
    if sel == 1 {
        Compression::Rle
    } else if sel == 2 {
        Compression::BitBackref
    } else if sel == 3 {
        Compression::DictionaryDelta
    } else {
        Compression::Raw
    }
}

impl Compression {
    pub fn from_flags(flags: u8) -> (r: Self)
        ensures
            r == compression_of(flags),
    {
        let sel = (flags >> 1) & 0x03;
        if sel == 1 {
            Compression::Rle
        } else if sel == 2 {
            Compression::BitBackref
        } else if sel == 3 {
            Compression::DictionaryDelta
        } else {
            Compression::Raw
        }
    }
}

/// The type of a bundle section.
#[derive(Debug, Clone, Copy, PartialEq, Eq, Structural)]
pub enum SectionKind {
    Manifest,
    Dictionary,
    Telemetry,
    Receipts,
    Attachment,
    Script,
    Stream,
    Unknown(u8),
}

pub open spec fn section_kind(b: u8) -> SectionKind {
    match b {
        1 => SectionKind::Manifest,
        2 => SectionKind::Dictionary,
        3 => SectionKind::Telemetry,
        4 => SectionKind::Receipts,
        5 => SectionKind::Attachment,
        6 => SectionKind::Script,
        7 => SectionKind::Stream,
        x => SectionKind::Unknown(x),
    }
}

impl SectionKind {
    pub fn from_byte(b: u8) -> (r: Self)
        ensures
            r == section_kind(b),
    {
        match b {
            1 => SectionKind::Manifest,
            2 => SectionKind::Dictionary,
            3 => SectionKind::Telemetry,
            4 => SectionKind::Receipts,
            5 => SectionKind::Attachment,
            6 => SectionKind::Script,
            7 => SectionKind::Stream,
            x => SectionKind::Unknown(x),
        }
    }
}

/// The state of an offline receipt.
#[derive(Debug, Clone, Copy, PartialEq, Eq, Structural)]
pub enum ReceiptStatus {
    Authorized,
    Captured,
    OfflineQueued,
    Reversed,
    Unknown(u8),
}

pub open spec fn receipt_status(b: u8) -> ReceiptStatus {
    match b {
        0 => ReceiptStatus::Authorized,
        1 => ReceiptStatus::Captured,
        2 => ReceiptStatus::OfflineQueued,
        3 => ReceiptStatus::Reversed,
        x => ReceiptStatus::Unknown(x),
    }
}

impl ReceiptStatus {
    pub fn from_byte(b: u8) -> (r: Self)
        ensures
            r == receipt_status(b),
    {
        match b {
            0 => ReceiptStatus::Authorized,
            1 => ReceiptStatus::Captured,
            2 => ReceiptStatus::OfflineQueued,
            3 => ReceiptStatus::Reversed,
            x => ReceiptStatus::Unknown(x),
        }
    }
}

#[derive(Debug, Clone)]
pub struct OperatorRecord {
    pub operator_id: u32,
    pub region: u16,
    pub name: String,
    pub trust_tier: u8,
}

pub struct OperatorView {
    pub operator_id: u32,
    pub region: u16,
    pub name: Seq<char>,
    pub trust_tier: u8,
}

impl View for OperatorRecord {
    type V = OperatorView;

    open spec fn view(&self) -> OperatorView {
        OperatorView {
            operator_id: self.operator_id,
            region: self.region,
            name: self.name@,
            trust_tier: self.trust_tier,
        }
    }
}

#[derive(Debug, Clone, Copy)]
pub struct RouteRecord {
    pub route_id: u16,
    pub feeder_id: u16,
    pub transformer_id: u32,
    pub station_count: u16,
    pub risk_flags: u16,
}

#[derive(Debug, Clone)]
pub struct CapabilityRecord {
    pub code: u16,
    pub min_fw: u16,
    pub flags: u16,
    pub description: String,
}

pub struct CapabilityView {
    pub code: u16,
    pub min_fw: u16,
    pub flags: u16,
    pub description: Seq<char>,
}

impl View for CapabilityRecord {
    type V = CapabilityView;

    open spec fn view(&self) -> CapabilityView {
        CapabilityView {
            code: self.code,
            min_fw: self.min_fw,
            flags: self.flags,
            description: self.description@,
        }
    }
}

/// A site manifest.
#[derive(Debug, Clone)]
pub struct Manifest {
    pub site_id: u32,
    pub station_model: u16,
    pub firmware_major: u16,
    pub firmware_minor: u16,
    pub policy_epoch: u32,
    pub operators: Vec<OperatorRecord>,
    pub routes: Vec<RouteRecord>,
    pub capabilities: Vec<CapabilityRecord>,
}

pub struct ManifestView {
    pub site_id: u32,
    pub station_model: u16,
    pub firmware_major: u16,
    pub firmware_minor: u16,
    pub policy_epoch: u32,
    pub operators: Seq<OperatorView>,
    pub routes: Seq<RouteRecord>,
    pub capabilities: Seq<CapabilityView>,
}

impl View for Manifest {
    type V = ManifestView;

    open spec fn view(&self) -> ManifestView {
        ManifestView {
            site_id: self.site_id,
            station_model: self.station_model,
            firmware_major: self.firmware_major,
            firmware_minor: self.firmware_minor,
            policy_epoch: self.policy_epoch,
            operators: self.operators@.map_values(|o: OperatorRecord| o@),
            routes: self.routes@,
            capabilities: self.capabilities@.map_values(|c: CapabilityRecord| c@),
        }
    }
}

impl ManifestView {
    pub open spec fn empty() -> ManifestView {
        ManifestView {
            site_id: 0,
            station_model: 0,
            firmware_major: 0,
            firmware_minor: 0,
            policy_epoch: 0,
            operators: seq![],
            routes: seq![],
            capabilities: seq![],
        }
    }
}

impl Manifest {
    /// The manifest with every number zero and every list empty.
    pub fn empty() -> (r: Manifest)
        ensures
            r@ == ManifestView::empty(),
    {
        let r = Manifest {
            site_id: 0,
            station_model: 0,
            firmware_major: 0,
            firmware_minor: 0,
            policy_epoch: 0,
            operators: Vec::new(),
            routes: Vec::new(),
            capabilities: Vec::new(),
        };
        assert(r@.operators =~= seq![]);
        assert(r@.capabilities =~= seq![]);
        r
    }
}

impl Default for Manifest {
    fn default() -> (r: Self)
        ensures
            r@ == ManifestView::empty(),
    {
        Manifest::empty()
    }
}

#[derive(Debug, Clone, Copy)]
pub struct TelemetrySample {
    pub delta_ms: u32,
    pub channel: u8,
    pub voltage_mv: i32,
    pub current_ma: i32,
    pub temperature_mc: i32,
    pub flags: u16,
}

#[derive(Debug, Clone, Copy)]
pub struct MeterSummary {
    pub channel: u8,
    pub min_value: i32,
    pub max_value: i32,
    pub mean_value: i32,
    pub quality: u16,
}

/// The samples and summaries of one telemetry source.
#[derive(Debug, Clone)]
pub struct TelemetryBatch {
    pub source_id: u32,
    pub port_id: u16,
    pub start_time: u64,
    pub samples: Vec<TelemetrySample>,
    pub summaries: Vec<MeterSummary>,
}

pub struct TelemetryView {
    pub source_id: u32,
    pub port_id: u16,
    pub start_time: u64,
    pub samples: Seq<TelemetrySample>,
    pub summaries: Seq<MeterSummary>,
}

impl View for TelemetryBatch {
    type V = TelemetryView;

    open spec fn view(&self) -> TelemetryView {
        TelemetryView {
            source_id: self.source_id,
            port_id: self.port_id,
            start_time: self.start_time,
            samples: self.samples@,
            summaries: self.summaries@,
        }
    }
}

/// The receipts of one merchant lane.
#[derive(Debug, Clone)]
pub struct ReceiptBatch {
    pub merchant_id: u32,
    pub lane_id: u16,
    pub receipts: Vec<ReceiptRecord>,
}

pub struct ReceiptBatchView {
    pub merchant_id: u32,
    pub lane_id: u16,
    pub receipts: Seq<ReceiptRecord>,
}

impl View for ReceiptBatch {
    type V = ReceiptBatchView;

    open spec fn view(&self) -> ReceiptBatchView {
        ReceiptBatchView { merchant_id: self.merchant_id, lane_id: self.lane_id, receipts: self.receipts@ }
    }
}

#[derive(Debug, Clone, Copy)]
pub struct ReceiptRecord {
    pub session_id: u64,
    pub token_alias: u8,
    pub amount_cents: u32,
    pub energy_wh: u32,
    pub auth_code: u32,
    pub status: ReceiptStatus,
}

/// A station command script and the bytes it was decoded from.
#[derive(Debug, Clone)]
pub struct ScriptBundle {
    pub script_id: u32,
    pub priority: u8,
    pub bytecode: Vec<u8>,
}

pub struct ScriptBundleView {
    pub script_id: u32,
    pub priority: u8,
    pub bytecode: Seq<u8>,
}

impl View for ScriptBundle {
    type V = ScriptBundleView;

    open spec fn view(&self) -> ScriptBundleView {
        ScriptBundleView { script_id: self.script_id, priority: self.priority, bytecode: self.bytecode@ }
    }
}

#[derive(Debug, Clone, Copy)]
pub struct AttachmentRecord {
    pub attachment_id: u32,
    pub kind: u8,
    pub digest: u64,
    pub len: usize,
}

/// Everything decoded from one bundle.
#[derive(Debug, Clone)]
pub struct Bundle {
    pub version: u8,
    pub flags: u8,
    pub sequence: u32,
    pub manifest: Manifest,
    pub dictionary: Dictionary,
    pub telemetry: Vec<TelemetryBatch>,
    pub receipts: Vec<ReceiptBatch>,
    pub scripts: Vec<ScriptBundle>,
    pub attachments: Vec<AttachmentRecord>,
    pub section_count: usize,
}

pub struct BundleView {
    pub version: u8,
    pub flags: u8,
    pub sequence: u32,
    pub manifest: ManifestView,
    pub dictionary: DictView,
    pub telemetry: Seq<TelemetryView>,
    pub receipts: Seq<ReceiptBatchView>,
    pub scripts: Seq<ScriptBundleView>,
    pub attachments: Seq<AttachmentRecord>,
    pub section_count: usize,
}

pub open spec fn telemetry_views(s: Seq<TelemetryBatch>) -> Seq<TelemetryView> {
    s.map_values(|t: TelemetryBatch| t@)
}

pub open spec fn receipt_views(s: Seq<ReceiptBatch>) -> Seq<ReceiptBatchView> {
    s.map_values(|t: ReceiptBatch| t@)
}

pub open spec fn script_views(s: Seq<ScriptBundle>) -> Seq<ScriptBundleView> {
    s.map_values(|t: ScriptBundle| t@)
}

impl View for Bundle {
    type V = BundleView;

    open spec fn view(&self) -> BundleView {
        BundleView {
            version: self.version,
            flags: self.flags,
            sequence: self.sequence,
            manifest: self.manifest@,
            dictionary: self.dictionary@,
            telemetry: telemetry_views(self.telemetry@),
            receipts: receipt_views(self.receipts@),
            scripts: script_views(self.scripts@),
            attachments: self.attachments@,
            section_count: self.section_count,
        }
    }
}

impl BundleView {
    /// A bundle with the given header, an empty manifest and dictionary,
    /// and no records.
    pub open spec fn fresh(version: u8, flags: u8, sequence: u32) -> BundleView {
        BundleView {
            version,
            flags,
            sequence,
            manifest: ManifestView::empty(),
            dictionary: DictView::empty(),
            telemetry: seq![],
            receipts: seq![],
            scripts: seq![],
            attachments: seq![],
            section_count: 0,
        }
    }
}

impl Bundle {
    pub fn new(version: u8, flags: u8, sequence: u32) -> (r: Self)
        ensures
            r@ == BundleView::fresh(version, flags, sequence),
    {
        let r = Self {
            version,
            flags,
            sequence,
            manifest: Manifest::empty(),
            dictionary: Dictionary::new(),
            telemetry: Vec::new(),
            receipts: Vec::new(),
            scripts: Vec::new(),
            attachments: Vec::new(),
            section_count: 0,
        };
        assert(r@.telemetry =~= seq![]);
        assert(r@.receipts =~= seq![]);
        assert(r@.scripts =~= seq![]);
        r
    }
}

} // verus!
