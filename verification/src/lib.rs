//! VoltTrace decodes offline EV charging operations bundles.
//!
//! A binary envelope carries a manifest, a token dictionary, telemetry
//! blocks, receipt batches, attachment operations, nested streams and station
//! command scripts. Every decoder states what it returns as a function of the
//! input bytes.
use vstd::prelude::*;

pub mod analyzer;
pub mod arena;
pub mod bundle;
pub mod catalog;
pub mod checksum;
pub mod codec;
pub mod cursor;
pub mod dictionary;
pub mod error;
pub mod manifest;
pub mod model;
pub mod receipt;
pub mod script;
pub mod stream;
pub mod telemetry;
pub mod text;

pub use analyzer::{AnalysisFinding, AnalysisReport};
pub use bundle::{BundleDecoder, SectionHeader};
pub use error::{Result, VoltError};
pub use model::{Bundle, Compression, Manifest, ReceiptBatch, ScriptBundle, TelemetryBatch};

use analyzer::{analysis_spec, default_analyzer, Analyzer};
use bundle::{bundle_res, default_decoder, dispatch_spec, parse_spec};
use arena::ArenaView;
use model::{ScriptBundleView, SectionKind};
use receipt::receipts_spec;
use telemetry::telemetry_spec;
use model::BundleView;
use script::{compile_and_run_spec, ExecutionReport, ReportView};
use stream::{finish_view, StreamDecoder, StreamDecoderView, StreamStateView};

verus! {

/// Decodes a bundle with the default limits: at most 128 sections.
pub fn parse_bundle(data: &[u8]) -> (r: Result<Bundle>)
    ensures
        bundle_res(r) == parse_spec(default_decoder(), data@),
        r matches Ok(b) ==> 1 <= b.version <= 3 && b.section_count <= 128,
{
    BundleDecoder::new().parse(data)
}

/// Decodes a bundle and analyzes it with the default envelope.
pub fn decode_and_analyze_bundle(data: &[u8]) -> (r: Result<AnalysisReport>)
    ensures
        match r {
            Ok(rep) => match parse_spec(default_decoder(), data@) {
                Ok(b) => rep@ == analysis_spec(default_analyzer(), b),
                Err(_) => false,
            },
            Err(e) => parse_spec(default_decoder(), data@) == Err::<BundleView, VoltError>(e),
        },
{
    let bundle = parse_bundle(data)?;
    Ok(Analyzer::new().analyze(&bundle))
}

/// What a fresh stream decoder makes of `data` fed at once and finished.
pub open spec fn stream_spec(data: Seq<u8>) -> Result<BundleView> {
    let fresh = StreamDecoderView { state: StreamStateView::fresh(), pending: seq![] };
    match fresh.feed(data) {
        (Err(e), _) => Err(e),
        (Ok(()), d) => Ok(finish_view(d.state)),
    }
}

/// Decodes a framed stream fed in one piece.
pub fn parse_stream(data: &[u8]) -> (r: Result<Bundle>)
    ensures
        bundle_res(r) == stream_spec(data@),
{
    let mut decoder = StreamDecoder::new();
    decoder.feed(data)?;
    decoder.finish()
}

/// Decodes and runs a station command script.
pub fn run_script_bytes(data: &[u8]) -> (r: Result<ExecutionReport>)
    ensures
        match r {
            Ok(rep) => compile_and_run_spec(data@) == Ok::<ReportView, VoltError>(rep@),
            Err(e) => compile_and_run_spec(data@) == Err::<ReportView, VoltError>(e),
        },
{
    script::compile_and_run(data)
}

/// A stream section adds what the stream decoder makes of its payload: the
/// bundle's telemetry, receipts and scripts are followed by those of the
/// decoded stream and nothing else changes; when the stream fails, the
/// section fails with the same error.
pub proof fn stream_section_appends_decoded_stream(h: SectionHeader, p: Seq<u8>, b: BundleView, a: ArenaView)
    requires
        h.kind == SectionKind::Stream,
    ensures
        match stream_spec(p) {
            Ok(nb) => dispatch_spec(h, p, b, a) == Ok::<(BundleView, ArenaView), VoltError>(
                (
                    BundleView {
                        telemetry: b.telemetry + nb.telemetry,
                        receipts: b.receipts + nb.receipts,
                        scripts: b.scripts + nb.scripts,
                        ..b
                    },
                    a,
                ),
            ),
            Err(e) => dispatch_spec(h, p, b, a) == Err::<(BundleView, ArenaView), VoltError>(e),
        },
{
    assert(Seq::<u8>::empty() + p =~= p);
}

/// A telemetry section appends the batch its decoder gives, with the
/// dictionary the decoder leaves; a receipt section likewise; a script
/// section appends its run under the script id xored with the section id,
/// with the low byte of the run's checksum as priority; an unknown section
/// changes nothing. A failing decoder fails the section with its error.
pub proof fn sections_append_what_their_decoders_give(h: SectionHeader, p: Seq<u8>, b: BundleView, a: ArenaView)
    ensures
        h.kind == SectionKind::Telemetry ==> dispatch_spec(h, p, b, a) == match telemetry_spec(
            p,
            model::compression_of(h.flags),
            b.dictionary,
        ) {
            (Ok(t), d) => Ok::<(BundleView, ArenaView), VoltError>(
                (BundleView { telemetry: b.telemetry.push(t), dictionary: d, ..b }, a),
            ),
            (Err(e), _) => Err(e),
        },
        h.kind == SectionKind::Receipts ==> dispatch_spec(h, p, b, a) == match receipts_spec(p, b.dictionary) {
            (Ok(t), d) => Ok::<(BundleView, ArenaView), VoltError>(
                (BundleView { receipts: b.receipts.push(t), dictionary: d, ..b }, a),
            ),
            (Err(e), _) => Err(e),
        },
        h.kind == SectionKind::Script ==> dispatch_spec(h, p, b, a) == match compile_and_run_spec(p) {
            Ok(rep) => Ok::<(BundleView, ArenaView), VoltError>(
                (
                    BundleView {
                        scripts: b.scripts.push(
                            ScriptBundleView {
                                script_id: rep.script_id ^ (h.id as u32),
                                priority: (rep.checksum % 256) as u8,
                                bytecode: p,
                            },
                        ),
                        ..b
                    },
                    a,
                ),
            ),
            Err(e) => Err(e),
        },
        h.kind is Unknown ==> dispatch_spec(h, p, b, a) == Ok::<(BundleView, ArenaView), VoltError>((b, a)),
{
    if h.kind == SectionKind::Script {
        if let Ok(rep) = compile_and_run_spec(p) {
            let x = rep.checksum;
            assert((x & 0xffu32) as u8 == (x % 256) as u8) by (bit_vector);
        }
    }
}

} // verus!
