use vstd::prelude::*;
use crate::arena::{kind_code, ArenaView, AttachmentArena};
use crate::checksum::{crc32, crc32_spec};
use crate::cursor::{ByteCursor, CursorModel, le_bytes16, le_bytes32, lemma_le_bytes16, lemma_le_bytes32};
use crate::dictionary::copy_bytes;
use crate::error::{Result, VoltError};
use crate::manifest::{manifest_res, manifest_spec, parse_manifest};
use crate::model::{
    compression_of, receipt_views, script_views, section_kind, telemetry_views, AttachmentRecord,
    Bundle, BundleView, Compression, ScriptBundle, ScriptBundleView, SectionKind,
};
use crate::receipt::{batch_res, parse_receipts, receipts_spec};
use crate::script::{compile_and_run, compile_and_run_spec};
use crate::stream::{StreamDecoder, StreamStateView, feed_loop, finish_view};
use crate::telemetry::{parse_telemetry, telemetry_res, telemetry_spec};

verus! {

/// The header of a bundle section.
#[derive(Debug, Clone, Copy)]
pub struct SectionHeader {
    pub kind: SectionKind,
    pub flags: u8,
    pub id: u16,
    pub length: u32,
    pub checksum: u32,
}

/// The limits of a bundle decoder: most sections, largest section.
pub struct DecoderView {
    pub max_sections: usize,
    pub max_section_size: usize,
}

pub open spec fn default_decoder() -> DecoderView {
    DecoderView { max_sections: 128, max_section_size: 0x10_0000 }
}

/// The bytes every bundle starts with: "VTRC".
pub open spec fn magic() -> Seq<u8> {
    seq![0x56u8, 0x54, 0x52, 0x43]
}

/// A section header: kind, flags, 16-bit id, 32-bit length and checksum.
pub open spec fn read_header(c: CursorModel) -> (Result<SectionHeader>, CursorModel) {
    match c.read_u8() {
        (Err(e), c1) => (Err(e), c1),
        (Ok(k), c1) => match c1.read_u8() {
            (Err(e), c2) => (Err(e), c2),
            (Ok(flags), c2) => match c2.read_u16() {
                (Err(e), c3) => (Err(e), c3),
                (Ok(id), c3) => match c3.read_u32() {
                    (Err(e), c4) => (Err(e), c4),
                    (Ok(length), c4) => match c4.read_u32() {
                        (Err(e), c5) => (Err(e), c5),
                        (Ok(checksum), c5) => (
                            Ok(SectionHeader { kind: section_kind(k), flags, id, length, checksum }),
                            c5,
                        ),
                    },
                },
            },
        },
    }
}

/// The record of linked attachment slot `slot`, when it has a digest.
pub open spec fn attachment_record(a: ArenaView, id: u16, slot: int) -> Seq<AttachmentRecord> {
    match a.handle_digest(slot) {
        Some(d) => seq![
            AttachmentRecord {
                attachment_id: (id as int * 100 + slot) as u32,
                kind: match a.handle_kind(slot) {
                    Some(k) => kind_code(k),
                    None => 255,
                },
                digest: d,
                len: match a.read_handle(slot) {
                    Some(b) => b.len() as usize,
                    None => 0,
                },
            },
        ],
        None => seq![],
    }
}

/// The records of the linked slots below `k`.
pub open spec fn attachment_records(a: ArenaView, id: u16, k: int) -> Seq<AttachmentRecord>
    decreases k,
{
    if k <= 0 {
        seq![]
    } else {
        attachment_records(a, id, k - 1) + attachment_record(a, id, k - 1)
    }
}

/// Decoding a bundle.
pub open spec fn parse_spec(d: DecoderView, data: Seq<u8>) -> Result<BundleView>
    decreases data.len(), 2int, 0int,
{
    let c = CursorModel::fresh(data, "bundle");
    match c.take(4) {
        (Err(e), _) => Err(e),
        (Ok(m), c1) => if m != magic() {
            Err(VoltError::BadMagic)
        } else {
            match c1.read_u8() {
                (Err(e), _) => Err(e),
                (Ok(version), c2) => if version == 0 || version > 3 {
                    Err(VoltError::UnsupportedVersion(version))
                } else {
                    match c2.read_u8() {
                        (Err(e), _) => Err(e),
                        (Ok(flags), c3) => match c3.read_u16() {
                            (Err(e), _) => Err(e),
                            (Ok(count), c4) => match c4.read_u32() {
                                (Err(e), _) => Err(e),
                                (Ok(sequence), c5) => if count as int > d.max_sections {
                                    Err(VoltError::LimitExceeded("section count"))
                                } else {
                                    sections_from(
                                        d,
                                        c5,
                                        0,
                                        count as int,
                                        BundleView::fresh(version, flags, sequence),
                                        ArenaView::empty(),
                                    )
                                },
                            },
                        },
                    }
                },
            }
        },
    }
}

/// The sections from the `i`-th on, `n` in all; decoding stops early when
/// fewer than 12 bytes remain.
pub open spec fn sections_from(d: DecoderView, c: CursorModel, i: int, n: int, b: BundleView, a: ArenaView) -> Result<BundleView>
    decreases c.data.len(), 1int, n - i,
{
    if i >= n || c.remaining() < 12 {
        Ok(b)
    } else {
        match read_header(c) {
            (Err(e), _) => Err(e),
            (Ok(h), c1) => if h.length as int > d.max_section_size {
                Err(VoltError::LimitExceeded("section size"))
            } else {
                let k = if (h.length as int) < c1.remaining() { h.length as int } else { c1.remaining() };
                match c1.take(k) {
                    (Err(e), _) => Err(e),
                    (Ok(p), c2) => if h.flags & 1u8 != 0 && crc32_spec(p) != h.checksum {
                        Err(VoltError::Checksum { expected: h.checksum, actual: crc32_spec(p) })
                    } else {
                        proof {
                            lemma_payload_shorter(c, k);
                        }
                        match dispatch_spec(h, p, b, a) {
                            Err(e) => Err(e),
                            Ok((b2, a2)) => sections_from(
                                d,
                                c2,
                                i + 1,
                                n,
                                BundleView { section_count: (b2.section_count + 1) as usize, ..b2 },
                                a2,
                            ),
                        }
                    },
                }
            },
        }
    }
}

pub proof fn lemma_payload_shorter(c: CursorModel, k: int)
    requires
        c.remaining() >= 12,
        0 <= k <= read_header(c).1.remaining(),
    ensures
        read_header(c).1.take(k).0->Ok_0.len() < c.data.len(),
        read_header(c).1.data == c.data,
{
}

/// What a section does to the bundle and the attachment arena.
pub open spec fn dispatch_spec(h: SectionHeader, p: Seq<u8>, b: BundleView, a: ArenaView) -> Result<(BundleView, ArenaView)>
    decreases p.len(), 1int, 0int,
{
    match h.kind {
        SectionKind::Manifest => {
            let (r, d) = manifest_spec(p, b.dictionary);
            match r {
                Err(e) => Err(e),
                Ok(m) => Ok((BundleView { manifest: m, dictionary: d, ..b }, a)),
            }
        },
        SectionKind::Dictionary => {
            let (r, d) = b.dictionary.parse_ops(p);
            match r {
                Err(e) => Err(e),
                Ok(()) => Ok((BundleView { dictionary: d, ..b }, a)),
            }
        },
        SectionKind::Telemetry => {
            let (r, d) = telemetry_spec(p, compression_of(h.flags), b.dictionary);
            match r {
                Err(e) => Err(e),
                Ok(t) => Ok((BundleView { telemetry: b.telemetry.push(t), dictionary: d, ..b }, a)),
            }
        },
        SectionKind::Receipts => {
            let (r, d) = receipts_spec(p, b.dictionary);
            match r {
                Err(e) => Err(e),
                Ok(t) => Ok((BundleView { receipts: b.receipts.push(t), dictionary: d, ..b }, a)),
            }
        },
        SectionKind::Attachment => {
            let (r, a2) = a.parse_ops(p);
            match r {
                Err(e) => Err(e),
                Ok(()) => Ok((BundleView { attachments: b.attachments + attachment_records(a2, h.id, 8), ..b }, a2)),
            }
        },
        SectionKind::Script => match compile_and_run_spec(p) {
            Err(e) => Err(e),
            Ok(rep) => Ok(
                (
                    BundleView {
                        scripts: b.scripts.push(
                            ScriptBundleView {
                                script_id: rep.script_id ^ (h.id as u32),
                                priority: (rep.checksum & 0xffu32) as u8,
                                bytecode: p,
                            },
                        ),
                        ..b
                    },
                    a,
                ),
            ),
        },
        SectionKind::Stream => {
            let (r, st, _) = feed_loop(StreamStateView::fresh(), p);
            match r {
                Err(e) => Err(e),
                Ok(()) => {
                    let nb = finish_view(st);
                    Ok(
                        (
                            BundleView {
                                telemetry: b.telemetry + nb.telemetry,
                                receipts: b.receipts + nb.receipts,
                                scripts: b.scripts + nb.scripts,
                                ..b
                            },
                            a,
                        ),
                    )
                },
            }
        },
        SectionKind::Unknown(_) => Ok((b, a)),
    }
}

pub open spec fn bundle_res(r: Result<Bundle>) -> Result<BundleView> {
    match r {
        Ok(b) => Ok(b@),
        Err(e) => Err(e),
    }
}

/// A bundle decoder with its section limits.
#[derive(Debug, Clone)]
pub struct BundleDecoder {
    max_sections: usize,
    max_section_size: usize,
}

impl View for BundleDecoder {
    type V = DecoderView;

    closed spec fn view(&self) -> DecoderView {
        DecoderView { max_sections: self.max_sections, max_section_size: self.max_section_size }
    }
}

impl Default for BundleDecoder {
    fn default() -> (r: Self)
        ensures
            r@ == default_decoder(),
    {
        Self::new()
    }
}

impl BundleDecoder {
    /// A decoder for at most 128 sections of at most 1 MiB each.
    pub fn new() -> (r: Self)
        ensures
            r@ == default_decoder(),
    {
        Self { max_sections: 128, max_section_size: 0x10_0000 }
    }

    /// Decodes a bundle. A bundle that decodes has a version from 1 to 3
    /// and counts no more sections than the decoder's limit.
    #[verifier::rlimit(60)]
    pub fn parse(&self, data: &[u8]) -> (r: Result<Bundle>)
        ensures
            bundle_res(r) == parse_spec(self@, data@),
            r matches Ok(b) ==> 1 <= b.version <= 3 && b.section_count <= self@.max_sections,
        decreases data@.len(), 2int,
    {
        let mut cur = ByteCursor::new(data, "bundle");
        let m = cur.take(4)?;
        if !(m[0] == 0x56 && m[1] == 0x54 && m[2] == 0x52 && m[3] == 0x43) {
            assert(m@ != magic()) by {
                if m@ == magic() {
                    assert(m@[0] == 0x56u8 && m@[1] == 0x54u8 && m@[2] == 0x52u8 && m@[3] == 0x43u8);
                }
            }
            return Err(VoltError::BadMagic);
        }
        assert(m@ =~= magic());
        let version = cur.read_u8()?;
        if version == 0 || version > 3 {
            return Err(VoltError::UnsupportedVersion(version));
        }
        let flags = cur.read_u8()?;
        let section_count = cur.read_u16()? as usize;
        let sequence = cur.read_u32()?;
        if section_count > self.max_sections {
            return Err(VoltError::LimitExceeded("section count"));
        }
        let mut bundle = Bundle::new(version, flags, sequence);
        let mut arena = AttachmentArena::new();
        let mut i: usize = 0;
        while i < section_count
            invariant
                0 <= i <= section_count,
                section_count <= self@.max_sections,
                cur@.data == data@,
                parse_spec(self@, data@) == sections_from(self@, cur@, i as int, section_count as int, bundle@, arena@),
                bundle@.section_count == i,
                1 <= bundle.version <= 3,
            decreases section_count - i,
        {
            cur.check_wf();
            if cur.remaining() < 12 {
                return Ok(bundle);
            }
            let ghost c_before = cur@;
            let header = self.read_section_header(&mut cur)?;
            if header.length as usize > self.max_section_size {
                return Err(VoltError::LimitExceeded("section size"));
            }
            let rem = cur.remaining();
            let len = header.length as usize;
            let payload = cur.take(if len < rem { len } else { rem })?;
            if header.flags & 0x01 != 0 {
                let actual = crc32(payload);
                if actual != header.checksum {
                    return Err(VoltError::Checksum { expected: header.checksum, actual });
                }
            }
            proof {
                lemma_payload_shorter(c_before, payload@.len() as int);
            }
            self.dispatch_section(header, payload, &mut bundle, &mut arena)?;
            bundle.section_count = bundle.section_count + 1;
            i = i + 1;
        }
        Ok(bundle)
    }

    fn read_section_header(&self, cur: &mut ByteCursor<'_>) -> (r: Result<SectionHeader>)
        ensures
            (r, final(cur)@) == read_header(old(cur)@),
    {
        let kind = SectionKind::from_byte(cur.read_u8()?);
        let flags = cur.read_u8()?;
        let id = cur.read_u16()?;
        let length = cur.read_u32()?;
        let checksum = cur.read_u32()?;
        Ok(SectionHeader { kind, flags, id, length, checksum })
    }

    fn dispatch_section(
        &self,
        header: SectionHeader,
        payload: &[u8],
        bundle: &mut Bundle,
        arena: &mut AttachmentArena,
    ) -> (r: Result<()>)
        ensures
            match r {
                Ok(()) => dispatch_spec(header, payload@, old(bundle)@, old(arena)@) == Ok::<
                    (BundleView, crate::arena::ArenaView),
                    VoltError,
                >((final(bundle)@, final(arena)@)),
                Err(e) => dispatch_spec(header, payload@, old(bundle)@, old(arena)@) == Err::<
                    (BundleView, crate::arena::ArenaView),
                    VoltError,
                >(e),
            },
            final(bundle).version == old(bundle).version,
            final(bundle).sequence == old(bundle).sequence,
            final(bundle).section_count == old(bundle).section_count,
        decreases payload@.len(), 1int,
    {
        let ghost b0 = bundle@;
        match header.kind {
            SectionKind::Manifest => {
                let m = parse_manifest(payload, &mut bundle.dictionary)?;
                bundle.manifest = m;
            },
            SectionKind::Dictionary => {
                bundle.dictionary.parse_ops(payload)?;
            },
            SectionKind::Telemetry => {
                let compression = Compression::from_flags(header.flags);
                let batch = parse_telemetry(payload, compression, &mut bundle.dictionary)?;
                bundle.telemetry.push(batch);
                assert(telemetry_views(bundle.telemetry@) =~= b0.telemetry.push(batch@));
            },
            SectionKind::Receipts => {
                let batch = parse_receipts(payload, &mut bundle.dictionary)?;
                bundle.receipts.push(batch);
                assert(receipt_views(bundle.receipts@) =~= b0.receipts.push(batch@));
            },
            SectionKind::Attachment => {
                arena.parse_ops(payload)?;
                let mut slot: usize = 0;
                while slot < 8
                    invariant
                        0 <= slot <= 8,
                        bundle@ == (BundleView { attachments: bundle@.attachments, ..b0 }),
                        bundle@.attachments == b0.attachments + attachment_records(arena@, header.id, slot as int),
                    decreases 8 - slot,
                {
                    match arena.handle_digest(slot) {
                        Some(digest) => {
                            let kind = match arena.handle_kind(slot) {
                                Some(k) => k.code(),
                                None => 255,
                            };
                            let len = match arena.read_handle(slot) {
                                Some(v) => v.len(),
                                None => 0,
                            };
                            bundle.attachments.push(
                                AttachmentRecord {
                                    attachment_id: header.id as u32 * 100 + slot as u32,
                                    kind,
                                    digest,
                                    len,
                                },
                            );
                        },
                        None => {},
                    }
                    assert(bundle@.attachments =~= b0.attachments + attachment_records(arena@, header.id, slot + 1));
                    slot = slot + 1;
                }
            },
            SectionKind::Script => {
                let report = compile_and_run(payload)?;
                let script = ScriptBundle {
                    script_id: report.script_id ^ (header.id as u32),
                    priority: (report.checksum & 0xff) as u8,
                    bytecode: copy_bytes(payload),
                };
                bundle.scripts.push(script);
                assert(script_views(bundle.scripts@) =~= b0.scripts.push(script@));
            },
            SectionKind::Stream => {
                let mut decoder = StreamDecoder::new();
                decoder.feed(payload)?;
                let mut nested = decoder.finish()?;
                let ghost nb = nested@;
                bundle.telemetry.append(&mut nested.telemetry);
                bundle.receipts.append(&mut nested.receipts);
                bundle.scripts.append(&mut nested.scripts);
                assert(telemetry_views(bundle.telemetry@) =~= b0.telemetry + nb.telemetry);
                assert(receipt_views(bundle.receipts@) =~= b0.receipts + nb.receipts);
                assert(script_views(bundle.scripts@) =~= b0.scripts + nb.scripts);
            },
            SectionKind::Unknown(_) => {},
        }
        Ok(())
    }
}

/// Input of four or more bytes that does not start with "VTRC" is refused
/// as bad magic, whatever follows.
pub proof fn bad_magic_refused(d: DecoderView, data: Seq<u8>)
    requires
        data.len() >= 4,
        data.take(4) != magic(),
    ensures
        parse_spec(d, data) == Err::<BundleView, VoltError>(VoltError::BadMagic),
{
    let c = CursorModel::fresh(data, "bundle");
    assert(c.take(4).0 == Ok::<Seq<u8>, VoltError>(data.take(4)));
}

/// A bundle holding one section, its checksum flag clear, decodes to what
/// that section makes of a fresh bundle with the header's version, flags
/// and sequence, counted as one section; when the section fails, the bundle
/// fails with the section's error.
#[verifier::rlimit(60)]
pub proof fn one_section_bundle(
    version: u8,
    flags: u8,
    sequence: u32,
    kind: u8,
    sflags: u8,
    id: u16,
    checksum: u32,
    payload: Seq<u8>,
)
    requires
        1 <= version <= 3,
        sflags & 1u8 == 0,
        payload.len() <= 0x10_0000,
    ensures
        ({
            let data = magic() + seq![version, flags] + le_bytes16(1) + le_bytes32(sequence) + seq![kind, sflags]
                + le_bytes16(id) + le_bytes32(payload.len() as u32) + le_bytes32(checksum) + payload;
            let h = SectionHeader {
                kind: section_kind(kind),
                flags: sflags,
                id,
                length: payload.len() as u32,
                checksum,
            };
            parse_spec(default_decoder(), data) == match dispatch_spec(
                h,
                payload,
                BundleView::fresh(version, flags, sequence),
                ArenaView::empty(),
            ) {
                Ok((b2, _)) => Ok::<BundleView, VoltError>(
                    BundleView { section_count: (b2.section_count + 1) as usize, ..b2 },
                ),
                Err(e) => Err::<BundleView, VoltError>(e),
            }
        }),
{
    let l = payload.len() as u32;
    let data = one_section_bytes(version, flags, sequence, kind, sflags, id, checksum, payload);
    lemma_one_section_layout(version, flags, sequence, kind, sflags, id, checksum, payload);
    lemma_bundle_header(data, version, flags, sequence);
    lemma_one_section(
        CursorModel::fresh(data, "bundle").advance(12),
        kind,
        sflags,
        id,
        checksum,
        payload,
        BundleView::fresh(version, flags, sequence),
    );
}

/// The bytes of a bundle with one section and the given header fields.
pub open spec fn one_section_bytes(
    version: u8,
    flags: u8,
    sequence: u32,
    kind: u8,
    sflags: u8,
    id: u16,
    checksum: u32,
    payload: Seq<u8>,
) -> Seq<u8> {
    magic() + seq![version, flags] + le_bytes16(1) + le_bytes32(sequence) + seq![kind, sflags] + le_bytes16(id)
        + le_bytes32(payload.len() as u32) + le_bytes32(checksum) + payload
}

proof fn lemma_one_section_layout(
    version: u8,
    flags: u8,
    sequence: u32,
    kind: u8,
    sflags: u8,
    id: u16,
    checksum: u32,
    payload: Seq<u8>,
)
    ensures
        ({
            let data = one_section_bytes(version, flags, sequence, kind, sflags, id, checksum, payload);
            &&& data.len() == 24 + payload.len()
            &&& data.subrange(0, 4) == magic()
            &&& data[4] == version
            &&& data[5] == flags
            &&& data.subrange(6, 8) == le_bytes16(1)
            &&& data.subrange(8, 12) == le_bytes32(sequence)
            &&& data[12] == kind
            &&& data[13] == sflags
            &&& data.subrange(14, 16) == le_bytes16(id)
            &&& data.subrange(16, 20) == le_bytes32(payload.len() as u32)
            &&& data.subrange(20, 24) == le_bytes32(checksum)
            &&& data.subrange(24, data.len() as int) == payload
        }),
{
    let data = one_section_bytes(version, flags, sequence, kind, sflags, id, checksum, payload);
    assert(data.subrange(0, 4) =~= magic());
    assert(data.subrange(6, 8) =~= le_bytes16(1));
    assert(data.subrange(8, 12) =~= le_bytes32(sequence));
    assert(data.subrange(14, 16) =~= le_bytes16(id));
    assert(data.subrange(16, 20) =~= le_bytes32(payload.len() as u32));
    assert(data.subrange(20, 24) =~= le_bytes32(checksum));
    assert(data.subrange(24, data.len() as int) =~= payload);
}

proof fn lemma_bundle_header(data: Seq<u8>, version: u8, flags: u8, sequence: u32)
    requires
        data.len() >= 12,
        1 <= version <= 3,
        data.subrange(0, 4) == magic(),
        data[4] == version,
        data[5] == flags,
        data.subrange(6, 8) == le_bytes16(1),
        data.subrange(8, 12) == le_bytes32(sequence),
    ensures
        parse_spec(default_decoder(), data) == sections_from(
            default_decoder(),
            CursorModel::fresh(data, "bundle").advance(12),
            0,
            1,
            BundleView::fresh(version, flags, sequence),
            ArenaView::empty(),
        ),
{
    lemma_le_bytes16(1);
    lemma_le_bytes32(sequence);
}

proof fn lemma_header_at(c: CursorModel, kind: u8, sflags: u8, id: u16, length: u32, checksum: u32)
    requires
        0 <= c.pos,
        c.data.len() >= c.pos + 12,
        c.data[c.pos] == kind,
        c.data[c.pos + 1] == sflags,
        c.data.subrange(c.pos + 2, c.pos + 4) == le_bytes16(id),
        c.data.subrange(c.pos + 4, c.pos + 8) == le_bytes32(length),
        c.data.subrange(c.pos + 8, c.pos + 12) == le_bytes32(checksum),
    ensures
        read_header(c) == (Ok::<SectionHeader, VoltError>(
            SectionHeader { kind: section_kind(kind), flags: sflags, id, length, checksum },
        ), c.advance(12)),
{
    lemma_le_bytes16(id);
    lemma_le_bytes32(length);
    lemma_le_bytes32(checksum);
}

#[verifier::rlimit(60)]
proof fn lemma_one_section(
    c: CursorModel,
    kind: u8,
    sflags: u8,
    id: u16,
    checksum: u32,
    payload: Seq<u8>,
    b0: BundleView,
)
    requires
        0 <= c.pos,
        c.data.len() == c.pos + 12 + payload.len(),
        payload.len() <= 0x10_0000,
        sflags & 1u8 == 0,
        c.data[c.pos] == kind,
        c.data[c.pos + 1] == sflags,
        c.data.subrange(c.pos + 2, c.pos + 4) == le_bytes16(id),
        c.data.subrange(c.pos + 4, c.pos + 8) == le_bytes32(payload.len() as u32),
        c.data.subrange(c.pos + 8, c.pos + 12) == le_bytes32(checksum),
        c.data.subrange(c.pos + 12, c.data.len() as int) == payload,
    ensures
        ({
            let h = SectionHeader {
                kind: section_kind(kind),
                flags: sflags,
                id,
                length: payload.len() as u32,
                checksum,
            };
            sections_from(default_decoder(), c, 0, 1, b0, ArenaView::empty()) == match dispatch_spec(
                h,
                payload,
                b0,
                ArenaView::empty(),
            ) {
                Ok((b2, _)) => Ok::<BundleView, VoltError>(
                    BundleView { section_count: (b2.section_count + 1) as usize, ..b2 },
                ),
                Err(e) => Err::<BundleView, VoltError>(e),
            }
        }),
{
    let l = payload.len() as u32;
    let h = SectionHeader { kind: section_kind(kind), flags: sflags, id, length: l, checksum };
    lemma_header_at(c, kind, sflags, id, l, checksum);
    assert(c.advance(12).take(payload.len() as int) == (Ok::<Seq<u8>, VoltError>(payload), c.advance(
        12 + payload.len() as int,
    )));
    match dispatch_spec(h, payload, b0, ArenaView::empty()) {
        Ok((b2, a2)) => {
            let b3 = BundleView { section_count: (b2.section_count + 1) as usize, ..b2 };
            assert(sections_from(default_decoder(), c.advance(12 + payload.len() as int), 1, 1, b3, a2) == Ok::<
                BundleView,
                VoltError,
            >(b3));
        },
        Err(e) => {},
    }
}

} // verus!

