use vstd::prelude::*;
use vstd::slice::slice_subrange;
use crate::arena::{ArenaView, AttachmentArena};
use crate::bundle::{bundle_res, default_decoder, parse_spec, BundleDecoder};
use crate::codec::append_bytes;
use crate::cursor::le32;
use crate::dictionary::{copy_bytes, wrap_inc32, DictView, Dictionary};
use crate::error::{Result, VoltError};
use crate::manifest::{manifest_spec, parse_manifest};
use crate::model::{
    compression_of, receipt_views, script_views, telemetry_views, Bundle, BundleView, Compression,
    ScriptBundle, ScriptBundleView,
};
use crate::receipt::{parse_receipts, receipts_spec};
use crate::script::{compile_and_run, compile_and_run_spec};
use crate::telemetry::{parse_telemetry, telemetry_spec};

verus! {

/// The state of a stream decoder apart from its unframed bytes.
pub struct StreamStateView {
    pub version: u8,
    pub flags: u8,
    pub sequence: u32,
    pub dict: DictView,
    pub arena: ArenaView,
    pub bundle: BundleView,
    pub frame_counter: u32,
}

pub struct StreamDecoderView {
    pub state: StreamStateView,
    pub pending: Seq<u8>,
}

impl StreamStateView {
    pub open spec fn fresh() -> StreamStateView {
        StreamStateView {
            version: 1,
            flags: 0,
            sequence: 0,
            dict: DictView::empty(),
            arena: ArenaView::empty(),
            bundle: BundleView::fresh(1, 0, 0),
            frame_counter: 0,
        }
    }
}

/// A hello frame of six or more bytes sets version, flags and sequence.
pub open spec fn hello(st: StreamStateView, frame: Seq<u8>) -> StreamStateView {
    if frame.len() >= 6 {
        let version = frame[0];
        let flags = frame[1];
        let sequence = le32(frame[2], frame[3], frame[4], frame[5]);
        StreamStateView {
            version,
            flags,
            sequence,
            bundle: BundleView { version, flags, sequence, ..st.bundle },
            ..st
        }
    } else {
        st
    }
}

/// One frame: 0x01 hello, 0x02 dictionary operations, 0x03 telemetry,
/// 0x04 receipts, 0x05 attachment operations, 0x06 script, 0x07 nested
/// bundle, 0x08 manifest; other kinds are counted and ignored.
pub open spec fn process_frame_spec(st: StreamStateView, kind: u8, flags: u8, frame: Seq<u8>) -> (Result<()>, StreamStateView)
    decreases frame.len(), 3int, 0int,
{
    let s = StreamStateView { frame_counter: wrap_inc32(st.frame_counter), ..st };
    if kind == 1 {
        (Ok(()), hello(s, frame))
    } else if kind == 2 {
        let (r, d) = s.dict.parse_ops(frame);
        (r, StreamStateView { dict: d, ..s })
    } else if kind == 3 {
        let (r, d) = telemetry_spec(frame, compression_of(flags), s.dict);
        match r {
            Err(e) => (Err(e), StreamStateView { dict: d, ..s }),
            Ok(t) => (
                Ok(()),
                StreamStateView { dict: d, bundle: BundleView { telemetry: s.bundle.telemetry.push(t), ..s.bundle }, ..s },
            ),
        }
    } else if kind == 4 {
        let (r, d) = receipts_spec(frame, s.dict);
        match r {
            Err(e) => (Err(e), StreamStateView { dict: d, ..s }),
            Ok(t) => (
                Ok(()),
                StreamStateView { dict: d, bundle: BundleView { receipts: s.bundle.receipts.push(t), ..s.bundle }, ..s },
            ),
        }
    } else if kind == 5 {
        let (r, a) = s.arena.parse_ops(frame);
        (r, StreamStateView { arena: a, ..s })
    } else if kind == 6 {
        match compile_and_run_spec(frame) {
            Err(e) => (Err(e), s),
            Ok(rep) => (
                Ok(()),
                StreamStateView {
                    bundle: BundleView {
                        scripts: s.bundle.scripts.push(
                            ScriptBundleView {
                                script_id: rep.script_id,
                                priority: (rep.steps & 0xffu32) as u8,
                                bytecode: frame,
                            },
                        ),
                        ..s.bundle
                    },
                    ..s
                },
            ),
        }
    } else if kind == 7 {
        match parse_spec(default_decoder(), frame) {
            Err(e) => (Err(e), s),
            Ok(nb) => (
                Ok(()),
                StreamStateView {
                    bundle: BundleView {
                        telemetry: s.bundle.telemetry + nb.telemetry,
                        receipts: s.bundle.receipts + nb.receipts,
                        scripts: s.bundle.scripts + nb.scripts,
                        ..s.bundle
                    },
                    ..s
                },
            ),
        }
    } else if kind == 8 {
        let (r, d) = manifest_spec(frame, s.dict);
        match r {
            Err(e) => (Err(e), StreamStateView { dict: d, ..s }),
            Ok(m) => (Ok(()), StreamStateView { dict: d, bundle: BundleView { manifest: m, ..s.bundle }, ..s }),
        }
    } else {
        (Ok(()), s)
    }
}

/// Framing: each frame is a kind, flags, a 16-bit length and that many
/// bytes. Complete frames are taken off the front of `pending` and
/// processed in turn; an incomplete one stays pending.
pub open spec fn feed_loop(st: StreamStateView, pending: Seq<u8>) -> (Result<()>, StreamStateView, Seq<u8>)
    decreases pending.len(), 0int, 0int,
{
    if pending.len() < 4 {
        (Ok(()), st, pending)
    } else {
        let len = (pending[2] as int) + 256 * (pending[3] as int);
        if pending.len() < 4 + len {
            (Ok(()), st, pending)
        } else {
            let frame = pending.subrange(4, 4 + len);
            let rest = pending.skip(4 + len);
            let (r, st2) = process_frame_spec(st, pending[0], pending[1], frame);
            match r {
                Err(e) => (Err(e), st2, rest),
                Ok(()) => feed_loop(st2, rest),
            }
        }
    }
}

/// The bundle a stream has decoded, with the stream's dictionary.
pub open spec fn finish_view(st: StreamStateView) -> BundleView {
    BundleView { dictionary: st.dict, ..st.bundle }
}

impl StreamDecoderView {
    pub open spec fn feed(self, data: Seq<u8>) -> (Result<()>, StreamDecoderView) {
        let (r, st, p) = feed_loop(self.state, self.pending + data);
        (r, StreamDecoderView { state: st, pending: p })
    }
}

#[derive(Debug, Clone)]
struct StreamState {
    version: u8,
    flags: u8,
    sequence: u32,
    dictionary: Dictionary,
    arena: AttachmentArena,
    bundle: Bundle,
    frame_counter: u32,
}

impl View for StreamState {
    type V = StreamStateView;

    closed spec fn view(&self) -> StreamStateView {
        StreamStateView {
            version: self.version,
            flags: self.flags,
            sequence: self.sequence,
            dict: self.dictionary@,
            arena: self.arena@,
            bundle: self.bundle@,
            frame_counter: self.frame_counter,
        }
    }
}

/// Decodes a stream of frames into a bundle, across as many `feed` calls
/// as the bytes arrive in.
#[derive(Debug, Clone)]
pub struct StreamDecoder {
    state: StreamState,
    pending: Vec<u8>,
}

impl View for StreamDecoder {
    type V = StreamDecoderView;

    closed spec fn view(&self) -> StreamDecoderView {
        StreamDecoderView { state: self.state@, pending: self.pending@ }
    }
}

impl Default for StreamDecoder {
    fn default() -> (r: Self)
        ensures
            r@ == (StreamDecoderView { state: StreamStateView::fresh(), pending: seq![] }),
    {
        Self::new()
    }
}

impl StreamDecoder {
    pub fn new() -> (r: Self)
        ensures
            r@ == (StreamDecoderView { state: StreamStateView::fresh(), pending: seq![] }),
    {
        let bundle = Bundle::new(1, 0, 0);
        let r = Self {
            state: StreamState {
                version: 1,
                flags: 0,
                sequence: 0,
                dictionary: Dictionary::new(),
                arena: AttachmentArena::new(),
                bundle,
                frame_counter: 0,
            },
            pending: Vec::new(),
        };
        assert(r@.pending =~= seq![]);
        r
    }

    /// Appends `data` to the unframed bytes and processes every complete
    /// frame.
    pub fn feed(&mut self, data: &[u8]) -> (r: Result<()>)
        ensures
            (r, final(self)@) == old(self)@.feed(data@),
        decreases old(self)@.pending.len() + data@.len(), 0int,
    {
        append_bytes(&mut self.pending, data);
        loop
            invariant
                old(self)@.feed(data@) == ({
                    let (r, st, p) = feed_loop(self.state@, self.pending@);
                    (r, StreamDecoderView { state: st, pending: p })
                }),
                self.pending@.len() <= old(self)@.pending.len() + data@.len(),
            decreases self.pending@.len(),
        {
            let n = self.pending.len();
            if n < 4 {
                return Ok(());
            }
            let kind = self.pending[0];
            let flags = self.pending[1];
            let len = self.pending[2] as usize + (self.pending[3] as usize) * 256;
            if n < 4 + len {
                return Ok(());
            }
            let frame = copy_bytes(slice_subrange(self.pending.as_slice(), 4, 4 + len));
            let rest = copy_bytes(slice_subrange(self.pending.as_slice(), 4 + len, n));
            assert(rest@ =~= self.pending@.skip(4 + len));
            self.pending = rest;
            self.process_frame(kind, flags, frame.as_slice())?;
        }
    }

    /// The decoded bundle, with the stream's dictionary.
    pub fn finish(self) -> (r: Result<Bundle>)
        ensures
            r matches Ok(b) && b@ == finish_view(self@.state),
    {
        let StreamDecoder { state, pending } = self;
        let StreamState { version, flags, sequence, dictionary, arena, bundle, frame_counter } = state;
        let mut bundle = bundle;
        bundle.dictionary = dictionary;
        Ok(bundle)
    }

    fn process_frame(&mut self, kind: u8, flags: u8, frame: &[u8]) -> (r: Result<()>)
        ensures
            (r, final(self)@.state) == process_frame_spec(old(self)@.state, kind, flags, frame@),
            final(self)@.pending == old(self)@.pending,
        decreases frame@.len(), 4int,
    {
        self.state.frame_counter = self.state.frame_counter.wrapping_add(1);
        if kind == 0x01 {
            self.process_hello(frame);
            Ok(())
        } else if kind == 0x02 {
            self.state.dictionary.parse_ops(frame)
        } else if kind == 0x03 {
            let ghost t0 = self.state.bundle@.telemetry;
            let compression = Compression::from_flags(flags);
            let batch = parse_telemetry(frame, compression, &mut self.state.dictionary)?;
            self.state.bundle.telemetry.push(batch);
            assert(telemetry_views(self.state.bundle.telemetry@) =~= t0.push(batch@));
            Ok(())
        } else if kind == 0x04 {
            let ghost t0 = self.state.bundle@.receipts;
            let receipts = parse_receipts(frame, &mut self.state.dictionary)?;
            self.state.bundle.receipts.push(receipts);
            assert(receipt_views(self.state.bundle.receipts@) =~= t0.push(receipts@));
            Ok(())
        } else if kind == 0x05 {
            self.state.arena.parse_ops(frame)
        } else if kind == 0x06 {
            self.process_script(frame)
        } else if kind == 0x07 {
            self.process_nested_bundle(frame)
        } else if kind == 0x08 {
            let m = parse_manifest(frame, &mut self.state.dictionary)?;
            self.state.bundle.manifest = m;
            Ok(())
        } else {
            Ok(())
        }
    }

    fn process_hello(&mut self, frame: &[u8])
        ensures
            final(self)@.state == hello(old(self)@.state, frame@),
            final(self)@.pending == old(self)@.pending,
    {
        if frame.len() >= 6 {
            let version = frame[0];
            let flags = frame[1];
            let sequence = frame[2] as u32 + (frame[3] as u32) * 256 + (frame[4] as u32) * 65536
                + (frame[5] as u32) * 16777216;
            self.state.version = version;
            self.state.flags = flags;
            self.state.sequence = sequence;
            self.state.bundle.version = version;
            self.state.bundle.flags = flags;
            self.state.bundle.sequence = sequence;
        }
    }

    fn process_script(&mut self, frame: &[u8]) -> (r: Result<()>)
        ensures
            ({
                let s = old(self)@.state;
                let spec = match compile_and_run_spec(frame@) {
                    Err(e) => (Err(e), s),
                    Ok(rep) => (
                        Ok(()),
                        StreamStateView {
                            bundle: BundleView {
                                scripts: s.bundle.scripts.push(
                                    ScriptBundleView {
                                        script_id: rep.script_id,
                                        priority: (rep.steps & 0xffu32) as u8,
                                        bytecode: frame@,
                                    },
                                ),
                                ..s.bundle
                            },
                            ..s
                        },
                    ),
                };
                (r, final(self)@.state) == spec
            }),
            final(self)@.pending == old(self)@.pending,
    {
        let ghost t0 = self.state.bundle@.scripts;
        let report = compile_and_run(frame)?;
        let script = ScriptBundle {
            script_id: report.script_id,
            priority: (report.steps & 0xff) as u8,
            bytecode: copy_bytes(frame),
        };
        self.state.bundle.scripts.push(script);
        assert(script_views(self.state.bundle.scripts@) =~= t0.push(script@));
        Ok(())
    }

    fn process_nested_bundle(&mut self, frame: &[u8]) -> (r: Result<()>)
        ensures
            ({
                let s = old(self)@.state;
                let spec = match parse_spec(default_decoder(), frame@) {
                    Err(e) => (Err(e), s),
                    Ok(nb) => (
                        Ok(()),
                        StreamStateView {
                            bundle: BundleView {
                                telemetry: s.bundle.telemetry + nb.telemetry,
                                receipts: s.bundle.receipts + nb.receipts,
                                scripts: s.bundle.scripts + nb.scripts,
                                ..s.bundle
                            },
                            ..s
                        },
                    ),
                };
                (r, final(self)@.state) == spec
            }),
            final(self)@.pending == old(self)@.pending,
        decreases frame@.len(), 3int,
    {
        let ghost b0 = self.state.bundle@;
        let mut nested = BundleDecoder::new().parse(frame)?;
        let ghost nb = nested@;
        self.state.bundle.telemetry.append(&mut nested.telemetry);
        self.state.bundle.receipts.append(&mut nested.receipts);
        self.state.bundle.scripts.append(&mut nested.scripts);
        assert(telemetry_views(self.state.bundle.telemetry@) =~= b0.telemetry + nb.telemetry);
        assert(receipt_views(self.state.bundle.receipts@) =~= b0.receipts + nb.receipts);
        assert(script_views(self.state.bundle.scripts@) =~= b0.scripts + nb.scripts);
        Ok(())
    }
}

/// Framing only ever looks at complete frames: once `pending` has been
/// processed without error, bytes that arrive later are framed exactly as if
/// they had been there from the start.
pub proof fn lemma_feed_loop_append(st: StreamStateView, pending: Seq<u8>, more: Seq<u8>)
    requires
        feed_loop(st, pending).0 is Ok,
    ensures
        feed_loop(st, pending + more) == feed_loop(feed_loop(st, pending).1, feed_loop(st, pending).2 + more),
    decreases pending.len(),
{
    let all = pending + more;
    if pending.len() >= 4 {
        assert(all[0] == pending[0] && all[1] == pending[1] && all[2] == pending[2] && all[3] == pending[3]);
        let len = (pending[2] as int) + 256 * (pending[3] as int);
        if pending.len() >= 4 + len {
            assert(all.subrange(4, 4 + len) =~= pending.subrange(4, 4 + len));
            assert(all.skip(4 + len) =~= pending.skip(4 + len) + more);
            let (r, st2) = process_frame_spec(st, pending[0], pending[1], pending.subrange(4, 4 + len));
            lemma_feed_loop_append(st2, pending.skip(4 + len), more);
        }
    }
}

/// Feeding a stream in two pieces, the first accepted, ends in the same
/// result and the same decoder as feeding both pieces at once.
pub proof fn feed_in_pieces(d: StreamDecoderView, a: Seq<u8>, b: Seq<u8>)
    requires
        d.feed(a).0 is Ok,
    ensures
        d.feed(a).1.feed(b) == d.feed(a + b),
{
    lemma_feed_loop_append(d.state, d.pending + a, b);
    assert(d.pending + a + b =~= d.pending + (a + b));
}

} // verus!
