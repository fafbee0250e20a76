use vstd::prelude::*;
use crate::checksum::{fold64, fold64_spec};
use crate::cursor::{ByteCursor, CursorModel};
use crate::dictionary::{copy_bytes, forward, lemma_var_forward, reversed};
use crate::error::{Result, VoltError};

verus! {

/// What an attachment holds.
#[derive(Debug, Clone, Copy, PartialEq, Eq, Structural)]
pub enum AttachmentKind {
    FirmwareChunk,
    ReceiptImage,
    MeterSnapshot,
    MaintenanceLog,
    Unknown(u8),
}

pub open spec fn attachment_kind(b: u8) -> AttachmentKind {
    match b {
        0 => AttachmentKind::FirmwareChunk,
        1 => AttachmentKind::ReceiptImage,
        2 => AttachmentKind::MeterSnapshot,
        3 => AttachmentKind::MaintenanceLog,
        x => AttachmentKind::Unknown(x),
    }
}

pub open spec fn kind_code(k: AttachmentKind) -> u8 {
    match k {
        AttachmentKind::FirmwareChunk => 0,
        AttachmentKind::ReceiptImage => 1,
        AttachmentKind::MeterSnapshot => 2,
        AttachmentKind::MaintenanceLog => 3,
        AttachmentKind::Unknown(x) => x,
    }
}

impl AttachmentKind {
    pub fn from_byte(b: u8) -> (r: Self)
        ensures
            r == attachment_kind(b),
    {
        match b {
            0 => AttachmentKind::FirmwareChunk,
            1 => AttachmentKind::ReceiptImage,
            2 => AttachmentKind::MeterSnapshot,
            3 => AttachmentKind::MaintenanceLog,
            x => AttachmentKind::Unknown(x),
        }
    }

    pub fn code(self) -> (r: u8)
        ensures
            r == kind_code(self),
    {
        match self {
            AttachmentKind::FirmwareChunk => 0,
            AttachmentKind::ReceiptImage => 1,
            AttachmentKind::MeterSnapshot => 2,
            AttachmentKind::MaintenanceLog => 3,
            AttachmentKind::Unknown(x) => x,
        }
    }
}

/// A linked slot: the attachment's bytes as they were when linked, with
/// their digest, epoch and kind.
#[derive(Debug, Clone)]
pub struct AttachmentHandle {
    bytes: Vec<u8>,
    digest: u64,
    epoch: u32,
    kind: AttachmentKind,
}

pub struct HandleView {
    pub bytes: Seq<u8>,
    pub digest: u64,
    pub epoch: u32,
    pub kind: AttachmentKind,
}

impl View for AttachmentHandle {
    type V = HandleView;

    closed spec fn view(&self) -> HandleView {
        HandleView { bytes: self.bytes@, digest: self.digest, epoch: self.epoch, kind: self.kind }
    }
}

#[derive(Debug, Clone)]
struct Slab {
    kind: AttachmentKind,
    epoch: u32,
    bytes: Vec<u8>,
    retained: bool,
}

pub struct SlabView {
    pub kind: AttachmentKind,
    pub epoch: u32,
    pub bytes: Seq<u8>,
    pub retained: bool,
}

impl View for Slab {
    type V = SlabView;

    closed spec fn view(&self) -> SlabView {
        SlabView { kind: self.kind, epoch: self.epoch, bytes: self.bytes@, retained: self.retained }
    }
}

pub open spec fn handle_view(h: Option<AttachmentHandle>) -> Option<HandleView> {
    match h {
        Some(h) => Some(h@),
        None => None,
    }
}

/// The abstract arena: slabs in order of addition, the handle slots, the
/// next epoch and the retained byte count.
pub struct ArenaView {
    pub slabs: Seq<SlabView>,
    pub handles: Seq<Option<HandleView>>,
    pub epoch: u32,
    pub retained_bytes: usize,
}

/// The seed of a handle's digest.
pub open spec fn handle_seed() -> u64 {
    0xcbf2_9ce4_8422_2325u64
}

pub open spec fn sat_add(a: usize, b: int) -> usize {
    if a + b > usize::MAX { usize::MAX } else { (a + b) as usize }
}

/// The total size of the slabs, saturating at `usize::MAX`.
pub open spec fn slab_bytes(s: Seq<SlabView>) -> usize
    decreases s.len(),
{
    if s.len() == 0 {
        0
    } else {
        sat_add(slab_bytes(s.drop_last()), s.last().bytes.len() as int)
    }
}

/// Whether eviction keeps a slab.
pub open spec fn survives(s: SlabView, max_epoch: u32, flags: u8) -> bool {
    s.retained || s.epoch > max_epoch || (flags & 2u8 != 0 && s.bytes.len() < 16)
}

pub open spec fn keep_survivors(s: Seq<SlabView>, max_epoch: u32, flags: u8) -> Seq<SlabView>
    decreases s.len(),
{
    if s.len() == 0 {
        s
    } else {
        let k = keep_survivors(s.drop_last(), max_epoch, flags);
        if survives(s.last(), max_epoch, flags) { k.push(s.last()) } else { k }
    }
}

pub type ArenaStep = (Result<()>, CursorModel, ArenaView);

impl ArenaView {
    pub open spec fn empty() -> ArenaView {
        ArenaView { slabs: seq![], handles: Seq::new(128, |i: int| None), epoch: 1, retained_bytes: 0 }
    }

    pub open spec fn add(self, kind: AttachmentKind, bytes: Seq<u8>, retained: bool) -> ArenaView {
        ArenaView {
            slabs: self.slabs.push(SlabView { kind, epoch: self.epoch, bytes, retained }),
            epoch: if self.epoch == 0xffff_ffffu32 { 0 } else { (self.epoch + 1) as u32 },
            retained_bytes: sat_add(self.retained_bytes, bytes.len() as int),
            ..self
        }
    }

    pub open spec fn link(self, slot: int, idx: int) -> ArenaView {
        if slot < 0 || slot >= self.handles.len() || idx < 0 || idx >= self.slabs.len() {
            self
        } else {
            let s = self.slabs[idx];
            ArenaView {
                handles: self.handles.update(
                    slot,
                    Some(
                        HandleView {
                            bytes: s.bytes,
                            digest: fold64_spec(handle_seed(), s.bytes),
                            epoch: s.epoch,
                            kind: s.kind,
                        },
                    ),
                ),
                ..self
            }
        }
    }

    pub open spec fn evict(self, max_epoch: u32, flags: u8) -> ArenaView {
        let kept = keep_survivors(self.slabs, max_epoch, flags);
        ArenaView {
            slabs: kept,
            retained_bytes: if kept.len() != self.slabs.len() {
                slab_bytes(kept)
            } else {
                self.retained_bytes
            },
            ..self
        }
    }

    pub open spec fn mark(self, idx: int, retained: bool) -> ArenaView {
        if 0 <= idx < self.slabs.len() {
            ArenaView {
                slabs: self.slabs.update(idx, SlabView { retained, ..self.slabs[idx] }),
                ..self
            }
        } else {
            self
        }
    }

    /// Operation 0x10: kind, flags, a 16-bit length and the bytes; flag bit
    /// 0 retains the slab, bit 7 links it to the slot in bits 0 to 6.
    pub open spec fn op_add(self, c: CursorModel) -> ArenaStep {
        match c.read_u8() {
            (Err(e), c1) => (Err(e), c1, self),
            (Ok(k), c1) => match c1.read_u8() {
                (Err(e), c2) => (Err(e), c2, self),
                (Ok(flags), c2) => match c2.read_u16() {
                    (Err(e), c3) => (Err(e), c3, self),
                    (Ok(len), c3) => if len > 4096 {
                        (Err(VoltError::LimitExceeded("attachment block")), c3, self)
                    } else {
                        match c3.take(len as int) {
                            (Err(e), c4) => (Err(e), c4, self),
                            (Ok(b), c4) => {
                                let a = self.add(attachment_kind(k), b, flags & 1u8 != 0);
                                let a2 = if flags & 0x80u8 != 0 {
                                    a.link((flags & 0x7fu8) as int, self.slabs.len() as int)
                                } else {
                                    a
                                };
                                (Ok(()), c4, a2)
                            },
                        }
                    },
                },
            },
        }
    }

    /// Operation 0x11: slot and a variable-length slab index.
    pub open spec fn op_link(self, c: CursorModel) -> ArenaStep {
        match c.read_u8() {
            (Err(e), c1) => (Err(e), c1, self),
            (Ok(slot), c1) => match c1.read_var_u32() {
                (Err(e), c2) => (Err(e), c2, self),
                (Ok(idx), c2) => (Ok(()), c2, self.link(slot as int, idx as int)),
            },
        }
    }

    /// Operation 0x12: the highest epoch to evict and the flags.
    pub open spec fn op_evict(self, c: CursorModel) -> ArenaStep {
        match c.read_u32() {
            (Err(e), c1) => (Err(e), c1, self),
            (Ok(max_epoch), c1) => match c1.read_u8() {
                (Err(e), c2) => (Err(e), c2, self),
                (Ok(flags), c2) => (Ok(()), c2, self.evict(max_epoch, flags)),
            },
        }
    }

    /// Operation 0x13: a variable-length slab index and its retained bit.
    pub open spec fn op_mark(self, c: CursorModel) -> ArenaStep {
        match c.read_var_u32() {
            (Err(e), c1) => (Err(e), c1, self),
            (Ok(idx), c1) => match c1.read_u8() {
                (Err(e), c2) => (Err(e), c2, self),
                (Ok(b), c2) => (Ok(()), c2, self.mark(idx as int, b & 1u8 != 0)),
            },
        }
    }

    /// The operation whose code has just been read; an unknown code skips
    /// one byte when there is one.
    pub open spec fn op_step(self, op: u8, c: CursorModel) -> ArenaStep {
        if op == 0x10 {
            self.op_add(c)
        } else if op == 0x11 {
            self.op_link(c)
        } else if op == 0x12 {
            self.op_evict(c)
        } else if op == 0x13 {
            self.op_mark(c)
        } else {
            (Ok(()), c.read_u8().1, self)
        }
    }

    pub open spec fn ops_from(self, c: CursorModel) -> (Result<()>, ArenaView)
        decreases c.remaining(),
    {
        if c.remaining() <= 0 {
            (Ok(()), self)
        } else {
            match c.read_u8() {
                (Err(e), _) => (Err(e), self),
                (Ok(op), c1) => {
                    let (r, c2, a2) = self.op_step(op, c1);
                    match r {
                        Err(e) => (Err(e), a2),
                        Ok(()) => {
                            proof {
                                lemma_arena_step_forward(self, op, c1);
                            }
                            a2.ops_from(c2)
                        },
                    }
                },
            }
        }
    }

    pub open spec fn parse_ops(self, input: Seq<u8>) -> (Result<()>, ArenaView) {
        self.ops_from(CursorModel::fresh(input, "attachment ops"))
    }

    pub open spec fn handle(self, slot: int) -> Option<HandleView> {
        if 0 <= slot < self.handles.len() { self.handles[slot] } else { None }
    }

    /// The bytes of a linked slot, when non-empty and at most 1 MiB.
    pub open spec fn read_handle(self, slot: int) -> Option<Seq<u8>> {
        match self.handle(slot) {
            Some(h) => if h.bytes.len() == 0 || h.bytes.len() > 0x10_0000 { None } else { Some(h.bytes) },
            None => None,
        }
    }

    /// The digest of a linked slot, keyed by its epoch.
    pub open spec fn handle_digest(self, slot: int) -> Option<u64> {
        match self.handle(slot) {
            Some(h) => Some(fold64_spec(h.digest ^ (h.epoch as u64), h.bytes)),
            None => None,
        }
    }

    pub open spec fn handle_kind(self, slot: int) -> Option<AttachmentKind> {
        match self.handle(slot) {
            Some(h) => Some(h.kind),
            None => None,
        }
    }
}

pub proof fn lemma_arena_step_forward(a: ArenaView, op: u8, c: CursorModel)
    ensures
        forward(c, a.op_step(op, c).1),
{
    if op == 0x11 {
        if let (Ok(_), c1) = c.read_u8() {
            lemma_var_forward(c1, 0, 0);
        }
    } else if op == 0x13 {
        lemma_var_forward(c, 0, 0);
    }
}

/// The 128 handle slots of an arena.
#[derive(Debug)]
struct HandleSlots {
    slots: Vec<Option<AttachmentHandle>>,
}

impl Clone for HandleSlots {
    fn clone(&self) -> (r: Self) {
        proof {
            use_type_invariant(self);
        }
        HandleSlots { slots: self.slots.clone() }
    }
}

impl View for HandleSlots {
    type V = Seq<Option<HandleView>>;

    closed spec fn view(&self) -> Seq<Option<HandleView>> {
        self.slots@.map_values(|h: Option<AttachmentHandle>| handle_view(h))
    }
}

impl HandleSlots {
    /// There are always 128 slots.
    #[verifier::type_invariant]
    closed spec fn inv(self) -> bool {
        self.slots@.len() == 128
    }

    fn empty() -> (r: Self)
        ensures
            r@ == Seq::new(128, |i: int| None::<HandleView>),
    {
        let mut slots: Vec<Option<AttachmentHandle>> = Vec::new();
        let mut i: usize = 0;
        while i < 128
            invariant
                0 <= i <= 128,
                slots@.len() == i,
                forall|k: int| 0 <= k < i ==> slots@[k] is None,
            decreases 128 - i,
        {
            slots.push(None);
            i = i + 1;
        }
        let r = HandleSlots { slots };
        assert(r@ =~= Seq::new(128, |i: int| None::<HandleView>));
        r
    }

    fn count(&self) -> (r: usize)
        ensures
            r == 128,
            self@.len() == 128,
    {
        proof {
            use_type_invariant(self);
        }
        self.slots.len()
    }

    fn slot(&self, i: usize) -> (r: &Option<AttachmentHandle>)
        requires
            i < 128,
        ensures
            handle_view(*r) == self@[i as int],
    {
        proof {
            use_type_invariant(self);
        }
        &self.slots[i]
    }

    fn put(&mut self, i: usize, h: Option<AttachmentHandle>)
        requires
            i < 128,
        ensures
            final(self)@ == old(self)@.update(i as int, handle_view(h)),
    {
        proof {
            use_type_invariant(&*self);
        }
        self.slots[i] = h;
        assert(self@ =~= old(self)@.update(i as int, handle_view(h)));
    }
}

/// Attachment slabs with slots linked to them and epoch-based eviction.
#[derive(Debug, Clone)]
pub struct AttachmentArena {
    slabs: Vec<Slab>,
    handles: HandleSlots,
    epoch: u32,
    retained_bytes: usize,
}

spec fn slab_views(s: Seq<Slab>) -> Seq<SlabView> {
    s.map_values(|x: Slab| x@)
}

impl View for AttachmentArena {
    type V = ArenaView;

    closed spec fn view(&self) -> ArenaView {
        ArenaView {
            slabs: slab_views(self.slabs@),
            handles: self.handles@,
            epoch: self.epoch,
            retained_bytes: self.retained_bytes,
        }
    }
}

impl Default for AttachmentArena {
    fn default() -> (r: Self)
        ensures
            r@ == ArenaView::empty(),
    {
        Self::new()
    }
}

impl AttachmentArena {
    pub fn new() -> (r: Self)
        ensures
            r@ == ArenaView::empty(),
    {
        let handles = HandleSlots::empty();
        let r = Self { slabs: Vec::new(), handles, epoch: 1, retained_bytes: 0 };
        assert(r@.slabs =~= ArenaView::empty().slabs);
        assert(r@.handles =~= ArenaView::empty().handles);
        r
    }

    /// Runs the attachment operations encoded in `input`.
    pub fn parse_ops(&mut self, input: &[u8]) -> (r: Result<()>)
        ensures
            (r, final(self)@) == old(self)@.parse_ops(input@),
    {
        let mut cur = ByteCursor::new(input, "attachment ops");
        while cur.remaining() > 0
            invariant
                old(self)@.parse_ops(input@) == self@.ops_from(cur@),
            decreases cur@.remaining(),
        {
            let ghost a0 = self@;
            let op = match cur.read_u8() {
                Ok(op) => op,
                Err(e) => {
                    return Err(e);
                },
            };
            let ghost c1 = cur@;
            let r = if op == 0x10 {
                self.op_add(&mut cur)
            } else if op == 0x11 {
                self.op_link(&mut cur)
            } else if op == 0x12 {
                self.op_evict(&mut cur)
            } else if op == 0x13 {
                self.op_mark(&mut cur)
            } else {
                let _ = cur.read_u8();
                Ok(())
            };
            assert((r, cur@, self@) == a0.op_step(op, c1));
            match r {
                Ok(()) => {},
                Err(e) => {
                    return Err(e);
                },
            }
            proof {
                lemma_arena_step_forward(a0, op, c1);
            }
        }
        Ok(())
    }

    fn op_add(&mut self, cur: &mut ByteCursor<'_>) -> (r: Result<()>)
        ensures
            (r, final(cur)@, final(self)@) == old(self)@.op_add(old(cur)@),
    {
        let kind = AttachmentKind::from_byte(cur.read_u8()?);
        let flags = cur.read_u8()?;
        let len = cur.read_u16()? as usize;
        if len > 4096 {
            return Err(VoltError::LimitExceeded("attachment block"));
        }
        let taken = cur.take(len)?;
        let bytes = copy_bytes(taken);
        let idx = self.add(kind, bytes, flags & 1 != 0);
        if flags & 0x80 != 0 {
            let slot = (flags & 0x7f) as usize;
            self.link(slot, idx);
        }
        Ok(())
    }

    fn op_link(&mut self, cur: &mut ByteCursor<'_>) -> (r: Result<()>)
        ensures
            (r, final(cur)@, final(self)@) == old(self)@.op_link(old(cur)@),
    {
        let slot = cur.read_u8()? as usize;
        let slab = cur.read_var_u32()? as usize;
        self.link(slot, slab);
        Ok(())
    }

    fn op_evict(&mut self, cur: &mut ByteCursor<'_>) -> (r: Result<()>)
        ensures
            (r, final(cur)@, final(self)@) == old(self)@.op_evict(old(cur)@),
    {
        let max_epoch = cur.read_u32()?;
        let flags = cur.read_u8()?;
        self.evict(max_epoch, flags);
        Ok(())
    }

    fn op_mark(&mut self, cur: &mut ByteCursor<'_>) -> (r: Result<()>)
        ensures
            (r, final(cur)@, final(self)@) == old(self)@.op_mark(old(cur)@),
    {
        let slab = cur.read_var_u32()? as usize;
        let retained = cur.read_u8()? & 1 != 0;
        if slab < self.slabs.len() {
            let ghost a0 = self@;
            let mut s = self.slabs.remove(slab);
            s.retained = retained;
            self.slabs.insert(slab, s);
            assert(self@.slabs =~= a0.mark(slab as int, retained).slabs);
            assert(self@.handles =~= a0.handles);
        }
        Ok(())
    }

    /// Adds a slab in the current epoch and advances the epoch; returns its
    /// index.
    pub fn add(&mut self, kind: AttachmentKind, bytes: Vec<u8>, retained: bool) -> (r: usize)
        ensures
            final(self)@ == old(self)@.add(kind, bytes@, retained),
            r == old(self)@.slabs.len(),
    {
        let ghost a0 = self@;
        let ghost b = bytes@;
        let epoch = self.epoch;
        self.epoch = self.epoch.wrapping_add(1);
        self.retained_bytes = self.retained_bytes.saturating_add(bytes.len());
        self.slabs.push(Slab { kind, epoch, bytes, retained });
        assert(self@.slabs =~= a0.add(kind, b, retained).slabs);
        assert(self@.handles =~= a0.handles);
        self.slabs.len() - 1
    }

    /// Links `slot` to slab `slab_index`; out-of-range slots or indices are
    /// ignored.
    pub fn link(&mut self, slot: usize, slab_index: usize)
        ensures
            old(self)@.handles.len() == 128,
            final(self)@ == old(self)@.link(slot as int, slab_index as int),
    {
        if slot >= self.handles.count() || slab_index >= self.slabs.len() {
            return;
        }
        let ghost a0 = self@;
        let bytes = copy_bytes(self.slabs[slab_index].bytes.as_slice());
        let digest = fold64(0xcbf2_9ce4_8422_2325, bytes.as_slice());
        let handle = AttachmentHandle {
            bytes,
            digest,
            epoch: self.slabs[slab_index].epoch,
            kind: self.slabs[slab_index].kind,
        };
        self.handles.put(slot, Some(handle));
        assert(self@.handles =~= a0.link(slot as int, slab_index as int).handles);
        assert(self@.slabs =~= a0.slabs);
    }

    /// Drops every slab that is not retained, is from an epoch up to
    /// `max_epoch`, and (under flag 0x02) is not shorter than 16 bytes.
    pub fn evict(&mut self, max_epoch: u32, flags: u8)
        ensures
            final(self)@ == old(self)@.evict(max_epoch, flags),
    {
        let ghost a0 = self@;
        let before = self.slabs.len();
        let mut slabs: Vec<Slab> = Vec::new();
        core::mem::swap(&mut slabs, &mut self.slabs);
        let ghost orig = slabs@;
        let n = slabs.len();
        let mut rev = reversed(slabs);
        let mut out: Vec<Slab> = Vec::new();
        let mut i: usize = 0;
        while rev.len() > 0
            invariant
                rev@.len() + i == orig.len(),
                orig.len() == n,
                forall|k: int| 0 <= k < rev@.len() ==> rev@[k] == orig[orig.len() - 1 - k],
                slab_views(out@) == keep_survivors(slab_views(orig.take(i as int)), max_epoch, flags),
            decreases rev.len(),
        {
            let s = rev.pop().unwrap();
            assert(s == orig[i as int]);
            assert(slab_views(orig.take(i + 1)).drop_last() =~= slab_views(orig.take(i as int)));
            if s.retained || s.epoch > max_epoch || (flags & 0x02 != 0 && s.bytes.len() < 16) {
                out.push(s);
                assert(slab_views(out@) =~= keep_survivors(slab_views(orig.take(i as int)), max_epoch, flags).push(s@));
            }
            i = i + 1;
        }
        assert(orig.take(orig.len() as int) == orig);
        self.slabs = out;
        if before != self.slabs.len() {
            let mut total: usize = 0;
            let mut j: usize = 0;
            while j < self.slabs.len()
                invariant
                    0 <= j <= self.slabs@.len(),
                    total == slab_bytes(slab_views(self.slabs@).take(j as int)),
                decreases self.slabs@.len() - j,
            {
                assert(slab_views(self.slabs@).take(j + 1).drop_last() =~= slab_views(self.slabs@).take(j as int));
                total = total.saturating_add(self.slabs[j].bytes.len());
                j = j + 1;
            }
            assert(slab_views(self.slabs@).take(self.slabs@.len() as int) =~= slab_views(self.slabs@));
            self.retained_bytes = total;
        }
        assert(self@.handles =~= a0.handles);
    }

    /// A copy of the bytes linked to `slot`, when non-empty and at most 1 MiB.
    pub fn read_handle(&self, slot: usize) -> (r: Option<Vec<u8>>)
        ensures
            self@.handles.len() == 128,
            match r {
                Some(v) => self@.read_handle(slot as int) == Some(v@),
                None => self@.read_handle(slot as int) is None,
            },
    {
        if slot >= self.handles.count() {
            return None;
        }
        match self.handles.slot(slot) {
            None => None,
            Some(h) => {
                if h.bytes.len() == 0 || h.bytes.len() > 0x10_0000 {
                    None
                } else {
                    Some(copy_bytes(h.bytes.as_slice()))
                }
            },
        }
    }

    /// The digest of the bytes linked to `slot`, keyed by the handle's
    /// digest and epoch.
    pub fn handle_digest(&self, slot: usize) -> (r: Option<u64>)
        ensures
            self@.handles.len() == 128,
            r == self@.handle_digest(slot as int),
    {
        if slot >= self.handles.count() {
            return None;
        }
        match self.handles.slot(slot) {
            None => None,
            Some(h) => Some(fold64(h.digest ^ (h.epoch as u64), h.bytes.as_slice())),
        }
    }

    pub fn handle_kind(&self, slot: usize) -> (r: Option<AttachmentKind>)
        ensures
            self@.handles.len() == 128,
            r == self@.handle_kind(slot as int),
    {
        if slot >= self.handles.count() {
            return None;
        }
        match self.handles.slot(slot) {
            None => None,
            Some(h) => Some(h.kind),
        }
    }

    pub fn retained_bytes(&self) -> (r: usize)
        ensures
            r == self@.retained_bytes,
    {
        self.retained_bytes
    }

    pub fn slab_count(&self) -> (r: usize)
        ensures
            r == self@.slabs.len(),
    {
        self.slabs.len()
    }
}

proof fn lemma_keep_survivors(s: Seq<SlabView>, max_epoch: u32, flags: u8)
    ensures
        keep_survivors(s, max_epoch, flags).len() <= s.len(),
        forall|i: int| 0 <= i < s.len() && survives(s[i], max_epoch, flags) ==> keep_survivors(s, max_epoch, flags).contains(#[trigger] s[i]),
        forall|k: int| 0 <= k < keep_survivors(s, max_epoch, flags).len() ==> survives(#[trigger] keep_survivors(s, max_epoch, flags)[k], max_epoch, flags),
    decreases s.len(),
{
    if s.len() > 0 {
        let p = s.drop_last();
        lemma_keep_survivors(p, max_epoch, flags);
        let k0 = keep_survivors(p, max_epoch, flags);
        let k1 = keep_survivors(s, max_epoch, flags);
        assert forall|i: int| 0 <= i < s.len() && survives(s[i], max_epoch, flags) implies k1.contains(#[trigger] s[i]) by {
            if i < s.len() - 1 {
                assert(s[i] == p[i]);
                assert(k0.contains(p[i]));
                let w = choose|w: int| 0 <= w < k0.len() && k0[w] == p[i];
                assert(k1[w] == k0[w]);
            } else {
                assert(k1[k1.len() - 1] == s.last());
            }
        }
        assert forall|k: int| 0 <= k < k1.len() implies survives(#[trigger] k1[k], max_epoch, flags) by {
            if k < k0.len() {
                assert(k1[k] == k0[k]);
            }
        }
    }
}

/// Eviction never adds slabs, keeps every slab that survives it (retained
/// ones, those newer than the cut-off epoch, and with flag 0x02 those under
/// 16 bytes), and keeps nothing else.
pub proof fn eviction_keeps_survivors(a: ArenaView, max_epoch: u32, flags: u8)
    ensures
        a.evict(max_epoch, flags).slabs.len() <= a.slabs.len(),
        forall|i: int| 0 <= i < a.slabs.len() && survives(a.slabs[i], max_epoch, flags) ==> a.evict(max_epoch, flags).slabs.contains(#[trigger] a.slabs[i]),
        forall|k: int| 0 <= k < a.evict(max_epoch, flags).slabs.len() ==> survives(#[trigger] a.evict(max_epoch, flags).slabs[k], max_epoch, flags),
        a.evict(max_epoch, flags).handles == a.handles,
{
    lemma_keep_survivors(a.slabs, max_epoch, flags);
}

/// Linking a slot to a slab and reading the slot gives the slab's bytes,
/// when they are non-empty and at most 1 MiB, and its kind; other slots are
/// untouched.
pub proof fn linked_slot_reads_slab(a: ArenaView, slot: int, idx: int)
    requires
        0 <= slot < a.handles.len(),
        0 <= idx < a.slabs.len(),
    ensures
        a.link(slot, idx).read_handle(slot) == (if 0 < a.slabs[idx].bytes.len() <= 0x10_0000 {
            Some(a.slabs[idx].bytes)
        } else {
            None
        }),
        a.link(slot, idx).handle_kind(slot) == Some(a.slabs[idx].kind),
        forall|other: int| other != slot ==> #[trigger] a.link(slot, idx).handle(other) == a.handle(other),
{
}

/// The total length of the slabs' bytes, without saturation.
pub open spec fn total_len(s: Seq<SlabView>) -> int
    decreases s.len(),
{
    if s.len() == 0 {
        0
    } else {
        total_len(s.drop_last()) + s.last().bytes.len()
    }
}

/// The arena's bookkeeping is right: its retained byte count is the
/// (saturating) total length of its slabs, and it has 128 handle slots.
pub open spec fn accounted(a: ArenaView) -> bool {
    a.retained_bytes == slab_bytes(a.slabs) && a.handles.len() == 128
}

proof fn lemma_slab_bytes_by_lengths(s1: Seq<SlabView>, s2: Seq<SlabView>)
    requires
        s1.len() == s2.len(),
        forall|i: int| 0 <= i < s1.len() ==> (#[trigger] s1[i]).bytes.len() == s2[i].bytes.len(),
    ensures
        slab_bytes(s1) == slab_bytes(s2),
    decreases s1.len(),
{
    if s1.len() > 0 {
        let p1 = s1.drop_last();
        let p2 = s2.drop_last();
        assert forall|i: int| 0 <= i < p1.len() implies (#[trigger] p1[i]).bytes.len() == p2[i].bytes.len() by {
            assert(p1[i] == s1[i] && p2[i] == s2[i]);
        }
        lemma_slab_bytes_by_lengths(p1, p2);
        assert(s1.last() == s1[s1.len() - 1] && s2.last() == s2[s2.len() - 1]);
    }
}

proof fn lemma_keep_all(s: Seq<SlabView>, max_epoch: u32, flags: u8)
    requires
        keep_survivors(s, max_epoch, flags).len() == s.len(),
    ensures
        keep_survivors(s, max_epoch, flags) == s,
    decreases s.len(),
{
    if s.len() > 0 {
        let p = s.drop_last();
        lemma_keep_survivors(p, max_epoch, flags);
        if survives(s.last(), max_epoch, flags) {
            lemma_keep_all(p, max_epoch, flags);
            assert(p.push(s.last()) =~= s);
        }
    }
}

proof fn lemma_slab_bytes_total(s: Seq<SlabView>)
    requires
        total_len(s) <= usize::MAX,
    ensures
        slab_bytes(s) as int == total_len(s),
    decreases s.len(),
{
    if s.len() > 0 {
        lemma_slab_bytes_total(s.drop_last());
    }
}

/// Adding, linking, evicting and marking keep the bookkeeping right.
pub proof fn lemma_ops_keep_accounting(a: ArenaView)
    requires
        accounted(a),
    ensures
        forall|kind: AttachmentKind, bytes: Seq<u8>, retained: bool| #[trigger] accounted(a.add(kind, bytes, retained)),
        forall|slot: int, idx: int| #[trigger] accounted(a.link(slot, idx)),
        forall|max_epoch: u32, flags: u8| #[trigger] accounted(a.evict(max_epoch, flags)),
        forall|idx: int, retained: bool| #[trigger] accounted(a.mark(idx, retained)),
{
    assert forall|kind: AttachmentKind, bytes: Seq<u8>, retained: bool| #[trigger] accounted(a.add(kind, bytes, retained)) by {
        let s = a.add(kind, bytes, retained).slabs;
        assert(s.drop_last() =~= a.slabs);
    }
    assert forall|max_epoch: u32, flags: u8| #[trigger] accounted(a.evict(max_epoch, flags)) by {
        let kept = keep_survivors(a.slabs, max_epoch, flags);
        if kept.len() == a.slabs.len() {
            lemma_keep_all(a.slabs, max_epoch, flags);
        }
    }
    assert forall|idx: int, retained: bool| #[trigger] accounted(a.mark(idx, retained)) by {
        if 0 <= idx < a.slabs.len() {
            lemma_slab_bytes_by_lengths(a.mark(idx, retained).slabs, a.slabs);
        }
    }
}

proof fn lemma_ops_from_accounted(a: ArenaView, c: CursorModel)
    requires
        accounted(a),
    ensures
        accounted(a.ops_from(c).1),
    decreases c.remaining(),
{
    lemma_ops_keep_accounting(a);
    if c.remaining() > 0 {
        let (rop, c1) = c.read_u8();
        if let Ok(op) = rop {
            let (r, c2, a2) = a.op_step(op, c1);
            if op == 0x10 {
                if a2 != a {
                    let (rk, ck) = c1.read_u8();
                    let (rf, cf) = ck.read_u8();
                    let (rl, cl) = cf.read_u16();
                    let b = cl.take(rl->Ok_0 as int).0->Ok_0;
                    let a1 = a.add(attachment_kind(rk->Ok_0), b, rf->Ok_0 & 1u8 != 0);
                    lemma_ops_keep_accounting(a1);
                }
            }
            if r is Ok {
                lemma_arena_step_forward(a, op, c1);
                lemma_ops_from_accounted(a2, c2);
            }
        }
    }
}

/// A call on an arena.
pub enum ArenaCall {
    Add { kind: AttachmentKind, bytes: Seq<u8>, retained: bool },
    Link { slot: usize, index: usize },
    Evict { max_epoch: u32, flags: u8 },
    Ops { input: Seq<u8> },
}

/// The arena after a call (whatever `parse_ops` returns).
pub open spec fn apply_call(a: ArenaView, call: ArenaCall) -> ArenaView {
    match call {
        ArenaCall::Add { kind, bytes, retained } => a.add(kind, bytes, retained),
        ArenaCall::Link { slot, index } => a.link(slot as int, index as int),
        ArenaCall::Evict { max_epoch, flags } => a.evict(max_epoch, flags),
        ArenaCall::Ops { input } => a.parse_ops(input).1,
    }
}

/// The arena after a sequence of calls, in order.
pub open spec fn apply_calls(a: ArenaView, calls: Seq<ArenaCall>) -> ArenaView
    decreases calls.len(),
{
    if calls.len() == 0 {
        a
    } else {
        apply_call(apply_calls(a, calls.drop_last()), calls.last())
    }
}

/// After any sequence of calls on a new arena, the retained byte count is
/// the total length of the live slabs (saturating at `usize::MAX`, and
/// exact when the total fits), and there are 128 handle slots.
pub proof fn retained_bytes_accounting(calls: Seq<ArenaCall>)
    ensures
        accounted(apply_calls(ArenaView::empty(), calls)),
        total_len(apply_calls(ArenaView::empty(), calls).slabs) <= usize::MAX ==> apply_calls(
            ArenaView::empty(),
            calls,
        ).retained_bytes == total_len(apply_calls(ArenaView::empty(), calls).slabs),
    decreases calls.len(),
{
    let a = apply_calls(ArenaView::empty(), calls);
    if calls.len() > 0 {
        retained_bytes_accounting(calls.drop_last());
        let prev = apply_calls(ArenaView::empty(), calls.drop_last());
        lemma_ops_keep_accounting(prev);
        match calls.last() {
            ArenaCall::Ops { input } => lemma_ops_from_accounted(prev, CursorModel::fresh(input, "attachment ops")),
            _ => {},
        }
    }
    if total_len(a.slabs) <= usize::MAX {
        lemma_slab_bytes_total(a.slabs);
    }
}

/// Whether a call may relink `slot`: a link to it, or a run of encoded
/// operations.
pub open spec fn relinks(call: ArenaCall, slot: int) -> bool {
    match call {
        ArenaCall::Link { slot: s, index: _ } => s as int == slot,
        ArenaCall::Ops { input: _ } => true,
        _ => false,
    }
}

/// Once linked, a slot reads the bytes and kind its slab had when it was
/// linked, whatever slabs are added or evicted and other slots linked after.
pub proof fn linked_slot_survives_calls(a: ArenaView, slot: int, idx: int, rest: Seq<ArenaCall>)
    requires
        0 <= slot < a.handles.len(),
        0 <= idx < a.slabs.len(),
        forall|k: int| 0 <= k < rest.len() ==> !relinks(#[trigger] rest[k], slot),
    ensures
        apply_calls(a.link(slot, idx), rest).read_handle(slot) == (if 0 < a.slabs[idx].bytes.len() <= 0x10_0000 {
            Some(a.slabs[idx].bytes)
        } else {
            None
        }),
        apply_calls(a.link(slot, idx), rest).handle_kind(slot) == Some(a.slabs[idx].kind),
    decreases rest.len(),
{
    if rest.len() > 0 {
        let p = rest.drop_last();
        assert forall|k: int| 0 <= k < p.len() implies !relinks(#[trigger] p[k], slot) by {
            assert(p[k] == rest[k]);
        }
        linked_slot_survives_calls(a, slot, idx, p);
        assert(!relinks(rest[rest.len() - 1], slot));
        let prev = apply_calls(a.link(slot, idx), p);
        match rest.last() {
            ArenaCall::Add { kind, bytes, retained } => {},
            ArenaCall::Link { slot: s, index } => {},
            ArenaCall::Evict { max_epoch, flags } => {},
            ArenaCall::Ops { input } => {},
        }
    }
}

} // verus!
