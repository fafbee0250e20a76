use vstd::prelude::*;
use vstd::slice::slice_subrange;
use vstd::utf8::{decode_utf8, valid_utf8};
use crate::checksum::{rolling_score_spec, rolling_window_score};
use crate::cursor::{ByteCursor, CursorModel, bytes_res};
use crate::error::{Result, VoltError};
use crate::text::{lossy_utf8, utf8_lossy};

verus! {

/// The class of a dictionary token.
#[derive(Debug, Clone, Copy, PartialEq, Eq, Structural)]
pub enum TokenClass {
    Station,
    Operator,
    Payment,
    Firmware,
    Meter,
    Route,
    Unknown(u8),
}

pub open spec fn token_class(b: u8) -> TokenClass {
    match b {
        0 => TokenClass::Station,
        1 => TokenClass::Operator,
        2 => TokenClass::Payment,
        3 => TokenClass::Firmware,
        4 => TokenClass::Meter,
        5 => TokenClass::Route,
        x => TokenClass::Unknown(x),
    }
}

impl TokenClass {
    pub fn from_byte(b: u8) -> (r: Self)
        ensures
            r == token_class(b),
    {
        match b {
            0 => TokenClass::Station,
            1 => TokenClass::Operator,
            2 => TokenClass::Payment,
            3 => TokenClass::Firmware,
            4 => TokenClass::Meter,
            5 => TokenClass::Route,
            x => TokenClass::Unknown(x),
        }
    }
}

/// An interned token. Its serial number tells it apart from every token
/// interned before or after it in the same dictionary.
#[derive(Debug, Clone)]
pub struct TokenEntry {
    pub class: TokenClass,
    pub scope: u16,
    pub score: u16,
    pub bytes: Vec<u8>,
    serial: u64,
}

pub struct TokenEntryView {
    pub class: TokenClass,
    pub scope: u16,
    pub score: u16,
    pub bytes: Seq<u8>,
    pub serial: u64,
}

impl View for TokenEntry {
    type V = TokenEntryView;

    closed spec fn view(&self) -> TokenEntryView {
        TokenEntryView {
            class: self.class,
            scope: self.scope,
            score: self.score,
            bytes: self.bytes@,
            serial: self.serial,
        }
    }
}

/// An alias slot's binding: the serial of the token it names, the token's
/// bytes as far as they reached when it was bound (kept up to date when the
/// token is patched), and the checksum, class and scope it had then.
#[derive(Debug, Clone)]
pub struct TokenRef {
    bytes: Vec<u8>,
    checksum: u32,
    class: TokenClass,
    scope: u16,
    serial: u64,
}

pub struct TokenRefView {
    pub bytes: Seq<u8>,
    pub checksum: u32,
    pub class: TokenClass,
    pub scope: u16,
    pub serial: u64,
}

impl View for TokenRef {
    type V = TokenRefView;

    closed spec fn view(&self) -> TokenRefView {
        TokenRefView {
            bytes: self.bytes@,
            checksum: self.checksum,
            class: self.class,
            scope: self.scope,
            serial: self.serial,
        }
    }
}

pub open spec fn alias_view(a: Option<TokenRef>) -> Option<TokenRefView> {
    match a {
        Some(t) => Some(t@),
        None => None,
    }
}

/// The abstract dictionary: its entries, alias slots, audit trail, active
/// scope, compaction count and the serial the next token gets.
pub struct DictView {
    pub entries: Seq<TokenEntryView>,
    pub aliases: Seq<Option<TokenRefView>>,
    pub audit: Seq<u32>,
    pub active_scope: u16,
    pub compactions: u32,
    pub next_serial: u64,
}

pub open spec fn wrap_inc64(x: u64) -> u64 {
    if x == 0xffff_ffff_ffff_ffffu64 { 0 } else { (x + 1) as u64 }
}

/// What patching the token with `serial` to `bytes` does to an alias slot:
/// a binding to that token sees the new bytes over the length it was bound
/// with; other slots are unchanged.
pub open spec fn refresh_alias(a: Option<TokenRefView>, serial: u64, bytes: Seq<u8>) -> Option<TokenRefView> {
    match a {
        Some(t) => if t.serial == serial {
            Some(
                TokenRefView {
                    bytes: if t.bytes.len() <= bytes.len() { bytes.take(t.bytes.len() as int) } else { bytes },
                    ..t
                },
            )
        } else {
            a
        },
        None => None,
    }
}

/// The largest token the dictionary accepts from an intern operation.
pub open spec fn max_token_len() -> int {
    96
}

pub open spec fn wrap_inc32(x: u32) -> u32 {
    if x == 0xffff_ffffu32 { 0 } else { (x + 1) as u32 }
}

/// Entries that `compact` keeps under flag 0x01.
pub open spec fn keeps_scope(e: TokenEntryView, scope: u16, threshold: u16) -> bool {
    e.scope == scope || e.score >= threshold
}

/// Entries that `compact` keeps under flag 0x02.
pub open spec fn keeps_nonzero(e: TokenEntryView) -> bool {
    e.bytes.len() > 0 && e.bytes[0] != 0
}

pub open spec fn filter_scope(s: Seq<TokenEntryView>, scope: u16, threshold: u16) -> Seq<TokenEntryView>
    decreases s.len(),
{
    if s.len() == 0 {
        s
    } else {
        let f = filter_scope(s.drop_last(), scope, threshold);
        if keeps_scope(s.last(), scope, threshold) { f.push(s.last()) } else { f }
    }
}

pub open spec fn filter_nonzero(s: Seq<TokenEntryView>) -> Seq<TokenEntryView>
    decreases s.len(),
{
    if s.len() == 0 {
        s
    } else {
        let f = filter_nonzero(s.drop_last());
        if keeps_nonzero(s.last()) { f.push(s.last()) } else { f }
    }
}

/// The sort key of flag 0x04: scope, score, then length truncated to 16 bits.
pub open spec fn key_gt(a: TokenEntryView, b: TokenEntryView) -> bool {
    let la = a.bytes.len() as u16;
    let lb = b.bytes.len() as u16;
    a.scope > b.scope || (a.scope == b.scope && (a.score > b.score || (a.score == b.score && la
        > lb)))
}

/// Where a stable insertion puts `e`: before the first entry whose key is
/// greater.
pub open spec fn insert_pos(s: Seq<TokenEntryView>, e: TokenEntryView) -> int
    decreases s.len(),
{
    if s.len() == 0 {
        0
    } else if key_gt(s[0], e) {
        0
    } else {
        1 + insert_pos(s.drop_first(), e)
    }
}

pub open spec fn insert_sorted(s: Seq<TokenEntryView>, e: TokenEntryView) -> Seq<TokenEntryView> {
    let j = insert_pos(s, e);
    s.take(j).push(e) + s.skip(j)
}

/// The stable sort of `s` by key.
pub open spec fn sort_entries(s: Seq<TokenEntryView>) -> Seq<TokenEntryView>
    decreases s.len(),
{
    if s.len() == 0 {
        s
    } else {
        insert_sorted(sort_entries(s.drop_last()), s.last())
    }
}

/// Whether `dedup_by` merges `a` into the kept entry `b`.
pub open spec fn same_token(a: TokenEntryView, b: TokenEntryView) -> bool {
    a.scope == b.scope && a.bytes == b.bytes
}

/// Drops each entry equal (scope and bytes) to the last kept one.
pub open spec fn dedup_entries(s: Seq<TokenEntryView>) -> Seq<TokenEntryView>
    decreases s.len(),
{
    if s.len() == 0 {
        s
    } else {
        let d = dedup_entries(s.drop_last());
        if d.len() > 0 && same_token(s.last(), d.last()) { d } else { d.push(s.last()) }
    }
}

/// The bytes of a token after a patch: xor over the first bytes, then
/// append the rest while the token is shorter than the limit.
pub open spec fn patch_bytes(bytes: Seq<u8>, patch: Seq<u8>) -> Seq<u8>
    decreases patch.len(),
{
    if patch.len() == 0 {
        bytes
    } else {
        let b = patch_bytes(bytes, patch.drop_last());
        let idx = patch.len() - 1;
        if idx < b.len() {
            b.update(idx, b[idx] ^ patch.last())
        } else if b.len() < max_token_len() {
            b.push(patch.last())
        } else {
            b
        }
    }
}

/// `x.rotate_left(k)` for `k` below 32.
pub open spec fn rotl32(x: u32, k: u32) -> u32 {
    if k == 0 { x } else { (x << k) | (x >> (32u32 - k)) }
}

/// The audit hash of a trail.
pub open spec fn audit_fold(s: Seq<u32>) -> u32
    decreases s.len(),
{
    if s.len() == 0 {
        0x811c_9dc5u32
    } else {
        rotl32(audit_fold(s.drop_last()), 5) ^ s.last()
    }
}

/// One step of an operation parser: its result, the cursor after it and the
/// dictionary after it.
pub type DictStep = (Result<()>, CursorModel, DictView);

impl DictView {
    pub open spec fn empty() -> DictView {
        DictView {
            entries: seq![],
            aliases: Seq::new(64, |i: int| None),
            audit: seq![],
            active_scope: 0,
            compactions: 0,
            next_serial: 0,
        }
    }

    pub open spec fn intern(self, class: TokenClass, scope: u16, score: u16, bytes: Seq<u8>) -> DictView {
        DictView {
            entries: self.entries.push(TokenEntryView { class, scope, score, bytes, serial: self.next_serial }),
            audit: self.audit.push(rolling_score_spec(bytes)),
            next_serial: wrap_inc64(self.next_serial),
            ..self
        }
    }

    pub open spec fn bind_alias(self, slot: int, id: int) -> DictView {
        if slot < 0 || slot >= self.aliases.len() || id < 0 || id >= self.entries.len() {
            self
        } else {
            let e = self.entries[id];
            DictView {
                aliases: self.aliases.update(
                    slot,
                    Some(
                        TokenRefView {
                            bytes: e.bytes,
                            checksum: rolling_score_spec(e.bytes),
                            class: e.class,
                            scope: e.scope,
                            serial: e.serial,
                        },
                    ),
                ),
                ..self
            }
        }
    }

    pub open spec fn compact(self, flags: u8, threshold: u16) -> DictView {
        let e1 = if flags & 1u8 != 0 {
            filter_scope(self.entries, self.active_scope, threshold)
        } else {
            self.entries
        };
        let e2 = if flags & 2u8 != 0 { filter_nonzero(e1) } else { e1 };
        let e3 = if flags & 4u8 != 0 { sort_entries(e2) } else { e2 };
        let e4 = if flags & 8u8 != 0 { dedup_entries(e3) } else { e3 };
        DictView { entries: e4, compactions: wrap_inc32(self.compactions), ..self }
    }

    pub open spec fn set_scope(self, scope: u16) -> DictView {
        DictView {
            active_scope: scope,
            audit: self.audit.push(0x5300_0000u32 | (scope as u32)),
            ..self
        }
    }

    pub open spec fn patch(self, id: int, patch: Seq<u8>) -> DictView {
        if 0 <= id < self.entries.len() {
            let e = self.entries[id];
            let nb = patch_bytes(e.bytes, patch);
            DictView {
                entries: self.entries.update(
                    id,
                    TokenEntryView { bytes: nb, score: rolling_score_spec(nb) as u16, ..e },
                ),
                aliases: self.aliases.map_values(|a: Option<TokenRefView>| refresh_alias(a, e.serial, nb)),
                ..self
            }
        } else {
            self
        }
    }

    /// The bytes an alias slot resolves to: those of its binding, when it has
    /// one that is non-empty and at most 4096 bytes long.
    pub open spec fn resolve_alias(self, slot: int) -> Option<Seq<u8>> {
        if 0 <= slot < self.aliases.len() {
            match self.aliases[slot] {
                Some(t) => if 0 < t.bytes.len() <= 4096 { Some(t.bytes) } else { None },
                None => None,
            }
        } else {
            None
        }
    }

    /// The audit score of an alias slot: the rolling score of its bytes, xor
    /// its checksum, xor its scope; none for an unbound slot.
    pub open spec fn alias_score(self, slot: int) -> Option<u32> {
        if 0 <= slot < self.aliases.len() {
            match self.aliases[slot] {
                Some(t) => Some(rolling_score_spec(t.bytes) ^ t.checksum ^ (t.scope as u32)),
                None => None,
            }
        } else {
            None
        }
    }

    pub open spec fn audit_unknown(self, op: u8, pos: int) -> DictView {
        DictView { audit: self.audit.push(((op as u32) << 24u32) | (pos as u32)), ..self }
    }

    /// Operation 0x01: class, scope, score and a length-prefixed token.
    pub open spec fn op_intern(self, c: CursorModel) -> DictStep {
        match c.read_u8() {
            (Err(e), c1) => (Err(e), c1, self),
            (Ok(cl), c1) => match c1.read_u16() {
                (Err(e), c2) => (Err(e), c2, self),
                (Ok(scope), c2) => match c2.read_u16() {
                    (Err(e), c3) => (Err(e), c3, self),
                    (Ok(score), c3) => match c3.read_bytes_with_u8_len() {
                        (Err(e), c4) => (Err(e), c4, self),
                        (Ok(b), c4) => if b.len() > max_token_len() {
                            (Err(VoltError::LimitExceeded("dictionary token")), c4, self)
                        } else {
                            (Ok(()), c4, self.intern(token_class(cl), scope, score, b))
                        },
                    },
                },
            },
        }
    }

    /// Operation 0x02: alias slot and a variable-length entry index.
    pub open spec fn op_alias(self, c: CursorModel) -> DictStep {
        match c.read_u8() {
            (Err(e), c1) => (Err(e), c1, self),
            (Ok(slot), c1) => match c1.read_var_u32() {
                (Err(e), c2) => (Err(e), c2, self),
                (Ok(id), c2) => (Ok(()), c2, self.bind_alias(slot as int, id as int)),
            },
        }
    }

    /// Operation 0x03: the new active scope.
    pub open spec fn op_scope(self, c: CursorModel) -> DictStep {
        match c.read_u16() {
            (Err(e), c1) => (Err(e), c1, self),
            (Ok(scope), c1) => (Ok(()), c1, self.set_scope(scope)),
        }
    }

    /// Operation 0x04: compaction flags and threshold.
    pub open spec fn op_compact(self, c: CursorModel) -> DictStep {
        match c.read_u8() {
            (Err(e), c1) => (Err(e), c1, self),
            (Ok(flags), c1) => match c1.read_u16() {
                (Err(e), c2) => (Err(e), c2, self),
                (Ok(threshold), c2) => (Ok(()), c2, self.compact(flags, threshold)),
            },
        }
    }

    /// Operation 0x05: entry index, then a length-prefixed patch.
    pub open spec fn op_patch(self, c: CursorModel) -> DictStep {
        match c.read_var_u32() {
            (Err(e), c1) => (Err(e), c1, self),
            (Ok(id), c1) => match c1.read_bytes_with_u8_len() {
                (Err(e), c2) => (Err(e), c2, self),
                (Ok(p), c2) => (Ok(()), c2, self.patch(id as int, p)),
            },
        }
    }

    /// The tokens of an import block from its `i`-th on, `n` in all.
    pub open spec fn import_from(self, c: CursorModel, class: TokenClass, i: int, n: int) -> DictStep
        decreases n - i,
    {
        if i >= n || c.remaining() == 0 {
            (Ok(()), c, self)
        } else {
            match c.read_bytes_with_u8_len() {
                (Err(e), c1) => (Err(e), c1, self),
                (Ok(b), c1) => {
                    let score = ((rolling_score_spec(b) as int + i) as u32) as u16;
                    self.intern(class, self.active_scope, score, b).import_from(c1, class, i + 1, n)
                },
            }
        }
    }

    /// Operation 0x06: a count, a class, then up to 32 length-prefixed
    /// tokens interned in the active scope.
    pub open spec fn op_import_block(self, c: CursorModel) -> DictStep {
        match c.read_u8() {
            (Err(e), c1) => (Err(e), c1, self),
            (Ok(count), c1) => match c1.read_u8() {
                (Err(e), c2) => (Err(e), c2, self),
                (Ok(cl), c2) => {
                    let n = if count < 32 { count as int } else { 32 };
                    self.import_from(c2, token_class(cl), 0, n)
                },
            },
        }
    }

    /// The operation whose code has just been read from `c`.
    pub open spec fn op_step(self, op: u8, c: CursorModel) -> DictStep {
        if op == 1 {
            self.op_intern(c)
        } else if op == 2 {
            self.op_alias(c)
        } else if op == 3 {
            self.op_scope(c)
        } else if op == 4 {
            self.op_compact(c)
        } else if op == 5 {
            self.op_patch(c)
        } else if op == 6 {
            self.op_import_block(c)
        } else {
            (Ok(()), c, self.audit_unknown(op, c.pos))
        }
    }

    /// Running the operations that remain in `c`.
    pub open spec fn ops_from(self, c: CursorModel) -> (Result<()>, DictView)
        decreases c.remaining(),
    {
        if c.remaining() <= 0 {
            (Ok(()), self)
        } else {
            match c.read_u8() {
                (Err(e), _) => (Err(e), self),
                (Ok(op), c1) => {
                    let (r, c2, d2) = self.op_step(op, c1);
                    match r {
                        Err(e) => (Err(e), d2),
                        Ok(()) => {
                            proof {
                                lemma_op_step_forward(self, op, c1);
                            }
                            d2.ops_from(c2)
                        },
                    }
                },
            }
        }
    }

    /// Running the operations of a whole input.
    pub open spec fn parse_ops(self, input: Seq<u8>) -> (Result<()>, DictView) {
        self.ops_from(CursorModel::fresh(input, "dictionary ops"))
    }
}

/// Reads of a cursor never move it back and keep its bytes.
pub open spec fn forward(c: CursorModel, c2: CursorModel) -> bool {
    c2.data == c.data && c2.ctx == c.ctx && c2.remaining() <= c.remaining()
}

pub proof fn lemma_take_forward(c: CursorModel, n: int)
    requires
        n >= 0,
    ensures
        forward(c, c.take(n).1),
{
}

pub proof fn lemma_var_forward(c: CursorModel, i: int, v: u32)
    ensures
        forward(c, c.var_u32_from(i, v).1),
    decreases 5 - i,
{
    if 0 <= i < 5 {
        if let (Ok(b), c1) = c.read_u8() {
            let v2 = v | (((b & 0x7fu8) as u32) << ((7 * i) as u32));
            if b & 0x80u8 != 0 {
                lemma_var_forward(c1, i + 1, v2);
            }
        }
    }
}

pub proof fn lemma_import_forward(d: DictView, c: CursorModel, class: TokenClass, i: int, n: int)
    ensures
        forward(c, d.import_from(c, class, i, n).1),
    decreases n - i,
{
    if !(i >= n || c.remaining() == 0) {
        if let (Ok(b), c1) = c.read_bytes_with_u8_len() {
            let score = ((rolling_score_spec(b) as int + i) as u32) as u16;
            lemma_import_forward(d.intern(class, d.active_scope, score, b), c1, class, i + 1, n);
        }
    }
}

pub proof fn lemma_op_step_forward(d: DictView, op: u8, c: CursorModel)
    ensures
        forward(c, d.op_step(op, c).1),
{
    if op == 2 {
        if let (Ok(_), c1) = c.read_u8() {
            lemma_var_forward(c1, 0, 0);
        }
    } else if op == 5 {
        lemma_var_forward(c, 0, 0);
    } else if op == 6 {
        if let (Ok(_), c1) = c.read_u8() {
            if let (Ok(cl), c2) = c1.read_u8() {
                let count = c.read_u8().0->Ok_0;
                let n = if count < 32 { count as int } else { 32 };
                lemma_import_forward(d, c2, token_class(cl), 0, n);
            }
        }
    }
}

/// The 64 alias slots of a dictionary.
#[derive(Debug)]
struct AliasSlots {
    slots: Vec<Option<TokenRef>>,
}

impl Clone for AliasSlots {
    fn clone(&self) -> (r: Self) {
        proof {
            use_type_invariant(self);
        }
        AliasSlots { slots: self.slots.clone() }
    }
}

impl View for AliasSlots {
    type V = Seq<Option<TokenRefView>>;

    closed spec fn view(&self) -> Seq<Option<TokenRefView>> {
        self.slots@.map_values(|a: Option<TokenRef>| alias_view(a))
    }
}

impl AliasSlots {
    /// There are always 64 slots.
    #[verifier::type_invariant]
    closed spec fn inv(self) -> bool {
        self.slots@.len() == 64
    }

    fn empty() -> (r: Self)
        ensures
            r@ == Seq::new(64, |i: int| None::<TokenRefView>),
    {
        let mut slots: Vec<Option<TokenRef>> = Vec::new();
        let mut i: usize = 0;
        while i < 64
            invariant
                0 <= i <= 64,
                slots@.len() == i,
                forall|k: int| 0 <= k < i ==> slots@[k] is None,
            decreases 64 - i,
        {
            slots.push(None);
            i = i + 1;
        }
        let r = AliasSlots { slots };
        assert(r@ =~= Seq::new(64, |i: int| None::<TokenRefView>));
        r
    }

    fn count(&self) -> (r: usize)
        ensures
            r == 64,
            self@.len() == 64,
    {
        proof {
            use_type_invariant(self);
        }
        self.slots.len()
    }

    fn slot(&self, i: usize) -> (r: &Option<TokenRef>)
        requires
            i < 64,
        ensures
            alias_view(*r) == self@[i as int],
    {
        proof {
            use_type_invariant(self);
        }
        &self.slots[i]
    }

    fn put(&mut self, i: usize, v: Option<TokenRef>)
        requires
            i < 64,
        ensures
            final(self)@ == old(self)@.update(i as int, alias_view(v)),
    {
        proof {
            use_type_invariant(&*self);
        }
        self.slots[i] = v;
        assert(self@ =~= old(self)@.update(i as int, alias_view(v)));
    }

    /// Brings every alias of the token with `serial` up to date with its new
    /// bytes.
    fn refresh(&mut self, serial: u64, bytes: &[u8])
        ensures
            final(self)@ == old(self)@.map_values(|a: Option<TokenRefView>| refresh_alias(a, serial, bytes@)),
    {
        proof {
            use_type_invariant(&*self);
        }
        let ghost v0 = self@;
        let mut k: usize = 0;
        while k < 64
            invariant
                0 <= k <= 64,
                self@.len() == 64,
                v0.len() == 64,
                forall|j: int| 0 <= j < k ==> #[trigger] self@[j] == refresh_alias(v0[j], serial, bytes@),
                forall|j: int| k <= j < 64 ==> #[trigger] self@[j] == v0[j],
            decreases 64 - k,
        {
            let fresh = match self.slot(k) {
                Some(t) => if t.serial == serial {
                    let n = t.bytes.len();
                    let b = if n <= bytes.len() { copy_bytes(slice_subrange(bytes, 0, n)) } else { copy_bytes(bytes) };
                    assert(b@ =~= (if t@.bytes.len() <= bytes@.len() { bytes@.take(t@.bytes.len() as int) } else { bytes@ }));
                    Some(TokenRef { bytes: b, checksum: t.checksum, class: t.class, scope: t.scope, serial: t.serial })
                } else {
                    None
                },
                None => None,
            };
            assert(fresh is None ==> refresh_alias(v0[k as int], serial, bytes@) == v0[k as int]);
            assert(fresh matches Some(t2) ==> Some(t2@) == refresh_alias(v0[k as int], serial, bytes@));
            match fresh {
                Some(t) => {
                    self.put(k, Some(t));
                },
                None => {},
            }
            k = k + 1;
        }
        assert(self@ =~= v0.map_values(|a: Option<TokenRefView>| refresh_alias(a, serial, bytes@)));
    }
}

/// A token dictionary with alias slots and an audit trail of every change.
#[derive(Debug, Clone)]
pub struct Dictionary {
    entries: Vec<TokenEntry>,
    aliases: AliasSlots,
    audit_trail: Vec<u32>,
    active_scope: u16,
    compactions: u32,
    next_serial: u64,
}

impl View for Dictionary {
    type V = DictView;

    closed spec fn view(&self) -> DictView {
        DictView {
            entries: self.entries@.map_values(|e: TokenEntry| e@),
            aliases: self.aliases@,
            audit: self.audit_trail@,
            active_scope: self.active_scope,
            compactions: self.compactions,
            next_serial: self.next_serial,
        }
    }
}

impl Default for Dictionary {
    fn default() -> (r: Self)
        ensures
            r@ == DictView::empty(),
    {
        Self::new()
    }
}

/// Whether two byte strings are equal.
pub fn bytes_equal(a: &[u8], b: &[u8]) -> (r: bool)
    ensures
        r == (a@ == b@),
{
    if a.len() != b.len() {
        return false;
    }
    let mut i: usize = 0;
    while i < a.len()
        invariant
            a.len() == b.len(),
            0 <= i <= a.len(),
            forall|k: int| 0 <= k < i ==> a@[k] == b@[k],
        decreases a.len() - i,
    {
        if a[i] != b[i] {
            return false;
        }
        i = i + 1;
    }
    assert(a@ =~= b@);
    true
}

/// A copy of a byte string.
pub fn copy_bytes(a: &[u8]) -> (r: Vec<u8>)
    ensures
        r@ == a@,
{
    let mut out: Vec<u8> = Vec::new();
    let mut i: usize = 0;
    while i < a.len()
        invariant
            0 <= i <= a.len(),
            out@ == a@.take(i as int),
        decreases a.len() - i,
    {
        out.push(a[i]);
        assert(a@.take(i + 1) == a@.take(i as int).push(a@[i as int]));
        i = i + 1;
    }
    assert(a@.take(a.len() as int) == a@);
    out
}

/// The elements of `v` in reverse order.
pub fn reversed<T>(v: Vec<T>) -> (r: Vec<T>)
    ensures
        r@.len() == v@.len(),
        forall|k: int| 0 <= k < v@.len() ==> r@[k] == v@[v@.len() - 1 - k],
{
    let mut v = v;
    let ghost orig = v@;
    let mut out: Vec<T> = Vec::new();
    while v.len() > 0
        invariant
            out@.len() + v@.len() == orig.len(),
            v@ == orig.take(v@.len() as int),
            forall|k: int| 0 <= k < out@.len() ==> out@[k] == orig[orig.len() - 1 - k],
        decreases v.len(),
    {
        let x = v.pop().unwrap();
        out.push(x);
    }
    out
}

impl Dictionary {
    pub fn new() -> (r: Self)
        ensures
            r@ == DictView::empty(),
    {
        let aliases = AliasSlots::empty();
        let r = Self {
            entries: Vec::new(),
            aliases,
            audit_trail: Vec::new(),
            active_scope: 0,
            compactions: 0,
            next_serial: 0,
        };
        assert(r@.entries =~= DictView::empty().entries);
        assert(r@.aliases =~= DictView::empty().aliases);
        r
    }

    pub fn len(&self) -> (r: usize)
        ensures
            r == self@.entries.len(),
    {
        self.entries.len()
    }

    pub fn is_empty(&self) -> (r: bool)
        ensures
            r == (self@.entries.len() == 0),
    {
        self.entries.len() == 0
    }

    pub fn compactions(&self) -> (r: u32)
        ensures
            r == self@.compactions,
    {
        self.compactions
    }

    /// Runs the dictionary operations encoded in `input`.
    pub fn parse_ops(&mut self, input: &[u8]) -> (r: Result<()>)
        ensures
            (r, final(self)@) == old(self)@.parse_ops(input@),
    {
        let mut cur = ByteCursor::new(input, "dictionary ops");
        while cur.remaining() > 0
            invariant
                old(self)@.parse_ops(input@) == self@.ops_from(cur@),
            decreases cur@.remaining(),
        {
            let ghost d0 = self@;
            let ghost c0 = cur@;
            let op = match cur.read_u8() {
                Ok(op) => op,
                Err(e) => {
                    return Err(e);
                },
            };
            let ghost c1 = cur@;
            let r = if op == 0x01 {
                self.op_intern(&mut cur)
            } else if op == 0x02 {
                self.op_alias(&mut cur)
            } else if op == 0x03 {
                self.op_scope(&mut cur)
            } else if op == 0x04 {
                self.op_compact(&mut cur)
            } else if op == 0x05 {
                self.op_patch(&mut cur)
            } else if op == 0x06 {
                self.op_import_block(&mut cur)
            } else {
                let pos = cur.position();
                self.audit_trail.push(((op as u32) << 24) | (pos as u32));
                proof {
                    assert(self@.audit =~= d0.audit_unknown(op, c1.pos).audit);
                    assert(self@.entries =~= d0.entries);
                    assert(self@.aliases =~= d0.aliases);
                }
                Ok(())
            };
            assert((r, cur@, self@) == d0.op_step(op, c1));
            match r {
                Ok(()) => {},
                Err(e) => {
                    return Err(e);
                },
            }
            proof {
                lemma_op_step_forward(d0, op, c1);
            }
        }
        Ok(())
    }

    fn op_intern(&mut self, cur: &mut ByteCursor<'_>) -> (r: Result<()>)
        ensures
            (r, final(cur)@, final(self)@) == old(self)@.op_intern(old(cur)@),
    {
        let class = TokenClass::from_byte(cur.read_u8()?);
        let scope = cur.read_u16()?;
        let score = cur.read_u16()?;
        let token = cur.read_bytes_with_u8_len()?;
        if token.len() > 96 {
            return Err(VoltError::LimitExceeded("dictionary token"));
        }
        let bytes = copy_bytes(token);
        self.intern(class, scope, score, bytes);
        Ok(())
    }

    fn op_alias(&mut self, cur: &mut ByteCursor<'_>) -> (r: Result<()>)
        ensures
            (r, final(cur)@, final(self)@) == old(self)@.op_alias(old(cur)@),
    {
        let slot = cur.read_u8()? as usize;
        let id = cur.read_var_u32()? as usize;
        self.bind_alias(slot, id);
        Ok(())
    }

    fn op_scope(&mut self, cur: &mut ByteCursor<'_>) -> (r: Result<()>)
        ensures
            (r, final(cur)@, final(self)@) == old(self)@.op_scope(old(cur)@),
    {
        let scope = cur.read_u16()?;
        let ghost d0 = self@;
        self.active_scope = scope;
        self.audit_trail.push(0x5300_0000 | (self.active_scope as u32));
        assert(self@.entries =~= d0.set_scope(scope).entries);
        assert(self@.aliases =~= d0.set_scope(scope).aliases);
        Ok(())
    }

    fn op_compact(&mut self, cur: &mut ByteCursor<'_>) -> (r: Result<()>)
        ensures
            (r, final(cur)@, final(self)@) == old(self)@.op_compact(old(cur)@),
    {
        let flags = cur.read_u8()?;
        let threshold = cur.read_u16()?;
        self.compact(flags, threshold);
        Ok(())
    }

    fn op_patch(&mut self, cur: &mut ByteCursor<'_>) -> (r: Result<()>)
        ensures
            (r, final(cur)@, final(self)@) == old(self)@.op_patch(old(cur)@),
    {
        let id = cur.read_var_u32()? as usize;
        let patch = cur.read_bytes_with_u8_len()?;
        self.apply_patch(id, patch);
        Ok(())
    }

    fn apply_patch(&mut self, id: usize, patch: &[u8])
        ensures
            final(self)@ == old(self)@.patch(id as int, patch@),
    {
        if id >= self.entries.len() {
            return;
        }
        let ghost d0 = self@;
        let mut entry = self.entries.remove(id);
        let ghost e0 = entry@;
        let mut idx: usize = 0;
        while idx < patch.len()
            invariant
                0 <= idx <= patch.len(),
                entry@ == (TokenEntryView { bytes: entry.bytes@, ..e0 }),
                entry.bytes@ == patch_bytes(e0.bytes, patch@.take(idx as int)),
            decreases patch.len() - idx,
        {
            let b = patch[idx];
            assert(patch@.take(idx + 1).drop_last() == patch@.take(idx as int));
            if idx < entry.bytes.len() {
                let x = entry.bytes[idx] ^ b;
                entry.bytes.set(idx, x);
            } else if entry.bytes.len() < 96 {
                entry.bytes.push(b);
            }
            idx = idx + 1;
        }
        assert(patch@.take(patch.len() as int) == patch@);
        entry.score = rolling_window_score(entry.bytes.as_slice()) as u16;
        let serial = entry.serial;
        let ghost nb = entry.bytes@;
        self.aliases.refresh(serial, entry.bytes.as_slice());
        self.entries.insert(id, entry);
        proof {
            let ne = TokenEntryView { bytes: nb, score: rolling_score_spec(nb) as u16, ..e0 };
            assert(self@.entries =~= d0.entries.update(id as int, ne));
            assert(self@.aliases =~= d0.aliases.map_values(|a: Option<TokenRefView>| refresh_alias(a, e0.serial, nb)));
        }
    }


    fn op_import_block(&mut self, cur: &mut ByteCursor<'_>) -> (r: Result<()>)
        ensures
            (r, final(cur)@, final(self)@) == old(self)@.op_import_block(old(cur)@),
    {
        let count = cur.read_u8()? as usize;
        let class = TokenClass::from_byte(cur.read_u8()?);
        let n = if count < 32 { count } else { 32 };
        let ghost d0 = self@;
        let ghost c0 = cur@;
        assert(old(self)@.op_import_block(old(cur)@) == d0.import_from(c0, class, 0, n as int));
        let mut i: usize = 0;
        while i < n
            invariant
                0 <= i <= n <= 32,
                old(self)@.op_import_block(old(cur)@) == self@.import_from(cur@, class, i as int, n as int),
            ensures
                old(self)@.op_import_block(old(cur)@) == self@.import_from(cur@, class, i as int, n as int),
                i >= n || cur@.remaining() == 0,
            decreases n - i,
        {
            if cur.remaining() == 0 {
                break;
            }
            let ghost c1 = cur@;
            let ghost d1 = self@;
            let token = match cur.read_bytes_with_u8_len() {
                Ok(t) => t,
                Err(e) => {
                    assert(d1.import_from(c1, class, i as int, n as int) == (Err::<(), VoltError>(e), cur@, self@));
                    return Err(e);
                },
            };
            let bytes = copy_bytes(token);
            let score = ((rolling_window_score(bytes.as_slice()) as u64 + i as u64) as u32) as u16;
            let scope = self.active_scope;
            self.intern(class, scope, score, bytes);
            i = i + 1;
        }
        Ok(())
    }

    /// Appends a token and records its score in the audit trail; returns its
    /// index.
    pub fn intern(&mut self, class: TokenClass, scope: u16, score: u16, bytes: Vec<u8>) -> (r: usize)
        ensures
            final(self)@ == old(self)@.intern(class, scope, score, bytes@),
            r == old(self)@.entries.len(),
    {
        let ghost d0 = self@;
        let entry = TokenEntry { class, scope, score, bytes, serial: self.next_serial };
        let audit = rolling_window_score(entry.bytes.as_slice());
        self.audit_trail.push(audit);
        self.entries.push(entry);
        self.next_serial = if self.next_serial == 0xffff_ffff_ffff_ffff { 0 } else { self.next_serial + 1 };
        assert(self@.entries =~= d0.intern(class, scope, score, entry@.bytes).entries);
        assert(self@.aliases =~= d0.aliases);
        self.entries.len() - 1
    }

    /// Binds alias `slot` to entry `id`; out-of-range slots or ids are
    /// ignored. A dictionary has 64 alias slots.
    pub fn bind_alias(&mut self, slot: usize, id: usize)
        ensures
            old(self)@.aliases.len() == 64,
            final(self)@ == old(self)@.bind_alias(slot as int, id as int),
    {
        if slot >= self.aliases.count() || id >= self.entries.len() {
            return;
        }
        let ghost d0 = self@;
        let bytes = copy_bytes(self.entries[id].bytes.as_slice());
        let checksum = rolling_window_score(bytes.as_slice());
        let token_ref = TokenRef {
            bytes,
            checksum,
            class: self.entries[id].class,
            scope: self.entries[id].scope,
            serial: self.entries[id].serial,
        };
        self.aliases.put(slot, Some(token_ref));
        assert(self@.aliases =~= d0.bind_alias(slot as int, id as int).aliases);
        assert(self@.entries =~= d0.entries);
    }

    /// Filters, sorts and deduplicates the entries as `flags` asks.
    pub fn compact(&mut self, flags: u8, threshold: u16)
        ensures
            final(self)@ == old(self)@.compact(flags, threshold),
    {
        let ghost d0 = self@;
        let scope = self.active_scope;
        let mut entries: Vec<TokenEntry> = Vec::new();
        core::mem::swap(&mut entries, &mut self.entries);
        assert(entries@.map_values(|e: TokenEntry| e@) == d0.entries);
        if flags & 0x01 != 0 {
            entries = filter_by_scope(entries, scope, threshold);
        }
        if flags & 0x02 != 0 {
            entries = filter_by_nonzero(entries);
        }
        if flags & 0x04 != 0 {
            entries = sort_by_key(entries);
        }
        if flags & 0x08 != 0 {
            entries = dedup_by_token(entries);
        }
        self.entries = entries;
        self.compactions = self.compactions.wrapping_add(1);
        assert(self@.aliases =~= d0.aliases);
    }

    /// The bytes an alias slot was bound to, when that binding is non-empty
    /// and at most 4096 bytes long.
    pub fn resolve_alias(&self, slot: usize) -> (r: Option<Vec<u8>>)
        ensures
            self@.aliases.len() == 64,
            match r {
                Some(v) => self@.resolve_alias(slot as int) == Some(v@),
                None => self@.resolve_alias(slot as int) is None,
            },
    {
        if slot >= self.aliases.count() {
            return None;
        }
        match self.aliases.slot(slot) {
            None => None,
            Some(t) => {
                if t.bytes.len() == 0 || t.bytes.len() > 4096 {
                    None
                } else {
                    Some(copy_bytes(t.bytes.as_slice()))
                }
            },
        }
    }

    /// The audit score of an alias slot: its score, xor its checksum, xor
    /// its scope.
    pub fn alias_score(&self, slot: usize) -> (r: Option<u32>)
        ensures
            self@.aliases.len() == 64,
            r == self@.alias_score(slot as int),
    {
        if slot >= self.aliases.count() {
            return None;
        }
        match self.aliases.slot(slot) {
            None => None,
            Some(t) => Some(rolling_window_score(t.bytes.as_slice()) ^ t.checksum ^ (t.scope as u32)),
        }
    }

    /// The text of entry `id`, decoded lossily.
    pub fn entry_text(&self, id: usize) -> (r: Option<String>)
        ensures
            match r {
                Some(s) => {
                    &&& id < self@.entries.len()
                    &&& s@ == lossy_utf8(self@.entries[id as int].bytes)
                    &&& valid_utf8(self@.entries[id as int].bytes) ==> s@ == decode_utf8(
                        self@.entries[id as int].bytes,
                    )
                },
                None => id >= self@.entries.len(),
            },
    {
        if id >= self.entries.len() {
            return None;
        }
        Some(utf8_lossy(self.entries[id].bytes.as_slice()))
    }

    /// The class of the token an alias slot is bound to.
    pub fn alias_class(&self, slot: usize) -> (r: Option<TokenClass>)
        ensures
            self@.aliases.len() == 64,
            r == (if slot < self@.aliases.len() {
                match self@.aliases[slot as int] {
                    Some(t) => Some(t.class),
                    None => None,
                }
            } else {
                None::<TokenClass>
            }),
    {
        if slot >= self.aliases.count() {
            return None;
        }
        match self.aliases.slot(slot) {
            None => None,
            Some(t) => Some(t.class),
        }
    }

    /// A hash of the whole audit trail.
    pub fn audit_hash(&self) -> (r: u32)
        ensures
            r == audit_fold(self@.audit),
    {
        let mut acc: u32 = 0x811c_9dc5;
        let mut i: usize = 0;
        while i < self.audit_trail.len()
            invariant
                0 <= i <= self.audit_trail@.len(),
                acc == audit_fold(self.audit_trail@.take(i as int)),
            decreases self.audit_trail@.len() - i,
        {
            assert(self.audit_trail@.take(i + 1).drop_last() == self.audit_trail@.take(i as int));
            acc = ((acc << 5) | (acc >> 27)) ^ self.audit_trail[i];
            i = i + 1;
        }
        assert(self.audit_trail@.take(self.audit_trail@.len() as int) == self.audit_trail@);
        acc
    }
}

pub open spec fn entries_view(v: Seq<TokenEntry>) -> Seq<TokenEntryView> {
    v.map_values(|e: TokenEntry| e@)
}

fn filter_by_scope(v: Vec<TokenEntry>, scope: u16, threshold: u16) -> (r: Vec<TokenEntry>)
    ensures
        entries_view(r@) == filter_scope(entries_view(v@), scope, threshold),
{
    let ghost orig = v@;
    let n = v.len();
    let mut rev = reversed(v);
    let mut out: Vec<TokenEntry> = Vec::new();
    let mut i: usize = 0;
    while rev.len() > 0
        invariant
            rev@.len() + i == orig.len(),
            orig.len() == n,
            forall|k: int| 0 <= k < rev@.len() ==> rev@[k] == orig[orig.len() - 1 - k],
            entries_view(out@) == filter_scope(entries_view(orig.take(i as int)), scope, threshold),
        decreases rev.len(),
    {
        let e = rev.pop().unwrap();
        assert(e == orig[i as int]);
        assert(entries_view(orig.take(i + 1)).drop_last() =~= entries_view(orig.take(i as int)));
        if e.scope == scope || e.score >= threshold {
            out.push(e);
            assert(entries_view(out@) =~= filter_scope(entries_view(orig.take(i as int)), scope, threshold).push(e@));
        }
        i = i + 1;
    }
    assert(orig.take(orig.len() as int) == orig);
    out
}

fn filter_by_nonzero(v: Vec<TokenEntry>) -> (r: Vec<TokenEntry>)
    ensures
        entries_view(r@) == filter_nonzero(entries_view(v@)),
{
    let ghost orig = v@;
    let n = v.len();
    let mut rev = reversed(v);
    let mut out: Vec<TokenEntry> = Vec::new();
    let mut i: usize = 0;
    while rev.len() > 0
        invariant
            rev@.len() + i == orig.len(),
            orig.len() == n,
            forall|k: int| 0 <= k < rev@.len() ==> rev@[k] == orig[orig.len() - 1 - k],
            entries_view(out@) == filter_nonzero(entries_view(orig.take(i as int))),
        decreases rev.len(),
    {
        let e = rev.pop().unwrap();
        assert(e == orig[i as int]);
        assert(entries_view(orig.take(i + 1)).drop_last() =~= entries_view(orig.take(i as int)));
        if e.bytes.len() > 0 && e.bytes[0] != 0 {
            out.push(e);
            assert(entries_view(out@) =~= filter_nonzero(entries_view(orig.take(i as int))).push(e@));
        }
        i = i + 1;
    }
    assert(orig.take(orig.len() as int) == orig);
    out
}

fn entry_key_gt(a: &TokenEntry, b: &TokenEntry) -> (r: bool)
    ensures
        r == key_gt(a@, b@),
{
    let la = a.bytes.len() as u16;
    let lb = b.bytes.len() as u16;
    a.scope > b.scope || (a.scope == b.scope && (a.score > b.score || (a.score == b.score && la
        > lb)))
}

proof fn lemma_insert_pos_skip(s: Seq<TokenEntryView>, e: TokenEntryView, j: int)
    requires
        0 <= j < s.len(),
        !key_gt(s[j], e),
    ensures
        insert_pos(s.skip(j), e) == 1 + insert_pos(s.skip(j + 1), e),
{
    assert(s.skip(j).drop_first() =~= s.skip(j + 1));
}

fn sort_by_key(v: Vec<TokenEntry>) -> (r: Vec<TokenEntry>)
    ensures
        entries_view(r@) == sort_entries(entries_view(v@)),
{
    let ghost orig = v@;
    let n = v.len();
    let mut rev = reversed(v);
    let mut out: Vec<TokenEntry> = Vec::new();
    let mut i: usize = 0;
    while rev.len() > 0
        invariant
            rev@.len() + i == orig.len(),
            orig.len() == n,
            forall|k: int| 0 <= k < rev@.len() ==> rev@[k] == orig[orig.len() - 1 - k],
            entries_view(out@) == sort_entries(entries_view(orig.take(i as int))),
        decreases rev.len(),
    {
        let e = rev.pop().unwrap();
        assert(e == orig[i as int]);
        assert(entries_view(orig.take(i + 1)).drop_last() =~= entries_view(orig.take(i as int)));
        let ghost s = entries_view(out@);
        assert(s.skip(0) == s);
        let mut j: usize = 0;
        while j < out.len() && !entry_key_gt(&out[j], &e)
            invariant
                0 <= j <= out@.len(),
                s == entries_view(out@),
                insert_pos(s, e@) == j + insert_pos(s.skip(j as int), e@),
            decreases out@.len() - j,
        {
            proof {
                lemma_insert_pos_skip(s, e@, j as int);
            }
            j = j + 1;
        }
        proof {
            if j < out@.len() {
                assert(s.skip(j as int)[0] == s[j as int]);
            }
        }
        out.insert(j, e);
        assert(entries_view(out@) =~= insert_sorted(s, e@));
        i = i + 1;
    }
    assert(orig.take(orig.len() as int) == orig);
    out
}

fn dedup_by_token(v: Vec<TokenEntry>) -> (r: Vec<TokenEntry>)
    ensures
        entries_view(r@) == dedup_entries(entries_view(v@)),
{
    let ghost orig = v@;
    let n = v.len();
    let mut rev = reversed(v);
    let mut out: Vec<TokenEntry> = Vec::new();
    let mut i: usize = 0;
    while rev.len() > 0
        invariant
            rev@.len() + i == orig.len(),
            orig.len() == n,
            forall|k: int| 0 <= k < rev@.len() ==> rev@[k] == orig[orig.len() - 1 - k],
            entries_view(out@) == dedup_entries(entries_view(orig.take(i as int))),
        decreases rev.len(),
    {
        let e = rev.pop().unwrap();
        assert(e == orig[i as int]);
        assert(entries_view(orig.take(i + 1)).drop_last() =~= entries_view(orig.take(i as int)));
        let n = out.len();
        let dup = n > 0 && out[n - 1].scope == e.scope && bytes_equal(
            out[n - 1].bytes.as_slice(),
            e.bytes.as_slice(),
        );
        if !dup {
            out.push(e);
            assert(entries_view(out@) =~= dedup_entries(entries_view(orig.take(i as int))).push(e@));
        }
        i = i + 1;
    }
    assert(orig.take(orig.len() as int) == orig);
    out
}

/// The sort key as one number: scope, then score, then length cut to 16
/// bits.
pub open spec fn key_rank(e: TokenEntryView) -> int {
    (e.scope as int) * 0x1_0000_0000 + (e.score as int) * 0x1_0000 + ((e.bytes.len() as u16) as int)
}

/// Entries in key order: no entry's key is greater than a later one's.
pub open spec fn key_sorted(s: Seq<TokenEntryView>) -> bool {
    forall|i: int, j: int| 0 <= i < j < s.len() ==> key_rank(s[i]) <= key_rank(s[j])
}

proof fn lemma_key_gt_rank(a: TokenEntryView, b: TokenEntryView)
    ensures
        key_gt(a, b) <==> key_rank(a) > key_rank(b),
{
    let la = (a.bytes.len() as u16) as int;
    let lb = (b.bytes.len() as u16) as int;
    assert(0 <= la < 0x1_0000 && 0 <= lb < 0x1_0000);
}

proof fn lemma_insert_pos(s: Seq<TokenEntryView>, e: TokenEntryView)
    ensures
        0 <= insert_pos(s, e) <= s.len(),
        forall|k: int| 0 <= k < insert_pos(s, e) ==> key_rank(#[trigger] s[k]) <= key_rank(e),
        insert_pos(s, e) < s.len() ==> key_rank(s[insert_pos(s, e)]) > key_rank(e),
    decreases s.len(),
{
    if s.len() > 0 {
        lemma_key_gt_rank(s[0], e);
        if !key_gt(s[0], e) {
            lemma_insert_pos(s.drop_first(), e);
            assert forall|k: int| 0 <= k < insert_pos(s, e) implies key_rank(#[trigger] s[k]) <= key_rank(e) by {
                if k > 0 {
                    assert(s[k] == s.drop_first()[k - 1]);
                }
            }
            if insert_pos(s, e) < s.len() {
                assert(s[insert_pos(s, e)] == s.drop_first()[insert_pos(s.drop_first(), e)]);
            }
        }
    }
}

proof fn lemma_insert_sorted(s: Seq<TokenEntryView>, e: TokenEntryView)
    requires
        key_sorted(s),
    ensures
        key_sorted(insert_sorted(s, e)),
        insert_sorted(s, e).len() == s.len() + 1,
{
    lemma_insert_pos(s, e);
    let j = insert_pos(s, e);
    let r = insert_sorted(s, e);
    assert(r.len() == s.len() + 1);
    assert forall|k: int| 0 <= k < r.len() implies #[trigger] r[k] == (if k < j {
        s[k]
    } else if k == j {
        e
    } else {
        s[k - 1]
    }) by {}
    assert forall|p: int, q: int| 0 <= p < q < r.len() implies key_rank(r[p]) <= key_rank(r[q]) by {
        if q < j {
        } else if q == j {
        } else if p < j {
            assert(key_rank(s[j]) <= key_rank(s[q - 1]));
        } else if p == j {
            assert(key_rank(s[j]) <= key_rank(s[q - 1]));
        } else {
        }
    }
}

proof fn lemma_sort_entries(s: Seq<TokenEntryView>)
    ensures
        key_sorted(sort_entries(s)),
        sort_entries(s).len() == s.len(),
    decreases s.len(),
{
    if s.len() > 0 {
        lemma_sort_entries(s.drop_last());
        lemma_insert_sorted(sort_entries(s.drop_last()), s.last());
    }
}

proof fn lemma_filter_scope_len(s: Seq<TokenEntryView>, scope: u16, threshold: u16)
    ensures
        filter_scope(s, scope, threshold).len() <= s.len(),
    decreases s.len(),
{
    if s.len() > 0 {
        lemma_filter_scope_len(s.drop_last(), scope, threshold);
    }
}

proof fn lemma_filter_nonzero_len(s: Seq<TokenEntryView>)
    ensures
        filter_nonzero(s).len() <= s.len(),
    decreases s.len(),
{
    if s.len() > 0 {
        lemma_filter_nonzero_len(s.drop_last());
    }
}

/// Deduplication keeps a subsequence: its length is at most the input's,
/// every kept entry comes from the input, and key order survives it.
proof fn lemma_dedup(s: Seq<TokenEntryView>)
    ensures
        dedup_entries(s).len() <= s.len(),
        forall|k: int| 0 <= k < dedup_entries(s).len() ==> s.contains(#[trigger] dedup_entries(s)[k]),
        key_sorted(s) ==> key_sorted(dedup_entries(s)),
    decreases s.len(),
{
    if s.len() > 0 {
        let p = s.drop_last();
        lemma_dedup(p);
        let d = dedup_entries(p);
        assert forall|k: int| 0 <= k < dedup_entries(s).len() implies s.contains(#[trigger] dedup_entries(s)[k]) by {
            if k < d.len() {
                let x = d[k];
                assert(p.contains(x));
                let w = choose|w: int| 0 <= w < p.len() && p[w] == x;
                assert(s[w] == x);
            } else {
                assert(s[s.len() - 1] == s.last());
            }
        }
        if key_sorted(s) {
            assert(key_sorted(p)) by {
                assert forall|i: int, j: int| 0 <= i < j < p.len() implies key_rank(p[i]) <= key_rank(p[j]) by {
                    assert(p[i] == s[i] && p[j] == s[j]);
                }
            }
            assert forall|k: int| 0 <= k < d.len() implies key_rank(#[trigger] d[k]) <= key_rank(s.last()) by {
                let x = d[k];
                assert(p.contains(x));
                let w = choose|w: int| 0 <= w < p.len() && p[w] == x;
                assert(s[w] == x);
                assert(s[s.len() - 1] == s.last());
            }
        }
    }
}

/// Compaction never adds entries, and with flag 0x04 it leaves them in key
/// order (scope, then score, then length), whatever else it does.
pub proof fn compaction_orders_and_shrinks(d: DictView, flags: u8, threshold: u16)
    ensures
        d.compact(flags, threshold).entries.len() <= d.entries.len(),
        flags & 4u8 != 0 ==> key_sorted(d.compact(flags, threshold).entries),
{
    let e1 = if flags & 1u8 != 0 {
        filter_scope(d.entries, d.active_scope, threshold)
    } else {
        d.entries
    };
    lemma_filter_scope_len(d.entries, d.active_scope, threshold);
    let e2 = if flags & 2u8 != 0 { filter_nonzero(e1) } else { e1 };
    lemma_filter_nonzero_len(e1);
    let e3 = if flags & 4u8 != 0 { sort_entries(e2) } else { e2 };
    lemma_sort_entries(e2);
    lemma_dedup(e3);
}

/// Binding an alias slot to an entry and resolving that slot gives the
/// entry's bytes when they are non-empty and at most 4096 bytes long, and
/// leaves every other slot as it was.
pub proof fn bound_alias_resolves(d: DictView, slot: int, id: int)
    requires
        0 <= slot < d.aliases.len(),
        0 <= id < d.entries.len(),
    ensures
        d.bind_alias(slot, id).resolve_alias(slot) == (if 0 < d.entries[id].bytes.len() <= 4096 {
            Some(d.entries[id].bytes)
        } else {
            None
        }),
        forall|other: int| other != slot ==> #[trigger] d.bind_alias(slot, id).resolve_alias(other) == d.resolve_alias(other),
{
}

proof fn lemma_patch_keeps_prefix_len(bytes: Seq<u8>, patch: Seq<u8>)
    ensures
        patch_bytes(bytes, patch).len() >= bytes.len(),
    decreases patch.len(),
{
    if patch.len() > 0 {
        lemma_patch_keeps_prefix_len(bytes, patch.drop_last());
    }
}

/// An alias follows its token: binding a slot to an entry, then patching
/// that entry, resolves the slot to the patched bytes over the length the
/// entry had when it was bound.
pub proof fn alias_follows_patches(d: DictView, slot: int, id: int, patch: Seq<u8>)
    requires
        0 <= slot < d.aliases.len(),
        0 <= id < d.entries.len(),
    ensures
        ({
            let n = d.entries[id].bytes.len();
            let nb = patch_bytes(d.entries[id].bytes, patch);
            d.bind_alias(slot, id).patch(id, patch).resolve_alias(slot) == (if 0 < n <= 4096 {
                Some(nb.take(n as int))
            } else {
                None
            })
        }),
{
    lemma_patch_keeps_prefix_len(d.entries[id].bytes, patch);
    let nb = patch_bytes(d.entries[id].bytes, patch);
    assert(nb.take(d.entries[id].bytes.len() as int).len() == d.entries[id].bytes.len());
}

/// A call on a dictionary: the public methods, a patch (operation 0x05),
/// and a run of encoded operations.
pub enum DictCall {
    Intern { class: TokenClass, scope: u16, score: u16, bytes: Seq<u8> },
    Bind { slot: usize, id: usize },
    Compact { flags: u8, threshold: u16 },
    Patch { id: usize, patch: Seq<u8> },
    Ops { input: Seq<u8> },
}

/// The dictionary after a call (whatever `parse_ops` returns).
pub open spec fn apply_dict_call(d: DictView, call: DictCall) -> DictView {
    match call {
        DictCall::Intern { class, scope, score, bytes } => d.intern(class, scope, score, bytes),
        DictCall::Bind { slot, id } => d.bind_alias(slot as int, id as int),
        DictCall::Compact { flags, threshold } => d.compact(flags, threshold),
        DictCall::Patch { id, patch } => d.patch(id as int, patch),
        DictCall::Ops { input } => d.parse_ops(input).1,
    }
}

/// The dictionary after a sequence of calls, in order.
pub open spec fn apply_dict_calls(d: DictView, calls: Seq<DictCall>) -> DictView
    decreases calls.len(),
{
    if calls.len() == 0 {
        d
    } else {
        apply_dict_call(apply_dict_calls(d, calls.drop_last()), calls.last())
    }
}

/// Whether the `k`-th call, made on the dictionary the calls before it left,
/// may change alias `slot` bound to the token with `serial`: a binding of
/// that slot, a patch of that token, or a run of encoded operations.
pub open spec fn touches_alias(d: DictView, calls: Seq<DictCall>, k: int, slot: int, serial: u64) -> bool {
    match calls[k] {
        DictCall::Bind { slot: s, id: _ } => s as int == slot,
        DictCall::Patch { id, patch: _ } => {
            let dk = apply_dict_calls(d, calls.take(k));
            0 <= id < dk.entries.len() && dk.entries[id as int].serial == serial
        },
        DictCall::Ops { input: _ } => true,
        _ => false,
    }
}

proof fn lemma_alias_untouched(d: DictView, slot: int, serial: u64, calls: Seq<DictCall>)
    requires
        0 <= slot < d.aliases.len(),
        d.aliases[slot] matches Some(t) && t.serial == serial,
        forall|k: int| 0 <= k < calls.len() ==> !#[trigger] touches_alias(d, calls, k, slot, serial),
    ensures
        apply_dict_calls(d, calls).aliases.len() == d.aliases.len(),
        apply_dict_calls(d, calls).aliases[slot] == d.aliases[slot],
    decreases calls.len(),
{
    if calls.len() > 0 {
        let p = calls.drop_last();
        assert forall|k: int| 0 <= k < p.len() implies !#[trigger] touches_alias(d, p, k, slot, serial) by {
            assert(p.take(k) =~= calls.take(k));
            assert(p[k] == calls[k]);
            assert(!touches_alias(d, calls, k, slot, serial));
        }
        lemma_alias_untouched(d, slot, serial, p);
        let k = calls.len() - 1;
        assert(calls.take(k) =~= p);
        assert(!touches_alias(d, calls, k, slot, serial));
        let prev = apply_dict_calls(d, p);
        match calls.last() {
            DictCall::Patch { id, patch } => {
                if 0 <= id < prev.entries.len() {
                    let e = prev.entries[id as int];
                    let nb = patch_bytes(e.bytes, patch);
                    assert(prev.patch(id as int, patch).aliases[slot] == refresh_alias(prev.aliases[slot], e.serial, nb));
                }
            },
            _ => {},
        }
    }
}

/// Once bound, an alias slot keeps its binding through any later interning,
/// compaction (even one that drops the token), binding of other slots and
/// patching of other tokens: it resolves to the bytes its token had when it
/// was bound.
pub proof fn bound_alias_survives_calls(d: DictView, slot: int, id: int, rest: Seq<DictCall>)
    requires
        0 <= slot < d.aliases.len(),
        0 <= id < d.entries.len(),
        forall|k: int|
            0 <= k < rest.len() ==> !#[trigger] touches_alias(
                d.bind_alias(slot, id),
                rest,
                k,
                slot,
                d.entries[id].serial,
            ),
    ensures
        ({
            let e = d.entries[id];
            let d2 = apply_dict_calls(d.bind_alias(slot, id), rest);
            &&& d2.aliases[slot] == Some(
                TokenRefView {
                    bytes: e.bytes,
                    checksum: rolling_score_spec(e.bytes),
                    class: e.class,
                    scope: e.scope,
                    serial: e.serial,
                },
            )
            &&& d2.resolve_alias(slot) == (if 0 < e.bytes.len() <= 4096 { Some(e.bytes) } else { None })
            &&& d2.alias_score(slot) == Some(
                rolling_score_spec(e.bytes) ^ rolling_score_spec(e.bytes) ^ (e.scope as u32),
            )
        }),
{
    lemma_alias_untouched(d.bind_alias(slot, id), slot, d.entries[id].serial, rest);
}

proof fn lemma_filter_scope_is_filter(s: Seq<TokenEntryView>, scope: u16, threshold: u16)
    ensures
        filter_scope(s, scope, threshold) == s.filter(|e: TokenEntryView| e.scope == scope || e.score >= threshold),
    decreases s.len(),
{
    reveal(Seq::filter);
    if s.len() > 0 {
        lemma_filter_scope_is_filter(s.drop_last(), scope, threshold);
    }
}

proof fn lemma_filter_nonzero_is_filter(s: Seq<TokenEntryView>)
    ensures
        filter_nonzero(s) == s.filter(|e: TokenEntryView| e.bytes.len() > 0 && e.bytes[0] != 0),
    decreases s.len(),
{
    reveal(Seq::filter);
    if s.len() > 0 {
        lemma_filter_nonzero_is_filter(s.drop_last());
    }
}

/// Compacting with flag 0x01 alone keeps, in their order, exactly the
/// entries that are in the active scope or score at least the threshold;
/// in particular every entry of the active scope survives.
pub proof fn scope_compaction_keeps_scope_or_score(d: DictView, flags: u8, threshold: u16)
    requires
        flags & 0x0fu8 == 0x01u8,
    ensures
        d.compact(flags, threshold).entries == d.entries.filter(
            |e: TokenEntryView| e.scope == d.active_scope || e.score >= threshold,
        ),
        forall|i: int|
            0 <= i < d.entries.len() && (d.entries[i].scope == d.active_scope || d.entries[i].score >= threshold)
                ==> #[trigger] d.compact(flags, threshold).entries.contains(d.entries[i]),
        forall|i: int|
            0 <= i < d.compact(flags, threshold).entries.len() ==> (#[trigger] d.compact(flags, threshold).entries[i]).scope
                == d.active_scope || d.compact(flags, threshold).entries[i].score >= threshold,
{
    assert(flags & 1u8 != 0 && flags & 2u8 == 0 && flags & 4u8 == 0 && flags & 8u8 == 0) by (bit_vector)
        requires
            flags & 0x0fu8 == 0x01u8,
    ;
    let pred = |e: TokenEntryView| e.scope == d.active_scope || e.score >= threshold;
    lemma_filter_scope_is_filter(d.entries, d.active_scope, threshold);
    assert forall|i: int| 0 <= i < d.entries.len() && pred(d.entries[i]) implies #[trigger] d.entries.filter(pred).contains(
        d.entries[i],
    ) by {
        d.entries.lemma_filter_contains(pred, i);
    }
    assert forall|i: int| 0 <= i < d.entries.filter(pred).len() implies pred(#[trigger] d.entries.filter(pred)[i]) by {
        d.entries.lemma_filter_pred(pred, i);
    }
}

/// Compacting with flag 0x02 alone keeps, in their order, exactly the
/// entries whose bytes are non-empty and do not start with a zero byte.
pub proof fn nonzero_compaction_drops_empty_tokens(d: DictView, flags: u8, threshold: u16)
    requires
        flags & 0x0fu8 == 0x02u8,
    ensures
        d.compact(flags, threshold).entries == d.entries.filter(
            |e: TokenEntryView| e.bytes.len() > 0 && e.bytes[0] != 0,
        ),
{
    assert(flags & 1u8 == 0 && flags & 2u8 != 0 && flags & 4u8 == 0 && flags & 8u8 == 0) by (bit_vector)
        requires
            flags & 0x0fu8 == 0x02u8,
    ;
    lemma_filter_nonzero_is_filter(d.entries);
}

proof fn lemma_sort_entries_multiset(s: Seq<TokenEntryView>)
    ensures
        sort_entries(s).to_multiset() == s.to_multiset(),
    decreases s.len(),
{
    if s.len() > 0 {
        let p = s.drop_last();
        lemma_sort_entries_multiset(p);
        let t = sort_entries(p);
        lemma_insert_pos(t, s.last());
        let j = insert_pos(t, s.last());
        assert(insert_sorted(t, s.last()) =~= t.insert(j, s.last()));
        vstd::seq_lib::to_multiset_insert(t, j, s.last());
        vstd::seq_lib::to_multiset_build(p, s.last());
        s.lemma_add_last_back();
    }
}

proof fn lemma_dedup_runs(s: Seq<TokenEntryView>)
    ensures
        forall|i: int, j: int|
            #![trigger dedup_entries(s)[i], dedup_entries(s)[j]]
            0 <= i && j == i + 1 && j < dedup_entries(s).len() ==> !same_token(dedup_entries(s)[i], dedup_entries(s)[j]),
        forall|k: int| 0 <= k < s.len() ==> exists|j: int| 0 <= j < dedup_entries(s).len() && same_token(#[trigger] s[k], dedup_entries(s)[j]),
    decreases s.len(),
{
    if s.len() > 0 {
        let p = s.drop_last();
        lemma_dedup_runs(p);
        let d = dedup_entries(p);
        let r = dedup_entries(s);
        assert forall|i: int, j: int| #![trigger r[i], r[j]] 0 <= i && j == i + 1 && j < r.len() implies !same_token(r[i], r[j]) by {
            assert(r[i] == d[i]);
            if j < d.len() {
                assert(r[j] == d[j]);
            }
        }
        assert forall|k: int| 0 <= k < s.len() implies exists|j: int| 0 <= j < r.len() && same_token(#[trigger] s[k], r[j]) by {
            if k < p.len() {
                assert(s[k] == p[k]);
                let j = choose|j: int| 0 <= j < d.len() && same_token(p[k], d[j]);
                assert(r[j] == d[j]);
            } else if d.len() > 0 && same_token(s.last(), d.last()) {
                assert(r[d.len() - 1] == d.last());
            } else {
                assert(r[d.len() as int] == s.last());
            }
        }
    }
}

/// Compacting with flag 0x04 alone puts the entries in key order (scope,
/// then score, then length) and keeps each entry exactly as often as it was.
pub proof fn sort_compaction_permutes_into_key_order(d: DictView, flags: u8, threshold: u16)
    requires
        flags & 0x0fu8 == 0x04u8,
    ensures
        key_sorted(d.compact(flags, threshold).entries),
        d.compact(flags, threshold).entries.to_multiset() == d.entries.to_multiset(),
{
    assert(flags & 1u8 == 0 && flags & 2u8 == 0 && flags & 4u8 != 0 && flags & 8u8 == 0) by (bit_vector)
        requires
            flags & 0x0fu8 == 0x04u8,
    ;
    lemma_sort_entries(d.entries);
    lemma_sort_entries_multiset(d.entries);
}

/// Compacting with flag 0x08 alone leaves no two neighbouring entries with
/// the same scope and bytes, keeps only entries that were there, and keeps
/// for every entry one with its scope and bytes.
pub proof fn dedup_compaction_merges_neighbours(d: DictView, flags: u8, threshold: u16)
    requires
        flags & 0x0fu8 == 0x08u8,
    ensures
        ({
            let r = d.compact(flags, threshold).entries;
            &&& forall|i: int, j: int|
                #![trigger r[i], r[j]]
                0 <= i && j == i + 1 && j < r.len() ==> !same_token(r[i], r[j])
            &&& forall|i: int| 0 <= i < r.len() ==> d.entries.contains(#[trigger] r[i])
            &&& forall|k: int|
                0 <= k < d.entries.len() ==> exists|j: int| 0 <= j < r.len() && same_token(#[trigger] d.entries[k], r[j])
        }),
{
    assert(flags & 1u8 == 0 && flags & 2u8 == 0 && flags & 4u8 == 0 && flags & 8u8 != 0) by (bit_vector)
        requires
            flags & 0x0fu8 == 0x08u8,
    ;
    assert(d.compact(flags, threshold).entries == dedup_entries(d.entries));
    lemma_dedup(d.entries);
    lemma_dedup_runs(d.entries);
}

} // verus!

