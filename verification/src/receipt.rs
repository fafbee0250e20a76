use vstd::prelude::*;
use vstd::utf8::valid_utf8;
use crate::cursor::{ByteCursor, CursorModel};
use crate::dictionary::{copy_bytes, forward, lemma_var_forward, rotl32, DictView, Dictionary, TokenClass};
use crate::error::{Result, VoltError};
use crate::model::{receipt_status, ReceiptBatch, ReceiptBatchView, ReceiptRecord, ReceiptStatus};
use crate::text::{
    is_valid_utf8, lines_of, or_zero, parse_trimmed_unsigned, parse_unsigned, seqs_of,
    split_bytes, split_on, text_lines, trim_spec,
};

verus! {

/// A receipt batch being decoded, with the dictionary it interns into.
pub struct ReceiptState {
    pub batch: ReceiptBatchView,
    pub dict: DictView,
}

pub type ReceiptStep = (Result<()>, CursorModel, ReceiptState);

/// Most receipts a batch may hold.
pub open spec fn max_receipts() -> int {
    2048
}

/// The receipts of a run: consecutive sessions with the same amount.
pub open spec fn run_record(start: u64, i: int, amount: u32, energy: u32) -> ReceiptRecord {
    ReceiptRecord {
        session_id: ((start as int + i) % 0x1_0000_0000_0000_0000) as u64,
        token_alias: (i % 64) as u8,
        amount_cents: amount,
        energy_wh: ((energy as int + i * 10) % 0x1_0000_0000) as u32,
        auth_code: rotl32(start as u32, (i % 16) as u32),
        status: ReceiptStatus::Captured,
    }
}

pub open spec fn run_records(start: u64, n: int, amount: u32, energy: u32) -> Seq<ReceiptRecord> {
    Seq::new(n as nat, |i: int| run_record(start, i, amount, energy))
}

impl ReceiptState {
    pub open spec fn push(self, r: ReceiptRecord) -> ReceiptState {
        ReceiptState { batch: ReceiptBatchView { receipts: self.batch.receipts.push(r), ..self.batch }, ..self }
    }

    /// Tag 0x40: one receipt, optionally followed by marker 0x7a and a
    /// length-prefixed payment token that is interned.
    pub open spec fn receipt(self, c: CursorModel) -> ReceiptStep {
        match c.read_u64() {
            (Err(e), c1) => (Err(e), c1, self),
            (Ok(session_id), c1) => match c1.read_u8() {
                (Err(e), c2) => (Err(e), c2, self),
                (Ok(alias), c2) => match c2.read_u32() {
                    (Err(e), c3) => (Err(e), c3, self),
                    (Ok(amount), c3) => match c3.read_u32() {
                        (Err(e), c4) => (Err(e), c4, self),
                        (Ok(energy), c4) => match c4.read_u32() {
                            (Err(e), c5) => (Err(e), c5, self),
                            (Ok(auth), c5) => match c5.read_u8() {
                                (Err(e), c6) => (Err(e), c6, self),
                                (Ok(st), c6) => {
                                    let rec = ReceiptRecord {
                                        session_id,
                                        token_alias: alias,
                                        amount_cents: amount,
                                        energy_wh: energy,
                                        auth_code: auth,
                                        status: receipt_status(st),
                                    };
                                    if c6.remaining() > 0 && c6.data[c6.pos] == 0x7au8 {
                                        match c6.advance(1).read_bytes_with_u8_len() {
                                            (Err(e), c7) => (Err(e), c7, self),
                                            (Ok(tok), c7) => (
                                                Ok(()),
                                                c7,
                                                ReceiptState {
                                                    dict: self.dict.intern(
                                                        TokenClass::Payment,
                                                        alias as u16,
                                                        amount as u16,
                                                        tok,
                                                    ),
                                                    ..self
                                                }.push(rec),
                                            ),
                                        }
                                    } else {
                                        (Ok(()), c6, self.push(rec))
                                    }
                                },
                            },
                        },
                    },
                },
            },
        }
    }

    /// The alias bindings of a bank from the `i`-th on, `n` in all.
    pub open spec fn alias_bank_from(self, c: CursorModel, i: int, n: int) -> ReceiptStep
        decreases n - i,
    {
        if i >= n {
            (Ok(()), c, self)
        } else {
            match c.read_u8() {
                (Err(e), c1) => (Err(e), c1, self),
                (Ok(slot), c1) => match c1.read_var_u32() {
                    (Err(e), c2) => (Err(e), c2, self),
                    (Ok(id), c2) => ReceiptState {
                        dict: self.dict.bind_alias(slot as int, id as int),
                        ..self
                    }.alias_bank_from(c2, i + 1, n),
                },
            }
        }
    }

    /// Tag 0x41: a count and up to 32 alias bindings.
    pub open spec fn alias_bank(self, c: CursorModel) -> ReceiptStep {
        match c.read_u8() {
            (Err(e), c1) => (Err(e), c1, self),
            (Ok(count), c1) => self.alias_bank_from(c1, 0, if count < 32 { count as int } else { 32 }),
        }
    }

    /// Tag 0x42: a run of up to 128 captured receipts.
    pub open spec fn receipt_run(self, c: CursorModel) -> ReceiptStep {
        match c.read_u64() {
            (Err(e), c1) => (Err(e), c1, self),
            (Ok(start), c1) => match c1.read_u8() {
                (Err(e), c2) => (Err(e), c2, self),
                (Ok(count), c2) => match c2.read_u32() {
                    (Err(e), c3) => (Err(e), c3, self),
                    (Ok(amount), c3) => match c3.read_u32() {
                        (Err(e), c4) => (Err(e), c4, self),
                        (Ok(energy), c4) => {
                            let n = if count < 128 { count as int } else { 128 };
                            (
                                Ok(()),
                                c4,
                                ReceiptState {
                                    batch: ReceiptBatchView {
                                        receipts: self.batch.receipts + run_records(start, n, amount, energy),
                                        ..self.batch
                                    },
                                    ..self
                                },
                            )
                        },
                    },
                },
            },
        }
    }

    /// The record whose tag has just been read; an unknown tag skips up to
    /// its low three bits' worth of bytes.
    pub open spec fn tag_step(self, tag: u8, c: CursorModel) -> ReceiptStep {
        if tag == 0x40 {
            self.receipt(c)
        } else if tag == 0x41 {
            self.alias_bank(c)
        } else if tag == 0x42 {
            self.receipt_run(c)
        } else {
            let skip = (tag & 7u8) as int;
            (Ok(()), c.take(if skip < c.remaining() { skip } else { c.remaining() }).1, self)
        }
    }

    pub open spec fn records_from(self, c: CursorModel) -> (Result<ReceiptBatchView>, DictView)
        decreases c.remaining(),
    {
        if c.remaining() <= 0 {
            (Ok(self.batch), self.dict)
        } else {
            match c.read_u8() {
                (Err(e), _) => (Err(e), self.dict),
                (Ok(tag), c1) => {
                    let (r, c2, s2) = self.tag_step(tag, c1);
                    match r {
                        Err(e) => (Err(e), s2.dict),
                        Ok(()) => if s2.batch.receipts.len() > max_receipts() {
                            (Err(VoltError::LimitExceeded("receipt records")), s2.dict)
                        } else {
                            proof {
                                lemma_receipt_step_forward(self, tag, c1);
                            }
                            s2.records_from(c2)
                        },
                    }
                },
            }
        }
    }
}

pub proof fn lemma_alias_bank_forward(s: ReceiptState, c: CursorModel, i: int, n: int)
    ensures
        forward(c, s.alias_bank_from(c, i, n).1),
    decreases n - i,
{
    if i < n {
        if let (Ok(slot), c1) = c.read_u8() {
            lemma_var_forward(c1, 0, 0);
            if let (Ok(id), c2) = c1.read_var_u32() {
                lemma_alias_bank_forward(
                    ReceiptState { dict: s.dict.bind_alias(slot as int, id as int), ..s },
                    c2,
                    i + 1,
                    n,
                );
            }
        }
    }
}

pub proof fn lemma_receipt_step_forward(s: ReceiptState, tag: u8, c: CursorModel)
    ensures
        forward(c, s.tag_step(tag, c).1),
{
    if tag == 0x41 {
        if let (Ok(count), c1) = c.read_u8() {
            lemma_alias_bank_forward(s, c1, 0, if count < 32 { count as int } else { 32 });
        }
    }
}

/// One line of a text batch: `session|alias|amount|energy|auth`, five or
/// more fields; other lines are skipped.
pub open spec fn text_receipt_line(st: ReceiptState, line: Seq<u8>) -> ReceiptState {
    let parts = split_bytes(line, 0x7cu8);
    if parts.len() >= 5 {
        let alias = or_zero(parse_unsigned(trim_spec(parts[1]), 0xff)) as u8;
        let rec = ReceiptRecord {
            session_id: or_zero(parse_unsigned(trim_spec(parts[0]), 0xffff_ffff_ffff_ffff)) as u64,
            token_alias: alias,
            amount_cents: or_zero(parse_unsigned(trim_spec(parts[2]), 0xffff_ffff)) as u32,
            energy_wh: or_zero(parse_unsigned(trim_spec(parts[3]), 0xffff_ffff)) as u32,
            auth_code: or_zero(parse_unsigned(trim_spec(parts[4]), 0xffff_ffff)) as u32,
            status: ReceiptStatus::OfflineQueued,
        };
        ReceiptState {
            dict: st.dict.intern(TokenClass::Payment, alias as u16, parts[0].len() as u16, parts[0]),
            ..st
        }.push(rec)
    } else {
        st
    }
}

pub open spec fn text_receipt_lines(st: ReceiptState, lines: Seq<Seq<u8>>) -> ReceiptState
    decreases lines.len(),
{
    if lines.len() == 0 {
        st
    } else {
        text_receipt_line(text_receipt_lines(st, lines.drop_last()), lines.last())
    }
}

pub open spec fn empty_batch() -> ReceiptBatchView {
    ReceiptBatchView { merchant_id: 0, lane_id: 0, receipts: seq![] }
}

/// A text batch: UTF-8 lines of `|`-separated fields.
pub open spec fn text_receipts_spec(input: Seq<u8>, dict: DictView) -> (Result<ReceiptBatchView>, DictView) {
    if !valid_utf8(input) {
        (Err(VoltError::InvalidUtf8), dict)
    } else {
        let st = text_receipt_lines(ReceiptState { batch: empty_batch(), dict }, text_lines(input));
        (Ok(st.batch), st.dict)
    }
}

/// A receipt batch: under six bytes it is text; otherwise a merchant id, a
/// lane id and tagged records.
pub open spec fn receipts_spec(input: Seq<u8>, dict: DictView) -> (Result<ReceiptBatchView>, DictView) {
    let c = CursorModel::fresh(input, "receipt batch");
    if c.remaining() < 6 {
        text_receipts_spec(input, dict)
    } else {
        let (m, c1) = c.read_u32();
        let (l, c2) = c1.read_u16();
        ReceiptState {
            batch: ReceiptBatchView { merchant_id: m->Ok_0, lane_id: l->Ok_0, receipts: seq![] },
            dict,
        }.records_from(c2)
    }
}

proof fn lemma_records_bounded(s: ReceiptState, c: CursorModel)
    requires
        s.batch.receipts.len() <= max_receipts(),
        s.records_from(c).0 is Ok,
    ensures
        s.records_from(c).0->Ok_0.receipts.len() <= max_receipts(),
    decreases c.remaining(),
{
    if c.remaining() > 0 {
        let (rt, c1) = c.read_u8();
        let tag = rt->Ok_0;
        let (r, c2, s2) = s.tag_step(tag, c1);
        lemma_receipt_step_forward(s, tag, c1);
        lemma_records_bounded(s2, c2);
    }
}

/// A binary receipt batch (six bytes or more) that decodes holds at most
/// 2048 receipts.
pub proof fn binary_batch_is_bounded(input: Seq<u8>, dict: DictView)
    requires
        input.len() >= 6,
        receipts_spec(input, dict).0 is Ok,
    ensures
        receipts_spec(input, dict).0->Ok_0.receipts.len() <= max_receipts(),
{
    let c = CursorModel::fresh(input, "receipt batch");
    let (m, c1) = c.read_u32();
    let (l, c2) = c1.read_u16();
    lemma_records_bounded(
        ReceiptState {
            batch: ReceiptBatchView { merchant_id: m->Ok_0, lane_id: l->Ok_0, receipts: seq![] },
            dict,
        },
        c2,
    );
}

pub open spec fn batch_res(r: Result<ReceiptBatch>) -> Result<ReceiptBatchView> {
    match r {
        Ok(b) => Ok(b@),
        Err(e) => Err(e),
    }
}

/// Decodes a receipt batch, interning payment tokens and binding aliases
/// in `dictionary`.
pub fn parse_receipts(input: &[u8], dictionary: &mut Dictionary) -> (r: Result<ReceiptBatch>)
    ensures
        (batch_res(r), final(dictionary)@) == receipts_spec(input@, old(dictionary)@),
{
    let mut cur = ByteCursor::new(input, "receipt batch");
    if cur.remaining() < 6 {
        return parse_text_receipts(input, dictionary);
    }
    let merchant_id = cur.read_u32()?;
    let lane_id = cur.read_u16()?;
    let mut batch = ReceiptBatch { merchant_id, lane_id, receipts: Vec::new() };
    assert(batch@.receipts =~= seq![]);
    while cur.remaining() > 0
        invariant
            receipts_spec(input@, old(dictionary)@) == (ReceiptState {
                batch: batch@,
                dict: dictionary@,
            }).records_from(cur@),
            batch@.receipts.len() <= max_receipts(),
        decreases cur@.remaining(),
    {
        let ghost s0 = ReceiptState { batch: batch@, dict: dictionary@ };
        let tag = match cur.read_u8() {
            Ok(t) => t,
            Err(e) => {
                return Err(e);
            },
        };
        let ghost c1 = cur@;
        let r = if tag == 0x40 {
            parse_receipt(&mut cur, &mut batch, dictionary)
        } else if tag == 0x41 {
            parse_alias_bank(&mut cur, &mut batch, dictionary)
        } else if tag == 0x42 {
            parse_receipt_run(&mut cur, &mut batch, dictionary)
        } else {
            let skip = (tag & 0x07) as usize;
            let rem = cur.remaining();
            let _ = cur.take(if skip < rem { skip } else { rem });
            Ok(())
        };
        assert((r, cur@, (ReceiptState { batch: batch@, dict: dictionary@ })) == s0.tag_step(tag, c1));
        match r {
            Ok(()) => {},
            Err(e) => {
                return Err(e);
            },
        }
        if batch.receipts.len() > 2048 {
            return Err(VoltError::LimitExceeded("receipt records"));
        }
        proof {
            lemma_receipt_step_forward(s0, tag, c1);
        }
    }
    Ok(batch)
}

fn parse_text_receipts(input: &[u8], dictionary: &mut Dictionary) -> (r: Result<ReceiptBatch>)
    ensures
        (batch_res(r), final(dictionary)@) == text_receipts_spec(input@, old(dictionary)@),
{
    if !is_valid_utf8(input) {
        return Err(VoltError::InvalidUtf8);
    }
    let lines = lines_of(input);
    let mut batch = ReceiptBatch { merchant_id: 0, lane_id: 0, receipts: Vec::new() };
    assert(batch@ == empty_batch());
    let ghost st0 = ReceiptState { batch: empty_batch(), dict: old(dictionary)@ };
    let mut i: usize = 0;
    while i < lines.len()
        invariant
            0 <= i <= lines@.len(),
            seqs_of(lines@) == text_lines(input@),
            (ReceiptState { batch: batch@, dict: dictionary@ }) == text_receipt_lines(
                st0,
                seqs_of(lines@).take(i as int),
            ),
        decreases lines@.len() - i,
    {
        assert(seqs_of(lines@).take(i + 1).drop_last() =~= seqs_of(lines@).take(i as int));
        let line = lines[i].as_slice();
        let parts = split_on(line, 0x7c);
        if parts.len() >= 5 {
            let alias = parse_trimmed_unsigned(parts[1].as_slice(), 0xff) as u8;
            let session = parse_trimmed_unsigned(parts[0].as_slice(), 0xffff_ffff_ffff_ffff);
            let amount = parse_trimmed_unsigned(parts[2].as_slice(), 0xffff_ffff) as u32;
            let energy = parse_trimmed_unsigned(parts[3].as_slice(), 0xffff_ffff) as u32;
            let auth = parse_trimmed_unsigned(parts[4].as_slice(), 0xffff_ffff) as u32;
            let token = copy_bytes(parts[0].as_slice());
            dictionary.intern(TokenClass::Payment, alias as u16, parts[0].len() as u16, token);
            batch.receipts.push(
                ReceiptRecord {
                    session_id: session,
                    token_alias: alias,
                    amount_cents: amount,
                    energy_wh: energy,
                    auth_code: auth,
                    status: ReceiptStatus::OfflineQueued,
                },
            );
        }
        i = i + 1;
    }
    assert(seqs_of(lines@).take(lines@.len() as int) == seqs_of(lines@));
    Ok(batch)
}

fn parse_receipt(cur: &mut ByteCursor<'_>, batch: &mut ReceiptBatch, dictionary: &mut Dictionary) -> (r: Result<()>)
    ensures
        (r, final(cur)@, (ReceiptState { batch: final(batch)@, dict: final(dictionary)@ }))
            == (ReceiptState { batch: old(batch)@, dict: old(dictionary)@ }).receipt(old(cur)@),
{
    let session_id = cur.read_u64()?;
    let token_alias = cur.read_u8()?;
    let amount_cents = cur.read_u32()?;
    let energy_wh = cur.read_u32()?;
    let auth_code = cur.read_u32()?;
    let status = ReceiptStatus::from_byte(cur.read_u8()?);
    cur.check_wf();
    let marked = match cur.peek_u8() {
        Ok(b) => b == 0x7a,
        Err(_) => false,
    };
    if cur.remaining() > 0 && marked {
        let _marker = cur.read_u8()?;
        let token = cur.read_bytes_with_u8_len()?;
        let bytes = copy_bytes(token);
        dictionary.intern(TokenClass::Payment, token_alias as u16, amount_cents as u16, bytes);
    }
    batch.receipts.push(ReceiptRecord { session_id, token_alias, amount_cents, energy_wh, auth_code, status });
    Ok(())
}

fn parse_alias_bank(cur: &mut ByteCursor<'_>, batch: &mut ReceiptBatch, dictionary: &mut Dictionary) -> (r: Result<()>)
    ensures
        (r, final(cur)@, (ReceiptState { batch: final(batch)@, dict: final(dictionary)@ }))
            == (ReceiptState { batch: old(batch)@, dict: old(dictionary)@ }).alias_bank(old(cur)@),
{
    let count = cur.read_u8()? as usize;
    let n = if count < 32 { count } else { 32 };
    let mut i: usize = 0;
    while i < n
        invariant
            0 <= i <= n <= 32,
            batch@ == old(batch)@,
            (ReceiptState { batch: old(batch)@, dict: old(dictionary)@ }).alias_bank(old(cur)@)
                == (ReceiptState { batch: batch@, dict: dictionary@ }).alias_bank_from(cur@, i as int, n as int),
        decreases n - i,
    {
        let slot = cur.read_u8()? as usize;
        let id = cur.read_var_u32()? as usize;
        dictionary.bind_alias(slot, id);
        i = i + 1;
    }
    Ok(())
}

fn parse_receipt_run(cur: &mut ByteCursor<'_>, batch: &mut ReceiptBatch, dictionary: &mut Dictionary) -> (r: Result<()>)
    ensures
        (r, final(cur)@, (ReceiptState { batch: final(batch)@, dict: final(dictionary)@ }))
            == (ReceiptState { batch: old(batch)@, dict: old(dictionary)@ }).receipt_run(old(cur)@),
{
    let start_session = cur.read_u64()?;
    let count = cur.read_u8()? as usize;
    let amount = cur.read_u32()?;
    let energy = cur.read_u32()?;
    let n = if count < 128 { count } else { 128 };
    let ghost r0 = batch@.receipts;
    let mut i: usize = 0;
    while i < n
        invariant
            0 <= i <= n <= 128,
            batch@ == (ReceiptBatchView { receipts: batch@.receipts, ..old(batch)@ }),
            batch@.receipts == r0 + run_records(start_session, i as int, amount, energy),
        decreases n - i,
    {
        let k = (i as u32) & 15;
        assert((i as u32) & 15u32 <= 15u32) by (bit_vector);
        let base = start_session as u32;
        let auth = if k == 0 { base } else { (base << k) | (base >> (32 - k)) };
        let rec = ReceiptRecord {
            session_id: start_session.wrapping_add(i as u64),
            token_alias: (i & 63) as u8,
            amount_cents: amount,
            energy_wh: energy.wrapping_add(i as u32 * 10),
            auth_code: auth,
            status: ReceiptStatus::Captured,
        };
        assert((i as u32) & 15u32 == (i as u32) % 16) by (bit_vector);
        assert(i & 63usize == i % 64) by (bit_vector);
        assert(rec == run_record(start_session, i as int, amount, energy));
        batch.receipts.push(rec);
        assert(run_records(start_session, i + 1, amount, energy) =~= run_records(
            start_session,
            i as int,
            amount,
            energy,
        ).push(rec));
        i = i + 1;
    }
    Ok(())
}

} // verus!
