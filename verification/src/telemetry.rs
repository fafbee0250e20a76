use vstd::prelude::*;
use vstd::utf8::valid_utf8;
use crate::catalog::{meter_hint, meter_quality_hint};
use crate::codec::{decode_payload, decode_spec};
use crate::cursor::{ByteCursor, CursorModel};
use crate::dictionary::{copy_bytes, forward, lemma_var_forward, DictView, Dictionary, TokenClass};
use crate::error::{Result, VoltError};
use crate::model::{Compression, MeterSummary, TelemetryBatch, TelemetrySample, TelemetryView};
use crate::text::{
    is_valid_utf8, lines_of, or_zero, parse_i32_spec, parse_trimmed_i32, parse_trimmed_unsigned,
    parse_unsigned, seqs_of, split_bytes, split_on, text_lines, trim_spec,
};

verus! {

pub open spec fn wadd(a: i32, b: i32) -> i32 {
    vstd::wrapping::i32_specs::wrapping_add(a, b)
}

pub open spec fn wmul(a: i32, b: i32) -> i32 {
    vstd::wrapping::i32_specs::wrapping_mul(a, b)
}

/// A telemetry batch being decoded: the batch, the running voltage,
/// current and temperature that sample deltas apply to, and the dictionary.
pub struct TelemetryState {
    pub batch: TelemetryView,
    pub voltage: i32,
    pub current: i32,
    pub temp: i32,
    pub dict: DictView,
}

pub type TelemetryStep = (Result<()>, CursorModel, TelemetryState);

pub open spec fn tstate(batch: TelemetryView, voltage: i32, current: i32, temp: i32, dict: DictView) -> TelemetryState {
    TelemetryState { batch, voltage, current, temp, dict }
}

/// Most samples a binary batch may hold.
pub open spec fn max_samples() -> int {
    4096
}

impl TelemetryState {
    pub open spec fn push(self, s: TelemetrySample) -> TelemetryState {
        TelemetryState { batch: TelemetryView { samples: self.batch.samples.push(s), ..self.batch }, ..self }
    }

    /// Tag 0x30: a sample whose voltage, current and temperature are zig-zag
    /// deltas from the previous sample.
    pub open spec fn sample(self, c: CursorModel) -> TelemetryStep {
        match c.read_var_u32() {
            (Err(e), c1) => (Err(e), c1, self),
            (Ok(delta_ms), c1) => match c1.read_u8() {
                (Err(e), c2) => (Err(e), c2, self),
                (Ok(channel), c2) => match c2.read_var_i32() {
                    (Err(e), c3) => (Err(e), c3, self),
                    (Ok(dv), c3) => {
                        let v = wadd(self.voltage, dv);
                        let s1 = TelemetryState { voltage: v, ..self };
                        match c3.read_var_i32() {
                            (Err(e), c4) => (Err(e), c4, s1),
                            (Ok(dc), c4) => {
                                let cu = wadd(self.current, dc);
                                let s2 = TelemetryState { current: cu, ..s1 };
                                match c4.read_var_i32() {
                                    (Err(e), c5) => (Err(e), c5, s2),
                                    (Ok(dt), c5) => {
                                        let t = wadd(self.temp, dt);
                                        let s3 = TelemetryState { temp: t, ..s2 };
                                        match c5.read_u16() {
                                            (Err(e), c6) => (Err(e), c6, s3),
                                            (Ok(flags), c6) => (
                                                Ok(()),
                                                c6,
                                                s3.push(
                                                    TelemetrySample {
                                                        delta_ms,
                                                        channel,
                                                        voltage_mv: v,
                                                        current_ma: cu,
                                                        temperature_mc: t,
                                                        flags,
                                                    },
                                                ),
                                            ),
                                        }
                                    },
                                }
                            },
                        }
                    },
                },
            },
        }
    }

    /// Tag 0x31: a meter summary.
    pub open spec fn summary(self, c: CursorModel) -> TelemetryStep {
        match c.read_u8() {
            (Err(e), c1) => (Err(e), c1, self),
            (Ok(channel), c1) => match c1.read_i32() {
                (Err(e), c2) => (Err(e), c2, self),
                (Ok(min_value), c2) => match c2.read_i32() {
                    (Err(e), c3) => (Err(e), c3, self),
                    (Ok(max_value), c3) => match c3.read_i32() {
                        (Err(e), c4) => (Err(e), c4, self),
                        (Ok(mean_value), c4) => match c4.read_u16() {
                            (Err(e), c5) => (Err(e), c5, self),
                            (Ok(quality), c5) => (
                                Ok(()),
                                c5,
                                TelemetryState {
                                    batch: TelemetryView {
                                        summaries: self.batch.summaries.push(
                                            MeterSummary { channel, min_value, max_value, mean_value, quality },
                                        ),
                                        ..self.batch
                                    },
                                    ..self
                                },
                            ),
                        },
                    },
                },
            },
        }
    }

    /// The meter labels of a dictionary block from the `i`-th on, `n` in all.
    pub open spec fn meter_labels_from(self, c: CursorModel, i: int, n: int) -> TelemetryStep
        decreases n - i,
    {
        if i >= n {
            (Ok(()), c, self)
        } else {
            match c.read_u8() {
                (Err(e), c1) => (Err(e), c1, self),
                (Ok(channel), c1) => match c1.read_bytes_with_u8_len() {
                    (Err(e), c2) => (Err(e), c2, self),
                    (Ok(label), c2) => TelemetryState {
                        dict: self.dict.intern(TokenClass::Meter, channel as u16, label.len() as u16, label),
                        ..self
                    }.meter_labels_from(c2, i + 1, n),
                },
            }
        }
    }

    /// Tag 0x32: a count and up to 24 channel labels, interned as meter
    /// tokens.
    pub open spec fn meter_dictionary(self, c: CursorModel) -> TelemetryStep {
        match c.read_u8() {
            (Err(e), c1) => (Err(e), c1, self),
            (Ok(count), c1) => self.meter_labels_from(c1, 0, if count < 24 { count as int } else { 24 }),
        }
    }

    /// The sparse sample with packed value `packed` at index `idx`.
    pub open spec fn sparse_sample(channel: u8, scale: i32, idx: int, packed: i32) -> TelemetrySample {
        TelemetrySample {
            delta_ms: (idx * 1000) as u32,
            channel,
            voltage_mv: wadd(200_000i32, wmul(packed, scale)),
            current_ma: wmul(packed, 17i32),
            temperature_mc: wadd(20_000i32, wmul(packed, 3i32)),
            flags: 0x40,
        }
    }

    pub open spec fn sparse_from(self, c: CursorModel, channel: u8, scale: i32, i: int, n: int) -> TelemetryStep
        decreases n - i,
    {
        if i >= n {
            (Ok(()), c, self)
        } else {
            match c.read_i16() {
                (Err(e), c1) => (Err(e), c1, self),
                (Ok(packed), c1) => self.push(
                    TelemetryState::sparse_sample(channel, scale, i, packed as i32),
                ).sparse_from(c1, channel, scale, i + 1, n),
            }
        }
    }

    /// Tag 0x33: channel, count, scale, then up to 64 packed samples.
    pub open spec fn sparse(self, c: CursorModel) -> TelemetryStep {
        match c.read_u8() {
            (Err(e), c1) => (Err(e), c1, self),
            (Ok(channel), c1) => match c1.read_u8() {
                (Err(e), c2) => (Err(e), c2, self),
                (Ok(count), c2) => match c2.read_i16() {
                    (Err(e), c3) => (Err(e), c3, self),
                    (Ok(scale), c3) => self.sparse_from(
                        c3,
                        channel,
                        scale as i32,
                        0,
                        if count < 64 { count as int } else { 64 },
                    ),
                },
            },
        }
    }

    /// The record whose tag has just been read; an unknown tag skips up to
    /// its low four bits' worth of bytes.
    pub open spec fn tag_step(self, tag: u8, c: CursorModel) -> TelemetryStep {
        if tag == 0x30 {
            self.sample(c)
        } else if tag == 0x31 {
            self.summary(c)
        } else if tag == 0x32 {
            self.meter_dictionary(c)
        } else if tag == 0x33 {
            self.sparse(c)
        } else {
            let skip = (tag & 0x0fu8) as int;
            (Ok(()), c.take(if skip < c.remaining() { skip } else { c.remaining() }).1, self)
        }
    }

    pub open spec fn records_from(self, c: CursorModel) -> (Result<TelemetryView>, DictView)
        decreases c.remaining(),
    {
        if c.remaining() <= 0 {
            (Ok(enrich_spec(self.batch)), self.dict)
        } else {
            match c.read_u8() {
                (Err(e), _) => (Err(e), self.dict),
                (Ok(tag), c1) => {
                    let (r, c2, s2) = self.tag_step(tag, c1);
                    match r {
                        Err(e) => (Err(e), s2.dict),
                        Ok(()) => if s2.batch.samples.len() > max_samples() {
                            (Err(VoltError::LimitExceeded("telemetry samples")), s2.dict)
                        } else {
                            proof {
                                lemma_telemetry_step_forward(self, tag, c1);
                            }
                            s2.records_from(c2)
                        },
                    }
                },
            }
        }
    }
}

pub proof fn lemma_labels_forward(s: TelemetryState, c: CursorModel, i: int, n: int)
    ensures
        forward(c, s.meter_labels_from(c, i, n).1),
    decreases n - i,
{
    if i < n {
        if let (Ok(channel), c1) = c.read_u8() {
            if let (Ok(label), c2) = c1.read_bytes_with_u8_len() {
                lemma_labels_forward(
                    TelemetryState {
                        dict: s.dict.intern(TokenClass::Meter, channel as u16, label.len() as u16, label),
                        ..s
                    },
                    c2,
                    i + 1,
                    n,
                );
            }
        }
    }
}

pub proof fn lemma_sparse_forward(s: TelemetryState, c: CursorModel, channel: u8, scale: i32, i: int, n: int)
    ensures
        forward(c, s.sparse_from(c, channel, scale, i, n).1),
    decreases n - i,
{
    if i < n {
        if let (Ok(packed), c1) = c.read_i16() {
            lemma_sparse_forward(
                s.push(TelemetryState::sparse_sample(channel, scale, i, packed as i32)),
                c1,
                channel,
                scale,
                i + 1,
                n,
            );
        }
    }
}

pub proof fn lemma_telemetry_step_forward(s: TelemetryState, tag: u8, c: CursorModel)
    ensures
        forward(c, s.tag_step(tag, c).1),
{
    if tag == 0x30 {
        lemma_var_forward(c, 0, 0);
        if let (Ok(_), c1) = c.read_var_u32() {
            if let (Ok(_), c2) = c1.read_u8() {
                lemma_var_forward(c2, 0, 0);
                if let (Ok(_), c3) = c2.read_var_i32() {
                    lemma_var_forward(c3, 0, 0);
                    if let (Ok(_), c4) = c3.read_var_i32() {
                        lemma_var_forward(c4, 0, 0);
                    }
                }
            }
        }
    } else if tag == 0x32 {
        if let (Ok(count), c1) = c.read_u8() {
            lemma_labels_forward(s, c1, 0, if count < 24 { count as int } else { 24 });
        }
    } else if tag == 0x33 {
        if let (Ok(channel), c1) = c.read_u8() {
            if let (Ok(count), c2) = c1.read_u8() {
                if let (Ok(scale), c3) = c2.read_i16() {
                    lemma_sparse_forward(
                        s,
                        c3,
                        channel,
                        scale as i32,
                        0,
                        if count < 64 { count as int } else { 64 },
                    );
                }
            }
        }
    }
}

/// The voltages of the samples on a channel, in order.
pub open spec fn channel_voltages(samples: Seq<TelemetrySample>, channel: u8) -> Seq<i32>
    decreases samples.len(),
{
    if samples.len() == 0 {
        seq![]
    } else {
        let v = channel_voltages(samples.drop_last(), channel);
        if samples.last().channel == channel { v.push(samples.last().voltage_mv) } else { v }
    }
}

pub open spec fn seq_min(s: Seq<i32>) -> i32
    decreases s.len(),
{
    if s.len() <= 1 {
        s[0]
    } else {
        let m = seq_min(s.drop_last());
        if s.last() < m { s.last() } else { m }
    }
}

pub open spec fn seq_max(s: Seq<i32>) -> i32
    decreases s.len(),
{
    if s.len() <= 1 {
        s[0]
    } else {
        let m = seq_max(s.drop_last());
        if s.last() > m { s.last() } else { m }
    }
}

pub open spec fn seq_sum(s: Seq<i32>) -> int
    decreases s.len(),
{
    if s.len() == 0 {
        0
    } else {
        seq_sum(s.drop_last()) + s.last()
    }
}

/// Integer division rounding toward zero, for a positive divisor.
pub open spec fn trunc_div(a: int, b: int) -> int {
    if a >= 0 { a / b } else { -((-a) / b) }
}

/// The summary of a channel: minimum, maximum and mean voltage (rounded
/// toward zero), with the channel's quality hint.
pub open spec fn channel_summary(samples: Seq<TelemetrySample>, channel: u8) -> Option<MeterSummary> {
    let v = channel_voltages(samples, channel);
    if v.len() == 0 {
        None
    } else {
        let hint = meter_hint(channel as u16);
        Some(
            MeterSummary {
                channel,
                min_value: seq_min(v),
                max_value: seq_max(v),
                mean_value: trunc_div(seq_sum(v), v.len() as int) as i32,
                quality: if hint > 0xffff { 0xffffu16 } else { hint as u16 },
            },
        )
    }
}

/// The summaries of channels 0 to `k - 1` that have samples.
pub open spec fn summaries_upto(samples: Seq<TelemetrySample>, k: int) -> Seq<MeterSummary>
    decreases k,
{
    if k <= 0 {
        seq![]
    } else {
        let s = summaries_upto(samples, k - 1);
        match channel_summary(samples, (k - 1) as u8) {
            Some(m) => s.push(m),
            None => s,
        }
    }
}

/// A batch with samples but no summaries gets a summary for each of the
/// channels 0 to 7 that has samples.
pub open spec fn enrich_spec(b: TelemetryView) -> TelemetryView {
    if b.summaries.len() > 0 || b.samples.len() == 0 {
        b
    } else {
        TelemetryView { summaries: summaries_upto(b.samples, 8), ..b }
    }
}

/// One line of a text batch: `delta,channel,voltage,current,temp[,flags]`,
/// five or more fields; other lines are skipped.
pub open spec fn line_sample(st: (Seq<TelemetrySample>, DictView), line: Seq<u8>) -> (Seq<TelemetrySample>, DictView) {
    let parts = split_bytes(line, 0x2cu8);
    if parts.len() >= 5 {
        let s = TelemetrySample {
            delta_ms: or_zero(parse_unsigned(trim_spec(parts[0]), 0xffff_ffff)) as u32,
            channel: or_zero(parse_unsigned(trim_spec(parts[1]), 0xff)) as u8,
            voltage_mv: or_zero(parse_i32_spec(trim_spec(parts[2]))) as i32,
            current_ma: or_zero(parse_i32_spec(trim_spec(parts[3]))) as i32,
            temperature_mc: or_zero(parse_i32_spec(trim_spec(parts[4]))) as i32,
            flags: if parts.len() > 5 {
                or_zero(parse_unsigned(trim_spec(parts[5]), 0xffff)) as u16
            } else {
                0
            },
        };
        (st.0.push(s), st.1.intern(TokenClass::Meter, s.channel as u16, s.flags, line))
    } else {
        st
    }
}

pub open spec fn line_samples(st: (Seq<TelemetrySample>, DictView), lines: Seq<Seq<u8>>) -> (Seq<TelemetrySample>, DictView)
    decreases lines.len(),
{
    if lines.len() == 0 {
        st
    } else {
        line_sample(line_samples(st, lines.drop_last()), lines.last())
    }
}

pub open spec fn line_telemetry_spec(input: Seq<u8>, dict: DictView) -> (Result<TelemetryView>, DictView) {
    if !valid_utf8(input) {
        (Err(VoltError::InvalidUtf8), dict)
    } else {
        let (samples, d) = line_samples((seq![], dict), text_lines(input));
        (
            Ok(
                enrich_spec(
                    TelemetryView { source_id: 0, port_id: 0, start_time: 0, samples, summaries: seq![] },
                ),
            ),
            d,
        )
    }
}

/// A decoded telemetry batch: under 14 bytes it is text; otherwise source,
/// port, start time and tagged records.
pub open spec fn decoded_telemetry_spec(data: Seq<u8>, dict: DictView) -> (Result<TelemetryView>, DictView) {
    let c = CursorModel::fresh(data, "telemetry batch");
    if c.remaining() < 14 {
        line_telemetry_spec(data, dict)
    } else {
        let (src, c1) = c.read_u32();
        let (port, c2) = c1.read_u16();
        let (start, c3) = c2.read_u64();
        TelemetryState {
            batch: TelemetryView {
                source_id: src->Ok_0,
                port_id: port->Ok_0,
                start_time: start->Ok_0,
                samples: seq![],
                summaries: seq![],
            },
            voltage: 230_000,
            current: 0,
            temp: 25_000,
            dict,
        }.records_from(c3)
    }
}

proof fn lemma_records_bounded(s: TelemetryState, c: CursorModel)
    requires
        s.batch.samples.len() <= max_samples(),
        s.records_from(c).0 is Ok,
    ensures
        s.records_from(c).0->Ok_0.samples.len() <= max_samples(),
    decreases c.remaining(),
{
    if c.remaining() > 0 {
        let (rt, c1) = c.read_u8();
        let tag = rt->Ok_0;
        let (r, c2, s2) = s.tag_step(tag, c1);
        lemma_telemetry_step_forward(s, tag, c1);
        lemma_records_bounded(s2, c2);
    }
}

/// A binary telemetry batch (14 decoded bytes or more) that decodes holds
/// at most 4096 samples.
pub proof fn binary_batch_is_bounded(data: Seq<u8>, dict: DictView)
    requires
        data.len() >= 14,
        decoded_telemetry_spec(data, dict).0 is Ok,
    ensures
        decoded_telemetry_spec(data, dict).0->Ok_0.samples.len() <= max_samples(),
{
    let c = CursorModel::fresh(data, "telemetry batch");
    let (src, c1) = c.read_u32();
    let (port, c2) = c1.read_u16();
    let (start, c3) = c2.read_u64();
    lemma_records_bounded(
        TelemetryState {
            batch: TelemetryView {
                source_id: src->Ok_0,
                port_id: port->Ok_0,
                start_time: start->Ok_0,
                samples: seq![],
                summaries: seq![],
            },
            voltage: 230_000,
            current: 0,
            temp: 25_000,
            dict,
        },
        c3,
    );
}

/// A telemetry section: its payload decompressed, then decoded.
pub open spec fn telemetry_spec(input: Seq<u8>, compression: Compression, dict: DictView) -> (Result<TelemetryView>, DictView) {
    match decode_spec(compression, input) {
        Err(e) => (Err(e), dict),
        Ok(data) => decoded_telemetry_spec(data, dict),
    }
}

pub open spec fn telemetry_res(r: Result<TelemetryBatch>) -> Result<TelemetryView> {
    match r {
        Ok(b) => Ok(b@),
        Err(e) => Err(e),
    }
}

/// Decodes a telemetry section, interning meter labels and text lines in
/// `dictionary`.
pub fn parse_telemetry(input: &[u8], compression: Compression, dictionary: &mut Dictionary) -> (r: Result<TelemetryBatch>)
    ensures
        (telemetry_res(r), final(dictionary)@) == telemetry_spec(input@, compression, old(dictionary)@),
{
    let decoded = decode_payload(compression, input)?;
    let mut cur = ByteCursor::new(decoded.as_slice(), "telemetry batch");
    if cur.remaining() < 14 {
        return parse_line_telemetry(decoded.as_slice(), dictionary);
    }
    let source_id = cur.read_u32()?;
    let port_id = cur.read_u16()?;
    let start_time = cur.read_u64()?;
    let mut batch = TelemetryBatch { source_id, port_id, start_time, samples: Vec::new(), summaries: Vec::new() };
    let mut last_voltage: i32 = 230_000;
    let mut last_current: i32 = 0;
    let mut last_temp: i32 = 25_000;
    assert(batch@.samples =~= seq![]);
    assert(batch@.summaries =~= seq![]);
    while cur.remaining() > 0
        invariant
            telemetry_spec(input@, compression, old(dictionary)@) == (TelemetryState {
                batch: batch@,
                voltage: last_voltage,
                current: last_current,
                temp: last_temp,
                dict: dictionary@,
            }).records_from(cur@),
            batch@.samples.len() <= max_samples(),
        decreases cur@.remaining(),
    {
        let ghost s0 = TelemetryState {
            batch: batch@,
            voltage: last_voltage,
            current: last_current,
            temp: last_temp,
            dict: dictionary@,
        };
        let tag = match cur.read_u8() {
            Ok(t) => t,
            Err(e) => {
                return Err(e);
            },
        };
        let ghost c1 = cur@;
        let r = if tag == 0x30 {
            parse_sample(&mut cur, &mut batch, &mut last_voltage, &mut last_current, &mut last_temp, dictionary)
        } else if tag == 0x31 {
            parse_summary(&mut cur, &mut batch, &mut last_voltage, &mut last_current, &mut last_temp, dictionary)
        } else if tag == 0x32 {
            parse_meter_dictionary(&mut cur, &mut batch, &mut last_voltage, &mut last_current, &mut last_temp, dictionary)
        } else if tag == 0x33 {
            parse_sparse_samples(&mut cur, &mut batch, &mut last_voltage, &mut last_current, &mut last_temp, dictionary)
        } else {
            let skip = (tag & 0x0f) as usize;
            let rem = cur.remaining();
            let _ = cur.take(if skip < rem { skip } else { rem });
            Ok(())
        };
        assert((r, cur@, (TelemetryState {
            batch: batch@,
            voltage: last_voltage,
            current: last_current,
            temp: last_temp,
            dict: dictionary@,
        })) == s0.tag_step(tag, c1));
        match r {
            Ok(()) => {},
            Err(e) => {
                return Err(e);
            },
        }
        if batch.samples.len() > 4096 {
            return Err(VoltError::LimitExceeded("telemetry samples"));
        }
        proof {
            lemma_telemetry_step_forward(s0, tag, c1);
        }
    }
    enrich_summaries(&mut batch);
    Ok(batch)
}

fn parse_line_telemetry(input: &[u8], dictionary: &mut Dictionary) -> (r: Result<TelemetryBatch>)
    ensures
        (telemetry_res(r), final(dictionary)@) == line_telemetry_spec(input@, old(dictionary)@),
{
    if !is_valid_utf8(input) {
        return Err(VoltError::InvalidUtf8);
    }
    let lines = lines_of(input);
    let mut batch = TelemetryBatch { source_id: 0, port_id: 0, start_time: 0, samples: Vec::new(), summaries: Vec::new() };
    assert(batch@.samples =~= seq![]);
    assert(batch@.summaries =~= seq![]);
    let mut i: usize = 0;
    while i < lines.len()
        invariant
            0 <= i <= lines@.len(),
            seqs_of(lines@) == text_lines(input@),
            batch@ == (TelemetryView { samples: batch@.samples, ..batch@ }),
            batch@.source_id == 0 && batch@.port_id == 0 && batch@.start_time == 0,
            batch@.summaries == Seq::<MeterSummary>::empty(),
            (batch@.samples, dictionary@) == line_samples(
                (seq![], old(dictionary)@),
                seqs_of(lines@).take(i as int),
            ),
        decreases lines@.len() - i,
    {
        assert(seqs_of(lines@).take(i + 1).drop_last() =~= seqs_of(lines@).take(i as int));
        let line = lines[i].as_slice();
        let parts = split_on(line, 0x2c);
        if parts.len() >= 5 {
            let flags = if parts.len() > 5 {
                parse_trimmed_unsigned(parts[5].as_slice(), 0xffff) as u16
            } else {
                0
            };
            let sample = TelemetrySample {
                delta_ms: parse_trimmed_unsigned(parts[0].as_slice(), 0xffff_ffff) as u32,
                channel: parse_trimmed_unsigned(parts[1].as_slice(), 0xff) as u8,
                voltage_mv: parse_trimmed_i32(parts[2].as_slice()),
                current_ma: parse_trimmed_i32(parts[3].as_slice()),
                temperature_mc: parse_trimmed_i32(parts[4].as_slice()),
                flags,
            };
            let bytes = copy_bytes(line);
            dictionary.intern(TokenClass::Meter, sample.channel as u16, sample.flags, bytes);
            batch.samples.push(sample);
        }
        i = i + 1;
    }
    assert(seqs_of(lines@).take(lines@.len() as int) == seqs_of(lines@));
    enrich_summaries(&mut batch);
    Ok(batch)
}

fn parse_sample(
    cur: &mut ByteCursor<'_>,
    batch: &mut TelemetryBatch,
    voltage: &mut i32,
    current: &mut i32,
    temp: &mut i32,
    dictionary: &mut Dictionary,
) -> (r: Result<()>)
    ensures
        (r, final(cur)@, tstate(final(batch)@, *final(voltage), *final(current), *final(temp), final(dictionary)@))
            == tstate(old(batch)@, *old(voltage), *old(current), *old(temp), old(dictionary)@).sample(old(cur)@),
{
    let delta_ms = cur.read_var_u32()?;
    let channel = cur.read_u8()?;
    let dv = cur.read_var_i32()?;
    *voltage = voltage.wrapping_add(dv);
    let dc = cur.read_var_i32()?;
    *current = current.wrapping_add(dc);
    let dt = cur.read_var_i32()?;
    *temp = temp.wrapping_add(dt);
    let flags = cur.read_u16()?;
    batch.samples.push(
        TelemetrySample {
            delta_ms,
            channel,
            voltage_mv: *voltage,
            current_ma: *current,
            temperature_mc: *temp,
            flags,
        },
    );
    Ok(())
}

fn parse_summary(
    cur: &mut ByteCursor<'_>,
    batch: &mut TelemetryBatch,
    voltage: &mut i32,
    current: &mut i32,
    temp: &mut i32,
    dictionary: &mut Dictionary,
) -> (r: Result<()>)
    ensures
        (r, final(cur)@, tstate(final(batch)@, *final(voltage), *final(current), *final(temp), final(dictionary)@))
            == tstate(old(batch)@, *old(voltage), *old(current), *old(temp), old(dictionary)@).summary(old(cur)@),
{
    let channel = cur.read_u8()?;
    let min_value = cur.read_i32()?;
    let max_value = cur.read_i32()?;
    let mean_value = cur.read_i32()?;
    let quality = cur.read_u16()?;
    batch.summaries.push(MeterSummary { channel, min_value, max_value, mean_value, quality });
    Ok(())
}

fn parse_meter_dictionary(
    cur: &mut ByteCursor<'_>,
    batch: &mut TelemetryBatch,
    voltage: &mut i32,
    current: &mut i32,
    temp: &mut i32,
    dictionary: &mut Dictionary,
) -> (r: Result<()>)
    ensures
        (r, final(cur)@, tstate(final(batch)@, *final(voltage), *final(current), *final(temp), final(dictionary)@))
            == tstate(old(batch)@, *old(voltage), *old(current), *old(temp), old(dictionary)@).meter_dictionary(old(cur)@),
{
    let count = cur.read_u8()? as usize;
    let n = if count < 24 { count } else { 24 };
    let mut i: usize = 0;
    while i < n
        invariant
            0 <= i <= n <= 24,
            batch@ == old(batch)@,
            *voltage == *old(voltage),
            *current == *old(current),
            *temp == *old(temp),
            tstate(old(batch)@, *old(voltage), *old(current), *old(temp), old(dictionary)@).meter_dictionary(old(cur)@)
                == tstate(batch@, *voltage, *current, *temp, dictionary@).meter_labels_from(cur@, i as int, n as int),
        decreases n - i,
    {
        let channel = cur.read_u8()?;
        let label = cur.read_bytes_with_u8_len()?;
        let bytes = copy_bytes(label);
        dictionary.intern(TokenClass::Meter, channel as u16, label.len() as u16, bytes);
        i = i + 1;
    }
    Ok(())
}

fn parse_sparse_samples(
    cur: &mut ByteCursor<'_>,
    batch: &mut TelemetryBatch,
    voltage: &mut i32,
    current: &mut i32,
    temp: &mut i32,
    dictionary: &mut Dictionary,
) -> (r: Result<()>)
    ensures
        (r, final(cur)@, tstate(final(batch)@, *final(voltage), *final(current), *final(temp), final(dictionary)@))
            == tstate(old(batch)@, *old(voltage), *old(current), *old(temp), old(dictionary)@).sparse(old(cur)@),
{
    let channel = cur.read_u8()?;
    let count = cur.read_u8()? as usize;
    let scale = cur.read_i16()? as i32;
    let n = if count < 64 { count } else { 64 };
    let mut idx: usize = 0;
    while idx < n
        invariant
            0 <= idx <= n <= 64,
            dictionary@ == old(dictionary)@,
            *voltage == *old(voltage),
            *current == *old(current),
            *temp == *old(temp),
            tstate(old(batch)@, *old(voltage), *old(current), *old(temp), old(dictionary)@).sparse(old(cur)@)
                == tstate(batch@, *voltage, *current, *temp, dictionary@).sparse_from(cur@, channel, scale, idx as int, n as int),
        decreases n - idx,
    {
        let packed = cur.read_i16()? as i32;
        batch.samples.push(
            TelemetrySample {
                delta_ms: (idx as u32) * 1000,
                channel,
                voltage_mv: 200_000i32.wrapping_add(packed.wrapping_mul(scale)),
                current_ma: packed.wrapping_mul(17),
                temperature_mc: 20_000i32.wrapping_add(packed.wrapping_mul(3)),
                flags: 0x40,
            },
        );
        idx = idx + 1;
    }
    Ok(())
}

/// Summarises channels 0 to 7 when a batch has samples but no summaries.
fn enrich_summaries(batch: &mut TelemetryBatch)
    ensures
        final(batch)@ == enrich_spec(old(batch)@),
{
    if batch.summaries.len() > 0 || batch.samples.len() == 0 {
        return;
    }
    let ghost b0 = batch@;
    let mut channel: u8 = 0;
    while channel < 8
        invariant
            0 <= channel <= 8,
            batch@ == (TelemetryView { summaries: batch@.summaries, ..b0 }),
            batch@.summaries == summaries_upto(b0.samples, channel as int),
        decreases 8 - channel,
    {
        let ghost before = batch@.summaries;
        match summarize_channel(batch.samples.as_slice(), channel) {
            Some(m) => {
                batch.summaries.push(m);
            },
            None => {},
        }
        assert(batch@.summaries == summaries_upto(b0.samples, channel + 1));
        channel = channel + 1;
    }
}

fn summarize_channel(samples: &[TelemetrySample], channel: u8) -> (r: Option<MeterSummary>)
    ensures
        r == channel_summary(samples@, channel),
{
    let mut found = false;
    let mut min_value: i32 = 0;
    let mut max_value: i32 = 0;
    let mut total: i128 = 0;
    let mut count: u64 = 0;
    let mut i: usize = 0;
    while i < samples.len()
        invariant
            0 <= i <= samples@.len(),
            found == (channel_voltages(samples@.take(i as int), channel).len() > 0),
            count == channel_voltages(samples@.take(i as int), channel).len(),
            count <= i,
            total == seq_sum(channel_voltages(samples@.take(i as int), channel)),
            -0x8000_0000 * count <= total <= 0x7fff_ffff * count,
            found ==> min_value == seq_min(channel_voltages(samples@.take(i as int), channel)),
            found ==> max_value == seq_max(channel_voltages(samples@.take(i as int), channel)),
        decreases samples@.len() - i,
    {
        assert(samples@.take(i + 1).drop_last() =~= samples@.take(i as int));
        let ghost prev = channel_voltages(samples@.take(i as int), channel);
        let s = samples[i];
        assert(prev.push(s.voltage_mv).drop_last() =~= prev);
        if s.channel == channel {
            let v = s.voltage_mv;
            if !found {
                min_value = v;
                max_value = v;
                found = true;
            } else {
                if v < min_value {
                    min_value = v;
                }
                if v > max_value {
                    max_value = v;
                }
            }
            total = total + v as i128;
            count = count + 1;
        }
        i = i + 1;
    }
    assert(samples@.take(samples@.len() as int) == samples@);
    if !found {
        return None;
    }
    let mean: i128 = if total >= 0 {
        total / (count as i128)
    } else {
        0 - ((0 - total) / (count as i128))
    };
    let hint = meter_quality_hint(channel as u16);
    let quality: u16 = if hint > 0xffff { 0xffff } else { hint as u16 };
    Some(MeterSummary { channel, min_value, max_value, mean_value: mean as i32, quality })
}

proof fn lemma_sum_bounds(v: Seq<i32>)
    requires
        v.len() > 0,
    ensures
        v.len() * (seq_min(v) as int) <= seq_sum(v) <= v.len() * (seq_max(v) as int),
        seq_min(v) <= seq_max(v),
    decreases v.len(),
{
    if v.len() == 1 {
        assert(v.drop_last().len() == 0);
        assert(seq_sum(v.drop_last()) == 0);
        assert(seq_sum(v) == v[0]);
    } else {
        let p = v.drop_last();
        lemma_sum_bounds(p);
        let n = p.len() as int;
        let lo = seq_min(p) as int;
        let hi = seq_max(p) as int;
        let m = seq_min(v) as int;
        let x = seq_max(v) as int;
        assert(m <= lo && m <= v.last() && x >= hi && x >= v.last());
        assert(n * m <= n * lo) by (nonlinear_arith)
            requires
                m <= lo,
                n >= 0,
        ;
        assert(n * hi <= n * x) by (nonlinear_arith)
            requires
                hi <= x,
                n >= 0,
        ;
        assert((n + 1) * m == n * m + m) by (nonlinear_arith);
        assert((n + 1) * x == n * x + x) by (nonlinear_arith);
    }
}

proof fn lemma_mean_between(sum: int, n: int, lo: int, hi: int)
    requires
        n > 0,
        n * lo <= sum <= n * hi,
    ensures
        lo <= trunc_div(sum, n) <= hi,
{
    if sum >= 0 {
        vstd::arithmetic::div_mod::lemma_div_is_ordered(n * lo, sum, n);
        vstd::arithmetic::div_mod::lemma_div_is_ordered(sum, n * hi, n);
        vstd::arithmetic::div_mod::lemma_div_multiples_vanish(lo, n);
        vstd::arithmetic::div_mod::lemma_div_multiples_vanish(hi, n);
    } else {
        assert(-sum <= n * (-lo)) by (nonlinear_arith)
            requires
                n * lo <= sum,
        ;
        assert(n * (-hi) <= -sum) by (nonlinear_arith)
            requires
                sum <= n * hi,
        ;
        vstd::arithmetic::div_mod::lemma_div_is_ordered(-sum, n * (-lo), n);
        vstd::arithmetic::div_mod::lemma_div_is_ordered(n * (-hi), -sum, n);
        vstd::arithmetic::div_mod::lemma_div_multiples_vanish(-lo, n);
        vstd::arithmetic::div_mod::lemma_div_multiples_vanish(-hi, n);
    }
}

/// A computed channel summary has its mean between its minimum and its
/// maximum.
pub proof fn channel_summary_is_ordered(samples: Seq<TelemetrySample>, channel: u8)
    requires
        channel_summary(samples, channel) is Some,
    ensures
        ({
            let m = channel_summary(samples, channel)->Some_0;
            m.min_value <= m.mean_value <= m.max_value
        }),
{
    let v = channel_voltages(samples, channel);
    lemma_sum_bounds(v);
    lemma_mean_between(seq_sum(v), v.len() as int, seq_min(v) as int, seq_max(v) as int);
}

proof fn lemma_summaries_ordered(samples: Seq<TelemetrySample>, k: int)
    ensures
        forall|i: int|
            0 <= i < summaries_upto(samples, k).len() ==> (#[trigger] summaries_upto(samples, k)[i]).min_value
                <= summaries_upto(samples, k)[i].mean_value <= summaries_upto(samples, k)[i].max_value,
    decreases k,
{
    if k > 0 {
        lemma_summaries_ordered(samples, k - 1);
        let s = summaries_upto(samples, k - 1);
        match channel_summary(samples, (k - 1) as u8) {
            Some(m) => {
                channel_summary_is_ordered(samples, (k - 1) as u8);
                let r = summaries_upto(samples, k);
                assert(r == s.push(m));
                assert forall|i: int| 0 <= i < r.len() implies (#[trigger] r[i]).min_value <= r[i].mean_value
                    <= r[i].max_value by {
                    if i < s.len() {
                        assert(r[i] == s[i]);
                    }
                }
            },
            None => {},
        }
    }
}

/// Every summary that enrichment computes for a batch without summaries has
/// its mean between its minimum and its maximum.
pub proof fn enriched_summaries_are_ordered(b: TelemetryView)
    requires
        b.summaries.len() == 0,
    ensures
        forall|i: int|
            0 <= i < enrich_spec(b).summaries.len() ==> (#[trigger] enrich_spec(b).summaries[i]).min_value
                <= enrich_spec(b).summaries[i].mean_value <= enrich_spec(b).summaries[i].max_value,
{
    lemma_summaries_ordered(b.samples, 8);
}

} // verus!
