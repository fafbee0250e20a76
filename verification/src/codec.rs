use vstd::prelude::*;
use crate::cursor::{ByteCursor, CursorModel};
use crate::dictionary::{copy_bytes, forward, lemma_take_forward};
use crate::error::{Result, VoltError};
use crate::model::Compression;
use crate::text::push_char;

verus! {

/// The most bytes a decoder produces.
pub open spec fn max_decoded() -> int {
    0x10_0000
}

pub const MAX_DECODED: usize = 0x10_0000;

/// `n` copies of `b`.
pub open spec fn repeat(b: u8, n: int) -> Seq<u8> {
    Seq::new(n as nat, |i: int| b)
}

/// Copies `n` bytes from `dist` bytes back, one at a time, so that a copy
/// may overlap the bytes it produces.
pub open spec fn copy_back(out: Seq<u8>, dist: int, n: nat) -> Seq<u8>
    decreases n,
{
    if n == 0 {
        out
    } else {
        let o = copy_back(out, dist, (n - 1) as nat);
        o.push(o[o.len() - dist])
    }
}

/// A back-reference: nothing happens on an empty output or a zero length;
/// a distance of zero or past the start of the output is an error;
/// otherwise up to `len` bytes are copied, never past the output limit.
pub open spec fn backref(out: Seq<u8>, dist: int, len: int) -> Result<Seq<u8>> {
    if len == 0 || out.len() == 0 {
        Ok(out)
    } else if dist == 0 || dist > out.len() {
        Err(VoltError::Decode("backref distance"))
    } else {
        let room = if max_decoded() > out.len() { max_decoded() - out.len() } else { 0 };
        let n = if len < room { len } else { room };
        Ok(copy_back(out, dist, n as nat))
    }
}

/// Run-length decoding from the cursor on, with `out` decoded so far.
pub open spec fn rle_from(c: CursorModel, out: Seq<u8>) -> Result<Seq<u8>>
    decreases c.remaining(),
{
    if c.remaining() <= 0 {
        Ok(out)
    } else {
        match c.read_u8() {
            (Err(e), _) => Err(e),
            (Ok(tag), c1) => {
                if tag & 0x80u8 == 0 {
                    match c1.take(tag as int + 1) {
                        (Err(e), _) => Err(e),
                        (Ok(b), c2) => {
                            let o = out + b;
                            if o.len() > max_decoded() {
                                Err(VoltError::LimitExceeded("rle output"))
                            } else {
                                rle_from(c2, o)
                            }
                        },
                    }
                } else {
                    let run = (tag & 0x3fu8) as int + 3;
                    match c1.read_u8() {
                        (Err(e), _) => Err(e),
                        (Ok(b), c2) => {
                            if out.len() + run > max_decoded() {
                                Err(VoltError::LimitExceeded("rle output"))
                            } else {
                                rle_from(c2, out + repeat(b, run))
                            }
                        },
                    }
                }
            },
        }
    }
}

pub open spec fn decode_rle_spec(input: Seq<u8>) -> Result<Seq<u8>> {
    rle_from(CursorModel::fresh(input, "rle payload"), seq![])
}

pub open spec fn rotl8(x: u8) -> u8 {
    ((x << 1u8) | (x >> 7u8)) as u8
}

/// Delta literals: each byte is xored with the previous output rotated.
pub open spec fn delta_literal(out: Seq<u8>, last: u8, bytes: Seq<u8>) -> (Seq<u8>, u8)
    decreases bytes.len(),
{
    if bytes.len() == 0 {
        (out, last)
    } else {
        let (o, l) = delta_literal(out, last, bytes.drop_last());
        let v = bytes.last() ^ rotl8(l);
        (o.push(v), v)
    }
}

/// A ramp: `count` bytes, each `step` above the one before.
pub open spec fn delta_ramp(out: Seq<u8>, last: u8, step: u8, count: nat) -> (Seq<u8>, u8)
    decreases count,
{
    if count == 0 {
        (out, last)
    } else {
        let (o, l) = delta_ramp(out, last, step, (count - 1) as nat);
        let v = ((l + step) % 256) as u8;
        (o.push(v), v)
    }
}

/// One dictionary-delta operation, its code already read: the output and
/// last byte after it, and the cursor after it.
pub open spec fn delta_step(op: u8, c: CursorModel, out: Seq<u8>, last: u8) -> (Result<(Seq<u8>, u8)>, CursorModel) {
    let kind = op >> 6u8;
    if kind == 0 {
        match c.take((op & 0x3fu8) as int) {
            (Err(e), c1) => (Err(e), c1),
            (Ok(b), c1) => (Ok(delta_literal(out, last, b)), c1),
        }
    } else if kind == 1 {
        match c.read_u8() {
            (Err(e), c1) => (Err(e), c1),
            (Ok(step), c1) => (Ok(delta_ramp(out, last, step, ((op & 0x3fu8) as int + 1) as nat)), c1),
        }
    } else if kind == 2 {
        match c.read_u8() {
            (Err(e), c1) => (Err(e), c1),
            (Ok(d), c1) => {
                let dist = d as int + 1 + ((op & 0x20u8) as int) * 8;
                match backref(out, dist, (op & 0x1fu8) as int + 3) {
                    Err(e) => (Err(e), c1),
                    Ok(o) => (Ok((o, last)), c1),
                }
            },
        }
    } else {
        let target = out.len() + (op & 0x3fu8) as int + 1;
        let n = if target < max_decoded() { target } else { max_decoded() };
        if n <= out.len() {
            (Ok((out.take(n), last)), c)
        } else {
            (Ok((out + repeat(last, n - out.len()), last)), c)
        }
    }
}

pub open spec fn delta_from(c: CursorModel, out: Seq<u8>, last: u8) -> Result<Seq<u8>>
    decreases c.remaining(),
{
    if c.remaining() <= 0 {
        Ok(out)
    } else {
        match c.read_u8() {
            (Err(e), _) => Err(e),
            (Ok(op), c1) => match delta_step(op, c1, out, last) {
                (Err(e), _) => Err(e),
                (Ok((o, l)), c2) => {
                    if o.len() > max_decoded() {
                        Err(VoltError::LimitExceeded("dictionary delta output"))
                    } else {
                        proof {
                            lemma_delta_step_forward(op, c1, out, last);
                        }
                        delta_from(c2, o, l)
                    }
                },
            },
        }
    }
}

pub open spec fn decode_delta_spec(input: Seq<u8>) -> Result<Seq<u8>> {
    delta_from(CursorModel::fresh(input, "dictionary delta payload"), seq![], 0)
}

pub proof fn lemma_delta_step_forward(op: u8, c: CursorModel, out: Seq<u8>, last: u8)
    ensures
        forward(c, delta_step(op, c, out, last).1),
{
}

/// One back-reference stream token, its tag already read.
pub open spec fn backref_step(tag: u8, c: CursorModel, out: Seq<u8>) -> (Result<Seq<u8>>, CursorModel) {
    if tag & 0x80u8 == 0 {
        let want = (tag & 0x1fu8) as int + 1;
        let n = if want < c.remaining() { want } else { c.remaining() };
        match c.take(n) {
            (Err(e), c1) => (Err(e), c1),
            (Ok(b), c1) => (Ok(out + b), c1),
        }
    } else {
        match c.read_u8() {
            (Err(e), c1) => (Err(e), c1),
            (Ok(lo), c1) => {
                let base = ((tag & 0x70u8) as int) * 16 + lo as int;
                let d0 = if tag & 0x20u8 != 0 { base + out.len() % 128 } else { base };
                let d = if d0 == 0 { 1 } else { d0 };
                (backref(out, d, (tag & 0x0fu8) as int + 4), c1)
            },
        }
    }
}

pub open spec fn backref_from(c: CursorModel, out: Seq<u8>) -> Result<Seq<u8>>
    decreases c.remaining(),
{
    if c.remaining() <= 0 {
        Ok(out)
    } else {
        match c.read_u8() {
            (Err(e), _) => Err(e),
            (Ok(tag), c1) => match backref_step(tag, c1, out) {
                (Err(e), _) => Err(e),
                (Ok(o), c2) => {
                    if o.len() > max_decoded() {
                        Err(VoltError::LimitExceeded("backref output"))
                    } else {
                        proof {
                            lemma_backref_step_forward(tag, c1, out);
                        }
                        backref_from(c2, o)
                    }
                },
            },
        }
    }
}

pub proof fn lemma_backref_step_forward(tag: u8, c: CursorModel, out: Seq<u8>)
    ensures
        forward(c, backref_step(tag, c, out).1),
{
}

/// A back-reference stream: an optional 16-bit size hint, then tokens.
pub open spec fn decode_backref_spec(input: Seq<u8>) -> Result<Seq<u8>> {
    let c = CursorModel::fresh(input, "backref payload");
    if c.remaining() >= 2 {
        backref_from(c.read_u16().1, seq![])
    } else {
        backref_from(c, seq![])
    }
}

/// What a payload decodes to under a compression.
pub open spec fn decode_spec(kind: Compression, input: Seq<u8>) -> Result<Seq<u8>> {
    match kind {
        Compression::Raw => Ok(input),
        Compression::Rle => decode_rle_spec(input),
        Compression::BitBackref => decode_backref_spec(input),
        Compression::DictionaryDelta => decode_delta_spec(input),
    }
}

proof fn lemma_rle_bounded(c: CursorModel, out: Seq<u8>)
    requires
        out.len() <= max_decoded(),
        rle_from(c, out) is Ok,
    ensures
        rle_from(c, out)->Ok_0.len() <= max_decoded(),
    decreases c.remaining(),
{
    if c.remaining() > 0 {
        let (rt, c1) = c.read_u8();
        let tag = rt->Ok_0;
        if tag & 0x80u8 == 0 {
            let (rb, c2) = c1.take(tag as int + 1);
            lemma_rle_bounded(c2, out + rb->Ok_0);
        } else {
            let (rb, c2) = c1.read_u8();
            lemma_rle_bounded(c2, out + repeat(rb->Ok_0, (tag & 0x3fu8) as int + 3));
        }
    }
}

proof fn lemma_delta_bounded(c: CursorModel, out: Seq<u8>, last: u8)
    requires
        out.len() <= max_decoded(),
        delta_from(c, out, last) is Ok,
    ensures
        delta_from(c, out, last)->Ok_0.len() <= max_decoded(),
    decreases c.remaining(),
{
    if c.remaining() > 0 {
        let (rop, c1) = c.read_u8();
        let op = rop->Ok_0;
        let (r, c2) = delta_step(op, c1, out, last);
        let (o, l) = r->Ok_0;
        lemma_delta_step_forward(op, c1, out, last);
        lemma_delta_bounded(c2, o, l);
    }
}

proof fn lemma_backref_bounded(c: CursorModel, out: Seq<u8>)
    requires
        out.len() <= max_decoded(),
        backref_from(c, out) is Ok,
    ensures
        backref_from(c, out)->Ok_0.len() <= max_decoded(),
    decreases c.remaining(),
{
    if c.remaining() > 0 {
        let (rt, c1) = c.read_u8();
        let tag = rt->Ok_0;
        let (r, c2) = backref_step(tag, c1, out);
        lemma_backref_step_forward(tag, c1, out);
        lemma_backref_bounded(c2, r->Ok_0);
    }
}

/// Whatever the compression, a payload that decodes is at most 1 MiB once
/// decoded, unless it was stored raw.
pub proof fn decoded_payload_is_bounded(kind: Compression, input: Seq<u8>)
    requires
        kind != Compression::Raw,
        decode_spec(kind, input) is Ok,
    ensures
        decode_spec(kind, input)->Ok_0.len() <= max_decoded(),
{
    match kind {
        Compression::Rle => lemma_rle_bounded(CursorModel::fresh(input, "rle payload"), seq![]),
        Compression::DictionaryDelta => lemma_delta_bounded(
            CursorModel::fresh(input, "dictionary delta payload"),
            seq![],
            0,
        ),
        Compression::BitBackref => {
            let c = CursorModel::fresh(input, "backref payload");
            if c.remaining() >= 2 {
                lemma_backref_bounded(c.read_u16().1, seq![]);
            } else {
                lemma_backref_bounded(c, seq![]);
            }
        },
        Compression::Raw => {},
    }
}

/// A run token: a tag with bit 7 set and a byte decode to the byte repeated
/// (tag & 0x3f) + 3 times, so never more than 66 bytes.
pub proof fn rle_run_token(tag: u8, b: u8)
    requires
        tag & 0x80u8 != 0,
    ensures
        decode_spec(Compression::Rle, seq![tag, b]) == Ok::<Seq<u8>, VoltError>(
            Seq::new(((tag & 0x3fu8) as int + 3) as nat, |i: int| b),
        ),
        ((tag & 0x3fu8) as int + 3) <= 66,
{
    let c = CursorModel::fresh(seq![tag, b], "rle payload");
    let c1 = c.read_u8().1;
    let c2 = c1.read_u8().1;
    assert(c2.remaining() == 0);
    assert((tag & 0x3fu8) <= 0x3fu8) by (bit_vector);
    let o = Seq::<u8>::empty() + repeat(b, (tag & 0x3fu8) as int + 3);
    assert(o =~= Seq::new(((tag & 0x3fu8) as int + 3) as nat, |i: int| b));
    assert(rle_from(c2, o) == Ok::<Seq<u8>, VoltError>(o));
    assert(rle_from(c, Seq::<u8>::empty()) == rle_from(c2, o));
}

/// A literal token: a tag with bit 7 clear followed by tag + 1 bytes decodes
/// to exactly those bytes.
pub proof fn rle_literal_token(tag: u8, bytes: Seq<u8>)
    requires
        tag & 0x80u8 == 0,
        bytes.len() == tag as int + 1,
    ensures
        decode_spec(Compression::Rle, seq![tag] + bytes) == Ok::<Seq<u8>, VoltError>(bytes),
{
    let input = seq![tag] + bytes;
    let c = CursorModel::fresh(input, "rle payload");
    let c1 = c.read_u8().1;
    assert(c.read_u8().0 == Ok::<u8, VoltError>(tag));
    assert(c1.take(tag as int + 1).0 == Ok::<Seq<u8>, VoltError>(bytes)) by {
        assert(input.subrange(1, 1 + tag as int + 1) =~= bytes);
    }
    let c2 = c1.take(tag as int + 1).1;
    assert(c2.remaining() == 0);
    let o = Seq::<u8>::empty() + bytes;
    assert(o =~= bytes);
    assert(rle_from(c2, o) == Ok::<Seq<u8>, VoltError>(o));
    assert(rle_from(c, Seq::<u8>::empty()) == rle_from(c2, o));
}

/// A cursor over `data` at `pos`, naming `ctx` in its errors.
pub open spec fn cursor_at(data: Seq<u8>, pos: int, ctx: &'static str) -> CursorModel {
    CursorModel { data, pos, ctx }
}

proof fn lemma_rle_extend(x: Seq<u8>, y: Seq<u8>, pos: int, ctx: &'static str, out: Seq<u8>)
    requires
        0 <= pos <= x.len(),
        rle_from(cursor_at(x, pos, ctx), out) is Ok,
    ensures
        rle_from(cursor_at(x + y, pos, ctx), out) == rle_from(
            cursor_at(x + y, x.len() as int, ctx),
            rle_from(cursor_at(x, pos, ctx), out)->Ok_0,
        ),
    decreases x.len() - pos,
{
    let c = cursor_at(x, pos, ctx);
    let d = cursor_at(x + y, pos, ctx);
    if pos < x.len() {
        let (rt, c1) = c.read_u8();
        let tag = rt->Ok_0;
        assert(d.read_u8().0 == rt);
        if tag & 0x80u8 == 0 {
            let n = tag as int + 1;
            let (rb, c2) = c1.take(n);
            assert(rb is Ok);
            assert((x + y).subrange(pos + 1, pos + 1 + n) =~= x.subrange(pos + 1, pos + 1 + n));
            assert(d.advance(1).take(n).0 == rb);
            lemma_rle_extend(x, y, pos + 1 + n, ctx, out + rb->Ok_0);
        } else {
            let (rb, c2) = c1.read_u8();
            assert(rb is Ok);
            assert(d.advance(1).read_u8().0 == rb);
            lemma_rle_extend(x, y, pos + 2, ctx, out + repeat(rb->Ok_0, (tag & 0x3fu8) as int + 3));
        }
    }
}

proof fn lemma_rle_shift(pre: Seq<u8>, y: Seq<u8>, pos: int, ctx: &'static str, p: Seq<u8>, out: Seq<u8>)
    requires
        0 <= pos,
        rle_from(cursor_at(y, pos, ctx), out) is Ok,
        p.len() + rle_from(cursor_at(y, pos, ctx), out)->Ok_0.len() <= max_decoded(),
    ensures
        rle_from(cursor_at(y, pos, ctx), out)->Ok_0.len() >= out.len(),
        rle_from(cursor_at(pre + y, pre.len() + pos, ctx), p + out) == Ok::<Seq<u8>, VoltError>(
            p + rle_from(cursor_at(y, pos, ctx), out)->Ok_0,
        ),
    decreases cursor_at(y, pos, ctx).remaining(),
{
    let c = cursor_at(y, pos, ctx);
    let d = cursor_at(pre + y, pre.len() + pos, ctx);
    if c.remaining() > 0 {
        let (rt, c1) = c.read_u8();
        let tag = rt->Ok_0;
        assert(d.read_u8().0 == rt);
        if tag & 0x80u8 == 0 {
            let n = tag as int + 1;
            let (rb, c2) = c1.take(n);
            assert(rb is Ok);
            let b = rb->Ok_0;
            assert((pre + y).subrange(pre.len() + pos + 1, pre.len() + pos + 1 + n) =~= y.subrange(pos + 1, pos + 1 + n));
            assert(d.advance(1).take(n).0 == rb);
            lemma_rle_shift(pre, y, pos + 1 + n, ctx, p, out + b);
            assert(p + out + b =~= p + (out + b));
        } else {
            let (rb, c2) = c1.read_u8();
            assert(rb is Ok);
            let r = repeat(rb->Ok_0, (tag & 0x3fu8) as int + 3);
            assert(d.advance(1).read_u8().0 == rb);
            lemma_rle_shift(pre, y, pos + 2, ctx, p, out + r);
            assert(p + out + r =~= p + (out + r));
        }
    } else {
        assert(pre.len() + pos >= (pre + y).len());
    }
}

/// Run-length payloads concatenate: when two payloads decode and their
/// outputs together stay within the limit, the two payloads written one
/// after the other decode to the two outputs one after the other.
pub proof fn rle_payloads_concatenate(x: Seq<u8>, y: Seq<u8>)
    requires
        decode_spec(Compression::Rle, x) is Ok,
        decode_spec(Compression::Rle, y) is Ok,
        decode_spec(Compression::Rle, x)->Ok_0.len() + decode_spec(Compression::Rle, y)->Ok_0.len() <= max_decoded(),
    ensures
        decode_spec(Compression::Rle, x + y) == Ok::<Seq<u8>, VoltError>(
            decode_spec(Compression::Rle, x)->Ok_0 + decode_spec(Compression::Rle, y)->Ok_0,
        ),
{
    let ctx = "rle payload";
    lemma_rle_extend(x, y, 0, ctx, seq![]);
    let rx = decode_spec(Compression::Rle, x)->Ok_0;
    lemma_rle_shift(x, y, 0, ctx, rx, seq![]);
    assert(rx + Seq::<u8>::empty() =~= rx);
}

proof fn lemma_copy_back(out: Seq<u8>, dist: int, n: nat)
    requires
        1 <= dist <= out.len(),
    ensures
        copy_back(out, dist, n).len() == out.len() + n,
        forall|i: int| 0 <= i < out.len() ==> #[trigger] copy_back(out, dist, n)[i] == out[i],
        forall|i: int|
            out.len() <= i < out.len() + n ==> #[trigger] copy_back(out, dist, n)[i] == copy_back(out, dist, n)[i
                - dist],
    decreases n,
{
    if n > 0 {
        lemma_copy_back(out, dist, (n - 1) as nat);
        let o = copy_back(out, dist, (n - 1) as nat);
        let r = copy_back(out, dist, n);
        assert(r == o.push(o[o.len() - dist]));
        assert forall|i: int| out.len() <= i < out.len() + n implies #[trigger] r[i] == r[i - dist] by {
            if i < out.len() + n - 1 {
                assert(r[i] == o[i]);
                assert(r[i - dist] == o[i - dist]);
            }
        }
    }
}

/// A back-reference with a distance from 1 to the output's length keeps the
/// output and appends as many bytes as asked (never past 1 MiB), each equal
/// to the byte `dist` places before it, so that a copy may overlap itself.
pub proof fn backref_copies_from_behind(out: Seq<u8>, dist: int, len: int)
    requires
        1 <= dist <= out.len() <= max_decoded(),
        len >= 0,
    ensures
        backref(out, dist, len) matches Ok(r) && {
            let n = if len < max_decoded() - out.len() { len } else { max_decoded() - out.len() };
            &&& r.len() == out.len() + n
            &&& r.subrange(0, out.len() as int) == out
            &&& forall|i: int| out.len() <= i < r.len() ==> #[trigger] r[i] == r[i - dist]
        },
{
    if len > 0 {
        let n = if len < max_decoded() - out.len() { len } else { max_decoded() - out.len() };
        lemma_copy_back(out, dist, n as nat);
        let r = copy_back(out, dist, n as nat);
        assert(r.subrange(0, out.len() as int) =~= out);
    } else {
        assert(out.subrange(0, out.len() as int) =~= out);
    }
}

proof fn lemma_ramp(out: Seq<u8>, last: u8, step: u8, n: nat)
    ensures
        delta_ramp(out, last, step, n).0 == out + Seq::new(n, |i: int| ((last as int + (i + 1) * step as int) % 256) as u8),
        delta_ramp(out, last, step, n).1 == ((last as int + n * step as int) % 256) as u8,
    decreases n,
{
    if n > 0 {
        lemma_ramp(out, last, step, (n - 1) as nat);
        let l = ((last as int + (n - 1) * step as int) % 256) as u8;
        assert((l as int + step as int) % 256 == (last as int + n * step as int) % 256) by {
            vstd::arithmetic::div_mod::lemma_add_mod_noop(last as int + (n - 1) * step as int, step as int, 256);
            vstd::arithmetic::div_mod::lemma_mod_twice(step as int, 256);
            assert((n - 1) * step as int + step as int == n * step as int) by (nonlinear_arith);
        }
        assert(out + Seq::new((n - 1) as nat, |i: int| ((last as int + (i + 1) * step as int) % 256) as u8)
            + seq![((last as int + n * step as int) % 256) as u8] =~= out + Seq::new(
            n,
            |i: int| ((last as int + (i + 1) * step as int) % 256) as u8,
        ));
    }
}

/// A ramp operation (0x40 to 0x7f) with its step byte, as the first
/// operation of a dictionary-delta payload, decodes to (op & 0x3f) + 1
/// bytes: step, 2·step, 3·step, ... modulo 256.
pub proof fn delta_ramp_token(op: u8, step: u8)
    requires
        op >> 6u8 == 1,
    ensures
        decode_spec(Compression::DictionaryDelta, seq![op, step]) == Ok::<Seq<u8>, VoltError>(
            Seq::new(((op & 0x3fu8) as int + 1) as nat, |i: int| (((i + 1) * step as int) % 256) as u8),
        ),
{
    let c = CursorModel::fresh(seq![op, step], "dictionary delta payload");
    let c1 = c.read_u8().1;
    let c2 = c1.read_u8().1;
    let n = ((op & 0x3fu8) as int + 1) as nat;
    assert((op & 0x3fu8) <= 0x3fu8) by (bit_vector);
    lemma_ramp(Seq::<u8>::empty(), 0, step, n);
    let (o, l) = delta_ramp(Seq::<u8>::empty(), 0, step, n);
    assert(o =~= Seq::new(n, |i: int| (((i + 1) * step as int) % 256) as u8));
    assert(delta_step(op, c1, Seq::<u8>::empty(), 0) == (Ok::<(Seq<u8>, u8), VoltError>((o, l)), c2));
    assert(c2.remaining() == 0);
    assert(delta_from(c2, o, l) == Ok::<Seq<u8>, VoltError>(o));
    assert(delta_from(c, Seq::<u8>::empty(), 0) == delta_from(c2, o, l));
}

/// A raw payload decodes to itself.
pub proof fn raw_payload_is_unchanged(input: Seq<u8>)
    ensures
        decode_spec(Compression::Raw, input) == Ok::<Seq<u8>, VoltError>(input),
{
}

/// Decodes a payload according to its compression.
pub fn decode_payload(kind: Compression, input: &[u8]) -> (r: Result<Vec<u8>>)
    ensures
        match r {
            Ok(v) => decode_spec(kind, input@) == Ok::<Seq<u8>, VoltError>(v@),
            Err(e) => decode_spec(kind, input@) == Err::<Seq<u8>, VoltError>(e),
        },
{
    match kind {
        Compression::Raw => Ok(copy_bytes(input)),
        Compression::Rle => decode_rle(input),
        Compression::BitBackref => decode_backref_stream(input),
        Compression::DictionaryDelta => decode_dictionary_delta(input),
    }
}

/// Appends a byte string.
pub fn append_bytes(out: &mut Vec<u8>, bytes: &[u8])
    ensures
        final(out)@ == old(out)@ + bytes@,
{
    let mut i: usize = 0;
    while i < bytes.len()
        invariant
            0 <= i <= bytes.len(),
            out@ == old(out)@ + bytes@.take(i as int),
        decreases bytes.len() - i,
    {
        out.push(bytes[i]);
        assert(bytes@.take(i + 1) == bytes@.take(i as int).push(bytes@[i as int]));
        i = i + 1;
    }
    assert(bytes@.take(bytes.len() as int) == bytes@);
}

/// Appends `n` copies of `b`.
pub fn append_repeat(out: &mut Vec<u8>, b: u8, n: usize)
    ensures
        final(out)@ == old(out)@ + repeat(b, n as int),
{
    let mut i: usize = 0;
    while i < n
        invariant
            0 <= i <= n,
            out@ == old(out)@ + repeat(b, i as int),
        decreases n - i,
    {
        out.push(b);
        assert(repeat(b, i + 1) == repeat(b, i as int).push(b));
        i = i + 1;
    }
}

fn decode_rle(input: &[u8]) -> (r: Result<Vec<u8>>)
    ensures
        match r {
            Ok(v) => decode_rle_spec(input@) == Ok::<Seq<u8>, VoltError>(v@),
            Err(e) => decode_rle_spec(input@) == Err::<Seq<u8>, VoltError>(e),
        },
{
    let mut cur = ByteCursor::new(input, "rle payload");
    let mut out: Vec<u8> = Vec::new();
    while cur.remaining() > 0
        invariant
            decode_rle_spec(input@) == rle_from(cur@, out@),
            out@.len() <= max_decoded(),
        decreases cur@.remaining(),
    {
        let tag = cur.read_u8()?;
        if tag & 0x80 == 0 {
            let run = (tag as usize) + 1;
            let bytes = cur.take(run)?;
            append_bytes(&mut out, bytes);
        } else {
            let run = ((tag & 0x3f) as usize) + 3;
            let b = cur.read_u8()?;
            if out.len() + run > MAX_DECODED {
                return Err(VoltError::LimitExceeded("rle output"));
            }
            append_repeat(&mut out, b, run);
        }
        if out.len() > MAX_DECODED {
            return Err(VoltError::LimitExceeded("rle output"));
        }
    }
    Ok(out)
}

fn decode_dictionary_delta(input: &[u8]) -> (r: Result<Vec<u8>>)
    ensures
        match r {
            Ok(v) => decode_delta_spec(input@) == Ok::<Seq<u8>, VoltError>(v@),
            Err(e) => decode_delta_spec(input@) == Err::<Seq<u8>, VoltError>(e),
        },
{
    let mut cur = ByteCursor::new(input, "dictionary delta payload");
    let mut out: Vec<u8> = Vec::new();
    let mut last: u8 = 0;
    while cur.remaining() > 0
        invariant
            decode_delta_spec(input@) == delta_from(cur@, out@, last),
            out@.len() <= max_decoded(),
        decreases cur@.remaining(),
    {
        let op = cur.read_u8()?;
        let ghost c1 = cur@;
        let ghost out0 = out@;
        let ghost last0 = last;
        let kind = op >> 6;
        assert(op & 0x3fu8 <= 63u8) by (bit_vector);
        if kind == 0 {
            let len = (op & 0x3f) as usize;
            cur.check_wf();
            let bytes = cur.take(len)?;
            assert(bytes@.len() == len);
            let mut i: usize = 0;
            while i < bytes.len()
                invariant
                    0 <= i <= bytes.len(),
                    (out@, last) == delta_literal(out0, last0, bytes@.take(i as int)),
                    out0.len() <= max_decoded(),
                    out@.len() == out0.len() + i,
                    bytes.len() < 64,
                decreases bytes.len() - i,
            {
                assert(bytes@.take(i + 1).drop_last() == bytes@.take(i as int));
                let v = bytes[i] ^ ((last << 1) | (last >> 7));
                out.push(v);
                last = v;
                i = i + 1;
            }
            assert(bytes@.take(bytes.len() as int) == bytes@);
            assert(delta_step(op, c1, out0, last0) == (Ok::<(Seq<u8>, u8), VoltError>((out@, last)), cur@));
        } else if kind == 1 {
            let count = ((op & 0x3f) as usize) + 1;
            let step = cur.read_u8()?;
            let mut i: usize = 0;
            while i < count
                invariant
                    0 <= i <= count <= 64,
                    (out@, last) == delta_ramp(out0, last0, step, i as nat),
                    out0.len() <= max_decoded(),
                    out@.len() == out0.len() + i,
                decreases count - i,
            {
                last = last.wrapping_add(step);
                out.push(last);
                i = i + 1;
            }
            assert(delta_step(op, c1, out0, last0) == (Ok::<(Seq<u8>, u8), VoltError>((out@, last)), cur@));
        } else if kind == 2 {
            let count = ((op & 0x1f) as usize) + 3;
            let dist = (cur.read_u8()? as usize) + 1 + (((op & 0x20) as usize) * 8);
            backref_copy(&mut out, dist, count)?;
            assert(delta_step(op, c1, out0, last0) == (Ok::<(Seq<u8>, u8), VoltError>((out@, last)), cur@));
        } else {
            let count = ((op & 0x3f) as usize) + 1;
            let target = out.len() + count;
            let n = if target < MAX_DECODED { target } else { MAX_DECODED };
            let extra = n - out.len();
            append_repeat(&mut out, last, extra);
            if extra == 0 {
                assert(out0.take(n as int) == out0);
                assert(out@ == out0);
            }
            assert(delta_step(op, c1, out0, last0) == (Ok::<(Seq<u8>, u8), VoltError>((out@, last)), cur@));
        }
        assert(delta_step(op, c1, out0, last0) == (Ok::<(Seq<u8>, u8), VoltError>((out@, last)), cur@));
        if out.len() > MAX_DECODED {
            return Err(VoltError::LimitExceeded("dictionary delta output"));
        }
        proof {
            lemma_delta_step_forward(op, c1, out0, last0);
        }
    }
    Ok(out)
}

fn decode_backref_stream(input: &[u8]) -> (r: Result<Vec<u8>>)
    ensures
        match r {
            Ok(v) => decode_backref_spec(input@) == Ok::<Seq<u8>, VoltError>(v@),
            Err(e) => decode_backref_spec(input@) == Err::<Seq<u8>, VoltError>(e),
        },
{
    let mut cur = ByteCursor::new(input, "backref payload");
    if cur.remaining() >= 2 {
        let _expected = cur.read_u16();
    }
    let mut out: Vec<u8> = Vec::new();
    while cur.remaining() > 0
        invariant
            decode_backref_spec(input@) == backref_from(cur@, out@),
            out@.len() <= max_decoded(),
        decreases cur@.remaining(),
    {
        let tag = cur.read_u8()?;
        let ghost c1 = cur@;
        let ghost out0 = out@;
        if tag & 0x80 == 0 {
            let literal_len = ((tag & 0x1f) as usize) + 1;
            let rem = cur.remaining();
            let n = if literal_len < rem { literal_len } else { rem };
            let bytes = cur.take(n)?;
            append_bytes(&mut out, bytes);
        } else {
            let len = ((tag & 0x0f) as usize) + 4;
            let hi = ((tag & 0x70) as usize) * 16;
            let lo = cur.read_u8()? as usize;
            let mut distance = hi + lo;
            if tag & 0x20 != 0 {
                distance = distance + out.len() % 128;
            }
            if distance == 0 {
                distance = 1;
            }
            backref_copy(&mut out, distance, len)?;
        }
        assert(backref_step(tag, c1, out0) == (Ok::<Seq<u8>, VoltError>(out@), cur@));
        if out.len() > MAX_DECODED {
            return Err(VoltError::LimitExceeded("backref output"));
        }
        proof {
            lemma_backref_step_forward(tag, c1, out0);
        }
    }
    Ok(out)
}

/// Copies up to `len` bytes from `distance` bytes back onto the end of `out`.
fn backref_copy(out: &mut Vec<u8>, distance: usize, len: usize) -> (r: Result<()>)
    requires
        old(out)@.len() <= max_decoded(),
    ensures
        match r {
            Ok(()) => backref(old(out)@, distance as int, len as int) == Ok::<Seq<u8>, VoltError>(final(out)@),
            Err(e) => backref(old(out)@, distance as int, len as int) == Err::<Seq<u8>, VoltError>(e),
        },
{
    if len == 0 || out.len() == 0 {
        return Ok(());
    }
    if distance == 0 || distance > out.len() {
        return Err(VoltError::Decode("backref distance"));
    }
    let room = MAX_DECODED - out.len();
    let n = if len < room { len } else { room };
    let ghost start = out@;
    let mut i: usize = 0;
    while i < n
        invariant
            0 <= i <= n,
            n <= max_decoded(),
            0 < distance <= start.len(),
            out@ == copy_back(start, distance as int, i as nat),
            out@.len() == start.len() + i,
        decreases n - i,
    {
        let b = out[out.len() - distance];
        out.push(b);
        i = i + 1;
    }
    Ok(())
}

/// Printable text of a byte string: CR, LF and tab become spaces, printable
/// ASCII stays, anything else becomes a dot.
pub open spec fn normalize_byte(b: u8) -> char {
    if b == 0x0d || b == 0x0a || b == 0x09 {
        ' '
    } else if 0x20 <= b <= 0x7e {
        b as char
    } else {
        '.'
    }
}

pub open spec fn normalize_spec(bytes: Seq<u8>) -> Seq<char> {
    bytes.map_values(|b: u8| normalize_byte(b))
}

pub fn normalize_text(bytes: &[u8]) -> (r: String)
    ensures
        r@ == normalize_spec(bytes@),
{
    let mut s = String::new();
    let mut i: usize = 0;
    while i < bytes.len()
        invariant
            0 <= i <= bytes.len(),
            s@ == normalize_spec(bytes@.take(i as int)),
        decreases bytes.len() - i,
    {
        let b = bytes[i];
        let c = if b == 0x0d || b == 0x0a || b == 0x09 {
            ' '
        } else if 0x20 <= b && b <= 0x7e {
            b as char
        } else {
            '.'
        };
        push_char(&mut s, c);
        assert(normalize_spec(bytes@.take(i + 1)) == normalize_spec(bytes@.take(i as int)).push(c));
        i = i + 1;
    }
    assert(bytes@.take(bytes.len() as int) == bytes@);
    s
}

} // verus!
