use vstd::prelude::*;
use vstd::string::*;
use vstd::utf8::{decode_utf8, valid_utf8};
use crate::catalog::{station_by_model, station_spec, StationProfile};
use crate::checksum::{rolling_score_spec, rolling_window_score};
use crate::cursor::{ByteCursor, CursorModel};
use crate::dictionary::{copy_bytes, forward, DictView, Dictionary, TokenClass};
use crate::error::{Result, VoltError};
use crate::model::{CapabilityRecord, CapabilityView, Manifest, ManifestView, OperatorRecord, OperatorView, RouteRecord};
use crate::text::{
    decimal_chars, is_valid_utf8, lines_of, or_zero, parse_unsigned, parse_unsigned_text,
    push_decimal, seqs_of, split_once, split_once_on, text_lines, trim_spec, trim_ws, lossy_utf8,
    utf8_lossy,
};

verus! {

/// A manifest being decoded, with the dictionary it interns into.
pub struct ManifestState {
    pub m: ManifestView,
    pub dict: DictView,
}

pub type ManifestStep = (Result<()>, CursorModel, ManifestState);

pub open spec fn mstate(m: ManifestView, dict: DictView) -> ManifestState {
    ManifestState { m, dict }
}

/// The number of one bits of `x`.
pub open spec fn popcount(x: int) -> nat
    decreases x,
{
    if x <= 0 {
        0
    } else {
        (x % 2) as nat + popcount(x / 2)
    }
}

pub open spec fn pow2_nat(k: nat) -> nat
    decreases k,
{
    if k == 0 { 1 } else { 2 * pow2_nat((k - 1) as nat) }
}

proof fn lemma_popcount_le(x: int, k: nat)
    requires
        0 <= x < pow2_nat(k),
    ensures
        popcount(x) <= k,
    decreases k,
{
    if x > 0 {
        lemma_popcount_le(x / 2, (k - 1) as nat);
    }
}

proof fn lemma_popcount_bound(x: u32)
    ensures
        popcount(x as int) <= 32,
{
    reveal_with_fuel(pow2_nat, 33);
    assert(pow2_nat(32) == 0x1_0000_0000);
    lemma_popcount_le(x as int, 32);
}

/// `x.count_ones()`.
pub fn count_ones(x: u32) -> (r: u32)
    ensures
        r == popcount(x as int),
{
    let mut v = x;
    let mut n: u32 = 0;
    proof {
        lemma_popcount_bound(x);
    }
    while v != 0
        invariant
            n + popcount(v as int) == popcount(x as int),
            popcount(x as int) <= 32,
        decreases v,
    {
        n = n + v % 2;
        v = v / 2;
    }
    n
}

/// The description of a catalog capability: the family, the word
/// "capability" and the code in decimal.
pub open spec fn capability_text(family: Seq<char>, code: u16) -> Seq<char> {
    family + " capability "@ + decimal_chars(code as nat)
}

/// The capabilities a station profile grants: codes 0x3000 + `cap` for each
/// `cap` from the mask's trailing zero count up to its one count plus 4.
pub open spec fn profile_capabilities(p: StationProfile, from: int, to: int) -> Seq<CapabilityView>
    decreases to - from,
{
    if from >= to {
        seq![]
    } else {
        let code = (0x3000 + from) as u16;
        seq![
            CapabilityView {
                code,
                min_fw: p.min_fw,
                flags: (p.capability_mask as u16) ^ code,
                description: capability_text(p.family@, code),
            },
        ] + profile_capabilities(p, from + 1, to)
    }
}

/// Defaults for a missing model (0x1001) and firmware major (1); then, for
/// a model the catalog knows and a manifest without capabilities, the
/// profile's capabilities.
pub open spec fn enrich_manifest_spec(m: ManifestView) -> ManifestView {
    let model = if m.station_model == 0 { 0x1001u16 } else { m.station_model };
    let major = if m.firmware_major == 0 { 1u16 } else { m.firmware_major };
    let m1 = ManifestView { station_model: model, firmware_major: major, ..m };
    match station_spec(model) {
        Some(p) => if m1.capabilities.len() == 0 {
            let from = vstd::std_specs::bits::u32_trailing_zeros(p.capability_mask) as int;
            let to = (popcount(p.capability_mask as int) + 4) as int;
            ManifestView { capabilities: profile_capabilities(p, from, to), ..m1 }
        } else {
            m1
        },
        None => m1,
    }
}

impl ManifestState {
    /// One operator record: id, region, trust tier, length-prefixed name.
    pub open spec fn operator(self, c: CursorModel) -> ManifestStep {
        match c.read_u32() {
            (Err(e), c1) => (Err(e), c1, self),
            (Ok(id), c1) => match c1.read_u16() {
                (Err(e), c2) => (Err(e), c2, self),
                (Ok(region), c2) => match c2.read_u8() {
                    (Err(e), c3) => (Err(e), c3, self),
                    (Ok(tier), c3) => match c3.read_bytes_with_u8_len() {
                        (Err(e), c4) => (Err(e), c4, self),
                        (Ok(name), c4) => (
                            Ok(()),
                            c4,
                            mstate(
                                ManifestView {
                                    operators: self.m.operators.push(
                                        OperatorView { operator_id: id, region, name: lossy_utf8(name), trust_tier: tier },
                                    ),
                                    ..self.m
                                },
                                self.dict.intern(TokenClass::Operator, region, tier as u16, name),
                            ),
                        ),
                    },
                },
            },
        }
    }

    pub open spec fn operators_from(self, c: CursorModel) -> (Result<()>, ManifestState)
        decreases c.remaining(),
    {
        if c.remaining() < 8 {
            (Ok(()), self)
        } else {
            match self.operator(c) {
                (Err(e), _, s) => (Err(e), s),
                (Ok(()), c1, s) => s.operators_from(c1),
            }
        }
    }

    /// One route record: five fixed-width fields, twelve bytes.
    pub open spec fn route(self, c: CursorModel) -> ManifestStep {
        match c.read_u16() {
            (Err(e), c1) => (Err(e), c1, self),
            (Ok(a), c1) => match c1.read_u16() {
                (Err(e), c2) => (Err(e), c2, self),
                (Ok(b), c2) => match c2.read_u32() {
                    (Err(e), c3) => (Err(e), c3, self),
                    (Ok(t), c3) => match c3.read_u16() {
                        (Err(e), c4) => (Err(e), c4, self),
                        (Ok(n), c4) => match c4.read_u16() {
                            (Err(e), c5) => (Err(e), c5, self),
                            (Ok(f), c5) => (
                                Ok(()),
                                c5,
                                mstate(
                                    ManifestView {
                                        routes: self.m.routes.push(
                                            RouteRecord {
                                                route_id: a,
                                                feeder_id: b,
                                                transformer_id: t,
                                                station_count: n,
                                                risk_flags: f,
                                            },
                                        ),
                                        ..self.m
                                    },
                                    self.dict,
                                ),
                            ),
                        },
                    },
                },
            },
        }
    }

    pub open spec fn routes_from(self, c: CursorModel) -> (Result<()>, ManifestState)
        decreases c.remaining(),
    {
        if c.remaining() < 12 {
            (Ok(()), self)
        } else {
            match self.route(c) {
                (Err(e), _, s) => (Err(e), s),
                (Ok(()), c1, s) => s.routes_from(c1),
            }
        }
    }

    /// One capability record: code, minimum firmware, flags, and a
    /// length-prefixed description.
    pub open spec fn capability(self, c: CursorModel) -> ManifestStep {
        match c.read_u16() {
            (Err(e), c1) => (Err(e), c1, self),
            (Ok(code), c1) => match c1.read_u16() {
                (Err(e), c2) => (Err(e), c2, self),
                (Ok(min_fw), c2) => match c2.read_u16() {
                    (Err(e), c3) => (Err(e), c3, self),
                    (Ok(flags), c3) => match c3.read_bytes_with_u8_len() {
                        (Err(e), c4) => (Err(e), c4, self),
                        (Ok(d), c4) => (
                            Ok(()),
                            c4,
                            mstate(
                                ManifestView {
                                    capabilities: self.m.capabilities.push(
                                        CapabilityView { code, min_fw, flags, description: lossy_utf8(d) },
                                    ),
                                    ..self.m
                                },
                                self.dict.intern(TokenClass::Firmware, min_fw, flags, d),
                            ),
                        ),
                    },
                },
            },
        }
    }

    pub open spec fn capabilities_from(self, c: CursorModel) -> (Result<()>, ManifestState)
        decreases c.remaining(),
    {
        if c.remaining() < 7 {
            (Ok(()), self)
        } else {
            match self.capability(c) {
                (Err(e), _, s) => (Err(e), s),
                (Ok(()), c1, s) => s.capabilities_from(c1),
            }
        }
    }

    /// A block with an unknown tag is interned whole (up to 64 bytes) as a
    /// token of class `Unknown(tag)`.
    pub open spec fn unknown_block(self, tag: u8, body: Seq<u8>) -> ManifestState {
        let scope = (((tag as u16) << 8u16) | (body.len() as u16)) as u16;
        let score = rolling_score_spec(body) as u16;
        let kept = if body.len() > 64 { body.take(64) } else { body };
        mstate(self.m, self.dict.intern(TokenClass::Unknown(tag), scope, score, kept))
    }

    /// A block: 0x20 operators, 0x21 routes, 0x22 capabilities, 0x23
    /// dictionary operations, anything else an unknown block.
    pub open spec fn block(self, tag: u8, body: Seq<u8>) -> (Result<()>, ManifestState) {
        if tag == 0x20 {
            self.operators_from(CursorModel::fresh(body, "manifest operators"))
        } else if tag == 0x21 {
            self.routes_from(CursorModel::fresh(body, "manifest routes"))
        } else if tag == 0x22 {
            self.capabilities_from(CursorModel::fresh(body, "manifest capabilities"))
        } else if tag == 0x23 {
            let (r, d) = self.dict.parse_ops(body);
            (r, mstate(self.m, d))
        } else {
            (Ok(()), self.unknown_block(tag, body))
        }
    }

    /// The tagged blocks that remain in `c`, each a tag, a 16-bit length and
    /// that many bytes (or as many as remain).
    pub open spec fn blocks_from(self, c: CursorModel) -> (Result<ManifestView>, DictView)
        decreases c.remaining(),
    {
        if c.remaining() <= 0 {
            (Ok(enrich_manifest_spec(self.m)), self.dict)
        } else {
            match c.read_u8() {
                (Err(e), _) => (Err(e), self.dict),
                (Ok(tag), c1) => match c1.read_u16() {
                    (Err(e), _) => (Err(e), self.dict),
                    (Ok(len), c2) => {
                        let n = if (len as int) < c2.remaining() { len as int } else { c2.remaining() };
                        let (body, c3) = c2.take(n);
                        match self.block(tag, body->Ok_0) {
                            (Err(e), s) => (Err(e), s.dict),
                            (Ok(()), s) => s.blocks_from(c3),
                        }
                    },
                },
            }
        }
    }
}

/// The code of a text manifest key: 1 site, 2 model, 3 fw_major, 4
/// fw_minor, 5 epoch, 6 operator, 0 anything else.
pub open spec fn key_code(k: Seq<u8>) -> u8 {
    if k == seq![0x73u8, 0x69, 0x74, 0x65] {
        1
    } else if k == seq![0x6du8, 0x6f, 0x64, 0x65, 0x6c] {
        2
    } else if k == seq![0x66u8, 0x77, 0x5f, 0x6d, 0x61, 0x6a, 0x6f, 0x72] {
        3
    } else if k == seq![0x66u8, 0x77, 0x5f, 0x6d, 0x69, 0x6e, 0x6f, 0x72] {
        4
    } else if k == seq![0x65u8, 0x70, 0x6f, 0x63, 0x68] {
        5
    } else if k == seq![0x6fu8, 0x70, 0x65, 0x72, 0x61, 0x74, 0x6f, 0x72] {
        6
    } else {
        0
    }
}

/// One `key = value` line of a text manifest.
pub open spec fn text_line(st: ManifestState, line: Seq<u8>) -> ManifestState {
    let (k, v) = split_once(line, 0x3du8);
    let key = trim_spec(k);
    let value = trim_spec(v);
    let code = key_code(key);
    let m = st.m;
    if code == 1 {
        mstate(ManifestView { site_id: or_zero(parse_unsigned(value, 0xffff_ffff)) as u32, ..m }, st.dict)
    } else if code == 2 {
        mstate(ManifestView { station_model: or_zero(parse_unsigned(value, 0xffff)) as u16, ..m }, st.dict)
    } else if code == 3 {
        mstate(ManifestView { firmware_major: or_zero(parse_unsigned(value, 0xffff)) as u16, ..m }, st.dict)
    } else if code == 4 {
        mstate(ManifestView { firmware_minor: or_zero(parse_unsigned(value, 0xffff)) as u16, ..m }, st.dict)
    } else if code == 5 {
        mstate(ManifestView { policy_epoch: or_zero(parse_unsigned(value, 0xffff_ffff)) as u32, ..m }, st.dict)
    } else if code == 6 {
        let id = or_zero(parse_unsigned(value, 0xffff_ffff)) as u32;
        mstate(
            ManifestView {
                operators: m.operators.push(
                    OperatorView { operator_id: id, region: 0, name: lossy_utf8(value), trust_tier: 1 },
                ),
                ..m
            },
            st.dict.intern(TokenClass::Operator, 0, id as u16, value),
        )
    } else if key.len() > 0 {
        mstate(m, st.dict.intern(TokenClass::Station, 0, key.len() as u16, value))
    } else {
        st
    }
}

pub open spec fn text_lines_state(st: ManifestState, lines: Seq<Seq<u8>>) -> ManifestState
    decreases lines.len(),
{
    if lines.len() == 0 {
        st
    } else {
        text_line(text_lines_state(st, lines.drop_last()), lines.last())
    }
}

/// A text manifest: UTF-8 lines of `key = value`.
pub open spec fn text_manifest_spec(input: Seq<u8>, dict: DictView) -> (Result<ManifestView>, DictView) {
    if !valid_utf8(input) {
        (Err(VoltError::InvalidUtf8), dict)
    } else {
        let st = text_lines_state(mstate(ManifestView::empty(), dict), text_lines(input));
        (Ok(enrich_manifest_spec(st.m)), st.dict)
    }
}

/// A manifest: under 14 bytes it is text; otherwise site, model, firmware
/// version and policy epoch, then tagged blocks.
pub open spec fn manifest_spec(input: Seq<u8>, dict: DictView) -> (Result<ManifestView>, DictView) {
    let c = CursorModel::fresh(input, "manifest");
    if c.remaining() < 14 {
        text_manifest_spec(input, dict)
    } else {
        let (site, c1) = c.read_u32();
        let (model, c2) = c1.read_u16();
        let (major, c3) = c2.read_u16();
        let (minor, c4) = c3.read_u16();
        let (epoch, c5) = c4.read_u32();
        mstate(
            ManifestView {
                site_id: site->Ok_0,
                station_model: model->Ok_0,
                firmware_major: major->Ok_0,
                firmware_minor: minor->Ok_0,
                policy_epoch: epoch->Ok_0,
                ..ManifestView::empty()
            },
            dict,
        ).blocks_from(c5)
    }
}

pub open spec fn manifest_res(r: Result<Manifest>) -> Result<ManifestView> {
    match r {
        Ok(m) => Ok(m@),
        Err(e) => Err(e),
    }
}

/// Decodes a manifest section, interning operators, capabilities and
/// unknown blocks in `dictionary`.
pub fn parse_manifest(input: &[u8], dictionary: &mut Dictionary) -> (r: Result<Manifest>)
    ensures
        (manifest_res(r), final(dictionary)@) == manifest_spec(input@, old(dictionary)@),
{
    let mut cur = ByteCursor::new(input, "manifest");
    if cur.remaining() < 14 {
        return parse_text_manifest(input, dictionary);
    }
    let mut manifest = Manifest::empty();
    manifest.site_id = cur.read_u32()?;
    manifest.station_model = cur.read_u16()?;
    manifest.firmware_major = cur.read_u16()?;
    manifest.firmware_minor = cur.read_u16()?;
    manifest.policy_epoch = cur.read_u32()?;
    while cur.remaining() > 0
        invariant
            manifest_spec(input@, old(dictionary)@) == mstate(manifest@, dictionary@).blocks_from(cur@),
        decreases cur@.remaining(),
    {
        let ghost c0 = cur@;
        let tag = cur.read_u8()?;
        let len = cur.read_u16()? as usize;
        let rem = cur.remaining();
        cur.check_wf();
        let body = cur.take(if len < rem { len } else { rem })?;
        let ghost s0 = mstate(manifest@, dictionary@);
        if tag == 0x20 {
            parse_operator_records(body, &mut manifest, dictionary)?;
        } else if tag == 0x21 {
            parse_route_records(body, &mut manifest, dictionary)?;
        } else if tag == 0x22 {
            parse_capability_records(body, &mut manifest, dictionary)?;
        } else if tag == 0x23 {
            dictionary.parse_ops(body)?;
        } else {
            record_unknown_manifest_tag(tag, body, dictionary);
        }
        assert(s0.block(tag, body@) == (Ok::<(), VoltError>(()), mstate(manifest@, dictionary@)));
    }
    enrich_manifest(&mut manifest);
    Ok(manifest)
}

fn text_key_code(k: &[u8]) -> (r: u8)
    ensures
        r == key_code(k@),
{
    let n = k.len();
    if n == 4 && k[0] == 0x73 && k[1] == 0x69 && k[2] == 0x74 && k[3] == 0x65 {
        assert(k@ =~= seq![0x73u8, 0x69, 0x74, 0x65]);
        1
    } else if n == 5 && k[0] == 0x6d && k[1] == 0x6f && k[2] == 0x64 && k[3] == 0x65 && k[4] == 0x6c {
        assert(k@ =~= seq![0x6du8, 0x6f, 0x64, 0x65, 0x6c]);
        2
    } else if n == 8 && k[0] == 0x66 && k[1] == 0x77 && k[2] == 0x5f && k[3] == 0x6d && k[4] == 0x61
        && k[5] == 0x6a && k[6] == 0x6f && k[7] == 0x72 {
        assert(k@ =~= seq![0x66u8, 0x77, 0x5f, 0x6d, 0x61, 0x6a, 0x6f, 0x72]);
        3
    } else if n == 8 && k[0] == 0x66 && k[1] == 0x77 && k[2] == 0x5f && k[3] == 0x6d && k[4] == 0x69
        && k[5] == 0x6e && k[6] == 0x6f && k[7] == 0x72 {
        assert(k@ =~= seq![0x66u8, 0x77, 0x5f, 0x6d, 0x69, 0x6e, 0x6f, 0x72]);
        4
    } else if n == 5 && k[0] == 0x65 && k[1] == 0x70 && k[2] == 0x6f && k[3] == 0x63 && k[4] == 0x68 {
        assert(k@ =~= seq![0x65u8, 0x70, 0x6f, 0x63, 0x68]);
        5
    } else if n == 8 && k[0] == 0x6f && k[1] == 0x70 && k[2] == 0x65 && k[3] == 0x72 && k[4] == 0x61
        && k[5] == 0x74 && k[6] == 0x6f && k[7] == 0x72 {
        assert(k@ =~= seq![0x6fu8, 0x70, 0x65, 0x72, 0x61, 0x74, 0x6f, 0x72]);
        6
    } else {
        proof {
            if k@ == seq![0x73u8, 0x69, 0x74, 0x65] {
                assert(k@[0] == 0x73u8 && k@[1] == 0x69u8 && k@[2] == 0x74u8 && k@[3] == 0x65u8);
            }
            if k@ == seq![0x6du8, 0x6f, 0x64, 0x65, 0x6c] {
                assert(k@[0] == 0x6du8 && k@[4] == 0x6cu8 && k@[1] == 0x6fu8 && k@[2] == 0x64u8
                    && k@[3] == 0x65u8);
            }
            if k@ == seq![0x66u8, 0x77, 0x5f, 0x6d, 0x61, 0x6a, 0x6f, 0x72] {
                assert(k@[0] == 0x66u8 && k@[1] == 0x77u8 && k@[2] == 0x5fu8 && k@[3] == 0x6du8
                    && k@[4] == 0x61u8 && k@[5] == 0x6au8 && k@[6] == 0x6fu8 && k@[7] == 0x72u8);
            }
            if k@ == seq![0x66u8, 0x77, 0x5f, 0x6d, 0x69, 0x6e, 0x6f, 0x72] {
                assert(k@[0] == 0x66u8 && k@[1] == 0x77u8 && k@[2] == 0x5fu8 && k@[3] == 0x6du8
                    && k@[4] == 0x69u8 && k@[5] == 0x6eu8 && k@[6] == 0x6fu8 && k@[7] == 0x72u8);
            }
            if k@ == seq![0x65u8, 0x70, 0x6f, 0x63, 0x68] {
                assert(k@[0] == 0x65u8 && k@[1] == 0x70u8 && k@[2] == 0x6fu8 && k@[3] == 0x63u8
                    && k@[4] == 0x68u8);
            }
            if k@ == seq![0x6fu8, 0x70, 0x65, 0x72, 0x61, 0x74, 0x6f, 0x72] {
                assert(k@[0] == 0x6fu8 && k@[1] == 0x70u8 && k@[2] == 0x65u8 && k@[3] == 0x72u8
                    && k@[4] == 0x61u8 && k@[5] == 0x74u8 && k@[6] == 0x6fu8 && k@[7] == 0x72u8);
            }
        }
        0
    }
}

fn parse_text_manifest(input: &[u8], dictionary: &mut Dictionary) -> (r: Result<Manifest>)
    ensures
        (manifest_res(r), final(dictionary)@) == text_manifest_spec(input@, old(dictionary)@),
{
    if !is_valid_utf8(input) {
        return Err(VoltError::InvalidUtf8);
    }
    let lines = lines_of(input);
    let mut manifest = Manifest::empty();
    let ghost st0 = mstate(ManifestView::empty(), old(dictionary)@);
    let mut i: usize = 0;
    while i < lines.len()
        invariant
            0 <= i <= lines@.len(),
            seqs_of(lines@) == text_lines(input@),
            mstate(manifest@, dictionary@) == text_lines_state(st0, seqs_of(lines@).take(i as int)),
        decreases lines@.len() - i,
    {
        assert(seqs_of(lines@).take(i + 1).drop_last() =~= seqs_of(lines@).take(i as int));
        let ghost m0 = manifest@;
        let line = lines[i].as_slice();
        let (k, v) = split_once_on(line, 0x3d);
        let key = trim_ws(k);
        let value = trim_ws(v);
        let code = text_key_code(key);
        if code == 1 {
            manifest.site_id = parse_or_zero(value, 0xffff_ffff) as u32;
        } else if code == 2 {
            manifest.station_model = parse_or_zero(value, 0xffff) as u16;
        } else if code == 3 {
            manifest.firmware_major = parse_or_zero(value, 0xffff) as u16;
        } else if code == 4 {
            manifest.firmware_minor = parse_or_zero(value, 0xffff) as u16;
        } else if code == 5 {
            manifest.policy_epoch = parse_or_zero(value, 0xffff_ffff) as u32;
        } else if code == 6 {
            let id = parse_or_zero(value, 0xffff_ffff) as u32;
            let name = utf8_lossy(value);
            manifest.operators.push(OperatorRecord { operator_id: id, region: 0, name, trust_tier: 1 });
            dictionary.intern(TokenClass::Operator, 0, id as u16, copy_bytes(value));
            assert(manifest@.operators =~= m0.operators.push(
                OperatorView { operator_id: id, region: 0, name: lossy_utf8(value@), trust_tier: 1 },
            ));
        } else if key.len() > 0 {
            dictionary.intern(TokenClass::Station, 0, key.len() as u16, copy_bytes(value));
        }
        i = i + 1;
    }
    assert(seqs_of(lines@).take(lines@.len() as int) == seqs_of(lines@));
    enrich_manifest(&mut manifest);
    Ok(manifest)
}

fn parse_or_zero(s: &[u8], max: u64) -> (r: u64)
    ensures
        r == or_zero(parse_unsigned(s@, max as int)),
{
    match parse_unsigned_text(s, max) {
        Some(v) => v,
        None => 0,
    }
}

fn parse_operator_records(input: &[u8], manifest: &mut Manifest, dictionary: &mut Dictionary) -> (r: Result<()>)
    ensures
        (r, mstate(final(manifest)@, final(dictionary)@)) == mstate(old(manifest)@, old(dictionary)@).operators_from(
            CursorModel::fresh(input@, "manifest operators"),
        ),
{
    let mut cur = ByteCursor::new(input, "manifest operators");
    while cur.remaining() >= 8
        invariant
            mstate(old(manifest)@, old(dictionary)@).operators_from(CursorModel::fresh(input@, "manifest operators"))
                == mstate(manifest@, dictionary@).operators_from(cur@),
        decreases cur@.remaining(),
    {
        let ghost m0 = manifest@;
        let operator_id = cur.read_u32()?;
        let region = cur.read_u16()?;
        let trust_tier = cur.read_u8()?;
        let name_bytes = cur.read_bytes_with_u8_len()?;
        let name = utf8_lossy(name_bytes);
        dictionary.intern(TokenClass::Operator, region, trust_tier as u16, copy_bytes(name_bytes));
        manifest.operators.push(OperatorRecord { operator_id, region, name, trust_tier });
        assert(manifest@.operators =~= m0.operators.push(
            OperatorView { operator_id, region, name: lossy_utf8(name_bytes@), trust_tier },
        ));
    }
    Ok(())
}

fn parse_route_records(input: &[u8], manifest: &mut Manifest, dictionary: &Dictionary) -> (r: Result<()>)
    ensures
        (r, mstate(final(manifest)@, dictionary@)) == mstate(old(manifest)@, dictionary@).routes_from(
            CursorModel::fresh(input@, "manifest routes"),
        ),
{
    let mut cur = ByteCursor::new(input, "manifest routes");
    while cur.remaining() >= 12
        invariant
            mstate(old(manifest)@, dictionary@).routes_from(CursorModel::fresh(input@, "manifest routes"))
                == mstate(manifest@, dictionary@).routes_from(cur@),
        decreases cur@.remaining(),
    {
        let ghost m0 = manifest@;
        let route_id = cur.read_u16()?;
        let feeder_id = cur.read_u16()?;
        let transformer_id = cur.read_u32()?;
        let station_count = cur.read_u16()?;
        let risk_flags = cur.read_u16()?;
        manifest.routes.push(RouteRecord { route_id, feeder_id, transformer_id, station_count, risk_flags });
    }
    Ok(())
}

fn parse_capability_records(input: &[u8], manifest: &mut Manifest, dictionary: &mut Dictionary) -> (r: Result<()>)
    ensures
        (r, mstate(final(manifest)@, final(dictionary)@)) == mstate(old(manifest)@, old(dictionary)@).capabilities_from(
            CursorModel::fresh(input@, "manifest capabilities"),
        ),
{
    let mut cur = ByteCursor::new(input, "manifest capabilities");
    while cur.remaining() >= 7
        invariant
            mstate(old(manifest)@, old(dictionary)@).capabilities_from(
                CursorModel::fresh(input@, "manifest capabilities"),
            ) == mstate(manifest@, dictionary@).capabilities_from(cur@),
        decreases cur@.remaining(),
    {
        let ghost m0 = manifest@;
        let code = cur.read_u16()?;
        let min_fw = cur.read_u16()?;
        let flags = cur.read_u16()?;
        let description_bytes = cur.read_bytes_with_u8_len()?;
        let description = utf8_lossy(description_bytes);
        dictionary.intern(TokenClass::Firmware, min_fw, flags, copy_bytes(description_bytes));
        manifest.capabilities.push(CapabilityRecord { code, min_fw, flags, description });
        assert(manifest@.capabilities =~= m0.capabilities.push(
            CapabilityView { code, min_fw, flags, description: lossy_utf8(description_bytes@) },
        ));
    }
    Ok(())
}

fn record_unknown_manifest_tag(tag: u8, body: &[u8], dictionary: &mut Dictionary)
    requires
        body@.len() <= 0xffff,
    ensures
        final(dictionary)@ == mstate(ManifestView::empty(), old(dictionary)@).unknown_block(tag, body@).dict,
{
    let scope = ((tag as u16) << 8) | (body.len() as u16);
    let score = rolling_window_score(body) as u16;
    let n = if body.len() > 64 { 64 } else { body.len() };
    let kept = copy_bytes(vstd::slice::slice_subrange(body, 0, n));
    assert(body@.len() <= 64 ==> body@.subrange(0, n as int) =~= body@);
    dictionary.intern(TokenClass::Unknown(tag), scope, score, kept);
}

fn enrich_manifest(manifest: &mut Manifest)
    ensures
        final(manifest)@ == enrich_manifest_spec(old(manifest)@),
{
    if manifest.station_model == 0 {
        manifest.station_model = 0x1001;
    }
    if manifest.firmware_major == 0 {
        manifest.firmware_major = 1;
    }
    match station_by_model(manifest.station_model) {
        Some(profile) => {
            if manifest.capabilities.len() == 0 {
                let from = profile.capability_mask.trailing_zeros();
                let ones = count_ones(profile.capability_mask);
                proof {
                    lemma_popcount_bound(profile.capability_mask);
                }
                let to = ones + 4;
                let ghost m0 = manifest@;
                let mut cap = from;
                assert(manifest@.capabilities + profile_capabilities(profile, from as int, to as int)
                    =~= profile_capabilities(profile, from as int, to as int));
                while cap < to
                    invariant
                        from <= 32,
                        to <= 36,
                        manifest@ == (ManifestView { capabilities: manifest@.capabilities, ..m0 }),
                        manifest@.capabilities + profile_capabilities(profile, cap as int, to as int)
                            == profile_capabilities(profile, from as int, to as int),
                    decreases to - cap,
                {
                    let code = 0x3000u16 + cap as u16;
                    let mut description = String::from_str(profile.family);
                    description.append(" capability ");
                    push_decimal(&mut description, code as u64);
                    let ghost before = manifest@.capabilities;
                    manifest.capabilities.push(
                        CapabilityRecord {
                            code,
                            min_fw: profile.min_fw,
                            flags: (profile.capability_mask as u16) ^ code,
                            description,
                        },
                    );
                    assert(manifest@.capabilities + profile_capabilities(profile, cap + 1, to as int)
                        =~= before + profile_capabilities(profile, cap as int, to as int));
                    cap = cap + 1;
                }
            }
        },
        None => {},
    }
}

/// Enrichment fills in a model and a firmware major, touches nothing but
/// those and the capabilities, and enriching again changes nothing.
pub proof fn enrichment_is_idempotent(m: ManifestView)
    ensures
        ({
            let e = enrich_manifest_spec(m);
            &&& e.station_model != 0
            &&& e.firmware_major != 0
            &&& e.site_id == m.site_id
            &&& e.firmware_minor == m.firmware_minor
            &&& e.policy_epoch == m.policy_epoch
            &&& e.operators == m.operators
            &&& e.routes == m.routes
            &&& m.capabilities.len() > 0 ==> e.capabilities == m.capabilities
            &&& enrich_manifest_spec(e) == e
        }),
{
}

} // verus!
