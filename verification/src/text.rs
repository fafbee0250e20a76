use vstd::prelude::*;
use vstd::slice::slice_subrange;
use vstd::utf8::{decode_utf8, valid_utf8};

verus! {

/// What `String::from_utf8_lossy` makes of a byte string: the decoded text,
/// with U+FFFD in place of each maximal invalid sequence.
pub uninterp spec fn lossy_utf8(bytes: Seq<u8>) -> Seq<char>;

/// `core::str::from_utf8(bytes).is_ok()`: std documents that `from_utf8`
/// succeeds exactly on well-formed UTF-8, which `valid_utf8` states.
#[verifier::external_body]
pub(crate) fn is_valid_utf8(bytes: &[u8]) -> (r: bool)
    ensures
        r == valid_utf8(bytes@),
{
    core::str::from_utf8(bytes).is_ok()
}

/// `String::from_utf8_lossy(bytes)`, owned. The result is named by
/// `lossy_utf8`; on well-formed UTF-8 std documents that it is the decoded
/// text itself. What replaces an invalid sequence is not stated here.
#[verifier::external_body]
pub(crate) fn utf8_lossy(bytes: &[u8]) -> (r: String)
    ensures
        r@ == lossy_utf8(bytes@),
        valid_utf8(bytes@) ==> r@ == decode_utf8(bytes@),
{
    String::from_utf8_lossy(bytes).into_owned()
}

/// `String::push`: appends one character.
#[verifier::external_body]
pub(crate) fn push_char(s: &mut String, c: char)
    ensures
        final(s)@ == old(s)@.push(c),
{
    s.push(c);
}

/// The pieces of `s` between occurrences of `sep` (always at least one).
pub open spec fn split_bytes(s: Seq<u8>, sep: u8) -> Seq<Seq<u8>>
    decreases s.len(),
{
    if s.len() == 0 {
        seq![seq![]]
    } else {
        let p = split_bytes(s.drop_last(), sep);
        if s.last() == sep {
            p.push(seq![])
        } else {
            p.update(p.len() - 1, p.last().push(s.last()))
        }
    }
}

pub proof fn lemma_split_nonempty(s: Seq<u8>, sep: u8)
    ensures
        split_bytes(s, sep).len() >= 1,
    decreases s.len(),
{
    if s.len() > 0 {
        lemma_split_nonempty(s.drop_last(), sep);
    }
}

pub open spec fn seqs_of(v: Seq<Vec<u8>>) -> Seq<Seq<u8>> {
    v.map_values(|x: Vec<u8>| x@)
}

/// A line without the carriage return before its line feed.
pub open spec fn strip_cr(l: Seq<u8>) -> Seq<u8> {
    if l.len() > 0 && l.last() == 0x0du8 { l.drop_last() } else { l }
}

/// The lines of a text as `str::lines` gives them: split at line feeds, a
/// carriage return before a line feed dropped, and no empty last line.
pub open spec fn text_lines(s: Seq<u8>) -> Seq<Seq<u8>> {
    let p = split_bytes(s, 0x0au8);
    let done = p.drop_last().map_values(|l: Seq<u8>| strip_cr(l));
    if p.last().len() > 0 { done.push(p.last()) } else { done }
}

/// The index of the first `b` in `s`.
pub open spec fn first_index(s: Seq<u8>, b: u8) -> Option<int>
    decreases s.len(),
{
    if s.len() == 0 {
        None
    } else if s[0] == b {
        Some(0)
    } else {
        match first_index(s.drop_first(), b) {
            Some(i) => Some(i + 1),
            None => None,
        }
    }
}

/// `splitn(2, b)`: the text before the first `b` and the text after it, or
/// the whole text and nothing.
pub open spec fn split_once(s: Seq<u8>, b: u8) -> (Seq<u8>, Seq<u8>) {
    match first_index(s, b) {
        Some(i) => (s.take(i), s.skip(i + 1)),
        None => (s, seq![]),
    }
}

/// The length of the UTF-8 encoding of a white-space character (Unicode
/// White_Space) at the start of `s`, or 0.
pub open spec fn ws_prefix_len(s: Seq<u8>) -> int {
    if s.len() >= 1 && (s[0] == 0x20u8 || (0x09u8 <= s[0] && s[0] <= 0x0du8)) {
        1
    } else if s.len() >= 2 && s[0] == 0xc2u8 && (s[1] == 0x85u8 || s[1] == 0xa0u8) {
        2
    } else if s.len() >= 3 && ws3(s[0], s[1], s[2]) {
        3
    } else {
        0
    }
}

/// The three-byte encodings of U+1680, U+2000 to U+200A, U+2028, U+2029,
/// U+202F, U+205F and U+3000.
pub open spec fn ws3(a: u8, b: u8, c: u8) -> bool {
    (a == 0xe1u8 && b == 0x9au8 && c == 0x80u8) || (a == 0xe2u8 && b == 0x80u8 && ((0x80u8 <= c
        && c <= 0x8au8) || c == 0xa8u8 || c == 0xa9u8 || c == 0xafu8)) || (a == 0xe2u8 && b
        == 0x81u8 && c == 0x9fu8) || (a == 0xe3u8 && b == 0x80u8 && c == 0x80u8)
}

/// The length of the encoding of a white-space character at the end of `s`,
/// or 0.
pub open spec fn ws_suffix_len(s: Seq<u8>) -> int {
    let n = s.len() as int;
    if n >= 1 && (s[n - 1] == 0x20u8 || (0x09u8 <= s[n - 1] && s[n - 1] <= 0x0du8)) {
        1
    } else if n >= 2 && s[n - 2] == 0xc2u8 && (s[n - 1] == 0x85u8 || s[n - 1] == 0xa0u8) {
        2
    } else if n >= 3 && ws3(s[n - 3], s[n - 2], s[n - 1]) {
        3
    } else {
        0
    }
}

pub open spec fn trim_start(s: Seq<u8>) -> Seq<u8>
    decreases s.len(),
{
    let k = ws_prefix_len(s);
    if k > 0 { trim_start(s.skip(k)) } else { s }
}

pub open spec fn trim_end(s: Seq<u8>) -> Seq<u8>
    decreases s.len(),
{
    let k = ws_suffix_len(s);
    if k > 0 { trim_end(s.take(s.len() - k)) } else { s }
}

/// `str::trim` on the UTF-8 text `s`: white space removed at both ends.
pub open spec fn trim_spec(s: Seq<u8>) -> Seq<u8> {
    trim_end(trim_start(s))
}

pub open spec fn is_digit(b: u8) -> bool {
    0x30u8 <= b && b <= 0x39u8
}

pub open spec fn all_digits(s: Seq<u8>) -> bool {
    forall|i: int| 0 <= i < s.len() ==> is_digit(#[trigger] s[i])
}

/// The decimal value of a string of digits.
pub open spec fn digits_value(s: Seq<u8>) -> int
    decreases s.len(),
{
    if s.len() == 0 {
        0
    } else {
        digits_value(s.drop_last()) * 10 + (s.last() - 0x30u8)
    }
}

/// `str::parse` for an unsigned type whose largest value is `max`: an
/// optional `+`, then one or more digits, of a value at most `max`.
pub open spec fn parse_unsigned(s: Seq<u8>, max: int) -> Option<int> {
    let d = if s.len() > 0 && s[0] == 0x2bu8 { s.drop_first() } else { s };
    if d.len() > 0 && all_digits(d) && digits_value(d) <= max {
        Some(digits_value(d))
    } else {
        None
    }
}

/// `str::parse::<i32>`: a `-` and digits for a value down to -2^31, or what
/// `parse_unsigned` accepts up to 2^31 - 1.
pub open spec fn parse_i32_spec(s: Seq<u8>) -> Option<int> {
    if s.len() > 0 && s[0] == 0x2du8 {
        let d = s.drop_first();
        if d.len() > 0 && all_digits(d) && digits_value(d) <= 0x8000_0000 {
            Some(-digits_value(d))
        } else {
            None
        }
    } else {
        parse_unsigned(s, 0x7fff_ffff)
    }
}

/// A parse result, or zero when the text does not parse.
pub open spec fn or_zero(v: Option<int>) -> int {
    match v {
        Some(x) => x,
        None => 0,
    }
}

/// Splits `s` at every `sep`.
pub fn split_on(s: &[u8], sep: u8) -> (r: Vec<Vec<u8>>)
    ensures
        seqs_of(r@) == split_bytes(s@, sep),
{
    let mut parts: Vec<Vec<u8>> = Vec::new();
    let mut cur: Vec<u8> = Vec::new();
    let mut i: usize = 0;
    while i < s.len()
        invariant
            0 <= i <= s.len(),
            seqs_of(parts@).push(cur@) == split_bytes(s@.take(i as int), sep),
        decreases s.len() - i,
    {
        let b = s[i];
        let ghost prev = seqs_of(parts@).push(cur@);
        assert(s@.take(i + 1).drop_last() == s@.take(i as int));
        if b == sep {
            let mut piece: Vec<u8> = Vec::new();
            core::mem::swap(&mut piece, &mut cur);
            parts.push(piece);
            assert(seqs_of(parts@).push(cur@) =~= prev.push(seq![]));
        } else {
            cur.push(b);
            assert(seqs_of(parts@).push(cur@) =~= prev.update(prev.len() - 1, prev.last().push(b)));
        }
        i = i + 1;
    }
    assert(s@.take(s.len() as int) == s@);
    let ghost before = seqs_of(parts@);
    parts.push(cur);
    assert(seqs_of(parts@) =~= before.push(parts@.last()@));
    parts
}

/// The lines of a text, as `str::lines` splits them.
pub fn lines_of(s: &[u8]) -> (r: Vec<Vec<u8>>)
    ensures
        seqs_of(r@) == text_lines(s@),
{
    let mut parts = split_on(s, 0x0a);
    proof {
        lemma_split_nonempty(s@, 0x0au8);
    }
    let ghost p = seqs_of(parts@);
    let last = parts.pop().unwrap();
    let ghost done = p.drop_last();
    assert(seqs_of(parts@) =~= done);
    let n = parts.len();
    let mut rev = crate::dictionary::reversed(parts);
    let mut out: Vec<Vec<u8>> = Vec::new();
    let mut i: usize = 0;
    while rev.len() > 0
        invariant
            rev@.len() + i == done.len(),
            done.len() == n,
            forall|k: int| 0 <= k < rev@.len() ==> rev@[k]@ == done[done.len() - 1 - k],
            seqs_of(out@) == done.take(i as int).map_values(|l: Seq<u8>| strip_cr(l)),
        decreases rev.len(),
    {
        let mut line = rev.pop().unwrap();
        assert(line@ == done[i as int]);
        let n = line.len();
        if n > 0 && line[n - 1] == 0x0d {
            line.pop();
        }
        let ghost before = seqs_of(out@);
        out.push(line);
        assert(seqs_of(out@) =~= before.push(strip_cr(done[i as int])));
        assert(done.take(i + 1).map_values(|l: Seq<u8>| strip_cr(l)) =~= done.take(i as int).map_values(
            |l: Seq<u8>| strip_cr(l),
        ).push(strip_cr(done[i as int])));
        i = i + 1;
    }
    assert(done.take(done.len() as int) == done);
    if last.len() > 0 {
        let ghost before = seqs_of(out@);
        out.push(last);
        assert(seqs_of(out@) =~= before.push(p.last()));
    }
    out
}

proof fn lemma_first_index_found(s: Seq<u8>, b: u8, i: int)
    requires
        0 <= i < s.len(),
        s[i] == b,
        forall|k: int| 0 <= k < i ==> s[k] != b,
    ensures
        first_index(s, b) == Some(i),
    decreases i,
{
    if i > 0 {
        lemma_first_index_found(s.drop_first(), b, i - 1);
    }
}

proof fn lemma_first_index_absent(s: Seq<u8>, b: u8)
    requires
        forall|k: int| 0 <= k < s.len() ==> s[k] != b,
    ensures
        first_index(s, b) is None,
    decreases s.len(),
{
    if s.len() > 0 {
        lemma_first_index_absent(s.drop_first(), b);
    }
}

/// `splitn(2, b)` of a text.
pub fn split_once_on<'a>(s: &'a [u8], b: u8) -> (r: (&'a [u8], &'a [u8]))
    ensures
        (r.0@, r.1@) == split_once(s@, b),
{
    let mut i: usize = 0;
    while i < s.len()
        invariant
            0 <= i <= s.len(),
            forall|k: int| 0 <= k < i ==> s@[k] != b,
        decreases s.len() - i,
    {
        if s[i] == b {
            proof {
                lemma_first_index_found(s@, b, i as int);
            }
            return (slice_subrange(s, 0, i), slice_subrange(s, i + 1, s.len()));
        }
        i = i + 1;
    }
    proof {
        lemma_first_index_absent(s@, b);
    }
    assert(s@.subrange(0, s.len() as int) == s@);
    (slice_subrange(s, 0, s.len()), slice_subrange(s, 0, 0))
}

fn ws_len_at(s: &[u8], i: usize) -> (r: usize)
    requires
        i <= s@.len(),
    ensures
        r == ws_prefix_len(s@.skip(i as int)),
        r <= s@.len() - i,
{
    let n = s.len() - i;
    if n >= 1 && (s[i] == 0x20 || (0x09 <= s[i] && s[i] <= 0x0d)) {
        1
    } else if n >= 2 && s[i] == 0xc2 && (s[i + 1] == 0x85 || s[i + 1] == 0xa0) {
        2
    } else if n >= 3 && ((s[i] == 0xe1 && s[i + 1] == 0x9a && s[i + 2] == 0x80) || (s[i] == 0xe2
        && s[i + 1] == 0x80 && ((0x80 <= s[i + 2] && s[i + 2] <= 0x8a) || s[i + 2] == 0xa8 || s[i
        + 2] == 0xa9 || s[i + 2] == 0xaf)) || (s[i] == 0xe2 && s[i + 1] == 0x81 && s[i + 2] == 0x9f)
        || (s[i] == 0xe3 && s[i + 1] == 0x80 && s[i + 2] == 0x80)) {
        3
    } else {
        0
    }
}

fn ws_len_before(s: &[u8], start: usize, end: usize) -> (r: usize)
    requires
        start <= end <= s@.len(),
    ensures
        r == ws_suffix_len(s@.subrange(start as int, end as int)),
        r <= end - start,
{
    let n = end - start;
    if n >= 1 && (s[end - 1] == 0x20 || (0x09 <= s[end - 1] && s[end - 1] <= 0x0d)) {
        1
    } else if n >= 2 && s[end - 2] == 0xc2 && (s[end - 1] == 0x85 || s[end - 1] == 0xa0) {
        2
    } else if n >= 3 && ((s[end - 3] == 0xe1 && s[end - 2] == 0x9a && s[end - 1] == 0x80) || (s[end
        - 3] == 0xe2 && s[end - 2] == 0x80 && ((0x80 <= s[end - 1] && s[end - 1] <= 0x8a) || s[end
        - 1] == 0xa8 || s[end - 1] == 0xa9 || s[end - 1] == 0xaf)) || (s[end - 3] == 0xe2 && s[end
        - 2] == 0x81 && s[end - 1] == 0x9f) || (s[end - 3] == 0xe3 && s[end - 2] == 0x80 && s[end
        - 1] == 0x80)) {
        3
    } else {
        0
    }
}

/// The text without white space at either end, as `str::trim` leaves it.
pub fn trim_ws(s: &[u8]) -> (r: &[u8])
    ensures
        r@ == trim_spec(s@),
{
    let mut start: usize = 0;
    let len = s.len();
    assert(s@.skip(0) == s@);
    loop
        invariant
            len == s@.len(),
            0 <= start <= s@.len(),
            trim_start(s@) == trim_start(s@.skip(start as int)),
        ensures
            0 <= start <= s@.len(),
            trim_start(s@) == trim_start(s@.skip(start as int)),
            ws_prefix_len(s@.skip(start as int)) == 0,
        decreases s@.len() - start,
    {
        let k = ws_len_at(s, start);
        if k == 0 {
            break;
        }
        assert(s@.skip(start as int).skip(k as int) =~= s@.skip(start + k));
        start = start + k;
    }
    let mut end: usize = s.len();
    assert(s@.skip(start as int) =~= s@.subrange(start as int, end as int));
    loop
        invariant
            start <= end <= s@.len(),
            trim_spec(s@) == trim_end(s@.subrange(start as int, end as int)),
        ensures
            start <= end <= s@.len(),
            trim_spec(s@) == trim_end(s@.subrange(start as int, end as int)),
            ws_suffix_len(s@.subrange(start as int, end as int)) == 0,
        decreases end - start,
    {
        let k = ws_len_before(s, start, end);
        if k == 0 {
            break;
        }
        assert(s@.subrange(start as int, end as int).take(end - start - k) =~= s@.subrange(
            start as int,
            end - k,
        ));
        end = end - k;
    }
    slice_subrange(s, start, end)
}

proof fn lemma_digits_grow(s: Seq<u8>, k: int)
    requires
        0 <= k <= s.len(),
        all_digits(s),
    ensures
        digits_value(s) >= digits_value(s.take(k)),
        digits_value(s) >= 0,
    decreases s.len(),
{
    if s.len() > 0 {
        if k == s.len() {
            assert(s.take(k) == s);
            lemma_digits_grow(s.drop_last(), 0);
        } else {
            assert(s.drop_last().take(k) == s.take(k));
            lemma_digits_grow(s.drop_last(), k);
        }
    }
}

/// The value of the digits `d` when all are digits and the value is at
/// most `max`.
fn digits_up_to(d: &[u8], max: u64) -> (r: Option<u64>)
    ensures
        match r {
            Some(v) => d@.len() > 0 && all_digits(d@) && digits_value(d@) <= max && v == digits_value(d@),
            None => !(d@.len() > 0 && all_digits(d@) && digits_value(d@) <= max),
        },
{
    if d.len() == 0 {
        return None;
    }
    let mut value: u128 = 0;
    let mut i: usize = 0;
    while i < d.len()
        invariant
            0 <= i <= d@.len(),
            all_digits(d@.take(i as int)),
            value == digits_value(d@.take(i as int)),
            value <= max,
        decreases d@.len() - i,
    {
        let b = d[i];
        if b < 0x30 || b > 0x39 {
            assert(!all_digits(d@));
            return None;
        }
        assert(d@.take(i + 1).drop_last() == d@.take(i as int));
        value = value * 10 + (b - 0x30) as u128;
        assert(all_digits(d@.take(i + 1)));
        if value > max as u128 {
            proof {
                if all_digits(d@) {
                    lemma_digits_grow(d@, i + 1);
                }
            }
            return None;
        }
        i = i + 1;
    }
    assert(d@.take(d@.len() as int) == d@);
    Some(value as u64)
}

/// `s.parse()` for an unsigned type whose largest value is `max`.
pub fn parse_unsigned_text(s: &[u8], max: u64) -> (r: Option<u64>)
    ensures
        match r {
            Some(v) => parse_unsigned(s@, max as int) == Some(v as int),
            None => parse_unsigned(s@, max as int) is None,
        },
{
    let d = if s.len() > 0 && s[0] == 0x2b { slice_subrange(s, 1, s.len()) } else { s };
    assert(s.len() > 0 && s@[0] == 0x2bu8 ==> d@ =~= s@.drop_first());
    digits_up_to(d, max)
}

/// `s.parse::<i32>()`.
pub fn parse_i32_text(s: &[u8]) -> (r: Option<i32>)
    ensures
        match r {
            Some(v) => parse_i32_spec(s@) == Some(v as int),
            None => parse_i32_spec(s@) is None,
        },
{
    if s.len() > 0 && s[0] == 0x2d {
        let d = slice_subrange(s, 1, s.len());
        assert(d@ =~= s@.drop_first());
        match digits_up_to(d, 0x8000_0000) {
            Some(v) => Some((0 - (v as i64)) as i32),
            None => None,
        }
    } else {
        match parse_unsigned_text(s, 0x7fff_ffff) {
            Some(v) => Some(v as i32),
            None => None,
        }
    }
}

/// Trims the text, then parses it as an unsigned value up to `max`; zero
/// when it does not parse.
pub fn parse_trimmed_unsigned(s: &[u8], max: u64) -> (r: u64)
    ensures
        r == or_zero(parse_unsigned(trim_spec(s@), max as int)),
{
    match parse_unsigned_text(trim_ws(s), max) {
        Some(v) => v,
        None => 0,
    }
}

/// Trims the text, then parses it as an `i32`; zero when it does not parse.
pub fn parse_trimmed_i32(s: &[u8]) -> (r: i32)
    ensures
        r == or_zero(parse_i32_spec(trim_spec(s@))),
{
    match parse_i32_text(trim_ws(s)) {
        Some(v) => v,
        None => 0,
    }
}

/// The decimal digit character of `d`.
pub open spec fn digit_char(d: int) -> char {
    ((d + 48) as u8) as char
}

/// The decimal representation of `n`.
pub open spec fn decimal_chars(n: nat) -> Seq<char>
    decreases n,
{
    if n < 10 {
        seq![digit_char(n as int)]
    } else {
        decimal_chars(n / 10).push(digit_char((n % 10) as int))
    }
}

/// Appends the decimal representation of `v`.
pub fn push_decimal(s: &mut String, v: u64)
    ensures
        final(s)@ == old(s)@ + decimal_chars(v as nat),
    decreases v,
{
    if v >= 10 {
        push_decimal(s, v / 10);
    }
    let d = (v % 10) as u8;
    push_char(s, (0x30u8 + d) as char);
    proof {
        if v >= 10 {
            assert(old(s)@ + decimal_chars((v / 10) as nat) + seq![digit_char((v % 10) as int)]
                =~= old(s)@ + decimal_chars(v as nat));
        } else {
            assert(old(s)@.push(digit_char(v as int)) =~= old(s)@ + decimal_chars(v as nat));
        }
    }
}

/// The lower-case hexadecimal digit character of `d`.
pub open spec fn hex_char(d: int) -> char {
    if d < 10 {
        ((d + 48) as u8) as char
    } else {
        ((d + 87) as u8) as char
    }
}

/// The `k` low nibbles of `v` as hexadecimal digits, most significant first.
pub open spec fn hex_digits(v: u32, k: nat) -> Seq<char>
    decreases k,
{
    if k == 0 {
        seq![]
    } else {
        hex_digits(v / 16, (k - 1) as nat).push(hex_char((v % 16) as int))
    }
}

/// Appends the `k` low nibbles of `v` in hexadecimal, zero-padded.
pub fn push_hex(s: &mut String, v: u32, k: u32)
    ensures
        final(s)@ == old(s)@ + hex_digits(v, k as nat),
    decreases k,
{
    if k == 0 {
        assert(old(s)@ + hex_digits(v, 0) =~= old(s)@);
        return;
    }
    push_hex(s, v / 16, k - 1);
    let d = (v % 16) as u8;
    let c = if d < 10 { (0x30u8 + d) as char } else { (0x57u8 + d) as char };
    push_char(s, c);
    assert(old(s)@ + hex_digits(v / 16, (k - 1) as nat) + seq![hex_char((v % 16) as int)]
        =~= old(s)@ + hex_digits(v, k as nat));
}

} // verus!
