//! Reading video metadata from ffprobe's compact output, e.g.
//! `width=1920,height=1080,r_frame_rate=30000/1001` and `duration=12.345000`
//! on separate lines.
use vstd::prelude::*;
use crate::model::VideoMetadata;

verus! {

/// Why ffprobe's output could not be read as video metadata.
#[derive(Clone, Copy, PartialEq, Eq, Structural, Debug)]
pub enum ProbeError {
    MissingWidth,
    BadWidth,
    MissingHeight,
    BadHeight,
    MissingFps,
    /// The frame rate has no `/`.
    BadFps,
    /// A frame-rate term is not a whole number that fits in `u32`.
    BadFpsNumber,
    MissingDuration,
    /// The duration is not a number of seconds (as a float is written) that
    /// is non-negative and fits in `u64` microseconds.
    BadDuration,
}

/// ASCII whitespace.
pub open spec fn is_space(c: u8) -> bool {
    c == 9 || c == 10 || c == 11 || c == 12 || c == 13 || c == 32
}

/// The UTF-8 encoding of a three-byte whitespace character (U+1680,
/// U+2000..U+200A, U+2028, U+2029, U+202F, U+205F, U+3000).
pub open spec fn is_space3(a: u8, b: u8, c: u8) -> bool {
    ||| a == 0xE1 && b == 0x9A && c == 0x80
    ||| a == 0xE2 && b == 0x80 && ((0x80 <= c && c <= 0x8A) || c == 0xA8 || c == 0xA9 || c == 0xAF)
    ||| a == 0xE2 && b == 0x81 && c == 0x9F
    ||| a == 0xE3 && b == 0x80 && c == 0x80
}

/// Length of the whitespace character that `s` starts with (Unicode
/// White_Space, UTF-8 encoded), or 0.
pub open spec fn ws_lead(s: Seq<u8>) -> nat {
    if s.len() >= 1 && is_space(s[0]) {
        1
    } else if s.len() >= 2 && s[0] == 0xC2 && (s[1] == 0x85 || s[1] == 0xA0) {
        2
    } else if s.len() >= 3 && is_space3(s[0], s[1], s[2]) {
        3
    } else {
        0
    }
}

/// Length of the whitespace character that `s` ends with, or 0.
pub open spec fn ws_trail(s: Seq<u8>) -> nat {
    let n = s.len() as int;
    if n >= 1 && is_space(s[n - 1]) {
        1
    } else if n >= 2 && s[n - 2] == 0xC2 && (s[n - 1] == 0x85 || s[n - 1] == 0xA0) {
        2
    } else if n >= 3 && is_space3(s[n - 3], s[n - 2], s[n - 1]) {
        3
    } else {
        0
    }
}

/// Leading whitespace removed.
pub open spec fn trim_start(s: Seq<u8>) -> Seq<u8>
    decreases s.len(),
{
    if ws_lead(s) > 0 {
        trim_start(s.skip(ws_lead(s) as int))
    } else {
        s
    }
}

/// Trailing whitespace removed.
pub open spec fn trim_end(s: Seq<u8>) -> Seq<u8>
    decreases s.len(),
{
    if ws_trail(s) > 0 {
        trim_end(s.take(s.len() - ws_trail(s)))
    } else {
        s
    }
}

/// The output trimmed, with line breaks turned into field separators.
pub open spec fn normalize(s: Seq<u8>) -> Seq<u8> {
    trim_end(trim_start(s)).map_values(|c: u8| if c == 10 { 44u8 } else { c })
}

/// The pieces of `s` between occurrences of `sep` (at least one piece).
pub open spec fn split_on(s: Seq<u8>, sep: u8) -> Seq<Seq<u8>>
    decreases s.len(),
{
    if s.len() == 0 {
        seq![Seq::empty()]
    } else {
        let r = split_on(s.drop_last(), sep);
        if s.last() == sep {
            r.push(Seq::empty())
        } else {
            r.update(r.len() - 1, r.last().push(s.last()))
        }
    }
}

/// Index of the first `c` in `s`.
pub open spec fn find_byte(s: Seq<u8>, c: u8) -> Option<nat>
    decreases s.len(),
{
    if s.len() == 0 {
        None
    } else if s[0] == c {
        Some(0)
    } else {
        match find_byte(s.drop_first(), c) {
            Some(i) => Some(i + 1),
            None => None,
        }
    }
}

/// `s` split at its first `c`.
pub open spec fn split_once(s: Seq<u8>, c: u8) -> Option<(Seq<u8>, Seq<u8>)> {
    match find_byte(s, c) {
        Some(i) => Some((s.take(i as int), s.skip(i as int + 1))),
        None => None,
    }
}

/// The value of the last `key=value` field named `key`.
pub open spec fn lookup(fields: Seq<Seq<u8>>, key: Seq<u8>) -> Option<Seq<u8>>
    decreases fields.len(),
{
    if fields.len() == 0 {
        None
    } else {
        match split_once(fields.last(), 61) {
            Some((k, v)) => if k == key { Some(v) } else { lookup(fields.drop_last(), key) },
            None => lookup(fields.drop_last(), key),
        }
    }
}

pub open spec fn is_digit(c: u8) -> bool {
    48 <= c <= 57
}

/// Value of a non-empty string of decimal digits.
pub open spec fn digits_value(s: Seq<u8>) -> int
    decreases s.len(),
{
    if s.len() == 0 {
        0
    } else {
        digits_value(s.drop_last()) * 10 + (s.last() - 48)
    }
}

pub open spec fn all_digits(s: Seq<u8>) -> bool {
    forall|i: int| 0 <= i < s.len() ==> is_digit(s[i])
}

/// A decimal integer with an optional sign that fits in `i32`.
pub open spec fn parse_i32_spec(s: Seq<u8>) -> Option<i32> {
    let neg = s.len() > 0 && s[0] == 45;
    let body = if s.len() > 0 && (s[0] == 45 || s[0] == 43) { s.drop_first() } else { s };
    if body.len() == 0 || !all_digits(body) {
        None
    } else {
        let v = if neg { -digits_value(body) } else { digits_value(body) };
        if i32::MIN <= v <= i32::MAX { Some(v as i32) } else { None }
    }
}

/// `s` without a leading `+`.
pub open spec fn strip_plus(s: Seq<u8>) -> Seq<u8> {
    if s.len() > 0 && s[0] == 43 { s.drop_first() } else { s }
}

/// A whole number of digits, optionally after `+`, that fits in `u32`.
pub open spec fn parse_u32_spec(s: Seq<u8>) -> Option<u32> {
    unsigned_u32_spec(strip_plus(s))
}

/// A whole number of digits that fits in `u32`.
pub open spec fn unsigned_u32_spec(s: Seq<u8>) -> Option<u32> {
    if s.len() == 0 || !all_digits(s) || digits_value(s) > u32::MAX {
        None
    } else {
        Some(digits_value(s) as u32)
    }
}

pub open spec fn pow10(n: nat) -> int
    decreases n,
{
    if n == 0 {
        1
    } else {
        10 * pow10((n - 1) as nat)
    }
}

/// Index of the first exponent marker (`e` or `E`) in `s`.
pub open spec fn find_exp(s: Seq<u8>) -> Option<nat>
    decreases s.len(),
{
    if s.len() == 0 {
        None
    } else if s[0] == 101 || s[0] == 69 {
        Some(0)
    } else {
        match find_exp(s.drop_first()) {
            Some(i) => Some(i + 1),
            None => None,
        }
    }
}

/// An exponent: an optional sign, then at least one digit.
pub open spec fn parse_exp_spec(x: Seq<u8>) -> Option<int> {
    let neg = x.len() > 0 && x[0] == 45;
    let d = if x.len() > 0 && (x[0] == 45 || x[0] == 43) { x.drop_first() } else { x };
    if d.len() == 0 || !all_digits(d) {
        None
    } else {
        Some(if neg { -digits_value(d) } else { digits_value(d) })
    }
}

/// `n` zero digits.
pub open spec fn zeros(n: nat) -> Seq<u8> {
    Seq::new(n, |i: int| 48u8)
}

/// The digits `d` with the decimal point moved `e` places to the right,
/// whole part only.
pub open spec fn shift_digits(d: Seq<u8>, e: int) -> Seq<u8> {
    if e >= 0 {
        d + zeros(e as nat)
    } else if d.len() + e > 0 {
        d.take(d.len() + e)
    } else {
        Seq::empty()
    }
}

/// Whether a number starts with `-`.
pub open spec fn sign_neg(s: Seq<u8>) -> bool {
    s.len() > 0 && s[0] == 45
}

/// A number without its sign.
pub open spec fn unsigned_part(s: Seq<u8>) -> Seq<u8> {
    if s.len() > 0 && (s[0] == 45 || s[0] == 43) { s.drop_first() } else { s }
}

/// An unsigned number before its exponent marker.
pub open spec fn mantissa_part(body: Seq<u8>) -> Seq<u8> {
    match find_exp(body) {
        Some(i) => body.take(i as int),
        None => body,
    }
}

/// The exponent of an unsigned number (0 when it has none).
pub open spec fn exponent_part(body: Seq<u8>) -> Option<int> {
    match find_exp(body) {
        Some(i) => parse_exp_spec(body.skip(i as int + 1)),
        None => Some(0int),
    }
}

/// The digits of a mantissa before its `.`.
pub open spec fn int_digits(m: Seq<u8>) -> Seq<u8> {
    match split_once(m, 46) {
        Some((x, _)) => x,
        None => m,
    }
}

/// The digits of a mantissa after its `.`.
pub open spec fn frac_digits(m: Seq<u8>) -> Seq<u8> {
    match split_once(m, 46) {
        Some((_, y)) => y,
        None => Seq::empty(),
    }
}

/// Whole microseconds for the digits `d` with the point moved `sh` places
/// right, when they fit in `u64`.
pub open spec fn micros_value(d: Seq<u8>, sh: int) -> Option<u64> {
    let v = digits_value(shift_digits(d, sh));
    if v <= u64::MAX { Some(v as u64) } else { None }
}

/// A number of seconds written as a float is written (an optional sign;
/// digits with an optional `.`, at least one digit; an optional exponent
/// `e`/`E` with an optional sign and digits), as whole microseconds (further
/// digits dropped), when it is not negative and fits in `u64`.
pub open spec fn parse_micros_spec(s: Seq<u8>) -> Option<u64> {
    let body = unsigned_part(s);
    let m = mantissa_part(body);
    let e = exponent_part(body);
    let ip = int_digits(m);
    let fp = frac_digits(m);
    if !all_digits(ip) || !all_digits(fp) || ip.len() + fp.len() == 0 || e is None {
        None
    } else if sign_neg(s) && digits_value(ip + fp) != 0 {
        None
    } else {
        micros_value(ip + fp, e->0 + 6 - fp.len())
    }
}

pub open spec fn key_width() -> Seq<u8> {
    seq![119u8, 105, 100, 116, 104]
}

pub open spec fn key_height() -> Seq<u8> {
    seq![104u8, 101, 105, 103, 104, 116]
}

pub open spec fn key_rate() -> Seq<u8> {
    seq![114u8, 95, 102, 114, 97, 109, 101, 95, 114, 97, 116, 101]
}

pub open spec fn key_duration() -> Seq<u8> {
    seq![100u8, 117, 114, 97, 116, 105, 111, 110]
}

/// The metadata that ffprobe's output describes, or the first problem found
/// (width, then height, frame rate and duration).
///
/// Values are held exactly, so what is read is what has an exact form here:
/// - width and height: decimal `i32`s with an optional sign;
/// - the frame rate `num/den`: two whole numbers (optional `+`) that fit in
///   `u32`, kept as the exact ratio; decimal, exponent, negative, `inf` and
///   `nan` terms are refused (`BadFpsNumber`), as ffprobe always prints
///   `r_frame_rate` as a ratio of whole numbers;
/// - the duration: any number written as a float is written (sign,
///   fraction, exponent), truncated to whole microseconds; negative,
///   non-finite or beyond `u64` microseconds is refused (`BadDuration`).
///
/// Zero or negative sizes and zero frame-rate terms are read as given;
/// `VideoMetadata::wf` says which metadata the editor can work with.
pub open spec fn probe_spec(out: Seq<u8>) -> Result<VideoMetadata, ProbeError> {
    let fields = split_on(normalize(out), 44);
    match lookup(fields, key_width()) {
        None => Err(ProbeError::MissingWidth),
        Some(ws) => match parse_i32_spec(ws) {
            None => Err(ProbeError::BadWidth),
            Some(width) => match lookup(fields, key_height()) {
                None => Err(ProbeError::MissingHeight),
                Some(hs) => match parse_i32_spec(hs) {
                    None => Err(ProbeError::BadHeight),
                    Some(height) => match lookup(fields, key_rate()) {
                        None => Err(ProbeError::MissingFps),
                        Some(rs) => match split_once(rs, 47) {
                            None => Err(ProbeError::BadFps),
                            Some((ns, ds)) => match parse_u32_spec(ns) {
                                None => Err(ProbeError::BadFpsNumber),
                                Some(num) => match parse_u32_spec(ds) {
                                    None => Err(ProbeError::BadFpsNumber),
                                    Some(den) => match lookup(fields, key_duration()) {
                                        None => Err(ProbeError::MissingDuration),
                                        Some(dus) => match parse_micros_spec(dus) {
                                            None => Err(ProbeError::BadDuration),
                                            Some(duration_us) => Ok(VideoMetadata {
                                                width,
                                                height,
                                                fps_num: num,
                                                fps_den: den,
                                                duration_us,
                                            }),
                                        },
                                    },
                                },
                            },
                        },
                    },
                },
            },
        },
    }
}

proof fn lemma_digits_nonneg(s: Seq<u8>)
    requires
        all_digits(s),
    ensures
        digits_value(s) >= 0,
    decreases s.len(),
{
    if s.len() > 0 {
        lemma_digits_nonneg(s.drop_last());
    }
}

/// Reads a run of digits `s[a..b]`; `None` when a byte is not a digit,
/// `Some(None)` when the value exceeds `limit`.
fn read_digits(s: &[u8], a: usize, b: usize, limit: u64) -> (r: Option<Option<u64>>)
    requires
        a <= b <= s@.len(),
        limit <= u64::MAX / 10 - 10,
    ensures
        r is None <==> !all_digits(s@.subrange(a as int, b as int)),
        r matches Some(Some(v)) ==> v == digits_value(s@.subrange(a as int, b as int)) && v <= limit,
        r matches Some(None) ==> digits_value(s@.subrange(a as int, b as int)) > limit,
{
    let ghost t = s@.subrange(a as int, b as int);
    let mut acc: u64 = 0;
    let mut over = false;
    let mut i = a;
    proof {
        assert(t.take(0) =~= Seq::<u8>::empty());
    }
    while i < b
        invariant
            a <= i <= b <= s@.len(),
            limit <= u64::MAX / 10 - 10,
            t == s@.subrange(a as int, b as int),
            all_digits(t.take(i - a)),
            !over ==> acc == digits_value(t.take(i - a)) && acc <= limit,
            over ==> digits_value(t.take(i - a)) > limit,
        decreases b - i,
    {
        let c = s[i];
        if c < 48 || c > 57 {
            proof {
                assert(t[i - a] == c);
            }
            return None;
        }
        proof {
            assert(t.take(i + 1 - a).drop_last() =~= t.take(i - a));
            assert(t.take(i + 1 - a).last() == c);
            lemma_digits_nonneg(t.take(i - a));
        }
        if !over {
            let next = acc * 10 + (c - 48) as u64;
            if next > limit {
                over = true;
            } else {
                acc = next;
            }
        }
        i = i + 1;
    }
    proof {
        assert(t.take(b - a) =~= t);
    }
    if over {
        Some(None)
    } else {
        Some(Some(acc))
    }
}

/// Index of the first `c` in `s[a..b]`, relative to `a`.
fn find_in(s: &[u8], a: usize, b: usize, c: u8) -> (r: Option<usize>)
    requires
        a <= b <= s@.len(),
    ensures
        r == (match find_byte(s@.subrange(a as int, b as int), c) {
            Some(i) => Some(i as usize),
            None => None::<usize>,
        }),
{
    let ghost t = s@.subrange(a as int, b as int);
    let mut i = a;
    while i < b
        invariant
            a <= i <= b <= s@.len(),
            t == s@.subrange(a as int, b as int),
            forall|k: int| 0 <= k < i - a ==> t[k] != c,
        decreases b - i,
    {
        if s[i] == c {
            proof {
                lemma_find_first(t, c, i - a);
            }
            return Some(i - a);
        }
        i = i + 1;
    }
    proof {
        lemma_find_none(t, c);
    }
    None
}

proof fn lemma_find_first(t: Seq<u8>, c: u8, k: int)
    requires
        0 <= k < t.len(),
        t[k] == c,
        forall|j: int| 0 <= j < k ==> t[j] != c,
    ensures
        find_byte(t, c) == Some(k as nat),
    decreases k,
{
    if k > 0 {
        lemma_find_first(t.drop_first(), c, k - 1);
    }
}

proof fn lemma_find_none(t: Seq<u8>, c: u8)
    requires
        forall|j: int| 0 <= j < t.len() ==> t[j] != c,
    ensures
        find_byte(t, c) is None,
    decreases t.len(),
{
    if t.len() > 0 {
        lemma_find_none(t.drop_first(), c);
    }
}

proof fn lemma_find_bound(t: Seq<u8>, c: u8)
    ensures
        find_byte(t, c) matches Some(i) ==> i < t.len() && t[i as int] == c,
    decreases t.len(),
{
    if t.len() > 0 {
        lemma_find_bound(t.drop_first(), c);
    }
}

/// Parses `s[a..b]` as a signed decimal `i32`.
pub fn parse_i32(s: &[u8], a: usize, b: usize) -> (r: Option<i32>)
    requires
        a <= b <= s@.len(),
    ensures
        r == parse_i32_spec(s@.subrange(a as int, b as int)),
{
    let ghost t = s@.subrange(a as int, b as int);
    let neg = a < b && s[a] == 45;
    let start = if a < b && (s[a] == 45 || s[a] == 43) { a + 1 } else { a };
    proof {
        if a < b && (s[a as int] == 45 || s[a as int] == 43) {
            assert(t.drop_first() =~= s@.subrange(start as int, b as int));
        } else {
            assert(t =~= s@.subrange(start as int, b as int));
        }
    }
    if start == b {
        return None;
    }
    match read_digits(s, start, b, 2147483648) {
        None => None,
        Some(None) => None,
        Some(Some(v)) => {
            if neg {
                Some((0i64 - v as i64) as i32)
            } else if v <= 2147483647 {
                Some(v as i32)
            } else {
                None
            }
        },
    }
}

/// The start of `s[a..b]` after an optional leading `+`.
fn skip_plus(s: &[u8], a: usize, b: usize) -> (r: usize)
    requires
        a <= b <= s@.len(),
    ensures
        a <= r <= b,
        s@.subrange(r as int, b as int) == strip_plus(s@.subrange(a as int, b as int)),
{
    let ghost t = s@.subrange(a as int, b as int);
    if a < b && s[a] == 43 {
        assert(t.drop_first() =~= s@.subrange(a + 1, b as int));
        a + 1
    } else {
        assert(t =~= s@.subrange(a as int, b as int));
        a
    }
}

/// Parses `s[a..b]` as a decimal `u32`, optionally after `+`.
pub fn parse_u32(s: &[u8], a: usize, b: usize) -> (r: Option<u32>)
    requires
        a <= b <= s@.len(),
    ensures
        r == parse_u32_spec(s@.subrange(a as int, b as int)),
{
    let a = skip_plus(s, a, b);
    if a == b {
        return None;
    }
    match read_digits(s, a, b, 4294967295) {
        None => None,
        Some(None) => None,
        Some(Some(v)) => Some(v as u32),
    }
}

/// Reads a run of digits `s[a..b]` into a `u128`; `None` when a byte is not
/// a digit, `Some(None)` when the value exceeds `limit`.
fn read_wide(s: &[u8], a: usize, b: usize, limit: u128) -> (r: Option<Option<u128>>)
    requires
        a <= b <= s@.len(),
        limit <= u128::MAX / 10 - 10,
    ensures
        r is None <==> !all_digits(s@.subrange(a as int, b as int)),
        r matches Some(Some(v)) ==> v == digits_value(s@.subrange(a as int, b as int)) && v <= limit,
        r matches Some(None) ==> digits_value(s@.subrange(a as int, b as int)) > limit,
{
    let ghost t = s@.subrange(a as int, b as int);
    let mut acc: u128 = 0;
    let mut over = false;
    let mut i = a;
    proof {
        assert(t.take(0) =~= Seq::<u8>::empty());
    }
    while i < b
        invariant
            a <= i <= b <= s@.len(),
            limit <= u128::MAX / 10 - 10,
            t == s@.subrange(a as int, b as int),
            all_digits(t.take(i - a)),
            !over ==> acc == digits_value(t.take(i - a)) && acc <= limit,
            over ==> digits_value(t.take(i - a)) > limit,
        decreases b - i,
    {
        let c = s[i];
        if c < 48 || c > 57 {
            proof {
                assert(t[i - a] == c);
            }
            return None;
        }
        proof {
            assert(t.take(i + 1 - a).drop_last() =~= t.take(i - a));
            assert(t.take(i + 1 - a).last() == c);
            lemma_digits_nonneg(t.take(i - a));
        }
        if !over {
            let next = acc * 10 + (c - 48) as u128;
            if next > limit {
                over = true;
            } else {
                acc = next;
            }
        }
        i = i + 1;
    }
    proof {
        assert(t.take(b - a) =~= t);
    }
    if over {
        Some(None)
    } else {
        Some(Some(acc))
    }
}

/// Whether every byte of `s[a..b]` is a digit.
fn all_digits_at(s: &[u8], a: usize, b: usize) -> (r: bool)
    requires
        a <= b <= s@.len(),
    ensures
        r == all_digits(s@.subrange(a as int, b as int)),
{
    let mut i = a;
    while i < b
        invariant
            a <= i <= b <= s@.len(),
            forall|k: int| a <= k < i ==> is_digit(s@[k]),
        decreases b - i,
    {
        if s[i] < 48 || s[i] > 57 {
            assert(!is_digit(s@.subrange(a as int, b as int)[i - a]));
            return false;
        }
        i = i + 1;
    }
    assert forall|k: int| 0 <= k < b - a implies is_digit(#[trigger] s@.subrange(a as int, b as int)[k]) by {
        assert(s@.subrange(a as int, b as int)[k] == s@[a + k]);
    }
    true
}

/// The first exponent marker at or after `a` in `s[a..b]` (or `b`).
fn find_exp_at(s: &[u8], a: usize, b: usize) -> (r: usize)
    requires
        a <= b <= s@.len(),
    ensures
        a <= r <= b,
        find_exp(s@.subrange(a as int, b as int)) == (if r < b { Some((r - a) as nat) } else { None::<nat> }),
{
    let mut i = a;
    while i < b && s[i] != 101 && s[i] != 69
        invariant
            a <= i <= b <= s@.len(),
            forall|k: int| a <= k < i ==> s@[k] != 101 && s@[k] != 69,
        decreases b - i,
    {
        i = i + 1;
    }
    proof {
        lemma_find_exp(s@.subrange(a as int, b as int), i - a);
    }
    i
}

proof fn lemma_find_exp(t: Seq<u8>, i: int)
    requires
        0 <= i <= t.len(),
        forall|k: int| 0 <= k < i ==> t[k] != 101 && t[k] != 69,
        i == t.len() || t[i] == 101 || t[i] == 69,
    ensures
        find_exp(t) == (if i < t.len() { Some(i as nat) } else { None::<nat> }),
    decreases i,
{
    if i > 0 {
        lemma_find_exp(t.drop_first(), i - 1);
    }
}

/// `digits_value` of a concatenation.
proof fn lemma_digits_concat(x: Seq<u8>, y: Seq<u8>)
    ensures
        digits_value(x + y) == digits_value(x) * pow10(y.len()) + digits_value(y),
    decreases y.len(),
{
    if y.len() == 0 {
        assert(x + y =~= x);
    } else {
        lemma_digits_concat(x, y.drop_last());
        assert((x + y).drop_last() =~= x + y.drop_last());
        assert((x + y).last() == y.last());
        let a = digits_value(x);
        let p = pow10(y.drop_last().len());
        let b = digits_value(y.drop_last());
        assert((a * p + b) * 10 == a * (10 * p) + b * 10) by (nonlinear_arith);
    }
}

/// A string of zero digits is worth 0.
proof fn lemma_zero_digits(s: Seq<u8>)
    requires
        forall|k: int| 0 <= k < s.len() ==> s[k] == 48,
    ensures
        digits_value(s) == 0,
    decreases s.len(),
{
    if s.len() > 0 {
        lemma_zero_digits(s.drop_last());
    }
}

/// Digits with a non-zero one are worth at least 1.
proof fn lemma_digits_positive(s: Seq<u8>, k: int)
    requires
        all_digits(s),
        0 <= k < s.len(),
        s[k] != 48,
    ensures
        digits_value(s) >= 1,
    decreases s.len(),
{
    lemma_digits_nonneg(s.drop_last());
    if k < s.len() - 1 {
        lemma_digits_positive(s.drop_last(), k);
    }
}

proof fn lemma_pow10_mono(m: nat, n: nat)
    requires
        m <= n,
    ensures
        pow10(m) <= pow10(n),
        pow10(m) >= 1,
    decreases n,
{
    if m < n {
        lemma_pow10_mono(m, (n - 1) as nat);
    } else if n > 0 {
        lemma_pow10_mono((n - 1) as nat, (n - 1) as nat);
    }
}

/// Whether the digits `d` are all zeros.
fn all_zero(d: &Vec<u8>) -> (r: bool)
    requires
        all_digits(d@),
    ensures
        r == (digits_value(d@) == 0),
{
    let mut nz: usize = 0;
    while nz < d.len() && d[nz] == 48
        invariant
            nz <= d@.len(),
            forall|q: int| 0 <= q < nz ==> d@[q] == 48,
        decreases d@.len() - nz,
    {
        nz = nz + 1;
    }
    proof {
        if nz == d@.len() {
            lemma_zero_digits(d@);
        } else {
            lemma_digits_positive(d@, nz as int);
        }
    }
    nz == d.len()
}

/// `micros_value(d, sh)`, where `sh` is the exponent `±e_abs` (beyond
/// 2^100 when `e_big`) plus 6 less the `k` fraction digits.
fn micros_of_digits(d: Vec<u8>, k: usize, e_neg: bool, e_big: bool, e_abs: u128, Ghost(sh): Ghost<int>) -> (r: Option<u64>)
    requires
        all_digits(d@),
        k <= d@.len(),
        !e_big ==> sh == (if e_neg { -(e_abs as int) } else { e_abs as int }) + 6 - k,
        e_big && !e_neg ==> sh >= 20,
        e_big && e_neg ==> sh + d@.len() <= 0,
        e_abs <= 0x10_0000_0000_0000_0000_0000_0000,
    ensures
        r == micros_value(d@, sh),
{
    let ghost dd = d@;
    let mut d = d;
    if all_zero(&d) {
        proof {
            lemma_zero_digits_only(dd);
            let z = shift_digits(dd, sh);
            assert forall|q: int| 0 <= q < z.len() implies z[q] == 48 by {
                if sh >= 0 && q >= dd.len() {
                    assert(z[q] == zeros(sh as nat)[q - dd.len()]);
                }
            }
            lemma_zero_digits(z);
        }
        return Some(0);
    }
    let len = d.len();
    let shv: i128 = if e_neg { 0 - (e_abs as i128) } else { e_abs as i128 } + 6 - (k as i128);
    assert(!e_big ==> shv == sh);
    if (e_big && !e_neg) || (!e_big && shv >= 20) {
        proof {
            assert(sh >= 20);
            lemma_digits_concat(dd, zeros(sh as nat));
            lemma_zero_digits(zeros(sh as nat));
            lemma_pow10_mono(20, sh as nat);
            reveal_with_fuel(pow10, 21);
            lemma_digits_nonneg(dd);
            assert(digits_value(dd) * pow10(sh as nat) >= pow10(sh as nat)) by (nonlinear_arith)
                requires digits_value(dd) >= 1, pow10(sh as nat) >= 1;
        }
        return None;
    }
    if e_big || shv + (len as i128) <= 0 {
        proof {
            assert(shift_digits(dd, sh) =~= Seq::<u8>::empty());
        }
        return Some(0);
    }
    let r = if shv >= 0 {
        let z = shv as usize;
        let mut q: usize = 0;
        while q < z
            invariant
                q <= z,
                d@ == dd + zeros(q as nat),
            decreases z - q,
        {
            d.push(48);
            q = q + 1;
            assert(d@ =~= dd + zeros(q as nat));
        }
        assert(all_digits(d@));
        assert(d@.subrange(0, d@.len() as int) =~= shift_digits(dd, sh));
        read_wide(d.as_slice(), 0, d.len(), 0xffff_ffff_ffff_ffff)
    } else {
        let keep = (shv + (len as i128)) as usize;
        assert(d@.subrange(0, keep as int) =~= shift_digits(dd, sh));
        read_wide(d.as_slice(), 0, keep, 0xffff_ffff_ffff_ffff)
    };
    match r {
        Some(Some(v)) => Some(v as u64),
        _ => None,
    }
}

proof fn lemma_zero_digits_only(s: Seq<u8>)
    requires
        all_digits(s),
        digits_value(s) == 0,
    ensures
        forall|k: int| 0 <= k < s.len() ==> s[k] == 48,
{
    assert forall|k: int| 0 <= k < s.len() implies s[k] == 48 by {
        if s[k] != 48 {
            lemma_digits_positive(s, k);
        }
    }
}

/// Reads the exponent `s[x0..b]` (see `parse_exp_spec`) as its sign, whether
/// its magnitude exceeds 2^100, and otherwise the magnitude.
fn parse_exponent(s: &[u8], x0: usize, b: usize) -> (r: Option<(bool, bool, u128)>)
    requires
        x0 <= b <= s@.len(),
    ensures
        r is None <==> parse_exp_spec(s@.subrange(x0 as int, b as int)) is None,
        r matches Some((neg, big, v)) ==> {
            let e = parse_exp_spec(s@.subrange(x0 as int, b as int))->0;
            &&& v <= 0x10_0000_0000_0000_0000_0000_0000
            &&& !big ==> e == (if neg { -(v as int) } else { v as int })
            &&& big && neg ==> e < -0x10_0000_0000_0000_0000_0000_0000
            &&& big && !neg ==> e > 0x10_0000_0000_0000_0000_0000_0000
        },
{
    let ghost x = s@.subrange(x0 as int, b as int);
    let neg = x0 < b && s[x0] == 45;
    let x1 = if x0 < b && (s[x0] == 45 || s[x0] == 43) { x0 + 1 } else { x0 };
    assert((if x.len() > 0 && (x[0] == 45 || x[0] == 43) { x.drop_first() } else { x }) =~= s@.subrange(
        x1 as int,
        b as int,
    ));
    if x1 == b {
        return None;
    }
    match read_wide(s, x1, b, 0x10_0000_0000_0000_0000_0000_0000) {
        None => None,
        Some(None) => Some((neg, true, 0)),
        Some(Some(v)) => Some((neg, false, v)),
    }
}

/// `s[a..ie]` followed by `s[fs..me]`.
fn join_ranges(s: &[u8], a: usize, ie: usize, fs: usize, me: usize) -> (d: Vec<u8>)
    requires
        a <= ie <= s@.len(),
        fs <= me <= s@.len(),
    ensures
        d@ == s@.subrange(a as int, ie as int) + s@.subrange(fs as int, me as int),
{
    let mut d: Vec<u8> = Vec::new();
    let mut i = a;
    while i < ie
        invariant
            a <= i <= ie <= s@.len(),
            d@ == s@.subrange(a as int, i as int),
        decreases ie - i,
    {
        d.push(s[i]);
        i = i + 1;
        assert(d@ =~= s@.subrange(a as int, i as int));
    }
    let mut j = fs;
    assert(d@ =~= s@.subrange(a as int, ie as int) + s@.subrange(fs as int, j as int));
    while j < me
        invariant
            fs <= j <= me <= s@.len(),
            a <= ie <= s@.len(),
            d@ == s@.subrange(a as int, ie as int) + s@.subrange(fs as int, j as int),
        decreases me - j,
    {
        d.push(s[j]);
        j = j + 1;
        assert(d@ =~= s@.subrange(a as int, ie as int) + s@.subrange(fs as int, j as int));
    }
    d
}

/// The pieces of the number `s[a..b]`: whether it is negative, where its
/// unsigned part starts (`a1`), where its exponent marker is (`me`, or `b`),
/// and where its integer digits end (`ie`) and fraction digits start (`fs`).
fn number_parts(s: &[u8], a: usize, b: usize) -> (r: (bool, usize, usize, usize, usize))
    requires
        a <= b <= s@.len(),
    ensures
        ({
            let (neg, a1, me, ie, fs) = r;
            let t = s@.subrange(a as int, b as int);
            let body = unsigned_part(t);
            &&& a <= a1 <= ie <= fs <= me <= b
            &&& neg == sign_neg(t)
            &&& body == s@.subrange(a1 as int, b as int)
            &&& find_exp(body) == (if me < b { Some((me - a1) as nat) } else { None::<nat> })
            &&& int_digits(mantissa_part(body)) == s@.subrange(a1 as int, ie as int)
            &&& frac_digits(mantissa_part(body)) == s@.subrange(fs as int, me as int)
        }),
{
    let ghost t = s@.subrange(a as int, b as int);
    let neg = a < b && s[a] == 45;
    let a1 = if a < b && (s[a] == 45 || s[a] == 43) { a + 1 } else { a };
    let ghost body = unsigned_part(t);
    assert(body =~= s@.subrange(a1 as int, b as int));
    let me = find_exp_at(s, a1, b);
    let ghost m = mantissa_part(body);
    assert(m =~= s@.subrange(a1 as int, me as int));
    let dot = find_in(s, a1, me, 46);
    proof {
        lemma_find_bound(m, 46);
    }
    let (ie, fs) = match dot {
        Some(k) => (a1 + k, a1 + k + 1),
        None => (me, me),
    };
    assert(int_digits(m) =~= s@.subrange(a1 as int, ie as int));
    assert(frac_digits(m) =~= s@.subrange(fs as int, me as int));
    (neg, a1, me, ie, fs)
}

/// Parses `s[a..b]` as a number of seconds into whole microseconds (see
/// `parse_micros_spec`).
pub fn parse_micros(s: &[u8], a: usize, b: usize) -> (r: Option<u64>)
    requires
        a <= b <= s@.len(),
    ensures
        r == parse_micros_spec(s@.subrange(a as int, b as int)),
{
    let ghost t = s@.subrange(a as int, b as int);
    let (neg, a1, me, ie, fs) = number_parts(s, a, b);
    let ghost body = unsigned_part(t);
    let ghost ip = int_digits(mantissa_part(body));
    let ghost fp = frac_digits(mantissa_part(body));
    if !all_digits_at(s, a1, ie) || !all_digits_at(s, fs, me) || (ie - a1) + (me - fs) == 0 {
        return None;
    }
    let ghost e = exponent_part(body);
    let (e_neg, e_big, e_abs) = if me < b {
        assert(body.skip((me - a1) as int + 1) =~= s@.subrange(me + 1, b as int));
        match parse_exponent(s, me + 1, b) {
            None => {
                return None;
            },
            Some(x) => x,
        }
    } else {
        (false, false, 0)
    };
    let d = join_ranges(s, a1, ie, fs, me);
    assert(d@ == ip + fp);
    let k = me - fs;
    if neg && !all_zero(&d) {
        return None;
    }
    micros_of_digits(d, k, e_neg, e_big, e_abs, Ghost(e->0 + 6 - fp.len()))
}

fn ws_lead_at(s: &[u8], a: usize, b: usize) -> (r: usize)
    requires
        a <= b <= s@.len(),
    ensures
        r == ws_lead(s@.subrange(a as int, b as int)),
{
    let n = b - a;
    if n >= 1 && is_space_exec(s[a]) {
        1
    } else if n >= 2 && s[a] == 0xC2 && (s[a + 1] == 0x85 || s[a + 1] == 0xA0) {
        2
    } else if n >= 3 && is_space3_exec(s[a], s[a + 1], s[a + 2]) {
        3
    } else {
        0
    }
}

fn ws_trail_at(s: &[u8], a: usize, b: usize) -> (r: usize)
    requires
        a <= b <= s@.len(),
    ensures
        r == ws_trail(s@.subrange(a as int, b as int)),
{
    let n = b - a;
    if n >= 1 && is_space_exec(s[b - 1]) {
        1
    } else if n >= 2 && s[b - 2] == 0xC2 && (s[b - 1] == 0x85 || s[b - 1] == 0xA0) {
        2
    } else if n >= 3 && is_space3_exec(s[b - 3], s[b - 2], s[b - 1]) {
        3
    } else {
        0
    }
}

fn is_space3_exec(a: u8, b: u8, c: u8) -> (r: bool)
    ensures
        r == is_space3(a, b, c),
{
    (a == 0xE1 && b == 0x9A && c == 0x80) || (a == 0xE2 && b == 0x80 && ((0x80 <= c && c <= 0x8A) || c
        == 0xA8 || c == 0xA9 || c == 0xAF)) || (a == 0xE2 && b == 0x81 && c == 0x9F) || (a == 0xE3 && b
        == 0x80 && c == 0x80)
}

fn is_space_exec(c: u8) -> (r: bool)
    ensures
        r == is_space(c),
{
    c == 9 || c == 10 || c == 11 || c == 12 || c == 13 || c == 32
}

/// Trims the output and turns line breaks into commas (see `normalize`).
fn normalize_exec(out: &[u8]) -> (r: Vec<u8>)
    ensures
        r@ == normalize(out@),
{
    let n = out.len();
    let mut a: usize = 0;
    assert(out@.subrange(0, n as int) =~= out@);
    loop
        invariant
            a <= n == out@.len(),
            trim_start(out@) == trim_start(out@.subrange(a as int, n as int)),
        ensures
            a <= n,
            trim_start(out@) == out@.subrange(a as int, n as int),
        decreases n - a,
    {
        let w = ws_lead_at(out, a, n);
        if w == 0 {
            break;
        }
        proof {
            let t = out@.subrange(a as int, n as int);
            assert(t.skip(w as int) =~= out@.subrange(a + w, n as int));
        }
        a = a + w;
    }
    let mut b: usize = n;
    loop
        invariant
            a <= b <= n == out@.len(),
            trim_end(out@.subrange(a as int, n as int)) == trim_end(out@.subrange(a as int, b as int)),
        ensures
            a <= b <= n,
            trim_end(out@.subrange(a as int, n as int)) == out@.subrange(a as int, b as int),
        decreases b,
    {
        let w = ws_trail_at(out, a, b);
        if w == 0 {
            break;
        }
        proof {
            let t = out@.subrange(a as int, b as int);
            assert(t.take(t.len() - w) =~= out@.subrange(a as int, b - w));
        }
        b = b - w;
    }
    let ghost x = out@.subrange(a as int, b as int);
    let mut r: Vec<u8> = Vec::new();
    let mut i = a;
    while i < b
        invariant
            a <= i <= b <= n == out@.len(),
            x == out@.subrange(a as int, b as int),
            r@ == x.take(i - a).map_values(|c: u8| if c == 10 { 44u8 } else { c }),
        decreases b - i,
    {
        let c = out[i];
        r.push(if c == 10 { 44u8 } else { c });
        proof {
            assert(x.take(i + 1 - a) =~= x.take(i - a).push(c));
            assert(r@ =~= x.take(i + 1 - a).map_values(|c: u8| if c == 10 { 44u8 } else { c }));
        }
        i = i + 1;
    }
    proof {
        assert(x.take(b - a) =~= x);
    }
    r
}

pub open spec fn views(v: Seq<Vec<u8>>) -> Seq<Seq<u8>> {
    v.map_values(|f: Vec<u8>| f@)
}

/// Splits at every comma (see `split_on`).
fn split_fields(x: &Vec<u8>) -> (r: Vec<Vec<u8>>)
    ensures
        views(r@) == split_on(x@, 44),
{
    let mut done: Vec<Vec<u8>> = Vec::new();
    let mut cur: Vec<u8> = Vec::new();
    let n = x.len();
    let mut i: usize = 0;
    proof {
        assert(x@.take(0) =~= Seq::<u8>::empty());
        assert(views(done@).push(cur@) =~= seq![Seq::<u8>::empty()]);
    }
    while i < n
        invariant
            i <= n == x@.len(),
            split_on(x@.take(i as int), 44) == views(done@).push(cur@),
        decreases n - i,
    {
        let c = x[i];
        proof {
            assert(x@.take(i + 1).drop_last() =~= x@.take(i as int));
            assert(x@.take(i + 1).last() == c);
        }
        if c == 44 {
            let ghost prev = views(done@).push(cur@);
            done.push(cur);
            cur = Vec::new();
            proof {
                assert(views(done@).push(cur@) =~= prev.push(Seq::<u8>::empty()));
            }
        } else {
            let ghost prev = views(done@).push(cur@);
            cur.push(c);
            proof {
                assert(views(done@).push(cur@) =~= prev.update(prev.len() - 1, prev.last().push(c)));
            }
        }
        i = i + 1;
    }
    proof {
        assert(x@.take(n as int) =~= x@);
    }
    let ghost fin = views(done@).push(cur@);
    done.push(cur);
    proof {
        assert(views(done@) =~= fin);
    }
    done
}

/// Whether `s[a..b]` equals `key`.
fn range_eq(s: &[u8], a: usize, b: usize, key: &[u8]) -> (r: bool)
    requires
        a <= b <= s@.len(),
    ensures
        r == (s@.subrange(a as int, b as int) == key@),
{
    if b - a != key.len() {
        return false;
    }
    let mut i: usize = 0;
    while i < key.len()
        invariant
            a <= b <= s@.len(),
            b - a == key@.len(),
            i <= key@.len(),
            forall|k: int| 0 <= k < i ==> s@[a + k] == key@[k],
        decreases key@.len() - i,
    {
        if s[a + i] != key[i] {
            proof {
                assert(s@.subrange(a as int, b as int)[i as int] != key@[i as int]);
            }
            return false;
        }
        i = i + 1;
    }
    assert(s@.subrange(a as int, b as int) =~= key@);
    true
}

/// Finds the last field named `key`: its index and where its value starts.
fn lookup_exec(fields: &Vec<Vec<u8>>, key: &[u8]) -> (r: Option<(usize, usize)>)
    ensures
        lookup(views(fields@), key@) == (match r {
            Some((j, st)) => Some(fields@[j as int]@.skip(st as int)),
            None => None::<Seq<u8>>,
        }),
        r matches Some((j, st)) ==> j < fields@.len() && st <= fields@[j as int]@.len(),
{
    let ghost f = views(fields@);
    let mut j = fields.len();
    proof {
        assert(f.take(j as int) =~= f);
    }
    while j > 0
        invariant
            j <= fields@.len(),
            f == views(fields@),
            lookup(f, key@) == lookup(f.take(j as int), key@),
        decreases j,
    {
        let fld = &fields[j - 1];
        let ghost g = f.take(j as int);
        proof {
            assert(g.last() == fld@);
            assert(g.drop_last() =~= f.take(j - 1));
        }
        let eq = find_in(fld.as_slice(), 0, fld.len(), 61);
        proof {
            assert(fld@.subrange(0, fld@.len() as int) =~= fld@);
            lemma_find_bound(fld@, 61);
        }
        match eq {
            Some(k) => {
                if range_eq(fld.as_slice(), 0, k, key) {
                    proof {
                        assert(fld@.subrange(0, k as int) =~= fld@.take(k as int));
                    }
                    return Some((j - 1, k + 1));
                }
                proof {
                    assert(fld@.subrange(0, k as int) =~= fld@.take(k as int));
                }
            },
            None => {},
        }
        j = j - 1;
    }
    None
}

/// Reads video metadata from ffprobe's output (see `probe_spec`).
pub fn parse_probe_output(out: &[u8]) -> (r: Result<VideoMetadata, ProbeError>)
    ensures
        r == probe_spec(out@),
{
    let norm = normalize_exec(out);
    let fields = split_fields(&norm);
    let kw: Vec<u8> = vec![119u8, 105, 100, 116, 104];
    let kh: Vec<u8> = vec![104u8, 101, 105, 103, 104, 116];
    let kr: Vec<u8> = vec![114u8, 95, 102, 114, 97, 109, 101, 95, 114, 97, 116, 101];
    let kd: Vec<u8> = vec![100u8, 117, 114, 97, 116, 105, 111, 110];
    assert(kw@ =~= key_width());
    assert(kh@ =~= key_height());
    assert(kr@ =~= key_rate());
    assert(kd@ =~= key_duration());
    let width = match lookup_exec(&fields, kw.as_slice()) {
        None => return Err(ProbeError::MissingWidth),
        Some((j, st)) => {
            let f = fields[j].as_slice();
            proof {
                assert(f@.subrange(st as int, f@.len() as int) =~= f@.skip(st as int));
            }
            match parse_i32(f, st, f.len()) {
                None => return Err(ProbeError::BadWidth),
                Some(v) => v,
            }
        },
    };
    let height = match lookup_exec(&fields, kh.as_slice()) {
        None => return Err(ProbeError::MissingHeight),
        Some((j, st)) => {
            let f = fields[j].as_slice();
            proof {
                assert(f@.subrange(st as int, f@.len() as int) =~= f@.skip(st as int));
            }
            match parse_i32(f, st, f.len()) {
                None => return Err(ProbeError::BadHeight),
                Some(v) => v,
            }
        },
    };
    let (num, den) = match lookup_exec(&fields, kr.as_slice()) {
        None => return Err(ProbeError::MissingFps),
        Some((j, st)) => {
            let f = fields[j].as_slice();
            let ghost v = f@.skip(st as int);
            proof {
                assert(f@.subrange(st as int, f@.len() as int) =~= v);
                lemma_find_bound(v, 47);
            }
            match find_in(f, st, f.len(), 47) {
                None => return Err(ProbeError::BadFps),
                Some(k) => {
                    proof {
                        assert(v.take(k as int) =~= f@.subrange(st as int, (st + k) as int));
                        assert(v.skip(k as int + 1) =~= f@.subrange((st + k + 1) as int, f@.len() as int));
                    }
                    let n = match parse_u32(f, st, st + k) {
                        None => return Err(ProbeError::BadFpsNumber),
                        Some(n) => n,
                    };
                    let d = match parse_u32(f, st + k + 1, f.len()) {
                        None => return Err(ProbeError::BadFpsNumber),
                        Some(d) => d,
                    };
                    (n, d)
                },
            }
        },
    };
    let duration_us = match lookup_exec(&fields, kd.as_slice()) {
        None => return Err(ProbeError::MissingDuration),
        Some((j, st)) => {
            let f = fields[j].as_slice();
            proof {
                assert(f@.subrange(st as int, f@.len() as int) =~= f@.skip(st as int));
            }
            match parse_micros(f, st, f.len()) {
                None => return Err(ProbeError::BadDuration),
                Some(v) => v,
            }
        },
    };
    Ok(VideoMetadata { width, height, fps_num: num, fps_den: den, duration_us })
}

} // verus!
