//! Position fixes from NMEA 0183 sentences (RMC and GGA, GPS and
//! multi-constellation), with checksum validation.
use vstd::prelude::*;
use vstd::utf8::encode_utf8;
use crate::dm::{all_digits, digits_value, split_on, split_on_exec};
use crate::text::{decimal, push_char, push_str, str_eq, to_decimal, trim, trimmed};

verus! {

/// A position fix, each coordinate in decimal degrees with six places.
#[derive(Debug, Clone)]
pub struct GnssPosition {
    pub latitude: String,
    pub longitude: String,
}

pub struct GnssPositionV {
    pub latitude: Seq<char>,
    pub longitude: Seq<char>,
}

impl View for GnssPosition {
    type V = GnssPositionV;

    open spec fn view(&self) -> GnssPositionV {
        GnssPositionV { latitude: self.latitude@, longitude: self.longitude@ }
    }
}

// ---------------------------------------------------------------- text helpers

/// `s` with every leading `c` removed.
pub open spec fn strip_lead(s: Seq<char>, c: char) -> Seq<char>
    decreases s.len(),
{
    if s.len() > 0 && s[0] == c {
        strip_lead(s.drop_first(), c)
    } else {
        s
    }
}

/// The position of the first `c` in `s`, if any.
pub open spec fn find_char(s: Seq<char>, c: char) -> Option<int>
    decreases s.len(),
{
    if s.len() == 0 {
        None
    } else if s[0] == c {
        Some(0)
    } else {
        match find_char(s.drop_first(), c) {
            Some(i) => Some(i + 1),
            None => None,
        }
    }
}

/// The text before the first `c`, or all of `s`.
pub open spec fn before_char(s: Seq<char>, c: char) -> Seq<char> {
    match find_char(s, c) {
        Some(i) => s.subrange(0, i),
        None => s,
    }
}

proof fn lemma_find_char(s: Seq<char>, c: char)
    ensures
        match find_char(s, c) {
            Some(i) => 0 <= i < s.len() && s[i] == c && forall|j: int| 0 <= j < i ==> s[j] != c,
            None => forall|j: int| 0 <= j < s.len() ==> s[j] != c,
        },
    decreases s.len(),
{
    if s.len() > 0 && s[0] != c {
        lemma_find_char(s.drop_first(), c);
        match find_char(s.drop_first(), c) {
            Some(i) => {
                assert forall|j: int| 0 <= j < i + 1 implies s[j] != c by {
                    if j > 0 {
                        assert(s[j] == s.drop_first()[j - 1]);
                    }
                }
            },
            None => {
                assert forall|j: int| 0 <= j < s.len() implies s[j] != c by {
                    if j > 0 {
                        assert(s[j] == s.drop_first()[j - 1]);
                    }
                }
            },
        }
    }
}

fn find_char_exec(s: &str, c: char) -> (r: Option<usize>)
    ensures
        match find_char(s@, c) {
            Some(i) => r matches Some(j) && j as int == i,
            None => r is None,
        },
{
    let n = s.unicode_len();
    let mut i: usize = 0;
    while i < n
        invariant
            n == s@.len(),
            i <= n,
            forall|j: int| 0 <= j < i ==> s@[j] != c,
        decreases n - i,
    {
        if s.get_char(i) == c {
            proof {
                lemma_find_char(s@, c);
                match find_char(s@, c) {
                    Some(k) => {
                        if k < i {
                            assert(s@[k] != c);
                        }
                        if k > i {
                            assert(s@[i as int] != c);
                        }
                    },
                    None => {
                        assert(s@[i as int] != c);
                    },
                }
            }
            return Some(i);
        }
        i = i + 1;
    }
    proof {
        lemma_find_char(s@, c);
        match find_char(s@, c) {
            Some(k) => {
                assert(s@[k] != c);
            },
            None => {},
        }
    }
    None
}

fn strip_lead_exec(s: &str, c: char) -> (r: String)
    ensures
        r@ == strip_lead(s@, c),
{
    let n = s.unicode_len();
    let mut i: usize = 0;
    assert(s@.subrange(0, n as int) =~= s@);
    while i < n && s.get_char(i) == c
        invariant
            n == s@.len(),
            i <= n,
            strip_lead(s@, c) == strip_lead(s@.subrange(i as int, n as int), c),
        decreases n - i,
    {
        assert(s@.subrange(i as int, n as int).drop_first() =~= s@.subrange(i + 1, n as int));
        i = i + 1;
    }
    String::from_str(s.substring_char(i, n))
}

/// The position of the first `c` in `s`, if any.
pub fn find_char_pos(s: &str, c: char) -> (r: Option<usize>)
    ensures
        match find_char(s@, c) {
            Some(i) => r matches Some(j) && j as int == i && i < s@.len(),
            None => r is None,
        },
{
    proof {
        lemma_find_char(s@, c);
    }
    find_char_exec(s, c)
}

fn before_char_exec(s: &str, c: char) -> (r: String)
    ensures
        r@ == before_char(s@, c),
{
    match find_char_exec(s, c) {
        Some(i) => {
            proof {
                lemma_find_char(s@, c);
            }
            String::from_str(s.substring_char(0, i))
        },
        None => String::from_str(s),
    }
}

// ---------------------------------------------------------------- checksum

/// The exclusive or of all bytes.
pub open spec fn xor_all(b: Seq<u8>) -> u8
    decreases b.len(),
{
    if b.len() == 0 {
        0
    } else {
        xor_all(b.drop_last()) ^ b.last()
    }
}

pub open spec fn hex_val(c: char) -> Option<nat> {
    if '0' <= c <= '9' {
        Some((c as nat - '0' as nat) as nat)
    } else if 'a' <= c <= 'f' {
        Some((c as nat - 'a' as nat + 10) as nat)
    } else if 'A' <= c <= 'F' {
        Some((c as nat - 'A' as nat + 10) as nat)
    } else {
        None
    }
}

/// The value of a string of hex digits, if every character is one.
pub open spec fn hex_digits(s: Seq<char>) -> Option<nat>
    decreases s.len(),
{
    if s.len() == 0 {
        Some(0)
    } else {
        match (hex_digits(s.drop_last()), hex_val(s.last())) {
            (Some(v), Some(d)) => Some(v * 16 + d),
            _ => None,
        }
    }
}

/// A byte written in hex, as `u8::from_str_radix` reads it: an optional
/// `+`, then at least one hex digit, with a value below 256.
pub open spec fn hex_byte(s: Seq<char>) -> Option<u8> {
    let t = if s.len() > 0 && s[0] == '+' {
        s.drop_first()
    } else {
        s
    };
    if t.len() == 0 {
        None
    } else {
        match hex_digits(t) {
            Some(v) => if v < 256 {
                Some(v as u8)
            } else {
                None
            },
            None => None,
        }
    }
}

/// Whether a sentence's checksum matches: the exclusive or of the bytes
/// between the leading `$` signs and the first `*` equals the hex byte
/// after it, spaces trimmed.
pub open spec fn checksum_ok(sentence: Seq<char>) -> bool {
    let inner = strip_lead(sentence, '$');
    match find_char(inner, '*') {
        None => false,
        Some(i) => {
            let body = inner.subrange(0, i);
            let hex = trimmed(inner.subrange(i + 1, inner.len() as int));
            match hex_byte(hex) {
                Some(e) => xor_all(encode_utf8(body)) == e,
                None => false,
            }
        },
    }
}

fn hex_val_exec(c: char) -> (r: Option<u32>)
    ensures
        match hex_val(c) {
            Some(v) => r == Some(v as u32),
            None => r is None,
        },
{
    if '0' <= c && c <= '9' {
        Some(c as u32 - '0' as u32)
    } else if 'a' <= c && c <= 'f' {
        Some(c as u32 - 'a' as u32 + 10)
    } else if 'A' <= c && c <= 'F' {
        Some(c as u32 - 'A' as u32 + 10)
    } else {
        None
    }
}

proof fn lemma_hex_digits_grow(s: Seq<char>, k: int)
    requires
        0 <= k <= s.len(),
        hex_digits(s.subrange(0, k)) matches Some(v) && v >= 256,
    ensures
        !(hex_digits(s) matches Some(w) && w < 256),
    decreases s.len() - k,
{
    if k < s.len() {
        let t = s.subrange(0, k + 1);
        assert(t.drop_last() =~= s.subrange(0, k));
        if hex_digits(t) is None {
            lemma_hex_digits_none(s, k + 1);
        } else {
            lemma_hex_digits_grow(s, k + 1);
        }
    } else {
        assert(s.subrange(0, k) =~= s);
    }
}

proof fn lemma_hex_digits_none(s: Seq<char>, k: int)
    requires
        0 <= k <= s.len(),
        hex_digits(s.subrange(0, k)) is None,
    ensures
        hex_digits(s) is None,
    decreases s.len() - k,
{
    if k < s.len() {
        assert(s.subrange(0, k + 1).drop_last() =~= s.subrange(0, k));
        lemma_hex_digits_none(s, k + 1);
    } else {
        assert(s.subrange(0, k) =~= s);
    }
}

pub fn hex_val_pub(c: char) -> (r: Option<u32>)
    ensures
        match hex_val(c) {
            Some(v) => r == Some(v as u32) && v < 16,
            None => r is None,
        },
{
    hex_val_exec(c)
}

/// A prefix of hex digits above `bound` leaves the whole string without a
/// value at most `bound`.
pub proof fn lemma_hex_grow_pub(s: Seq<char>, k: int, bound: nat)
    requires
        0 <= k <= s.len(),
        hex_digits(s.subrange(0, k)) matches Some(v) && v > bound,
    ensures
        !(hex_digits(s) matches Some(w) && w <= bound),
    decreases s.len() - k,
{
    if k < s.len() {
        let t = s.subrange(0, k + 1);
        assert(t.drop_last() =~= s.subrange(0, k));
        if hex_digits(t) is None {
            lemma_hex_digits_none(s, k + 1);
        } else {
            lemma_hex_grow_pub(s, k + 1, bound);
        }
    } else {
        assert(s.subrange(0, k) =~= s);
    }
}

pub proof fn lemma_hex_none_pub(s: Seq<char>, k: int)
    requires
        0 <= k <= s.len(),
        hex_digits(s.subrange(0, k)) is None,
    ensures
        hex_digits(s) is None,
{
    lemma_hex_digits_none(s, k);
}

fn hex_byte_exec(s: &str) -> (r: Option<u8>)
    ensures
        r == hex_byte(s@),
{
    let n = s.unicode_len();
    let start: usize = if n > 0 && s.get_char(0) == '+' {
        1
    } else {
        0
    };
    let ghost t = if s@.len() > 0 && s@[0] == '+' {
        s@.drop_first()
    } else {
        s@
    };
    assert(t =~= s@.subrange(start as int, n as int));
    if start == n {
        return None;
    }
    let mut v: u32 = 0;
    let mut i: usize = start;
    while i < n
        invariant
            n == s@.len(),
            start <= i <= n,
            start < n,
            t == s@.subrange(start as int, n as int),
            hex_byte(s@) == (match hex_digits(t) {
                Some(w) => if w < 256 {
                    Some(w as u8)
                } else {
                    None
                },
                None => None,
            }),
            hex_digits(t.subrange(0, i - start)) == Some(v as nat),
            v < 256,
        decreases n - i,
    {
        let ghost pre = t.subrange(0, i - start);
        assert(t.subrange(0, i - start + 1).drop_last() =~= pre);
        assert(t.subrange(0, i - start + 1).last() == s@[i as int]);
        match hex_val_exec(s.get_char(i)) {
            Some(d) => {
                let w = v * 16 + d;
                if w >= 256 {
                    proof {
                        lemma_hex_digits_grow(t, i - start + 1);
                    }
                    return None;
                }
                v = w;
            },
            None => {
                proof {
                    lemma_hex_digits_none(t, i - start + 1);
                }
                return None;
            },
        }
        i = i + 1;
    }
    assert(t.subrange(0, n - start) =~= t);
    Some(v as u8)
}

fn xor_bytes(b: &[u8]) -> (r: u8)
    ensures
        r == xor_all(b@),
{
    let mut acc: u8 = 0;
    let mut i: usize = 0;
    while i < b.len()
        invariant
            i <= b@.len(),
            acc == xor_all(b@.subrange(0, i as int)),
        decreases b@.len() - i,
    {
        assert(b@.subrange(0, i + 1).drop_last() =~= b@.subrange(0, i as int));
        acc = acc ^ b[i];
        i = i + 1;
    }
    assert(b@.subrange(0, i as int) =~= b@);
    acc
}

/// Whether the sentence's checksum matches its body.
pub fn nmea_checksum_ok(sentence: &str) -> (r: bool)
    ensures
        r == checksum_ok(sentence@),
{
    let inner = strip_lead_exec(sentence, '$');
    let inner = inner.as_str();
    match find_char_exec(inner, '*') {
        None => false,
        Some(i) => {
            proof {
                lemma_find_char(inner@, '*');
            }
            let n = inner.unicode_len();
            let body = inner.substring_char(0, i);
            let hex = trim(inner.substring_char(i + 1, n));
            match hex_byte_exec(hex.as_str()) {
                Some(e) => xor_bytes(body.as_bytes()) == e,
                None => false,
            }
        },
    }
}


// ---------------------------------------------------------------- coordinates

pub open spec fn pow10(k: nat) -> nat
    decreases k,
{
    if k == 0 {
        1
    } else {
        10 * pow10((k - 1) as nat)
    }
}

/// A coordinate `D..DMM.mmm` (one to three degree digits, two minute
/// digits, at most nine decimals of minutes) in millionths of a degree,
/// rounded half up; any other form is not a coordinate.
pub open spec fn coord_micro(coord: Seq<char>) -> Option<nat> {
    match find_char(coord, '.') {
        None => None,
        Some(dot) => if dot < 3 || dot > 5 {
            None
        } else {
            let deg = coord.subrange(0, dot - 2);
            let mi = coord.subrange(dot - 2, dot);
            let frac = coord.subrange(dot + 1, coord.len() as int);
            if all_digits(deg) && all_digits(mi) && all_digits(frac) && frac.len() <= 9 {
                let k = frac.len();
                let den = 60 * pow10(k);
                let num = digits_value(deg) * den + digits_value(mi) * pow10(k) + digits_value(frac);
                Some((num * 2000000 + den) / (2 * den))
            } else {
                None
            }
        },
    }
}

/// `n` in decimal, zero-padded to six digits.
pub open spec fn pad6(n: nat) -> Seq<char> {
    Seq::new((6 - decimal(n).len()) as nat, |i: int| '0') + decimal(n)
}

/// Millionths of a degree as text with six decimals, negative when `neg`.
pub open spec fn micro_text(neg: bool, micro: nat) -> Seq<char> {
    (if neg {
        seq!['-']
    } else {
        seq![]
    }) + decimal(micro / 1000000) + seq!['.'] + pad6(micro % 1000000)
}

/// A coordinate and its hemisphere as decimal-degree text; south and west
/// are negative.
pub open spec fn coord_text(coord: Seq<char>, hemi: Seq<char>) -> Option<Seq<char>> {
    match coord_micro(coord) {
        Some(m) => Some(micro_text(hemi == "S"@ || hemi == "W"@, m)),
        None => None,
    }
}

proof fn lemma_decimal_len(n: nat, k: nat)
    requires
        k >= 1,
        n < pow10(k),
    ensures
        decimal(n).len() <= k,
    decreases k,
{
    if n >= 10 {
        if k == 1 {
            assert(pow10(1) == 10 * pow10(0));
        } else {
            let p = pow10((k - 1) as nat);
            assert(n / 10 < p) by (nonlinear_arith)
                requires n < 10 * p;
            lemma_decimal_len(n / 10, (k - 1) as nat);
        }
    }
}

fn small_digits(s: &str) -> (r: u64)
    requires
        all_digits(s@),
        s@.len() <= 9,
    ensures
        r == digits_value(s@),
        (r as nat) < pow10(s@.len()),
{
    let n = s.unicode_len();
    let mut i: usize = 0;
    let mut v: u64 = 0;
    while i < n
        invariant
            n == s@.len(),
            n <= 9,
            i <= n,
            all_digits(s@),
            v == digits_value(s@.subrange(0, i as int)),
            (v as nat) < pow10(i as nat),
            pow10(i as nat) <= 1000000000,
        decreases n - i,
    {
        let ch = s.get_char(i);
        assert('0' <= s@[i as int] <= '9');
        let d = (ch as u32 - '0' as u32) as u64;
        assert(s@.subrange(0, i + 1).drop_last() =~= s@.subrange(0, i as int));
        assert(s@.subrange(0, i + 1).last() == ch);
        proof {
            assert(pow10((i + 1) as nat) == 10 * pow10(i as nat));
            reveal_with_fuel(pow10, 10);
            lemma_pow10_mono((i + 1) as nat, 9);
        }
        assert(v * 10 + d < 10 * pow10(i as nat)) by (nonlinear_arith)
            requires v < pow10(i as nat), d < 10;
        v = v * 10 + d;
        i = i + 1;
    }
    assert(s@.subrange(0, n as int) =~= s@);
    v
}

proof fn lemma_pow10_mono(j: nat, k: nat)
    requires
        j <= k,
    ensures
        pow10(j) <= pow10(k),
    decreases k,
{
    if j < k {
        lemma_pow10_mono(j, (k - 1) as nat);
    }
}

fn pow10_exec(k: usize) -> (r: u64)
    requires
        k <= 9,
    ensures
        r == pow10(k as nat),
{
    let mut r: u64 = 1;
    let mut i: usize = 0;
    while i < k
        invariant
            i <= k,
            k <= 9,
            r == pow10(i as nat),
        decreases k - i,
    {
        proof {
            lemma_pow10_mono((i + 1) as nat, 9);
            reveal_with_fuel(pow10, 10);
        }
        r = r * 10;
        i = i + 1;
    }
    r
}

fn coord_micro_exec(coord: &str) -> (r: Option<u64>)
    ensures
        match coord_micro(coord@) {
            Some(m) => r == Some(m as u64) && m < 0x1_0000_0000_0000_0000,
            None => r is None,
        },
{
    let dot = match find_char_exec(coord, '.') {
        Some(d) => d,
        None => {
            return None;
        },
    };
    proof {
        lemma_find_char(coord@, '.');
    }
    if dot < 3 || dot > 5 {
        return None;
    }
    let n = coord.unicode_len();
    let deg = coord.substring_char(0, dot - 2);
    let mi = coord.substring_char(dot - 2, dot);
    let frac = coord.substring_char(dot + 1, n);
    if !(crate::dm::is_all_digits(deg) && crate::dm::is_all_digits(mi) && crate::dm::is_all_digits(frac)) {
        return None;
    }
    let k = frac.unicode_len();
    if k > 9 {
        return None;
    }
    let d = small_digits(deg);
    let m = small_digits(mi);
    let f = small_digits(frac);
    let p = pow10_exec(k);
    proof {
        reveal_with_fuel(pow10, 4);
        lemma_pow10_mono(k as nat, 9);
        reveal_with_fuel(pow10, 10);
    }
    let den: u128 = 60 * (p as u128);
    assert(d < 1000 && m < 100);
    assert((d as u128) * den + (m as u128) * (p as u128) + (f as u128) < 100_000_000_000_000u128) by (nonlinear_arith)
        requires d < 1000, m < 100, f < p, p <= 1000000000, den == 60 * p;
    let num: u128 = (d as u128) * den + (m as u128) * (p as u128) + (f as u128);
    assert(num < 1002 * den) by (nonlinear_arith)
        requires num == d * den + m * p + f, d < 1000, m < 100, f < p, den == 60 * p, p >= 1;
    let micro: u128 = (num * 2000000 + den) / (2 * den);
    assert(micro < 1003000000) by (nonlinear_arith)
        requires micro == (num * 2000000 + den) / (2 * den), den >= 60, num < 1002 * den;
    proof {
        let deg_s = coord@.subrange(0, dot - 2);
        assert(deg@ == deg_s);
        assert(frac@ == coord@.subrange(dot + 1, coord@.len() as int));
        assert(find_char(coord@, '.') == Some(dot as int));
    }
    Some(micro as u64)
}

fn pad6_exec(n: u64) -> (r: String)
    requires
        n < 1000000,
    ensures
        r@ == pad6(n as nat),
{
    let d = to_decimal(n);
    proof {
        reveal_with_fuel(pow10, 7);
        lemma_decimal_len(n as nat, 6);
    }
    let len = d.as_str().unicode_len();
    let mut out = String::new();
    let mut i: usize = 0;
    while i + len < 6
        invariant
            len == d@.len(),
            len <= 6,
            i + len <= 6,
            out@ == Seq::new(i as nat, |j: int| '0'),
        decreases 6 - i - len,
    {
        push_char(&mut out, '0');
        assert(out@ =~= Seq::new((i + 1) as nat, |j: int| '0'));
        i = i + 1;
    }
    assert(out@ =~= Seq::new((6 - decimal(n as nat).len()) as nat, |j: int| '0'));
    push_str(&mut out, d.as_str());
    out
}

/// A coordinate and its hemisphere as decimal degrees with six places.
pub fn nmea_to_decimal(coord: &str, hemi: &str) -> (r: Option<String>)
    ensures
        match coord_text(coord@, hemi@) {
            Some(t) => r matches Some(x) && x@ == t,
            None => r is None,
        },
{
    let micro = match coord_micro_exec(coord) {
        Some(m) => m,
        None => {
            return None;
        },
    };
    let neg = str_eq(hemi, "S") || str_eq(hemi, "W");
    let mut out = String::new();
    if neg {
        push_char(&mut out, '-');
    }
    let whole = to_decimal(micro / 1000000);
    push_str(&mut out, whole.as_str());
    push_char(&mut out, '.');
    let frac = pad6_exec(micro % 1000000);
    push_str(&mut out, frac.as_str());
    assert(out@ =~= micro_text(neg, micro as nat));
    Some(out)
}

// ---------------------------------------------------------------- sentences

pub open spec fn rmc(f: Seq<Seq<char>>) -> Option<GnssPositionV> {
    if f.len() < 7 || f[2] != "A"@ {
        None
    } else {
        match (coord_text(f[3], f[4]), coord_text(f[5], f[6])) {
            (Some(latitude), Some(longitude)) => Some(GnssPositionV { latitude, longitude }),
            _ => None,
        }
    }
}

pub open spec fn gga(f: Seq<Seq<char>>) -> Option<GnssPositionV> {
    if f.len() < 7 || f[6] == "0"@ || f[6].len() == 0 {
        None
    } else {
        match (coord_text(f[2], f[3]), coord_text(f[4], f[5])) {
            (Some(latitude), Some(longitude)) => Some(GnssPositionV { latitude, longitude }),
            _ => None,
        }
    }
}

/// The fix a line reports: the line is trimmed; a line with a `*` must
/// carry a matching checksum; the fields are the comma-separated text
/// between the leading `$` signs and the first `*`; RMC and GGA sentences
/// (GP or GN) give a fix, others none.
pub open spec fn nmea_fix(line: Seq<char>) -> Option<GnssPositionV> {
    let l = trimmed(line);
    if find_char(l, '*') is Some && !checksum_ok(l) {
        None
    } else {
        let f = split_on(before_char(strip_lead(l, '$'), '*'), ',');
        if f[0] == "GPRMC"@ || f[0] == "GNRMC"@ {
            rmc(f)
        } else if f[0] == "GPGGA"@ || f[0] == "GNGGA"@ {
            gga(f)
        } else {
            None
        }
    }
}

fn position_from(lat: (&str, &str), lon: (&str, &str)) -> (r: Option<GnssPosition>)
    ensures
        match (coord_text(lat.0@, lat.1@), coord_text(lon.0@, lon.1@)) {
            (Some(a), Some(b)) => r matches Some(p) && p@ == (GnssPositionV { latitude: a, longitude: b }),
            _ => r is None,
        },
{
    let latitude = match nmea_to_decimal(lat.0, lat.1) {
        Some(t) => t,
        None => {
            return None;
        },
    };
    let longitude = match nmea_to_decimal(lon.0, lon.1) {
        Some(t) => t,
        None => {
            return None;
        },
    };
    Some(GnssPosition { latitude, longitude })
}

/// The fix of an RMC sentence's fields, when its status is `A`.
pub fn parse_rmc(f: &Vec<String>) -> (r: Option<GnssPosition>)
    ensures
        match rmc(crate::pb::view_seq(f@)) {
            Some(p) => r matches Some(x) && x@ == p,
            None => r is None,
        },
{
    if f.len() < 7 || !str_eq(f[2].as_str(), "A") {
        return None;
    }
    position_from((f[3].as_str(), f[4].as_str()), (f[5].as_str(), f[6].as_str()))
}

/// The fix of a GGA sentence's fields, when its quality is given and not 0.
pub fn parse_gga(f: &Vec<String>) -> (r: Option<GnssPosition>)
    ensures
        match gga(crate::pb::view_seq(f@)) {
            Some(p) => r matches Some(x) && x@ == p,
            None => r is None,
        },
{
    if f.len() < 7 || str_eq(f[6].as_str(), "0") || f[6].as_str().unicode_len() == 0 {
        return None;
    }
    position_from((f[2].as_str(), f[3].as_str()), (f[4].as_str(), f[5].as_str()))
}

/// The position fix that one NMEA line reports, if any.
pub fn parse_nmea(line: &str) -> (r: Option<GnssPosition>)
    ensures
        match nmea_fix(line@) {
            Some(p) => r matches Some(x) && x@ == p,
            None => r is None,
        },
{
    let l = trim(line);
    let l = l.as_str();
    if find_char_exec(l, '*').is_some() {
        if !nmea_checksum_ok(l) {
            return None;
        }
    }
    let stripped = strip_lead_exec(l, '$');
    let sentence = before_char_exec(stripped.as_str(), '*');
    let fields = split_on_exec(sentence.as_str(), ',');
    proof {
        crate::dm::lemma_split_nonempty(sentence@, ',');
    }
    let head = fields[0].as_str();
    if str_eq(head, "GPRMC") || str_eq(head, "GNRMC") {
        parse_rmc(&fields)
    } else if str_eq(head, "GPGGA") || str_eq(head, "GNGGA") {
        parse_gga(&fields)
    } else {
        None
    }
}

} // verus!
