//! Decoder for telemetry payloads.
//!
//! A payload is UTF-8 text holding one JSON object with exactly the seven
//! members `distance`, `raw`, `rssi`, `fp_rssi`, `round_time`, `reply_time`
//! and `clock_offset`, in any order, each exactly once. The five range and
//! clock members take any JSON number; the two duration members take an
//! unsigned integer literal. Decoding is all-or-nothing: anything else is a
//! decode failure and yields no record.
//!
//! The grammar is stated by the `spec_*` functions below, which walk the byte
//! sequence position by position; `decode` is proved to return exactly what
//! the grammar says. Every valid payload is plain ASCII, so bytes outside
//! ASCII can never appear in an accepted payload and UTF-8 validity is
//! implied.

use vstd::prelude::*;
use crate::record::Dec64;
use crate::record::TelemetryRecord;

verus! {

/// JSON insignificant whitespace: space, tab, line feed, carriage return.
pub open spec fn is_ws(b: u8) -> bool {
    b == 32 || b == 9 || b == 10 || b == 13
}

/// An ASCII decimal digit.
pub open spec fn is_digit(b: u8) -> bool {
    48 <= b <= 57
}

/// First position at or after `i` holding no whitespace.
pub open spec fn spec_skip_ws(s: Seq<u8>, i: int) -> int
    decreases s.len() - i,
{
    if 0 <= i < s.len() && is_ws(s[i]) {
        spec_skip_ws(s, i + 1)
    } else {
        i
    }
}

/// Scan a run of digits starting at `i`, extending the value `acc` one
/// decimal digit at a time. Stops at the first non-digit. Fails only when
/// the value outgrows `u64`.
pub open spec fn spec_digits(s: Seq<u8>, i: int, acc: int) -> Option<(int, int)>
    decreases s.len() - i,
{
    if 0 <= i < s.len() && is_digit(s[i]) {
        let a2 = acc * 10 + (s[i] - 48);
        if a2 <= u64::MAX {
            spec_digits(s, i + 1, a2)
        } else {
            None
        }
    } else {
        Some((acc, i))
    }
}

/// The name of each of the seven record fields, as ASCII bytes, in the fixed
/// trial order the decoder uses: distance, raw, rssi, fp_rssi, round_time,
/// reply_time, clock_offset.
pub open spec fn field_name(f: int) -> Seq<u8> {
    if f == 0 {
        seq![100u8, 105u8, 115u8, 116u8, 97u8, 110u8, 99u8, 101u8]
    } else if f == 1 {
        seq![114u8, 97u8, 119u8]
    } else if f == 2 {
        seq![114u8, 115u8, 115u8, 105u8]
    } else if f == 3 {
        seq![102u8, 112u8, 95u8, 114u8, 115u8, 115u8, 105u8]
    } else if f == 4 {
        seq![114u8, 111u8, 117u8, 110u8, 100u8, 95u8, 116u8, 105u8, 109u8, 101u8]
    } else if f == 5 {
        seq![114u8, 101u8, 112u8, 108u8, 121u8, 95u8, 116u8, 105u8, 109u8, 101u8]
    } else {
        seq![99u8, 108u8, 111u8, 99u8, 107u8, 95u8, 111u8, 102u8, 102u8, 115u8, 101u8, 116u8]
    }
}

/// A field name followed by its closing quote.
pub open spec fn qname(f: int) -> Seq<u8> {
    field_name(f).push(34u8)
}

/// `pat` occurs in `s` starting at position `i`.
pub open spec fn matches_at(s: Seq<u8>, i: int, pat: Seq<u8>) -> bool {
    &&& 0 <= i
    &&& i + pat.len() <= s.len()
    &&& forall|k: int| 0 <= k < pat.len() ==> s[i + k] == pat[k]
}

/// A member name together with its closing quote, read at position `i`
/// (just past the opening quote): the field it names and the position after
/// the closing quote.
pub open spec fn spec_member_name(s: Seq<u8>, i: int) -> Option<(u8, int)> {
    if matches_at(s, i, qname(0)) {
        Some((0u8, i + qname(0).len()))
    } else if matches_at(s, i, qname(1)) {
        Some((1u8, i + qname(1).len()))
    } else if matches_at(s, i, qname(2)) {
        Some((2u8, i + qname(2).len()))
    } else if matches_at(s, i, qname(3)) {
        Some((3u8, i + qname(3).len()))
    } else if matches_at(s, i, qname(4)) {
        Some((4u8, i + qname(4).len()))
    } else if matches_at(s, i, qname(5)) {
        Some((5u8, i + qname(5).len()))
    } else if matches_at(s, i, qname(6)) {
        Some((6u8, i + qname(6).len()))
    } else {
        None
    }
}

fn is_ws_byte(b: u8) -> (r: bool)
    ensures
        r == is_ws(b),
{
    b == 32 || b == 9 || b == 10 || b == 13
}

/// Advance past whitespace.
fn skip_ws(s: &[u8], i: usize) -> (j: usize)
    requires
        i <= s@.len(),
    ensures
        j as int == spec_skip_ws(s@, i as int),
        i <= j <= s@.len(),
{
    let mut j = i;
    while j < s.len() && is_ws_byte(s[j])
        invariant
            i <= j <= s@.len(),
            spec_skip_ws(s@, i as int) == spec_skip_ws(s@, j as int),
        decreases s@.len() - j,
    {
        j = j + 1;
    }
    j
}

/// Scan a run of digits, as `spec_digits` describes.
fn take_digits(s: &[u8], i: usize, acc: u64) -> (r: Option<(u64, usize)>)
    requires
        i <= s@.len(),
    ensures
        r is None <==> spec_digits(s@, i as int, acc as int) is None,
        r matches Some(p) ==> spec_digits(s@, i as int, acc as int) == Some((p.0 as int, p.1 as int))
            && i <= p.1 <= s@.len(),
{
    let mut j = i;
    let mut a = acc;
    loop
        invariant
            i <= j <= s@.len(),
            spec_digits(s@, i as int, acc as int) == spec_digits(s@, j as int, a as int),
        ensures
            i <= j <= s@.len(),
            spec_digits(s@, i as int, acc as int) == spec_digits(s@, j as int, a as int),
            !(j < s@.len() && is_digit(s@[j as int])),
        decreases s@.len() - j,
    {
        if j < s.len() {
            let b = s[j];
            if 48 <= b && b <= 57 {
                let d = (b - 48) as u64;
                let m = a.checked_mul(10);
                match m {
                    Some(v) => {
                        if v <= u64::MAX - d {
                            a = v + d;
                            j = j + 1;
                        } else {
                            return None;
                        }
                    },
                    None => {
                        return None;
                    },
                }
            } else {
                break;
            }
        } else {
            break;
        }
    }
    Some((a, j))
}

/// `pat` occurs in `s` at position `i`.
fn match_at(s: &[u8], i: usize, pat: &Vec<u8>) -> (b: bool)
    requires
        i <= s@.len(),
    ensures
        b == matches_at(s@, i as int, pat@),
{
    if pat.len() > s.len() - i {
        return false;
    }
    let mut k: usize = 0;
    while k < pat.len()
        invariant
            s@.len() <= usize::MAX,
            i + pat@.len() <= s@.len(),
            k <= pat@.len(),
            forall|m: int| 0 <= m < k ==> s@[i + m] == pat@[m],
        decreases pat@.len() - k,
    {
        if s[i + k] != pat[k] {
            return false;
        }
        k = k + 1;
    }
    true
}

/// The bytes of one field name plus its closing quote.
fn qname_vec(f: u8) -> (v: Vec<u8>)
    requires
        f < 7,
    ensures
        v@ == qname(f as int),
{
    let mut v: Vec<u8> = Vec::new();
    if f == 0 {
        v.push(100); v.push(105); v.push(115); v.push(116);
        v.push(97); v.push(110); v.push(99); v.push(101);
    } else if f == 1 {
        v.push(114); v.push(97); v.push(119);
    } else if f == 2 {
        v.push(114); v.push(115); v.push(115); v.push(105);
    } else if f == 3 {
        v.push(102); v.push(112); v.push(95); v.push(114);
        v.push(115); v.push(115); v.push(105);
    } else if f == 4 {
        v.push(114); v.push(111); v.push(117); v.push(110); v.push(100);
        v.push(95); v.push(116); v.push(105); v.push(109); v.push(101);
    } else if f == 5 {
        v.push(114); v.push(101); v.push(112); v.push(108); v.push(121);
        v.push(95); v.push(116); v.push(105); v.push(109); v.push(101);
    } else {
        v.push(99); v.push(108); v.push(111); v.push(99); v.push(107); v.push(95);
        v.push(111); v.push(102); v.push(102); v.push(115); v.push(101); v.push(116);
    }
    v.push(34);
    proof {
        assert(v@ =~= qname(f as int));
    }
    v
}

/// Read a member name and its closing quote at position `i`.
fn parse_member_name(s: &[u8], i: usize) -> (r: Option<(u8, usize)>)
    requires
        i <= s@.len(),
    ensures
        r is None <==> spec_member_name(s@, i as int) is None,
        r matches Some(p) ==> spec_member_name(s@, i as int) == Some((p.0, p.1 as int))
            && p.1 <= s@.len(),
{
    let n = s.len();
    let mut f: u8 = 0;
    while f < 7
        invariant
            i <= s@.len(),
            n == s@.len(),
            forall|g: int| 0 <= g < f ==> !matches_at(s@, i as int, qname(g)),
        decreases 7 - f,
    {
        let pat = qname_vec(f);
        if match_at(s, i, &pat) {
            return Some((f, i + pat.len()));
        }
        f = f + 1;
    }
    None
}

/// The integer part of a number at `i` (which must hold a digit): a single
/// `0`, or a nonzero digit followed by any run of digits. A leading zero
/// ahead of further digits is malformed.
pub open spec fn spec_int_part(s: Seq<u8>, i: int) -> Option<(int, int)> {
    if s[i] == 48 {
        if i + 1 < s.len() && is_digit(s[i + 1]) {
            None
        } else {
            Some((0, i + 1))
        }
    } else {
        spec_digits(s, i, 0)
    }
}

/// The optional fraction part at `i`, continuing the mantissa `mant0`:
/// the extended mantissa, the count of fraction digits, and the position
/// after them. A dot must be followed by at least one digit.
pub open spec fn spec_frac_part(s: Seq<u8>, i: int, mant0: int) -> Option<(int, int, int)> {
    if 0 <= i < s.len() && s[i] == 46 {
        if i + 1 < s.len() && is_digit(s[i + 1]) {
            match spec_digits(s, i + 1, mant0) {
                None => None,
                Some((m, j)) => Some((m, j - (i + 1), j)),
            }
        } else {
            None
        }
    } else {
        Some((mant0, 0, i))
    }
}

/// The optional exponent part at `i`: its sign, magnitude, the position
/// after it, and whether one was present at all.
pub open spec fn spec_exp_part(s: Seq<u8>, i: int) -> Option<(bool, int, int, bool)> {
    if 0 <= i < s.len() && (s[i] == 101 || s[i] == 69) {
        let (eneg, j): (bool, int) = if i + 1 < s.len() && (s[i + 1] == 43 || s[i + 1] == 45) {
            (s[i + 1] == 45, i + 2)
        } else {
            (false, i + 1)
        };
        if j < s.len() && is_digit(s[j]) {
            match spec_digits(s, j, 0) {
                None => None,
                Some((e, k)) => Some((eneg, e, k, true)),
            }
        } else {
            None
        }
    } else {
        Some((false, 0, i, false))
    }
}

/// Fraction and exponent of a number whose sign and integer part are read:
/// the finished literal, whether the whole number was a plain unsigned
/// integer, and the position after it.
pub open spec fn spec_number_tail(s: Seq<u8>, i: int, neg: bool, mant0: int) -> Option<(Dec64, bool, int)> {
    match spec_frac_part(s, i, mant0) {
        None => None,
        Some((mant, frac_len, j)) => match spec_exp_part(s, j) {
            None => None,
            Some((eneg, e, k, had_exp)) => {
                let ev = (if eneg { -e } else { e }) - frac_len;
                if ev < i64::MIN as int || ev > i64::MAX as int {
                    None
                } else {
                    Some((
                        Dec64 { neg, mant: mant as u64, exp: ev as i64 },
                        !neg && frac_len == 0 && !had_exp,
                        k,
                    ))
                }
            },
        },
    }
}

/// A JSON number literal at position `i`: the decimal value it writes down,
/// whether it is a plain unsigned integer literal, and the position after it.
/// Fails when malformed, when the mantissa digits outgrow `u64`, or when the
/// exponent leaves `i64`.
pub open spec fn spec_number(s: Seq<u8>, i: int) -> Option<(Dec64, bool, int)> {
    if !(0 <= i < s.len()) {
        None
    } else {
        let neg = s[i] == 45;
        let i1 = if neg { i + 1 } else { i };
        if !(i1 < s.len() && is_digit(s[i1])) {
            None
        } else {
            match spec_int_part(s, i1) {
                None => None,
                Some((mant0, i2)) => spec_number_tail(s, i2, neg, mant0),
            }
        }
    }
}

/// Read a JSON number literal, as `spec_number` describes.
#[verifier::rlimit(60)]
fn parse_number(s: &[u8], i: usize) -> (r: Option<(Dec64, bool, usize)>)
    requires
        i <= s@.len(),
    ensures
        r is None <==> spec_number(s@, i as int) is None,
        r matches Some(p) ==> spec_number(s@, i as int) == Some((p.0, p.1, p.2 as int))
            && p.2 <= s@.len(),
{
    let n = s.len();
    if i >= n {
        return None;
    }
    let neg = s[i] == 45;
    let i1 = if neg { i + 1 } else { i };
    if !(i1 < n && 48 <= s[i1] && s[i1] <= 57) {
        return None;
    }
    let ip: Option<(u64, usize)> = if s[i1] == 48 {
        if i1 + 1 < n && 48 <= s[i1 + 1] && s[i1 + 1] <= 57 {
            None
        } else {
            Some((0, i1 + 1))
        }
    } else {
        take_digits(s, i1, 0)
    };
    let (mant0, i2) = match ip {
        None => {
            return None;
        },
        Some(p) => p,
    };
    let mut mant = mant0;
    let mut frac_len: usize = 0;
    let mut j = i2;
    if j < n && s[j] == 46 {
        if !(j + 1 < n && 48 <= s[j + 1] && s[j + 1] <= 57) {
            return None;
        }
        match take_digits(s, j + 1, mant0) {
            None => {
                return None;
            },
            Some((m, j2)) => {
                mant = m;
                frac_len = j2 - (j + 1);
                j = j2;
            },
        }
    }
    let mut eneg = false;
    let mut e: u64 = 0;
    let mut had_exp = false;
    if j < n && (s[j] == 101 || s[j] == 69) {
        let mut k = j + 1;
        if k < n && (s[k] == 43 || s[k] == 45) {
            eneg = s[k] == 45;
            k = k + 1;
        }
        if !(k < n && 48 <= s[k] && s[k] <= 57) {
            return None;
        }
        match take_digits(s, k, 0) {
            None => {
                return None;
            },
            Some((ev, k2)) => {
                e = ev;
                j = k2;
                had_exp = true;
            },
        }
    }
    let e_signed: i128 = if eneg {
        -(e as i128)
    } else {
        e as i128
    };
    let ev: i128 = e_signed - (frac_len as i128);
    if ev < (i64::MIN as i128) || ev > (i64::MAX as i128) {
        return None;
    }
    let exp: i64 = ev as i64;
    let plain = !neg && frac_len == 0 && !had_exp;
    Some((Dec64 { neg, mant, exp }, plain, j))
}

/// The members of an object gathered so far, one slot per field. A slot is
/// filled at most once; a second member of the same name is malformed.
#[derive(Clone, Copy, Debug)]
pub struct Slots {
    pub distance: Option<Dec64>,
    pub raw: Option<Dec64>,
    pub rssi: Option<Dec64>,
    pub fp_rssi: Option<Dec64>,
    pub round_time: Option<u64>,
    pub reply_time: Option<u64>,
    pub clock_offset: Option<Dec64>,
}

/// No member gathered yet.
pub open spec fn empty_slots() -> Slots {
    Slots {
        distance: None,
        raw: None,
        rssi: None,
        fp_rssi: None,
        round_time: None,
        reply_time: None,
        clock_offset: None,
    }
}

/// Fill the slot a member names. The two duration fields take only a plain
/// unsigned integer literal; an already filled slot makes the object
/// malformed.
pub open spec fn spec_set_slot(sl: Slots, f: u8, d: Dec64, plain: bool) -> Option<Slots> {
    if f == 0 {
        if sl.distance is Some {
            None
        } else {
            Some(Slots { distance: Some(d), ..sl })
        }
    } else if f == 1 {
        if sl.raw is Some {
            None
        } else {
            Some(Slots { raw: Some(d), ..sl })
        }
    } else if f == 2 {
        if sl.rssi is Some {
            None
        } else {
            Some(Slots { rssi: Some(d), ..sl })
        }
    } else if f == 3 {
        if sl.fp_rssi is Some {
            None
        } else {
            Some(Slots { fp_rssi: Some(d), ..sl })
        }
    } else if f == 4 {
        if !plain || sl.round_time is Some {
            None
        } else {
            Some(Slots { round_time: Some(d.mant), ..sl })
        }
    } else if f == 5 {
        if !plain || sl.reply_time is Some {
            None
        } else {
            Some(Slots { reply_time: Some(d.mant), ..sl })
        }
    } else {
        if sl.clock_offset is Some {
            None
        } else {
            Some(Slots { clock_offset: Some(d), ..sl })
        }
    }
}

/// The record the slots make once every member has arrived.
pub open spec fn slots_record(sl: Slots) -> Option<TelemetryRecord> {
    match (sl.distance, sl.raw, sl.rssi, sl.fp_rssi, sl.round_time, sl.reply_time, sl.clock_offset) {
        (Some(d), Some(r), Some(rs), Some(fp), Some(rt), Some(rp), Some(co)) => Some(
            TelemetryRecord {
                distance: d,
                raw: r,
                rssi: rs,
                fp_rssi: fp,
                round_time: rt,
                reply_time: rp,
                clock_offset: co,
            },
        ),
        _ => None,
    }
}

/// One object member at `i`: a quoted field name, a colon and a number, each
/// side of the colon padded by any whitespace. Yields the slots extended by
/// the member and the position after its value.
pub open spec fn spec_member(s: Seq<u8>, i: int, sl: Slots) -> Option<(Slots, int)> {
    if !(0 <= i < s.len() && s[i] == 34) {
        None
    } else {
        match spec_member_name(s, i + 1) {
            None => None,
            Some((f, j)) => {
                let j1 = spec_skip_ws(s, j);
                if !(j1 < s.len() && s[j1] == 58) {
                    None
                } else {
                    let j2 = spec_skip_ws(s, j1 + 1);
                    match spec_number(s, j2) {
                        None => None,
                        Some((d, plain, j3)) => match spec_set_slot(sl, f, d, plain) {
                            None => None,
                            Some(sl2) => Some((sl2, j3)),
                        },
                    }
                }
            },
        }
    }
}

/// A comma-separated run of members starting at `i`, up to and including the
/// closing brace. The fuel bounds the recursion; seven is enough, since an
/// eighth member necessarily repeats a name and is malformed anyway.
pub open spec fn spec_members(s: Seq<u8>, i: int, sl: Slots, fuel: nat) -> Option<(Slots, int)>
    decreases fuel,
{
    match spec_member(s, i, sl) {
        None => None,
        Some((sl2, j)) => {
            let j1 = spec_skip_ws(s, j);
            if j1 < s.len() && s[j1] == 44 {
                if fuel == 0 {
                    None
                } else {
                    let j2 = spec_skip_ws(s, j1 + 1);
                    spec_members(s, j2, sl2, (fuel - 1) as nat)
                }
            } else if j1 < s.len() && s[j1] == 125 {
                Some((sl2, j1 + 1))
            } else {
                None
            }
        },
    }
}

/// What a payload decodes to: a record exactly when the whole byte sequence
/// is one JSON object holding each of the seven fields once, with a number
/// of the right kind in each, and nothing else.
pub open spec fn spec_decode(s: Seq<u8>) -> Option<TelemetryRecord> {
    let i0 = spec_skip_ws(s, 0);
    if !(i0 < s.len() && s[i0] == 123) {
        None
    } else {
        let i1 = spec_skip_ws(s, i0 + 1);
        match spec_members(s, i1, empty_slots(), 7) {
            None => None,
            Some((sl, j)) => {
                let j1 = spec_skip_ws(s, j);
                if j1 == s.len() {
                    slots_record(sl)
                } else {
                    None
                }
            },
        }
    }
}

fn new_slots() -> (sl: Slots)
    ensures
        sl == empty_slots(),
{
    Slots {
        distance: None,
        raw: None,
        rssi: None,
        fp_rssi: None,
        round_time: None,
        reply_time: None,
        clock_offset: None,
    }
}

fn set_slot(sl: Slots, f: u8, d: Dec64, plain: bool) -> (r: Option<Slots>)
    ensures
        r == spec_set_slot(sl, f, d, plain),
{
    if f == 0 {
        if sl.distance.is_some() {
            None
        } else {
            Some(Slots { distance: Some(d), ..sl })
        }
    } else if f == 1 {
        if sl.raw.is_some() {
            None
        } else {
            Some(Slots { raw: Some(d), ..sl })
        }
    } else if f == 2 {
        if sl.rssi.is_some() {
            None
        } else {
            Some(Slots { rssi: Some(d), ..sl })
        }
    } else if f == 3 {
        if sl.fp_rssi.is_some() {
            None
        } else {
            Some(Slots { fp_rssi: Some(d), ..sl })
        }
    } else if f == 4 {
        if !plain || sl.round_time.is_some() {
            None
        } else {
            Some(Slots { round_time: Some(d.mant), ..sl })
        }
    } else if f == 5 {
        if !plain || sl.reply_time.is_some() {
            None
        } else {
            Some(Slots { reply_time: Some(d.mant), ..sl })
        }
    } else {
        if sl.clock_offset.is_some() {
            None
        } else {
            Some(Slots { clock_offset: Some(d), ..sl })
        }
    }
}

fn record_from_slots(sl: Slots) -> (r: Option<TelemetryRecord>)
    ensures
        r == slots_record(sl),
{
    match (sl.distance, sl.raw, sl.rssi, sl.fp_rssi, sl.round_time, sl.reply_time, sl.clock_offset) {
        (Some(d), Some(r), Some(rs), Some(fp), Some(rt), Some(rp), Some(co)) => Some(
            TelemetryRecord {
                distance: d,
                raw: r,
                rssi: rs,
                fp_rssi: fp,
                round_time: rt,
                reply_time: rp,
                clock_offset: co,
            },
        ),
        _ => None,
    }
}

/// Read one object member, as `spec_member` describes.
fn parse_member(s: &[u8], i: usize, sl: Slots) -> (r: Option<(Slots, usize)>)
    requires
        i <= s@.len(),
    ensures
        r is None <==> spec_member(s@, i as int, sl) is None,
        r matches Some(p) ==> spec_member(s@, i as int, sl) == Some((p.0, p.1 as int))
            && p.1 <= s@.len(),
{
    let n = s.len();
    if !(i < n && s[i] == 34) {
        return None;
    }
    let (f, j) = match parse_member_name(s, i + 1) {
        None => {
            return None;
        },
        Some(p) => p,
    };
    let j1 = skip_ws(s, j);
    if !(j1 < n && s[j1] == 58) {
        return None;
    }
    let j2 = skip_ws(s, j1 + 1);
    let (d, plain, j3) = match parse_number(s, j2) {
        None => {
            return None;
        },
        Some(p) => p,
    };
    match set_slot(sl, f, d, plain) {
        None => None,
        Some(sl2) => Some((sl2, j3)),
    }
}

/// Decode one payload. Returns a record exactly when the payload is valid,
/// as `spec_decode` states; on any malformed payload it returns nothing.
pub fn decode(s: &[u8]) -> (r: Option<TelemetryRecord>)
    ensures
        r == spec_decode(s@),
{
    let n = s.len();
    let i0 = skip_ws(s, 0);
    if !(i0 < n && s[i0] == 123) {
        return None;
    }
    let mut i = skip_ws(s, i0 + 1);
    let mut sl = new_slots();
    let mut fuel: u8 = 7;
    let ghost i_start = i as int;
    loop
        invariant
            i <= s@.len(),
            n == s@.len(),
            i0 as int == spec_skip_ws(s@, 0),
            i0 < s@.len() && s@[i0 as int] == 123,
            i_start == spec_skip_ws(s@, i0 + 1),
            spec_members(s@, i_start, empty_slots(), 7) == spec_members(s@, i as int, sl, fuel as nat),
        decreases fuel,
    {
        let (sl2, j) = match parse_member(s, i, sl) {
            None => {
                return None;
            },
            Some(p) => p,
        };
        let j1 = skip_ws(s, j);
        if j1 < n && s[j1] == 44 {
            if fuel == 0 {
                return None;
            }
            i = skip_ws(s, j1 + 1);
            sl = sl2;
            fuel = fuel - 1;
        } else if j1 < n && s[j1] == 125 {
            let j2 = skip_ws(s, j1 + 1);
            if j2 == n {
                return record_from_slots(sl2);
            } else {
                return None;
            }
        } else {
            return None;
        }
    }
}

} // verus!
