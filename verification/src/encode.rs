//! The canonical wire form of a record, and the round-trip law: decoding an
//! encoded record yields exactly that record.
//!
//! The encoder is a ghost-level description: it fixes one payload per record
//! (no whitespace, members in declaration order, each number written as
//! mantissa and power-of-ten exponent) and serves as the witness that the
//! decoder loses nothing. Every record the decoder can produce has such a
//! payload, so the law covers the decoder's whole range.

use vstd::prelude::*;
use crate::decode::empty_slots;
use crate::decode::field_name;
use crate::decode::is_digit;
use crate::decode::is_ws;
use crate::decode::matches_at;
use crate::decode::qname;
use crate::decode::slots_record;
use crate::decode::spec_digits;
use crate::decode::spec_member;
use crate::decode::spec_member_name;
use crate::decode::spec_members;
use crate::decode::spec_set_slot;
use crate::decode::spec_skip_ws;
use crate::decode::Slots;
use crate::record::Dec64;
use crate::record::TelemetryRecord;

verus! {

/// Ten to the `k`.
pub open spec fn pow10(k: nat) -> int
    decreases k,
{
    if k == 0 {
        1
    } else {
        10 * pow10((k - 1) as nat)
    }
}

/// The decimal digits of `n`, most significant first.
pub open spec fn digits(n: int) -> Seq<u8>
    recommends
        0 <= n,
    decreases n,
{
    if n <= 9 {
        seq![(48 + n) as u8]
    } else {
        digits(n / 10).push((48 + n % 10) as u8)
    }
}

/// Every byte of `d` is a decimal digit.
pub open spec fn all_digits(d: Seq<u8>) -> bool {
    forall|k: int| 0 <= k < d.len() ==> is_digit(d[k])
}

/// The value a digit run denotes, scanned left to right onto `acc`, the way
/// the decoder scans it.
pub open spec fn digits_value(d: Seq<u8>, acc: int) -> int
    decreases d.len(),
{
    if d.len() == 0 {
        acc
    } else {
        digits_value(d.drop_first(), acc * 10 + (d[0] - 48))
    }
}

/// The digits of a number are digits, there is at least one, and the first
/// is zero only for the number zero.
pub proof fn lemma_digits_shape(n: int)
    requires
        0 <= n,
    ensures
        all_digits(digits(n)),
        digits(n).len() >= 1,
        n >= 1 ==> digits(n)[0] != 48,
        n == 0 ==> digits(n) == seq![48u8],
    decreases n,
{
    if n <= 9 {
        assert(digits(n) == seq![(48 + n) as u8]);
        assert(digits(n)[0] == (48 + n) as u8);
    } else {
        lemma_digits_shape(n / 10);
        assert(0 <= n % 10 < 10);
        let d = digits(n / 10);
        assert(digits(n) == d.push((48 + n % 10) as u8));
        assert(digits(n)[0] == d[0]);
        assert forall|k: int| 0 <= k < digits(n).len() implies is_digit(digits(n)[k]) by {
            if k < d.len() {
                assert(digits(n)[k] == d[k]);
            } else {
                assert(digits(n)[k] == (48 + n % 10) as u8);
            }
        }
    }
}

/// Scanning digits never shrinks the accumulated value.
pub proof fn lemma_digits_value_grows(d: Seq<u8>, acc: int)
    requires
        all_digits(d),
        0 <= acc,
    ensures
        digits_value(d, acc) >= acc,
    decreases d.len(),
{
    if d.len() > 0 {
        assert(is_digit(d[0]));
        let a2 = acc * 10 + (d[0] - 48);
        assert(a2 >= acc);
        assert(all_digits(d.drop_first())) by {
            assert(forall|k: int| 0 <= k < d.drop_first().len() ==> d.drop_first()[k] == d[k + 1]);
        }
        lemma_digits_value_grows(d.drop_first(), a2);
    }
}

/// Scanning a run with one more digit at the back scans the run and then
/// takes the digit.
pub proof fn lemma_digits_value_push(d: Seq<u8>, x: u8, acc: int)
    ensures
        digits_value(d.push(x), acc) == digits_value(d, acc) * 10 + (x - 48),
    decreases d.len(),
{
    if d.len() == 0 {
        assert(d.push(x) =~= seq![x]);
        assert(digits_value(seq![x], acc) == digits_value(seq![x].drop_first(), acc * 10 + (x - 48)));
        assert(seq![x].drop_first() =~= Seq::<u8>::empty());
    } else {
        assert(d.push(x).drop_first() =~= d.drop_first().push(x));
        assert(d.push(x)[0] == d[0]);
        lemma_digits_value_push(d.drop_first(), x, acc * 10 + (d[0] - 48));
    }
}

/// Scanning the digits of `n` onto `acc` gives `acc` shifted past them
/// plus `n`.
pub proof fn lemma_digits_value_of_digits(n: int, acc: int)
    requires
        0 <= n,
        0 <= acc,
    ensures
        digits_value(digits(n), acc) == acc * pow10(digits(n).len()) + n,
    decreases n,
{
    if n <= 9 {
        assert(digits(n) =~= seq![(48 + n) as u8]);
        let d = seq![(48 + n) as u8];
        assert(digits_value(d, acc) == digits_value(d.drop_first(), acc * 10 + n));
        assert(d.drop_first() =~= Seq::<u8>::empty());
        assert(pow10(0) == 1);
        assert(pow10(1) == 10);
    } else {
        let q = n / 10;
        let m = n % 10;
        assert(0 <= q < n && 0 <= m < 10);
        assert(n == 10 * q + m);
        lemma_digits_value_of_digits(q, acc);
        lemma_digits_value_push(digits(q), (48 + m) as u8, acc);
        let lq = digits(q).len();
        assert(digits(n).len() == lq + 1);
        assert(digits_value(digits(n), acc) == (acc * pow10(lq) + q) * 10 + m);
        assert((acc * pow10(lq) + q) * 10 == acc * (10 * pow10(lq)) + q * 10) by (nonlinear_arith);
        assert(pow10(lq + 1) == 10 * pow10(lq));
    }
}

/// The decoder's digit scan over a region holding exactly a digit run `d`
/// (ended by the end of input or a non-digit) yields the run's value,
/// provided that value fits.
pub proof fn lemma_scan_digits(s: Seq<u8>, i: int, d: Seq<u8>, acc: int)
    requires
        matches_at(s, i, d),
        all_digits(d),
        i + d.len() == s.len() || !is_digit(s[i + d.len()]),
        0 <= acc,
        digits_value(d, acc) <= u64::MAX,
    ensures
        spec_digits(s, i, acc) == Some((digits_value(d, acc), i + d.len())),
    decreases d.len(),
{
    if d.len() == 0 {
        assert(!(0 <= i < s.len() && is_digit(s[i])) ==> spec_digits(s, i, acc) == Some((acc, i)));
    } else {
        assert(s[i] == d[0]);
        assert(is_digit(d[0]));
        let a2 = acc * 10 + (d[0] - 48);
        assert(all_digits(d.drop_first())) by {
            assert(forall|k: int| 0 <= k < d.drop_first().len() ==> d.drop_first()[k] == d[k + 1]);
        }
        lemma_digits_value_grows(d.drop_first(), a2);
        assert(digits_value(d, acc) == digits_value(d.drop_first(), a2));
        assert(a2 <= u64::MAX);
        assert(matches_at(s, i + 1, d.drop_first())) by {
            assert(forall|k: int|
                0 <= k < d.drop_first().len() ==> s[i + 1 + k] == d[k + 1]
                    && d.drop_first()[k] == d[k + 1]);
        }
        lemma_scan_digits(s, i + 1, d.drop_first(), a2);
    }
}

/// The canonical wire form of a decimal literal: sign, the mantissa digits,
/// and an exponent marker only where the exponent is not zero. No fraction
/// dot is ever needed: the exponent carries the scale.
pub open spec fn encode_dec(v: Dec64) -> Seq<u8> {
    (if v.neg {
        seq![45u8]
    } else {
        Seq::<u8>::empty()
    }) + digits(v.mant as int) + (if v.exp == 0 {
        Seq::<u8>::empty()
    } else if v.exp < 0 {
        seq![101u8, 45u8] + digits(-(v.exp as int))
    } else {
        seq![101u8] + digits(v.exp as int)
    })
}

/// A byte that ends a number on the wire: no digit, no fraction dot, no
/// exponent marker.
pub open spec fn ends_number(b: u8) -> bool {
    !is_digit(b) && b != 46 && b != 101 && b != 69
}

/// The decoder reads an encoded decimal literal back as exactly that
/// literal, and sees a plain unsigned integer exactly when the literal has
/// no sign and no exponent.
pub proof fn lemma_parse_encoded_dec(s: Seq<u8>, i: int, v: Dec64)
    requires
        matches_at(s, i, encode_dec(v)),
        i + encode_dec(v).len() == s.len() || ends_number(s[i + encode_dec(v).len()]),
    ensures
        crate::decode::spec_number(s, i) == Some(
            (v, !v.neg && v.exp == 0, i + encode_dec(v).len()),
        ),
{
    let mant = v.mant as int;
    let m = digits(mant);
    let ml = m.len() as int;
    lemma_digits_shape(mant);
    let sign: Seq<u8> = if v.neg {
        seq![45u8]
    } else {
        Seq::<u8>::empty()
    };
    let sl = sign.len() as int;
    let e: Seq<u8> = if v.exp == 0 {
        Seq::<u8>::empty()
    } else if v.exp < 0 {
        seq![101u8, 45u8] + digits(-(v.exp as int))
    } else {
        seq![101u8] + digits(v.exp as int)
    };
    let enc = encode_dec(v);
    assert(enc == sign + m + e);
    let n = enc.len() as int;
    assert(n == sl + ml + e.len());
    // the bytes of each region
    assert forall|k: int| 0 <= k < n implies s[i + k] == enc[k] by {}
    assert forall|k: int| 0 <= k < ml implies #[trigger] m[k] == s[i + sl + k] by {
        assert(enc[sl + k] == m[k]);
        assert(s[i + (sl + k)] == enc[sl + k]);
    }
    let i1 = i + sl;
    assert(matches_at(s, i1, m));
    if v.neg {
        assert(enc[0] == 45);
        assert(s[i] == 45);
    } else {
        assert(enc[0] == m[0]);
        assert(is_digit(s[i]));
    }
    assert(is_digit(s[i1])) by {
        assert(enc[sl] == m[0]);
    }
    let i2 = i1 + ml;
    // what follows the mantissa digits is never a digit and never a dot
    assert(i2 == s.len() || (!is_digit(s[i2]) && s[i2] != 46)) by {
        if e.len() > 0 {
            assert(enc[sl + ml] == e[0]);
            assert(e[0] == 101);
        }
    }
    // the integer part reads back the mantissa
    assert(crate::decode::spec_int_part(s, i1) == Some((mant, i2))) by {
        if mant == 0 {
            assert(m == seq![48u8]);
            assert(s[i1] == 48);
            assert(i1 + 1 == i2);
        } else {
            assert(m[0] != 48);
            assert(s[i1] != 48);
            lemma_digits_value_of_digits(mant, 0);
            lemma_scan_digits(s, i1, m, 0);
        }
    }
    // no fraction part
    assert(crate::decode::spec_frac_part(s, i2, mant) == Some((mant, 0int, i2)));
    // the exponent part reads back the exponent
    let iend = i + n;
    if v.exp == 0 {
        assert(i2 == iend);
        assert(crate::decode::spec_exp_part(s, i2) == Some((false, 0int, i2, false)));
    } else if v.exp < 0 {
        let eabs = -(v.exp as int);
        let ed = digits(eabs);
        lemma_digits_shape(eabs);
        assert(s[i2] == 101) by {
            assert(enc[sl + ml] == e[0]);
        }
        assert(s[i2 + 1] == 45) by {
            assert(enc[sl + ml + 1] == e[1]);
            assert(e[1] == 45);
        }
        assert(matches_at(s, i2 + 2, ed)) by {
            assert forall|k: int| 0 <= k < ed.len() implies #[trigger] ed[k] == s[i2 + 2 + k] by {
                assert(e[2 + k] == ed[k]);
                assert(enc[sl + ml + (2 + k)] == e[2 + k]);
                assert(s[i + (sl + ml + 2 + k)] == enc[sl + ml + (2 + k)]);
            }
        }
        assert(i2 + 2 + ed.len() == iend);
        assert(eabs <= u64::MAX);
        lemma_digits_value_of_digits(eabs, 0);
        lemma_scan_digits(s, i2 + 2, ed, 0);
        assert(is_digit(s[i2 + 2])) by {
            assert(ed[0] == s[i2 + 2 + 0]);
        }
        assert(crate::decode::spec_exp_part(s, i2) == Some((true, eabs, iend, true)));
    } else {
        let eabs = v.exp as int;
        let ed = digits(eabs);
        lemma_digits_shape(eabs);
        assert(s[i2] == 101) by {
            assert(enc[sl + ml] == e[0]);
        }
        assert(matches_at(s, i2 + 1, ed)) by {
            assert forall|k: int| 0 <= k < ed.len() implies #[trigger] ed[k] == s[i2 + 1 + k] by {
                assert(e[1 + k] == ed[k]);
                assert(enc[sl + ml + (1 + k)] == e[1 + k]);
                assert(s[i + (sl + ml + 1 + k)] == enc[sl + ml + (1 + k)]);
            }
        }
        assert(i2 + 1 + ed.len() == iend);
        lemma_digits_value_of_digits(eabs, 0);
        lemma_scan_digits(s, i2 + 1, ed, 0);
        assert(is_digit(s[i2 + 1])) by {
            assert(ed[0] == s[i2 + 1 + 0]);
        }
        assert(!(s[i2 + 1] == 43 || s[i2 + 1] == 45));
        assert(crate::decode::spec_exp_part(s, i2) == Some((false, eabs, iend, true)));
    }
    assert(crate::decode::spec_number(s, i) == Some((v, !v.neg && v.exp == 0, iend)));
}

/// The wire form of one member: quoted field name, colon, value.
pub open spec fn encode_member(f: int, val: Seq<u8>) -> Seq<u8> {
    seq![34u8] + field_name(f) + seq![34u8, 58u8] + val
}

/// The decoder reads an encoded member as that member: it resolves the name,
/// takes the value, and fills exactly the slot the name picks.
pub proof fn lemma_parse_encoded_member(
    s: Seq<u8>,
    i: int,
    f: int,
    v: Dec64,
    slin: Slots,
    slout: Slots,
)
    requires
        0 <= f < 7,
        matches_at(s, i, encode_member(f, encode_dec(v))),
        i + encode_member(f, encode_dec(v)).len() == s.len() || ends_number(
            s[i + encode_member(f, encode_dec(v)).len()],
        ),
        spec_set_slot(slin, f as u8, v, !v.neg && v.exp == 0) == Some(slout),
    ensures
        spec_member(s, i, slin) == Some((slout, i + encode_member(f, encode_dec(v)).len())),
{
    let nm = field_name(f);
    let nl = nm.len() as int;
    let ev = encode_dec(v);
    let em = encode_member(f, ev);
    let n = em.len() as int;
    assert(em == seq![34u8] + nm + seq![34u8, 58u8] + ev);
    assert(n == nl + 3 + ev.len());
    assert forall|k: int| 0 <= k < n implies s[i + k] == em[k] by {}
    assert(s[i] == 34) by {
        assert(em[0] == 34);
    }
    assert forall|k: int| 0 <= k < nl implies #[trigger] nm[k] == s[i + 1 + k] by {
        assert(em[1 + k] == nm[k]);
        assert(s[i + (1 + k)] == em[1 + k]);
    }
    assert(s[i + 1 + nl] == 34) by {
        assert(em[1 + nl] == 34);
    }
    assert(s[i + 2 + nl] == 58) by {
        assert(em[2 + nl] == 58);
    }
    let vp = i + 3 + nl;
    assert(matches_at(s, vp, ev)) by {
        assert forall|k: int| 0 <= k < ev.len() implies #[trigger] ev[k] == s[vp + k] by {
            assert(em[3 + nl + k] == ev[k]);
            assert(s[i + (3 + nl + k)] == em[3 + nl + k]);
        }
    }
    // the name at i + 1 is exactly field f in the decoder's trial order
    assert(matches_at(s, i + 1, qname(f))) by {
        assert forall|k: int| 0 <= k < qname(f).len() implies #[trigger] qname(f)[k] == s[i + 1
            + k] by {
            if k < nl {
                assert(qname(f)[k] == nm[k]);
            } else {
                assert(qname(f)[k] == 34);
            }
        }
    }
    if f == 1 {
        assert(nm[0] == 114);
        assert(qname(0)[0] == 100);
        assert(!matches_at(s, i + 1, qname(0))) by {
            if matches_at(s, i + 1, qname(0)) {
                assert(s[i + 1 + 0] == qname(0)[0]);
            }
        }
    } else if f == 2 {
        assert(nm[0] == 114 && nm[1] == 115);
        assert(qname(0)[0] == 100 && qname(1)[1] == 97);
        assert(!matches_at(s, i + 1, qname(0))) by {
            if matches_at(s, i + 1, qname(0)) {
                assert(s[i + 1 + 0] == qname(0)[0]);
            }
        }
        assert(!matches_at(s, i + 1, qname(1))) by {
            if matches_at(s, i + 1, qname(1)) {
                assert(s[i + 1 + 1] == qname(1)[1]);
            }
        }
    } else if f == 3 {
        assert(nm[0] == 102);
        assert(qname(0)[0] == 100 && qname(1)[0] == 114 && qname(2)[0] == 114);
        assert(!matches_at(s, i + 1, qname(0))) by {
            if matches_at(s, i + 1, qname(0)) {
                assert(s[i + 1 + 0] == qname(0)[0]);
            }
        }
        assert(!matches_at(s, i + 1, qname(1))) by {
            if matches_at(s, i + 1, qname(1)) {
                assert(s[i + 1 + 0] == qname(1)[0]);
            }
        }
        assert(!matches_at(s, i + 1, qname(2))) by {
            if matches_at(s, i + 1, qname(2)) {
                assert(s[i + 1 + 0] == qname(2)[0]);
            }
        }
    } else if f == 4 {
        assert(nm[0] == 114 && nm[1] == 111);
        assert(qname(0)[0] == 100 && qname(1)[1] == 97 && qname(2)[1] == 115 && qname(3)[0]
            == 102);
        assert(!matches_at(s, i + 1, qname(0))) by {
            if matches_at(s, i + 1, qname(0)) {
                assert(s[i + 1 + 0] == qname(0)[0]);
            }
        }
        assert(!matches_at(s, i + 1, qname(1))) by {
            if matches_at(s, i + 1, qname(1)) {
                assert(s[i + 1 + 1] == qname(1)[1]);
            }
        }
        assert(!matches_at(s, i + 1, qname(2))) by {
            if matches_at(s, i + 1, qname(2)) {
                assert(s[i + 1 + 1] == qname(2)[1]);
            }
        }
        assert(!matches_at(s, i + 1, qname(3))) by {
            if matches_at(s, i + 1, qname(3)) {
                assert(s[i + 1 + 0] == qname(3)[0]);
            }
        }
    } else if f == 5 {
        assert(nm[0] == 114 && nm[1] == 101);
        assert(qname(0)[0] == 100 && qname(1)[1] == 97 && qname(2)[1] == 115 && qname(3)[0] == 102
            && qname(4)[1] == 111);
        assert(!matches_at(s, i + 1, qname(0))) by {
            if matches_at(s, i + 1, qname(0)) {
                assert(s[i + 1 + 0] == qname(0)[0]);
            }
        }
        assert(!matches_at(s, i + 1, qname(1))) by {
            if matches_at(s, i + 1, qname(1)) {
                assert(s[i + 1 + 1] == qname(1)[1]);
            }
        }
        assert(!matches_at(s, i + 1, qname(2))) by {
            if matches_at(s, i + 1, qname(2)) {
                assert(s[i + 1 + 1] == qname(2)[1]);
            }
        }
        assert(!matches_at(s, i + 1, qname(3))) by {
            if matches_at(s, i + 1, qname(3)) {
                assert(s[i + 1 + 0] == qname(3)[0]);
            }
        }
        assert(!matches_at(s, i + 1, qname(4))) by {
            if matches_at(s, i + 1, qname(4)) {
                assert(s[i + 1 + 1] == qname(4)[1]);
            }
        }
    } else if f == 6 {
        assert(nm[0] == 99);
        assert(qname(0)[0] == 100 && qname(1)[0] == 114 && qname(2)[0] == 114 && qname(3)[0] == 102
            && qname(4)[0] == 114 && qname(5)[0] == 114);
        assert(!matches_at(s, i + 1, qname(0))) by {
            if matches_at(s, i + 1, qname(0)) {
                assert(s[i + 1 + 0] == qname(0)[0]);
            }
        }
        assert(!matches_at(s, i + 1, qname(1))) by {
            if matches_at(s, i + 1, qname(1)) {
                assert(s[i + 1 + 0] == qname(1)[0]);
            }
        }
        assert(!matches_at(s, i + 1, qname(2))) by {
            if matches_at(s, i + 1, qname(2)) {
                assert(s[i + 1 + 0] == qname(2)[0]);
            }
        }
        assert(!matches_at(s, i + 1, qname(3))) by {
            if matches_at(s, i + 1, qname(3)) {
                assert(s[i + 1 + 0] == qname(3)[0]);
            }
        }
        assert(!matches_at(s, i + 1, qname(4))) by {
            if matches_at(s, i + 1, qname(4)) {
                assert(s[i + 1 + 0] == qname(4)[0]);
            }
        }
        assert(!matches_at(s, i + 1, qname(5))) by {
            if matches_at(s, i + 1, qname(5)) {
                assert(s[i + 1 + 0] == qname(5)[0]);
            }
        }
    }
    assert(spec_member_name(s, i + 1) == Some((f as u8, i + 2 + nl)));
    // colon, then the value, with no whitespace anywhere
    assert(spec_skip_ws(s, i + 2 + nl) == i + 2 + nl);
    assert(!is_ws(s[vp])) by {
        lemma_digits_shape(v.mant as int);
        if v.neg {
            assert(ev[0] == 45);
        } else {
            assert(ev[0] == digits(v.mant as int)[0]);
            assert(is_digit(ev[0]));
        }
        assert(s[vp + 0] == ev[0]);
    }
    assert(spec_skip_ws(s, i + 3 + nl) == vp);
    lemma_parse_encoded_dec(s, vp, v);
    assert(spec_member(s, i, slin) == Some((slout, i + n)));
}

/// The decimal literal member `k` carries: the field's own literal for the
/// five decimal fields, the whole number as a literal for the durations.
pub open spec fn member_dec(r: TelemetryRecord, k: int) -> Dec64 {
    if k == 0 {
        r.distance
    } else if k == 1 {
        r.raw
    } else if k == 2 {
        r.rssi
    } else if k == 3 {
        r.fp_rssi
    } else if k == 4 {
        Dec64 { neg: false, mant: r.round_time, exp: 0 }
    } else if k == 5 {
        Dec64 { neg: false, mant: r.reply_time, exp: 0 }
    } else {
        r.clock_offset
    }
}

/// The slots after the first `k` members of the wire form.
pub open spec fn partial_slots(r: TelemetryRecord, k: int) -> Slots {
    Slots {
        distance: if k > 0 {
            Some(r.distance)
        } else {
            None
        },
        raw: if k > 1 {
            Some(r.raw)
        } else {
            None
        },
        rssi: if k > 2 {
            Some(r.rssi)
        } else {
            None
        },
        fp_rssi: if k > 3 {
            Some(r.fp_rssi)
        } else {
            None
        },
        round_time: if k > 4 {
            Some(r.round_time)
        } else {
            None
        },
        reply_time: if k > 5 {
            Some(r.reply_time)
        } else {
            None
        },
        clock_offset: if k > 6 {
            Some(r.clock_offset)
        } else {
            None
        },
    }
}

/// Members `k` to the last, with their separating commas and the closing
/// brace.
pub open spec fn enc_from(r: TelemetryRecord, k: int) -> Seq<u8>
    decreases 7 - k,
{
    if k >= 6 || !(0 <= k) {
        encode_member(6, encode_dec(member_dec(r, 6))) + seq![125u8]
    } else {
        encode_member(k, encode_dec(member_dec(r, k))) + seq![44u8] + enc_from(r, k + 1)
    }
}

/// The decoder reads an encoded run of members, filling the remaining slots
/// one by one up to the closing brace.
pub proof fn lemma_parse_encoded_members(r: TelemetryRecord, s: Seq<u8>, i: int, k: int)
    requires
        0 <= k <= 6,
        matches_at(s, i, enc_from(r, k)),
        i + enc_from(r, k).len() == s.len(),
    ensures
        spec_members(s, i, partial_slots(r, k), (7 - k) as nat) == Some(
            (partial_slots(r, 7), s.len() as int),
        ),
    decreases 6 - k,
{
    let v = member_dec(r, k);
    let em = encode_member(k, encode_dec(v));
    let el = em.len() as int;
    assert(spec_set_slot(partial_slots(r, k), k as u8, v, !v.neg && v.exp == 0) == Some(
        partial_slots(r, k + 1),
    ));
    if k == 6 {
        let whole = em + seq![125u8];
        assert(enc_from(r, 6) == whole);
        assert forall|t: int| 0 <= t < whole.len() implies s[i + t] == whole[t] by {}
        assert(matches_at(s, i, em)) by {
            assert forall|t: int| 0 <= t < el implies #[trigger] em[t] == s[i + t] by {
                assert(whole[t] == em[t]);
            }
        }
        assert(s[i + el] == 125) by {
            assert(whole[el] == 125);
        }
        lemma_parse_encoded_member(s, i, 6, v, partial_slots(r, 6), partial_slots(r, 7));
        assert(spec_skip_ws(s, i + el) == i + el);
        assert(i + el + 1 == s.len());
    } else {
        let rest = enc_from(r, k + 1);
        let whole = em + seq![44u8] + rest;
        assert(enc_from(r, k) == whole);
        assert forall|t: int| 0 <= t < whole.len() implies s[i + t] == whole[t] by {}
        assert(matches_at(s, i, em)) by {
            assert forall|t: int| 0 <= t < el implies #[trigger] em[t] == s[i + t] by {
                assert(whole[t] == em[t]);
            }
        }
        assert(s[i + el] == 44) by {
            assert(whole[el] == 44);
        }
        lemma_parse_encoded_member(s, i, k, v, partial_slots(r, k), partial_slots(r, k + 1));
        assert(matches_at(s, i + el + 1, rest)) by {
            assert forall|t: int| 0 <= t < rest.len() implies #[trigger] rest[t] == s[i + el + 1
                + t] by {
                assert(whole[el + 1 + t] == rest[t]);
                assert(s[i + (el + 1 + t)] == whole[el + 1 + t]);
            }
        }
        assert(spec_skip_ws(s, i + el) == i + el);
        assert(rest[0] == 34) by {
            let em2 = encode_member(k + 1, encode_dec(member_dec(r, k + 1)));
            assert(em2[0] == 34);
            if k + 1 == 6 {
                assert(rest == em2 + seq![125u8]);
            } else {
                assert(rest == em2 + seq![44u8] + enc_from(r, k + 2));
            }
        }
        assert(s[i + el + 1] == rest[0]);
        assert(spec_skip_ws(s, i + el + 1) == i + el + 1);
        lemma_parse_encoded_members(r, s, i + el + 1, k + 1);
        assert((7 - k) as nat != 0);
        assert(((7 - k) as nat - 1) as nat == (7 - (k + 1)) as nat);
    }
}

/// The canonical wire form of a whole record: one object holding the seven
/// members in declaration order, with no whitespace.
pub open spec fn spec_encode(r: TelemetryRecord) -> Seq<u8> {
    seq![123u8] + enc_from(r, 0)
}

/// Round-trip law: decoding the wire form of any record yields exactly that
/// record. Every sign, mantissa and exponent of the five decimal fields and
/// both whole-number durations comes back unchanged, so the decoder loses
/// nothing a valid payload writes down.
pub proof fn lemma_encode_decode_roundtrip(r: TelemetryRecord)
    ensures
        crate::decode::spec_decode(spec_encode(r)) == Some(r),
{
    let s = spec_encode(r);
    let body = enc_from(r, 0);
    assert(s == seq![123u8] + body);
    assert(s[0] == 123);
    assert(s.len() == 1 + body.len());
    assert(matches_at(s, 1, body)) by {
        assert forall|t: int| 0 <= t < body.len() implies #[trigger] body[t] == s[1 + t] by {
            assert((seq![123u8] + body)[1 + t] == body[t]);
        }
    }
    assert(spec_skip_ws(s, 0) == 0);
    assert(body[0] == 34) by {
        let em0 = encode_member(0, encode_dec(member_dec(r, 0)));
        assert(em0[0] == 34);
        assert(body == em0 + seq![44u8] + enc_from(r, 1));
    }
    assert(s[1] == body[0]);
    assert(spec_skip_ws(s, 1) == 1);
    assert(partial_slots(r, 0) == empty_slots());
    lemma_parse_encoded_members(r, s, 1, 0);
    assert(spec_skip_ws(s, s.len() as int) == s.len());
    assert(slots_record(partial_slots(r, 7)) == Some(r));
    assert(crate::decode::spec_decode(s) == Some(r));
}

} // verus!
