//! Consistency of the renderer and the decoder.
//!
//! The store response echoes the stored measurement as a JSON object,
//! and that object is itself a body the store operation accepts: decoding
//! it yields exactly the measurement's three readings, with its
//! `dateTime` member ignored.  The proof walks the decoder's grammar over
//! the renderer's output.

use vstd::prelude::*;

use crate::measurement::MeasurementView;
use crate::parse::{is_digit, is_ws, key_co, key_lng, key_lpg, pow10, spec_digits_val,
    spec_parse_int, spec_parse_members, spec_parse_store, spec_scan_digits, spec_scan_string,
    spec_skip_value, spec_skip_ws};
use crate::render::{lit_close_obj, lit_mid_co, lit_mid_date_time, lit_mid_lng, lit_obj_lpg, spec_dec_i32, spec_dec_nat, spec_esc_byte, spec_escape,
    spec_json_measurement};

verus! {

/// Skipping whitespace at a non-whitespace byte (or at the end) stays
/// put.
proof fn lemma_skip_ws_at(s: Seq<u8>, i: int)
    requires
        0 <= i,
        i < s.len() ==> !is_ws(s[i]),
    ensures
        spec_skip_ws(s, i) == i,
{
}

/// Scanning digits over a digit run ending at a non-digit (or at the
/// end) lands just past the run.
proof fn lemma_scan_digits_run(s: Seq<u8>, i: int, j: int)
    requires
        0 <= i <= j <= s.len(),
        forall|k: int| i <= k < j ==> is_digit(s[k]),
        j == s.len() || !is_digit(s[j]),
    ensures
        spec_scan_digits(s, i) == j,
    decreases j - i,
{
    if i < j {
        lemma_scan_digits_run(s, i + 1, j);
    }
}

/// The decimal rendering of `n` is a non-empty digit run, one digit for
/// `n` below ten, with no leading zero unless `n` is zero.
proof fn lemma_dec_nat_shape(n: nat)
    ensures
        spec_dec_nat(n).len() >= 1,
        forall|k: int| 0 <= k < spec_dec_nat(n).len() ==> is_digit(#[trigger] spec_dec_nat(n)[k]),
        n < 10 ==> spec_dec_nat(n).len() == 1,
        n >= 1 ==> spec_dec_nat(n)[0] != 48,
    decreases n,
{
    if n >= 10 {
        lemma_dec_nat_shape(n / 10);
    }
}

/// A value below `10^k` renders to at most `k` digits.
proof fn lemma_dec_nat_len(n: nat, k: nat)
    requires
        1 <= k,
        n < pow10(k),
    ensures
        spec_dec_nat(n).len() <= k,
    decreases n,
{
    if n >= 10 {
        assert(pow10(k) == 10 * pow10((k - 1) as nat));
        assert(k >= 2) by {
            if k == 1 {
                assert(pow10(1) == 10 * pow10(0));
                assert(pow10(0) == 1);
            }
        }
        assert(n / 10 < pow10((k - 1) as nat)) by (nonlinear_arith)
            requires
                n < 10 * pow10((k - 1) as nat),
        ;
        lemma_dec_nat_len(n / 10, (k - 1) as nat);
    }
}

/// Reading back the digit run that renders `n` gives `n`.
proof fn lemma_digits_val_of_dec(s: Seq<u8>, i: int, j: int, n: nat)
    requires
        0 <= i <= j <= s.len(),
        s.subrange(i, j) == spec_dec_nat(n),
    ensures
        spec_digits_val(s, i, j) == n,
    decreases n,
{
    lemma_dec_nat_shape(n);
    assert(j - i == spec_dec_nat(n).len());
    if n < 10 {
        assert(s[i] == spec_dec_nat(n)[0]);
        assert(spec_digits_val(s, i, i) == 0);
    } else {
        assert(s.subrange(i, j - 1) =~= spec_dec_nat(n / 10)) by {
            assert forall|k: int| 0 <= k < j - 1 - i implies #[trigger] s.subrange(i, j - 1)[k]
                == spec_dec_nat(n / 10)[k] by {
                assert(s.subrange(i, j)[k] == spec_dec_nat(n)[k]);
            }
        }
        lemma_digits_val_of_dec(s, i, j - 1, n / 10);
        assert(s[j - 1] == spec_dec_nat(n)[j - 1 - i]);
        assert(spec_dec_nat(n)[spec_dec_nat(n).len() - 1] == 48 + n % 10);
    }
}

/// Escaping bytes that need no escape leaves them as they are.
proof fn lemma_escape_plain(ts: Seq<u8>)
    requires
        forall|k: int| 0 <= k < ts.len() ==> ts[k] >= 32 && ts[k] != 34 && ts[k] != 92,
    ensures
        spec_escape(ts) == ts,
    decreases ts.len(),
{
    if ts.len() > 0 {
        lemma_escape_plain(ts.subrange(1, ts.len() as int));
        assert(spec_escape(ts) =~= ts);
    } else {
        assert(spec_escape(ts) =~= ts);
    }
}

/// Scanning a string whose content is the escape of `ts`, with a closing
/// quote at `j`, lands just past the quote.
proof fn lemma_scan_string_of_escape(s: Seq<u8>, i: int, j: int, ts: Seq<u8>)
    requires
        0 <= i <= j < s.len(),
        s.subrange(i, j) == spec_escape(ts),
        s[j] == 34,
    ensures
        spec_scan_string(s, i) == Some(j + 1),
    decreases ts.len(),
{
    if ts.len() == 0 {
        assert(spec_escape(ts) == Seq::<u8>::empty());
        assert(j == i);
    } else {
        let e0 = spec_esc_byte(ts[0]);
        let el = e0.len() as int;
        let tail = ts.subrange(1, ts.len() as int);
        assert(spec_escape(ts) == e0 + spec_escape(tail));
        assert(el + spec_escape(tail).len() == j - i);
        assert forall|k: int| 0 <= k < el implies s[i + k] == e0[k] by {
            assert(s.subrange(i, j)[k] == (e0 + spec_escape(tail))[k]);
        }
        assert(s.subrange(i + el, j) =~= spec_escape(tail)) by {
            assert forall|k: int| 0 <= k < j - i - el implies #[trigger] s.subrange(i + el, j)[k]
                == spec_escape(tail)[k] by {
                assert(s.subrange(i, j)[el + k] == (e0 + spec_escape(tail))[el + k]);
            }
        }
        lemma_scan_string_of_escape(s, i + el, j, tail);
        if ts[0] == 34 {
            assert(s[i] == 92 && s[i + 1] == 34);
        } else if ts[0] == 92 {
            assert(s[i] == 92 && s[i + 1] == 92);
        } else if ts[0] < 32 {
            assert(s[i] == 92 && s[i + 1] == 117);
            assert(s[i + 2] == 48 && s[i + 3] == 48);
            assert(is_digit(s[i + 2]) && is_digit(s[i + 3]));
            assert(crate::parse::is_hex_digit(s[i + 4]));
            assert(crate::parse::is_hex_digit(s[i + 5]));
        } else {
            assert(s.subrange(i, j)[0] == (e0 + spec_escape(tail))[0]);
            assert(s[i] == ts[0]);
        }
    }
}

/// Parsing an integer over the decimal rendering of `v`, followed by a
/// non-digit (or the end), yields exactly `v`.
proof fn lemma_parse_int_of_dec(s: Seq<u8>, i: int, j: int, v: int)
    requires
        0 <= i <= j <= s.len(),
        -2147483648 <= v <= 2147483647,
        s.subrange(i, j) == spec_dec_i32(v),
        j == s.len() || !is_digit(s[j]),
    ensures
        spec_parse_int(s, i) == Some((v, j)),
{
    assert(pow10(10) == 10000000000) by {
        reveal_with_fuel(pow10, 11);
    }
    if v >= 0 {
        let n = v as nat;
        lemma_dec_nat_shape(n);
        lemma_dec_nat_len(n, 10);
        assert(j - i == spec_dec_nat(n).len());
        assert forall|k: int| i <= k < j implies is_digit(s[k]) by {
            assert(s.subrange(i, j)[k - i] == spec_dec_nat(n)[k - i]);
        }
        assert(s[i] == spec_dec_nat(n)[0]);
        assert(!(s[i] == 45));
        lemma_scan_digits_run(s, i, j);
        lemma_digits_val_of_dec(s, i, j, n);
        if s[i] == 48 {
            assert(n < 10);
        }
    } else {
        let n = (-v) as nat;
        lemma_dec_nat_shape(n);
        lemma_dec_nat_len(n, 10);
        assert(s.subrange(i, j).len() == 1 + spec_dec_nat(n).len());
        assert(s[i] == (seq![45u8] + spec_dec_nat(n))[0]);
        assert(s[i] == 45);
        assert(s.subrange(i + 1, j) =~= spec_dec_nat(n)) by {
            assert forall|k: int| 0 <= k < j - i - 1 implies #[trigger] s.subrange(i + 1, j)[k]
                == spec_dec_nat(n)[k] by {
                assert(s.subrange(i, j)[1 + k] == (seq![45u8] + spec_dec_nat(n))[1 + k]);
            }
        }
        assert forall|k: int| i + 1 <= k < j implies is_digit(s[k]) by {
            assert(s.subrange(i + 1, j)[k - i - 1] == spec_dec_nat(n)[k - i - 1]);
        }
        lemma_scan_digits_run(s, i + 1, j);
        lemma_digits_val_of_dec(s, i + 1, j, n);
        assert(s[i + 1] == spec_dec_nat(n)[0]);
        if s[i + 1] == 48 {
            assert(n < 10);
        }
    }
}

/// A subrange taken inside the left part of a concatenation ignores the
/// right part.
proof fn lemma_subrange_in_prefix(a: Seq<u8>, b: Seq<u8>, x: int, y: int)
    requires
        0 <= x <= y <= a.len(),
    ensures
        (a + b).subrange(x, y) == a.subrange(x, y),
{
    assert((a + b).subrange(x, y) =~= a.subrange(x, y));
}

/// A concatenation splits back into its two parts.
proof fn lemma_subrange_of_concat(a: Seq<u8>, b: Seq<u8>)
    ensures
        (a + b).subrange(0, a.len() as int) == a,
        (a + b).subrange(a.len() as int, a.len() + b.len() as int) == b,
{
    assert((a + b).subrange(0, a.len() as int) =~= a);
    assert((a + b).subrange(a.len() as int, a.len() + b.len() as int) =~= b);
}

/// A byte inside a known subrange is the subrange's byte.
proof fn lemma_byte_at(s: Seq<u8>, lo: int, hi: int, p: Seq<u8>, k: int)
    requires
        0 <= lo,
        hi <= s.len(),
        lo + p.len() == hi,
        s.subrange(lo, hi) == p,
        0 <= k < p.len(),
    ensures
        s[lo + k] == p[k],
{
    assert(s.subrange(lo, hi)[k] == s[lo + k]);
}

/// A subrange of a known subrange is the corresponding subrange of its
/// content.
proof fn lemma_sub_sub(s: Seq<u8>, lo: int, hi: int, p: Seq<u8>, u: int, w: int)
    requires
        0 <= lo,
        hi <= s.len(),
        lo + p.len() == hi,
        s.subrange(lo, hi) == p,
        0 <= u <= w <= p.len(),
    ensures
        s.subrange(lo + u, lo + w) == p.subrange(u, w),
{
    assert(s.subrange(lo + u, lo + w) =~= p.subrange(u, w)) by {
        assert forall|k: int| 0 <= k < w - u implies #[trigger] s.subrange(lo + u, lo + w)[k]
            == p.subrange(u, w)[k] by {
            assert(s.subrange(lo, hi)[u + k] == s[lo + u + k]);
            assert(s.subrange(lo + u, lo + w)[k] == s[lo + u + k]);
        }
    }
}

/// The first byte of a rendered reading is a minus sign or a digit —
/// never whitespace.
proof fn lemma_dec_i32_first(v: int)
    requires
        -2147483648 <= v <= 2147483647,
    ensures
        spec_dec_i32(v).len() >= 1,
        !is_ws(spec_dec_i32(v)[0]),
{
    if v < 0 {
        lemma_dec_nat_shape((-v) as nat);
        assert(spec_dec_i32(v)[0] == 45);
    } else {
        lemma_dec_nat_shape(v as nat);
        assert(is_digit(spec_dec_i32(v)[0]));
    }
}

/// Start of the `,"lng":` piece in the rendering of `m`.
spec fn o1(m: MeasurementView) -> int {
    7 + spec_dec_i32(m.lpg).len() as int
}

/// Start of the rendered `lng` reading.
spec fn o2(m: MeasurementView) -> int {
    o1(m) + 7
}

/// Start of the `,"co":` piece.
spec fn o3(m: MeasurementView) -> int {
    o2(m) + spec_dec_i32(m.lng).len() as int
}

/// Start of the rendered `co` reading.
spec fn o4(m: MeasurementView) -> int {
    o3(m) + 6
}

/// Start of the `,"dateTime":"` piece.
spec fn o5(m: MeasurementView) -> int {
    o4(m) + spec_dec_i32(m.co).len() as int
}

/// Start of the escaped timestamp text.
spec fn o6(m: MeasurementView) -> int {
    o5(m) + 13
}

/// Start of the closing `"}`.
spec fn o7(m: MeasurementView) -> int {
    o6(m) + spec_escape(m.date_time).len() as int
}

/// Total length of the rendering.
spec fn o8(m: MeasurementView) -> int {
    o7(m) + 2
}

/// The rendering of `m` splits back into its nine pieces.
proof fn lemma_decompose(m: MeasurementView)
    ensures
        spec_json_measurement(m).len() == o8(m),
        spec_json_measurement(m).subrange(0, 7) == lit_obj_lpg(),
        spec_json_measurement(m).subrange(7, o1(m)) == spec_dec_i32(m.lpg),
        spec_json_measurement(m).subrange(o1(m), o2(m)) == lit_mid_lng(),
        spec_json_measurement(m).subrange(o2(m), o3(m)) == spec_dec_i32(m.lng),
        spec_json_measurement(m).subrange(o3(m), o4(m)) == lit_mid_co(),
        spec_json_measurement(m).subrange(o4(m), o5(m)) == spec_dec_i32(m.co),
        spec_json_measurement(m).subrange(o5(m), o6(m)) == lit_mid_date_time(),
        spec_json_measurement(m).subrange(o6(m), o7(m)) == spec_escape(m.date_time),
        spec_json_measurement(m).subrange(o7(m), o8(m)) == lit_close_obj(),
{
    let s = spec_json_measurement(m);
    let p0 = lit_obj_lpg();
    let d1 = spec_dec_i32(m.lpg);
    let p1 = lit_mid_lng();
    let d2 = spec_dec_i32(m.lng);
    let p2 = lit_mid_co();
    let d3 = spec_dec_i32(m.co);
    let p3 = lit_mid_date_time();
    let e = spec_escape(m.date_time);
    let p4 = lit_close_obj();
    let c1 = p0 + d1;
    let c2 = c1 + p1;
    let c3 = c2 + d2;
    let c4 = c3 + p2;
    let c5 = c4 + d3;
    let c6 = c5 + p3;
    let c7 = c6 + e;
    assert(s == c7 + p4);
    let n1 = o1(m);
    let n2 = o2(m);
    let n3 = o3(m);
    let n4 = o4(m);
    let n5 = o5(m);
    let n6 = o6(m);
    let n7 = o7(m);
    lemma_subrange_of_concat(c7, p4);
    lemma_subrange_of_concat(c6, e);
    lemma_subrange_of_concat(c5, p3);
    lemma_subrange_of_concat(c4, d3);
    lemma_subrange_of_concat(c3, p2);
    lemma_subrange_of_concat(c2, d2);
    lemma_subrange_of_concat(c1, p1);
    lemma_subrange_of_concat(p0, d1);
    lemma_sub_sub(s, 0, n7, c7, n6, n7);
    lemma_sub_sub(s, 0, n7, c7, n5, n6);
    lemma_sub_sub(c7, 0, n6, c6, n5, n6);
    lemma_sub_sub(s, 0, n7, c7, n4, n5);
    lemma_sub_sub(c7, 0, n6, c6, n4, n5);
    lemma_sub_sub(c6, 0, n5, c5, n4, n5);
    lemma_sub_sub(s, 0, n7, c7, n3, n4);
    lemma_sub_sub(c7, 0, n6, c6, n3, n4);
    lemma_sub_sub(c6, 0, n5, c5, n3, n4);
    lemma_sub_sub(c5, 0, n4, c4, n3, n4);
    lemma_sub_sub(s, 0, n7, c7, n2, n3);
    lemma_sub_sub(c7, 0, n6, c6, n2, n3);
    lemma_sub_sub(c6, 0, n5, c5, n2, n3);
    lemma_sub_sub(c5, 0, n4, c4, n2, n3);
    lemma_sub_sub(c4, 0, n3, c3, n2, n3);
    lemma_sub_sub(s, 0, n7, c7, n1, n2);
    lemma_sub_sub(c7, 0, n6, c6, n1, n2);
    lemma_sub_sub(c6, 0, n5, c5, n1, n2);
    lemma_sub_sub(c5, 0, n4, c4, n1, n2);
    lemma_sub_sub(c4, 0, n3, c3, n1, n2);
    lemma_sub_sub(c3, 0, n2, c2, n1, n2);
    lemma_sub_sub(s, 0, n7, c7, 7, n1);
    lemma_sub_sub(c7, 0, n6, c6, 7, n1);
    lemma_sub_sub(c6, 0, n5, c5, 7, n1);
    lemma_sub_sub(c5, 0, n4, c4, 7, n1);
    lemma_sub_sub(c4, 0, n3, c3, 7, n1);
    lemma_sub_sub(c3, 0, n2, c2, 7, n1);
    lemma_sub_sub(c2, 0, n1, c1, 7, n1);
    lemma_sub_sub(s, 0, n7, c7, 0, 7);
    lemma_sub_sub(c7, 0, n6, c6, 0, 7);
    lemma_sub_sub(c6, 0, n5, c5, 0, 7);
    lemma_sub_sub(c5, 0, n4, c4, 0, 7);
    lemma_sub_sub(c4, 0, n3, c3, 0, 7);
    lemma_sub_sub(c3, 0, n2, c2, 0, 7);
    lemma_sub_sub(c2, 0, n1, c1, 0, 7);
}

/// The member name `dateTime`.
spec fn key_date_time() -> Seq<u8> {
    seq![100u8, 97u8, 116u8, 101u8, 84u8, 105u8, 109u8, 101u8]
}

/// The bytes the decoder lands on in the rendering of `m`: braces,
/// quotes, colons, commas and the member names, at their offsets.
proof fn lemma_landmarks(m: MeasurementView)
    ensures
        spec_json_measurement(m).len() == o8(m),
        spec_json_measurement(m)[0] == 123,
        spec_json_measurement(m)[1] == 34,
        spec_json_measurement(m)[5] == 34,
        spec_json_measurement(m)[6] == 58,
        spec_json_measurement(m).subrange(2, 5) == key_lpg(),
        spec_json_measurement(m)[o1(m)] == 44,
        spec_json_measurement(m)[o1(m) + 1] == 34,
        spec_json_measurement(m)[o1(m) + 5] == 34,
        spec_json_measurement(m)[o1(m) + 6] == 58,
        spec_json_measurement(m).subrange(o1(m) + 2, o1(m) + 5) == key_lng(),
        spec_json_measurement(m)[o3(m)] == 44,
        spec_json_measurement(m)[o3(m) + 1] == 34,
        spec_json_measurement(m)[o3(m) + 4] == 34,
        spec_json_measurement(m)[o3(m) + 5] == 58,
        spec_json_measurement(m).subrange(o3(m) + 2, o3(m) + 4) == key_co(),
        spec_json_measurement(m)[o5(m)] == 44,
        spec_json_measurement(m)[o5(m) + 1] == 34,
        spec_json_measurement(m)[o5(m) + 10] == 34,
        spec_json_measurement(m)[o5(m) + 11] == 58,
        spec_json_measurement(m)[o5(m) + 12] == 34,
        spec_json_measurement(m).subrange(o5(m) + 2, o5(m) + 10) == key_date_time(),
        spec_json_measurement(m)[o7(m)] == 34,
        spec_json_measurement(m)[o7(m) + 1] == 125,
{
    lemma_decompose(m);
    let s = spec_json_measurement(m);
    let p0 = lit_obj_lpg();
    let p1 = lit_mid_lng();
    let p2 = lit_mid_co();
    let p3 = lit_mid_date_time();
    let p4 = lit_close_obj();
    lemma_byte_at(s, 0, 7, p0, 0);
    lemma_byte_at(s, 0, 7, p0, 1);
    lemma_byte_at(s, 0, 7, p0, 5);
    lemma_byte_at(s, 0, 7, p0, 6);
    lemma_sub_sub(s, 0, 7, p0, 2, 5);
    assert(p0.subrange(2, 5) =~= key_lpg());
    lemma_byte_at(s, o1(m), o2(m), p1, 0);
    lemma_byte_at(s, o1(m), o2(m), p1, 1);
    lemma_byte_at(s, o1(m), o2(m), p1, 5);
    lemma_byte_at(s, o1(m), o2(m), p1, 6);
    lemma_sub_sub(s, o1(m), o2(m), p1, 2, 5);
    assert(p1.subrange(2, 5) =~= key_lng());
    lemma_byte_at(s, o3(m), o4(m), p2, 0);
    lemma_byte_at(s, o3(m), o4(m), p2, 1);
    lemma_byte_at(s, o3(m), o4(m), p2, 4);
    lemma_byte_at(s, o3(m), o4(m), p2, 5);
    lemma_sub_sub(s, o3(m), o4(m), p2, 2, 4);
    assert(p2.subrange(2, 4) =~= key_co());
    lemma_byte_at(s, o5(m), o6(m), p3, 0);
    lemma_byte_at(s, o5(m), o6(m), p3, 1);
    lemma_byte_at(s, o5(m), o6(m), p3, 10);
    lemma_byte_at(s, o5(m), o6(m), p3, 11);
    lemma_byte_at(s, o5(m), o6(m), p3, 12);
    lemma_sub_sub(s, o5(m), o6(m), p3, 2, 10);
    assert(p3.subrange(2, 10) =~= key_date_time());
    lemma_byte_at(s, o7(m), o8(m), p4, 0);
    lemma_byte_at(s, o7(m), o8(m), p4, 1);
}

/// Decoding the rendering's first member yields the `lpg` reading.
#[verifier::rlimit(100)]
proof fn lemma_member_lpg(m: MeasurementView)
    requires
        -2147483648 <= m.lpg <= 2147483647,
    ensures
        spec_parse_members(spec_json_measurement(m), 1, None, None, None) == spec_parse_members(
            spec_json_measurement(m),
            o1(m) + 1,
            Some(m.lpg),
            None,
            None,
        ),
{
    let s = spec_json_measurement(m);
    lemma_decompose(m);
    lemma_landmarks(m);
    lemma_dec_i32_first(m.lpg);
    lemma_byte_at(s, 7, o1(m), spec_dec_i32(m.lpg), 0);
    lemma_escape_plain(key_lpg());
    lemma_scan_string_of_escape(s, 2, 5, key_lpg());
    lemma_parse_int_of_dec(s, 7, o1(m), m.lpg);
    lemma_skip_ws_at(s, 6);
    lemma_skip_ws_at(s, 7);
    lemma_skip_ws_at(s, o1(m));
    lemma_skip_ws_at(s, o1(m) + 1);
    assert(spec_parse_members(s, 1, None, None, None) == spec_parse_members(
        s,
        o1(m) + 1,
        Some(m.lpg),
        None,
        None,
    ));
}

/// Decoding the second member yields the `lng` reading.
#[verifier::rlimit(100)]
proof fn lemma_member_lng(m: MeasurementView)
    requires
        -2147483648 <= m.lng <= 2147483647,
    ensures
        spec_parse_members(spec_json_measurement(m), o1(m) + 1, Some(m.lpg), None, None)
            == spec_parse_members(
            spec_json_measurement(m),
            o3(m) + 1,
            Some(m.lpg),
            Some(m.lng),
            None,
        ),
{
    let s = spec_json_measurement(m);
    lemma_decompose(m);
    lemma_landmarks(m);
    lemma_dec_i32_first(m.lng);
    lemma_byte_at(s, o2(m), o3(m), spec_dec_i32(m.lng), 0);
    lemma_escape_plain(key_lng());
    lemma_scan_string_of_escape(s, o1(m) + 2, o1(m) + 5, key_lng());
    lemma_parse_int_of_dec(s, o2(m), o3(m), m.lng);
    lemma_skip_ws_at(s, o1(m) + 6);
    lemma_skip_ws_at(s, o2(m));
    lemma_skip_ws_at(s, o3(m));
    lemma_skip_ws_at(s, o3(m) + 1);
    assert(key_lng() != key_lpg()) by {
        assert(key_lng()[1] == 110 && key_lpg()[1] == 112);
    }
    assert(spec_parse_members(s, o1(m) + 1, Some(m.lpg), None, None) == spec_parse_members(
        s,
        o3(m) + 1,
        Some(m.lpg),
        Some(m.lng),
        None,
    ));
}

/// Decoding the third member yields the `co` reading.
#[verifier::rlimit(100)]
proof fn lemma_member_co(m: MeasurementView)
    requires
        -2147483648 <= m.co <= 2147483647,
    ensures
        spec_parse_members(spec_json_measurement(m), o3(m) + 1, Some(m.lpg), Some(m.lng), None)
            == spec_parse_members(
            spec_json_measurement(m),
            o5(m) + 1,
            Some(m.lpg),
            Some(m.lng),
            Some(m.co),
        ),
{
    let s = spec_json_measurement(m);
    lemma_decompose(m);
    lemma_landmarks(m);
    lemma_dec_i32_first(m.co);
    lemma_byte_at(s, o4(m), o5(m), spec_dec_i32(m.co), 0);
    lemma_escape_plain(key_co());
    lemma_scan_string_of_escape(s, o3(m) + 2, o3(m) + 4, key_co());
    lemma_parse_int_of_dec(s, o4(m), o5(m), m.co);
    lemma_skip_ws_at(s, o3(m) + 5);
    lemma_skip_ws_at(s, o4(m));
    lemma_skip_ws_at(s, o5(m));
    lemma_skip_ws_at(s, o5(m) + 1);
    assert(key_co() != key_lpg() && key_co() != key_lng()) by {
        assert(key_co().len() == 2 && key_lpg().len() == 3 && key_lng().len() == 3);
    }
    assert(spec_parse_members(s, o3(m) + 1, Some(m.lpg), Some(m.lng), None)
        == spec_parse_members(s, o5(m) + 1, Some(m.lpg), Some(m.lng), Some(m.co)));
}

/// Decoding the last member skips the `dateTime` string and closes the
/// object with all three readings in hand.
#[verifier::rlimit(100)]
proof fn lemma_member_date_time(m: MeasurementView)
    ensures
        spec_parse_members(
            spec_json_measurement(m),
            o5(m) + 1,
            Some(m.lpg),
            Some(m.lng),
            Some(m.co),
        ) == Some((m.lpg, m.lng, m.co, o8(m))),
{
    let s = spec_json_measurement(m);
    lemma_decompose(m);
    lemma_landmarks(m);
    lemma_escape_plain(key_date_time());
    lemma_scan_string_of_escape(s, o5(m) + 2, o5(m) + 10, key_date_time());
    lemma_scan_string_of_escape(s, o6(m), o7(m), m.date_time);
    lemma_skip_ws_at(s, o5(m) + 11);
    lemma_skip_ws_at(s, o5(m) + 12);
    lemma_skip_ws_at(s, o7(m) + 1);
    assert(key_date_time() != key_lpg() && key_date_time() != key_lng() && key_date_time()
        != key_co()) by {
        assert(key_date_time().len() == 8);
        assert(key_lpg().len() == 3 && key_lng().len() == 3 && key_co().len() == 2);
    }
    assert(spec_skip_value(s, o5(m) + 12) == Some(o7(m) + 1));
    assert(spec_parse_members(s, o5(m) + 1, Some(m.lpg), Some(m.lng), Some(m.co)) == Some(
        (m.lpg, m.lng, m.co, o8(m)),
    ));
}

/// The store response's JSON object is itself an acceptable store body:
/// decoding the rendering of a stored measurement yields exactly its
/// three readings, its `dateTime` member being ignored.
pub proof fn lemma_rendered_measurement_parses_back(m: MeasurementView)
    requires
        -2147483648 <= m.lpg <= 2147483647,
        -2147483648 <= m.lng <= 2147483647,
        -2147483648 <= m.co <= 2147483647,
    ensures
        spec_parse_store(spec_json_measurement(m)) == Some((m.lpg, m.lng, m.co)),
{
    let s = spec_json_measurement(m);
    lemma_landmarks(m);
    lemma_skip_ws_at(s, 0);
    lemma_skip_ws_at(s, 1);
    lemma_member_lpg(m);
    lemma_member_lng(m);
    lemma_member_co(m);
    lemma_member_date_time(m);
    lemma_skip_ws_at(s, o8(m));
    assert(spec_parse_store(s) == Some((m.lpg, m.lng, m.co)));
}

} // verus!

