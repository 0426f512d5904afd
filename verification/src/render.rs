//! Rendering of measurements as JSON response bodies.
//!
//! A stored measurement is rendered as
//! `{"lpg":<int>,"lng":<int>,"co":<int>,"dateTime":"<text>"}` and a list
//! of measurements as `{"measurements":[...]}` with the entries in the
//! order given.  The rendering is stated once as spec functions over byte
//! sequences; the executable renderers are proved to produce exactly
//! those bytes.

use vstd::prelude::*;

use crate::measurement::{Measurement, MeasurementView};

verus! {

/// Decimal digits of `n`, most significant first.
pub open spec fn spec_dec_nat(n: nat) -> Seq<u8>
    decreases n,
{
    if n < 10 {
        seq![(48 + n) as u8]
    } else {
        spec_dec_nat(n / 10).push((48 + n % 10) as u8)
    }
}

/// Decimal rendering of `v`, with a leading minus sign when negative.
pub open spec fn spec_dec_i32(v: int) -> Seq<u8> {
    if v < 0 {
        seq![45u8] + spec_dec_nat((-v) as nat)
    } else {
        spec_dec_nat(v as nat)
    }
}

/// The lower-case hexadecimal digit for `n < 16`.
pub open spec fn spec_hex_digit(n: int) -> u8 {
    if n < 10 {
        (48 + n) as u8
    } else {
        (87 + n) as u8
    }
}

/// One byte of JSON string content: quotes and backslashes are escaped,
/// control bytes become a `\u00XX` escape, and every other byte (including
/// UTF-8 continuation bytes) passes through unchanged.
pub open spec fn spec_esc_byte(b: u8) -> Seq<u8> {
    if b == 34 {
        seq![92u8, 34u8]
    } else if b == 92 {
        seq![92u8, 92u8]
    } else if b < 32 {
        seq![92u8, 117u8, 48u8, 48u8, spec_hex_digit(b as int / 16), spec_hex_digit(b as int % 16)]
    } else {
        seq![b]
    }
}

/// JSON string content for the byte sequence `s`.
pub open spec fn spec_escape(s: Seq<u8>) -> Seq<u8>
    decreases s.len(),
{
    if s.len() == 0 {
        Seq::empty()
    } else {
        spec_esc_byte(s[0]) + spec_escape(s.subrange(1, s.len() as int))
    }
}

/// The bytes of `{"lpg":`.
pub open spec fn lit_obj_lpg() -> Seq<u8> {
    seq![123u8, 34u8, 108u8, 112u8, 103u8, 34u8, 58u8]
}

/// The bytes of `,"lng":`.
pub open spec fn lit_mid_lng() -> Seq<u8> {
    seq![44u8, 34u8, 108u8, 110u8, 103u8, 34u8, 58u8]
}

/// The bytes of `,"co":`.
pub open spec fn lit_mid_co() -> Seq<u8> {
    seq![44u8, 34u8, 99u8, 111u8, 34u8, 58u8]
}

/// The bytes of `,"dateTime":"`.
pub open spec fn lit_mid_date_time() -> Seq<u8> {
    seq![44u8, 34u8, 100u8, 97u8, 116u8, 101u8, 84u8, 105u8, 109u8, 101u8, 34u8, 58u8, 34u8]
}

/// The bytes of `"}`.
pub open spec fn lit_close_obj() -> Seq<u8> {
    seq![34u8, 125u8]
}

/// The bytes of `{"measurements":[`.
pub open spec fn lit_list_open() -> Seq<u8> {
    seq![
        123u8,
        34u8,
        109u8,
        101u8,
        97u8,
        115u8,
        117u8,
        114u8,
        101u8,
        109u8,
        101u8,
        110u8,
        116u8,
        115u8,
        34u8,
        58u8,
        91u8,
    ]
}

/// The bytes of `]}`.
pub open spec fn lit_list_close() -> Seq<u8> {
    seq![93u8, 125u8]
}

/// The JSON object for one measurement, keys in the fixed order
/// `lpg`, `lng`, `co`, `dateTime`.
pub open spec fn spec_json_measurement(m: MeasurementView) -> Seq<u8> {
    lit_obj_lpg() + spec_dec_i32(m.lpg) + lit_mid_lng() + spec_dec_i32(m.lng) + lit_mid_co()
        + spec_dec_i32(m.co) + lit_mid_date_time() + spec_escape(m.date_time) + lit_close_obj()
}

/// The comma-separated measurement objects, in sequence order.
pub open spec fn spec_json_items(ms: Seq<MeasurementView>) -> Seq<u8>
    decreases ms.len(),
{
    if ms.len() == 0 {
        Seq::empty()
    } else if ms.len() == 1 {
        spec_json_measurement(ms[0])
    } else {
        spec_json_items(ms.drop_last()) + seq![44u8] + spec_json_measurement(ms.last())
    }
}

/// The views of a vector of measurements, in order.
pub open spec fn views_of(ms: Seq<Measurement>) -> Seq<MeasurementView> {
    ms.map_values(|m: Measurement| m@)
}

/// The JSON object wrapping a measurement list under `measurements`.
pub open spec fn spec_json_list(ms: Seq<MeasurementView>) -> Seq<u8> {
    lit_list_open() + spec_json_items(ms) + lit_list_close()
}

/// Listing when no rows exist yields exactly the bytes of
/// `{"measurements":[]}`: an empty list, not an error shape.
pub proof fn lemma_empty_list_body()
    ensures
        spec_json_list(Seq::<MeasurementView>::empty()) == seq![
            123u8,
            34u8,
            109u8,
            101u8,
            97u8,
            115u8,
            117u8,
            114u8,
            101u8,
            109u8,
            101u8,
            110u8,
            116u8,
            115u8,
            34u8,
            58u8,
            91u8,
            93u8,
            125u8,
        ],
{
    assert(spec_json_items(Seq::<MeasurementView>::empty()) == Seq::<u8>::empty());
    assert(spec_json_list(Seq::<MeasurementView>::empty()) =~= seq![
        123u8,
        34u8,
        109u8,
        101u8,
        97u8,
        115u8,
        117u8,
        114u8,
        101u8,
        109u8,
        101u8,
        110u8,
        116u8,
        115u8,
        34u8,
        58u8,
        91u8,
        93u8,
        125u8,
    ]);
}

/// Escaping one byte at a time from the front is the same as escaping a
/// sequence extended at the back.
proof fn lemma_escape_snoc(s: Seq<u8>, b: u8)
    ensures
        spec_escape(s.push(b)) == spec_escape(s) + spec_esc_byte(b),
    decreases s.len(),
{
    if s.len() == 0 {
        assert(s.push(b)[0] == b);
        assert(s.push(b).subrange(1, 1) =~= Seq::<u8>::empty());
        assert(spec_escape(Seq::<u8>::empty()) == Seq::<u8>::empty());
        assert(spec_escape(s.push(b)) =~= spec_esc_byte(b));
        assert(spec_escape(s) + spec_esc_byte(b) =~= spec_esc_byte(b));
    } else {
        assert(s.push(b).subrange(1, s.len() as int + 1) =~= s.subrange(1, s.len() as int).push(b));
        lemma_escape_snoc(s.subrange(1, s.len() as int), b);
        assert(spec_escape(s.push(b)) =~= spec_escape(s) + spec_esc_byte(b));
    }
}

fn push_dec_u32(out: &mut Vec<u8>, n: u32)
    ensures
        final(out)@ == old(out)@ + spec_dec_nat(n as nat),
    decreases n,
{
    if n >= 10 {
        push_dec_u32(out, n / 10);
    }
    out.push(48 + (n % 10) as u8);
    proof {
        assert(out@ =~= old(out)@ + spec_dec_nat(n as nat));
    }
}

fn push_dec_i32(out: &mut Vec<u8>, v: i32)
    ensures
        final(out)@ == old(out)@ + spec_dec_i32(v as int),
{
    if v < 0 {
        out.push(45);
        let m: u32 = (-(v as i64)) as u32;
        push_dec_u32(out, m);
        proof {
            assert(out@ =~= old(out)@ + spec_dec_i32(v as int));
        }
    } else {
        push_dec_u32(out, v as u32);
    }
}

fn hex_digit(n: u8) -> (r: u8)
    requires
        n < 16,
    ensures
        r == spec_hex_digit(n as int),
{
    if n < 10 {
        48 + n
    } else {
        87 + n
    }
}

fn push_escaped(out: &mut Vec<u8>, s: &Vec<u8>)
    ensures
        final(out)@ == old(out)@ + spec_escape(s@),
{
    let mut k: usize = 0;
    while k < s.len()
        invariant
            k <= s.len(),
            out@ == old(out)@ + spec_escape(s@.take(k as int)),
        decreases s.len() - k,
    {
        let b: u8 = s[k];
        if b == 34 {
            out.push(92);
            out.push(34);
        } else if b == 92 {
            out.push(92);
            out.push(92);
        } else if b < 32 {
            out.push(92);
            out.push(117);
            out.push(48);
            out.push(48);
            out.push(hex_digit(b / 16));
            out.push(hex_digit(b % 16));
        } else {
            out.push(b);
        }
        proof {
            assert(s@.take(k as int).push(s@[k as int]) =~= s@.take(k as int + 1));
            lemma_escape_snoc(s@.take(k as int), s@[k as int]);
            assert(out@ =~= old(out)@ + spec_escape(s@.take(k as int + 1)));
        }
        k = k + 1;
    }
    proof {
        assert(s@.take(s@.len() as int) =~= s@);
    }
}

fn push_obj_lpg(out: &mut Vec<u8>)
    ensures
        final(out)@ == old(out)@ + lit_obj_lpg(),
{
    out.push(123);
    out.push(34);
    out.push(108);
    out.push(112);
    out.push(103);
    out.push(34);
    out.push(58);
    proof {
        assert(out@ =~= old(out)@ + lit_obj_lpg());
    }
}

fn push_mid_lng(out: &mut Vec<u8>)
    ensures
        final(out)@ == old(out)@ + lit_mid_lng(),
{
    out.push(44);
    out.push(34);
    out.push(108);
    out.push(110);
    out.push(103);
    out.push(34);
    out.push(58);
    proof {
        assert(out@ =~= old(out)@ + lit_mid_lng());
    }
}

fn push_mid_co(out: &mut Vec<u8>)
    ensures
        final(out)@ == old(out)@ + lit_mid_co(),
{
    out.push(44);
    out.push(34);
    out.push(99);
    out.push(111);
    out.push(34);
    out.push(58);
    proof {
        assert(out@ =~= old(out)@ + lit_mid_co());
    }
}

fn push_mid_date_time(out: &mut Vec<u8>)
    ensures
        final(out)@ == old(out)@ + lit_mid_date_time(),
{
    out.push(44);
    out.push(34);
    out.push(100);
    out.push(97);
    out.push(116);
    out.push(101);
    out.push(84);
    out.push(105);
    out.push(109);
    out.push(101);
    out.push(34);
    out.push(58);
    out.push(34);
    proof {
        assert(out@ =~= old(out)@ + lit_mid_date_time());
    }
}

fn push_measurement(out: &mut Vec<u8>, m: &Measurement)
    ensures
        final(out)@ == old(out)@ + spec_json_measurement(m@),
{
    push_obj_lpg(out);
    push_dec_i32(out, m.lpg);
    push_mid_lng(out);
    push_dec_i32(out, m.lng);
    push_mid_co(out);
    push_dec_i32(out, m.co);
    push_mid_date_time(out);
    push_escaped(out, &m.date_time);
    out.push(34);
    out.push(125);
    proof {
        assert(out@ =~= old(out)@ + spec_json_measurement(m@));
    }
}

/// Render one stored measurement as its JSON object.
pub fn render_measurement(m: &Measurement) -> (r: Vec<u8>)
    ensures
        r@ == spec_json_measurement(m@),
{
    let mut out: Vec<u8> = Vec::new();
    push_measurement(&mut out, m);
    proof {
        assert(out@ =~= spec_json_measurement(m@));
    }
    out
}

/// Render a measurement list, in the given order, as the JSON object
/// `{"measurements":[...]}`.
pub fn render_list(ms: &Vec<Measurement>) -> (r: Vec<u8>)
    ensures
        r@ == spec_json_list(views_of(ms@)),
{
    let mut out: Vec<u8> = Vec::new();
    out.push(123);
    out.push(34);
    out.push(109);
    out.push(101);
    out.push(97);
    out.push(115);
    out.push(117);
    out.push(114);
    out.push(101);
    out.push(109);
    out.push(101);
    out.push(110);
    out.push(116);
    out.push(115);
    out.push(34);
    out.push(58);
    out.push(91);
    proof {
        assert(out@ =~= lit_list_open() + spec_json_items(views_of(ms@).take(0)));
    }
    let mut k: usize = 0;
    while k < ms.len()
        invariant
            k <= ms.len(),
            out@ == lit_list_open() + spec_json_items(views_of(ms@).take(k as int)),
        decreases ms.len() - k,
    {
        if k > 0 {
            out.push(44);
        }
        push_measurement(&mut out, &ms[k]);
        proof {
            let vs = views_of(ms@);
            if k == 0 {
                assert(spec_json_items(vs.take(1)) =~= spec_json_measurement(vs[0]));
                assert(out@ =~= lit_list_open() + spec_json_items(vs.take(1)));
            } else {
                assert(vs.take(k as int + 1).drop_last() =~= vs.take(k as int));
                assert(vs.take(k as int + 1).last() == vs[k as int]);
                assert(spec_json_items(vs.take(k as int + 1)) == spec_json_items(vs.take(k as int))
                    + seq![44u8] + spec_json_measurement(vs[k as int]));
                assert(out@ =~= lit_list_open() + spec_json_items(vs.take(k as int + 1)));
            }
        }
        k = k + 1;
    }
    out.push(93);
    out.push(125);
    proof {
        assert(views_of(ms@).take(ms@.len() as int) =~= views_of(ms@));
        assert(out@ =~= spec_json_list(views_of(ms@)));
    }
    out
}

} // verus!
