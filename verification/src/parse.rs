//! Decoding of the JSON body of a store request.
//!
//! The accepted body is a JSON object whose members are scalar values:
//! the members `lpg`, `lng` and `co` must be present exactly once each,
//! with plain integer values that fit an `i32`; any other member (such as
//! a client-supplied `dateTime`) may hold a string, an integer, `true`,
//! `false` or `null`, and is ignored.  Anything else — a missing or
//! duplicated reading, a non-integer reading, malformed JSON, trailing
//! text — is rejected.
//!
//! The grammar is stated once as spec functions over the byte sequence;
//! the executable parser is proved to return exactly what the spec
//! grammar denotes.

use vstd::prelude::*;

use crate::measurement::StoreInput;

verus! {

/// JSON insignificant whitespace: space, tab, line feed, carriage return.
pub open spec fn is_ws(b: u8) -> bool {
    b == 32 || b == 9 || b == 10 || b == 13
}

/// An ASCII decimal digit.
pub open spec fn is_digit(b: u8) -> bool {
    48 <= b && b <= 57
}

/// An ASCII hexadecimal digit, either case.
pub open spec fn is_hex_digit(b: u8) -> bool {
    is_digit(b) || (97 <= b && b <= 102) || (65 <= b && b <= 70)
}

/// The first index at or after `i` holding no whitespace byte.
pub open spec fn spec_skip_ws(s: Seq<u8>, i: int) -> int
    decreases s.len() - i,
{
    if 0 <= i && i < s.len() && is_ws(s[i]) {
        spec_skip_ws(s, i + 1)
    } else {
        i
    }
}

/// The first index at or after `i` holding no digit.
pub open spec fn spec_scan_digits(s: Seq<u8>, i: int) -> int
    decreases s.len() - i,
{
    if 0 <= i && i < s.len() && is_digit(s[i]) {
        spec_scan_digits(s, i + 1)
    } else {
        i
    }
}

/// The value of the decimal digit run `s[i..j)`.
pub open spec fn spec_digits_val(s: Seq<u8>, i: int, j: int) -> int
    decreases j - i,
{
    if j <= i {
        0
    } else {
        spec_digits_val(s, i, j - 1) * 10 + (s[j - 1] - 48)
    }
}

/// Scan the inside of a JSON string from `i` (just past the opening
/// quote).  Returns the index just past the closing quote, or `None` if
/// the string never closes or holds an invalid byte or escape.
pub open spec fn spec_scan_string(s: Seq<u8>, i: int) -> Option<int>
    decreases s.len() - i,
{
    if !(0 <= i && i < s.len()) {
        None
    } else if s[i] == 34 {  // closing quote
        Some(i + 1)
    } else if s[i] == 92 {  // backslash escape
        if i + 1 >= s.len() {
            None
        } else if s[i + 1] == 34 || s[i + 1] == 92 || s[i + 1] == 47 || s[i + 1] == 98
            || s[i + 1] == 102 || s[i + 1] == 110 || s[i + 1] == 114 || s[i + 1] == 116 {
            spec_scan_string(s, i + 2)
        } else if s[i + 1] == 117 {  // \uXXXX
            if i + 6 <= s.len() && is_hex_digit(s[i + 2]) && is_hex_digit(s[i + 3])
                && is_hex_digit(s[i + 4]) && is_hex_digit(s[i + 5]) {
                spec_scan_string(s, i + 6)
            } else {
                None
            }
        } else {
            None
        }
    } else if s[i] < 32 {  // raw control bytes are not allowed in strings
        None
    } else {
        spec_scan_string(s, i + 1)
    }
}

/// Parse a JSON integer at `i`: an optional minus sign and a digit run
/// without a leading zero, whose value fits an `i32`.  Returns the value
/// and the index just past the digits.
pub open spec fn spec_parse_int(s: Seq<u8>, i: int) -> Option<(int, int)> {
    let neg = 0 <= i && i < s.len() && s[i] == 45;
    let d: int = if neg { i + 1 } else { i };
    let j: int = spec_scan_digits(s, d);
    if j == d {
        None  // no digits at all
    } else if s[d] == 48 && j > d + 1 {
        None  // leading zero
    } else if j - d > 10 {
        None  // more digits than any i32 value has
    } else {
        let m: int = spec_digits_val(s, d, j);
        let v: int = if neg { -m } else { m };
        if -2147483648 <= v && v <= 2147483647 {
            Some((v, j))
        } else {
            None
        }
    }
}

/// Scan one ignored scalar member value at `i`: a string, an integer,
/// `true`, `false` or `null`.  Returns the index just past the value.
pub open spec fn spec_skip_value(s: Seq<u8>, i: int) -> Option<int> {
    if !(0 <= i && i < s.len()) {
        None
    } else if s[i] == 34 {  // string
        spec_scan_string(s, i + 1)
    } else if s[i] == 45 || is_digit(s[i]) {  // integer
        match spec_parse_int(s, i) {
            Some(vj) => Some(vj.1),
            None => None,
        }
    } else if s[i] == 116 {  // true
        if s.len() - i >= 4 && s[i + 1] == 114 && s[i + 2] == 117 && s[i + 3] == 101 {
            Some(i + 4)
        } else {
            None
        }
    } else if s[i] == 102 {  // false
        if s.len() - i >= 5 && s[i + 1] == 97 && s[i + 2] == 108 && s[i + 3] == 115
            && s[i + 4] == 101 {
            Some(i + 5)
        } else {
            None
        }
    } else if s[i] == 110 {  // null
        if s.len() - i >= 4 && s[i + 1] == 117 && s[i + 2] == 108 && s[i + 3] == 108 {
            Some(i + 4)
        } else {
            None
        }
    } else {
        None
    }
}

/// The member name `lpg`.
pub open spec fn key_lpg() -> Seq<u8> {
    seq![108u8, 112u8, 103u8]
}

/// The member name `lng`.
pub open spec fn key_lng() -> Seq<u8> {
    seq![108u8, 110u8, 103u8]
}

/// The member name `co`.
pub open spec fn key_co() -> Seq<u8> {
    seq![99u8, 111u8]
}

/// Parse the members of the request object from `i` (which must point at
/// the opening quote of a member name), given which readings were already
/// seen.  On success returns the three readings and the index just past
/// the closing brace.  A reading seen twice, an unknown shape, or a
/// closing brace before all three readings were seen, fails.
pub open spec fn spec_parse_members(
    s: Seq<u8>,
    i: int,
    lpg: Option<int>,
    lng: Option<int>,
    co: Option<int>,
) -> Option<(int, int, int, int)>
    decreases s.len() - i,
{
    if !(0 <= i && i < s.len() && s[i] == 34) {
        None
    } else {
        match spec_scan_string(s, i + 1) {
            None => None,
            Some(k_end) => if !(i + 2 <= k_end && k_end <= s.len()) {
                None
            } else {
                let key = s.subrange(i + 1, k_end - 1);
                let c: int = spec_skip_ws(s, k_end);
                if !(0 <= c && c < s.len() && s[c] == 58) {  // ':'
                    None
                } else {
                    let v: int = spec_skip_ws(s, c + 1);
                    let stepped: Option<(Option<int>, Option<int>, Option<int>, int)> = if key
                        == key_lpg() {
                        if lpg is Some {
                            None
                        } else {
                            match spec_parse_int(s, v) {
                                Some(xj) => Some((Some(xj.0), lng, co, xj.1)),
                                None => None,
                            }
                        }
                    } else if key == key_lng() {
                        if lng is Some {
                            None
                        } else {
                            match spec_parse_int(s, v) {
                                Some(xj) => Some((lpg, Some(xj.0), co, xj.1)),
                                None => None,
                            }
                        }
                    } else if key == key_co() {
                        if co is Some {
                            None
                        } else {
                            match spec_parse_int(s, v) {
                                Some(xj) => Some((lpg, lng, Some(xj.0), xj.1)),
                                None => None,
                            }
                        }
                    } else {
                        match spec_skip_value(s, v) {
                            Some(j) => Some((lpg, lng, co, j)),
                            None => None,
                        }
                    };
                    match stepped {
                        None => None,
                        Some(next) => {
                            let a: int = spec_skip_ws(s, next.3);
                            if 0 <= a && a < s.len() && s[a] == 44 {  // ','
                                let nk: int = spec_skip_ws(s, a + 1);
                                if i < nk && nk <= s.len() {
                                    spec_parse_members(s, nk, next.0, next.1, next.2)
                                } else {
                                    None
                                }
                            } else if 0 <= a && a < s.len() && s[a] == 125 {  // '}'
                                match (next.0, next.1, next.2) {
                                    (Some(l), Some(n), Some(cv)) => Some((l, n, cv, a + 1)),
                                    _ => None,
                                }
                            } else {
                                None
                            }
                        },
                    }
                }
            },
        }
    }
}

/// The whole request body: optional whitespace, an object whose members
/// yield the three readings, optional whitespace, end of input.
pub open spec fn spec_parse_store(s: Seq<u8>) -> Option<(int, int, int)> {
    let i: int = spec_skip_ws(s, 0);
    if !(0 <= i && i < s.len() && s[i] == 123) {  // '{'
        None
    } else {
        let j: int = spec_skip_ws(s, i + 1);
        match spec_parse_members(s, j, None, None, None) {
            None => None,
            Some(r) => {
                let t: int = spec_skip_ws(s, r.3);
                if t == s.len() {
                    Some((r.0, r.1, r.2))
                } else {
                    None
                }
            },
        }
    }
}

/// Powers of ten, for digit-count bounds.
pub open spec fn pow10(k: nat) -> nat
    decreases k,
{
    if k == 0 {
        1
    } else {
        10 * pow10((k - 1) as nat)
    }
}

proof fn lemma_pow10_mono(a: nat, b: nat)
    requires
        a <= b,
    ensures
        pow10(a) <= pow10(b),
    decreases b,
{
    if a < b {
        lemma_pow10_mono(a, (b - 1) as nat);
    }
}

/// Every byte the digit scan passed over is a digit, and the scan stays
/// inside the sequence.
proof fn lemma_scan_digits_props(s: Seq<u8>, i: int)
    requires
        0 <= i <= s.len(),
    ensures
        i <= spec_scan_digits(s, i) <= s.len(),
        forall|k: int| i <= k < spec_scan_digits(s, i) ==> is_digit(s[k]),
    decreases s.len() - i,
{
    if i < s.len() && is_digit(s[i]) {
        lemma_scan_digits_props(s, i + 1);
    }
}

fn byte_is_ws(b: u8) -> (r: bool)
    ensures
        r == is_ws(b),
{
    b == 32 || b == 9 || b == 10 || b == 13
}

fn byte_is_digit(b: u8) -> (r: bool)
    ensures
        r == is_digit(b),
{
    48 <= b && b <= 57
}

fn byte_is_hex_digit(b: u8) -> (r: bool)
    ensures
        r == is_hex_digit(b),
{
    (48 <= b && b <= 57) || (97 <= b && b <= 102) || (65 <= b && b <= 70)
}

fn skip_ws(s: &Vec<u8>, i: usize) -> (r: usize)
    requires
        i <= s.len(),
    ensures
        r as int == spec_skip_ws(s@, i as int),
        i <= r <= s.len(),
{
    let mut j: usize = i;
    while j < s.len() && byte_is_ws(s[j])
        invariant
            i <= j <= s.len(),
            spec_skip_ws(s@, i as int) == spec_skip_ws(s@, j as int),
        decreases s.len() - j,
    {
        j = j + 1;
    }
    j
}

fn scan_digits(s: &Vec<u8>, i: usize) -> (r: usize)
    requires
        i <= s.len(),
    ensures
        r as int == spec_scan_digits(s@, i as int),
        i <= r <= s.len(),
{
    let mut j: usize = i;
    while j < s.len() && byte_is_digit(s[j])
        invariant
            i <= j <= s.len(),
            spec_scan_digits(s@, i as int) == spec_scan_digits(s@, j as int),
        decreases s.len() - j,
    {
        j = j + 1;
    }
    j
}

fn scan_string(s: &Vec<u8>, i: usize) -> (r: Option<usize>)
    requires
        i <= s.len(),
    ensures
        (match r {
            Some(j) => spec_scan_string(s@, i as int) == Some(j as int) && i < j <= s.len(),
            None => spec_scan_string(s@, i as int) is None,
        }),
{
    let mut k: usize = i;
    loop
        invariant
            i <= k <= s.len(),
            spec_scan_string(s@, i as int) == spec_scan_string(s@, k as int),
        decreases s.len() - k,
    {
        if k >= s.len() {
            return None;
        }
        let b: u8 = s[k];
        if b == 34 {
            return Some(k + 1);
        }
        if b == 92 {
            if k + 1 >= s.len() {
                return None;
            }
            let e: u8 = s[k + 1];
            if e == 34 || e == 92 || e == 47 || e == 98 || e == 102 || e == 110 || e == 114
                || e == 116 {
                k = k + 2;
            } else if e == 117 {
                if s.len() - k >= 6 && byte_is_hex_digit(s[k + 2]) && byte_is_hex_digit(s[k + 3])
                    && byte_is_hex_digit(s[k + 4]) && byte_is_hex_digit(s[k + 5]) {
                    k = k + 6;
                } else {
                    return None;
                }
            } else {
                return None;
            }
        } else if b < 32 {
            return None;
        } else {
            k = k + 1;
        }
    }
}

fn parse_int(s: &Vec<u8>, i: usize) -> (r: Option<(i32, usize)>)
    requires
        i <= s.len(),
    ensures
        (match r {
            Some(vj) => spec_parse_int(s@, i as int) == Some((vj.0 as int, vj.1 as int)) && i
                < vj.1 <= s.len(),
            None => spec_parse_int(s@, i as int) is None,
        }),
{
    let neg: bool = i < s.len() && s[i] == 45;
    let d: usize = if neg { i + 1 } else { i };
    let j: usize = scan_digits(s, d);
    if j == d {
        return None;
    }
    if s[d] == 48 && j > d + 1 {
        return None;
    }
    if j - d > 10 {
        return None;
    }
    proof {
        lemma_scan_digits_props(s@, d as int);
    }
    let mut acc: u64 = 0;
    let mut k: usize = d;
    while k < j
        invariant
            d <= k <= j <= s.len(),
            j - d <= 10,
            j as int == spec_scan_digits(s@, d as int),
            forall|q: int| d <= q < j ==> is_digit(s@[q]),
            acc as int == spec_digits_val(s@, d as int, k as int),
            acc < pow10((k - d) as nat),
        decreases j - k,
    {
        proof {
            lemma_pow10_mono(((k - d) + 1) as nat, 10);
            assert(pow10(10) == 10000000000) by {
                reveal_with_fuel(pow10, 11);
            }
        }
        let dg: u64 = (s[k] - 48) as u64;
        acc = acc * 10 + dg;
        k = k + 1;
    }
    proof {
        lemma_pow10_mono((j - d) as nat, 10);
        assert(pow10(10) == 10000000000) by {
            reveal_with_fuel(pow10, 11);
        }
    }
    if neg {
        if acc > 2147483648u64 {
            return None;
        }
        let v: i64 = -(acc as i64);
        Some((v as i32, j))
    } else {
        if acc > 2147483647u64 {
            return None;
        }
        Some((acc as i32, j))
    }
}

fn skip_value(s: &Vec<u8>, i: usize) -> (r: Option<usize>)
    requires
        i <= s.len(),
    ensures
        (match r {
            Some(j) => spec_skip_value(s@, i as int) == Some(j as int) && i < j <= s.len(),
            None => spec_skip_value(s@, i as int) is None,
        }),
{
    if i >= s.len() {
        return None;
    }
    let b: u8 = s[i];
    if b == 34 {
        scan_string(s, i + 1)
    } else if b == 45 || byte_is_digit(b) {
        match parse_int(s, i) {
            Some(vj) => Some(vj.1),
            None => None,
        }
    } else if b == 116 {
        if s.len() - i >= 4 && s[i + 1] == 114 && s[i + 2] == 117 && s[i + 3] == 101 {
            Some(i + 4)
        } else {
            None
        }
    } else if b == 102 {
        if s.len() - i >= 5 && s[i + 1] == 97 && s[i + 2] == 108 && s[i + 3] == 115 && s[i + 4]
            == 101 {
            Some(i + 5)
        } else {
            None
        }
    } else if b == 110 {
        if s.len() - i >= 4 && s[i + 1] == 117 && s[i + 2] == 108 && s[i + 3] == 108 {
            Some(i + 4)
        } else {
            None
        }
    } else {
        None
    }
}

/// Does `s[lo..hi)` spell the three given bytes?
fn span_is3(s: &Vec<u8>, lo: usize, hi: usize, k0: u8, k1: u8, k2: u8) -> (r: bool)
    requires
        lo <= hi <= s.len(),
    ensures
        r == (s@.subrange(lo as int, hi as int) == seq![k0, k1, k2]),
{
    if hi - lo != 3 {
        assert(s@.subrange(lo as int, hi as int).len() != 3);
        return false;
    }
    let r = s[lo] == k0 && s[lo + 1] == k1 && s[lo + 2] == k2;
    proof {
        if r {
            assert(s@.subrange(lo as int, hi as int) =~= seq![k0, k1, k2]);
        } else {
            assert(s@.subrange(lo as int, hi as int)[0] == s@[lo as int]);
            assert(s@.subrange(lo as int, hi as int)[1] == s@[lo as int + 1]);
            assert(s@.subrange(lo as int, hi as int)[2] == s@[lo as int + 2]);
        }
    }
    r
}

/// Does `s[lo..hi)` spell the two given bytes?
fn span_is2(s: &Vec<u8>, lo: usize, hi: usize, k0: u8, k1: u8) -> (r: bool)
    requires
        lo <= hi <= s.len(),
    ensures
        r == (s@.subrange(lo as int, hi as int) == seq![k0, k1]),
{
    if hi - lo != 2 {
        assert(s@.subrange(lo as int, hi as int).len() != 2);
        return false;
    }
    let r = s[lo] == k0 && s[lo + 1] == k1;
    proof {
        if r {
            assert(s@.subrange(lo as int, hi as int) =~= seq![k0, k1]);
        } else {
            assert(s@.subrange(lo as int, hi as int)[0] == s@[lo as int]);
            assert(s@.subrange(lo as int, hi as int)[1] == s@[lo as int + 1]);
        }
    }
    r
}

/// Spec view of an optional reading.
spec fn opt_int(o: Option<i32>) -> Option<int> {
    match o {
        Some(v) => Some(v as int),
        None => None,
    }
}

fn parse_members(s: &Vec<u8>, start: usize) -> (r: Option<(i32, i32, i32, usize)>)
    requires
        start <= s.len(),
    ensures
        (match r {
            Some(t) => spec_parse_members(s@, start as int, None, None, None) == Some(
                (t.0 as int, t.1 as int, t.2 as int, t.3 as int),
            ) && t.3 <= s.len(),
            None => spec_parse_members(s@, start as int, None, None, None) is None,
        }),
{
    let mut i: usize = start;
    let mut lpg: Option<i32> = None;
    let mut lng: Option<i32> = None;
    let mut co: Option<i32> = None;
    loop
        invariant
            i <= s.len(),
            spec_parse_members(s@, start as int, None, None, None) == spec_parse_members(
                s@,
                i as int,
                opt_int(lpg),
                opt_int(lng),
                opt_int(co),
            ),
        decreases s.len() - i,
    {
        if i >= s.len() || s[i] != 34 {
            return None;
        }
        let k_end: usize = match scan_string(s, i + 1) {
            Some(k) => k,
            None => {
                return None;
            },
        };
        let c: usize = skip_ws(s, k_end);
        if c >= s.len() || s[c] != 58 {
            return None;
        }
        let v: usize = skip_ws(s, c + 1);
        let is_lpg: bool = span_is3(s, i + 1, k_end - 1, 108, 112, 103);
        let is_lng: bool = if is_lpg {
            false
        } else {
            span_is3(s, i + 1, k_end - 1, 108, 110, 103)
        };
        let is_co: bool = if is_lpg || is_lng {
            false
        } else {
            span_is2(s, i + 1, k_end - 1, 99, 111)
        };
        let j: usize;
        if is_lpg {
            if lpg.is_some() {
                return None;
            }
            match parse_int(s, v) {
                Some(xj) => {
                    lpg = Some(xj.0);
                    j = xj.1;
                },
                None => {
                    return None;
                },
            }
        } else if is_lng {
            if lng.is_some() {
                return None;
            }
            match parse_int(s, v) {
                Some(xj) => {
                    lng = Some(xj.0);
                    j = xj.1;
                },
                None => {
                    return None;
                },
            }
        } else if is_co {
            if co.is_some() {
                return None;
            }
            match parse_int(s, v) {
                Some(xj) => {
                    co = Some(xj.0);
                    j = xj.1;
                },
                None => {
                    return None;
                },
            }
        } else {
            match skip_value(s, v) {
                Some(sj) => {
                    j = sj;
                },
                None => {
                    return None;
                },
            }
        }
        let a: usize = skip_ws(s, j);
        if a < s.len() && s[a] == 44 {
            let nk: usize = skip_ws(s, a + 1);
            assert(i < nk && nk <= s.len());
            i = nk;
        } else if a < s.len() && s[a] == 125 {
            match (lpg, lng, co) {
                (Some(l), Some(n), Some(cv)) => {
                    return Some((l, n, cv, a + 1));
                },
                _ => {
                    return None;
                },
            }
        } else {
            return None;
        }
    }
}

/// Decode a store request body.
///
/// Returns the three readings exactly when the body conforms to the
/// accepted grammar; returns `None` on any malformed, incomplete or
/// out-of-range body.  A `dateTime` member, like any member other than
/// the three readings, is ignored.
pub fn parse_store_body(s: &Vec<u8>) -> (r: Option<StoreInput>)
    ensures
        (match r {
            Some(m) => spec_parse_store(s@) == Some((m.lpg as int, m.lng as int, m.co as int)),
            None => spec_parse_store(s@) is None,
        }),
{
    let i0: usize = skip_ws(s, 0);
    if i0 >= s.len() || s[i0] != 123 {
        return None;
    }
    let start: usize = skip_ws(s, i0 + 1);
    match parse_members(s, start) {
        None => None,
        Some(t) => {
            let e: usize = skip_ws(s, t.3);
            if e == s.len() {
                Some(StoreInput { lpg: t.0, lng: t.1, co: t.2 })
            } else {
                None
            }
        },
    }
}

} // verus!
