//! A small JSON reader for the bridge's payload schemas.
//!
//! Device payloads arrive as UTF-8 JSON objects.  This module scans such an
//! object into a list of members — each a decoded key and the byte span of
//! its raw value — and offers typed readers for the spans.  Unknown members
//! are tolerated (their values are scanned and skipped); a duplicated member
//! name rejects the object.  Strings accept the simple escapes and `\u00XX`
//! for control characters; any other escape is rejected.

use vstd::prelude::*;

verus! {

pub const QUOTE: u8 = 34;

pub const BACKSLASH: u8 = 92;

pub const LBRACE: u8 = 123;

pub const RBRACE: u8 = 125;

pub const LBRACKET: u8 = 91;

pub const RBRACKET: u8 = 93;

pub const COLON: u8 = 58;

pub const COMMA: u8 = 44;

pub const MINUS: u8 = 45;

pub const DOT: u8 = 46;

/// The longest payload the reader accepts; longer ones are rejected out of
/// hand.  It equals the largest packet the broker connection is opened with.
pub const MAX_PAYLOAD_LEN: usize = 268435455;

pub open spec fn is_digit(b: u8) -> bool {
    48 <= b <= 57
}

pub open spec fn is_ws(b: u8) -> bool {
    b == 32 || b == 9 || b == 10 || b == 13
}

/// The first position at or after `i` holding no whitespace.
pub open spec fn spec_skip_ws(s: Seq<u8>, i: int) -> int
    decreases s.len() - i,
{
    if 0 <= i < s.len() && is_ws(s[i]) {
        spec_skip_ws(s, i + 1)
    } else {
        i
    }
}

pub proof fn lemma_skip_ws_bounds(s: Seq<u8>, i: int)
    requires
        0 <= i <= s.len(),
    ensures
        i <= spec_skip_ws(s, i) <= s.len(),
    decreases s.len() - i,
{
    if i < s.len() && is_ws(s[i]) {
        lemma_skip_ws_bounds(s, i + 1);
    }
}

pub(crate) fn skip_ws(s: &[u8], i: usize) -> (r: usize)
    requires
        i <= s@.len(),
    ensures
        r as int == spec_skip_ws(s@, i as int),
        i <= r <= s@.len(),
    decreases s@.len() - i,
{
    if i < s.len() && (s[i] == 32 || s[i] == 9 || s[i] == 10 || s[i] == 13) {
        skip_ws(s, i + 1)
    } else {
        i
    }
}

/// The byte a simple string escape stands for.
pub open spec fn spec_unescape(e: u8) -> Option<u8> {
    if e == QUOTE {
        Some(QUOTE)
    } else if e == BACKSLASH {
        Some(BACKSLASH)
    } else if e == 47 {  // '/'
        Some(47u8)
    } else if e == 98 {  // 'b'
        Some(8u8)
    } else if e == 102 {  // 'f'
        Some(12u8)
    } else if e == 110 {  // 'n'
        Some(10u8)
    } else if e == 114 {  // 'r'
        Some(13u8)
    } else if e == 116 {  // 't'
        Some(9u8)
    } else {
        None
    }
}

fn unescape(e: u8) -> (r: Option<u8>)
    ensures
        r == spec_unescape(e),
{
    if e == QUOTE {
        Some(QUOTE)
    } else if e == BACKSLASH {
        Some(BACKSLASH)
    } else if e == 47 {
        Some(47u8)
    } else if e == 98 {
        Some(8u8)
    } else if e == 102 {
        Some(12u8)
    } else if e == 110 {
        Some(10u8)
    } else if e == 114 {
        Some(13u8)
    } else if e == 116 {
        Some(9u8)
    } else {
        None
    }
}

/// The value of a hexadecimal digit byte.
pub open spec fn spec_hex_val(b: u8) -> Option<u8> {
    if 48 <= b <= 57 {
        Some((b - 48) as u8)
    } else if 97 <= b <= 102 {  // 'a' ..= 'f'
        Some((b - 87) as u8)
    } else if 65 <= b <= 70 {  // 'A' ..= 'F'
        Some((b - 55) as u8)
    } else {
        None
    }
}

fn hex_val(b: u8) -> (r: Option<u8>)
    ensures
        r == spec_hex_val(b),
{
    if 48 <= b && b <= 57 {
        Some(b - 48)
    } else if 97 <= b && b <= 102 {
        Some(b - 87)
    } else if 65 <= b && b <= 70 {
        Some(b - 55)
    } else {
        None
    }
}

/// Decodes string content from position `i` (just past the opening quote) up
/// to the closing quote: the decoded bytes and the position just past that
/// quote.  Raw control bytes and unsupported escapes reject the string; the
/// only `\u` form taken is `\u00XX` for a control character.
pub open spec fn spec_decode_string(s: Seq<u8>, i: int) -> Option<(Seq<u8>, int)>
    decreases s.len() - i,
{
    if i < 0 || i >= s.len() {
        None
    } else if s[i] == QUOTE {
        Some((Seq::empty(), i + 1))
    } else if s[i] == BACKSLASH {
        if i + 1 < s.len() && s[i + 1] == 117 {  // 'u'
            if i + 5 < s.len() && s[i + 2] == 48 && s[i + 3] == 48 && spec_hex_val(s[i + 4]) is Some
                && spec_hex_val(s[i + 5]) is Some {
                let v = 16 * spec_hex_val(s[i + 4]).unwrap() + spec_hex_val(s[i + 5]).unwrap();
                if v < 32 {
                    match spec_decode_string(s, i + 6) {
                        Some((d, e)) => Some((seq![v as u8] + d, e)),
                        None => None,
                    }
                } else {
                    None
                }
            } else {
                None
            }
        } else if i + 1 < s.len() && spec_unescape(s[i + 1]) is Some {
            match spec_decode_string(s, i + 2) {
                Some((d, e)) => Some((seq![spec_unescape(s[i + 1]).unwrap()] + d, e)),
                None => None,
            }
        } else {
            None
        }
    } else if s[i] < 32 {
        None
    } else {
        match spec_decode_string(s, i + 1) {
            Some((d, e)) => Some((seq![s[i]] + d, e)),
            None => None,
        }
    }
}

pub proof fn lemma_decode_string_bounds(s: Seq<u8>, i: int)
    requires
        0 <= i,
    ensures
        spec_decode_string(s, i) matches Some((d, e)) ==> i < e <= s.len(),
    decreases s.len() - i,
{
    if i < s.len() {
        lemma_decode_string_bounds(s, i + 1);
        if i + 2 <= s.len() {
            lemma_decode_string_bounds(s, i + 2);
        }
        if i + 6 <= s.len() {
            lemma_decode_string_bounds(s, i + 6);
        }
    }
}

/// Decodes string content starting at `i`, appending the decoded bytes to
/// `acc`.  On failure `acc` is not to be used further.
pub(crate) fn decode_string(s: &[u8], i: usize, acc: &mut Vec<u8>) -> (r: Option<usize>)
    requires
        i <= s@.len(),
    ensures
        r is Some <==> spec_decode_string(s@, i as int) is Some,
        r matches Some(e) ==> spec_decode_string(s@, i as int) matches Some((d, e2)) && e as int
            == e2 && final(acc)@ == old(acc)@ + d,
    decreases s@.len() - i,
{
    proof {
        lemma_decode_string_bounds(s@, i as int);
    }
    if i >= s.len() {
        None
    } else if s[i] == QUOTE {
        proof {
            assert(acc@ =~= acc@ + Seq::<u8>::empty());
        }
        Some(i + 1)
    } else if s[i] == BACKSLASH {
        if s.len() - i > 1 && s[i + 1] == 117 {
            if s.len() - i > 5 && s[i + 2] == 48 && s[i + 3] == 48 {
                let h1 = hex_val(s[i + 4]);
                let h2 = hex_val(s[i + 5]);
                match (h1, h2) {
                    (Some(a), Some(b)) => {
                        let v = 16 * a + b;
                        if v < 32 {
                            let ghost acc0 = acc@;
                            acc.push(v);
                            let r = decode_string(s, i + 6, acc);
                            proof {
                                if let Some((d, e)) = spec_decode_string(s@, i as int + 6) {
                                    assert((acc0.push(v)) + d =~= acc0 + (seq![v] + d));
                                }
                            }
                            r
                        } else {
                            None
                        }
                    },
                    _ => None,
                }
            } else {
                None
            }
        } else if s.len() - i > 1 {
            match unescape(s[i + 1]) {
                Some(b) => {
                    let ghost acc0 = acc@;
                    acc.push(b);
                    let r = decode_string(s, i + 2, acc);
                    proof {
                        if let Some((d, e)) = spec_decode_string(s@, i as int + 2) {
                            assert((acc0.push(b)) + d =~= acc0 + (seq![b] + d));
                        }
                    }
                    r
                },
                None => None,
            }
        } else {
            None
        }
    } else if s[i] < 32 {
        None
    } else {
        let b = s[i];
        let ghost acc0 = acc@;
        acc.push(b);
        let r = decode_string(s, i + 1, acc);
        proof {
            if let Some((d, e)) = spec_decode_string(s@, i as int + 1) {
                assert((acc0.push(b)) + d =~= acc0 + (seq![b] + d));
            }
        }
        r
    }
}

/// The first position at or after `i` holding no decimal digit.
pub open spec fn spec_scan_digits(s: Seq<u8>, i: int) -> int
    decreases s.len() - i,
{
    if 0 <= i < s.len() && is_digit(s[i]) {
        spec_scan_digits(s, i + 1)
    } else {
        i
    }
}

pub proof fn lemma_scan_digits_bounds(s: Seq<u8>, i: int)
    requires
        0 <= i <= s.len(),
    ensures
        i <= spec_scan_digits(s, i) <= s.len(),
    decreases s.len() - i,
{
    if i < s.len() && is_digit(s[i]) {
        lemma_scan_digits_bounds(s, i + 1);
    }
}

pub(crate) fn scan_digits(s: &[u8], i: usize) -> (r: usize)
    requires
        i <= s@.len(),
    ensures
        r as int == spec_scan_digits(s@, i as int),
        i <= r <= s@.len(),
    decreases s@.len() - i,
{
    if i < s.len() && 48 <= s[i] && s[i] <= 57 {
        scan_digits(s, i + 1)
    } else {
        i
    }
}

/// Scans one JSON number starting at `i`; the position just past it.
pub open spec fn spec_scan_number(s: Seq<u8>, i: int) -> Option<int> {
    if i < 0 || i >= s.len() {
        None
    } else {
        let j = if s[i] == MINUS {
            i + 1
        } else {
            i
        };
        if j < s.len() && is_digit(s[j]) {
            let k = if s[j] == 48 {
                j + 1
            } else {
                spec_scan_digits(s, j)
            };
            let m = if k < s.len() && s[k] == DOT {
                if spec_scan_digits(s, k + 1) > k + 1 {
                    spec_scan_digits(s, k + 1)
                } else {
                    -1
                }
            } else {
                k
            };
            if m < 0 {
                None
            } else {
                let e = if m < s.len() && (s[m] == 101 || s[m] == 69) {  // 'e' | 'E'
                    let d = if m + 1 < s.len() && (s[m + 1] == MINUS || s[m + 1] == 43) {
                        m + 2
                    } else {
                        m + 1
                    };
                    if spec_scan_digits(s, d) > d {
                        spec_scan_digits(s, d)
                    } else {
                        -1
                    }
                } else {
                    m
                };
                if e < 0 {
                    None
                } else {
                    Some(e)
                }
            }
        } else {
            None
        }
    }
}

pub proof fn lemma_scan_number_bounds(s: Seq<u8>, i: int)
    requires
        0 <= i,
    ensures
        spec_scan_number(s, i) matches Some(e) ==> i < e <= s.len(),
{
    if i < s.len() {
        let j = if s[i] == MINUS {
            i + 1
        } else {
            i
        };
        if j < s.len() && is_digit(s[j]) {
            lemma_scan_digits_bounds(s, j);
            let k = if s[j] == 48 {
                j + 1
            } else {
                spec_scan_digits(s, j)
            };
            if k + 1 <= s.len() {
                lemma_scan_digits_bounds(s, k + 1);
            }
            let m = if k < s.len() && s[k] == DOT {
                if spec_scan_digits(s, k + 1) > k + 1 {
                    spec_scan_digits(s, k + 1)
                } else {
                    -1
                }
            } else {
                k
            };
            if 0 <= m && m < s.len() && (s[m] == 101 || s[m] == 69) {
                let d = if m + 1 < s.len() && (s[m + 1] == MINUS || s[m + 1] == 43) {
                    m + 2
                } else {
                    m + 1
                };
                if d <= s.len() {
                    lemma_scan_digits_bounds(s, d);
                }
            }
        }
    }
}

fn scan_number(s: &[u8], i: usize) -> (r: Option<usize>)
    requires
        i <= s@.len(),
    ensures
        r is Some <==> spec_scan_number(s@, i as int) is Some,
        r matches Some(e) ==> spec_scan_number(s@, i as int) == Some(e as int) && i < e <= s@.len(),
{
    proof {
        lemma_scan_number_bounds(s@, i as int);
    }
    if i >= s.len() {
        return None;
    }
    let j = if s[i] == MINUS {
        i + 1
    } else {
        i
    };
    if j < s.len() && 48 <= s[j] && s[j] <= 57 {
        let k = if s[j] == 48 {
            j + 1
        } else {
            scan_digits(s, j)
        };
        let m_opt: Option<usize> = if k < s.len() && s[k] == DOT {
            let d = scan_digits(s, k + 1);
            if d > k + 1 {
                Some(d)
            } else {
                None
            }
        } else {
            Some(k)
        };
        match m_opt {
            None => None,
            Some(m) => {
                if m < s.len() && (s[m] == 101 || s[m] == 69) {
                    let d0 = if m + 1 < s.len() && (s[m + 1] == MINUS || s[m + 1] == 43) {
                        m + 2
                    } else {
                        m + 1
                    };
                    let e = scan_digits(s, d0);
                    if e > d0 {
                        Some(e)
                    } else {
                        None
                    }
                } else {
                    Some(m)
                }
            },
        }
    } else {
        None
    }
}

pub open spec fn lit_true() -> Seq<u8> {
    seq![116u8, 114u8, 117u8, 101u8]
}

pub open spec fn lit_false() -> Seq<u8> {
    seq![102u8, 97u8, 108u8, 115u8, 101u8]
}

pub open spec fn lit_null() -> Seq<u8> {
    seq![110u8, 117u8, 108u8, 108u8]
}

/// Scans the literal `true` at `i`; the position just past it.
pub open spec fn spec_scan_true(s: Seq<u8>, i: int) -> Option<int> {
    if 0 <= i && i + 4 <= s.len() && s.subrange(i, i + 4) == lit_true() {
        Some(i + 4)
    } else {
        None
    }
}

pub open spec fn spec_scan_false(s: Seq<u8>, i: int) -> Option<int> {
    if 0 <= i && i + 5 <= s.len() && s.subrange(i, i + 5) == lit_false() {
        Some(i + 5)
    } else {
        None
    }
}

pub open spec fn spec_scan_null(s: Seq<u8>, i: int) -> Option<int> {
    if 0 <= i && i + 4 <= s.len() && s.subrange(i, i + 4) == lit_null() {
        Some(i + 4)
    } else {
        None
    }
}

pub(crate) fn scan_true(s: &[u8], i: usize) -> (r: Option<usize>)
    requires
        i <= s@.len(),
    ensures
        r is Some <==> spec_scan_true(s@, i as int) is Some,
        r matches Some(e) ==> spec_scan_true(s@, i as int) == Some(e as int) && e <= s@.len(),
{
    if s.len() - i >= 4 && s[i] == 116 && s[i + 1] == 114 && s[i + 2] == 117 && s[i + 3] == 101 {
        proof {
            assert(s@.subrange(i as int, i as int + 4) =~= lit_true());
        }
        Some(i + 4)
    } else {
        proof {
            if i as int + 4 <= s@.len() && s@.subrange(i as int, i as int + 4) == lit_true() {
                assert(s@[i as int] == 116 && s@[i as int + 1] == 114 && s@[i as int + 2] == 117
                    && s@[i as int + 3] == 101) by {
                    assert(s@.subrange(i as int, i as int + 4)[0] == 116);
                    assert(s@.subrange(i as int, i as int + 4)[1] == 114);
                    assert(s@.subrange(i as int, i as int + 4)[2] == 117);
                    assert(s@.subrange(i as int, i as int + 4)[3] == 101);
                }
            }
        }
        None
    }
}

pub(crate) fn scan_false(s: &[u8], i: usize) -> (r: Option<usize>)
    requires
        i <= s@.len(),
    ensures
        r is Some <==> spec_scan_false(s@, i as int) is Some,
        r matches Some(e) ==> spec_scan_false(s@, i as int) == Some(e as int) && e <= s@.len(),
{
    if s.len() - i >= 5 && s[i] == 102 && s[i + 1] == 97 && s[i + 2] == 108 && s[i + 3] == 115 && s[i
        + 4] == 101 {
        proof {
            assert(s@.subrange(i as int, i as int + 5) =~= lit_false());
        }
        Some(i + 5)
    } else {
        proof {
            if i as int + 5 <= s@.len() && s@.subrange(i as int, i as int + 5) == lit_false() {
                assert(s@[i as int] == 102 && s@[i as int + 1] == 97 && s@[i as int + 2] == 108 && s@[
                    i as int + 3] == 115 && s@[i as int + 4] == 101) by {
                    assert(s@.subrange(i as int, i as int + 5)[0] == 102);
                    assert(s@.subrange(i as int, i as int + 5)[1] == 97);
                    assert(s@.subrange(i as int, i as int + 5)[2] == 108);
                    assert(s@.subrange(i as int, i as int + 5)[3] == 115);
                    assert(s@.subrange(i as int, i as int + 5)[4] == 101);
                }
            }
        }
        None
    }
}

pub(crate) fn scan_null(s: &[u8], i: usize) -> (r: Option<usize>)
    requires
        i <= s@.len(),
    ensures
        r is Some <==> spec_scan_null(s@, i as int) is Some,
        r matches Some(e) ==> spec_scan_null(s@, i as int) == Some(e as int) && e <= s@.len(),
{
    if s.len() - i >= 4 && s[i] == 110 && s[i + 1] == 117 && s[i + 2] == 108 && s[i + 3] == 108 {
        proof {
            assert(s@.subrange(i as int, i as int + 4) =~= lit_null());
        }
        Some(i + 4)
    } else {
        proof {
            if i as int + 4 <= s@.len() && s@.subrange(i as int, i as int + 4) == lit_null() {
                assert(s@[i as int] == 110 && s@[i as int + 1] == 117 && s@[i as int + 2] == 108
                    && s@[i as int + 3] == 108) by {
                    assert(s@.subrange(i as int, i as int + 4)[0] == 110);
                    assert(s@.subrange(i as int, i as int + 4)[1] == 117);
                    assert(s@.subrange(i as int, i as int + 4)[2] == 108);
                    assert(s@.subrange(i as int, i as int + 4)[3] == 108);
                }
            }
        }
        None
    }
}

/// One scanned object member: the decoded key and the span `[start, end)` of
/// the raw value bytes.
pub struct MemberSpan {
    pub key: Vec<u8>,
    pub start: usize,
    pub end: usize,
}

/// The spec-level form of a scanned member.
pub open spec fn member_view(m: MemberSpan) -> (Seq<u8>, int, int) {
    (m.key@, m.start as int, m.end as int)
}

pub open spec fn member_views(v: Seq<MemberSpan>) -> Seq<(Seq<u8>, int, int)> {
    v.map_values(|m: MemberSpan| member_view(m))
}

/// Scans one JSON value beginning at `i` (no leading whitespace); the
/// position just past it.  `fuel` bounds the nesting the scan will follow.
pub open spec fn spec_scan_value(s: Seq<u8>, i: int, fuel: nat) -> Option<int>
    decreases fuel,
{
    if fuel == 0 || i < 0 || i >= s.len() {
        None
    } else if s[i] == LBRACE {
        match spec_object_body(s, i + 1, (fuel - 1) as nat) {
            Some((ms, end)) => Some(end),
            None => None,
        }
    } else if s[i] == LBRACKET {
        spec_array_body(s, i + 1, (fuel - 1) as nat)
    } else if s[i] == QUOTE {
        match spec_decode_string(s, i + 1) {
            Some((d, end)) => Some(end),
            None => None,
        }
    } else if s[i] == 116 {  // 't'
        spec_scan_true(s, i)
    } else if s[i] == 102 {  // 'f'
        spec_scan_false(s, i)
    } else if s[i] == 110 {  // 'n'
        spec_scan_null(s, i)
    } else {
        spec_scan_number(s, i)
    }
}

/// Scans an object's members from just past its `{`: the member list and the
/// position just past the closing `}`.  A duplicated key rejects the object.
pub open spec fn spec_object_body(s: Seq<u8>, i: int, fuel: nat) -> Option<
    (Seq<(Seq<u8>, int, int)>, int),
>
    decreases fuel,
{
    if fuel == 0 || i < 0 {
        None
    } else {
        let j = spec_skip_ws(s, i);
        if j < s.len() && s[j] == RBRACE {
            Some((Seq::empty(), j + 1))
        } else {
            match spec_members(s, i, (fuel - 1) as nat) {
                Some((ms, end)) => if spec_unique_keys(ms) {
                    Some((ms, end))
                } else {
                    None
                },
                None => None,
            }
        }
    }
}

/// Scans one or more members from `i` up to and past the closing `}`.
pub open spec fn spec_members(s: Seq<u8>, i: int, fuel: nat) -> Option<
    (Seq<(Seq<u8>, int, int)>, int),
>
    decreases fuel,
{
    if fuel == 0 || i < 0 {
        None
    } else {
        let j = spec_skip_ws(s, i);
        if j < s.len() && s[j] == QUOTE {
            match spec_decode_string(s, j + 1) {
                None => None,
                Some((key, k)) => {
                    let c = spec_skip_ws(s, k);
                    if c < s.len() && s[c] == COLON {
                        let vs = spec_skip_ws(s, c + 1);
                        match spec_scan_value(s, vs, (fuel - 1) as nat) {
                            None => None,
                            Some(ve) => {
                                let t = spec_skip_ws(s, ve);
                                if t < s.len() && s[t] == COMMA {
                                    match spec_members(s, t + 1, (fuel - 1) as nat) {
                                        None => None,
                                        Some((rest, end)) => Some(
                                            (seq![(key, vs, ve)] + rest, end),
                                        ),
                                    }
                                } else if t < s.len() && s[t] == RBRACE {
                                    Some((seq![(key, vs, ve)], t + 1))
                                } else {
                                    None
                                }
                            },
                        }
                    } else {
                        None
                    }
                },
            }
        } else {
            None
        }
    }
}

/// Scans an array from just past its `[`: the position just past the closing
/// `]`.  The elements are only skipped.
pub open spec fn spec_array_body(s: Seq<u8>, i: int, fuel: nat) -> Option<int>
    decreases fuel,
{
    if fuel == 0 || i < 0 {
        None
    } else {
        let j = spec_skip_ws(s, i);
        if j < s.len() && s[j] == RBRACKET {
            Some(j + 1)
        } else {
            spec_array_elems(s, i, (fuel - 1) as nat)
        }
    }
}

pub open spec fn spec_array_elems(s: Seq<u8>, i: int, fuel: nat) -> Option<int>
    decreases fuel,
{
    if fuel == 0 || i < 0 {
        None
    } else {
        let vs = spec_skip_ws(s, i);
        match spec_scan_value(s, vs, (fuel - 1) as nat) {
            None => None,
            Some(ve) => {
                let t = spec_skip_ws(s, ve);
                if t < s.len() && s[t] == COMMA {
                    spec_array_elems(s, t + 1, (fuel - 1) as nat)
                } else if t < s.len() && s[t] == RBRACKET {
                    Some(t + 1)
                } else {
                    None
                }
            },
        }
    }
}

/// No two members share a key.
pub open spec fn spec_unique_keys(ms: Seq<(Seq<u8>, int, int)>) -> bool {
    forall|k1: int, k2: int|
        0 <= k1 < k2 < ms.len() ==> (#[trigger] ms[k1]).0 != (#[trigger] ms[k2]).0
}

fn scan_value(s: &[u8], i: usize, fuel: usize) -> (r: Option<usize>)
    requires
        i <= s@.len(),
    ensures
        r is Some <==> spec_scan_value(s@, i as int, fuel as nat) is Some,
        r matches Some(e) ==> spec_scan_value(s@, i as int, fuel as nat) == Some(e as int) && i < e
            <= s@.len(),
    decreases fuel,
{
    if fuel == 0 || i >= s.len() {
        None
    } else if s[i] == LBRACE {
        match object_body(s, i + 1, fuel - 1) {
            Some((ms, end)) => Some(end),
            None => None,
        }
    } else if s[i] == LBRACKET {
        array_body(s, i + 1, fuel - 1)
    } else if s[i] == QUOTE {
        let mut acc: Vec<u8> = Vec::new();
        proof {
            lemma_decode_string_bounds(s@, i as int + 1);
        }
        match decode_string(s, i + 1, &mut acc) {
            Some(e) => Some(e),
            None => None,
        }
    } else if s[i] == 116 {
        scan_true(s, i)
    } else if s[i] == 102 {
        scan_false(s, i)
    } else if s[i] == 110 {
        scan_null(s, i)
    } else {
        scan_number(s, i)
    }
}

fn object_body(s: &[u8], i: usize, fuel: usize) -> (r: Option<(Vec<MemberSpan>, usize)>)
    requires
        i <= s@.len(),
    ensures
        r is Some <==> spec_object_body(s@, i as int, fuel as nat) is Some,
        r matches Some((v, end)) ==> spec_object_body(s@, i as int, fuel as nat) == Some(
            (member_views(v@), end as int),
        ) && i < end <= s@.len(),
    decreases fuel,
{
    if fuel == 0 {
        return None;
    }
    let j = skip_ws(s, i);
    if j < s.len() && s[j] == RBRACE {
        proof {
            assert(member_views(Seq::<MemberSpan>::empty()) =~= Seq::<(Seq<u8>, int, int)>::empty());
        }
        Some((Vec::new(), j + 1))
    } else {
        match members(s, i, fuel - 1) {
            Some((v, end)) => {
                if unique_keys(&v) {
                    Some((v, end))
                } else {
                    None
                }
            },
            None => None,
        }
    }
}

fn members(s: &[u8], i: usize, fuel: usize) -> (r: Option<(Vec<MemberSpan>, usize)>)
    requires
        i <= s@.len(),
    ensures
        r is Some <==> spec_members(s@, i as int, fuel as nat) is Some,
        r matches Some((v, end)) ==> spec_members(s@, i as int, fuel as nat) == Some(
            (member_views(v@), end as int),
        ) && i < end <= s@.len(),
    decreases fuel,
{
    if fuel == 0 {
        return None;
    }
    let j = skip_ws(s, i);
    if j < s.len() && s[j] == QUOTE {
        let mut key: Vec<u8> = Vec::new();
        proof {
            lemma_decode_string_bounds(s@, j as int + 1);
        }
        match decode_string(s, j + 1, &mut key) {
            None => None,
            Some(k) => {
                let c = skip_ws(s, k);
                if c < s.len() && s[c] == COLON {
                    let vs = skip_ws(s, c + 1);
                    match scan_value(s, vs, fuel - 1) {
                        None => None,
                        Some(ve) => {
                            let t = skip_ws(s, ve);
                            if t < s.len() && s[t] == COMMA {
                                match members(s, t + 1, fuel - 1) {
                                    None => None,
                                    Some((rest, end)) => {
                                        let m = MemberSpan { key, start: vs, end: ve };
                                        let ghost mv = member_view(m);
                                        let ghost rest0 = rest@;
                                        let mut v = rest;
                                        v.insert(0, m);
                                        proof {
                                            assert(v@ =~= seq![m] + rest0);
                                            assert(member_views(seq![m] + rest0) =~= seq![mv]
                                                + member_views(rest0));
                                        }
                                        Some((v, end))
                                    },
                                }
                            } else if t < s.len() && s[t] == RBRACE {
                                let m = MemberSpan { key, start: vs, end: ve };
                                let ghost mv = member_view(m);
                                let mut v: Vec<MemberSpan> = Vec::new();
                                v.push(m);
                                proof {
                                    assert(member_views(v@) =~= seq![mv]);
                                }
                                Some((v, t + 1))
                            } else {
                                None
                            }
                        },
                    }
                } else {
                    None
                }
            },
        }
    } else {
        None
    }
}

fn array_body(s: &[u8], i: usize, fuel: usize) -> (r: Option<usize>)
    requires
        i <= s@.len(),
    ensures
        r is Some <==> spec_array_body(s@, i as int, fuel as nat) is Some,
        r matches Some(e) ==> spec_array_body(s@, i as int, fuel as nat) == Some(e as int) && i < e
            <= s@.len(),
    decreases fuel,
{
    if fuel == 0 {
        return None;
    }
    let j = skip_ws(s, i);
    if j < s.len() && s[j] == RBRACKET {
        Some(j + 1)
    } else {
        array_elems(s, i, fuel - 1)
    }
}

fn array_elems(s: &[u8], i: usize, fuel: usize) -> (r: Option<usize>)
    requires
        i <= s@.len(),
    ensures
        r is Some <==> spec_array_elems(s@, i as int, fuel as nat) is Some,
        r matches Some(e) ==> spec_array_elems(s@, i as int, fuel as nat) == Some(e as int) && i < e
            <= s@.len(),
    decreases fuel,
{
    if fuel == 0 {
        return None;
    }
    let vs = skip_ws(s, i);
    match scan_value(s, vs, fuel - 1) {
        None => None,
        Some(ve) => {
            let t = skip_ws(s, ve);
            if t < s.len() && s[t] == COMMA {
                array_elems(s, t + 1, fuel - 1)
            } else if t < s.len() && s[t] == RBRACKET {
                Some(t + 1)
            } else {
                None
            }
        },
    }
}

fn unique_keys(v: &Vec<MemberSpan>) -> (r: bool)
    ensures
        r == spec_unique_keys(member_views(v@)),
{
    let ghost ms = member_views(v@);
    let mut k1: usize = 0;
    while k1 < v.len()
        invariant
            0 <= k1 <= v@.len(),
            ms == member_views(v@),
            ms.len() == v@.len(),
            forall|a: int, b: int| 0 <= a < b < ms.len() && a < k1 ==> (#[trigger] ms[a]).0 != (
            #[trigger] ms[b]).0,
        decreases v@.len() - k1,
    {
        let mut k2: usize = k1 + 1;
        while k2 < v.len()
            invariant
                0 <= k1 < k2 <= v@.len(),
                ms == member_views(v@),
                ms.len() == v@.len(),
                forall|b: int| k1 < b < k2 ==> ms[k1 as int].0 != (#[trigger] ms[b]).0,
            decreases v@.len() - k2,
        {
            if crate::filter::bytes_eq(v[k1].key.as_slice(), v[k2].key.as_slice()) {
                proof {
                    assert(ms[k1 as int].0 == ms[k2 as int].0);
                }
                return false;
            }
            k2 += 1;
        }
        k1 += 1;
    }
    true
}

/// Scans a whole payload as one JSON object, tolerating whitespace around it:
/// the member list, or nothing if the payload is not such an object, holds a
/// duplicated key, or is longer than `MAX_PAYLOAD_LEN`.
pub open spec fn spec_parse_object(s: Seq<u8>) -> Option<Seq<(Seq<u8>, int, int)>> {
    if s.len() > MAX_PAYLOAD_LEN {
        None
    } else {
        let i = spec_skip_ws(s, 0);
        if i < s.len() && s[i] == LBRACE {
            match spec_object_body(s, i + 1, (2 * s.len() + 4) as nat) {
                Some((ms, end)) => if spec_skip_ws(s, end) == s.len() {
                    Some(ms)
                } else {
                    None
                },
                None => None,
            }
        } else {
            None
        }
    }
}

/// Scans a whole payload as one JSON object into its member spans.
pub fn parse_object(s: &[u8]) -> (r: Option<Vec<MemberSpan>>)
    ensures
        r is Some <==> spec_parse_object(s@) is Some,
        r matches Some(v) ==> spec_parse_object(s@) == Some(member_views(v@)),
{
    if s.len() > MAX_PAYLOAD_LEN {
        return None;
    }
    let i = skip_ws(s, 0);
    if i < s.len() && s[i] == LBRACE {
        match object_body(s, i + 1, 2 * s.len() + 4) {
            Some((v, end)) => {
                if skip_ws(s, end) == s.len() {
                    Some(v)
                } else {
                    None
                }
            },
            None => None,
        }
    } else {
        None
    }
}

/// The span of the member named `key`: nothing if the key is absent.
pub open spec fn spec_lookup(ms: Seq<(Seq<u8>, int, int)>, key: Seq<u8>) -> Option<(int, int)>
    decreases ms.len(),
{
    if ms.len() == 0 {
        None
    } else if ms[0].0 == key {
        Some((ms[0].1, ms[0].2))
    } else {
        spec_lookup(ms.skip(1), key)
    }
}

fn lookup_from(v: &Vec<MemberSpan>, i: usize, key: &[u8]) -> (r: Option<(usize, usize)>)
    requires
        i <= v@.len(),
    ensures
        r is Some <==> spec_lookup(member_views(v@).skip(i as int), key@) is Some,
        r matches Some((vs, ve)) ==> spec_lookup(member_views(v@).skip(i as int), key@) == Some(
            (vs as int, ve as int),
        ),
    decreases v@.len() - i,
{
    let ghost ms = member_views(v@).skip(i as int);
    if i == v.len() {
        proof {
            assert(ms =~= Seq::<(Seq<u8>, int, int)>::empty());
        }
        None
    } else {
        proof {
            assert(ms[0] == member_views(v@)[i as int]);
            assert(ms.skip(1) =~= member_views(v@).skip(i as int + 1));
        }
        if crate::filter::bytes_eq(v[i].key.as_slice(), key) {
            Some((v[i].start, v[i].end))
        } else {
            lookup_from(v, i + 1, key)
        }
    }
}

/// Finds the member named `key` among the spans.
pub fn lookup(v: &Vec<MemberSpan>, key: &[u8]) -> (r: Option<(usize, usize)>)
    ensures
        r is Some <==> spec_lookup(member_views(v@), key@) is Some,
        r matches Some((vs, ve)) ==> spec_lookup(member_views(v@), key@) == Some(
            (vs as int, ve as int),
        ),
{
    proof {
        assert(member_views(v@).skip(0) =~= member_views(v@));
    }
    lookup_from(v, 0, key)
}

/// Reads a boolean value filling exactly the span `[vs, ve)`.
pub open spec fn spec_bool_at(s: Seq<u8>, vs: int, ve: int) -> Option<bool> {
    if spec_scan_true(s, vs) == Some(ve) {
        Some(true)
    } else if spec_scan_false(s, vs) == Some(ve) {
        Some(false)
    } else {
        None
    }
}

pub fn bool_at(s: &[u8], vs: usize, ve: usize) -> (r: Option<bool>)
    requires
        vs <= s@.len(),
    ensures
        r == spec_bool_at(s@, vs as int, ve as int),
{
    match scan_true(s, vs) {
        Some(e) => {
            if e == ve {
                return Some(true);
            }
        },
        None => {},
    }
    match scan_false(s, vs) {
        Some(e) => {
            if e == ve {
                return Some(false);
            }
        },
        None => {},
    }
    None
}

/// Whether the span `[vs, ve)` holds exactly one JSON number.
pub open spec fn spec_number_at(s: Seq<u8>, vs: int, ve: int) -> bool {
    spec_scan_number(s, vs) == Some(ve)
}

pub fn number_at(s: &[u8], vs: usize, ve: usize) -> (r: bool)
    requires
        vs <= s@.len(),
    ensures
        r == spec_number_at(s@, vs as int, ve as int),
{
    match scan_number(s, vs) {
        Some(e) => e == ve,
        None => false,
    }
}

/// Reads a string value filling exactly the span `[vs, ve)`: the decoded
/// bytes.
pub open spec fn spec_string_at(s: Seq<u8>, vs: int, ve: int) -> Option<Seq<u8>> {
    if 0 <= vs < s.len() && s[vs] == QUOTE {
        match spec_decode_string(s, vs + 1) {
            Some((d, e)) => if e == ve {
                Some(d)
            } else {
                None
            },
            None => None,
        }
    } else {
        None
    }
}

pub fn string_at(s: &[u8], vs: usize, ve: usize) -> (r: Option<Vec<u8>>)
    requires
        vs <= s@.len(),
    ensures
        r is Some <==> spec_string_at(s@, vs as int, ve as int) is Some,
        r matches Some(d) ==> spec_string_at(s@, vs as int, ve as int) == Some(d@),
{
    if vs < s.len() && s[vs] == QUOTE {
        let mut acc: Vec<u8> = Vec::new();
        match decode_string(s, vs + 1, &mut acc) {
            Some(e) => {
                if e == ve {
                    proof {
                        assert(Seq::<u8>::empty() + spec_decode_string(s@, vs as int + 1).unwrap().0
                            =~= spec_decode_string(s@, vs as int + 1).unwrap().0);
                    }
                    Some(acc)
                } else {
                    None
                }
            },
            None => None,
        }
    } else {
        None
    }
}

/// The value of the decimal digits in `[vs, ve)`, most significant first.
pub open spec fn spec_digits_value(s: Seq<u8>, vs: int, ve: int) -> nat
    decreases ve - vs,
{
    if vs >= ve {
        0
    } else {
        spec_digits_value(s, vs, ve - 1) * 10 + if is_digit(s[ve - 1]) {
            (s[ve - 1] - 48) as nat
        } else {
            0
        }
    }
}

/// Reads an unsigned 64-bit integer filling exactly the span `[vs, ve)`:
/// plain decimal digits, no leading zero except for zero itself, value no
/// larger than `u64::MAX`.
pub open spec fn spec_u64_at(s: Seq<u8>, vs: int, ve: int) -> Option<u64> {
    if 0 <= vs < ve && ve <= s.len() && (forall|k: int| vs <= k < ve ==> is_digit(#[trigger] s[k]))
        && (s[vs] == 48 ==> ve == vs + 1) && spec_digits_value(s, vs, ve) <= u64::MAX {
        Some(spec_digits_value(s, vs, ve) as u64)
    } else {
        None
    }
}

pub fn u64_at(s: &[u8], vs: usize, ve: usize) -> (r: Option<u64>)
    requires
        ve <= s@.len(),
    ensures
        r == spec_u64_at(s@, vs as int, ve as int),
{
    if vs >= ve {
        return None;
    }
    if s[vs] == 48 && ve != vs + 1 {
        return None;
    }
    let mut acc: u64 = 0;
    let mut k: usize = vs;
    while k < ve
        invariant
            vs <= k <= ve <= s@.len(),
            forall|m: int| vs <= m < k ==> is_digit(#[trigger] s@[m]),
            acc as nat == spec_digits_value(s@, vs as int, k as int),
        decreases ve - k,
    {
        let b = s[k];
        if b < 48 || b > 57 {
            proof {
                assert(!is_digit(s@[k as int]));
            }
            return None;
        }
        let d = b - 48;
        let step = acc.checked_mul(10);
        match step {
            None => {
                proof {
                    lemma_digits_value_monotone(s@, vs as int, k as int + 1, ve as int);
                    assert(spec_digits_value(s@, vs as int, k as int + 1) > u64::MAX);
                }
                return None;
            },
            Some(a10) => {
                match a10.checked_add(d as u64) {
                    None => {
                        proof {
                            lemma_digits_value_monotone(s@, vs as int, k as int + 1, ve as int);
                            assert(spec_digits_value(s@, vs as int, k as int + 1) > u64::MAX);
                        }
                        return None;
                    },
                    Some(next) => {
                        acc = next;
                    },
                }
            },
        }
        k += 1;
    }
    Some(acc)
}

/// Appending digits never lowers the value the digits read as.
proof fn lemma_digits_value_monotone(s: Seq<u8>, vs: int, k: int, ve: int)
    requires
        vs <= k <= ve,
    ensures
        spec_digits_value(s, vs, k) <= spec_digits_value(s, vs, ve),
    decreases ve - k,
{
    if k < ve {
        lemma_digits_value_monotone(s, vs, k, ve - 1);
        let prev = spec_digits_value(s, vs, ve - 1);
        assert(prev <= prev * 10) by (nonlinear_arith);
    }
}

} // verus!
