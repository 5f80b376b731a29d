//! The executable decoder: reads one protocol line back as a `Json` value.
//!
//! Every function here is proved to agree exactly with the specification
//! parser in `codec`; `decode_line` accepts a line precisely when `json_doc`
//! gives it a value.

use vstd::prelude::*;

use crate::codec::{
    digit_run, hex4, hex_val, is_digit, is_num_char, is_number_lit, is_ws, json_doc, num_run,
    parse_elems, parse_members, parse_str_body, parse_u_escape, parse_value, unescape, ws_count,
};
use crate::json::{jval_arr, jval_obj, lemma_jval_arr_snoc, lemma_jval_obj_snoc, Json, JsonV};

verus! {

// ---------------------------------------------------------------------------
// Bounds of the specification parser
// ---------------------------------------------------------------------------
pub proof fn lemma_ws_count_bound(s: Seq<char>, i: int)
    requires
        0 <= i <= s.len(),
    ensures
        i + ws_count(s, i) <= s.len(),
    decreases s.len() - i,
{
    if i < s.len() && is_ws(s[i]) {
        lemma_ws_count_bound(s, i + 1);
    }
}

pub proof fn lemma_num_run_bound(s: Seq<char>, i: int)
    requires
        0 <= i <= s.len(),
    ensures
        i + num_run(s, i) <= s.len(),
    decreases s.len() - i,
{
    if i < s.len() && is_num_char(s[i]) {
        lemma_num_run_bound(s, i + 1);
    }
}

pub proof fn lemma_digit_run_bound(s: Seq<char>, i: int)
    requires
        0 <= i <= s.len(),
    ensures
        i + digit_run(s, i) <= s.len(),
    decreases s.len() - i,
{
    if i < s.len() && is_digit(s[i]) {
        lemma_digit_run_bound(s, i + 1);
    }
}

pub proof fn lemma_parse_str_body_bounds(s: Seq<char>, i: int)
    ensures
        match parse_str_body(s, i) {
            Some((cs, k)) => i < k <= s.len(),
            None => true,
        },
    decreases s.len() - i,
{
    if 0 <= i < s.len() {
        if s[i] == '"' {
        } else if s[i] == '\\' {
            if i + 1 < s.len() && s[i + 1] == 'u' {
                match parse_u_escape(s, i) {
                    Some((c, k)) => {
                        if i + 6 <= k {
                            lemma_parse_str_body_bounds(s, k);
                        }
                    },
                    None => {},
                }
            } else if i + 1 < s.len() {
                lemma_parse_str_body_bounds(s, i + 2);
            }
        } else if (s[i] as u32) < 32 {
        } else {
            lemma_parse_str_body_bounds(s, i + 1);
        }
    }
}

pub proof fn lemma_parse_value_bounds(s: Seq<char>, i: int)
    ensures
        match parse_value(s, i) {
            Some((v, k)) => i < k <= s.len(),
            None => true,
        },
    decreases s.len() - i, 3int,
{
    if 0 <= i <= s.len() {
        let j: int = i + ws_count(s, i);
        lemma_ws_count_bound(s, i);
        if j < s.len() {
            let c = s[j];
            if c == '"' {
                lemma_parse_str_body_bounds(s, j + 1);
            } else if c == '[' {
                let j2: int = j + 1 + ws_count(s, j + 1);
                if !(j2 < s.len() && s[j2] == ']') {
                    lemma_parse_elems_bounds(s, j + 1);
                }
            } else if c == '{' {
                let j2: int = j + 1 + ws_count(s, j + 1);
                if !(j2 < s.len() && s[j2] == '}') {
                    lemma_parse_members_bounds(s, j + 1);
                }
            } else if c == '-' || is_digit(c) {
                lemma_num_run_bound(s, j);
            }
        }
    }
}

pub proof fn lemma_parse_elems_bounds(s: Seq<char>, i: int)
    ensures
        match parse_elems(s, i) {
            Some((items, k)) => i < k <= s.len(),
            None => true,
        },
    decreases s.len() - i, 4int,
{
    if 0 <= i <= s.len() {
        lemma_parse_value_bounds(s, i);
        match parse_value(s, i) {
            Some((v, k)) => {
                if i < k <= s.len() {
                    let m: int = k + ws_count(s, k);
                    lemma_ws_count_bound(s, k);
                    if m < s.len() && s[m] == ',' {
                        lemma_parse_elems_bounds(s, m + 1);
                    }
                }
            },
            None => {},
        }
    }
}

pub proof fn lemma_parse_members_bounds(s: Seq<char>, i: int)
    ensures
        match parse_members(s, i) {
            Some((fields, k)) => i < k <= s.len(),
            None => true,
        },
    decreases s.len() - i, 4int,
{
    if 0 <= i <= s.len() {
        let j: int = i + ws_count(s, i);
        lemma_ws_count_bound(s, i);
        if j < s.len() && s[j] == '"' {
            lemma_parse_str_body_bounds(s, j + 1);
            match parse_str_body(s, j + 1) {
                Some((key, k)) => {
                    if j + 1 < k <= s.len() {
                        let m: int = k + ws_count(s, k);
                        lemma_ws_count_bound(s, k);
                        if m < s.len() && s[m] == ':' {
                            lemma_parse_value_bounds(s, m + 1);
                            match parse_value(s, m + 1) {
                                Some((v, k2)) => {
                                    if m < k2 <= s.len() {
                                        let m2: int = k2 + ws_count(s, k2);
                                        lemma_ws_count_bound(s, k2);
                                        if m2 < s.len() && s[m2] == ',' {
                                            lemma_parse_members_bounds(s, m2 + 1);
                                        }
                                    }
                                },
                                None => {},
                            }
                        }
                    }
                },
                None => {},
            }
        }
    }
}

// ---------------------------------------------------------------------------
// Well-formedness of everything the parser accepts
// ---------------------------------------------------------------------------
proof fn lemma_parse_value_wf(s: Seq<char>, i: int)
    ensures
        match parse_value(s, i) {
            Some((v, k)) => crate::codec::wf(v),
            None => true,
        },
    decreases s.len() - i, 3int,
{
    if 0 <= i <= s.len() {
        let j: int = i + ws_count(s, i);
        if j < s.len() {
            let c = s[j];
            if c == '[' {
                let j2: int = j + 1 + ws_count(s, j + 1);
                if j2 < s.len() && s[j2] == ']' {
                } else {
                    lemma_parse_elems_wf(s, j + 1);
                }
            } else if c == '{' {
                let j2: int = j + 1 + ws_count(s, j + 1);
                if j2 < s.len() && s[j2] == '}' {
                } else {
                    lemma_parse_members_wf(s, j + 1);
                }
            }
        }
    }
}

proof fn lemma_parse_elems_wf(s: Seq<char>, i: int)
    ensures
        match parse_elems(s, i) {
            Some((items, k)) => crate::codec::wf_arr(items),
            None => true,
        },
    decreases s.len() - i, 4int,
{
    if 0 <= i <= s.len() {
        lemma_parse_value_wf(s, i);
        match parse_value(s, i) {
            Some((v, k)) => {
                if i < k <= s.len() {
                    let m: int = k + ws_count(s, k);
                    if m < s.len() && s[m] == ']' {
                        assert(seq![v].drop_first() =~= Seq::<JsonV>::empty());
                        assert(seq![v][0] == v);
                        assert(crate::codec::wf_arr(Seq::<JsonV>::empty()));
                        assert(crate::codec::wf_arr(seq![v]));
                    } else if m < s.len() && s[m] == ',' {
                        lemma_parse_elems_wf(s, m + 1);
                        match parse_elems(s, m + 1) {
                            Some((rest, end)) => {
                                assert((seq![v] + rest)[0] == v);
                                assert((seq![v] + rest).drop_first() =~= rest);
                                assert(crate::codec::wf_arr(seq![v] + rest));
                            },
                            None => {},
                        }
                    }
                }
            },
            None => {},
        }
    }
}

proof fn lemma_parse_members_wf(s: Seq<char>, i: int)
    ensures
        match parse_members(s, i) {
            Some((fields, k)) => crate::codec::wf_obj(fields),
            None => true,
        },
    decreases s.len() - i, 4int,
{
    if 0 <= i <= s.len() {
        let j: int = i + ws_count(s, i);
        if j < s.len() && s[j] == '"' {
            match parse_str_body(s, j + 1) {
                Some((key, k)) => {
                    if j + 1 < k <= s.len() {
                        let m: int = k + ws_count(s, k);
                        if m < s.len() && s[m] == ':' {
                            lemma_parse_value_wf(s, m + 1);
                            match parse_value(s, m + 1) {
                                Some((v, k2)) => {
                                    if m < k2 <= s.len() {
                                        let m2: int = k2 + ws_count(s, k2);
                                        if m2 < s.len() && s[m2] == '}' {
                                            assert(seq![(key, v)].drop_first()
                                                =~= Seq::<(Seq<char>, JsonV)>::empty());
                                            assert(seq![(key, v)][0] == (key, v));
                                            assert(crate::codec::wf_obj(
                                                Seq::<(Seq<char>, JsonV)>::empty(),
                                            ));
                                            assert(crate::codec::wf_obj(seq![(key, v)]));
                                        } else if m2 < s.len() && s[m2] == ',' {
                                            lemma_parse_members_wf(s, m2 + 1);
                                            match parse_members(s, m2 + 1) {
                                                Some((rest, end)) => {
                                                    assert((seq![(key, v)] + rest)[0] == (
                                                    key,
                                                    v,
                                                    ));
                                                    assert((seq![(key, v)]
                                                        + rest).drop_first() =~= rest);
                                                    assert(crate::codec::wf_obj(
                                                        seq![(key, v)] + rest,
                                                    ));
                                                },
                                                None => {},
                                            }
                                        }
                                    }
                                },
                                None => {},
                            }
                        }
                    }
                },
                None => {},
            }
        }
    }
}

/// Everything the decoder accepts is well formed, so a decoded envelope can
/// be re-encoded and read back unchanged.
pub proof fn lemma_json_doc_wf(s: Seq<char>)
    ensures
        match json_doc(s) {
            Some(v) => crate::codec::wf(v),
            None => true,
        },
{
    lemma_parse_value_wf(s, 0);
}

// ---------------------------------------------------------------------------
// Executable scanners
// ---------------------------------------------------------------------------
fn is_ws_x(c: char) -> (r: bool)
    ensures
        r == is_ws(c),
{
    c == ' ' || c == '\t' || c == '\n' || c == '\r'
}

fn is_digit_x(c: char) -> (r: bool)
    ensures
        r == is_digit(c),
{
    let u = c as u32;
    48 <= u && u <= 57
}

fn is_num_char_x(c: char) -> (r: bool)
    ensures
        r == is_num_char(c),
{
    is_digit_x(c) || c == '-' || c == '+' || c == '.' || c == 'e' || c == 'E'
}

#[verifier::loop_isolation(false)]
pub(crate) fn ws_count_x(s: &Vec<char>, i: usize) -> (n: usize)
    requires
        i <= s@.len(),
    ensures
        n == ws_count(s@, i as int),
        i + n <= s@.len(),
        s@.len() <= usize::MAX,
{
    let mut cur: usize = i;
    while cur < s.len() && is_ws_x(s[cur])
        invariant
            i <= cur <= s@.len(),
            ws_count(s@, i as int) == cur - i + ws_count(s@, cur as int),
        decreases s@.len() - cur,
    {
        cur = cur + 1;
    }
    cur - i
}

#[verifier::loop_isolation(false)]
fn num_run_x(s: &Vec<char>, i: usize) -> (n: usize)
    requires
        i <= s@.len(),
    ensures
        n == num_run(s@, i as int),
        i + n <= s@.len(),
        s@.len() <= usize::MAX,
{
    let mut cur: usize = i;
    while cur < s.len() && is_num_char_x(s[cur])
        invariant
            i <= cur <= s@.len(),
            num_run(s@, i as int) == cur - i + num_run(s@, cur as int),
        decreases s@.len() - cur,
    {
        cur = cur + 1;
    }
    cur - i
}

#[verifier::loop_isolation(false)]
fn digit_run_x(s: &Vec<char>, i: usize) -> (n: usize)
    requires
        i <= s@.len(),
    ensures
        n == digit_run(s@, i as int),
        i + n <= s@.len(),
        s@.len() <= usize::MAX,
{
    let mut cur: usize = i;
    while cur < s.len() && is_digit_x(s[cur])
        invariant
            i <= cur <= s@.len(),
            digit_run(s@, i as int) == cur - i + digit_run(s@, cur as int),
        decreases s@.len() - cur,
    {
        cur = cur + 1;
    }
    cur - i
}

/// The characters of `s` between two positions, as a fresh vector.
#[verifier::loop_isolation(false)]
fn sub_chars(s: &Vec<char>, a: usize, b: usize) -> (out: Vec<char>)
    requires
        a <= b <= s@.len(),
    ensures
        out@ == s@.subrange(a as int, b as int),
{
    let mut out: Vec<char> = Vec::new();
    let mut cur: usize = a;
    while cur < b
        invariant
            a <= cur <= b,
            out@ == s@.subrange(a as int, cur as int),
        decreases b - cur,
    {
        out.push(s[cur]);
        proof {
            assert(s@.subrange(a as int, cur as int).push(s@[cur as int]) =~= s@.subrange(
                a as int,
                cur + 1 as int,
            ));
        }
        cur = cur + 1;
    }
    out
}

/// Whether the characters form exactly one JSON number literal.
fn is_number_lit_x(l: &Vec<char>) -> (r: bool)
    ensures
        r == is_number_lit(l@),
{
    let i0: usize = if l.len() > 0 && l[0] == '-' {
        1
    } else {
        0
    };
    let d = digit_run_x(l, i0);
    if d == 0 {
        return false;
    }
    if l[i0] == '0' && d != 1 {
        return false;
    }
    let i1: usize = i0 + d;
    let i2: usize;
    if i1 < l.len() && l[i1] == '.' {
        let d2 = digit_run_x(l, i1 + 1);
        if d2 == 0 {
            return false;
        }
        i2 = i1 + 1 + d2;
    } else {
        i2 = i1;
    }
    let i3: usize;
    if i2 < l.len() && (l[i2] == 'e' || l[i2] == 'E') {
        let j: usize = if i2 + 1 < l.len() && (l[i2 + 1] == '+' || l[i2 + 1] == '-') {
            i2 + 2
        } else {
            i2 + 1
        };
        let d3 = digit_run_x(l, j);
        if d3 == 0 {
            return false;
        }
        i3 = j + d3;
    } else {
        i3 = i2;
    }
    i3 == l.len()
}

// ---------------------------------------------------------------------------
// Escapes
// ---------------------------------------------------------------------------
/// Relies on char::from_u32 of the standard library: it returns `Some` exactly
/// on Unicode scalar values, holding the character with that code.
#[verifier::external_body]
fn char_from_u32(u: u32) -> (r: Option<char>)
    ensures
        r == if u < 0xD800 || (0xE000 <= u && u < 0x110000) {
            Some(u as char)
        } else {
            None::<char>
        },
{
    char::from_u32(u)
}

fn hex_val_x(c: char) -> (r: Option<u32>)
    ensures
        match r {
            Some(u) => hex_val(c) == Some(u as int) && u < 16,
            None => hex_val(c) is None,
        },
{
    let u = c as u32;
    if 48 <= u && u <= 57 {
        Some(u - 48)
    } else if c == 'a' || c == 'A' {
        Some(10)
    } else if c == 'b' || c == 'B' {
        Some(11)
    } else if c == 'c' || c == 'C' {
        Some(12)
    } else if c == 'd' || c == 'D' {
        Some(13)
    } else if c == 'e' || c == 'E' {
        Some(14)
    } else if c == 'f' || c == 'F' {
        Some(15)
    } else {
        None
    }
}

fn hex4_x(s: &Vec<char>, i: usize) -> (r: Option<u32>)
    requires
        i <= s@.len(),
    ensures
        match r {
            Some(u) => hex4(s@, i as int) == Some(u as int) && u < 0x10000,
            None => hex4(s@, i as int) is None,
        },
{
    if s.len() - i < 4 {
        return None;
    }
    let a = hex_val_x(s[i]);
    let b = hex_val_x(s[i + 1]);
    let c = hex_val_x(s[i + 2]);
    let d = hex_val_x(s[i + 3]);
    match (a, b, c, d) {
        (Some(a), Some(b), Some(c), Some(d)) => Some(4096 * a + 256 * b + 16 * c + d),
        _ => None,
    }
}

fn unescape_x(e: char) -> (r: Option<char>)
    ensures
        r == unescape(e),
{
    if e == '"' {
        Some('"')
    } else if e == '\\' {
        Some('\\')
    } else if e == '/' {
        Some('/')
    } else if e == 'b' {
        Some('\u{8}')
    } else if e == 'f' {
        Some('\u{c}')
    } else if e == 'n' {
        Some('\n')
    } else if e == 'r' {
        Some('\r')
    } else if e == 't' {
        Some('\t')
    } else {
        None
    }
}

fn parse_u_escape_x(s: &Vec<char>, i: usize) -> (r: Option<(char, usize)>)
    requires
        i <= s@.len(),
    ensures
        match r {
            Some((c, k)) => parse_u_escape(s@, i as int) == Some((c, k as int)) && i + 6 <= k
                <= s@.len(),
            None => parse_u_escape(s@, i as int) is None,
        },
{
    if s.len() - i < 6 {
        return None;
    }
    match hex4_x(s, i + 2) {
        Some(h) => {
            if 0xD800 <= h && h < 0xDC00 {
                if s.len() - i >= 12 && s[i + 6] == '\\' && s[i + 7] == 'u' {
                    match hex4_x(s, i + 8) {
                        Some(lo) => {
                            if 0xDC00 <= lo && lo < 0xE000 {
                                let u: u32 = 0x10000 + (h - 0xD800) * 0x400 + (lo - 0xDC00);
                                match char_from_u32(u) {
                                    Some(c) => Some((c, i + 12)),
                                    None => {
                                        proof {
                                            assert(false);
                                        }
                                        None
                                    },
                                }
                            } else {
                                None
                            }
                        },
                        None => None,
                    }
                } else {
                    None
                }
            } else if 0xDC00 <= h && h < 0xE000 {
                None
            } else {
                match char_from_u32(h) {
                    Some(c) => Some((c, i + 6)),
                    None => {
                        proof {
                            assert(false);
                        }
                        None
                    },
                }
            }
        },
        None => None,
    }
}

/// The body of a string literal, from just after the opening quote through
/// the closing quote.
#[verifier::loop_isolation(false)]
fn parse_str_body_x(s: &Vec<char>, i: usize) -> (r: Option<(Vec<char>, usize)>)
    requires
        i <= s@.len(),
    ensures
        match r {
            Some((cs, k)) => parse_str_body(s@, i as int) == Some((cs@, k as int)) && i < k
                <= s@.len(),
            None => parse_str_body(s@, i as int) is None,
        },
{
    let mut acc: Vec<char> = Vec::new();
    let mut cur: usize = i;
    loop
        invariant
            i <= cur <= s@.len(),
            match parse_str_body(s@, cur as int) {
                Some((rest, end)) => parse_str_body(s@, i as int) == Some((acc@ + rest, end)),
                None => parse_str_body(s@, i as int) is None,
            },
        decreases s@.len() - cur,
    {
        if cur >= s.len() {
            return None;
        }
        let c = s[cur];
        if c == '"' {
            proof {
                lemma_parse_str_body_bounds(s@, i as int);
                assert(acc@ + Seq::<char>::empty() =~= acc@);
            }
            return Some((acc, cur + 1));
        } else if c == '\\' {
            if cur + 1 < s.len() && s[cur + 1] == 'u' {
                match parse_u_escape_x(s, cur) {
                    Some((ch, k)) => {
                        proof {
                            match parse_str_body(s@, k as int) {
                                Some((rest2, end)) => {
                                    assert(acc@ + (seq![ch] + rest2) =~= acc@.push(ch) + rest2);
                                },
                                None => {},
                            }
                        }
                        acc.push(ch);
                        cur = k;
                    },
                    None => {
                        return None;
                    },
                }
            } else if cur + 1 < s.len() {
                match unescape_x(s[cur + 1]) {
                    Some(ch) => {
                        proof {
                            match parse_str_body(s@, cur + 2 as int) {
                                Some((rest2, end)) => {
                                    assert(acc@ + (seq![ch] + rest2) =~= acc@.push(ch) + rest2);
                                },
                                None => {},
                            }
                        }
                        acc.push(ch);
                        cur = cur + 2;
                    },
                    None => {
                        return None;
                    },
                }
            } else {
                return None;
            }
        } else if (c as u32) < 32 {
            return None;
        } else {
            proof {
                match parse_str_body(s@, cur + 1 as int) {
                    Some((rest2, end)) => {
                        assert(acc@ + (seq![c] + rest2) =~= acc@.push(c) + rest2);
                    },
                    None => {},
                }
            }
            acc.push(c);
            cur = cur + 1;
        }
    }
}

// ---------------------------------------------------------------------------
// Values
// ---------------------------------------------------------------------------
/// One JSON value at position `i`, after optional whitespace.
#[verifier::rlimit(60)]
fn parse_value_x(s: &Vec<char>, i: usize) -> (r: Option<(Json, usize)>)
    requires
        i <= s@.len(),
    ensures
        match r {
            Some((v, k)) => parse_value(s@, i as int) == Some((v@, k as int)) && i < k <= s@.len(),
            None => parse_value(s@, i as int) is None,
        },
    decreases s@.len() - i, 3int,
{
    proof {
        lemma_parse_value_bounds(s@, i as int);
    }
    let j = i + ws_count_x(s, i);
    if j >= s.len() {
        return None;
    }
    let c = s[j];
    if c == 'n' {
        if s.len() - j >= 4 && s[j + 1] == 'u' && s[j + 2] == 'l' && s[j + 3] == 'l' {
            proof {
                assert(s@.subrange(j as int, j + 4 as int) =~= seq!['n', 'u', 'l', 'l']);
            }
            Some((Json::Null, j + 4))
        } else {
            proof {
                if s@.len() - j >= 4 {
                    assert(s@.subrange(j as int, j + 4 as int)[1] == s@[j + 1]);
                    assert(s@.subrange(j as int, j + 4 as int)[2] == s@[j + 2]);
                    assert(s@.subrange(j as int, j + 4 as int)[3] == s@[j + 3]);
                }
            }
            None
        }
    } else if c == 't' {
        if s.len() - j >= 4 && s[j + 1] == 'r' && s[j + 2] == 'u' && s[j + 3] == 'e' {
            proof {
                assert(s@.subrange(j as int, j + 4 as int) =~= seq!['t', 'r', 'u', 'e']);
            }
            Some((Json::Bool(true), j + 4))
        } else {
            proof {
                if s@.len() - j >= 4 {
                    assert(s@.subrange(j as int, j + 4 as int)[1] == s@[j + 1]);
                    assert(s@.subrange(j as int, j + 4 as int)[2] == s@[j + 2]);
                    assert(s@.subrange(j as int, j + 4 as int)[3] == s@[j + 3]);
                }
            }
            None
        }
    } else if c == 'f' {
        if s.len() - j >= 5 && s[j + 1] == 'a' && s[j + 2] == 'l' && s[j + 3] == 's' && s[j + 4]
            == 'e' {
            proof {
                assert(s@.subrange(j as int, j + 5 as int) =~= seq!['f', 'a', 'l', 's', 'e']);
            }
            Some((Json::Bool(false), j + 5))
        } else {
            proof {
                if s@.len() - j >= 5 {
                    assert(s@.subrange(j as int, j + 5 as int)[1] == s@[j + 1]);
                    assert(s@.subrange(j as int, j + 5 as int)[2] == s@[j + 2]);
                    assert(s@.subrange(j as int, j + 5 as int)[3] == s@[j + 3]);
                    assert(s@.subrange(j as int, j + 5 as int)[4] == s@[j + 4]);
                }
            }
            None
        }
    } else if c == '"' {
        match parse_str_body_x(s, j + 1) {
            Some((cs, k)) => Some((Json::Str(cs), k)),
            None => None,
        }
    } else if c == '[' {
        let j2 = j + 1 + ws_count_x(s, j + 1);
        if j2 < s.len() && s[j2] == ']' {
            let none_yet: Vec<Json> = Vec::new();
            proof {
                assert(jval_arr(none_yet@) =~= Seq::empty());
            }
            Some((Json::Arr(none_yet), j2 + 1))
        } else {
            match parse_elems_x(s, j + 1) {
                Some((items, k)) => Some((Json::Arr(items), k)),
                None => None,
            }
        }
    } else if c == '{' {
        let j2 = j + 1 + ws_count_x(s, j + 1);
        if j2 < s.len() && s[j2] == '}' {
            let none_yet: Vec<(Vec<char>, Json)> = Vec::new();
            proof {
                assert(jval_obj(none_yet@) =~= Seq::empty());
            }
            Some((Json::Obj(none_yet), j2 + 1))
        } else {
            match parse_members_x(s, j + 1) {
                Some((fields, k)) => Some((Json::Obj(fields), k)),
                None => None,
            }
        }
    } else if c == '-' || is_digit_x(c) {
        let n = num_run_x(s, j);
        let lit = sub_chars(s, j, j + n);
        if is_number_lit_x(&lit) {
            Some((Json::Num(lit), j + n))
        } else {
            None
        }
    } else {
        None
    }
}

/// The elements of a non-empty array, from just after `[` through `]`.
#[verifier::loop_isolation(false)]
fn parse_elems_x(s: &Vec<char>, i: usize) -> (r: Option<(Vec<Json>, usize)>)
    requires
        i <= s@.len(),
    ensures
        match r {
            Some((items, k)) => parse_elems(s@, i as int) == Some((jval_arr(items@), k as int))
                && i < k <= s@.len(),
            None => parse_elems(s@, i as int) is None,
        },
    decreases s@.len() - i, 4int,
{
    let mut items: Vec<Json> = Vec::new();
    let mut cur: usize = i;
    loop
        invariant
            i <= cur <= s@.len(),
            match parse_elems(s@, cur as int) {
                Some((rest, end)) => parse_elems(s@, i as int) == Some((
                    jval_arr(items@) + rest,
                    end,
                )),
                None => parse_elems(s@, i as int) is None,
            },
        decreases s@.len() - cur,
    {
        let v = match parse_value_x(s, cur) {
            Some((v, k)) => {
                let m = k + ws_count_x(s, k);
                if m >= s.len() {
                    return None;
                }
                if s[m] == ']' {
                    proof {
                        lemma_parse_elems_bounds(s@, i as int);
                        lemma_jval_arr_snoc(items@, v);
                        assert(jval_arr(items@) + seq![v@] =~= jval_arr(items@).push(v@));
                        assert(jval_arr(items@.push(v)) == jval_arr(items@) + seq![v@]);
                    }
                    items.push(v);
                    return Some((items, m + 1));
                } else if s[m] == ',' {
                    proof {
                        lemma_jval_arr_snoc(items@, v);
                        match parse_elems(s@, m + 1 as int) {
                            Some((rest2, end)) => {
                                assert(jval_arr(items@) + (seq![v@] + rest2) =~= jval_arr(
                                    items@.push(v),
                                ) + rest2);
                            },
                            None => {},
                        }
                    }
                    items.push(v);
                    cur = m + 1;
                } else {
                    return None;
                }
            },
            None => {
                return None;
            },
        };
    }
}

/// The members of a non-empty object, from just after `{` through `}`.
#[verifier::loop_isolation(false)]
fn parse_members_x(s: &Vec<char>, i: usize) -> (r: Option<(Vec<(Vec<char>, Json)>, usize)>)
    requires
        i <= s@.len(),
    ensures
        match r {
            Some((fields, k)) => parse_members(s@, i as int) == Some((
                jval_obj(fields@),
                k as int,
            )) && i < k <= s@.len(),
            None => parse_members(s@, i as int) is None,
        },
    decreases s@.len() - i, 4int,
{
    let mut fields: Vec<(Vec<char>, Json)> = Vec::new();
    let mut cur: usize = i;
    loop
        invariant
            i <= cur <= s@.len(),
            match parse_members(s@, cur as int) {
                Some((rest, end)) => parse_members(s@, i as int) == Some((
                    jval_obj(fields@) + rest,
                    end,
                )),
                None => parse_members(s@, i as int) is None,
            },
        decreases s@.len() - cur,
    {
        let j = cur + ws_count_x(s, cur);
        if j >= s.len() {
            return None;
        }
        if s[j] != '"' {
            return None;
        }
        let key = match parse_str_body_x(s, j + 1) {
            Some((key, k)) => {
                let m = k + ws_count_x(s, k);
                if m >= s.len() {
                    return None;
                }
                if s[m] != ':' {
                    return None;
                }
                match parse_value_x(s, m + 1) {
                    Some((v, k2)) => {
                        let m2 = k2 + ws_count_x(s, k2);
                        if m2 >= s.len() {
                            return None;
                        }
                        if s[m2] == '}' {
                            proof {
                                lemma_parse_members_bounds(s@, i as int);
                                lemma_jval_obj_snoc(fields@, (key, v));
                                assert(jval_obj(fields@) + seq![(key@, v@)] =~= jval_obj(
                                    fields@,
                                ).push((key@, v@)));
                            }
                            fields.push((key, v));
                            return Some((fields, m2 + 1));
                        } else if s[m2] == ',' {
                            proof {
                                lemma_jval_obj_snoc(fields@, (key, v));
                                match parse_members(s@, m2 + 1 as int) {
                                    Some((rest2, end)) => {
                                        assert(jval_obj(fields@) + (seq![(key@, v@)] + rest2)
                                            =~= jval_obj(fields@.push((key, v))) + rest2);
                                    },
                                    None => {},
                                }
                            }
                            fields.push((key, v));
                            cur = m2 + 1;
                        } else {
                            return None;
                        }
                    },
                    None => {
                        return None;
                    },
                }
            },
            None => {
                return None;
            },
        };
    }
}

/// Reads one protocol line. The result is the line's JSON document; a line
/// that is not exactly one document (with optional surrounding whitespace)
/// has none.
pub fn decode_line(line: &Vec<char>) -> (r: Option<Json>)
    ensures
        match r {
            Some(j) => json_doc(line@) == Some(j@) && crate::codec::wf(j@),
            None => json_doc(line@) is None,
        },
{
    proof {
        lemma_json_doc_wf(line@);
    }
    match parse_value_x(line, 0) {
        Some((v, k)) => {
            let w = ws_count_x(line, k);
            if k + w == line.len() {
                Some(v)
            } else {
                None
            }
        },
        None => None,
    }
}

} // verus!
