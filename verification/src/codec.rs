//! The transport codec's mathematical definition.
//!
//! One protocol message is one line of JSON. This module defines, at the
//! specification level, how a `JsonV` value is written as characters and how a
//! sequence of characters is read back as a value. The executable encoder and
//! decoder are proved against these definitions, and the round-trip law is
//! proved from them alone.

use vstd::prelude::*;

use crate::json::JsonV;

verus! {

/// Whitespace between JSON tokens.
pub open spec fn is_ws(c: char) -> bool {
    c == ' ' || c == '\t' || c == '\n' || c == '\r'
}

pub open spec fn is_digit(c: char) -> bool {
    48 <= (c as u32) && (c as u32) <= 57
}

/// A character that can occur in a number literal.
pub open spec fn is_num_char(c: char) -> bool {
    is_digit(c) || c == '-' || c == '+' || c == '.' || c == 'e' || c == 'E'
}

/// The lower-case hexadecimal digit for a value below sixteen.
pub open spec fn hex_digit(d: int) -> char {
    if d == 0 {
        '0'
    } else if d == 1 {
        '1'
    } else if d == 2 {
        '2'
    } else if d == 3 {
        '3'
    } else if d == 4 {
        '4'
    } else if d == 5 {
        '5'
    } else if d == 6 {
        '6'
    } else if d == 7 {
        '7'
    } else if d == 8 {
        '8'
    } else if d == 9 {
        '9'
    } else if d == 10 {
        'a'
    } else if d == 11 {
        'b'
    } else if d == 12 {
        'c'
    } else if d == 13 {
        'd'
    } else if d == 14 {
        'e'
    } else {
        'f'
    }
}

/// The value of a hexadecimal digit, upper or lower case.
pub open spec fn hex_val(c: char) -> Option<int> {
    if is_digit(c) {
        Some((c as u32) - 48)
    } else if c == 'a' || c == 'A' {
        Some(10int)
    } else if c == 'b' || c == 'B' {
        Some(11int)
    } else if c == 'c' || c == 'C' {
        Some(12int)
    } else if c == 'd' || c == 'D' {
        Some(13int)
    } else if c == 'e' || c == 'E' {
        Some(14int)
    } else if c == 'f' || c == 'F' {
        Some(15int)
    } else {
        None
    }
}

// ---------------------------------------------------------------------------
// Number literals
// ---------------------------------------------------------------------------
/// How many decimal digits stand at position `i`.
pub open spec fn digit_run(l: Seq<char>, i: int) -> nat
    decreases l.len() - i,
{
    if 0 <= i < l.len() && is_digit(l[i]) {
        (1 + digit_run(l, i + 1)) as nat
    } else {
        0
    }
}

/// The position after an optional fraction part starting at `i`.
pub open spec fn after_frac(l: Seq<char>, i: int) -> Option<int> {
    if 0 <= i < l.len() && l[i] == '.' {
        let d = digit_run(l, i + 1);
        if d == 0 {
            None
        } else {
            Some(i + 1 + d)
        }
    } else {
        Some(i)
    }
}

/// The position after an optional exponent part starting at `i`.
pub open spec fn after_exp(l: Seq<char>, i: int) -> Option<int> {
    if 0 <= i < l.len() && (l[i] == 'e' || l[i] == 'E') {
        let j: int = if i + 1 < l.len() && (l[i + 1] == '+' || l[i + 1] == '-') {
            i + 2
        } else {
            i + 1
        };
        let d = digit_run(l, j);
        if d == 0 {
            None
        } else {
            Some(j + d)
        }
    } else {
        Some(i)
    }
}

/// Whether the characters form exactly one JSON number literal.
pub open spec fn is_number_lit(l: Seq<char>) -> bool {
    let i0: int = if l.len() > 0 && l[0] == '-' {
        1
    } else {
        0
    };
    let d = digit_run(l, i0);
    &&& d > 0
    &&& (l[i0] != '0' || d == 1)
    &&& match after_frac(l, i0 + d) {
        Some(i2) => match after_exp(l, i2) {
            Some(i3) => i3 == l.len(),
            None => false,
        },
        None => false,
    }
}

// ---------------------------------------------------------------------------
// Encoding
// ---------------------------------------------------------------------------
/// How one character is written inside a string literal.
pub open spec fn esc_char(c: char) -> Seq<char> {
    if c == '"' {
        seq!['\\', '"']
    } else if c == '\\' {
        seq!['\\', '\\']
    } else if c == '\u{8}' {
        seq!['\\', 'b']
    } else if c == '\u{c}' {
        seq!['\\', 'f']
    } else if c == '\n' {
        seq!['\\', 'n']
    } else if c == '\r' {
        seq!['\\', 'r']
    } else if c == '\t' {
        seq!['\\', 't']
    } else if (c as u32) < 32 {
        seq!['\\', 'u', '0', '0', hex_digit((c as u32) as int / 16), hex_digit((c as u32) as int % 16)]
    } else {
        seq![c]
    }
}

/// The body of a string literal, between the quotes.
pub open spec fn enc_str_body(s: Seq<char>) -> Seq<char>
    decreases s.len(),
{
    if s.len() == 0 {
        Seq::empty()
    } else {
        esc_char(s[0]) + enc_str_body(s.drop_first())
    }
}

/// How one value is written: compact JSON, no whitespace between tokens.
pub open spec fn enc(v: JsonV) -> Seq<char>
    decreases v, 1int,
{
    match v {
        JsonV::Null => seq!['n', 'u', 'l', 'l'],
        JsonV::Bool(b) => if b {
            seq!['t', 'r', 'u', 'e']
        } else {
            seq!['f', 'a', 'l', 's', 'e']
        },
        JsonV::Num(lit) => lit,
        JsonV::Str(s) => seq!['"'] + enc_str_body(s) + seq!['"'],
        JsonV::Arr(items) => seq!['['] + enc_elems(items) + seq![']'],
        JsonV::Obj(fields) => seq!['{'] + enc_members(fields) + seq!['}'],
    }
}

/// Array elements, separated by commas.
pub open spec fn enc_elems(items: Seq<JsonV>) -> Seq<char>
    decreases items, 0int,
{
    if items.len() == 0 {
        Seq::empty()
    } else if items.len() == 1 {
        enc(items[0])
    } else {
        enc(items[0]) + seq![','] + enc_elems(items.drop_first())
    }
}

/// One object member: quoted name, colon, value.
pub open spec fn enc_member(f: (Seq<char>, JsonV)) -> Seq<char>
    decreases f, 1int,
{
    seq!['"'] + enc_str_body(f.0) + seq!['"', ':'] + enc(f.1)
}

/// Object members, separated by commas.
pub open spec fn enc_members(fields: Seq<(Seq<char>, JsonV)>) -> Seq<char>
    decreases fields, 0int,
{
    if fields.len() == 0 {
        Seq::empty()
    } else if fields.len() == 1 {
        enc_member(fields[0])
    } else {
        enc_member(fields[0]) + seq![','] + enc_members(fields.drop_first())
    }
}

/// A value whose number literals are all well formed; encoding such a value
/// yields a document that reads back as the same value.
pub open spec fn wf(v: JsonV) -> bool
    decreases v, 1int,
{
    match v {
        JsonV::Null => true,
        JsonV::Bool(_) => true,
        JsonV::Num(lit) => is_number_lit(lit),
        JsonV::Str(_) => true,
        JsonV::Arr(items) => wf_arr(items),
        JsonV::Obj(fields) => wf_obj(fields),
    }
}

pub open spec fn wf_arr(items: Seq<JsonV>) -> bool
    decreases items, 0int,
{
    if items.len() == 0 {
        true
    } else {
        wf(items[0]) && wf_arr(items.drop_first())
    }
}

pub open spec fn wf_obj(fields: Seq<(Seq<char>, JsonV)>) -> bool
    decreases fields, 0int,
{
    if fields.len() == 0 {
        true
    } else {
        wf(fields[0].1) && wf_obj(fields.drop_first())
    }
}

pub proof fn lemma_wf_obj_pointwise(fields: Seq<(Seq<char>, JsonV)>)
    requires
        forall|k: int| 0 <= k < fields.len() ==> wf(#[trigger] fields[k].1),
    ensures
        wf_obj(fields),
    decreases fields.len(),
{
    if fields.len() > 0 {
        assert(forall|k: int|
            0 <= k < fields.drop_first().len() ==> #[trigger] fields.drop_first()[k] == fields[k
                + 1]);
        lemma_wf_obj_pointwise(fields.drop_first());
    }
}

// ---------------------------------------------------------------------------
// Parsing
// ---------------------------------------------------------------------------
/// How many whitespace characters stand at position `i`.
pub open spec fn ws_count(s: Seq<char>, i: int) -> nat
    decreases s.len() - i,
{
    if 0 <= i < s.len() && is_ws(s[i]) {
        (1 + ws_count(s, i + 1)) as nat
    } else {
        0
    }
}

/// How many number-literal characters stand at position `i`.
pub open spec fn num_run(s: Seq<char>, i: int) -> nat
    decreases s.len() - i,
{
    if 0 <= i < s.len() && is_num_char(s[i]) {
        (1 + num_run(s, i + 1)) as nat
    } else {
        0
    }
}

/// The character a short escape stands for.
pub open spec fn unescape(e: char) -> Option<char> {
    if e == '"' {
        Some('"')
    } else if e == '\\' {
        Some('\\')
    } else if e == '/' {
        Some('/')
    } else if e == 'b' {
        Some('\u{8}')
    } else if e == 'f' {
        Some('\u{c}')
    } else if e == 'n' {
        Some('\n')
    } else if e == 'r' {
        Some('\r')
    } else if e == 't' {
        Some('\t')
    } else {
        None
    }
}

/// The value of four hexadecimal digits at position `i`.
pub open spec fn hex4(s: Seq<char>, i: int) -> Option<int> {
    if 0 <= i && i + 4 <= s.len() {
        match (hex_val(s[i]), hex_val(s[i + 1]), hex_val(s[i + 2]), hex_val(s[i + 3])) {
            (Some(a), Some(b), Some(c), Some(d)) => Some(4096 * a + 256 * b + 16 * c + d),
            _ => None,
        }
    } else {
        None
    }
}

/// A unicode escape at position `i` (which points at the `\`): the character
/// it stands for and the position after it. A high surrogate must be followed
/// by a low surrogate escape; the pair stands for one character.
pub open spec fn parse_u_escape(s: Seq<char>, i: int) -> Option<(char, int)> {
    match hex4(s, i + 2) {
        Some(h) => if 0xD800 <= h < 0xDC00 {
            if i + 12 <= s.len() && s[i + 6] == '\\' && s[i + 7] == 'u' {
                match hex4(s, i + 8) {
                    Some(lo) => if 0xDC00 <= lo < 0xE000 {
                        Some(
                            (
                                (0x10000 + (h - 0xD800) * 0x400 + (lo - 0xDC00)) as u32 as char,
                                i + 12,
                            ),
                        )
                    } else {
                        None
                    },
                    None => None,
                }
            } else {
                None
            }
        } else if 0xDC00 <= h < 0xE000 {
            None
        } else {
            Some((h as u32 as char, i + 6))
        },
        None => None,
    }
}

/// The body of a string literal from position `i` (just after the opening
/// quote) to its closing quote: the characters it stands for and the position
/// after the closing quote.
pub open spec fn parse_str_body(s: Seq<char>, i: int) -> Option<(Seq<char>, int)>
    decreases s.len() - i,
{
    if !(0 <= i < s.len()) {
        None
    } else if s[i] == '"' {
        Some((Seq::empty(), i + 1))
    } else if s[i] == '\\' {
        if i + 1 < s.len() && s[i + 1] == 'u' {
            match parse_u_escape(s, i) {
                Some((c, k)) => if i + 6 <= k {
                    match parse_str_body(s, k) {
                        Some((rest, end)) => Some((seq![c] + rest, end)),
                        None => None,
                    }
                } else {
                    None
                },
                None => None,
            }
        } else if i + 1 < s.len() {
            match unescape(s[i + 1]) {
                Some(c) => match parse_str_body(s, i + 2) {
                    Some((rest, end)) => Some((seq![c] + rest, end)),
                    None => None,
                },
                None => None,
            }
        } else {
            None
        }
    } else if (s[i] as u32) < 32 {
        None
    } else {
        match parse_str_body(s, i + 1) {
            Some((rest, end)) => Some((seq![s[i]] + rest, end)),
            None => None,
        }
    }
}

/// One JSON value at position `i`, after optional whitespace: the value and
/// the position just after it.
pub open spec fn parse_value(s: Seq<char>, i: int) -> Option<(JsonV, int)>
    decreases s.len() - i, 3int,
{
    if !(0 <= i <= s.len()) {
        None
    } else {
        let j: int = i + ws_count(s, i);
        if j >= s.len() {
            None
        } else {
            let c = s[j];
            if c == 'n' {
                if j + 4 <= s.len() && s.subrange(j, j + 4) == seq!['n', 'u', 'l', 'l'] {
                    Some((JsonV::Null, j + 4))
                } else {
                    None
                }
            } else if c == 't' {
                if j + 4 <= s.len() && s.subrange(j, j + 4) == seq!['t', 'r', 'u', 'e'] {
                    Some((JsonV::Bool(true), j + 4))
                } else {
                    None
                }
            } else if c == 'f' {
                if j + 5 <= s.len() && s.subrange(j, j + 5) == seq!['f', 'a', 'l', 's', 'e'] {
                    Some((JsonV::Bool(false), j + 5))
                } else {
                    None
                }
            } else if c == '"' {
                match parse_str_body(s, j + 1) {
                    Some((cs, k)) => Some((JsonV::Str(cs), k)),
                    None => None,
                }
            } else if c == '[' {
                let j2: int = j + 1 + ws_count(s, j + 1);
                if j2 < s.len() && s[j2] == ']' {
                    Some((JsonV::Arr(Seq::empty()), j2 + 1))
                } else {
                    match parse_elems(s, j + 1) {
                        Some((items, k)) => Some((JsonV::Arr(items), k)),
                        None => None,
                    }
                }
            } else if c == '{' {
                let j2: int = j + 1 + ws_count(s, j + 1);
                if j2 < s.len() && s[j2] == '}' {
                    Some((JsonV::Obj(Seq::empty()), j2 + 1))
                } else {
                    match parse_members(s, j + 1) {
                        Some((fields, k)) => Some((JsonV::Obj(fields), k)),
                        None => None,
                    }
                }
            } else if c == '-' || is_digit(c) {
                let n = num_run(s, j);
                let lit = s.subrange(j, j + n);
                if is_number_lit(lit) {
                    Some((JsonV::Num(lit), j + n))
                } else {
                    None
                }
            } else {
                None
            }
        }
    }
}

/// The elements of a non-empty array from position `i` (just after `[` or a
/// comma) through the closing bracket.
pub open spec fn parse_elems(s: Seq<char>, i: int) -> Option<(Seq<JsonV>, int)>
    decreases s.len() - i, 4int,
{
    if !(0 <= i <= s.len()) {
        None
    } else {
        match parse_value(s, i) {
            Some((v, k)) => if !(i < k <= s.len()) {
                None
            } else {
                let m: int = k + ws_count(s, k);
                if m >= s.len() {
                    None
                } else if s[m] == ']' {
                    Some((seq![v], m + 1))
                } else if s[m] == ',' {
                    match parse_elems(s, m + 1) {
                        Some((rest, end)) => Some((seq![v] + rest, end)),
                        None => None,
                    }
                } else {
                    None
                }
            },
            None => None,
        }
    }
}

/// The members of a non-empty object from position `i` (just after `{` or a
/// comma) through the closing brace.
pub open spec fn parse_members(s: Seq<char>, i: int) -> Option<(Seq<(Seq<char>, JsonV)>, int)>
    decreases s.len() - i, 4int,
{
    if !(0 <= i <= s.len()) {
        None
    } else {
        let j: int = i + ws_count(s, i);
        if j >= s.len() || s[j] != '"' {
            None
        } else {
            match parse_str_body(s, j + 1) {
                Some((key, k)) => if !(j + 1 < k <= s.len()) {
                    None
                } else {
                    let m: int = k + ws_count(s, k);
                    if m >= s.len() || s[m] != ':' {
                        None
                    } else {
                        match parse_value(s, m + 1) {
                            Some((v, k2)) => if !(m < k2 <= s.len()) {
                                None
                            } else {
                                let m2: int = k2 + ws_count(s, k2);
                                if m2 >= s.len() {
                                    None
                                } else if s[m2] == '}' {
                                    Some((seq![(key, v)], m2 + 1))
                                } else if s[m2] == ',' {
                                    match parse_members(s, m2 + 1) {
                                        Some((rest, end)) => Some((seq![(key, v)] + rest, end)),
                                        None => None,
                                    }
                                } else {
                                    None
                                }
                            },
                            None => None,
                        }
                    }
                },
                None => None,
            }
        }
    }
}

/// One whole line: one JSON document, possibly surrounded by whitespace.
/// This is what the decoder accepts; anything else is a malformed line.
pub open spec fn json_doc(s: Seq<char>) -> Option<JsonV> {
    match parse_value(s, 0) {
        Some((v, k)) => if k + ws_count(s, k) == s.len() {
            Some(v)
        } else {
            None
        },
        None => None,
    }
}

} // verus!
