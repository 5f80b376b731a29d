//! The codec's round-trip law: a well-formed value, encoded and read back,
//! is the same value.

use vstd::prelude::*;

use crate::codec::{
    digit_run, enc, enc_elems, enc_member, enc_members, enc_str_body, esc_char, hex4, hex_digit,
    hex_val, is_digit, is_num_char, is_number_lit, is_ws, json_doc, num_run, parse_elems,
    parse_members, parse_str_body, parse_u_escape, parse_value, unescape, wf, wf_arr, wf_obj,
    ws_count,
};
use crate::json::JsonV;

verus! {

/// Splits one known subrange into two.
proof fn lemma_split_at(s: Seq<char>, i: int, a: Seq<char>, b: Seq<char>)
    requires
        0 <= i,
        i + a.len() + b.len() <= s.len(),
        s.subrange(i, i + a.len() + b.len()) == a + b,
    ensures
        s.subrange(i, i + a.len()) == a,
        s.subrange(i + a.len(), i + a.len() + b.len()) == b,
{
    assert forall|k: int| 0 <= k < a.len() implies s.subrange(i, i + a.len())[k] == a[k] by {
        assert(s.subrange(i, i + a.len() + b.len())[k] == (a + b)[k]);
    }
    assert(s.subrange(i, i + a.len()) =~= a);
    assert forall|k: int| 0 <= k < b.len() implies s.subrange(
        i + a.len(),
        i + a.len() + b.len(),
    )[k] == b[k] by {
        assert(s.subrange(i, i + a.len() + b.len())[a.len() + k] == (a + b)[a.len() + k]);
        assert(s.subrange(i, i + a.len() + b.len())[a.len() + k] == s[i + a.len() + k]);
        assert((a + b)[a.len() + k] == b[k]);
        assert(s.subrange(i + a.len(), i + a.len() + b.len())[k] == s[i + a.len() + k]);
    }
    assert(s.subrange(i + a.len(), i + a.len() + b.len()) =~= b);
}

/// The characters of a known subrange are the characters of its value.
proof fn lemma_subrange_chars(s: Seq<char>, i: int, a: Seq<char>)
    requires
        0 <= i,
        i + a.len() <= s.len(),
        s.subrange(i, i + a.len()) == a,
    ensures
        forall|k: int| 0 <= k < a.len() ==> s[i + k] == a[k],
{
    assert forall|k: int| 0 <= k < a.len() implies s[i + k] == a[k] by {
        assert(s.subrange(i, i + a.len())[k] == s[i + k]);
    }
}

/// A known single-character subrange fixes the character at its position.
proof fn lemma_char_at(s: Seq<char>, i: int, c: char)
    requires
        0 <= i,
        i + 1 <= s.len(),
        s.subrange(i, i + 1) == seq![c],
    ensures
        s[i] == c,
{
    assert(s.subrange(i, i + 1)[0] == s[i]);
    assert(seq![c][0] == c);
}

/// A known subrange fixes the character at its first position.
proof fn lemma_first_char(s: Seq<char>, i: int, a: Seq<char>)
    requires
        0 <= i,
        a.len() > 0,
        i + a.len() <= s.len(),
        s.subrange(i, i + a.len()) == a,
    ensures
        s[i] == a[0],
{
    assert(a =~= seq![a[0]] + a.drop_first());
    lemma_split_at(s, i, seq![a[0]], a.drop_first());
    lemma_char_at(s, i, a[0]);
}

proof fn lemma_hex_digit_val(d: int)
    requires
        0 <= d < 16,
    ensures
        hex_val(hex_digit(d)) == Some(d),
        !is_ws(hex_digit(d)),
{
}

/// Every digit in a digit run is a digit.
proof fn lemma_digit_run_chars(l: Seq<char>, i: int)
    requires
        0 <= i,
    ensures
        forall|k: int| i <= k < i + digit_run(l, i) ==> is_digit(l[k]),
    decreases l.len() - i,
{
    if i < l.len() && is_digit(l[i]) {
        lemma_digit_run_chars(l, i + 1);
    }
}

/// Every character of a number literal can occur in a number literal.
proof fn lemma_number_lit_chars(l: Seq<char>)
    requires
        is_number_lit(l),
    ensures
        forall|k: int| 0 <= k < l.len() ==> is_num_char(l[k]),
        l.len() > 0,
        l[0] == '-' || is_digit(l[0]),
{
    let i0: int = if l.len() > 0 && l[0] == '-' {
        1
    } else {
        0
    };
    let d = digit_run(l, i0);
    let i1: int = i0 + d;
    lemma_digit_run_chars(l, i0);
    crate::decode::lemma_digit_run_bound(l, i0);
    let i2: int = if i1 < l.len() && l[i1] == '.' {
        i1 + 1 + digit_run(l, i1 + 1)
    } else {
        i1
    };
    if i1 < l.len() && l[i1] == '.' {
        lemma_digit_run_chars(l, i1 + 1);
        crate::decode::lemma_digit_run_bound(l, i1 + 1);
    }
    let j: int = if i2 + 1 < l.len() && (l[i2 + 1] == '+' || l[i2 + 1] == '-') {
        i2 + 2
    } else {
        i2 + 1
    };
    if i2 < l.len() && (l[i2] == 'e' || l[i2] == 'E') {
        lemma_digit_run_chars(l, j);
        crate::decode::lemma_digit_run_bound(l, j);
    }
    assert forall|k: int| 0 <= k < l.len() implies is_num_char(l[k]) by {
        if k < i0 {
        } else if k < i1 {
            assert(is_digit(l[k]));
        } else if i1 < l.len() && l[i1] == '.' && k == i1 {
        } else if i1 < l.len() && l[i1] == '.' && k < i2 {
            assert(is_digit(l[k]));
        } else if i2 < l.len() && (l[i2] == 'e' || l[i2] == 'E') {
            if k == i2 {
            } else if k < j {
            } else {
                assert(is_digit(l[k]));
            }
        }
    }
}

/// A run of number characters, delimited on the right, scans exactly.
proof fn lemma_num_run_exact(s: Seq<char>, i: int, n: int)
    requires
        0 <= i,
        0 <= n,
        i + n <= s.len(),
        forall|k: int| i <= k < i + n ==> is_num_char(s[k]),
        i + n == s.len() || !is_num_char(s[i + n]),
    ensures
        num_run(s, i) == n,
    decreases n,
{
    if n > 0 {
        lemma_num_run_exact(s, i + 1, n - 1);
    }
}

/// An encoded string body followed by a closing quote reads back as the
/// string it encodes.
proof fn lemma_parse_enc_str(cs: Seq<char>, s: Seq<char>, i: int)
    requires
        0 <= i,
        i + enc_str_body(cs).len() + 1 <= s.len(),
        s.subrange(i, i + enc_str_body(cs).len() + 1) == enc_str_body(cs) + seq!['"'],
    ensures
        parse_str_body(s, i) == Some((cs, i + enc_str_body(cs).len() + 1)),
    decreases cs.len(),
{
    let body = enc_str_body(cs);
    lemma_subrange_chars(s, i, body + seq!['"']);
    if cs.len() == 0 {
        assert(s[i + 0] == (body + seq!['"'])[0]);
        assert(s[i] == '"');
        assert(cs =~= Seq::<char>::empty());
    } else {
        let c = cs[0];
        let e = esc_char(c);
        let rest = cs.drop_first();
        let b2 = enc_str_body(rest);
        assert(body == e + b2);
        assert(body + seq!['"'] =~= e + (b2 + seq!['"']));
        lemma_split_at(s, i, e, b2 + seq!['"']);
        lemma_parse_enc_str(rest, s, i + e.len());
        lemma_subrange_chars(s, i, e);
        assert(seq![c] + rest =~= cs);
        if c == '"' || c == '\\' || c == '\u{8}' || c == '\u{c}' || c == '\n' || c == '\r' || c
            == '\t' {
            assert(s[i] == '\\');
            assert(unescape(s[i + 1]) == Some(c));
            assert(parse_str_body(s, i) == Some((cs, i + body.len() + 1)));
        } else if (c as u32) < 32 {
            let u: int = (c as u32) as int;
            assert(s[i] == '\\' && s[i + 1] == 'u');
            assert(s[i + 2] == '0' && s[i + 3] == '0');
            assert(s[i + 4] == hex_digit(u / 16) && s[i + 5] == hex_digit(u % 16));
            lemma_hex_digit_val(u / 16);
            lemma_hex_digit_val(u % 16);
            assert(hex4(s, i + 2) == Some(16 * (u / 16) + (u % 16)));
            assert(16 * (u / 16) + (u % 16) == u);
            assert(hex4(s, i + 2) == Some(u));
            vstd::utf8::char_u32_cast(c, c as u32);
            assert((u as u32) == (c as u32));
            assert((u as u32 as char) == c);
            assert(parse_u_escape(s, i) == Some((c, i + 6)));
            assert(parse_str_body(s, i) == Some((cs, i + body.len() + 1)));
        } else {
            assert(s[i] == c);
            assert(parse_str_body(s, i) == Some((cs, i + body.len() + 1)));
        }
    }
}

/// An encoded value, delimited on the right by the end of the text or by a
/// character that cannot continue a number, reads back as that value.
proof fn lemma_parse_enc(v: JsonV, s: Seq<char>, i: int)
    requires
        wf(v),
        0 <= i,
        i + enc(v).len() <= s.len(),
        s.subrange(i, i + enc(v).len()) == enc(v),
        i + enc(v).len() == s.len() || !is_num_char(s[i + enc(v).len()]),
    ensures
        parse_value(s, i) == Some((v, i + enc(v).len())),
    decreases v, 1int,
{
    lemma_enc_first(v);
    lemma_first_char(s, i, enc(v));
    assert(s[i] == enc(v)[0]);
    assert(ws_count(s, i) == 0);
    match v {
        JsonV::Null => {},
        JsonV::Bool(b) => {},
        JsonV::Num(lit) => {
            lemma_number_lit_chars(lit);
            assert forall|k: int| i <= k < i + lit.len() implies is_num_char(s[k]) by {
                assert(s[i + (k - i)] == lit[k - i]);
            }
            lemma_num_run_exact(s, i, lit.len() as int);
        },
        JsonV::Str(cs) => {
            let body = enc_str_body(cs);
            assert(enc(v) =~= seq!['"'] + (body + seq!['"']));
            lemma_split_at(s, i, seq!['"'], body + seq!['"']);
            lemma_parse_enc_str(cs, s, i + 1);
        },
        JsonV::Arr(items) => {
            assert(decreases_to!(v => v->Arr_0));
            if items.len() == 0 {
                assert(enc(v) =~= seq!['['] + seq![']']);
                lemma_split_at(s, i, seq!['['], seq![']']);
                lemma_char_at(s, i + 1, ']');
                assert(ws_count(s, i + 1) == 0);
                assert(items =~= Seq::<JsonV>::empty());
            } else {
                assert(enc(v) =~= seq!['['] + (enc_elems(items) + seq![']']));
                lemma_split_at(s, i, seq!['['], enc_elems(items) + seq![']']);
                assert(wf(items[0]));
                lemma_enc_first(items[0]);
                assert(enc_elems(items)[0] == enc(items[0])[0]);
                lemma_first_char(s, i + 1, enc_elems(items) + seq![']']);
                assert(s[i + 1] == enc_elems(items)[0]);
                assert(ws_count(s, i + 1) == 0);
                lemma_parse_enc_elems(items, s, i + 1);
            }
        },
        JsonV::Obj(fields) => {
            assert(decreases_to!(v => v->Obj_0));
            if fields.len() == 0 {
                assert(enc(v) =~= seq!['{'] + seq!['}']);
                lemma_split_at(s, i, seq!['{'], seq!['}']);
                lemma_char_at(s, i + 1, '}');
                assert(ws_count(s, i + 1) == 0);
                assert(fields =~= Seq::<(Seq<char>, JsonV)>::empty());
            } else {
                assert(enc(v) =~= seq!['{'] + (enc_members(fields) + seq!['}']));
                lemma_split_at(s, i, seq!['{'], enc_members(fields) + seq!['}']);
                assert(enc_member(fields[0])[0] == '"');
                assert(enc_members(fields)[0] == '"');
                lemma_first_char(s, i + 1, enc_members(fields) + seq!['}']);
                assert(s[i + 1] == enc_members(fields)[0]);
                assert(ws_count(s, i + 1) == 0);
                lemma_parse_enc_members(fields, s, i + 1);
            }
        },
    }
}

/// Encoded array elements followed by `]` read back as those elements.
proof fn lemma_parse_enc_elems(items: Seq<JsonV>, s: Seq<char>, i: int)
    requires
        wf_arr(items),
        items.len() > 0,
        0 <= i,
        i + enc_elems(items).len() + 1 <= s.len(),
        s.subrange(i, i + enc_elems(items).len() + 1) == enc_elems(items) + seq![']'],
    ensures
        parse_elems(s, i) == Some((items, i + enc_elems(items).len() + 1)),
    decreases items, 0int,
{
    let v0 = items[0];
    assert(wf(v0));
    if items.len() == 1 {
        assert(enc_elems(items) + seq![']'] =~= enc(v0) + seq![']']);
        lemma_split_at(s, i, enc(v0), seq![']']);
        let k = i + enc(v0).len();
        lemma_char_at(s, k, ']');
        lemma_parse_enc(v0, s, i);
        assert(ws_count(s, k) == 0);
        assert(seq![v0] =~= items);
    } else {
        let rest = items.drop_first();
        let k = i + enc(v0).len();
        assert(enc_elems(items) + seq![']'] =~= enc(v0) + (seq![','] + (enc_elems(rest)
            + seq![']'])));
        lemma_split_at(s, i, enc(v0), seq![','] + (enc_elems(rest) + seq![']']));
        lemma_split_at(s, k, seq![','], enc_elems(rest) + seq![']']);
        lemma_char_at(s, k, ',');
        lemma_parse_enc(v0, s, i);
        assert(ws_count(s, k) == 0);
        lemma_parse_enc_elems(rest, s, k + 1);
        assert(seq![v0] + rest =~= items);
    }
}

/// Encoded object members followed by `}` read back as those members.
proof fn lemma_parse_enc_members(fields: Seq<(Seq<char>, JsonV)>, s: Seq<char>, i: int)
    requires
        wf_obj(fields),
        fields.len() > 0,
        0 <= i,
        i + enc_members(fields).len() + 1 <= s.len(),
        s.subrange(i, i + enc_members(fields).len() + 1) == enc_members(fields) + seq!['}'],
    ensures
        parse_members(s, i) == Some((fields, i + enc_members(fields).len() + 1)),
    decreases fields, 0int,
{
    let f0 = fields[0];
    assert(wf(f0.1));
    let key = f0.0;
    let body = enc_str_body(key);
    let close: Seq<char> = if fields.len() == 1 {
        seq!['}']
    } else {
        seq![','] + (enc_members(fields.drop_first()) + seq!['}'])
    };
    assert(enc_member(f0) =~= seq!['"'] + ((body + seq!['"']) + (seq![':'] + enc(f0.1))));
    if fields.len() == 1 {
        assert(enc_members(fields) + seq!['}'] =~= enc_member(f0) + close);
    } else {
        assert(enc_members(fields) + seq!['}'] =~= enc_member(f0) + close);
    }
    assert(enc_member(f0) + close =~= seq!['"'] + ((body + seq!['"']) + ((seq![':'] + enc(f0.1))
        + close)));
    lemma_split_at(s, i, seq!['"'], (body + seq!['"']) + ((seq![':'] + enc(f0.1)) + close));
    lemma_char_at(s, i, '"');
    assert(ws_count(s, i) == 0);
    lemma_split_at(s, i + 1, body + seq!['"'], (seq![':'] + enc(f0.1)) + close);
    lemma_parse_enc_str(key, s, i + 1);
    let kk = i + 1 + body.len() + 1;
    assert((seq![':'] + enc(f0.1)) + close =~= seq![':'] + (enc(f0.1) + close));
    lemma_split_at(s, kk, seq![':'], enc(f0.1) + close);
    lemma_char_at(s, kk, ':');
    assert(ws_count(s, kk) == 0);
    lemma_split_at(s, kk + 1, enc(f0.1), close);
    let k2 = kk + 1 + enc(f0.1).len();
    lemma_first_char(s, k2, close);
    assert(decreases_to!(fields => fields[0]));
    assert(decreases_to!(fields[0] => fields[0].1));
    lemma_parse_enc(f0.1, s, kk + 1);
    assert(ws_count(s, k2) == 0);
    if fields.len() == 1 {
        assert(s[k2] == '}');
        assert(seq![(key, f0.1)] =~= fields);
        assert(parse_members(s, i) == Some((fields, k2 + 1)));
    } else {
        let rest = fields.drop_first();
        assert(s[k2] == ',');
        lemma_split_at(s, k2, seq![','], enc_members(rest) + seq!['}']);
        lemma_parse_enc_members(rest, s, k2 + 1);
        assert(seq![(key, f0.1)] + rest =~= fields);
        assert(parse_members(s, i) == Some((fields, i + enc_members(fields).len() + 1)));
    }
}

/// The round-trip law of the transport codec: a well-formed value, written as
/// one line and read back, is the same logical value.
pub proof fn lemma_codec_round_trip(v: JsonV)
    requires
        wf(v),
    ensures
        json_doc(enc(v)) == Some(v),
{
    let s = enc(v);
    assert(s.subrange(0, s.len() as int) =~= s);
    lemma_parse_enc(v, s, 0);
    assert(ws_count(s, s.len() as int) == 0);
}

/// The law at the wire: one whole request line, newline terminator
/// included, decodes back to the value it was written from. This is what a
/// worker that echoes a request line verbatim guarantees the host reads.
pub proof fn lemma_line_round_trip(v: JsonV)
    requires
        wf(v),
    ensures
        json_doc(crate::encode::enc_line(v)) == Some(v),
{
    let s = crate::encode::enc_line(v);
    assert(s.subrange(0, enc(v).len() as int) =~= enc(v));
    assert(s[enc(v).len() as int] == '\n');
    lemma_parse_enc(v, s, 0);
    assert(ws_count(s, s.len() as int) == 0);
    assert(ws_count(s, enc(v).len() as int) == 1);
}

/// The streaming query's own request line always survives the round trip:
/// the envelope the engine writes is well formed whenever its override
/// object is, so the worker's echo of it reads back as the same value.
pub proof fn lemma_query_line_round_trip(
    talker: Seq<char>,
    question: Seq<char>,
    overrides: Option<JsonV>,
)
    requires
        match overrides {
            Some(o) => wf(o),
            None => true,
        },
    ensures
        json_doc(
            crate::encode::enc_line(crate::request::query_request(talker, question, overrides)),
        ) == Some(crate::request::query_request(talker, question, overrides)),
{
    crate::request::lemma_query_request_wf(talker, question, overrides);
    lemma_line_round_trip(crate::request::query_request(talker, question, overrides));
}

/// What the first character of an encoding can be.
proof fn lemma_enc_first(v: JsonV)
    requires
        wf(v),
    ensures
        enc(v).len() > 0,
        !is_ws(enc(v)[0]),
        enc(v)[0] != ']',
        enc(v)[0] != '}',
        enc(v)[0] != ',',
{
    match v {
        JsonV::Null => {},
        JsonV::Bool(b) => {},
        JsonV::Num(lit) => {
            lemma_number_lit_chars(lit);
        },
        JsonV::Str(s) => {},
        JsonV::Arr(items) => {},
        JsonV::Obj(fields) => {},
    }
}

} // verus!
