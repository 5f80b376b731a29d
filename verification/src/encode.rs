//! The executable encoder: writes one `Json` value as one compact JSON line.

use vstd::prelude::*;

use crate::chars::{copy_chars, to_chars};
use crate::codec::{
    enc, enc_elems, enc_member, enc_members, enc_str_body, esc_char, hex_digit,
};
use crate::json::{jval, jval_arr, jval_obj, lemma_jval_arr, lemma_jval_obj, Json, JsonV};

verus! {

/// The line written for one request: the encoded value and a newline.
pub open spec fn enc_line(v: JsonV) -> Seq<char> {
    enc(v) + seq!['\n']
}

proof fn lemma_enc_str_body_snoc(s: Seq<char>, c: char)
    ensures
        enc_str_body(s.push(c)) == enc_str_body(s) + esc_char(c),
    decreases s.len(),
{
    if s.len() == 0 {
        assert(s.push(c)[0] == c);
        assert(s.push(c).drop_first() =~= Seq::<char>::empty());
        assert(enc_str_body(Seq::<char>::empty()) == Seq::<char>::empty());
        assert(enc_str_body(s.push(c)) == esc_char(c) + Seq::<char>::empty());
        assert(esc_char(c) + Seq::<char>::empty() =~= esc_char(c));
        assert(enc_str_body(s) + esc_char(c) =~= esc_char(c));
    } else {
        assert(s.push(c).drop_first() =~= s.drop_first().push(c));
        lemma_enc_str_body_snoc(s.drop_first(), c);
        assert(esc_char(s[0]) + (enc_str_body(s.drop_first()) + esc_char(c)) =~= (esc_char(s[0])
            + enc_str_body(s.drop_first())) + esc_char(c));
    }
}

proof fn lemma_enc_elems_snoc(items: Seq<JsonV>, v: JsonV)
    ensures
        enc_elems(items.push(v)) == if items.len() == 0 {
            enc(v)
        } else {
            enc_elems(items) + seq![','] + enc(v)
        },
    decreases items.len(),
{
    if items.len() == 0 {
        assert(items.push(v)[0] == v);
        assert(enc_elems(items.push(v)) == enc(v));
    } else if items.len() == 1 {
        assert(items.push(v).drop_first() =~= seq![v]);
        assert(enc_elems(seq![v]) == enc(v));
        assert(enc_elems(items) == enc(items[0]));
    } else {
        assert(items.push(v).drop_first() =~= items.drop_first().push(v));
        lemma_enc_elems_snoc(items.drop_first(), v);
        assert(enc(items[0]) + seq![','] + (enc_elems(items.drop_first()) + seq![','] + enc(v))
            =~= (enc(items[0]) + seq![','] + enc_elems(items.drop_first())) + seq![','] + enc(v));
    }
}

proof fn lemma_enc_members_snoc(fields: Seq<(Seq<char>, JsonV)>, f: (Seq<char>, JsonV))
    ensures
        enc_members(fields.push(f)) == if fields.len() == 0 {
            enc_member(f)
        } else {
            enc_members(fields) + seq![','] + enc_member(f)
        },
    decreases fields.len(),
{
    if fields.len() == 0 {
        assert(fields.push(f)[0] == f);
        assert(enc_members(fields.push(f)) == enc_member(f));
    } else if fields.len() == 1 {
        assert(fields.push(f).drop_first() =~= seq![f]);
        assert(enc_members(seq![f]) == enc_member(f));
        assert(enc_members(fields) == enc_member(fields[0]));
    } else {
        assert(fields.push(f).drop_first() =~= fields.drop_first().push(f));
        lemma_enc_members_snoc(fields.drop_first(), f);
        assert(enc_member(fields[0]) + seq![','] + (enc_members(fields.drop_first()) + seq![',']
            + enc_member(f)) =~= (enc_member(fields[0]) + seq![','] + enc_members(
            fields.drop_first(),
        )) + seq![','] + enc_member(f));
    }
}

/// The lower-case hexadecimal digit for a value below sixteen.
fn hex_digit_x(d: u32) -> (r: char)
    requires
        d < 16,
    ensures
        r == hex_digit(d as int),
{
    if d == 0 {
        '0'
    } else if d == 1 {
        '1'
    } else if d == 2 {
        '2'
    } else if d == 3 {
        '3'
    } else if d == 4 {
        '4'
    } else if d == 5 {
        '5'
    } else if d == 6 {
        '6'
    } else if d == 7 {
        '7'
    } else if d == 8 {
        '8'
    } else if d == 9 {
        '9'
    } else if d == 10 {
        'a'
    } else if d == 11 {
        'b'
    } else if d == 12 {
        'c'
    } else if d == 13 {
        'd'
    } else if d == 14 {
        'e'
    } else {
        'f'
    }
}

/// Writes one character of a string literal, escaped as needed.
fn push_escaped(c: char, out: &mut Vec<char>)
    ensures
        final(out)@ == old(out)@ + esc_char(c),
{
    if c == '"' {
        out.push('\\');
        out.push('"');
    } else if c == '\\' {
        out.push('\\');
        out.push('\\');
    } else if c == '\u{8}' {
        out.push('\\');
        out.push('b');
    } else if c == '\u{c}' {
        out.push('\\');
        out.push('f');
    } else if c == '\n' {
        out.push('\\');
        out.push('n');
    } else if c == '\r' {
        out.push('\\');
        out.push('r');
    } else if c == '\t' {
        out.push('\\');
        out.push('t');
    } else if (c as u32) < 32 {
        let u = c as u32;
        out.push('\\');
        out.push('u');
        out.push('0');
        out.push('0');
        out.push(hex_digit_x(u / 16));
        out.push(hex_digit_x(u % 16));
    } else {
        out.push(c);
    }
    proof {
        assert(out@ =~= old(out)@ + esc_char(c));
    }
}

/// Writes the body of a string literal, between the quotes.
fn push_str_body(s: &Vec<char>, out: &mut Vec<char>)
    ensures
        final(out)@ == old(out)@ + enc_str_body(s@),
{
    let mut i: usize = 0;
    while i < s.len()
        invariant
            i <= s@.len(),
            out@ == old(out)@ + enc_str_body(s@.take(i as int)),
        decreases s@.len() - i,
    {
        proof {
            lemma_enc_str_body_snoc(s@.take(i as int), s@[i as int]);
            assert(s@.take(i as int).push(s@[i as int]) =~= s@.take(i + 1 as int));
        }
        push_escaped(s[i], out);
        proof {
            assert(old(out)@ + enc_str_body(s@.take(i as int)) + esc_char(s@[i as int]) =~= old(
                out,
            )@ + (enc_str_body(s@.take(i as int)) + esc_char(s@[i as int])));
        }
        i = i + 1;
    }
    proof {
        assert(s@.take(s@.len() as int) =~= s@);
    }
}

/// Writes one value as compact JSON.
#[verifier::loop_isolation(false)]
pub fn encode_value(j: &Json) -> (out: Vec<char>)
    ensures
        out@ == enc(j@),
    decreases *j,
{
    match j {
        Json::Null => {
            proof {
                reveal_strlit("null");
            }
            let out = to_chars("null");
            proof {
                assert(out@ =~= enc(j@));
            }
            out
        },
        Json::Bool(b) => {
            if *b {
                proof {
                    reveal_strlit("true");
                }
                let out = to_chars("true");
                proof {
                    assert(out@ =~= enc(j@));
                }
                out
            } else {
                proof {
                    reveal_strlit("false");
                }
                let out = to_chars("false");
                proof {
                    assert(out@ =~= enc(j@));
                }
                out
            }
        },
        Json::Num(lit) => copy_chars(lit),
        Json::Str(s) => {
            let mut out: Vec<char> = Vec::new();
            out.push('"');
            push_str_body(s, &mut out);
            out.push('"');
            proof {
                assert(out@ =~= enc(j@));
            }
            out
        },
        Json::Arr(items) => {
            let ghost vitems = jval_arr(items@);
            proof {
                lemma_jval_arr(items@);
            }
            let mut out: Vec<char> = Vec::new();
            out.push('[');
            let mut i: usize = 0;
            while i < items.len()
                invariant
                    i <= items@.len(),
                    vitems == jval_arr(items@),
                    vitems.len() == items@.len(),
                    forall|k: int| 0 <= k < items@.len() ==> vitems[k] == jval(items@[k]),
                    out@ == seq!['['] + enc_elems(vitems.take(i as int)),
                decreases items@.len() - i,
            {
                if i > 0 {
                    out.push(',');
                }
                proof {
                    assert(decreases_to!(*j => j->Arr_0));
                    assert(j->Arr_0 == *items);
                    assert(decreases_to!(*items => items@));
                    assert(decreases_to!(items@ => items@[i as int]));
                    assert(decreases_to!(*j => items@[i as int]));
                }
                let mut piece = encode_value(&items[i]);
                out.append(&mut piece);
                proof {
                    lemma_enc_elems_snoc(vitems.take(i as int), vitems[i as int]);
                    assert(vitems.take(i as int).push(vitems[i as int]) =~= vitems.take(
                        i + 1 as int,
                    ));
                    assert(out@ =~= seq!['['] + enc_elems(vitems.take(i + 1 as int)));
                }
                i = i + 1;
            }
            out.push(']');
            proof {
                assert(vitems.take(vitems.len() as int) =~= vitems);
                assert(out@ =~= enc(j@));
            }
            out
        },
        Json::Obj(fields) => {
            let ghost vfields = jval_obj(fields@);
            proof {
                lemma_jval_obj(fields@);
            }
            let mut out: Vec<char> = Vec::new();
            out.push('{');
            let mut i: usize = 0;
            while i < fields.len()
                invariant
                    i <= fields@.len(),
                    vfields == jval_obj(fields@),
                    vfields.len() == fields@.len(),
                    forall|k: int| 0 <= k < fields@.len() ==> vfields[k] == (
                        fields@[k].0@,
                        jval(fields@[k].1),
                    ),
                    out@ == seq!['{'] + enc_members(vfields.take(i as int)),
                decreases fields@.len() - i,
            {
                if i > 0 {
                    out.push(',');
                }
                let ghost before = out@;
                out.push('"');
                push_str_body(&fields[i].0, &mut out);
                out.push('"');
                out.push(':');
                proof {
                    assert(decreases_to!(*j => j->Obj_0));
                    assert(j->Obj_0 == *fields);
                    assert(decreases_to!(*fields => fields@));
                    assert(decreases_to!(fields@ => fields@[i as int]));
                    assert(decreases_to!(fields@[i as int] => fields@[i as int].1));
                    assert(decreases_to!(*j => fields@[i as int].1));
                }
                let mut piece = encode_value(&fields[i].1);
                out.append(&mut piece);
                proof {
                    assert(out@ =~= before + enc_member(vfields[i as int]));
                    lemma_enc_members_snoc(vfields.take(i as int), vfields[i as int]);
                    assert(vfields.take(i as int).push(vfields[i as int]) =~= vfields.take(
                        i + 1 as int,
                    ));
                    assert(out@ =~= seq!['{'] + enc_members(vfields.take(i + 1 as int)));
                }
                i = i + 1;
            }
            out.push('}');
            proof {
                assert(vfields.take(vfields.len() as int) =~= vfields);
                assert(out@ =~= enc(j@));
            }
            out
        },
    }
}

/// Writes one request line: the encoded value terminated by a newline,
/// exactly what is handed to the worker's input stream.
pub fn encode_request_line(j: &Json) -> (out: Vec<char>)
    ensures
        out@ == enc_line(j@),
{
    let mut out = encode_value(j);
    out.push('\n');
    out
}

} // verus!
