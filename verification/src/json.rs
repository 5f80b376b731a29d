//! The logical model of one protocol message: a JSON value.
//!
//! The wire protocol exchanges newline-delimited JSON documents with the
//! worker process. `Json` is the executable representation; `JsonV` is the
//! mathematical value that contracts speak about. Numbers are kept as their
//! literal text so that a value re-serializes exactly as it arrived.

use vstd::prelude::*;

verus! {

/// The mathematical value of one JSON document.
pub enum JsonV {
    Null,
    Bool(bool),
    /// A number, as the characters of its literal.
    Num(Seq<char>),
    Str(Seq<char>),
    Arr(Seq<JsonV>),
    /// Object fields in the order they appear on the wire.
    Obj(Seq<(Seq<char>, JsonV)>),
}

/// The executable representation of one JSON document.
#[derive(Debug, PartialEq, Eq)]
pub enum Json {
    Null,
    Bool(bool),
    /// A number, as the characters of its literal.
    Num(Vec<char>),
    Str(Vec<char>),
    Arr(Vec<Json>),
    /// Object fields in the order they appear on the wire.
    Obj(Vec<(Vec<char>, Json)>),
}

/// The value a `Json` stands for.
pub open spec fn jval(j: Json) -> JsonV
    decreases j, 1int,
{
    match j {
        Json::Null => JsonV::Null,
        Json::Bool(b) => JsonV::Bool(b),
        Json::Num(s) => JsonV::Num(s@),
        Json::Str(s) => JsonV::Str(s@),
        Json::Arr(items) => JsonV::Arr(jval_arr(items@)),
        Json::Obj(fields) => JsonV::Obj(jval_obj(fields@)),
    }
}

pub open spec fn jval_arr(items: Seq<Json>) -> Seq<JsonV>
    decreases items, 0int,
{
    if items.len() == 0 {
        Seq::empty()
    } else {
        seq![jval(items[0])] + jval_arr(items.drop_first())
    }
}

pub open spec fn jval_obj(fields: Seq<(Vec<char>, Json)>) -> Seq<(Seq<char>, JsonV)>
    decreases fields, 0int,
{
    if fields.len() == 0 {
        Seq::empty()
    } else {
        seq![(fields[0].0@, jval(fields[0].1))] + jval_obj(fields.drop_first())
    }
}

impl View for Json {
    type V = JsonV;

    open spec fn view(&self) -> JsonV {
        jval(*self)
    }
}

pub proof fn lemma_jval_arr(items: Seq<Json>)
    ensures
        jval_arr(items).len() == items.len(),
        forall|i: int| 0 <= i < items.len() ==> jval_arr(items)[i] == jval(items[i]),
    decreases items.len(),
{
    if items.len() > 0 {
        lemma_jval_arr(items.drop_first());
        assert forall|i: int| 0 <= i < items.len() implies jval_arr(items)[i] == jval(
            items[i],
        ) by {
            if i > 0 {
                assert(items.drop_first()[i - 1] == items[i]);
            }
        }
    }
}

pub proof fn lemma_jval_obj(fields: Seq<(Vec<char>, Json)>)
    ensures
        jval_obj(fields).len() == fields.len(),
        forall|i: int| 0 <= i < fields.len() ==> jval_obj(fields)[i] == (
            fields[i].0@,
            jval(fields[i].1),
        ),
    decreases fields.len(),
{
    if fields.len() > 0 {
        lemma_jval_obj(fields.drop_first());
        assert forall|i: int| 0 <= i < fields.len() implies jval_obj(fields)[i] == (
            fields[i].0@,
            jval(fields[i].1),
        ) by {
            if i > 0 {
                assert(fields.drop_first()[i - 1] == fields[i]);
            }
        }
    }
}

pub proof fn lemma_jval_arr_snoc(items: Seq<Json>, j: Json)
    ensures
        jval_arr(items.push(j)) == jval_arr(items).push(jval(j)),
{
    lemma_jval_arr(items);
    lemma_jval_arr(items.push(j));
    assert(jval_arr(items.push(j)) =~= jval_arr(items).push(jval(j)));
}

pub proof fn lemma_jval_obj_snoc(fields: Seq<(Vec<char>, Json)>, f: (Vec<char>, Json))
    ensures
        jval_obj(fields.push(f)) == jval_obj(fields).push((f.0@, jval(f.1))),
{
    lemma_jval_obj(fields);
    lemma_jval_obj(fields.push(f));
    assert(jval_obj(fields.push(f)) =~= jval_obj(fields).push((f.0@, jval(f.1))));
}

/// The value of the first field with the given name, in wire order.
pub open spec fn lookup_field(fields: Seq<(Seq<char>, JsonV)>, key: Seq<char>) -> Option<JsonV>
    decreases fields.len(),
{
    if fields.len() == 0 {
        None
    } else if fields[0].0 == key {
        Some(fields[0].1)
    } else {
        lookup_field(fields.drop_first(), key)
    }
}

/// The value of the named field, when the document is an object holding it.
pub open spec fn get_field(v: JsonV, key: Seq<char>) -> Option<JsonV> {
    match v {
        JsonV::Obj(fields) => lookup_field(fields, key),
        _ => None,
    }
}

proof fn lemma_lookup_after_misses(fields: Seq<(Seq<char>, JsonV)>, key: Seq<char>, i: int)
    requires
        0 <= i <= fields.len(),
        forall|k: int| 0 <= k < i ==> fields[k].0 != key,
    ensures
        lookup_field(fields, key) == lookup_field(fields.skip(i), key),
    decreases i,
{
    if i == 0 {
        assert(fields.skip(0) =~= fields);
    } else {
        assert forall|k: int| 0 <= k < i - 1 implies fields.drop_first()[k].0 != key by {
            assert(fields.drop_first()[k] == fields[k + 1]);
        }
        lemma_lookup_after_misses(fields.drop_first(), key, i - 1);
        assert(fields.drop_first().skip(i - 1) =~= fields.skip(i));
    }
}

/// No two fields of the sequence share a name.
pub open spec fn unique_keys(fields: Seq<(Seq<char>, JsonV)>) -> bool {
    forall|i: int, j: int| 0 <= i < j < fields.len() ==> fields[i].0 != fields[j].0
}

proof fn lemma_lookup_contains(fields: Seq<(Seq<char>, JsonV)>, key: Seq<char>)
    requires
        unique_keys(fields),
    ensures
        match lookup_field(fields, key) {
            Some(v) => fields.contains((key, v)),
            None => forall|i: int| 0 <= i < fields.len() ==> fields[i].0 != key,
        },
    decreases fields.len(),
{
    if fields.len() > 0 {
        if fields[0].0 == key {
            assert(fields[0] == (key, fields[0].1));
            assert(fields.contains((key, fields[0].1)));
        } else {
            let rest = fields.drop_first();
            assert(forall|i: int| 0 <= i < rest.len() ==> #[trigger] rest[i] == fields[i + 1]);
            lemma_lookup_contains(rest, key);
            match lookup_field(rest, key) {
                Some(v) => {
                    let i = choose|i: int| 0 <= i < rest.len() && rest[i] == (key, v);
                    assert(fields[i + 1] == (key, v));
                    assert(fields.contains((key, v)));
                },
                None => {
                    assert forall|i: int| 0 <= i < fields.len() implies fields[i].0 != key by {
                        if i > 0 {
                            assert(rest[i - 1] == fields[i]);
                        }
                    }
                },
            }
        }
    }
}

proof fn lemma_contains_lookup(fields: Seq<(Seq<char>, JsonV)>, key: Seq<char>, v: JsonV)
    requires
        unique_keys(fields),
        fields.contains((key, v)),
    ensures
        lookup_field(fields, key) == Some(v),
    decreases fields.len(),
{
    let i = choose|i: int| 0 <= i < fields.len() && fields[i] == (key, v);
    if fields[0].0 == key {
        if i != 0 {
            assert(fields[0].0 != fields[i].0);
            assert(false);
        }
        assert(fields[0] == (key, v));
    } else {
        let rest = fields.drop_first();
        assert(forall|k: int| 0 <= k < rest.len() ==> #[trigger] rest[k] == fields[k + 1]);
        assert(i != 0);
        assert(rest[i - 1] == (key, v));
        assert(rest.contains((key, v)));
        lemma_contains_lookup(rest, key, v);
    }
}

/// Field order does not matter to lookup: two objects holding the same
/// fields, each name given once, yield the same value for every name. This
/// is the sense in which a decoded envelope's logical value is independent
/// of the order in which the worker wrote its fields.
pub proof fn lemma_lookup_order_independent(
    f1: Seq<(Seq<char>, JsonV)>,
    f2: Seq<(Seq<char>, JsonV)>,
    key: Seq<char>,
)
    requires
        unique_keys(f1),
        unique_keys(f2),
        f1.to_multiset() == f2.to_multiset(),
    ensures
        lookup_field(f1, key) == lookup_field(f2, key),
{
    broadcast use vstd::seq_lib::group_to_multiset_ensures;

    lemma_lookup_contains(f1, key);
    lemma_lookup_contains(f2, key);
    match lookup_field(f1, key) {
        Some(v) => {
            assert(f1.to_multiset().count((key, v)) > 0);
            assert(f2.contains((key, v)));
            lemma_contains_lookup(f2, key, v);
        },
        None => {
            match lookup_field(f2, key) {
                Some(v) => {
                    assert(f2.to_multiset().count((key, v)) > 0);
                    assert(f1.contains((key, v)));
                    let i = choose|i: int| 0 <= i < f1.len() && f1[i] == (key, v);
                    assert(f1[i].0 == key);
                    assert(false);
                },
                None => {},
            }
        },
    }
}

impl Json {
    /// The field of an object with the given name, if there is one.
    pub fn obj_get<'a>(&'a self, key: &Vec<char>) -> (r: Option<&'a Json>)
        ensures
            match r {
                Some(f) => get_field(self@, key@) == Some(f@),
                None => get_field(self@, key@) is None,
            },
    {
        match self {
            Json::Obj(fields) => {
                proof {
                    lemma_jval_obj(fields@);
                }
                let mut i: usize = 0;
                while i < fields.len()
                    invariant
                        i <= fields@.len(),
                        jval_obj(fields@).len() == fields@.len(),
                        forall|k: int| 0 <= k < fields@.len() ==> jval_obj(fields@)[k] == (
                            fields@[k].0@,
                            jval(fields@[k].1),
                        ),
                        self@ == JsonV::Obj(jval_obj(fields@)),
                        forall|k: int| 0 <= k < i ==> jval_obj(fields@)[k].0 != key@,
                    decreases fields@.len() - i,
                {
                    if crate::chars::chars_eq(&fields[i].0, key) {
                        proof {
                            lemma_lookup_after_misses(jval_obj(fields@), key@, i as int);
                            assert(jval_obj(fields@).skip(i as int)[0] == jval_obj(fields@)[
                            i as int]);
                        }
                        return Some(&fields[i].1);
                    }
                    i = i + 1;
                }
                proof {
                    lemma_lookup_after_misses(jval_obj(fields@), key@, i as int);
                    assert(jval_obj(fields@).skip(i as int) =~= Seq::empty());
                }
                None
            },
            _ => None,
        }
    }
}

} // verus!
