//! What the bridge hands the worker: the streaming query request envelope,
//! and the argument lists the supervisor launches the worker with.

use vstd::prelude::*;

use crate::chars::{copy_chars, to_chars};
use crate::codec::wf;
use crate::json::{jval_obj, lemma_jval_obj, Json, JsonV};

verus! {

/// The envelope of one streaming query: command, talker, question, the
/// streaming flag, the base configuration reference, and the optional
/// override object appended last.
pub open spec fn query_request(
    talker: Seq<char>,
    question: Seq<char>,
    overrides: Option<JsonV>,
) -> JsonV {
    let base: Seq<(Seq<char>, JsonV)> = seq![
        ("cmd"@, JsonV::Str("query"@)),
        ("talker"@, JsonV::Str(talker)),
        ("question"@, JsonV::Str(question)),
        ("stream"@, JsonV::Bool(true)),
        ("config"@, JsonV::Str("config.yml"@)),
    ];
    match overrides {
        Some(o) => JsonV::Obj(base.push(("config_overrides"@, o))),
        None => JsonV::Obj(base),
    }
}

/// Builds the request envelope of one streaming query.
pub fn build_query_request(talker: &Vec<char>, question: &Vec<char>, overrides: Option<Json>) -> (r:
    Json)
    ensures
        r@ == query_request(
            talker@,
            question@,
            match overrides {
                Some(o) => Some(o@),
                None => None::<JsonV>,
            },
        ),
{
    let mut fields: Vec<(Vec<char>, Json)> = Vec::new();
    fields.push((to_chars("cmd"), Json::Str(to_chars("query"))));
    fields.push((to_chars("talker"), Json::Str(copy_chars(talker))));
    fields.push((to_chars("question"), Json::Str(copy_chars(question))));
    fields.push((to_chars("stream"), Json::Bool(true)));
    fields.push((to_chars("config"), Json::Str(to_chars("config.yml"))));
    match overrides {
        Some(o) => {
            fields.push((to_chars("config_overrides"), o));
            proof {
                lemma_jval_obj(fields@);
                assert(jval_obj(fields@) =~= seq![
                    ("cmd"@, JsonV::Str("query"@)),
                    ("talker"@, JsonV::Str(talker@)),
                    ("question"@, JsonV::Str(question@)),
                    ("stream"@, JsonV::Bool(true)),
                    ("config"@, JsonV::Str("config.yml"@)),
                ].push(("config_overrides"@, fields@[5].1@)));
            }
            Json::Obj(fields)
        },
        None => {
            proof {
                lemma_jval_obj(fields@);
                assert(jval_obj(fields@) =~= seq![
                    ("cmd"@, JsonV::Str("query"@)),
                    ("talker"@, JsonV::Str(talker@)),
                    ("question"@, JsonV::Str(question@)),
                    ("stream"@, JsonV::Bool(true)),
                    ("config"@, JsonV::Str("config.yml"@)),
                ]);
            }
            Json::Obj(fields)
        },
    }
}

/// A query request is well formed whenever its override object is, so the
/// codec's round-trip law applies to every line the engine writes.
pub proof fn lemma_query_request_wf(
    talker: Seq<char>,
    question: Seq<char>,
    overrides: Option<JsonV>,
)
    requires
        match overrides {
            Some(o) => wf(o),
            None => true,
        },
    ensures
        wf(query_request(talker, question, overrides)),
{
    let base: Seq<(Seq<char>, JsonV)> = seq![
        ("cmd"@, JsonV::Str("query"@)),
        ("talker"@, JsonV::Str(talker)),
        ("question"@, JsonV::Str(question)),
        ("stream"@, JsonV::Bool(true)),
        ("config"@, JsonV::Str("config.yml"@)),
    ];
    match overrides {
        Some(o) => {
            let fields = base.push(("config_overrides"@, o));
            assert forall|k: int| 0 <= k < fields.len() implies wf(#[trigger] fields[k].1) by {
                if k < 5 {
                    assert(fields[k] == base[k]);
                } else {
                    assert(fields[k] == ("config_overrides"@, o));
                }
            }
            crate::codec::lemma_wf_obj_pointwise(fields);
        },
        None => {
            assert forall|k: int| 0 <= k < base.len() implies wf(#[trigger] base[k].1) by {}
            crate::codec::lemma_wf_obj_pointwise(base);
        },
    }
}

/// The arguments the supervisor launches the long-lived worker with: the
/// database location, then the mode selecting the persistent line-protocol
/// loop.
pub fn worker_args(db_path: &Vec<char>) -> (args: Vec<Vec<char>>)
    ensures
        args@.len() == 3,
        args@[0]@ == "--db"@,
        args@[1]@ == db_path@,
        args@[2]@ == "stdio"@,
{
    let mut args: Vec<Vec<char>> = Vec::new();
    args.push(to_chars("--db"));
    args.push(copy_chars(db_path));
    args.push(to_chars("stdio"));
    args
}

/// The arguments of one fire-and-forget build invocation: fixed database and
/// configuration, the talker, the override text when it is present and not
/// empty, and the debug flag last.
pub fn build_invocation_args(talker: &Vec<char>, overrides: &Option<Vec<char>>) -> (args: Vec<
    Vec<char>,
>)
    ensures
        ({
            let with = match overrides {
                Some(o) => o@.len() > 0,
                None => false,
            };
            &&& args@.len() == (if with {
                10int
            } else {
                8int
            })
            &&& args@[0]@ == "--db"@
            &&& args@[1]@ == "data/mirror.db"@
            &&& args@[2]@ == "build"@
            &&& args@[3]@ == "--talker"@
            &&& args@[4]@ == talker@
            &&& args@[5]@ == "--config"@
            &&& args@[6]@ == "config.yml"@
            &&& (with ==> args@[7]@ == "--config-overrides"@ && args@[8]@
                == overrides->Some_0@ && args@[9]@ == "--debug"@)
            &&& (!with ==> args@[7]@ == "--debug"@)
        }),
{
    let mut args: Vec<Vec<char>> = Vec::new();
    args.push(to_chars("--db"));
    args.push(to_chars("data/mirror.db"));
    args.push(to_chars("build"));
    args.push(to_chars("--talker"));
    args.push(copy_chars(talker));
    args.push(to_chars("--config"));
    args.push(to_chars("config.yml"));
    match overrides {
        Some(o) => {
            if o.len() > 0 {
                args.push(to_chars("--config-overrides"));
                args.push(copy_chars(o));
            }
        },
        None => {},
    }
    args.push(to_chars("--debug"));
    args
}

} // verus!
