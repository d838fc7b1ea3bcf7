//! The display algorithm: stringify a value for the `display` builtin.
//!
//! Display is distinct from conversion to text: it recursively displays
//! list elements instead of converting them, renders booleans, unit and
//! records, and never fails.  A pending deferred process displays as its
//! program and argument shape; display never executes it — only a block
//! statement or a conversion does.

use vstd::prelude::*;
use vstd::string::*;

use crate::text::{int_text, int_to_text, join_sp, join_texts};
use crate::value::{lemma_field_models_index, lemma_models_index, texts_model, ValM, Value};

verus! {

broadcast use vstd::seq::group_seq_axioms, vstd::std_specs::vec::group_vec_axioms, lemma_models_index, lemma_field_models_index;

/// The display text of a value.
pub open spec fn display_text(v: ValM) -> Seq<char>
    decreases v, 0nat, 0nat,
{
    match v {
        ValM::Int(x) => int_text(x),
        ValM::Str(s) => s,
        ValM::Bool(b) => if b {
            "true"@
        } else {
            "false"@
        },
        ValM::List(es) => join_sp(display_all(es)),
        ValM::Unit => "unit"@,
        ValM::Record(fs) => "{"@ + display_fields(fs) + "}"@,
        ValM::Process { program, args } => "<command "@ + join_sp(args.insert(0, program)) + ">"@,
    }
}

/// Elementwise display of a list.
pub open spec fn display_all(es: Seq<ValM>) -> Seq<Seq<char>>
    decreases es, 1nat, 0nat,
{
    if es.len() == 0 {
        Seq::empty()
    } else {
        display_all(es.drop_first()).insert(0, display_text(es[0]))
    }
}

/// The debug rendering of record fields: `name: value`, comma-separated.
pub open spec fn display_fields(fs: Seq<(Seq<char>, ValM)>) -> Seq<char>
    decreases fs, 1nat, 0nat,
{
    if fs.len() == 0 {
        Seq::empty()
    } else if fs.len() == 1 {
        fs[0].0 + ": "@ + display_text(fs[0].1)
    } else {
        fs[0].0 + ": "@ + display_text(fs[0].1) + ", "@ + display_fields(fs.drop_first())
    }
}

/// Display a value as a string.
pub fn display_value(v: &Value) -> (r: String)
    ensures
        r@ == display_text(v.model()),
    decreases *v, 0nat, 0nat,
{
    match v {
        Value::Int(x) => int_to_text(*x),
        Value::Str(s) => s.clone(),
        Value::Bool(b) => if *b {
            "true".to_owned()
        } else {
            "false".to_owned()
        },
        Value::Unit => "unit".to_owned(),
        Value::List(es) => {
            proof {
                assert(decreases_to!(*v => (*v)->List_0));
                assert(Value::models(es@).skip(0) =~= Value::models(es@));
            }
            let texts = display_list(es, 0);
            join_texts(&texts)
        }
        Value::Record(fs) => {
            proof {
                assert(decreases_to!(*v => (*v)->Record_0));
                assert(Value::field_models(fs@).skip(0) =~= Value::field_models(fs@));
            }
            let inner = display_record(fs, 0);
            let mut r = "{".to_owned();
            r.append(inner.as_str());
            r.append("}");
            proof {
                assert(r@ =~= "{"@ + inner@ + "}"@);
            }
            r
        }
        Value::Process { program, args } => {
            let mut words: Vec<String> = Vec::new();
            words.push(program.clone());
            let mut i: usize = 0;
            while i < args.len()
                invariant
                    i <= args.len(),
                    words@.len() == i as int + 1,
                    words@[0] == *program,
                    forall|j: int| 1 <= j < words@.len() ==> words@[j] == args@[j - 1],
                decreases args.len() - i,
            {
                words.push(args[i].clone());
                i = i + 1;
            }
            proof {
                assert(texts_model(words@) =~= texts_model(args@).insert(0, program@));
            }
            let joined = join_texts(&words);
            let mut r = "<command ".to_owned();
            r.append(joined.as_str());
            r.append(">");
            proof {
                assert(r@ =~= "<command "@ + joined@ + ">"@);
            }
            r
        }
    }
}

fn display_list(es: &Vec<Value>, i: usize) -> (r: Vec<String>)
    requires
        i <= es@.len(),
    ensures
        texts_model(r@) == display_all(Value::models(es@).skip(i as int)),
    decreases *es, 1nat, es@.len() - i,
{
    let ghost ms = Value::models(es@).skip(i as int);
    if i == es.len() {
        let out: Vec<String> = Vec::new();
        proof {
            assert(ms =~= Seq::<ValM>::empty());
            assert(texts_model(out@) =~= Seq::<Seq<char>>::empty());
        }
        out
    } else {
        proof {
            assert(ms[0] == es@[i as int].model());
            assert(ms.drop_first() =~= Value::models(es@).skip(i as int + 1));
        }
        let text = display_value(&es[i]);
        let mut rest = display_list(es, i + 1);
        let ghost before = texts_model(rest@);
        rest.insert(0, text);
        proof {
            assert(texts_model(rest@) =~= before.insert(0, text@));
        }
        rest
    }
}

fn display_record(fs: &Vec<(String, Value)>, i: usize) -> (r: String)
    requires
        i <= fs@.len(),
    ensures
        r@ == display_fields(Value::field_models(fs@).skip(i as int)),
    decreases *fs, 1nat, fs@.len() - i,
{
    let ghost ms = Value::field_models(fs@).skip(i as int);
    if i == fs.len() {
        proof {
            assert(ms =~= Seq::<(Seq<char>, ValM)>::empty());
        }
        String::new()
    } else {
        proof {
            assert(ms[0] == (fs@[i as int].0@, fs@[i as int].1.model()));
            assert(ms.drop_first() =~= Value::field_models(fs@).skip(i as int + 1));
        }
        let (name, v) = &fs[i];
        let mut entry = name.clone();
        entry.append(": ");
        let shown = display_value(v);
        entry.append(shown.as_str());
        proof {
            assert(entry@ =~= ms[0].0 + ": "@ + display_text(ms[0].1));
        }
        if i + 1 == fs.len() {
            proof {
                assert(ms.len() == 1);
            }
            entry
        } else {
            entry.append(", ");
            let rest = display_record(fs, i + 1);
            entry.append(rest.as_str());
            proof {
                assert(entry@ =~= ms[0].0 + ": "@ + display_text(ms[0].1) + ", "@ + display_fields(
                    ms.drop_first(),
                ));
            }
            entry
        }
    }
}

} // verus!
