//! The conversion engine: coercing a runtime value toward a requested
//! structural type.
//!
//! Conversion is the one place a deferred process can run with its output
//! captured.  The engine never spawns anything itself: it reads prior
//! process outcomes from a trace supplied by the caller, advancing a
//! cursor, and when it reaches a run whose outcome the trace does not yet
//! hold it stops with the pending request.
//!
//! The rules, most specific first: matching kinds pass through; text
//! parses to integer; a list renders to text element by element, joined
//! with single spaces; text splits on whitespace runs into a list; lists
//! convert elementwise; integer renders to decimal text; a deferred
//! process converts to text by running (output trimmed of trailing
//! whitespace), and to integer or list by running and then converting the
//! text onward.  A record converts to a record type when it supplies every
//! field the target names; extra fields are dropped.  Every other pairing
//! is a type mismatch.

use vstd::prelude::*;
use vstd::string::*;

use crate::text::{int_text, int_to_text, is_space, join_sp, join_texts, lemma_int_text_token, lemma_parse_int_text, lemma_split_join, parse_i64, parse_int, split_text, split_ws, trim_back, trim_trailing};
use crate::types::Type;
use crate::value::{lemma_field_models_index, lemma_models_index, proc_free, proc_free_all, proc_free_fields, texts_model, outs_model, EvalError, POut, ProcOutcome, ProcRequest, ReqM, ValM, Value};

verus! {

broadcast use vstd::seq::group_seq_axioms, vstd::std_specs::vec::group_vec_axioms, lemma_models_index, lemma_field_models_index;

// ------------------------------------------------------------------
// Spec: running one process against the outcome trace

pub ghost enum RunRes {
    Out { text: Seq<char>, pos: nat },
    Fail { err: EvalError },
    Pending { req: ReqM },
}

/// One process run, replayed against the trace: consume the outcome at
/// the cursor, fail on a failed outcome, or stop with the request when
/// the trace is exhausted.
pub open spec fn run_proc(program: Seq<char>, args: Seq<Seq<char>>, tr: Seq<POut>, pos: nat) -> RunRes {
    if pos < tr.len() {
        match tr[pos as int] {
            POut::Out(text) => RunRes::Out { text, pos: pos + 1 },
            POut::Failed => RunRes::Fail { err: EvalError::ProcessFailure },
        }
    } else {
        RunRes::Pending { req: ReqM { program, args } }
    }
}

// ------------------------------------------------------------------
// Spec: conversion to text

pub ghost enum TextRes {
    Done { text: Seq<char>, pos: nat },
    Fail { err: EvalError },
    Pending { req: ReqM },
}

pub ghost enum TextsRes {
    Done { texts: Seq<Seq<char>>, pos: nat },
    Fail { err: EvalError },
    Pending { req: ReqM },
}

/// Conversion of one value to text: text passes through, an integer
/// renders in decimal, a list joins its elementwise text conversions with
/// single spaces, and a deferred process runs, its captured output
/// trimmed of trailing whitespace.  Booleans, unit and records do not
/// convert to text.
pub open spec fn to_text(v: ValM, tr: Seq<POut>, pos: nat) -> TextRes
    decreases v, 0nat, 0nat,
{
    match v {
        ValM::Str(s) => TextRes::Done { text: s, pos },
        ValM::Int(x) => TextRes::Done { text: int_text(x), pos },
        ValM::List(es) => match to_texts(es, tr, pos) {
            TextsRes::Done { texts, pos: p } => TextRes::Done { text: join_sp(texts), pos: p },
            TextsRes::Fail { err } => TextRes::Fail { err },
            TextsRes::Pending { req } => TextRes::Pending { req },
        },
        ValM::Process { program, args } => match run_proc(program, args, tr, pos) {
            RunRes::Out { text, pos: p } => TextRes::Done { text: trim_back(text), pos: p },
            RunRes::Fail { err } => TextRes::Fail { err },
            RunRes::Pending { req } => TextRes::Pending { req },
        },
        _ => TextRes::Fail { err: EvalError::TypeMismatch },
    }
}

/// Elementwise conversion to text, threading the trace cursor left to
/// right; the first failure or pending run stops everything.
pub open spec fn to_texts(es: Seq<ValM>, tr: Seq<POut>, pos: nat) -> TextsRes
    decreases es, 1nat, 0nat,
{
    if es.len() == 0 {
        TextsRes::Done { texts: Seq::empty(), pos }
    } else {
        match to_text(es[0], tr, pos) {
            TextRes::Done { text, pos: p } => match to_texts(es.drop_first(), tr, p) {
                TextsRes::Done { texts, pos: p2 } => TextsRes::Done {
                    texts: texts.insert(0, text),
                    pos: p2,
                },
                TextsRes::Fail { err } => TextsRes::Fail { err },
                TextsRes::Pending { req } => TextsRes::Pending { req },
            },
            TextRes::Fail { err } => TextsRes::Fail { err },
            TextRes::Pending { req } => TextsRes::Pending { req },
        }
    }
}

// ------------------------------------------------------------------
// Spec: full conversion

pub ghost enum ConvRes {
    Done { v: ValM, pos: nat },
    Fail { err: EvalError },
    Pending { req: ReqM },
}

pub ghost enum ElemsRes {
    Done { vs: Seq<ValM>, pos: nat },
    Fail { err: EvalError },
    Pending { req: ReqM },
}

pub ghost enum FieldsRes {
    Done { fs: Seq<(Seq<char>, ValM)>, pos: nat },
    Fail { err: EvalError },
    Pending { req: ReqM },
}

/// Each text of `ts` as a text value.
pub open spec fn texts_as_vals(ts: Seq<Seq<char>>) -> Seq<ValM> {
    Seq::new(ts.len(), |i: int| ValM::Str(ts[i]))
}

/// First field of `fields` named `k`.
pub open spec fn record_get(fields: Seq<(Seq<char>, ValM)>, k: Seq<char>) -> Option<ValM>
    decreases fields.len(),
{
    if fields.len() == 0 {
        Option::None
    } else if fields[0].0 == k {
        Option::Some(fields[0].1)
    } else {
        record_get(fields.drop_first(), k)
    }
}

/// The conversion relation: `convert(value, target) -> value option`,
/// threaded through the process-outcome trace.
pub open spec fn spec_convert(v: ValM, t: Type, tr: Seq<POut>, pos: nat) -> ConvRes
    decreases t, 0nat, 0nat,
{
    match t {
        Type::Str => match to_text(v, tr, pos) {
            TextRes::Done { text, pos: p } => ConvRes::Done { v: ValM::Str(text), pos: p },
            TextRes::Fail { err } => ConvRes::Fail { err },
            TextRes::Pending { req } => ConvRes::Pending { req },
        },
        Type::Int => match v {
            ValM::Int(x) => ConvRes::Done { v, pos },
            ValM::Str(s) => match parse_int(s) {
                Option::Some(x) => ConvRes::Done { v: ValM::Int(x), pos },
                Option::None => ConvRes::Fail { err: EvalError::ConversionFailure },
            },
            ValM::Process { program, args } => match run_proc(program, args, tr, pos) {
                RunRes::Out { text, pos: p } => match parse_int(trim_back(text)) {
                    Option::Some(x) => ConvRes::Done { v: ValM::Int(x), pos: p },
                    Option::None => ConvRes::Fail { err: EvalError::ConversionFailure },
                },
                RunRes::Fail { err } => ConvRes::Fail { err },
                RunRes::Pending { req } => ConvRes::Pending { req },
            },
            _ => ConvRes::Fail { err: EvalError::TypeMismatch },
        },
        Type::Bool => match v {
            ValM::Bool(_) => ConvRes::Done { v, pos },
            _ => ConvRes::Fail { err: EvalError::TypeMismatch },
        },
        Type::List(te) => match v {
            ValM::List(es) => match conv_elems(*te, es, tr, pos) {
                ElemsRes::Done { vs, pos: p } => ConvRes::Done { v: ValM::List(vs), pos: p },
                ElemsRes::Fail { err } => ConvRes::Fail { err },
                ElemsRes::Pending { req } => ConvRes::Pending { req },
            },
            ValM::Str(s) => match conv_elems(*te, texts_as_vals(split_ws(s)), tr, pos) {
                ElemsRes::Done { vs, pos: p } => ConvRes::Done { v: ValM::List(vs), pos: p },
                ElemsRes::Fail { err } => ConvRes::Fail { err },
                ElemsRes::Pending { req } => ConvRes::Pending { req },
            },
            ValM::Process { program, args } => match run_proc(program, args, tr, pos) {
                RunRes::Out { text, pos: p } => match conv_elems(
                    *te,
                    texts_as_vals(split_ws(trim_back(text))),
                    tr,
                    p,
                ) {
                    ElemsRes::Done { vs, pos: p2 } => ConvRes::Done { v: ValM::List(vs), pos: p2 },
                    ElemsRes::Fail { err } => ConvRes::Fail { err },
                    ElemsRes::Pending { req } => ConvRes::Pending { req },
                },
                RunRes::Fail { err } => ConvRes::Fail { err },
                RunRes::Pending { req } => ConvRes::Pending { req },
            },
            _ => ConvRes::Fail { err: EvalError::TypeMismatch },
        },
        Type::Record(tfs) => match v {
            ValM::Record(rfs) => match conv_fields(tfs@, rfs, tr, pos) {
                FieldsRes::Done { fs, pos: p } => ConvRes::Done { v: ValM::Record(fs), pos: p },
                FieldsRes::Fail { err } => ConvRes::Fail { err },
                FieldsRes::Pending { req } => ConvRes::Pending { req },
            },
            // a deferred process is typed as a record by the surface
            // language and passes through unexecuted: only text, integer
            // and list targets run it
            ValM::Process { .. } => ConvRes::Done { v, pos },
            _ => ConvRes::Fail { err: EvalError::TypeMismatch },
        },
        _ => ConvRes::Fail { err: EvalError::TypeMismatch },
    }
}

/// Elementwise conversion of a list toward the element type, threading
/// the trace cursor; the first failure stops everything.
pub open spec fn conv_elems(te: Type, es: Seq<ValM>, tr: Seq<POut>, pos: nat) -> ElemsRes
    decreases te, 1nat, es.len(),
{
    if es.len() == 0 {
        ElemsRes::Done { vs: Seq::empty(), pos }
    } else {
        match spec_convert(es[0], te, tr, pos) {
            ConvRes::Done { v, pos: p } => match conv_elems(te, es.drop_first(), tr, p) {
                ElemsRes::Done { vs, pos: p2 } => ElemsRes::Done { vs: vs.insert(0, v), pos: p2 },
                ElemsRes::Fail { err } => ElemsRes::Fail { err },
                ElemsRes::Pending { req } => ElemsRes::Pending { req },
            },
            ConvRes::Fail { err } => ElemsRes::Fail { err },
            ConvRes::Pending { req } => ElemsRes::Pending { req },
        }
    }
}

/// Fieldwise conversion of a record value toward a record type's fields,
/// in the target's order.  A field the value does not supply fails the
/// whole conversion; extra fields of the value are ignored.
pub open spec fn conv_fields(
    tfs: Seq<(String, Type)>,
    rfs: Seq<(Seq<char>, ValM)>,
    tr: Seq<POut>,
    pos: nat,
) -> FieldsRes
    decreases tfs, 1nat, 0nat,
{
    if tfs.len() == 0 {
        FieldsRes::Done { fs: Seq::empty(), pos }
    } else {
        match record_get(rfs, tfs[0].0@) {
            Option::None => FieldsRes::Fail { err: EvalError::ConversionFailure },
            Option::Some(fv) => match spec_convert(fv, tfs[0].1, tr, pos) {
                ConvRes::Done { v, pos: p } => match conv_fields(tfs.drop_first(), rfs, tr, p) {
                    FieldsRes::Done { fs, pos: p2 } => FieldsRes::Done {
                        fs: fs.insert(0, (tfs[0].0@, v)),
                        pos: p2,
                    },
                    FieldsRes::Fail { err } => FieldsRes::Fail { err },
                    FieldsRes::Pending { req } => FieldsRes::Pending { req },
                },
                ConvRes::Fail { err } => FieldsRes::Fail { err },
                ConvRes::Pending { req } => FieldsRes::Pending { req },
            },
        }
    }
}

// ------------------------------------------------------------------
// Exec outcomes

/// Result of a conversion: the converted value, a fatal error, or a
/// pending process run whose outcome the trace does not hold yet.
pub enum Converted {
    Done(Value),
    Fail(EvalError),
    Pending(ProcRequest),
}

pub(crate) enum Replay {
    Out(String),
    Fail(EvalError),
    Pending(ProcRequest),
}

pub(crate) enum TextOut {
    Done(String),
    Fail(EvalError),
    Pending(ProcRequest),
}

enum TextsOut {
    Done(Vec<String>),
    Fail(EvalError),
    Pending(ProcRequest),
}

enum ElemsOut {
    Done(Vec<Value>),
    Fail(EvalError),
    Pending(ProcRequest),
}

enum FieldsOut {
    Done(Vec<(String, Value)>),
    Fail(EvalError),
    Pending(ProcRequest),
}

pub open spec fn convert_matches(r: Converted, p: nat, c: ConvRes) -> bool {
    match c {
        ConvRes::Done { v, pos } => r is Done && r->Done_0.model() == v && p == pos,
        ConvRes::Fail { err } => r == Converted::Fail(err),
        ConvRes::Pending { req } => r is Pending && r->Pending_0.model() == req,
    }
}

pub(crate) open spec fn run_matches(r: Replay, p: nat, c: RunRes) -> bool {
    match c {
        RunRes::Out { text, pos } => r is Out && r->Out_0@ == text && p == pos,
        RunRes::Fail { err } => r == Replay::Fail(err),
        RunRes::Pending { req } => r is Pending && r->Pending_0.model() == req,
    }
}

pub(crate) open spec fn text_matches(r: TextOut, p: nat, c: TextRes) -> bool {
    match c {
        TextRes::Done { text, pos } => r is Done && r->Done_0@ == text && p == pos,
        TextRes::Fail { err } => r == TextOut::Fail(err),
        TextRes::Pending { req } => r is Pending && r->Pending_0.model() == req,
    }
}

spec fn texts_matches(r: TextsOut, p: nat, c: TextsRes) -> bool {
    match c {
        TextsRes::Done { texts, pos } => r is Done && texts_model(r->Done_0@) == texts && p == pos,
        TextsRes::Fail { err } => r == TextsOut::Fail(err),
        TextsRes::Pending { req } => r is Pending && r->Pending_0.model() == req,
    }
}

spec fn elems_matches(r: ElemsOut, p: nat, c: ElemsRes) -> bool {
    match c {
        ElemsRes::Done { vs, pos } => r is Done && Value::models(r->Done_0@) == vs && p == pos,
        ElemsRes::Fail { err } => r == ElemsOut::Fail(err),
        ElemsRes::Pending { req } => r is Pending && r->Pending_0.model() == req,
    }
}

spec fn fields_matches(r: FieldsOut, p: nat, c: FieldsRes) -> bool {
    match c {
        FieldsRes::Done { fs, pos } => r is Done && Value::field_models(r->Done_0@) == fs && p == pos,
        FieldsRes::Fail { err } => r == FieldsOut::Fail(err),
        FieldsRes::Pending { req } => r is Pending && r->Pending_0.model() == req,
    }
}

// ------------------------------------------------------------------
// Exec: helpers

fn clone_strings(v: &Vec<String>) -> (r: Vec<String>)
    ensures
        r@.len() == v@.len(),
        forall|i: int| 0 <= i < v@.len() ==> r@[i] == v@[i],
{
    let mut out: Vec<String> = Vec::new();
    let mut i: usize = 0;
    while i < v.len()
        invariant
            i <= v.len(),
            out@.len() == i as int,
            forall|j: int| 0 <= j < i as int ==> out@[j] == v@[j],
        decreases v.len() - i,
    {
        out.push(v[i].clone());
        i = i + 1;
    }
    out
}

/// Replay one process run from the trace.
pub(crate) fn replay_run(
    program: &String,
    args: &Vec<String>,
    outcomes: &Vec<ProcOutcome>,
    pos: &mut usize,
) -> (r: Replay)
    ensures
        run_matches(
            r,
            *final(pos) as nat,
            run_proc(program@, texts_model(args@), outs_model(outcomes@), *old(pos) as nat),
        ),
        *old(pos) <= *final(pos) <= outcomes@.len() || *final(pos) == *old(pos),
{
    if *pos < outcomes.len() {
        match &outcomes[*pos] {
            ProcOutcome::Out(s) => {
                let text = s.clone();
                *pos = *pos + 1;
                Replay::Out(text)
            }
            ProcOutcome::Failed => Replay::Fail(EvalError::ProcessFailure),
        }
    } else {
        let cloned = clone_strings(args);
        proof {
            assert(texts_model(cloned@) =~= texts_model(args@));
        }
        Replay::Pending(ProcRequest { program: program.clone(), args: cloned })
    }
}

/// First field of the record named `k`, copied out.
fn record_find(fields: &Vec<(String, Value)>, k: &String) -> (r: Option<Value>)
    ensures
        match record_get(Value::field_models(fields@), k@) {
            Option::None => r is None,
            Option::Some(v) => r is Some && r->0.model() == v,
        },
{
    let mut i: usize = 0;
    while i < fields.len()
        invariant
            i <= fields.len(),
            forall|j: int| 0 <= j < i as int ==> fields@[j].0@ != k@,
        decreases fields.len() - i,
    {
        if fields[i].0.eq(k) {
            proof {
                lemma_record_get_skip(Value::field_models(fields@), k@, i as int);
            }
            return Some(fields[i].1.duplicate());
        }
        i = i + 1;
    }
    proof {
        lemma_record_get_skip(Value::field_models(fields@), k@, i as int);
        assert(Value::field_models(fields@).skip(i as int) =~= Seq::empty());
    }
    None
}

proof fn lemma_record_get_skip(fields: Seq<(Seq<char>, ValM)>, k: Seq<char>, i: int)
    requires
        0 <= i <= fields.len(),
        forall|j: int| 0 <= j < i ==> fields[j].0 != k,
    ensures
        record_get(fields, k) == record_get(fields.skip(i), k),
    decreases i,
{
    if i == 0 {
        assert(fields.skip(0) =~= fields);
    } else {
        assert(fields[0].0 != k);
        assert(forall|j: int| 0 <= j < i - 1 ==> fields.drop_first()[j] == fields[j + 1]);
        lemma_record_get_skip(fields.drop_first(), k, i - 1);
        assert(fields.drop_first().skip(i - 1) =~= fields.skip(i));
    }
}

// ------------------------------------------------------------------
// Exec: conversion to text

pub(crate) fn to_text_value(v: &Value, outcomes: &Vec<ProcOutcome>, pos: &mut usize) -> (r: TextOut)
    ensures
        text_matches(r, *final(pos) as nat, to_text(v.model(), outs_model(outcomes@), *old(pos) as nat)),
    decreases *v, 0nat, 0nat,
{
    match v {
        Value::Str(s) => TextOut::Done(s.clone()),
        Value::Int(x) => TextOut::Done(int_to_text(*x)),
        Value::List(es) => {
            proof {
                assert(decreases_to!(*v => (*v)->List_0));
                assert(Value::models(es@).skip(0) =~= Value::models(es@));
            }
            match to_texts_value(es, 0, outcomes, pos) {
                TextsOut::Done(texts) => {
                    let joined = join_texts(&texts);
                    TextOut::Done(joined)
                }
                TextsOut::Fail(e) => TextOut::Fail(e),
                TextsOut::Pending(q) => TextOut::Pending(q),
            }
        }
        Value::Process { program, args } => {
            match replay_run(program, args, outcomes, pos) {
                Replay::Out(text) => TextOut::Done(trim_trailing(text.as_str())),
                Replay::Fail(e) => TextOut::Fail(e),
                Replay::Pending(q) => TextOut::Pending(q),
            }
        }
        _ => TextOut::Fail(EvalError::TypeMismatch),
    }
}

fn to_texts_value(es: &Vec<Value>, i: usize, outcomes: &Vec<ProcOutcome>, pos: &mut usize) -> (r:
    TextsOut)
    requires
        i <= es@.len(),
    ensures
        texts_matches(
            r,
            *final(pos) as nat,
            to_texts(Value::models(es@).skip(i as int), outs_model(outcomes@), *old(pos) as nat),
        ),
    decreases *es, 1nat, es@.len() - i,
{
    let ghost ms = Value::models(es@).skip(i as int);
    if i == es.len() {
        let empty_toks: Vec<String> = Vec::new();
        proof {
            assert(ms =~= Seq::<ValM>::empty());
            assert(texts_model(empty_toks@) =~= Seq::<Seq<char>>::empty());
        }
        TextsOut::Done(empty_toks)
    } else {
        proof {
            assert(decreases_to!(*es => es@));
            assert(decreases_to!(es@ => es@[i as int]));
            assert(ms[0] == es@[i as int].model());
        }
        match to_text_value(&es[i], outcomes, pos) {
            TextOut::Done(text) => {
                match to_texts_value(es, i + 1, outcomes, pos) {
                    TextsOut::Done(mut texts) => {
                        proof {
                            assert(ms.drop_first() =~= Value::models(es@).skip(i as int + 1));
                        }
                        let ghost before = texts_model(texts@);
                        texts.insert(0, text);
                        proof {
                            assert(texts_model(texts@) =~= before.insert(0, text@));
                        }
                        TextsOut::Done(texts)
                    }
                    TextsOut::Fail(e) => {
                        proof {
                            assert(ms.drop_first() =~= Value::models(es@).skip(i as int + 1));
                        }
                        TextsOut::Fail(e)
                    }
                    TextsOut::Pending(q) => {
                        proof {
                            assert(ms.drop_first() =~= Value::models(es@).skip(i as int + 1));
                        }
                        TextsOut::Pending(q)
                    }
                }
            }
            TextOut::Fail(e) => TextsOut::Fail(e),
            TextOut::Pending(q) => TextsOut::Pending(q),
        }
    }
}

// ------------------------------------------------------------------
// Exec: full conversion

impl Value {
    /// Convert this value toward the target type, replaying process runs
    /// from `outcomes` at the cursor `pos`.
    pub fn convert(&self, ty: &Type, outcomes: &Vec<ProcOutcome>, pos: &mut usize) -> (r: Converted)
        ensures
            convert_matches(
                r,
                *final(pos) as nat,
                spec_convert(self.model(), *ty, outs_model(outcomes@), *old(pos) as nat),
            ),
        decreases *ty, 0nat, 0nat,
    {
        match ty {
            Type::Str => match to_text_value(self, outcomes, pos) {
                TextOut::Done(text) => Converted::Done(Value::Str(text)),
                TextOut::Fail(e) => Converted::Fail(e),
                TextOut::Pending(q) => Converted::Pending(q),
            },
            Type::Int => match self {
                Value::Int(x) => Converted::Done(Value::Int(*x)),
                Value::Str(s) => match parse_i64(s.as_str()) {
                    Some(x) => Converted::Done(Value::Int(x)),
                    None => Converted::Fail(EvalError::ConversionFailure),
                },
                Value::Process { program, args } => match replay_run(program, args, outcomes, pos) {
                    Replay::Out(text) => {
                        let trimmed = trim_trailing(text.as_str());
                        match parse_i64(trimmed.as_str()) {
                            Some(x) => Converted::Done(Value::Int(x)),
                            None => Converted::Fail(EvalError::ConversionFailure),
                        }
                    }
                    Replay::Fail(e) => Converted::Fail(e),
                    Replay::Pending(q) => Converted::Pending(q),
                },
                _ => Converted::Fail(EvalError::TypeMismatch),
            },
            Type::Bool => match self {
                Value::Bool(b) => Converted::Done(Value::Bool(*b)),
                _ => Converted::Fail(EvalError::TypeMismatch),
            },
            Type::List(te) => {
                proof {
                    assert(decreases_to!(*ty => (*ty)->List_0));
                }
                match self {
                    Value::List(es) => {
                        proof {
                            assert(Value::models(es@).skip(0) =~= Value::models(es@));
                        }
                        match convert_elems(te, es, 0, outcomes, pos) {
                            ElemsOut::Done(vs) => Converted::Done(Value::List(vs)),
                            ElemsOut::Fail(e) => Converted::Fail(e),
                            ElemsOut::Pending(q) => Converted::Pending(q),
                        }
                    }
                    Value::Str(s) => {
                        let toks = split_text(s.as_str());
                        let vals = texts_to_values(&toks);
                        proof {
                            assert(Value::models(vals@).skip(0) =~= texts_as_vals(split_ws(s@)));
                        }
                        match convert_elems(te, &vals, 0, outcomes, pos) {
                            ElemsOut::Done(vs) => Converted::Done(Value::List(vs)),
                            ElemsOut::Fail(e) => Converted::Fail(e),
                            ElemsOut::Pending(q) => Converted::Pending(q),
                        }
                    }
                    Value::Process { program, args } => {
                        match replay_run(program, args, outcomes, pos) {
                            Replay::Out(text) => {
                                let trimmed = trim_trailing(text.as_str());
                                let toks = split_text(trimmed.as_str());
                                let vals = texts_to_values(&toks);
                                proof {
                                    assert(Value::models(vals@).skip(0) =~= texts_as_vals(
                                        split_ws(trim_back(text@)),
                                    ));
                                }
                                match convert_elems(te, &vals, 0, outcomes, pos) {
                                    ElemsOut::Done(vs) => Converted::Done(Value::List(vs)),
                                    ElemsOut::Fail(e) => Converted::Fail(e),
                                    ElemsOut::Pending(q) => Converted::Pending(q),
                                }
                            }
                            Replay::Fail(e) => Converted::Fail(e),
                            Replay::Pending(q) => Converted::Pending(q),
                        }
                    }
                    _ => Converted::Fail(EvalError::TypeMismatch),
                }
            }
            Type::Record(tfs) => match self {
                Value::Record(rfs) => {
                    proof {
                        assert(decreases_to!(*ty => (*ty)->Record_0));
                        assert(tfs@.skip(0) =~= tfs@);
                    }
                    match convert_fields(tfs, 0, rfs, outcomes, pos) {
                        FieldsOut::Done(fs) => Converted::Done(Value::Record(fs)),
                        FieldsOut::Fail(e) => Converted::Fail(e),
                        FieldsOut::Pending(q) => Converted::Pending(q),
                    }
                }
                Value::Process { .. } => Converted::Done(self.duplicate()),
                _ => Converted::Fail(EvalError::TypeMismatch),
            },
            _ => Converted::Fail(EvalError::TypeMismatch),
        }
    }
}

/// Each token as a text value.
fn texts_to_values(toks: &Vec<String>) -> (r: Vec<Value>)
    ensures
        Value::models(r@) == texts_as_vals(texts_model(toks@)),
{
    let mut out: Vec<Value> = Vec::new();
    let mut i: usize = 0;
    while i < toks.len()
        invariant
            i <= toks.len(),
            out@.len() == i as int,
            forall|j: int| 0 <= j < i as int ==> out@[j].model() == ValM::Str(toks@[j]@),
        decreases toks.len() - i,
    {
        out.push(Value::Str(toks[i].clone()));
        i = i + 1;
    }
    proof {
        assert(Value::models(out@) =~= texts_as_vals(texts_model(toks@)));
    }
    out
}

fn convert_elems(
    te: &Type,
    es: &Vec<Value>,
    i: usize,
    outcomes: &Vec<ProcOutcome>,
    pos: &mut usize,
) -> (r: ElemsOut)
    requires
        i <= es@.len(),
    ensures
        elems_matches(
            r,
            *final(pos) as nat,
            conv_elems(*te, Value::models(es@).skip(i as int), outs_model(outcomes@), *old(pos) as nat),
        ),
    decreases *te, 1nat, es@.len() - i,
{
    let ghost ms = Value::models(es@).skip(i as int);
    if i == es.len() {
        proof {
            assert(ms =~= Seq::<ValM>::empty());
        }
        ElemsOut::Done(Vec::new())
    } else {
        proof {
            assert(ms[0] == es@[i as int].model());
        }
        match es[i].convert(te, outcomes, pos) {
            Converted::Done(v) => {
                match convert_elems(te, es, i + 1, outcomes, pos) {
                    ElemsOut::Done(mut vs) => {
                        proof {
                            assert(ms.drop_first() =~= Value::models(es@).skip(i as int + 1));
                        }
                        let ghost before = Value::models(vs@);
                        let ghost v_m = v.model();
                        vs.insert(0, v);
                        proof {
                            assert(Value::models(vs@) =~= before.insert(0, v_m));
                        }
                        ElemsOut::Done(vs)
                    }
                    ElemsOut::Fail(e) => {
                        proof {
                            assert(ms.drop_first() =~= Value::models(es@).skip(i as int + 1));
                        }
                        ElemsOut::Fail(e)
                    }
                    ElemsOut::Pending(q) => {
                        proof {
                            assert(ms.drop_first() =~= Value::models(es@).skip(i as int + 1));
                        }
                        ElemsOut::Pending(q)
                    }
                }
            }
            Converted::Fail(e) => ElemsOut::Fail(e),
            Converted::Pending(q) => ElemsOut::Pending(q),
        }
    }
}

fn convert_fields(
    tfs: &Vec<(String, Type)>,
    i: usize,
    rfs: &Vec<(String, Value)>,
    outcomes: &Vec<ProcOutcome>,
    pos: &mut usize,
) -> (r: FieldsOut)
    requires
        i <= tfs@.len(),
    ensures
        fields_matches(
            r,
            *final(pos) as nat,
            conv_fields(
                tfs@.skip(i as int),
                Value::field_models(rfs@),
                outs_model(outcomes@),
                *old(pos) as nat,
            ),
        ),
    decreases *tfs, 1nat, tfs@.len() - i,
{
    let ghost fs = tfs@.skip(i as int);
    if i == tfs.len() {
        proof {
            assert(fs =~= Seq::<(String, Type)>::empty());
        }
        FieldsOut::Done(Vec::new())
    } else {
        proof {
            assert(decreases_to!(*tfs => tfs@));
            assert(decreases_to!(tfs@ => tfs@[i as int]));
            assert(fs[0] == tfs@[i as int]);
        }
        let (name, fty) = &tfs[i];
        match record_find(rfs, name) {
            None => FieldsOut::Fail(EvalError::ConversionFailure),
            Some(fv) => match fv.convert(fty, outcomes, pos) {
                Converted::Done(cv) => {
                    match convert_fields(tfs, i + 1, rfs, outcomes, pos) {
                        FieldsOut::Done(mut out) => {
                            proof {
                                assert(fs.drop_first() =~= tfs@.skip(i as int + 1));
                            }
                            let ghost fs_before = Value::field_models(out@);
                            let ghost cv_m = cv.model();
                            out.insert(0, (name.clone(), cv));
                            proof {
                                assert(Value::field_models(out@) =~= fs_before.insert(
                                    0,
                                    (name@, cv_m),
                                ));
                            }
                            FieldsOut::Done(out)
                        }
                        FieldsOut::Fail(e) => {
                            proof {
                                assert(fs.drop_first() =~= tfs@.skip(i as int + 1));
                            }
                            FieldsOut::Fail(e)
                        }
                        FieldsOut::Pending(q) => {
                            proof {
                                assert(fs.drop_first() =~= tfs@.skip(i as int + 1));
                            }
                            FieldsOut::Pending(q)
                        }
                    }
                }
                Converted::Fail(e) => FieldsOut::Fail(e),
                Converted::Pending(q) => FieldsOut::Pending(q),
            },
        }
    }
}


// ------------------------------------------------------------------
// Laws of the conversion engine

/// Each integer as an integer value.
pub open spec fn ints_as_vals(xs: Seq<int>) -> Seq<ValM> {
    Seq::new(xs.len(), |i: int| ValM::Int(xs[i]))
}

/// The decimal renderings of a sequence of integers.
pub open spec fn int_texts(xs: Seq<int>) -> Seq<Seq<char>> {
    Seq::new(xs.len(), |i: int| int_text(xs[i]))
}

proof fn lemma_to_texts_ints(xs: Seq<int>, tr: Seq<POut>, pos: nat)
    ensures
        to_texts(ints_as_vals(xs), tr, pos) == (TextsRes::Done { texts: int_texts(xs), pos }),
    decreases xs.len(),
{
    let vs = ints_as_vals(xs);
    if xs.len() == 0 {
        assert(to_texts(vs, tr, pos) == TextsRes::Done { texts: Seq::<Seq<char>>::empty(), pos });
        assert(int_texts(xs) =~= Seq::<Seq<char>>::empty());
    } else {
        lemma_to_texts_ints(xs.drop_first(), tr, pos);
        assert(vs[0] == ValM::Int(xs[0]));
        assert(vs.drop_first() =~= ints_as_vals(xs.drop_first()));
        assert(to_text(vs[0], tr, pos) == (TextRes::Done { text: int_text(xs[0]), pos }));
        assert(to_texts(vs.drop_first(), tr, pos) == (TextsRes::Done {
            texts: int_texts(xs.drop_first()),
            pos,
        }));
        assert(to_texts(vs, tr, pos) == (TextsRes::Done {
            texts: int_texts(xs.drop_first()).insert(0, int_text(xs[0])),
            pos,
        }));
        assert(int_texts(xs.drop_first()).insert(0, int_text(xs[0])) =~= int_texts(xs));
    }
}

proof fn lemma_conv_elems_int_texts(te: Type, xs: Seq<int>, tr: Seq<POut>, pos: nat)
    requires
        (te is Int),
        forall|i: int| 0 <= i < xs.len() ==> i64::MIN <= #[trigger] xs[i] <= i64::MAX,
    ensures
        conv_elems(te, texts_as_vals(int_texts(xs)), tr, pos) == (ElemsRes::Done {
            vs: ints_as_vals(xs),
            pos,
        }),
    decreases xs.len(),
{
    let es = texts_as_vals(int_texts(xs));
    if xs.len() == 0 {
        assert(es.len() == 0);
        assert(ints_as_vals(xs) =~= Seq::<ValM>::empty());
    } else {
        assert(es[0] == ValM::Str(int_text(xs[0])));
        lemma_parse_int_text(xs[0]);
        assert(spec_convert(es[0], te, tr, pos) == ConvRes::Done { v: ValM::Int(xs[0]), pos });
        lemma_conv_elems_int_texts(te, xs.drop_first(), tr, pos);
        assert(es.drop_first() =~= texts_as_vals(int_texts(xs.drop_first())));
        assert(ints_as_vals(xs.drop_first()).insert(0, ValM::Int(xs[0])) =~= ints_as_vals(xs));
    }
}

/// Round trip: a list of integers, converted to text and that text
/// converted back to a list of integers, is the original list.  The trip
/// runs no process and moves the trace cursor nowhere.
pub proof fn lemma_int_list_round_trip(xs: Seq<int>, t_list: Type, tr: Seq<POut>, pos: nat)
    requires
        forall|i: int| 0 <= i < xs.len() ==> i64::MIN <= #[trigger] xs[i] <= i64::MAX,
        (t_list is List),
        (*t_list->List_0 is Int),
    ensures
        spec_convert(ValM::List(ints_as_vals(xs)), Type::Str, tr, pos) == (ConvRes::Done {
            v: ValM::Str(join_sp(int_texts(xs))),
            pos,
        }),
        spec_convert(ValM::Str(join_sp(int_texts(xs))), t_list, tr, pos) == (ConvRes::Done {
            v: ValM::List(ints_as_vals(xs)),
            pos,
        }),
{
    // out: the list renders element by element, joined with spaces
    lemma_to_texts_ints(xs, tr, pos);
    let text = join_sp(int_texts(xs));
    // back: the text splits into exactly the renderings
    assert forall|i: int| 0 <= i < int_texts(xs).len() implies (#[trigger] int_texts(xs)[i]).len()
        > 0 && forall|j: int| 0 <= j < int_texts(xs)[i].len() ==> !is_space(int_texts(xs)[i][j]) by {
        lemma_int_text_token(xs[i]);
    }
    lemma_split_join(int_texts(xs));
    lemma_conv_elems_int_texts(*t_list->List_0, xs, tr, pos);
}

// ------------------------------------------------------------------
// Process-free conversions stand still

/// Converting a process-free value to text runs nothing: it never
/// suspends and leaves the trace cursor where it was.
pub proof fn lemma_pure_to_text(v: ValM, tr: Seq<POut>, pos: nat)
    requires
        proc_free(v),
    ensures
        !(to_text(v, tr, pos) is Pending),
        to_text(v, tr, pos) is Done ==> to_text(v, tr, pos)->Done_pos == pos,
    decreases v, 0nat, 0nat,
{
    match v {
        ValM::List(es) => {
            lemma_pure_to_texts(es, tr, pos);
        }
        _ => {}
    }
}

pub proof fn lemma_pure_to_texts(es: Seq<ValM>, tr: Seq<POut>, pos: nat)
    requires
        proc_free_all(es),
    ensures
        !(to_texts(es, tr, pos) is Pending),
        to_texts(es, tr, pos) is Done ==> to_texts(es, tr, pos)->Done_pos == pos,
    decreases es, 1nat, 0nat,
{
    if es.len() > 0 {
        lemma_pure_to_text(es[0], tr, pos);
        match to_text(es[0], tr, pos) {
            TextRes::Done { text, pos: p } => {
                lemma_pure_to_texts(es.drop_first(), tr, p);
            }
            _ => {}
        }
    }
}

/// Converting a process-free value runs nothing: it never suspends and
/// leaves the trace cursor where it was.
pub proof fn lemma_pure_convert(v: ValM, t: Type, tr: Seq<POut>, pos: nat)
    requires
        proc_free(v),
    ensures
        !(spec_convert(v, t, tr, pos) is Pending),
        spec_convert(v, t, tr, pos) is Done ==> spec_convert(v, t, tr, pos)->Done_pos == pos,
    decreases t, 0nat, 0nat,
{
    match t {
        Type::Str => {
            lemma_pure_to_text(v, tr, pos);
        }
        Type::List(te) => {
            match v {
                ValM::List(es) => {
                    lemma_pure_conv_elems(*te, es, tr, pos);
                }
                ValM::Str(s) => {
                    let toks = texts_as_vals(split_ws(s));
                    assert forall|i: int| 0 <= i < toks.len() implies proc_free(#[trigger] toks[i]) by {
                        assert(toks[i] is Str);
                    }
                    crate::value::lemma_proc_free_all_index(toks);
                    lemma_pure_conv_elems(*te, toks, tr, pos);
                }
                _ => {}
            }
        }
        Type::Record(tfs) => {
            match v {
                ValM::Record(rfs) => {
                    lemma_pure_conv_fields(tfs@, rfs, tr, pos);
                }
                _ => {}
            }
        }
        _ => {}
    }
}

pub proof fn lemma_pure_conv_elems(te: Type, es: Seq<ValM>, tr: Seq<POut>, pos: nat)
    requires
        proc_free_all(es),
    ensures
        !(conv_elems(te, es, tr, pos) is Pending),
        conv_elems(te, es, tr, pos) is Done ==> conv_elems(te, es, tr, pos)->Done_pos == pos,
    decreases te, 1nat, es.len(),
{
    if es.len() > 0 {
        lemma_pure_convert(es[0], te, tr, pos);
        match spec_convert(es[0], te, tr, pos) {
            ConvRes::Done { v, pos: p } => {
                lemma_pure_conv_elems(te, es.drop_first(), tr, p);
            }
            _ => {}
        }
    }
}

/// A present field of a process-free record is process-free.
proof fn lemma_record_get_pure(rfs: Seq<(Seq<char>, ValM)>, k: Seq<char>)
    requires
        proc_free_fields(rfs),
    ensures
        record_get(rfs, k) is Some ==> proc_free(record_get(rfs, k)->0),
    decreases rfs.len(),
{
    if rfs.len() > 0 && rfs[0].0 != k {
        lemma_record_get_pure(rfs.drop_first(), k);
    }
}

pub proof fn lemma_pure_conv_fields(
    tfs: Seq<(String, Type)>,
    rfs: Seq<(Seq<char>, ValM)>,
    tr: Seq<POut>,
    pos: nat,
)
    requires
        proc_free_fields(rfs),
    ensures
        !(conv_fields(tfs, rfs, tr, pos) is Pending),
        conv_fields(tfs, rfs, tr, pos) is Done ==> conv_fields(tfs, rfs, tr, pos)->Done_pos == pos,
    decreases tfs, 1nat, 0nat,
{
    if tfs.len() > 0 {
        lemma_record_get_pure(rfs, tfs[0].0@);
        match record_get(rfs, tfs[0].0@) {
            Option::Some(fv) => {
                lemma_pure_convert(fv, tfs[0].1, tr, pos);
                match spec_convert(fv, tfs[0].1, tr, pos) {
                    ConvRes::Done { v, pos: p } => {
                        lemma_pure_conv_fields(tfs.drop_first(), rfs, tr, p);
                    }
                    _ => {}
                }
            }
            Option::None => {}
        }
    }
}

// ------------------------------------------------------------------
// The record-conversion law

/// Fieldwise conversion succeeds exactly when every target field is
/// present and converts, and then yields the target's fields in the
/// target's order.
proof fn lemma_conv_fields_iff(
    tfs: Seq<(String, Type)>,
    rfs: Seq<(Seq<char>, ValM)>,
    tr: Seq<POut>,
    pos: nat,
)
    requires
        proc_free_fields(rfs),
    ensures
        conv_fields(tfs, rfs, tr, pos) is Done <==> (forall|i: int|
            0 <= i < tfs.len() ==> record_get(rfs, (#[trigger] tfs[i]).0@) is Some && spec_convert(
                record_get(rfs, tfs[i].0@)->0,
                tfs[i].1,
                tr,
                pos,
            ) is Done),
        conv_fields(tfs, rfs, tr, pos) is Done ==> {
            let fs = conv_fields(tfs, rfs, tr, pos)->Done_fs;
            &&& fs.len() == tfs.len()
            &&& forall|i: int|
                0 <= i < tfs.len() ==> #[trigger] fs[i] == (
                    tfs[i].0@,
                    spec_convert(record_get(rfs, tfs[i].0@)->0, tfs[i].1, tr, pos)->Done_v,
                )
        },
    decreases tfs.len(),
{
    if tfs.len() > 0 {
        let rest = tfs.drop_first();
        assert(forall|i: int| 0 <= i < rest.len() ==> #[trigger] rest[i] == tfs[i + 1]);
        lemma_record_get_pure(rfs, tfs[0].0@);
        match record_get(rfs, tfs[0].0@) {
            Option::Some(fv) => {
                lemma_pure_convert(fv, tfs[0].1, tr, pos);
                match spec_convert(fv, tfs[0].1, tr, pos) {
                    ConvRes::Done { v, pos: p } => {
                        assert(p == pos);
                        lemma_conv_fields_iff(rest, rfs, tr, pos);
                        if conv_fields(tfs, rfs, tr, pos) is Done {
                            assert(conv_fields(rest, rfs, tr, pos) is Done);
                            assert forall|i: int| 0 <= i < tfs.len() implies record_get(
                                rfs,
                                (#[trigger] tfs[i]).0@,
                            ) is Some && spec_convert(
                                record_get(rfs, tfs[i].0@)->0,
                                tfs[i].1,
                                tr,
                                pos,
                            ) is Done by {
                                if i > 0 {
                                    assert(record_get(rfs, rest[i - 1].0@) is Some && spec_convert(
                                        record_get(rfs, rest[i - 1].0@)->0,
                                        rest[i - 1].1,
                                        tr,
                                        pos,
                                    ) is Done);
                                }
                            }
                            match conv_fields(rest, rfs, tr, pos) {
                                FieldsRes::Done { fs, pos: p2 } => {
                                    let out = conv_fields(tfs, rfs, tr, pos)->Done_fs;
                                    assert(out == fs.insert(0, (tfs[0].0@, v)));
                                    assert(out[0] == (tfs[0].0@, v));
                                    assert(forall|i: int|
                                        1 <= i < out.len() ==> #[trigger] out[i] == fs[i - 1]);
                                    assert forall|i: int| 0 <= i < tfs.len() implies #[trigger] out[i]
                                        == (
                                        tfs[i].0@,
                                        spec_convert(
                                            record_get(rfs, tfs[i].0@)->0,
                                            tfs[i].1,
                                            tr,
                                            pos,
                                        )->Done_v,
                                    ) by {
                                        if i > 0 {
                                            assert(fs[i - 1] == (
                                                rest[i - 1].0@,
                                                spec_convert(
                                                    record_get(rfs, rest[i - 1].0@)->0,
                                                    rest[i - 1].1,
                                                    tr,
                                                    pos,
                                                )->Done_v,
                                            ));
                                        }
                                    }
                                }
                                _ => {}
                            }
                        } else {
                            // some field is missing or does not convert
                            if forall|i: int|
                                0 <= i < tfs.len() ==> record_get(rfs, (#[trigger] tfs[i]).0@)
                                    is Some && spec_convert(
                                    record_get(rfs, tfs[i].0@)->0,
                                    tfs[i].1,
                                    tr,
                                    pos,
                                ) is Done {
                                assert forall|i: int| 0 <= i < rest.len() implies record_get(
                                    rfs,
                                    (#[trigger] rest[i]).0@,
                                ) is Some && spec_convert(
                                    record_get(rfs, rest[i].0@)->0,
                                    rest[i].1,
                                    tr,
                                    pos,
                                ) is Done by {
                                    assert(rest[i] == tfs[i + 1]);
                                    assert(record_get(rfs, tfs[i + 1].0@) is Some && spec_convert(
                                        record_get(rfs, tfs[i + 1].0@)->0,
                                        tfs[i + 1].1,
                                        tr,
                                        pos,
                                    ) is Done);
                                }
                                assert(conv_fields(rest, rfs, tr, pos) is Done);
                                assert(conv_fields(tfs, rfs, tr, pos) is Done);
                                assert(false);
                            }
                        }
                    }
                    _ => {
                        assert(!(conv_fields(tfs, rfs, tr, pos) is Done));
                        assert(!(spec_convert(record_get(rfs, tfs[0].0@)->0, tfs[0].1, tr, pos)
                            is Done));
                    }
                }
            }
            Option::None => {
                assert(!(conv_fields(tfs, rfs, tr, pos) is Done));
                assert(record_get(rfs, tfs[0].0@) is None);
            }
        }
    }
}

/// Record conversion: for a process-free record value and a record type,
/// conversion succeeds exactly when the value supplies every field the
/// type names and each supplied field converts to the named field type.
/// The result then carries exactly the type's fields, in the type's
/// order, with the converted values — never the record's extra fields —
/// and the trace cursor has not moved.
pub proof fn lemma_record_conversion(
    rfs: Seq<(Seq<char>, ValM)>,
    t: Type,
    tr: Seq<POut>,
    pos: nat,
)
    requires
        proc_free_fields(rfs),
        (t is Record),
    ensures
        spec_convert(ValM::Record(rfs), t, tr, pos) is Done <==> (forall|i: int|
            0 <= i < t->Record_0@.len() ==> record_get(rfs, (#[trigger] t->Record_0@[i]).0@)
                is Some && spec_convert(
                record_get(rfs, t->Record_0@[i].0@)->0,
                t->Record_0@[i].1,
                tr,
                pos,
            ) is Done),
        spec_convert(ValM::Record(rfs), t, tr, pos) is Done ==> {
            let c = spec_convert(ValM::Record(rfs), t, tr, pos);
            let tfs = t->Record_0@;
            &&& (c->Done_v is Record)
            &&& c->Done_v->Record_0.len() == tfs.len()
            &&& forall|i: int|
                0 <= i < tfs.len() ==> #[trigger] c->Done_v->Record_0[i] == (
                    tfs[i].0@,
                    spec_convert(record_get(rfs, tfs[i].0@)->0, tfs[i].1, tr, pos)->Done_v,
                )
            &&& c->Done_pos == pos
        },
{
    lemma_conv_fields_iff(t->Record_0@, rfs, tr, pos);
    lemma_pure_conv_fields(t->Record_0@, rfs, tr, pos);
}

// ------------------------------------------------------------------
// Trace extension: settled results stand

/// `tr2` begins with everything `tr` holds.
pub open spec fn extends(tr2: Seq<POut>, tr: Seq<POut>) -> bool {
    tr.len() <= tr2.len() && forall|i: int| 0 <= i < tr.len() ==> tr2[i] == tr[i]
}

/// A run that settled against the trace settles the same way against any
/// extension of it.
pub proof fn lemma_run_extend(
    program: Seq<char>,
    args: Seq<Seq<char>>,
    tr: Seq<POut>,
    tr2: Seq<POut>,
    pos: nat,
)
    requires
        extends(tr2, tr),
    ensures
        !(run_proc(program, args, tr, pos) is Pending) ==> run_proc(program, args, tr2, pos)
            == run_proc(program, args, tr, pos),
{
}

pub proof fn lemma_to_text_extend(v: ValM, tr: Seq<POut>, tr2: Seq<POut>, pos: nat)
    requires
        extends(tr2, tr),
    ensures
        !(to_text(v, tr, pos) is Pending) ==> to_text(v, tr2, pos) == to_text(v, tr, pos),
    decreases v, 0nat, 0nat,
{
    match v {
        ValM::List(es) => {
            lemma_to_texts_extend(es, tr, tr2, pos);
        }
        ValM::Process { program, args } => {
            lemma_run_extend(program, args, tr, tr2, pos);
        }
        _ => {}
    }
}

pub proof fn lemma_to_texts_extend(es: Seq<ValM>, tr: Seq<POut>, tr2: Seq<POut>, pos: nat)
    requires
        extends(tr2, tr),
    ensures
        !(to_texts(es, tr, pos) is Pending) ==> to_texts(es, tr2, pos) == to_texts(es, tr, pos),
    decreases es, 1nat, 0nat,
{
    if es.len() > 0 {
        lemma_to_text_extend(es[0], tr, tr2, pos);
        match to_text(es[0], tr, pos) {
            TextRes::Done { text, pos: p } => {
                lemma_to_texts_extend(es.drop_first(), tr, tr2, p);
            }
            _ => {}
        }
    }
}

/// A conversion that settled against the trace settles the same way
/// against any extension of it.
pub proof fn lemma_convert_extend(v: ValM, t: Type, tr: Seq<POut>, tr2: Seq<POut>, pos: nat)
    requires
        extends(tr2, tr),
    ensures
        !(spec_convert(v, t, tr, pos) is Pending) ==> spec_convert(v, t, tr2, pos) == spec_convert(
            v,
            t,
            tr,
            pos,
        ),
    decreases t, 0nat, 0nat,
{
    match t {
        Type::Str => {
            lemma_to_text_extend(v, tr, tr2, pos);
        }
        Type::Int => {
            match v {
                ValM::Process { program, args } => {
                    lemma_run_extend(program, args, tr, tr2, pos);
                }
                _ => {}
            }
        }
        Type::List(te) => {
            match v {
                ValM::List(es) => {
                    lemma_conv_elems_extend(*te, es, tr, tr2, pos);
                }
                ValM::Str(s) => {
                    lemma_conv_elems_extend(*te, texts_as_vals(split_ws(s)), tr, tr2, pos);
                }
                ValM::Process { program, args } => {
                    lemma_run_extend(program, args, tr, tr2, pos);
                    match run_proc(program, args, tr, pos) {
                        RunRes::Out { text, pos: p } => {
                            lemma_conv_elems_extend(
                                *te,
                                texts_as_vals(split_ws(trim_back(text))),
                                tr,
                                tr2,
                                p,
                            );
                        }
                        _ => {}
                    }
                }
                _ => {}
            }
        }
        Type::Record(tfs) => {
            match v {
                ValM::Record(rfs) => {
                    lemma_conv_fields_extend(tfs@, rfs, tr, tr2, pos);
                }
                _ => {}
            }
        }
        _ => {}
    }
}

pub proof fn lemma_conv_elems_extend(
    te: Type,
    es: Seq<ValM>,
    tr: Seq<POut>,
    tr2: Seq<POut>,
    pos: nat,
)
    requires
        extends(tr2, tr),
    ensures
        !(conv_elems(te, es, tr, pos) is Pending) ==> conv_elems(te, es, tr2, pos) == conv_elems(
            te,
            es,
            tr,
            pos,
        ),
    decreases te, 1nat, es.len(),
{
    if es.len() > 0 {
        lemma_convert_extend(es[0], te, tr, tr2, pos);
        match spec_convert(es[0], te, tr, pos) {
            ConvRes::Done { v, pos: p } => {
                lemma_conv_elems_extend(te, es.drop_first(), tr, tr2, p);
            }
            _ => {}
        }
    }
}

pub proof fn lemma_conv_fields_extend(
    tfs: Seq<(String, Type)>,
    rfs: Seq<(Seq<char>, ValM)>,
    tr: Seq<POut>,
    tr2: Seq<POut>,
    pos: nat,
)
    requires
        extends(tr2, tr),
    ensures
        !(conv_fields(tfs, rfs, tr, pos) is Pending) ==> conv_fields(tfs, rfs, tr2, pos)
            == conv_fields(tfs, rfs, tr, pos),
    decreases tfs, 1nat, 0nat,
{
    if tfs.len() > 0 {
        match record_get(rfs, tfs[0].0@) {
            Option::Some(fv) => {
                lemma_convert_extend(fv, tfs[0].1, tr, tr2, pos);
                match spec_convert(fv, tfs[0].1, tr, pos) {
                    ConvRes::Done { v, pos: p } => {
                        lemma_conv_fields_extend(tfs.drop_first(), rfs, tr, tr2, p);
                    }
                    _ => {}
                }
            }
            Option::None => {}
        }
    }
}
} // verus!
