//! Runtime values and their mathematical models.
//!
//! A value is a tagged union; a deferred process is a proper variant (not a
//! marked record), so it can never collide with a user record and every
//! consumer must handle it explicitly.

use vstd::prelude::*;

verus! {

broadcast use vstd::seq::group_seq_axioms, vstd::std_specs::vec::group_vec_axioms;

#[derive(Debug)]
pub enum Value {
    Int(i64),
    Str(String),
    Bool(bool),
    List(Vec<Value>),
    Unit,
    Record(Vec<(String, Value)>),
    /// A deferred process: a description of an external command that has
    /// not run yet.  It runs when it is the direct result of a block
    /// statement, or when it is converted to text, integer or list.
    Process { program: String, args: Vec<String> },
}

/// Mathematical model of a `Value`.
pub ghost enum ValM {
    Int(int),
    Str(Seq<char>),
    Bool(bool),
    List(Seq<ValM>),
    Unit,
    Record(Seq<(Seq<char>, ValM)>),
    Process { program: Seq<char>, args: Seq<Seq<char>> },
}

/// The views of a sequence of strings.
pub open spec fn texts_model(s: Seq<String>) -> Seq<Seq<char>> {
    Seq::new(s.len(), |i: int| s[i]@)
}

impl Value {
    pub open spec fn model(self) -> ValM
        decreases self, 0nat,
    {
        match self {
            Value::Int(x) => ValM::Int(x as int),
            Value::Str(s) => ValM::Str(s@),
            Value::Bool(b) => ValM::Bool(b),
            Value::List(xs) => ValM::List(Value::models(xs@)),
            Value::Unit => ValM::Unit,
            Value::Record(fs) => ValM::Record(Value::field_models(fs@)),
            Value::Process { program, args } => ValM::Process {
                program: program@,
                args: texts_model(args@),
            },
        }
    }

    /// Elementwise model of a sequence of values.
    pub open spec fn models(s: Seq<Value>) -> Seq<ValM>
        decreases s, 1nat,
    {
        if s.len() == 0 {
            Seq::empty()
        } else {
            Value::models(s.drop_first()).insert(0, s[0].model())
        }
    }

    /// Elementwise model of a sequence of record fields.
    pub open spec fn field_models(s: Seq<(String, Value)>) -> Seq<(Seq<char>, ValM)>
        decreases s, 1nat,
    {
        if s.len() == 0 {
            Seq::empty()
        } else {
            Value::field_models(s.drop_first()).insert(0, (s[0].0@, s[0].1.model()))
        }
    }
}

pub broadcast proof fn lemma_models_index(s: Seq<Value>)
    ensures
        (#[trigger] Value::models(s)).len() == s.len(),
        forall|i: int| 0 <= i < s.len() ==> Value::models(s)[i] == s[i].model(),
    decreases s.len(),
{
    if s.len() > 0 {
        lemma_models_index(s.drop_first());
    }
}

pub broadcast proof fn lemma_field_models_index(s: Seq<(String, Value)>)
    ensures
        (#[trigger] Value::field_models(s)).len() == s.len(),
        forall|i: int|
            0 <= i < s.len() ==> Value::field_models(s)[i] == (s[i].0@, s[i].1.model()),
    decreases s.len(),
{
    if s.len() > 0 {
        lemma_field_models_index(s.drop_first());
    }
}

/// The value contains no deferred process anywhere inside it.
pub open spec fn proc_free(v: ValM) -> bool
    decreases v, 0nat,
{
    match v {
        ValM::Process { .. } => false,
        ValM::List(es) => proc_free_all(es),
        ValM::Record(fs) => proc_free_fields(fs),
        _ => true,
    }
}

pub open spec fn proc_free_all(es: Seq<ValM>) -> bool
    decreases es, 1nat,
{
    if es.len() == 0 {
        true
    } else {
        proc_free(es[0]) && proc_free_all(es.drop_first())
    }
}

pub open spec fn proc_free_fields(fs: Seq<(Seq<char>, ValM)>) -> bool
    decreases fs, 1nat,
{
    if fs.len() == 0 {
        true
    } else {
        proc_free(fs[0].1) && proc_free_fields(fs.drop_first())
    }
}

pub broadcast proof fn lemma_proc_free_all_index(es: Seq<ValM>)
    ensures
        #[trigger] proc_free_all(es) <==> forall|i: int| 0 <= i < es.len() ==> proc_free(es[i]),
    decreases es.len(),
{
    if es.len() > 0 {
        lemma_proc_free_all_index(es.drop_first());
        assert(forall|i: int| 1 <= i < es.len() ==> es[i] == es.drop_first()[i - 1]);
    }
}

impl Value {
    /// Structural copy.
    pub fn duplicate(&self) -> (r: Value)
        ensures
            r.model() == self.model(),
        decreases *self,
    {
        match self {
            Value::Int(x) => Value::Int(*x),
            Value::Str(s) => Value::Str(s.clone()),
            Value::Bool(b) => Value::Bool(*b),
            Value::Unit => Value::Unit,
            Value::List(xs) => {
                proof {
                    assert(decreases_to!(*self => (*self)->List_0));
                }
                let mut out: Vec<Value> = Vec::new();
                let mut i: usize = 0;
                while i < xs.len()
                    invariant
                        i <= xs.len(),
                        out@.len() == i as int,
                        *self is List && (*self)->List_0 == *xs,
                        forall|j: int| 0 <= j < i as int ==> out@[j].model() == xs@[j].model(),
                    decreases xs@.len() - i,
                {
                    proof {
                        assert(decreases_to!(*self => (*self)->List_0));
                    }
                    let d = xs[i].duplicate();
                    out.push(d);
                    i = i + 1;
                }
                proof {
                    lemma_models_index(out@);
                    lemma_models_index(xs@);
                    assert(Value::models(out@) =~= Value::models(xs@));
                }
                Value::List(out)
            }
            Value::Record(fs) => {
                let mut out: Vec<(String, Value)> = Vec::new();
                let mut i: usize = 0;
                while i < fs.len()
                    invariant
                        i <= fs.len(),
                        out@.len() == i as int,
                        *self is Record && (*self)->Record_0 == *fs,
                        forall|j: int|
                            0 <= j < i as int ==> out@[j].0@ == fs@[j].0@ && out@[j].1.model()
                                == fs@[j].1.model(),
                    decreases fs@.len() - i,
                {
                    proof {
                        assert(decreases_to!(*self => (*self)->Record_0));
                    }
                    let (k, v) = &fs[i];
                    let d = v.duplicate();
                    out.push((k.clone(), d));
                    i = i + 1;
                }
                proof {
                    lemma_field_models_index(out@);
                    lemma_field_models_index(fs@);
                    assert(Value::field_models(out@) =~= Value::field_models(fs@));
                }
                Value::Record(out)
            }
            Value::Process { program, args } => {
                let mut out: Vec<String> = Vec::new();
                let mut i: usize = 0;
                while i < args.len()
                    invariant
                        i <= args.len(),
                        out@.len() == i as int,
                        forall|j: int| 0 <= j < i as int ==> out@[j] == args@[j],
                    decreases args@.len() - i,
                {
                    out.push(args[i].clone());
                    i = i + 1;
                }
                proof {
                    assert(texts_model(out@) =~= texts_model(args@));
                }
                Value::Process { program: program.clone(), args: out }
            }
        }
    }
}

/// What the runner reports back for one process it was asked to run:
/// the captured standard output, decoded, or a failure (the program could
/// not be spawned, it did not exit normally, or its output did not decode).
#[derive(Debug)]
pub enum ProcOutcome {
    Out(String),
    Failed,
}

/// Model of a `ProcOutcome`.
pub ghost enum POut {
    Out(Seq<char>),
    Failed,
}

impl ProcOutcome {
    pub open spec fn model(self) -> POut {
        match self {
            ProcOutcome::Out(s) => POut::Out(s@),
            ProcOutcome::Failed => POut::Failed,
        }
    }
}

/// Models of a sequence of process outcomes.
pub open spec fn outs_model(s: Seq<ProcOutcome>) -> Seq<POut> {
    Seq::new(s.len(), |i: int| s[i].model())
}

/// A request to run one external program: the program name and its
/// argument list, passed to process creation directly, never via a shell.
#[derive(Debug)]
pub struct ProcRequest {
    pub program: String,
    pub args: Vec<String>,
}

/// Model of a `ProcRequest`.
pub ghost struct ReqM {
    pub program: Seq<char>,
    pub args: Seq<Seq<char>>,
}

impl ProcRequest {
    pub open spec fn model(self) -> ReqM {
        ReqM { program: self.program@, args: texts_model(self.args@) }
    }
}

/// The five error kinds; evaluation stops at the first one.
#[derive(Clone, Copy, PartialEq, Eq, Structural, Debug)]
pub enum EvalError {
    /// Reading or assigning a name with no binding in scope.
    UnboundIdentifier,
    /// Calling a function or builtin that is not defined.
    UnboundFunction,
    /// An operator or conversion received a value shape it does not support.
    TypeMismatch,
    /// A well-shaped value failed conversion: unparseable text or an
    /// out-of-range arithmetic result.
    ConversionFailure,
    /// A spawned process failed to launch, exited abnormally, or produced
    /// output that did not decode.
    ProcessFailure,
}

} // verus!
