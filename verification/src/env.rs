//! The evaluation environment: an ordered list of bindings, newest first,
//! plus a table of function definitions.
//!
//! Binding inserts at the front and never fails: a rebound name shadows
//! the older entry without deleting it.  Assignment replaces the value of
//! the nearest existing entry and fails on an unbound name.  A block works
//! on a structural copy of its caller's environment, so nothing a block
//! binds or assigns ever leaks outward.

use vstd::prelude::*;

use crate::ast::AstNode;
use crate::types::Type;
use crate::value::{EvalError, Value, ValM};

verus! {

broadcast use vstd::seq::group_seq_axioms, vstd::std_specs::vec::group_vec_axioms;

/// A function definition: borrowed views into the defining `Function`
/// node of the syntax tree.
pub struct FnDecl<'a> {
    pub params: &'a Vec<(String, Type)>,
    pub ret: &'a Type,
    pub body: &'a AstNode,
}

impl<'a> Clone for FnDecl<'a> {
    fn clone(&self) -> (r: Self)
        ensures
            r == *self,
    {
        FnDecl { params: self.params, ret: self.ret, body: self.body }
    }
}

impl<'a> Copy for FnDecl<'a> {

}

/// Model of a function definition.
pub ghost struct FnDeclM {
    pub params: Seq<(String, Type)>,
    pub ret: Type,
    pub body: AstNode,
}

impl<'a> FnDecl<'a> {
    pub open spec fn model(self) -> FnDeclM {
        FnDeclM { params: self.params@, ret: *self.ret, body: *self.body }
    }
}

pub struct Env<'a> {
    vars: Vec<(String, &'a Type, Value)>,
    fns: Vec<(String, FnDecl<'a>)>,
}

/// Model of an environment.
pub ghost struct EnvM {
    pub vars: Seq<(Seq<char>, Type, ValM)>,
    pub fns: Seq<(Seq<char>, FnDeclM)>,
}

impl<'a> View for Env<'a> {
    type V = EnvM;

    closed spec fn view(&self) -> EnvM {
        EnvM {
            vars: Seq::new(self.vars@.len(), |i: int| (self.vars@[i].0@, *self.vars@[i].1, self.vars@[i].2.model())),
            fns: Seq::new(self.fns@.len(), |i: int| (self.fns@[i].0@, self.fns@[i].1.model())),
        }
    }
}

/// First binding of `name`, scanning from the most recent.
pub open spec fn env_lookup(vars: Seq<(Seq<char>, Type, ValM)>, name: Seq<char>) -> Option<
    (Type, ValM),
>
    decreases vars.len(),
{
    if vars.len() == 0 {
        Option::None
    } else if vars[0].0 == name {
        Option::Some((vars[0].1, vars[0].2))
    } else {
        env_lookup(vars.drop_first(), name)
    }
}

/// The environment with the value of the nearest binding of `name`
/// replaced; unchanged when no binding exists.
pub open spec fn env_assign(
    vars: Seq<(Seq<char>, Type, ValM)>,
    name: Seq<char>,
    v: ValM,
) -> Seq<(Seq<char>, Type, ValM)>
    decreases vars.len(),
{
    if vars.len() == 0 {
        vars
    } else if vars[0].0 == name {
        vars.update(0, (vars[0].0, vars[0].1, v))
    } else {
        env_assign(vars.drop_first(), name, v).insert(0, vars[0])
    }
}

/// First definition of the function `name`.
pub open spec fn env_lookup_fn(fns: Seq<(Seq<char>, FnDeclM)>, name: Seq<char>) -> Option<FnDeclM>
    decreases fns.len(),
{
    if fns.len() == 0 {
        Option::None
    } else if fns[0].0 == name {
        Option::Some(fns[0].1)
    } else {
        env_lookup_fn(fns.drop_first(), name)
    }
}

/// When no binding among the first `i` matches, the scan result is the
/// scan result of the rest.
proof fn lemma_env_lookup_skip(vars: Seq<(Seq<char>, Type, ValM)>, name: Seq<char>, i: int)
    requires
        0 <= i <= vars.len(),
        forall|j: int| 0 <= j < i ==> vars[j].0 != name,
    ensures
        env_lookup(vars, name) == env_lookup(vars.skip(i), name),
    decreases i,
{
    if i == 0 {
        assert(vars.skip(0) =~= vars);
    } else {
        assert(vars[0].0 != name);
        assert(forall|j: int| 0 <= j < i - 1 ==> vars.drop_first()[j] == vars[j + 1]);
        lemma_env_lookup_skip(vars.drop_first(), name, i - 1);
        assert(vars.drop_first().skip(i - 1) =~= vars.skip(i));
    }
}

proof fn lemma_env_lookup_fn_skip(fns: Seq<(Seq<char>, FnDeclM)>, name: Seq<char>, i: int)
    requires
        0 <= i <= fns.len(),
        forall|j: int| 0 <= j < i ==> fns[j].0 != name,
    ensures
        env_lookup_fn(fns, name) == env_lookup_fn(fns.skip(i), name),
    decreases i,
{
    if i == 0 {
        assert(fns.skip(0) =~= fns);
    } else {
        assert(fns[0].0 != name);
        assert(forall|j: int| 0 <= j < i - 1 ==> fns.drop_first()[j] == fns[j + 1]);
        lemma_env_lookup_fn_skip(fns.drop_first(), name, i - 1);
        assert(fns.drop_first().skip(i - 1) =~= fns.skip(i));
    }
}

/// Assignment rewrites exactly the nearest matching entry.
proof fn lemma_env_assign_found(
    vars: Seq<(Seq<char>, Type, ValM)>,
    name: Seq<char>,
    v: ValM,
    i: int,
)
    requires
        0 <= i < vars.len(),
        vars[i].0 == name,
        forall|j: int| 0 <= j < i ==> vars[j].0 != name,
    ensures
        env_assign(vars, name, v) == vars.update(i, (vars[i].0, vars[i].1, v)),
    decreases i,
{
    if i == 0 {
    } else {
        lemma_env_assign_found(vars.drop_first(), name, v, i - 1);
        assert(forall|j: int| 0 <= j < i - 1 ==> vars.drop_first()[j] == vars[j + 1]);
        assert(vars.drop_first()[i - 1].0 == name);
        assert(env_assign(vars, name, v) == env_assign(vars.drop_first(), name, v).insert(
            0,
            vars[0],
        ));
        assert(vars.drop_first().update(i - 1, (vars[i].0, vars[i].1, v)).insert(0, vars[0])
            =~= vars.update(i, (vars[i].0, vars[i].1, v)));
    }
}

impl<'a> Env<'a> {
    /// The empty environment.
    pub fn new() -> (r: Env<'a>)
        ensures
            r@.vars.len() == 0,
            r@.fns.len() == 0,
    {
        Env { vars: Vec::new(), fns: Vec::new() }
    }

    /// The value of the nearest binding of `name`.
    pub fn lookup(&self, name: &String) -> (r: Option<Value>)
        ensures
            match env_lookup(self@.vars, name@) {
                Option::None => r is None,
                Option::Some((t, v)) => r is Some && r->0.model() == v,
            },
    {
        let mut i: usize = 0;
        while i < self.vars.len()
            invariant
                i <= self.vars.len(),
                forall|j: int| 0 <= j < i as int ==> self@.vars[j].0 != name@,
            decreases self.vars.len() - i,
        {
            if self.vars[i].0.eq(name) {
                proof {
                    lemma_env_lookup_skip(self@.vars, name@, i as int);
                }
                return Some(self.vars[i].2.duplicate());
            }
            i = i + 1;
        }
        proof {
            lemma_env_lookup_skip(self@.vars, name@, i as int);
            assert(self@.vars.skip(i as int) =~= Seq::empty());
        }
        None
    }

    /// The declared type of the nearest binding of `name`, by reference.
    pub fn lookup_type(&self, name: &String) -> (r: Option<&'a Type>)
        ensures
            match env_lookup(self@.vars, name@) {
                Option::None => r is None,
                Option::Some((t, v)) => r is Some && *r->0 == t,
            },
    {
        let mut i: usize = 0;
        while i < self.vars.len()
            invariant
                i <= self.vars.len(),
                forall|j: int| 0 <= j < i as int ==> self@.vars[j].0 != name@,
            decreases self.vars.len() - i,
        {
            if self.vars[i].0.eq(name) {
                proof {
                    lemma_env_lookup_skip(self@.vars, name@, i as int);
                }
                return Some(self.vars[i].1);
            }
            i = i + 1;
        }
        proof {
            lemma_env_lookup_skip(self@.vars, name@, i as int);
            assert(self@.vars.skip(i as int) =~= Seq::empty());
        }
        None
    }

    /// Bind `name` to `v` with declared type `ty`.  Binding always
    /// succeeds; an existing binding of the same name is shadowed, not
    /// removed.
    pub fn bind(&mut self, name: &String, ty: &'a Type, v: Value)
        ensures
            final(self)@.vars == old(self)@.vars.insert(0, (name@, *ty, v.model())),
            final(self)@.fns == old(self)@.fns,
    {
        let entry = (name.clone(), ty, v);
        self.vars.insert(0, entry);
        proof {
            assert(final(self)@.vars =~= old(self)@.vars.insert(0, (name@, *ty, v.model())));
            assert(final(self)@.fns =~= old(self)@.fns);
        }
    }

    /// Replace the value of the nearest binding of `name`.  Fails with
    /// `UnboundIdentifier`, changing nothing, when no binding exists.
    pub fn assign(&mut self, name: &String, v: Value) -> (r: Result<(), EvalError>)
        ensures
            env_lookup(old(self)@.vars, name@) is Some ==> r is Ok && final(self)@.vars
                == env_assign(old(self)@.vars, name@, v.model()),
            env_lookup(old(self)@.vars, name@) is None ==> r == Result::<(), EvalError>::Err(
                EvalError::UnboundIdentifier,
            ) && final(self)@.vars == old(self)@.vars,
            final(self)@.fns == old(self)@.fns,
    {
        let mut i: usize = 0;
        while i < self.vars.len()
            invariant
                i <= self.vars.len(),
                *self == *old(self),
                forall|j: int| 0 <= j < i as int ==> self@.vars[j].0 != name@,
            decreases self.vars.len() - i,
        {
            if self.vars[i].0.eq(name) {
                proof {
                    lemma_env_lookup_skip(self@.vars, name@, i as int);
                    lemma_env_assign_found(self@.vars, name@, v.model(), i as int);
                }
                let ty = self.vars[i].1;
                let ghost old_vars = self@.vars;
                self.vars.set(i, (name.clone(), ty, v));
                proof {
                    assert(self@.vars =~= old_vars.update(
                        i as int,
                        (old_vars[i as int].0, old_vars[i as int].1, v.model()),
                    ));
                    assert(final(self)@.fns =~= old(self)@.fns);
                }
                return Ok(());
            }
            i = i + 1;
        }
        proof {
            lemma_env_lookup_skip(self@.vars, name@, i as int);
            assert(self@.vars.skip(i as int) =~= Seq::empty());
            assert(final(self)@.vars =~= old(self)@.vars);
            assert(final(self)@.fns =~= old(self)@.fns);
        }
        Err(EvalError::UnboundIdentifier)
    }

    /// Append a binding behind all existing ones: used to bind call
    /// parameters positionally into a fresh scope.
    pub fn push_binding(&mut self, name: &String, ty: &'a Type, v: Value)
        ensures
            final(self)@.vars == old(self)@.vars.push((name@, *ty, v.model())),
            final(self)@.fns == old(self)@.fns,
    {
        let entry = (name.clone(), ty, v);
        self.vars.push(entry);
        proof {
            assert(final(self)@.vars =~= old(self)@.vars.push((name@, *ty, v.model())));
            assert(final(self)@.fns =~= old(self)@.fns);
        }
    }

    /// Record a function definition, shadowing any earlier one of the
    /// same name.
    pub fn define_function(&mut self, name: &String, decl: FnDecl<'a>)
        ensures
            final(self)@.fns == old(self)@.fns.insert(0, (name@, decl.model())),
            final(self)@.vars == old(self)@.vars,
    {
        self.fns.insert(0, (name.clone(), decl));
        proof {
            assert(final(self)@.fns =~= old(self)@.fns.insert(0, (name@, decl.model())));
            assert(final(self)@.vars =~= old(self)@.vars);
        }
    }

    /// The definition of the function `name` as seen at the call site.
    pub fn lookup_function(&self, name: &String) -> (r: Option<FnDecl<'a>>)
        ensures
            match env_lookup_fn(self@.fns, name@) {
                Option::None => r is None,
                Option::Some(d) => r is Some && r->0.model() == d,
            },
    {
        let mut i: usize = 0;
        while i < self.fns.len()
            invariant
                i <= self.fns.len(),
                forall|j: int| 0 <= j < i as int ==> self@.fns[j].0 != name@,
            decreases self.fns.len() - i,
        {
            if self.fns[i].0.eq(name) {
                proof {
                    lemma_env_lookup_fn_skip(self@.fns, name@, i as int);
                }
                return Some(self.fns[i].1);
            }
            i = i + 1;
        }
        proof {
            lemma_env_lookup_fn_skip(self@.fns, name@, i as int);
            assert(self@.fns.skip(i as int) =~= Seq::empty());
        }
        None
    }

    /// A fresh environment holding only the function table, for a call.
    pub fn call_scope(&self) -> (r: Env<'a>)
        ensures
            r@.vars.len() == 0,
            r@.fns == self@.fns,
    {
        let mut fns: Vec<(String, FnDecl<'a>)> = Vec::new();
        let mut i: usize = 0;
        while i < self.fns.len()
            invariant
                i <= self.fns.len(),
                fns@.len() == i as int,
                forall|j: int|
                    0 <= j < i as int ==> fns@[j].0@ == self@.fns[j].0 && fns@[j].1.model()
                        == self@.fns[j].1,
            decreases self.fns.len() - i,
        {
            let (n, d) = &self.fns[i];
            fns.push((n.clone(), *d));
            i = i + 1;
        }
        let r = Env { vars: Vec::new(), fns };
        proof {
            assert(r@.fns =~= self@.fns);
        }
        r
    }

    /// Structural copy: the block discipline — a block evaluates against a
    /// copy of its caller's bindings, so its own bindings never leak out.
    pub fn duplicate(&self) -> (r: Env<'a>)
        ensures
            r@ == self@,
    {
        let mut vars: Vec<(String, &'a Type, Value)> = Vec::new();
        let mut i: usize = 0;
        while i < self.vars.len()
            invariant
                i <= self.vars.len(),
                vars@.len() == i as int,
                forall|j: int|
                    0 <= j < i as int ==> vars@[j].0@ == self@.vars[j].0 && *vars@[j].1
                        == self@.vars[j].1 && vars@[j].2.model() == self@.vars[j].2,
            decreases self.vars.len() - i,
        {
            let (n, t, v) = &self.vars[i];
            vars.push((n.clone(), *t, v.duplicate()));
            i = i + 1;
        }
        let scope = self.call_scope();
        let r = Env { vars, fns: scope.fns };
        proof {
            assert(r@.vars =~= self@.vars);
            assert(r@.fns =~= self@.fns);
            assert(r@ =~= self@);
        }
        r
    }
}

/// Shadowing: a new binding takes lookup precedence, hides nothing else,
/// and deletes nothing — the prior entries sit untouched behind it.
pub proof fn lemma_shadowing(env: EnvM, name: Seq<char>, ty: Type, v: ValM)
    ensures
        env_lookup(env.vars.insert(0, (name, ty, v)), name) == Option::Some((ty, v)),
        forall|other: Seq<char>|
            other != name ==> env_lookup(env.vars.insert(0, (name, ty, v)), other) == env_lookup(
                env.vars,
                other,
            ),
        env.vars.insert(0, (name, ty, v)).drop_first() == env.vars,
{
    let vars2 = env.vars.insert(0, (name, ty, v));
    assert(vars2[0] == (name, ty, v));
    assert(vars2.drop_first() =~= env.vars);
    assert forall|other: Seq<char>| other != name implies env_lookup(vars2, other) == env_lookup(
        env.vars,
        other,
    ) by {
        assert(env_lookup(vars2, other) == env_lookup(vars2.drop_first(), other));
    }
}

} // verus!
