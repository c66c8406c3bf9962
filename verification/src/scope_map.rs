//! A `ScopeMap` is a stack of scopes used to keep track of the available
//! variables, functions and types at a point of execution. Lookups walk from
//! the innermost scope outward; insertions and removals always target the
//! innermost scope.

use vstd::prelude::*;
use std::rc::Rc;
use crate::error::{ErrKind, Error, ErrorV};
use crate::instruction::{FunctionDec, Var, VarV};
use crate::text::str_eq;
use crate::types::TypeDec;

verus! {

broadcast use vstd::std_specs::vec::group_vec_axioms;

/// Mathematical model of a [`Scope`]: the variables, functions and types it
/// binds, each in insertion order. The three namespaces are separate: a
/// variable and a type may share a spelling.
#[verifier::ext_equal]
pub struct ScopeV {
    pub vars: Seq<VarV>,
    pub funcs: Seq<FunctionDec>,
    pub types: Seq<TypeDec>,
}

/// The model of a freshly created, empty scope.
pub open spec fn empty_scope_v() -> ScopeV {
    ScopeV { vars: Seq::empty(), funcs: Seq::empty(), types: Seq::empty() }
}

/// The first variable with the given name, in insertion order.
pub open spec fn find_var_v(vars: Seq<VarV>, name: Seq<char>) -> Option<VarV>
    decreases vars.len(),
{
    if vars.len() == 0 {
        None
    } else if vars[0].name == name {
        Some(vars[0])
    } else {
        find_var_v(vars.drop_first(), name)
    }
}

/// The first function with the given name, in insertion order.
pub open spec fn find_func_v(funcs: Seq<FunctionDec>, name: Seq<char>) -> Option<FunctionDec>
    decreases funcs.len(),
{
    if funcs.len() == 0 {
        None
    } else if funcs[0].name@ == name {
        Some(funcs[0])
    } else {
        find_func_v(funcs.drop_first(), name)
    }
}

/// The first type with the given name, in insertion order.
pub open spec fn find_type_v(types: Seq<TypeDec>, name: Seq<char>) -> Option<TypeDec>
    decreases types.len(),
{
    if types.len() == 0 {
        None
    } else if types[0]@.name == name {
        Some(types[0])
    } else {
        find_type_v(types.drop_first(), name)
    }
}

/// The sequence of variables with the first one named `name` removed.
pub open spec fn remove_var_v(vars: Seq<VarV>, name: Seq<char>) -> Seq<VarV>
    decreases vars.len(),
{
    if vars.len() == 0 {
        vars
    } else if vars[0].name == name {
        vars.drop_first()
    } else {
        seq![vars[0]] + remove_var_v(vars.drop_first(), name)
    }
}

/// A variable lookup over a whole scope stack: the innermost scope (the last
/// one) is searched first, then the scopes outside it.
pub open spec fn lookup_var_v(scopes: Seq<ScopeV>, name: Seq<char>) -> Option<VarV>
    decreases scopes.len(),
{
    if scopes.len() == 0 {
        None
    } else {
        match find_var_v(scopes.last().vars, name) {
            Some(v) => Some(v),
            None => lookup_var_v(scopes.drop_last(), name),
        }
    }
}

/// A function lookup over a whole scope stack, innermost first.
pub open spec fn lookup_func_v(scopes: Seq<ScopeV>, name: Seq<char>) -> Option<FunctionDec>
    decreases scopes.len(),
{
    if scopes.len() == 0 {
        None
    } else {
        match find_func_v(scopes.last().funcs, name) {
            Some(f) => Some(f),
            None => lookup_func_v(scopes.drop_last(), name),
        }
    }
}

/// A type lookup over a whole scope stack, innermost first.
pub open spec fn lookup_type_v(scopes: Seq<ScopeV>, name: Seq<char>) -> Option<TypeDec>
    decreases scopes.len(),
{
    if scopes.len() == 0 {
        None
    } else {
        match find_type_v(scopes.last().types, name) {
            Some(t) => Some(t),
            None => lookup_type_v(scopes.drop_last(), name),
        }
    }
}

/// A scope: the variables, functions and types declared in one lexical
/// frame. Functions and types are shared by reference once declared; the
/// scope hands out shared handles, never mutable ones.
pub struct Scope {
    variables: Vec<Var>,
    functions: Vec<Rc<FunctionDec>>,
    types: Vec<Rc<TypeDec>>,
}

impl View for Scope {
    type V = ScopeV;

    closed spec fn view(&self) -> ScopeV {
        ScopeV {
            vars: self.variables@.map_values(|v: Var| v@),
            funcs: self.functions@.map_values(|f: Rc<FunctionDec>| *f),
            types: self.types@.map_values(|t: Rc<TypeDec>| *t),
        }
    }
}

impl Scope {
    /// Create a new empty scope.
    pub fn new() -> (r: Scope)
        ensures
            r@ == empty_scope_v(),
    {
        let r = Scope { variables: Vec::new(), functions: Vec::new(), types: Vec::new() };
        proof {
            assert(r@ =~= empty_scope_v());
        }
        r
    }

    /// Get the first variable with this name, if one was inserted.
    pub fn get_variable(&self, name: &str) -> (r: Option<&Var>)
        ensures
            match (r, find_var_v(self@.vars, name@)) {
                (Some(v), Some(vv)) => v@ == vv,
                (None, None) => true,
                _ => false,
            },
    {
        let ghost vs = self@.vars;
        let mut i: usize = 0;
        proof {
            assert(vs.skip(0) =~= vs);
        }
        while i < self.variables.len()
            invariant
                vs == self@.vars,
                vs == self.variables@.map_values(|v: Var| v@),
                i <= self.variables@.len(),
                find_var_v(vs, name@) == find_var_v(vs.skip(i as int), name@),
            decreases self.variables@.len() - i,
        {
            proof {
                assert(vs.skip(i as int)[0] == vs[i as int]);
                assert(vs.skip(i as int).drop_first() =~= vs.skip(i as int + 1));
            }
            if str_eq(self.variables[i].name.as_str(), name) {
                return Some(&self.variables[i]);
            }
            i = i + 1;
        }
        proof {
            assert(vs.skip(i as int).len() == 0);
        }
        None
    }

    /// Get the first function with this name, if one was inserted.
    pub fn get_function(&self, name: &str) -> (r: Option<&Rc<FunctionDec>>)
        ensures
            match (r, find_func_v(self@.funcs, name@)) {
                (Some(f), Some(fv)) => **f == fv,
                (None, None) => true,
                _ => false,
            },
    {
        let ghost fs = self@.funcs;
        let mut i: usize = 0;
        proof {
            assert(fs.skip(0) =~= fs);
        }
        while i < self.functions.len()
            invariant
                fs == self@.funcs,
                fs == self.functions@.map_values(|f: Rc<FunctionDec>| *f),
                i <= self.functions@.len(),
                find_func_v(fs, name@) == find_func_v(fs.skip(i as int), name@),
            decreases self.functions@.len() - i,
        {
            proof {
                assert(fs.skip(i as int)[0] == fs[i as int]);
                assert(fs.skip(i as int).drop_first() =~= fs.skip(i as int + 1));
            }
            if str_eq(self.functions[i].name.as_str(), name) {
                return Some(&self.functions[i]);
            }
            i = i + 1;
        }
        proof {
            assert(fs.skip(i as int).len() == 0);
        }
        None
    }

    /// Get the first type with this name, if one was inserted.
    pub fn get_type(&self, name: &str) -> (r: Option<&Rc<TypeDec>>)
        ensures
            match (r, find_type_v(self@.types, name@)) {
                (Some(t), Some(tv)) => **t == tv,
                (None, None) => true,
                _ => false,
            },
    {
        let ghost ts = self@.types;
        let mut i: usize = 0;
        proof {
            assert(ts.skip(0) =~= ts);
        }
        while i < self.types.len()
            invariant
                ts == self@.types,
                ts == self.types@.map_values(|t: Rc<TypeDec>| *t),
                i <= self.types@.len(),
                find_type_v(ts, name@) == find_type_v(ts.skip(i as int), name@),
            decreases self.types@.len() - i,
        {
            proof {
                assert(ts.skip(i as int)[0] == ts[i as int]);
                assert(ts.skip(i as int).drop_first() =~= ts.skip(i as int + 1));
            }
            if str_eq(self.types[i].name(), name) {
                return Some(&self.types[i]);
            }
            i = i + 1;
        }
        proof {
            assert(ts.skip(i as int).len() == 0);
        }
        None
    }

    /// Add a variable to the scope, unless one of that name already exists
    /// there.
    pub fn add_variable(&mut self, var: Var) -> (r: Result<(), Error>)
        ensures
            match r {
                Ok(()) => {
                    &&& find_var_v(old(self)@.vars, var@.name) is None
                    &&& final(self)@ == (ScopeV { vars: old(self)@.vars.push(var@), ..old(self)@ })
                },
                Err(e) => {
                    &&& find_var_v(old(self)@.vars, var@.name) is Some
                    &&& final(self)@ == old(self)@
                    &&& e@ == (ErrorV {
                        kind: ErrKind::Context,
                        msg: "variable already declared: "@ + var@.name,
                    })
                },
            },
    {
        match self.get_variable(var.name.as_str()) {
            Some(_) => {
                let mut m = "variable already declared: ".to_owned();
                m.append(var.name.as_str());
                Err(Error::new(ErrKind::Context).with_msg(m))
            },
            None => {
                self.variables.push(var);
                proof {
                    assert(self@ =~= (ScopeV {
                        vars: old(self)@.vars.push(var@),
                        ..old(self)@
                    }));
                }
                Ok(())
            },
        }
    }

    /// Remove the variable of this name from the scope; an error if it is
    /// not there.
    pub fn remove_variable(&mut self, var: &Var) -> (r: Result<(), Error>)
        ensures
            match r {
                Ok(()) => {
                    &&& find_var_v(old(self)@.vars, var@.name) is Some
                    &&& final(self)@ == (ScopeV {
                        vars: remove_var_v(old(self)@.vars, var@.name),
                        ..old(self)@
                    })
                },
                Err(e) => {
                    &&& find_var_v(old(self)@.vars, var@.name) is None
                    &&& final(self)@ == old(self)@
                    &&& e@ == (ErrorV {
                        kind: ErrKind::Context,
                        msg: "variable does not exist: "@ + var@.name,
                    })
                },
            },
    {
        let ghost vs = self@.vars;
        let name = var.name.as_str();
        let mut i: usize = 0;
        proof {
            assert(vs.skip(0) =~= vs);
        }
        while i < self.variables.len()
            invariant
                vs == self@.vars,
                vs == old(self)@.vars,
                self@ == old(self)@,
                vs == self.variables@.map_values(|v: Var| v@),
                i <= self.variables@.len(),
                find_var_v(vs, name@) == find_var_v(vs.skip(i as int), name@),
                name@ == var@.name,
                forall|j: int| 0 <= j < i ==> (#[trigger] vs[j]).name != name@,
            decreases self.variables@.len() - i,
        {
            proof {
                assert(vs.skip(i as int)[0] == vs[i as int]);
                assert(vs.skip(i as int).drop_first() =~= vs.skip(i as int + 1));
            }
            if str_eq(self.variables[i].name.as_str(), name) {
                self.variables.remove(i);
                proof {
                    lemma_remove_var_at(vs, name@, i as int);
                    assert(self@ =~= (ScopeV {
                        vars: remove_var_v(old(self)@.vars, var@.name),
                        ..old(self)@
                    }));
                }
                return Ok(());
            }
            i = i + 1;
        }
        proof {
            assert(vs.skip(i as int).len() == 0);
        }
        let mut m = "variable does not exist: ".to_owned();
        m.append(name);
        Err(Error::new(ErrKind::Context).with_msg(m))
    }

    /// Add a function to the scope, unless one of that name already exists
    /// there. The declaration is stored shared: callers get a read-only
    /// handle.
    pub fn add_function(&mut self, func: FunctionDec) -> (r: Result<(), Error>)
        ensures
            match r {
                Ok(()) => {
                    &&& find_func_v(old(self)@.funcs, func.name@) is None
                    &&& final(self)@ == (ScopeV { funcs: old(self)@.funcs.push(func), ..old(self)@ })
                },
                Err(e) => {
                    &&& find_func_v(old(self)@.funcs, func.name@) is Some
                    &&& final(self)@ == old(self)@
                    &&& e@ == (ErrorV {
                        kind: ErrKind::Context,
                        msg: "function already declared: "@ + func.name@,
                    })
                },
            },
    {
        self.add_function_rc(Rc::new(func))
    }

    /// Add an already-shared function to the scope, unless one of that name
    /// already exists there.
    pub(crate) fn add_function_rc(&mut self, func: Rc<FunctionDec>) -> (r: Result<(), Error>)
        ensures
            match r {
                Ok(()) => {
                    &&& find_func_v(old(self)@.funcs, func.name@) is None
                    &&& final(self)@ == (ScopeV { funcs: old(self)@.funcs.push(*func), ..old(self)@ })
                },
                Err(e) => {
                    &&& find_func_v(old(self)@.funcs, func.name@) is Some
                    &&& final(self)@ == old(self)@
                    &&& e@ == (ErrorV {
                        kind: ErrKind::Context,
                        msg: "function already declared: "@ + func.name@,
                    })
                },
            },
    {
        match self.get_function(func.name.as_str()) {
            Some(_) => {
                let mut m = "function already declared: ".to_owned();
                m.append(func.name.as_str());
                Err(Error::new(ErrKind::Context).with_msg(m))
            },
            None => {
                self.functions.push(func);
                proof {
                    assert(self@ =~= (ScopeV { funcs: old(self)@.funcs.push(*func), ..old(self)@ }));
                }
                Ok(())
            },
        }
    }

    /// Add a type to the scope, unless one of that name already exists
    /// there. The declaration is stored shared: callers get a read-only
    /// handle.
    pub fn add_type(&mut self, type_dec: TypeDec) -> (r: Result<(), Error>)
        ensures
            match r {
                Ok(()) => {
                    &&& find_type_v(old(self)@.types, type_dec@.name) is None
                    &&& final(self)@ == (ScopeV {
                        types: old(self)@.types.push(type_dec),
                        ..old(self)@
                    })
                },
                Err(e) => {
                    &&& find_type_v(old(self)@.types, type_dec@.name) is Some
                    &&& final(self)@ == old(self)@
                    &&& e@ == (ErrorV {
                        kind: ErrKind::Context,
                        msg: "type already declared: "@ + type_dec@.name,
                    })
                },
            },
    {
        self.add_type_rc(Rc::new(type_dec))
    }

    /// Add an already-shared type to the scope, unless one of that name
    /// already exists there.
    pub(crate) fn add_type_rc(&mut self, type_dec: Rc<TypeDec>) -> (r: Result<(), Error>)
        ensures
            match r {
                Ok(()) => {
                    &&& find_type_v(old(self)@.types, type_dec@.name) is None
                    &&& final(self)@ == (ScopeV {
                        types: old(self)@.types.push(*type_dec),
                        ..old(self)@
                    })
                },
                Err(e) => {
                    &&& find_type_v(old(self)@.types, type_dec@.name) is Some
                    &&& final(self)@ == old(self)@
                    &&& e@ == (ErrorV {
                        kind: ErrKind::Context,
                        msg: "type already declared: "@ + type_dec@.name,
                    })
                },
            },
    {
        match self.get_type(type_dec.name()) {
            Some(_) => {
                let mut m = "type already declared: ".to_owned();
                m.append(type_dec.name());
                Err(Error::new(ErrKind::Context).with_msg(m))
            },
            None => {
                self.types.push(type_dec);
                proof {
                    assert(self@ =~= (ScopeV {
                        types: old(self)@.types.push(*type_dec),
                        ..old(self)@
                    }));
                }
                Ok(())
            },
        }
    }
}

/// Removing the first occurrence, known to sit at index `i`, is removing
/// index `i`.
proof fn lemma_remove_var_at(vars: Seq<VarV>, name: Seq<char>, i: int)
    requires
        0 <= i < vars.len(),
        vars[i].name == name,
        forall|j: int| 0 <= j < i ==> (#[trigger] vars[j]).name != name,
    ensures
        remove_var_v(vars, name) == vars.remove(i),
    decreases i,
{
    if i == 0 {
        assert(remove_var_v(vars, name) =~= vars.remove(0));
    } else {
        lemma_remove_var_at(vars.drop_first(), name, i - 1);
        assert forall|j: int| 0 <= j < i - 1 implies (#[trigger] vars.drop_first()[j]).name
            != name by {
            assert(vars.drop_first()[j] == vars[j + 1]);
        }
        assert(remove_var_v(vars, name) == seq![vars[0]] + remove_var_v(vars.drop_first(), name));
        assert(remove_var_v(vars, name) =~= vars.remove(i));
    }
}

/// The sequence of variables with the first one named like `v` replaced by
/// `v`, or `v` appended when no variable of that name is there.
pub open spec fn set_var_v(vars: Seq<VarV>, v: VarV) -> Seq<VarV>
    decreases vars.len(),
{
    if vars.len() == 0 {
        seq![v]
    } else if vars[0].name == v.name {
        vars.update(0, v)
    } else {
        seq![vars[0]] + set_var_v(vars.drop_first(), v)
    }
}

/// Replacing the first occurrence, known to sit at index `i`, is updating
/// index `i`.
proof fn lemma_set_var_at(vars: Seq<VarV>, v: VarV, i: int)
    requires
        0 <= i < vars.len(),
        vars[i].name == v.name,
        forall|j: int| 0 <= j < i ==> (#[trigger] vars[j]).name != v.name,
    ensures
        set_var_v(vars, v) == vars.update(i, v),
    decreases i,
{
    if i == 0 {
        assert(set_var_v(vars, v) =~= vars.update(0, v));
    } else {
        lemma_set_var_at(vars.drop_first(), v, i - 1);
        assert forall|j: int| 0 <= j < i - 1 implies (#[trigger] vars.drop_first()[j]).name
            != v.name by {
            assert(vars.drop_first()[j] == vars[j + 1]);
        }
        assert(set_var_v(vars, v) == seq![vars[0]] + set_var_v(vars.drop_first(), v));
        assert(set_var_v(vars, v) =~= vars.update(i, v));
    }
}

/// Replacing without an occurrence is appending.
proof fn lemma_set_var_absent(vars: Seq<VarV>, v: VarV)
    requires
        find_var_v(vars, v.name) is None,
    ensures
        set_var_v(vars, v) == vars.push(v),
    decreases vars.len(),
{
    if vars.len() == 0 {
        assert(set_var_v(vars, v) =~= vars.push(v));
    } else {
        lemma_set_var_absent(vars.drop_first(), v);
        assert(set_var_v(vars, v) =~= vars.push(v));
    }
}

impl Scope {
    /// Bind `var` in the scope: replace the binding of that name when there
    /// is one, append a new binding otherwise.
    pub fn set_variable(&mut self, var: Var)
        ensures
            final(self)@ == (ScopeV { vars: set_var_v(old(self)@.vars, var@), ..old(self)@ }),
    {
        let ghost vs = self@.vars;
        let name_owned = var.name.clone();
        let name = name_owned.as_str();
        let mut i: usize = 0;
        proof {
            assert(vs.skip(0) =~= vs);
        }
        while i < self.variables.len()
            invariant
                vs == self@.vars,
                self@ == old(self)@,
                vs == self.variables@.map_values(|v: Var| v@),
                i <= self.variables@.len(),
                name@ == var@.name,
                find_var_v(vs, name@) == find_var_v(vs.skip(i as int), name@),
                forall|j: int| 0 <= j < i ==> (#[trigger] vs[j]).name != name@,
            decreases self.variables@.len() - i,
        {
            proof {
                assert(vs.skip(i as int)[0] == vs[i as int]);
                assert(vs.skip(i as int).drop_first() =~= vs.skip(i as int + 1));
            }
            if str_eq(self.variables[i].name.as_str(), name) {
                proof {
                    lemma_set_var_at(vs, var@, i as int);
                }
                self.variables.set(i, var);
                proof {
                    assert(self@ =~= (ScopeV {
                        vars: set_var_v(old(self)@.vars, var@),
                        ..old(self)@
                    }));
                }
                return ;
            }
            i = i + 1;
        }
        proof {
            assert(vs.skip(i as int).len() == 0);
            lemma_set_var_absent(vs, var@);
        }
        self.variables.push(var);
        proof {
            assert(self@ =~= (ScopeV { vars: set_var_v(old(self)@.vars, var@), ..old(self)@ }));
        }
    }
}

/// The model of a scope stack after an insertion into the innermost scope:
/// only the innermost scope changes.
pub open spec fn map_innermost_v(scopes: Seq<ScopeV>, inner: ScopeV) -> Seq<ScopeV> {
    scopes.update(scopes.len() - 1, inner)
}

/// A scope map keeps track of the scopes alive at a point of execution: an
/// ordered stack, the innermost scope last. Lookups walk from the innermost
/// scope outward; insertions and removals target the innermost scope.
pub struct ScopeMap {
    scopes: Vec<Scope>,
}

impl View for ScopeMap {
    type V = Seq<ScopeV>;

    closed spec fn view(&self) -> Seq<ScopeV> {
        self.scopes@.map_values(|s: Scope| s@)
    }
}

impl ScopeMap {
    /// Create a new, empty scope map.
    pub fn new() -> (r: ScopeMap)
        ensures
            r@ == Seq::<ScopeV>::empty(),
    {
        let r = ScopeMap { scopes: Vec::new() };
        proof {
            assert(r@ =~= Seq::<ScopeV>::empty());
        }
        r
    }

    /// Enter a new, empty scope.
    pub fn scope_enter(&mut self)
        ensures
            final(self)@ == old(self)@.push(empty_scope_v()),
    {
        self.scopes.push(Scope::new());
        proof {
            assert(self@ =~= old(self)@.push(empty_scope_v()));
        }
    }

    /// Exit the innermost scope. Exiting with no scope left is a programmer
    /// error: the context is expected to crash, so the input is excluded.
    pub fn scope_exit(&mut self)
        requires
            old(self)@.len() > 0,
        ensures
            final(self)@ == old(self)@.drop_last(),
    {
        let _ = self.scopes.pop();
        proof {
            assert(self@ =~= old(self)@.drop_last());
        }
    }

    /// The number of scopes alive.
    pub fn depth(&self) -> (r: usize)
        ensures
            r as int == self@.len(),
    {
        self.scopes.len()
    }

    /// Find a variable, walking from the innermost scope outward.
    pub fn get_variable(&self, name: &str) -> (r: Option<&Var>)
        ensures
            match (r, lookup_var_v(self@, name@)) {
                (Some(v), Some(vv)) => v@ == vv,
                (None, None) => true,
                _ => false,
            },
    {
        let ghost sv = self@;
        let mut i: usize = self.scopes.len();
        proof {
            assert(sv.take(i as int) =~= sv);
        }
        while i > 0
            invariant
                sv == self@,
                sv == self.scopes@.map_values(|s: Scope| s@),
                i <= self.scopes@.len(),
                lookup_var_v(sv, name@) == lookup_var_v(sv.take(i as int), name@),
            decreases i,
        {
            proof {
                assert(sv.take(i as int).last() == sv[i as int - 1]);
                assert(sv.take(i as int).drop_last() =~= sv.take(i as int - 1));
            }
            match self.scopes[i - 1].get_variable(name) {
                Some(v) => {
                    return Some(v);
                },
                None => {},
            }
            i = i - 1;
        }
        proof {
            assert(sv.take(0).len() == 0);
        }
        None
    }

    /// Find a function, walking from the innermost scope outward.
    pub fn get_function(&self, name: &str) -> (r: Option<&Rc<FunctionDec>>)
        ensures
            match (r, lookup_func_v(self@, name@)) {
                (Some(f), Some(fv)) => **f == fv,
                (None, None) => true,
                _ => false,
            },
    {
        let ghost sv = self@;
        let mut i: usize = self.scopes.len();
        proof {
            assert(sv.take(i as int) =~= sv);
        }
        while i > 0
            invariant
                sv == self@,
                sv == self.scopes@.map_values(|s: Scope| s@),
                i <= self.scopes@.len(),
                lookup_func_v(sv, name@) == lookup_func_v(sv.take(i as int), name@),
            decreases i,
        {
            proof {
                assert(sv.take(i as int).last() == sv[i as int - 1]);
                assert(sv.take(i as int).drop_last() =~= sv.take(i as int - 1));
            }
            match self.scopes[i - 1].get_function(name) {
                Some(f) => {
                    return Some(f);
                },
                None => {},
            }
            i = i - 1;
        }
        proof {
            assert(sv.take(0).len() == 0);
        }
        None
    }

    /// Find a type, walking from the innermost scope outward.
    pub fn get_type(&self, name: &str) -> (r: Option<&Rc<TypeDec>>)
        ensures
            match (r, lookup_type_v(self@, name@)) {
                (Some(t), Some(tv)) => **t == tv,
                (None, None) => true,
                _ => false,
            },
    {
        let ghost sv = self@;
        let mut i: usize = self.scopes.len();
        proof {
            assert(sv.take(i as int) =~= sv);
        }
        while i > 0
            invariant
                sv == self@,
                sv == self.scopes@.map_values(|s: Scope| s@),
                i <= self.scopes@.len(),
                lookup_type_v(sv, name@) == lookup_type_v(sv.take(i as int), name@),
            decreases i,
        {
            proof {
                assert(sv.take(i as int).last() == sv[i as int - 1]);
                assert(sv.take(i as int).drop_last() =~= sv.take(i as int - 1));
            }
            match self.scopes[i - 1].get_type(name) {
                Some(t) => {
                    return Some(t);
                },
                None => {},
            }
            i = i - 1;
        }
        proof {
            assert(sv.take(0).len() == 0);
        }
        None
    }

    /// Add a variable to the innermost scope: an error when none is open or
    /// when the name is already declared there.
    pub fn add_variable(&mut self, var: Var) -> (r: Result<(), Error>)
        ensures
            match r {
                Ok(()) => {
                    &&& old(self)@.len() > 0
                    &&& find_var_v(old(self)@.last().vars, var@.name) is None
                    &&& final(self)@ == map_innermost_v(
                        old(self)@,
                        ScopeV {
                            vars: old(self)@.last().vars.push(var@),
                            ..old(self)@.last()
                        },
                    )
                },
                Err(e) => {
                    &&& final(self)@ == old(self)@
                    &&& if old(self)@.len() == 0 {
                        e@ == (ErrorV {
                            kind: ErrKind::Context,
                            msg: "Adding variable to empty scopemap"@,
                        })
                    } else {
                        find_var_v(old(self)@.last().vars, var@.name) is Some && e@ == (ErrorV {
                            kind: ErrKind::Context,
                            msg: "variable already declared: "@ + var@.name,
                        })
                    }
                },
            },
    {
        let n = self.scopes.len();
        if n == 0 {
            return Err(
                Error::new(ErrKind::Context).with_msg("Adding variable to empty scopemap".to_owned()),
            );
        }
        let r = self.scopes[n - 1].add_variable(var);
        proof {
            assert(self@ =~= self.scopes@.map_values(|s: Scope| s@));
            if r is Ok {
                assert(self@ =~= map_innermost_v(
                    old(self)@,
                    ScopeV { vars: old(self)@.last().vars.push(var@), ..old(self)@.last() },
                ));
            } else {
                assert(self@ =~= old(self)@);
            }
        }
        r
    }

    /// Bind a variable in the innermost scope, replacing a binding of the
    /// same name there or appending a new one. An error when no scope is
    /// open.
    pub fn set_variable(&mut self, var: Var) -> (r: Result<(), Error>)
        ensures
            match r {
                Ok(()) => {
                    &&& old(self)@.len() > 0
                    &&& final(self)@ == map_innermost_v(
                        old(self)@,
                        ScopeV {
                            vars: set_var_v(old(self)@.last().vars, var@),
                            ..old(self)@.last()
                        },
                    )
                },
                Err(e) => {
                    &&& final(self)@ == old(self)@
                    &&& old(self)@.len() == 0
                    &&& e@ == (ErrorV {
                        kind: ErrKind::Context,
                        msg: "Adding variable to empty scopemap"@,
                    })
                },
            },
    {
        let n = self.scopes.len();
        if n == 0 {
            return Err(
                Error::new(ErrKind::Context).with_msg("Adding variable to empty scopemap".to_owned()),
            );
        }
        self.scopes[n - 1].set_variable(var);
        proof {
            assert(self@ =~= map_innermost_v(
                old(self)@,
                ScopeV { vars: set_var_v(old(self)@.last().vars, var@), ..old(self)@.last() },
            ));
        }
        Ok(())
    }

    /// Remove a variable from the innermost scope: an error when none is
    /// open or when it is not declared there.
    pub fn remove_variable(&mut self, var: &Var) -> (r: Result<(), Error>)
        ensures
            match r {
                Ok(()) => {
                    &&& old(self)@.len() > 0
                    &&& find_var_v(old(self)@.last().vars, var@.name) is Some
                    &&& final(self)@ == map_innermost_v(
                        old(self)@,
                        ScopeV {
                            vars: remove_var_v(old(self)@.last().vars, var@.name),
                            ..old(self)@.last()
                        },
                    )
                },
                Err(e) => {
                    &&& final(self)@ == old(self)@
                    &&& if old(self)@.len() == 0 {
                        e@ == (ErrorV {
                            kind: ErrKind::Context,
                            msg: "Removing variable from empty scopemap"@,
                        })
                    } else {
                        find_var_v(old(self)@.last().vars, var@.name) is None && e@ == (ErrorV {
                            kind: ErrKind::Context,
                            msg: "variable does not exist: "@ + var@.name,
                        })
                    }
                },
            },
    {
        let n = self.scopes.len();
        if n == 0 {
            return Err(
                Error::new(ErrKind::Context).with_msg(
                    "Removing variable from empty scopemap".to_owned(),
                ),
            );
        }
        let r = self.scopes[n - 1].remove_variable(var);
        proof {
            if r is Ok {
                assert(self@ =~= map_innermost_v(
                    old(self)@,
                    ScopeV {
                        vars: remove_var_v(old(self)@.last().vars, var@.name),
                        ..old(self)@.last()
                    },
                ));
            } else {
                assert(self@ =~= old(self)@);
            }
        }
        r
    }

    /// Add a function to the innermost scope: an error when none is open or
    /// when the name is already declared there.
    pub fn add_function(&mut self, func: FunctionDec) -> (r: Result<(), Error>)
        ensures
            match r {
                Ok(()) => {
                    &&& old(self)@.len() > 0
                    &&& find_func_v(old(self)@.last().funcs, func.name@) is None
                    &&& final(self)@ == map_innermost_v(
                        old(self)@,
                        ScopeV {
                            funcs: old(self)@.last().funcs.push(func),
                            ..old(self)@.last()
                        },
                    )
                },
                Err(e) => {
                    &&& final(self)@ == old(self)@
                    &&& if old(self)@.len() == 0 {
                        e@ == (ErrorV {
                            kind: ErrKind::Context,
                            msg: "Adding function to empty scopemap"@,
                        })
                    } else {
                        find_func_v(old(self)@.last().funcs, func.name@) is Some && e@ == (ErrorV {
                            kind: ErrKind::Context,
                            msg: "function already declared: "@ + func.name@,
                        })
                    }
                },
            },
    {
        let n = self.scopes.len();
        if n == 0 {
            return Err(
                Error::new(ErrKind::Context).with_msg("Adding function to empty scopemap".to_owned()),
            );
        }
        let r = self.scopes[n - 1].add_function(func);
        proof {
            if r is Ok {
                assert(self@ =~= map_innermost_v(
                    old(self)@,
                    ScopeV { funcs: old(self)@.last().funcs.push(func), ..old(self)@.last() },
                ));
            } else {
                assert(self@ =~= old(self)@);
            }
        }
        r
    }

    /// Add a type to the innermost scope: an error when none is open or
    /// when the name is already declared there.
    pub fn add_type(&mut self, custom_type: TypeDec) -> (r: Result<(), Error>)
        ensures
            match r {
                Ok(()) => {
                    &&& old(self)@.len() > 0
                    &&& find_type_v(old(self)@.last().types, custom_type@.name) is None
                    &&& final(self)@ == map_innermost_v(
                        old(self)@,
                        ScopeV {
                            types: old(self)@.last().types.push(custom_type),
                            ..old(self)@.last()
                        },
                    )
                },
                Err(e) => {
                    &&& final(self)@ == old(self)@
                    &&& if old(self)@.len() == 0 {
                        e@ == (ErrorV {
                            kind: ErrKind::Context,
                            msg: "Adding new custom type to empty scopemap"@,
                        })
                    } else {
                        find_type_v(old(self)@.last().types, custom_type@.name) is Some && e@
                            == (ErrorV {
                            kind: ErrKind::Context,
                            msg: "type already declared: "@ + custom_type@.name,
                        })
                    }
                },
            },
    {
        let n = self.scopes.len();
        if n == 0 {
            return Err(
                Error::new(ErrKind::Context).with_msg(
                    "Adding new custom type to empty scopemap".to_owned(),
                ),
            );
        }
        let r = self.scopes[n - 1].add_type(custom_type);
        proof {
            if r is Ok {
                assert(self@ =~= map_innermost_v(
                    old(self)@,
                    ScopeV {
                        types: old(self)@.last().types.push(custom_type),
                        ..old(self)@.last()
                    },
                ));
            } else {
                assert(self@ =~= old(self)@);
            }
        }
        r
    }
}


impl ScopeMap {
    /// Add an already-shared function to the innermost scope.
    pub(crate) fn add_function_rc(&mut self, func: Rc<FunctionDec>) -> (r: Result<(), Error>)
        ensures
            match r {
                Ok(()) => {
                    &&& old(self)@.len() > 0
                    &&& find_func_v(old(self)@.last().funcs, func.name@) is None
                    &&& final(self)@ == map_innermost_v(
                        old(self)@,
                        ScopeV {
                            funcs: old(self)@.last().funcs.push(*func),
                            ..old(self)@.last()
                        },
                    )
                },
                Err(e) => {
                    &&& final(self)@ == old(self)@
                    &&& if old(self)@.len() == 0 {
                        e@ == (ErrorV {
                            kind: ErrKind::Context,
                            msg: "Adding function to empty scopemap"@,
                        })
                    } else {
                        find_func_v(old(self)@.last().funcs, func.name@) is Some && e@ == (ErrorV {
                            kind: ErrKind::Context,
                            msg: "function already declared: "@ + func.name@,
                        })
                    }
                },
            },
    {
        let n = self.scopes.len();
        if n == 0 {
            return Err(
                Error::new(ErrKind::Context).with_msg("Adding function to empty scopemap".to_owned()),
            );
        }
        let r = self.scopes[n - 1].add_function_rc(func);
        proof {
            if r is Ok {
                assert(self@ =~= map_innermost_v(
                    old(self)@,
                    ScopeV { funcs: old(self)@.last().funcs.push(*func), ..old(self)@.last() },
                ));
            } else {
                assert(self@ =~= old(self)@);
            }
        }
        r
    }

    /// Add an already-shared type to the innermost scope.
    pub(crate) fn add_type_rc(&mut self, custom_type: Rc<TypeDec>) -> (r: Result<(), Error>)
        ensures
            match r {
                Ok(()) => {
                    &&& old(self)@.len() > 0
                    &&& find_type_v(old(self)@.last().types, custom_type@.name) is None
                    &&& final(self)@ == map_innermost_v(
                        old(self)@,
                        ScopeV {
                            types: old(self)@.last().types.push(*custom_type),
                            ..old(self)@.last()
                        },
                    )
                },
                Err(e) => {
                    &&& final(self)@ == old(self)@
                    &&& if old(self)@.len() == 0 {
                        e@ == (ErrorV {
                            kind: ErrKind::Context,
                            msg: "Adding new custom type to empty scopemap"@,
                        })
                    } else {
                        find_type_v(old(self)@.last().types, custom_type@.name) is Some && e@
                            == (ErrorV {
                            kind: ErrKind::Context,
                            msg: "type already declared: "@ + custom_type@.name,
                        })
                    }
                },
            },
    {
        let n = self.scopes.len();
        if n == 0 {
            return Err(
                Error::new(ErrKind::Context).with_msg(
                    "Adding new custom type to empty scopemap".to_owned(),
                ),
            );
        }
        let r = self.scopes[n - 1].add_type_rc(custom_type);
        proof {
            if r is Ok {
                assert(self@ =~= map_innermost_v(
                    old(self)@,
                    ScopeV {
                        types: old(self)@.last().types.push(*custom_type),
                        ..old(self)@.last()
                    },
                ));
            } else {
                assert(self@ =~= old(self)@);
            }
        }
        r
    }
}

/// The dump rendering of the first `k` types: one line each.
pub open spec fn print_types_list_v(types: Seq<TypeDec>, k: int) -> Seq<char>
    decreases k,
{
    if k <= 0 || k > types.len() {
        Seq::empty()
    } else {
        print_types_list_v(types, k - 1) + "type "@ + types[k - 1]@.name + seq!['\n']
    }
}

/// The dump rendering of the first `k` variables: one line each.
pub open spec fn print_vars_list_v(vars: Seq<VarV>, k: int) -> Seq<char>
    decreases k,
{
    if k <= 0 || k > vars.len() {
        Seq::empty()
    } else {
        print_vars_list_v(vars, k - 1) + "var "@ + vars[k - 1].name + seq!['\n']
    }
}

/// The dump rendering of the first `k` functions: one line each.
pub open spec fn print_funcs_list_v(funcs: Seq<FunctionDec>, k: int) -> Seq<char>
    decreases k,
{
    if k <= 0 || k > funcs.len() {
        Seq::empty()
    } else {
        print_funcs_list_v(funcs, k - 1) + "func "@ + funcs[k - 1].name@ + seq!['\n']
    }
}

/// The dump rendering of one scope: its types, then its variables, then its
/// functions, each on one line, in insertion order.
pub open spec fn print_scope_v(s: ScopeV) -> Seq<char> {
    print_types_list_v(s.types, s.types.len() as int) + print_vars_list_v(
        s.vars,
        s.vars.len() as int,
    ) + print_funcs_list_v(s.funcs, s.funcs.len() as int)
}

/// The dump rendering of a scope stack, innermost scope first.
pub open spec fn print_scopes_v(scopes: Seq<ScopeV>) -> Seq<char>
    decreases scopes.len(),
{
    if scopes.len() == 0 {
        Seq::empty()
    } else {
        print_scope_v(scopes.last()) + print_scopes_v(scopes.drop_last())
    }
}

impl Scope {
    /// Render the scope's contents, one declaration per line.
    #[verifier::loop_isolation(false)]
    pub fn print(&self) -> (r: String)
        ensures
            r@ == print_scope_v(self@),
    {
        let mut out = String::new();
        let ghost sv = self@;
        let mut i: usize = 0;
        while i < self.types.len()
            invariant
                i <= self.types@.len(),
                out@ == print_types_list_v(sv.types, i as int),
            decreases self.types@.len() - i,
        {
            out.append("type ");
            out.append(self.types[i].name());
            crate::text::push_char(&mut out, '\n');
            proof {
                assert(sv.types[i as int] == *self.types@[i as int]);
                assert(out@ =~= print_types_list_v(sv.types, i as int + 1));
            }
            i = i + 1;
        }
        let ghost base1 = out@;
        let mut i: usize = 0;
        while i < self.variables.len()
            invariant
                i <= self.variables@.len(),
                out@ == base1 + print_vars_list_v(sv.vars, i as int),
            decreases self.variables@.len() - i,
        {
            out.append("var ");
            out.append(self.variables[i].name.as_str());
            crate::text::push_char(&mut out, '\n');
            proof {
                assert(sv.vars[i as int] == self.variables@[i as int]@);
                assert(out@ =~= base1 + print_vars_list_v(sv.vars, i as int + 1));
            }
            i = i + 1;
        }
        let ghost base2 = out@;
        let mut i: usize = 0;
        while i < self.functions.len()
            invariant
                i <= self.functions@.len(),
                out@ == base2 + print_funcs_list_v(sv.funcs, i as int),
            decreases self.functions@.len() - i,
        {
            out.append("func ");
            out.append(self.functions[i].name.as_str());
            crate::text::push_char(&mut out, '\n');
            proof {
                assert(sv.funcs[i as int] == *self.functions@[i as int]);
                assert(out@ =~= base2 + print_funcs_list_v(sv.funcs, i as int + 1));
            }
            i = i + 1;
        }
        proof {
            assert(out@ =~= print_scope_v(sv));
        }
        out
    }
}

impl ScopeMap {
    /// Render every scope's contents, innermost scope first.
    #[verifier::loop_isolation(false)]
    pub fn print(&self) -> (r: String)
        ensures
            r@ == print_scopes_v(self@),
    {
        let ghost sv = self@;
        let mut out = String::new();
        let mut i: usize = self.scopes.len();
        proof {
            assert(sv.take(i as int) =~= sv);
        }
        while i > 0
            invariant
                i <= self.scopes@.len(),
                out@ + print_scopes_v(sv.take(i as int)) == print_scopes_v(sv),
            decreases i,
        {
            proof {
                assert(sv.take(i as int).last() == sv[i as int - 1]);
                assert(sv.take(i as int).drop_last() =~= sv.take(i as int - 1));
            }
            let s = self.scopes[i - 1].print();
            out.append(s.as_str());
            i = i - 1;
        }
        proof {
            assert(sv.take(0).len() == 0);
            assert(out@ + Seq::<char>::empty() =~= out@);
        }
        out
    }
}

/// Law: scope shadowing. With a binding of `x` in force in an inner scope,
/// a lookup finds that binding; once the inner scope is exited, a lookup
/// finds whatever the outer scopes bound, exactly as before the scope was
/// entered.
pub proof fn lemma_scope_shadowing(scopes: Seq<ScopeV>, inner: ScopeV, x: Seq<char>, v2: VarV)
    requires
        find_var_v(inner.vars, x) == Some(v2),
    ensures
        lookup_var_v(scopes.push(inner), x) == Some(v2),
        scopes.push(inner).drop_last() == scopes,
        lookup_var_v(scopes.push(inner).drop_last(), x) == lookup_var_v(scopes, x),
{
    assert(scopes.push(inner).last() == inner);
    assert(scopes.push(inner).drop_last() =~= scopes);
}

/// Law: scope isolation. Binding a variable in the innermost scope leaves
/// every outer scope untouched, so after the innermost scope is exited no
/// trace of the insertion remains.
pub proof fn lemma_scope_isolation(scopes: Seq<ScopeV>, v: VarV)
    requires
        scopes.len() > 0,
    ensures
        forall|j: int|
            0 <= j < scopes.len() - 1 ==> map_innermost_v(
                scopes,
                ScopeV { vars: scopes.last().vars.push(v), ..scopes.last() },
            )[j] == scopes[j],
        map_innermost_v(
            scopes,
            ScopeV { vars: scopes.last().vars.push(v), ..scopes.last() },
        ).drop_last() == scopes.drop_last(),
{
    assert(map_innermost_v(
        scopes,
        ScopeV { vars: scopes.last().vars.push(v), ..scopes.last() },
    ).drop_last() =~= scopes.drop_last());
}

} // verus!

