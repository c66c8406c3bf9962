//! The execution context: the scope map, the error buffer, the diagnostic
//! sinks, the current source path, the registered sources, and the entry
//! block. Every instruction executes against a context and mutates it.

use vstd::prelude::*;
use std::rc::Rc;
use crate::error::{Error, ErrorV};
use crate::instruction::{Block, FunctionDec, Instruction, Var, VarV};
use crate::scope_map::{
    empty_scope_v, find_func_v, find_type_v, find_var_v, lookup_func_v, lookup_type_v,
    lookup_var_v, map_innermost_v, remove_var_v, set_var_v, ScopeMap, ScopeV,
};
use crate::text::str_eq;
use crate::types::TypeDec;

verus! {

broadcast use vstd::std_specs::vec::group_vec_axioms;

/// The error buffer: a context-owned accumulator of errors. Errors are
/// appended as execution runs into them and inspected by the driver between
/// top-level instructions.
pub struct ErrorHandler {
    errors: Vec<Error>,
}

impl View for ErrorHandler {
    type V = Seq<ErrorV>;

    closed spec fn view(&self) -> Seq<ErrorV> {
        self.errors@.map_values(|e: Error| e@)
    }
}

impl ErrorHandler {
    /// A fresh, empty error buffer.
    pub fn new() -> (r: ErrorHandler)
        ensures
            r@ == Seq::<ErrorV>::empty(),
    {
        let r = ErrorHandler { errors: Vec::new() };
        proof {
            assert(r@ =~= Seq::<ErrorV>::empty());
        }
        r
    }

    /// Append an error to the buffer.
    pub fn error(&mut self, e: Error)
        ensures
            final(self)@ == old(self)@.push(e@),
    {
        self.errors.push(e);
        proof {
            assert(self@ =~= old(self)@.push(e@));
        }
    }

    /// Whether any error has accumulated; gates top-level continuation.
    pub fn has_errors(&self) -> (r: bool)
        ensures
            r == (self@.len() > 0),
    {
        self.errors.len() > 0
    }

    /// How many errors have accumulated.
    pub fn count(&self) -> (r: usize)
        ensures
            r as int == self@.len(),
    {
        self.errors.len()
    }

    /// Empty the buffer.
    pub fn clear_errors(&mut self)
        ensures
            final(self)@ == Seq::<ErrorV>::empty(),
    {
        self.errors.clear();
        proof {
            assert(self@ =~= Seq::<ErrorV>::empty());
        }
    }

    /// The accumulated errors, in insertion order.
    pub fn errors(&self) -> (r: &Vec<Error>)
        ensures
            r@.map_values(|e: Error| e@) == self@,
    {
        &self.errors
    }
}

/// The first registered source with the given path, with its parsed
/// instructions.
pub open spec fn find_source_v(
    sources: Seq<(Seq<char>, Seq<Instruction>)>,
    path: Seq<char>,
) -> Option<Seq<Instruction>>
    decreases sources.len(),
{
    if sources.len() == 0 {
        None
    } else if sources[0].0 == path {
        Some(sources[0].1)
    } else {
        find_source_v(sources.drop_first(), path)
    }
}

/// Mathematical model of a [`Context`]. The toggleable debug sink's content
/// is deliberately not part of the model: it never influences execution.
#[verifier::ext_equal]
pub struct CtxV {
    /// The scope stack, innermost scope last.
    pub scopes: Seq<ScopeV>,
    /// The accumulated errors, oldest first.
    pub errors: Seq<ErrorV>,
    /// Lines written to the ordinary output stream (the `dump` directive).
    pub outputs: Seq<Seq<char>>,
    /// Lines written to the diagnostic stream (`ir` usage, `error`
    /// arguments).
    pub diagnostics: Seq<Seq<char>>,
    /// The path of the source file currently executing, if any.
    pub path: Option<Seq<char>>,
    /// The registered sources: path and parsed instructions, in registration
    /// order.
    pub sources: Seq<(Seq<char>, Seq<Instruction>)>,
    /// The instructions of the entry block holding the parsed top-level
    /// program.
    pub entry_instrs: Seq<Instruction>,
    /// The entry block's trailing expression, whose instance is the
    /// program's value.
    pub entry_last: Option<Instruction>,
    /// A requested process exit: its status. Once set, no further
    /// instruction runs.
    pub exit_status: Option<u8>,
    /// Whether the debug sink is enabled.
    pub debug_on: bool,
}

/// The model of a freshly created context: one scope open, everything else
/// empty.
pub open spec fn initial_ctx_v() -> CtxV {
    CtxV {
        scopes: seq![empty_scope_v()],
        errors: Seq::empty(),
        outputs: Seq::empty(),
        diagnostics: Seq::empty(),
        path: None,
        sources: Seq::empty(),
        entry_instrs: Seq::empty(),
        entry_last: None,
        exit_status: None,
        debug_on: false,
    }
}

/// The execution context. It owns the scope map, the error buffer, the
/// output and diagnostic sinks, the current source path, the registered
/// sources, and the entry block.
pub struct Context {
    scope_map: ScopeMap,
    /// The error buffer.
    pub error_handler: ErrorHandler,
    debug_mode: bool,
    debug_log: Vec<String>,
    outputs: Vec<String>,
    diagnostics: Vec<String>,
    path: Option<String>,
    sources: Vec<(String, Rc<Vec<Instruction>>)>,
    /// The entry block holding the parsed top-level instructions.
    pub entry_point: Block,
    exit_status: Option<u8>,
}

impl View for Context {
    type V = CtxV;

    closed spec fn view(&self) -> CtxV {
        CtxV {
            scopes: self.scope_map@,
            errors: self.error_handler@,
            outputs: self.outputs@.map_values(|s: String| s@),
            diagnostics: self.diagnostics@.map_values(|s: String| s@),
            path: match self.path {
                Some(p) => Some(p@),
                None => None,
            },
            sources: self.sources@.map_values(
                |p: (String, Rc<Vec<Instruction>>)| (p.0@, p.1@),
            ),
            entry_instrs: self.entry_point.instructions@,
            entry_last: match self.entry_point.last {
                Some(b) => Some(*b),
                None => None,
            },
            exit_status: self.exit_status,
            debug_on: self.debug_mode,
        }
    }
}

impl Context {
    /// Create a new context with one scope open and nothing else.
    pub fn new() -> (r: Context)
        ensures
            r@ == initial_ctx_v(),
    {
        let mut scope_map = ScopeMap::new();
        scope_map.scope_enter();
        let r = Context {
            scope_map,
            error_handler: ErrorHandler::new(),
            debug_mode: false,
            debug_log: Vec::new(),
            outputs: Vec::new(),
            diagnostics: Vec::new(),
            path: None,
            sources: Vec::new(),
            entry_point: Block::new(),
            exit_status: None,
        };
        proof {
            assert(r@ =~~= initial_ctx_v());
        }
        r
    }

    /// Turn the debug sink on or off.
    pub fn set_debug(&mut self, debug: bool)
        ensures
            final(self)@ == (CtxV { debug_on: debug, ..old(self)@ }),
    {
        self.debug_mode = debug;
        proof {
            assert(self@ =~= (CtxV { debug_on: debug, ..old(self)@ }));
        }
    }

    /// Record a debug event: a short uppercase label and the offending
    /// instruction's printed form. Kept outside the model: the sink never
    /// influences execution.
    pub fn debug(&mut self, label: &str, msg: &str)
        ensures
            final(self)@ == old(self)@,
    {
        if self.debug_mode {
            let mut line = label.to_owned();
            line.append(": ");
            line.append(msg);
            self.debug_log.push(line);
        }
        proof {
            assert(self@ =~= old(self)@);
        }
    }

    /// The recorded debug events, oldest first.
    pub fn debug_log(&self) -> &Vec<String> {
        &self.debug_log
    }

    /// Append an error to the context's error buffer.
    pub fn error(&mut self, e: Error)
        ensures
            final(self)@ == (CtxV { errors: old(self)@.errors.push(e@), ..old(self)@ }),
    {
        self.error_handler.error(e);
        proof {
            assert(self@ =~= (CtxV { errors: old(self)@.errors.push(e@), ..old(self)@ }));
        }
    }

    /// Whether any error has accumulated.
    pub fn has_errors(&self) -> (r: bool)
        ensures
            r == (self@.errors.len() > 0),
    {
        self.error_handler.has_errors()
    }

    /// How many errors have accumulated.
    pub fn error_count(&self) -> (r: usize)
        ensures
            r as int == self@.errors.len(),
    {
        self.error_handler.count()
    }

    /// Empty the error buffer; available for tests and interactive resets.
    pub fn clear_errors(&mut self)
        ensures
            final(self)@ == (CtxV { errors: Seq::empty(), ..old(self)@ }),
    {
        self.error_handler.clear_errors();
        proof {
            assert(self@ =~= (CtxV { errors: Seq::empty(), ..old(self)@ }));
        }
    }

    /// Open a fresh scope.
    pub fn scope_enter(&mut self)
        ensures
            final(self)@ == (CtxV {
                scopes: old(self)@.scopes.push(empty_scope_v()),
                ..old(self)@
            }),
    {
        self.scope_map.scope_enter();
        proof {
            assert(self@ =~= (CtxV {
                scopes: old(self)@.scopes.push(empty_scope_v()),
                ..old(self)@
            }));
        }
    }

    /// Close the innermost scope.
    pub fn scope_exit(&mut self)
        requires
            old(self)@.scopes.len() > 0,
        ensures
            final(self)@ == (CtxV { scopes: old(self)@.scopes.drop_last(), ..old(self)@ }),
    {
        self.scope_map.scope_exit();
        proof {
            assert(self@ =~= (CtxV { scopes: old(self)@.scopes.drop_last(), ..old(self)@ }));
        }
    }

    /// Find a variable, innermost scope first.
    pub fn get_variable(&self, name: &str) -> (r: Option<&Var>)
        ensures
            match (r, lookup_var_v(self@.scopes, name@)) {
                (Some(v), Some(vv)) => v@ == vv,
                (None, None) => true,
                _ => false,
            },
    {
        self.scope_map.get_variable(name)
    }

    /// Find a function, innermost scope first.
    pub fn get_function(&self, name: &str) -> (r: Option<&Rc<FunctionDec>>)
        ensures
            match (r, lookup_func_v(self@.scopes, name@)) {
                (Some(f), Some(fv)) => **f == fv,
                (None, None) => true,
                _ => false,
            },
    {
        self.scope_map.get_function(name)
    }

    /// Find a type, innermost scope first.
    pub fn get_type(&self, name: &str) -> (r: Option<&Rc<TypeDec>>)
        ensures
            match (r, lookup_type_v(self@.scopes, name@)) {
                (Some(t), Some(tv)) => **t == tv,
                (None, None) => true,
                _ => false,
            },
    {
        self.scope_map.get_type(name)
    }

    /// Add a variable to the innermost scope.
    pub fn add_variable(&mut self, var: Var) -> (r: Result<(), Error>)
        ensures
            match r {
                Ok(()) => {
                    &&& old(self)@.scopes.len() > 0
                    &&& find_var_v(old(self)@.scopes.last().vars, var@.name) is None
                    &&& final(self)@ == (CtxV {
                        scopes: map_innermost_v(
                            old(self)@.scopes,
                            ScopeV {
                                vars: old(self)@.scopes.last().vars.push(var@),
                                ..old(self)@.scopes.last()
                            },
                        ),
                        ..old(self)@
                    })
                },
                Err(e) => {
                    &&& final(self)@ == old(self)@
                    &&& old(self)@.scopes.len() > 0 ==> find_var_v(
                        old(self)@.scopes.last().vars,
                        var@.name,
                    ) is Some
                    &&& e@.kind == crate::error::ErrKind::Context
                },
            },
    {
        let r = self.scope_map.add_variable(var);
        proof {
            if r is Ok {
                assert(self@ =~= (CtxV {
                    scopes: map_innermost_v(
                        old(self)@.scopes,
                        ScopeV {
                            vars: old(self)@.scopes.last().vars.push(var@),
                            ..old(self)@.scopes.last()
                        },
                    ),
                    ..old(self)@
                }));
            } else {
                assert(self@ =~= old(self)@);
            }
        }
        r
    }

    /// Bind a variable in the innermost scope, replacing any binding of the
    /// same name there.
    pub fn set_variable(&mut self, var: Var) -> (r: Result<(), Error>)
        ensures
            match r {
                Ok(()) => {
                    &&& old(self)@.scopes.len() > 0
                    &&& final(self)@ == (CtxV {
                        scopes: map_innermost_v(
                            old(self)@.scopes,
                            ScopeV {
                                vars: set_var_v(old(self)@.scopes.last().vars, var@),
                                ..old(self)@.scopes.last()
                            },
                        ),
                        ..old(self)@
                    })
                },
                Err(e) => {
                    &&& final(self)@ == old(self)@
                    &&& old(self)@.scopes.len() == 0
                    &&& e@ == (ErrorV {
                        kind: crate::error::ErrKind::Context,
                        msg: "Adding variable to empty scopemap"@,
                    })
                },
            },
    {
        let r = self.scope_map.set_variable(var);
        proof {
            if r is Ok {
                assert(self@ =~= (CtxV {
                    scopes: map_innermost_v(
                        old(self)@.scopes,
                        ScopeV {
                            vars: set_var_v(old(self)@.scopes.last().vars, var@),
                            ..old(self)@.scopes.last()
                        },
                    ),
                    ..old(self)@
                }));
            } else {
                assert(self@ =~= old(self)@);
            }
        }
        r
    }

    /// Remove a variable from the innermost scope.
    pub fn remove_variable(&mut self, var: &Var) -> (r: Result<(), Error>)
        ensures
            match r {
                Ok(()) => {
                    &&& old(self)@.scopes.len() > 0
                    &&& find_var_v(old(self)@.scopes.last().vars, var@.name) is Some
                    &&& final(self)@ == (CtxV {
                        scopes: map_innermost_v(
                            old(self)@.scopes,
                            ScopeV {
                                vars: remove_var_v(old(self)@.scopes.last().vars, var@.name),
                                ..old(self)@.scopes.last()
                            },
                        ),
                        ..old(self)@
                    })
                },
                Err(e) => {
                    &&& final(self)@ == old(self)@
                    &&& e@.kind == crate::error::ErrKind::Context
                },
            },
    {
        let r = self.scope_map.remove_variable(var);
        proof {
            if r is Ok {
                assert(self@ =~= (CtxV {
                    scopes: map_innermost_v(
                        old(self)@.scopes,
                        ScopeV {
                            vars: remove_var_v(old(self)@.scopes.last().vars, var@.name),
                            ..old(self)@.scopes.last()
                        },
                    ),
                    ..old(self)@
                }));
            } else {
                assert(self@ =~= old(self)@);
            }
        }
        r
    }

    /// Add a function to the innermost scope.
    pub fn add_function(&mut self, func: FunctionDec) -> (r: Result<(), Error>)
        ensures
            match r {
                Ok(()) => {
                    &&& old(self)@.scopes.len() > 0
                    &&& find_func_v(old(self)@.scopes.last().funcs, func.name@) is None
                    &&& final(self)@ == (CtxV {
                        scopes: map_innermost_v(
                            old(self)@.scopes,
                            ScopeV {
                                funcs: old(self)@.scopes.last().funcs.push(func),
                                ..old(self)@.scopes.last()
                            },
                        ),
                        ..old(self)@
                    })
                },
                Err(e) => {
                    &&& final(self)@ == old(self)@
                    &&& old(self)@.scopes.len() > 0 ==> find_func_v(
                        old(self)@.scopes.last().funcs,
                        func.name@,
                    ) is Some
                    &&& e@.kind == crate::error::ErrKind::Context
                },
            },
    {
        let r = self.scope_map.add_function(func);
        proof {
            if r is Ok {
                assert(self@ =~= (CtxV {
                    scopes: map_innermost_v(
                        old(self)@.scopes,
                        ScopeV {
                            funcs: old(self)@.scopes.last().funcs.push(func),
                            ..old(self)@.scopes.last()
                        },
                    ),
                    ..old(self)@
                }));
            } else {
                assert(self@ =~= old(self)@);
            }
        }
        r
    }

    /// Add a type to the innermost scope.
    pub fn add_type(&mut self, custom_type: TypeDec) -> (r: Result<(), Error>)
        ensures
            match r {
                Ok(()) => {
                    &&& old(self)@.scopes.len() > 0
                    &&& find_type_v(old(self)@.scopes.last().types, custom_type@.name) is None
                    &&& final(self)@ == (CtxV {
                        scopes: map_innermost_v(
                            old(self)@.scopes,
                            ScopeV {
                                types: old(self)@.scopes.last().types.push(custom_type),
                                ..old(self)@.scopes.last()
                            },
                        ),
                        ..old(self)@
                    })
                },
                Err(e) => {
                    &&& final(self)@ == old(self)@
                    &&& old(self)@.scopes.len() > 0 ==> find_type_v(
                        old(self)@.scopes.last().types,
                        custom_type@.name,
                    ) is Some
                    &&& e@.kind == crate::error::ErrKind::Context
                },
            },
    {
        let r = self.scope_map.add_type(custom_type);
        proof {
            if r is Ok {
                assert(self@ =~= (CtxV {
                    scopes: map_innermost_v(
                        old(self)@.scopes,
                        ScopeV {
                            types: old(self)@.scopes.last().types.push(custom_type),
                            ..old(self)@.scopes.last()
                        },
                    ),
                    ..old(self)@
                }));
            } else {
                assert(self@ =~= old(self)@);
            }
        }
        r
    }

    /// The number of scopes alive.
    pub fn scope_depth(&self) -> (r: usize)
        ensures
            r as int == self@.scopes.len(),
    {
        self.scope_map.depth()
    }

    /// Add an already-shared function to the innermost scope.
    pub(crate) fn add_function_rc(&mut self, func: Rc<FunctionDec>) -> (r: Result<(), Error>)
        ensures
            match r {
                Ok(()) => {
                    &&& old(self)@.scopes.len() > 0
                    &&& find_func_v(old(self)@.scopes.last().funcs, func.name@) is None
                    &&& final(self)@ == (CtxV {
                        scopes: map_innermost_v(
                            old(self)@.scopes,
                            ScopeV {
                                funcs: old(self)@.scopes.last().funcs.push(*func),
                                ..old(self)@.scopes.last()
                            },
                        ),
                        ..old(self)@
                    })
                },
                Err(e) => {
                    &&& final(self)@ == old(self)@
                    &&& if old(self)@.scopes.len() == 0 {
                        e@ == (ErrorV {
                            kind: crate::error::ErrKind::Context,
                            msg: "Adding function to empty scopemap"@,
                        })
                    } else {
                        find_func_v(old(self)@.scopes.last().funcs, func.name@) is Some && e@
                            == (ErrorV {
                            kind: crate::error::ErrKind::Context,
                            msg: "function already declared: "@ + func.name@,
                        })
                    }
                },
            },
    {
        let r = self.scope_map.add_function_rc(func);
        proof {
            if r is Ok {
                assert(self@ =~= (CtxV {
                    scopes: map_innermost_v(
                        old(self)@.scopes,
                        ScopeV {
                            funcs: old(self)@.scopes.last().funcs.push(*func),
                            ..old(self)@.scopes.last()
                        },
                    ),
                    ..old(self)@
                }));
            } else {
                assert(self@ =~= old(self)@);
            }
        }
        r
    }

    /// Add an already-shared type to the innermost scope.
    pub(crate) fn add_type_rc(&mut self, custom_type: Rc<TypeDec>) -> (r: Result<(), Error>)
        ensures
            match r {
                Ok(()) => {
                    &&& old(self)@.scopes.len() > 0
                    &&& find_type_v(old(self)@.scopes.last().types, custom_type@.name) is None
                    &&& final(self)@ == (CtxV {
                        scopes: map_innermost_v(
                            old(self)@.scopes,
                            ScopeV {
                                types: old(self)@.scopes.last().types.push(*custom_type),
                                ..old(self)@.scopes.last()
                            },
                        ),
                        ..old(self)@
                    })
                },
                Err(e) => {
                    &&& final(self)@ == old(self)@
                    &&& if old(self)@.scopes.len() == 0 {
                        e@ == (ErrorV {
                            kind: crate::error::ErrKind::Context,
                            msg: "Adding new custom type to empty scopemap"@,
                        })
                    } else {
                        find_type_v(old(self)@.scopes.last().types, custom_type@.name) is Some
                            && e@ == (ErrorV {
                            kind: crate::error::ErrKind::Context,
                            msg: "type already declared: "@ + custom_type@.name,
                        })
                    }
                },
            },
    {
        let r = self.scope_map.add_type_rc(custom_type);
        proof {
            if r is Ok {
                assert(self@ =~= (CtxV {
                    scopes: map_innermost_v(
                        old(self)@.scopes,
                        ScopeV {
                            types: old(self)@.scopes.last().types.push(*custom_type),
                            ..old(self)@.scopes.last()
                        },
                    ),
                    ..old(self)@
                }));
            } else {
                assert(self@ =~= old(self)@);
            }
        }
        r
    }

    /// Take the entry block out of the context, leaving an empty one. Used
    /// by the driver so the running program cannot observe its own entry
    /// block.
    pub(crate) fn take_entry(&mut self) -> (r: Block)
        ensures
            r.instructions@ == old(self)@.entry_instrs,
            match (r.last, old(self)@.entry_last) {
                (Some(b), Some(e)) => *b == e,
                (None, None) => true,
                _ => false,
            },
            final(self)@ == (CtxV {
                entry_instrs: Seq::empty(),
                entry_last: None,
                ..old(self)@
            }),
    {
        let mut entry = Block::new();
        core::mem::swap(&mut self.entry_point, &mut entry);
        proof {
            assert(self@ =~~= (CtxV {
                entry_instrs: Seq::empty(),
                entry_last: None,
                ..old(self)@
            }));
        }
        entry
    }

    /// Put an entry block back into the context.
    pub(crate) fn restore_entry(&mut self, entry: Block)
        ensures
            final(self)@ == (CtxV {
                entry_instrs: entry.instructions@,
                entry_last: match entry.last {
                    Some(b) => Some(*b),
                    None => None,
                },
                ..old(self)@
            }),
    {
        self.entry_point = entry;
        proof {
            assert(self@ =~~= (CtxV {
                entry_instrs: entry.instructions@,
                entry_last: match entry.last {
                    Some(b) => Some(*b),
                    None => None,
                },
                ..old(self)@
            }));
        }
    }

    /// The path of the source file currently executing, if any.
    pub fn path(&self) -> (r: Option<&String>)
        ensures
            match (r, self@.path) {
                (Some(p), Some(pv)) => p@ == pv,
                (None, None) => true,
                _ => false,
            },
    {
        self.path.as_ref()
    }

    /// Set or clear the current source path.
    pub fn set_path(&mut self, path: Option<String>)
        ensures
            final(self)@ == (CtxV {
                path: match path {
                    Some(p) => Some(p@),
                    None => None,
                },
                ..old(self)@
            }),
    {
        self.path = path;
        proof {
            assert(self@ =~= (CtxV { path: self@.path, ..old(self)@ }));
        }
    }

    /// Register a source file: its path and its parsed instructions. An
    /// include of that path executes those instructions.
    pub fn register_source(&mut self, path: String, instructions: Vec<Instruction>)
        ensures
            final(self)@ == (CtxV {
                sources: old(self)@.sources.push((path@, instructions@)),
                ..old(self)@
            }),
    {
        self.sources.push((path, Rc::new(instructions)));
        proof {
            assert(self@ =~= (CtxV {
                sources: old(self)@.sources.push((path@, instructions@)),
                ..old(self)@
            }));
        }
    }

    /// The registered instructions for a path, if that path was registered.
    pub fn get_source(&self, path: &str) -> (r: Option<&Rc<Vec<Instruction>>>)
        ensures
            match (r, find_source_v(self@.sources, path@)) {
                (Some(v), Some(sv)) => v@ == sv,
                (None, None) => true,
                _ => false,
            },
    {
        let ghost srcs = self@.sources;
        let mut i: usize = 0;
        proof {
            assert(srcs.skip(0) =~= srcs);
        }
        while i < self.sources.len()
            invariant
                srcs == self@.sources,
                srcs == self.sources@.map_values(|p: (String, Rc<Vec<Instruction>>)| (p.0@, p.1@)),
                i <= self.sources@.len(),
                find_source_v(srcs, path@) == find_source_v(srcs.skip(i as int), path@),
            decreases self.sources@.len() - i,
        {
            proof {
                assert(srcs.skip(i as int)[0] == srcs[i as int]);
                assert(srcs.skip(i as int).drop_first() =~= srcs.skip(i as int + 1));
            }
            if str_eq(self.sources[i].0.as_str(), path) {
                return Some(&self.sources[i].1);
            }
            i = i + 1;
        }
        proof {
            assert(srcs.skip(i as int).len() == 0);
        }
        None
    }

    /// Whether a source was registered for this path.
    pub fn has_source(&self, path: &str) -> (r: bool)
        ensures
            r == (find_source_v(self@.sources, path@) is Some),
    {
        match self.get_source(path) {
            Some(_) => true,
            None => false,
        }
    }

    /// Write a line to the ordinary output stream.
    pub fn emit_output(&mut self, line: String)
        ensures
            final(self)@ == (CtxV { outputs: old(self)@.outputs.push(line@), ..old(self)@ }),
    {
        self.outputs.push(line);
        proof {
            assert(self@ =~= (CtxV { outputs: old(self)@.outputs.push(line@), ..old(self)@ }));
        }
    }

    /// Write a line to the diagnostic stream.
    pub fn emit_diagnostic(&mut self, line: String)
        ensures
            final(self)@ == (CtxV {
                diagnostics: old(self)@.diagnostics.push(line@),
                ..old(self)@
            }),
    {
        self.diagnostics.push(line);
        proof {
            assert(self@ =~= (CtxV {
                diagnostics: old(self)@.diagnostics.push(line@),
                ..old(self)@
            }));
        }
    }

    /// Request process termination with the given status. The host exits
    /// with it; no further instruction runs.
    pub fn request_exit(&mut self, status: u8)
        ensures
            final(self)@ == (CtxV { exit_status: Some(status), ..old(self)@ }),
    {
        self.exit_status = Some(status);
        proof {
            assert(self@ =~= (CtxV { exit_status: Some(status), ..old(self)@ }));
        }
    }

    /// The requested exit status, if any instruction requested one.
    pub fn exit_status(&self) -> (r: Option<u8>)
        ensures
            r == self@.exit_status,
    {
        self.exit_status
    }

    /// The lines written to the ordinary output stream, for the host to
    /// print.
    pub fn outputs(&self) -> (r: &Vec<String>)
        ensures
            r@.map_values(|s: String| s@) == self@.outputs,
    {
        &self.outputs
    }

    /// The lines written to the diagnostic stream, for the host to print.
    pub fn diagnostics(&self) -> (r: &Vec<String>)
        ensures
            r@.map_values(|s: String| s@) == self@.diagnostics,
    {
        &self.diagnostics
    }

    /// Render the scope map's whole contents, innermost scope first.
    pub fn print(&self) -> (r: String)
        ensures
            r@ == crate::scope_map::print_scopes_v(self@.scopes),
    {
        self.scope_map.print()
    }
}

} // verus!
