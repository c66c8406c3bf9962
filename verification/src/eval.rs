//! The instruction evaluator. The meaning of every instruction is given by
//! the mathematical evaluation functions in this module: each one maps an
//! instruction, a context, and a fuel bound to the context after execution
//! and the instance produced, if any. The executable `execute` methods are
//! proved to return exactly what the evaluation functions say.
//!
//! Errors are accumulated, not thrown: a node that fails appends an error to
//! the context and produces no instance; a node that sees a failed
//! subexpression aborts by producing no instance. The fuel bound only limits
//! the depth of function calls and includes; exhausting it is reported as an
//! interpreter error.

use vstd::prelude::*;
use std::rc::Rc;
use crate::context::{find_source_v, Context, CtxV};
use crate::error::{ErrKind, Error, ErrorV};
use crate::instance::{
    concat_data, get_field_v, record_instance_v, InstanceV, ObjectInstance,
    bool_instance_v, char_instance_v, int_instance_v, string_instance_v,
};
use crate::instruction::{
    print_instr_v, Block, Constant, FieldAccess, FunctionCall, FunctionDec, Incl, Instruction,
    JkInst, JkInstKind, Return, TypeInstantiation, Var, VarAssign, VarV,
};
use crate::scope_map::{
    find_func_v, find_type_v, lookup_func_v, lookup_type_v, lookup_var_v, map_innermost_v,
    print_scopes_v, set_var_v, ScopeV,
};
use crate::text::dec_chars;
use crate::types::{is_primitive_name, DecArgV, TypeDec};

verus! {

broadcast use vstd::std_specs::vec::group_vec_axioms;

/// The default depth bound for function calls and includes. Each nested call
/// or include consumes one unit; a program that exceeds the bound gets an
/// interpreter error instead of exhausting the host's stack.
pub const DEFAULT_FUEL: u64 = 1000000;

/// The context with one more error appended.
pub open spec fn with_error_v(st: CtxV, kind: ErrKind, msg: Seq<char>) -> CtxV {
    CtxV { errors: st.errors.push(ErrorV { kind, msg }), ..st }
}

/// The instance a literal constant evaluates to.
pub open spec fn constant_instance_v(c: Constant) -> InstanceV {
    match c {
        Constant::Int(n) => int_instance_v(n),
        Constant::Bool(b) => bool_instance_v(b),
        Constant::Char(ch) => char_instance_v(ch),
        Constant::Str(s) => string_instance_v(s@),
    }
}

/// A variable lookup: the bound instance, or a context error when the name
/// is not bound to an initialized variable.
pub open spec fn eval_var_lookup_v(symbol: Seq<char>, st: CtxV) -> (CtxV, Option<InstanceV>) {
    match lookup_var_v(st.scopes, symbol) {
        Some(vv) => match vv.instance {
            Some(inst) => (st, Some(inst)),
            None => (
                with_error_v(st, ErrKind::Context, "cannot find variable: "@ + symbol),
                None::<InstanceV>,
            ),
        },
        None => (
            with_error_v(st, ErrKind::Context, "cannot find variable: "@ + symbol),
            None::<InstanceV>,
        ),
    }
}

/// The context with a variable bound in the innermost scope, replacing a
/// binding of the same name there.
pub open spec fn bind_var_v(st: CtxV, v: VarV) -> CtxV {
    CtxV {
        scopes: map_innermost_v(
            st.scopes,
            ScopeV { vars: set_var_v(st.scopes.last().vars, v), ..st.scopes.last() },
        ),
        ..st
    }
}

/// An instantiation of the named type with no fields: the empty record. The
/// same checks apply as for any instantiation: the name must not be
/// primitive, must be declared, and must have zero declared fields.
pub open spec fn eval_empty_type_inst_v(symbol: Seq<char>, st: CtxV) -> (CtxV, Option<InstanceV>) {
    if is_primitive_name(symbol) {
        (
            with_error_v(st, ErrKind::Interpreter, "cannot instantiate primitive type "@ + symbol),
            None::<InstanceV>,
        )
    } else {
        match lookup_type_v(st.scopes, symbol) {
            None => (
                with_error_v(st, ErrKind::Interpreter, "Cannot find type "@ + symbol),
                None::<InstanceV>,
            ),
            Some(dec) => {
                if dec@.fields.len() != 0 {
                    (
                        with_error_v(
                            st,
                            ErrKind::Interpreter,
                            arity_msg_v("type instantiation "@, symbol, dec@.fields.len(), 0),
                        ),
                        None::<InstanceV>,
                    )
                } else {
                    (
                        st,
                        Some(record_instance_v(dec@, Seq::empty(), Seq::empty())),
                    )
                }
            },
        }
    }
}

/// The message quoting both counts when an arity check fails.
pub open spec fn arity_msg_v(what: Seq<char>, name: Seq<char>, expected: nat, got: nat) -> Seq<
    char,
> {
    "wrong number of arguments for "@ + what + name + ": expected "@ + dec_chars(expected)
        + ", got "@ + dec_chars(got)
}

/// The directory part of a path: everything before the last slash, or the
/// empty path when there is no slash.
pub open spec fn parent_dir_v(p: Seq<char>) -> Seq<char>
    decreases p.len(),
{
    if p.len() == 0 {
        p
    } else if p.last() == '/' {
        p.drop_last()
    } else {
        parent_dir_v(p.drop_last())
    }
}

/// A path joined onto a base directory; an empty base leaves the path
/// untouched.
pub open spec fn join_path_v(base: Seq<char>, p: Seq<char>) -> Seq<char> {
    if base.len() == 0 {
        p
    } else {
        base + seq!['/'] + p
    }
}

/// The diagnostic lines printed by the `error` directive: the rendering of
/// its first `k` arguments.
pub open spec fn print_args_lines_v(args: Vec<Instruction>, k: int) -> Seq<Seq<char>>
    decreases k,
{
    if k <= 0 || k > args.len() {
        Seq::empty()
    } else {
        print_args_lines_v(args, k - 1).push(print_instr_v(args[k - 1]))
    }
}

/// Evaluate one instruction: the context afterwards and the produced
/// instance, if any.
pub open spec fn eval_instr(i: Instruction, st: CtxV, fuel: nat) -> (CtxV, Option<InstanceV>)
    decreases fuel, i, 3nat, 0nat,
{
    match i {
        Instruction::Constant(c) => (st, Some(constant_instance_v(c))),
        Instruction::Var(v) => eval_var_lookup_v(v.name@, st),
        Instruction::VarAssign(va) => eval_var_assign(va, st, fuel),
        Instruction::FieldAccess(fa) => eval_field_access(fa, st, fuel),
        Instruction::FunctionCall(fc) => eval_function_call(fc, st, fuel),
        Instruction::TypeInstantiation(ti) => eval_type_instantiation(ti, st, fuel),
        Instruction::Incl(inc) => match include_resolution(inc.path@, st) {
            Err(e) => (CtxV { errors: st.errors.push(e), ..st }, None::<InstanceV>),
            Ok(chosen) => {
                if fuel == 0 {
                    (
                        with_error_v(
                            st,
                            ErrKind::Interpreter,
                            "maximum recursion depth exceeded in include of "@ + chosen,
                        ),
                        None::<InstanceV>,
                    )
                } else {
                    let instrs = find_source_v(st.sources, chosen)->0;
                    let st1 = CtxV { path: Some(chosen), ..st };
                    let st2 = eval_seq_prefix(
                        instrs,
                        instrs.len() as int,
                        st1,
                        (fuel - 1) as nat,
                        st.errors.len() as int,
                    );
                    (CtxV { path: st.path, ..st2 }, None::<InstanceV>)
                }
            },
        },
        Instruction::JkInst(inst) => eval_directive(inst, st),
        Instruction::Return(r) => eval_return(r, st, fuel),
        Instruction::Block(b) => eval_block(b, st, fuel),
        Instruction::VarOrEmptyType(v) => match lookup_type_v(st.scopes, v.symbol@) {
            Some(_) => eval_empty_type_inst_v(v.symbol@, st),
            None => eval_var_lookup_v(v.symbol@, st),
        },
        Instruction::TypeDec(td) => eval_type_dec(*td, st),
        Instruction::FunctionDec(fd) => eval_function_dec(*fd, st),
    }
}

/// Evaluate an assignment: evaluate the right-hand side, then declare the
/// variable, or rebind it when it exists and is mutable. A failed right-hand
/// side aborts; rebinding an immutable variable is a context error.
pub open spec fn eval_var_assign(va: VarAssign, st: CtxV, fuel: nat) -> (CtxV, Option<InstanceV>)
    decreases fuel, va, 2nat, 0nat,
{
    let (st1, r) = eval_instr(*va.value, st, fuel);
    match r {
        None => (st1, None::<InstanceV>),
        Some(inst) => {
            if st1.scopes.len() == 0 {
                (
                    with_error_v(st1, ErrKind::Context, "Adding variable to empty scopemap"@),
                    None::<InstanceV>,
                )
            } else {
                match lookup_var_v(st1.scopes, va.symbol@) {
                    Some(existing) => {
                        if existing.mutable {
                            (
                                bind_var_v(
                                    st1,
                                    VarV {
                                        name: va.symbol@,
                                        mutable: true,
                                        instance: Some(inst),
                                    },
                                ),
                                None::<InstanceV>,
                            )
                        } else {
                            (
                                with_error_v(
                                    st1,
                                    ErrKind::Context,
                                    "cannot reassign immutable variable: "@ + va.symbol@,
                                ),
                                None::<InstanceV>,
                            )
                        }
                    },
                    None => (
                        bind_var_v(
                            st1,
                            VarV { name: va.symbol@, mutable: va.mutable, instance: Some(inst) },
                        ),
                        None::<InstanceV>,
                    ),
                }
            }
        },
    }
}

/// Evaluate a field access: evaluate the receiver, then slice the named
/// field out of the produced instance. A receiver that produces no instance
/// is reported as a statement that cannot be accessed.
pub open spec fn eval_field_access(fa: FieldAccess, st: CtxV, fuel: nat) -> (
    CtxV,
    Option<InstanceV>,
)
    decreases fuel, fa, 2nat, 0nat,
{
    let (st1, r) = eval_instr(*fa.instance, st, fuel);
    match r {
        None => (
            with_error_v(
                st1,
                ErrKind::Context,
                "instance "@ + print_instr_v(*fa.instance)
                    + " is a statement and cannot be accessed"@,
            ),
            None::<InstanceV>,
        ),
        Some(inst) => match get_field_v(inst, fa.field_name@) {
            Ok(f) => (st1, Some(f)),
            Err(e) => (CtxV { errors: st1.errors.push(e), ..st1 }, None::<InstanceV>),
        },
    }
}

/// Evaluate the first `k` call arguments, left to right. The first argument
/// that produces no instance aborts the whole list.
pub open spec fn eval_args_prefix(args: Vec<Instruction>, k: int, st: CtxV, fuel: nat) -> (
    CtxV,
    Option<Seq<InstanceV>>,
)
    decreases fuel, args, 0nat, k,
{
    if k <= 0 || k > args.len() {
        (st, Some(Seq::<InstanceV>::empty()))
    } else {
        let (st1, so_far) = eval_args_prefix(args, k - 1, st, fuel);
        match so_far {
            None => (st1, None::<Seq<InstanceV>>),
            Some(vals) => {
                let (st2, r) = eval_instr(args[k - 1], st1, fuel);
                match r {
                    None => (st2, None::<Seq<InstanceV>>),
                    Some(v) => (st2, Some(vals.push(v))),
                }
            },
        }
    }
}

/// The parameter bindings of a call: each parameter bound positionally to
/// the corresponding argument instance, immutably.
pub open spec fn bind_params_v(params: Seq<DecArgV>, vals: Seq<InstanceV>, k: int) -> Seq<VarV>
    decreases k,
{
    if k <= 0 {
        Seq::empty()
    } else {
        set_var_v(
            bind_params_v(params, vals, k - 1),
            VarV { name: params[k - 1].name, mutable: false, instance: Some(vals[k - 1]) },
        )
    }
}

/// Evaluate a function call: resolve the declaration, check the arity,
/// evaluate the arguments left to right, bind them positionally in a fresh
/// scope, execute the body block, and exit the scope. The call's result is
/// the block's value.
pub open spec fn eval_function_call(fc: FunctionCall, st: CtxV, fuel: nat) -> (
    CtxV,
    Option<InstanceV>,
)
    decreases fuel, fc, 2nat, 0nat,
{
    match lookup_func_v(st.scopes, fc.fn_name@) {
        None => (
            with_error_v(st, ErrKind::Context, "cannot find function: "@ + fc.fn_name@),
            None::<InstanceV>,
        ),
        Some(f) => {
            if f.args.len() != fc.args.len() {
                (
                    with_error_v(
                        st,
                        ErrKind::Interpreter,
                        arity_msg_v(
                            "call to "@,
                            fc.fn_name@,
                            f.args.len() as nat,
                            fc.args.len() as nat,
                        ),
                    ),
                    None::<InstanceV>,
                )
            } else {
                let (st1, vals) = eval_args_prefix(fc.args, fc.args.len() as int, st, fuel);
                match vals {
                    None => (st1, None::<InstanceV>),
                    Some(vs) => {
                        if fuel == 0 {
                            (
                                with_error_v(
                                    st1,
                                    ErrKind::Interpreter,
                                    "maximum recursion depth exceeded in call to "@ + fc.fn_name@,
                                ),
                                None::<InstanceV>,
                            )
                        } else {
                            let params = f.args@.map_values(|d: crate::types::DecArg| d@);
                            let inner = ScopeV {
                                vars: bind_params_v(params, vs, vs.len() as int),
                                funcs: Seq::empty(),
                                types: Seq::empty(),
                            };
                            let st2 = CtxV { scopes: st1.scopes.push(inner), ..st1 };
                            let (st3, rv) = eval_block(f.block, st2, (fuel - 1) as nat);
                            let popped = if st3.scopes.len() > 0 {
                                st3.scopes.drop_last()
                            } else {
                                st3.scopes
                            };
                            (CtxV { scopes: popped, ..st3 }, rv)
                        }
                    },
                }
            }
        },
    }
}

/// Evaluate the first `k` field assignments of a type instantiation, left to
/// right, collecting the field names and the produced instances. A field
/// whose expression produces no instance aborts the whole list.
pub open spec fn eval_fields_prefix(fields: Vec<VarAssign>, k: int, st: CtxV, fuel: nat) -> (
    CtxV,
    Option<(Seq<Seq<char>>, Seq<InstanceV>)>,
)
    decreases fuel, fields, 0nat, k,
{
    if k <= 0 || k > fields.len() {
        (st, Some((Seq::<Seq<char>>::empty(), Seq::<InstanceV>::empty())))
    } else {
        let (st1, acc) = eval_fields_prefix(fields, k - 1, st, fuel);
        match acc {
            None => (st1, None::<(Seq<Seq<char>>, Seq<InstanceV>)>),
            Some(parts) => {
                let (st2, r) = eval_instr(*fields[k - 1].value, st1, fuel);
                match r {
                    None => (st2, None::<(Seq<Seq<char>>, Seq<InstanceV>)>),
                    Some(v) => (
                        st2,
                        Some((parts.0.push(fields[k - 1].symbol@), parts.1.push(v))),
                    ),
                }
            },
        }
    }
}

/// Evaluate a type instantiation: reject primitive types, resolve the
/// declaration, check the field count, evaluate each field expression in
/// source order, and lay the field instances out one after the other into
/// a new record instance.
pub open spec fn eval_type_instantiation(ti: TypeInstantiation, st: CtxV, fuel: nat) -> (
    CtxV,
    Option<InstanceV>,
)
    decreases fuel, ti, 2nat, 0nat,
{
    if is_primitive_name(ti.ty_name@) {
        (
            with_error_v(
                st,
                ErrKind::Interpreter,
                "cannot instantiate primitive type "@ + ti.ty_name@,
            ),
            None::<InstanceV>,
        )
    } else {
        match lookup_type_v(st.scopes, ti.ty_name@) {
            None => (
                with_error_v(st, ErrKind::Interpreter, "Cannot find type "@ + ti.ty_name@),
                None::<InstanceV>,
            ),
            Some(dec) => {
                if dec@.fields.len() != ti.fields.len() {
                    (
                        with_error_v(
                            st,
                            ErrKind::Interpreter,
                            arity_msg_v(
                                "type instantiation "@,
                                ti.ty_name@,
                                dec@.fields.len(),
                                ti.fields.len() as nat,
                            ),
                        ),
                        None::<InstanceV>,
                    )
                } else {
                    let (st1, acc) = eval_fields_prefix(ti.fields, ti.fields.len() as int, st, fuel);
                    match acc {
                        None => (st1, None::<InstanceV>),
                        Some(parts) => (st1, Some(record_instance_v(dec@, parts.0, parts.1))),
                    }
                }
            },
        }
    }
}

/// Evaluate the first `k` instructions of an included file, in order,
/// propagating errors: once an instruction has raised an error past the
/// count the inclusion began with, or an exit is requested, the remaining
/// instructions do not run.
pub open spec fn eval_seq_prefix(
    instrs: Seq<Instruction>,
    k: int,
    st: CtxV,
    fuel: nat,
    base_errors: int,
) -> CtxV
    decreases fuel, instrs, 0nat, k,
{
    if k <= 0 || k > instrs.len() {
        st
    } else {
        let st1 = eval_seq_prefix(instrs, k - 1, st, fuel, base_errors);
        if st1.exit_status is Some || st1.errors.len() > base_errors {
            st1
        } else {
            eval_instr(instrs[k - 1], st1, fuel).0
        }
    }
}

/// The directory the include resolves against: the including file's parent
/// directory, or the empty path when the context has no associated source.
pub open spec fn include_base_v(st: CtxV) -> Seq<char> {
    match st.path {
        Some(p) => parent_dir_v(p),
        None => Seq::<char>::empty(),
    }
}

/// The file candidate of an include: `<base>/<path>.jk`.
pub open spec fn include_file_candidate_v(st: CtxV, path: Seq<char>) -> Seq<char> {
    join_path_v(include_base_v(st), path) + ".jk"@
}

/// The directory candidate of an include: `<base>/<path>/lib.jk`.
pub open spec fn include_dir_candidate_v(st: CtxV, path: Seq<char>) -> Seq<char> {
    join_path_v(include_base_v(st), path) + "/lib.jk"@
}

/// Resolve an include path: form the file and directory candidates against
/// the including file's directory and require exactly one of them among the
/// registered sources. Both existing, or neither, is an error.
pub open spec fn include_resolution(path: Seq<char>, st: CtxV) -> Result<Seq<char>, ErrorV> {
    let file_c = include_file_candidate_v(st, path);
    let dir_c = include_dir_candidate_v(st, path);
    let file_ok = find_source_v(st.sources, file_c) is Some;
    let dir_ok = find_source_v(st.sources, dir_c) is Some;
    if dir_ok && file_ok {
        Err(
            ErrorV {
                kind: ErrKind::Interpreter,
                msg: "invalid include: "@ + dir_c + " and "@ + file_c
                    + " are both valid candidates"@,
            },
        )
    } else if !dir_ok && !file_ok {
        Err(
            ErrorV {
                kind: ErrKind::Interpreter,
                msg: "no candidate for include: "@ + dir_c + " and "@ + file_c + " do not exist"@,
            },
        )
    } else if file_ok {
        Ok(file_c)
    } else {
        Ok(dir_c)
    }
}

/// Evaluate a directive. `dump` renders the context's state onto the output
/// stream; `quit` requests exit with status zero; `ir` prints a usage line
/// on the diagnostic stream; `error` prints each argument on the diagnostic
/// stream and requests exit with status one.
pub open spec fn eval_directive(inst: JkInst, st: CtxV) -> (CtxV, Option<InstanceV>) {
    match inst.kind {
        JkInstKind::Dump => (
            CtxV { outputs: st.outputs.push(print_scopes_v(st.scopes)), ..st },
            None::<InstanceV>,
        ),
        JkInstKind::Quit => (CtxV { exit_status: Some(0u8), ..st }, None::<InstanceV>),
        JkInstKind::Ir => (
            CtxV { diagnostics: st.diagnostics.push("usage: @ir <statement|expr>"@), ..st },
            None::<InstanceV>,
        ),
        JkInstKind::Error => (
            CtxV {
                diagnostics: st.diagnostics + print_args_lines_v(
                    inst.args,
                    inst.args.len() as int,
                ),
                exit_status: Some(1u8),
                ..st
            },
            None::<InstanceV>,
        ),
    }
}

/// Evaluate a `return`: the value of its expression, or nothing.
pub open spec fn eval_return(r: Return, st: CtxV, fuel: nat) -> (CtxV, Option<InstanceV>)
    decreases fuel, r, 2nat, 0nat,
{
    match r.value {
        Some(e) => eval_instr(*e, st, fuel),
        None => (st, None::<InstanceV>),
    }
}

/// How far a block got: still running, or finished early with a value (a
/// `return`, or a requested exit).
pub enum BlockFlow {
    More,
    Done(Option<InstanceV>),
}

/// Evaluate the first `k` instructions of a block, in order. A `return`
/// instruction short-circuits: its value becomes the block's value and the
/// rest of the block does not run. Once an exit is requested, the remaining
/// instructions do not run either.
pub open spec fn eval_block_prefix(instrs: Vec<Instruction>, k: int, st: CtxV, fuel: nat) -> (
    CtxV,
    BlockFlow,
)
    decreases fuel, instrs, 1nat, k,
{
    if k <= 0 || k > instrs.len() {
        (st, BlockFlow::More)
    } else {
        let (st1, flow) = eval_block_prefix(instrs, k - 1, st, fuel);
        match flow {
            BlockFlow::Done(v) => (st1, BlockFlow::Done(v)),
            BlockFlow::More => {
                if st1.exit_status is Some {
                    (st1, BlockFlow::Done(None::<InstanceV>))
                } else {
                    match instrs[k - 1] {
                        Instruction::Return(r) => {
                            let (st2, v) = eval_return(r, st1, fuel);
                            (st2, BlockFlow::Done(v))
                        },
                        _ => {
                            let (st2, _) = eval_instr(instrs[k - 1], st1, fuel);
                            (st2, BlockFlow::More)
                        },
                    }
                }
            },
        }
    }
}

/// Evaluate a block: its instructions in order, then the trailing
/// expression, whose instance is the block's value. A `return` instruction
/// short-circuits to its value.
pub open spec fn eval_block(b: Block, st: CtxV, fuel: nat) -> (CtxV, Option<InstanceV>)
    decreases fuel, b, 2nat, 0nat,
{
    let (st1, flow) = eval_block_prefix(b.instructions, b.instructions.len() as int, st, fuel);
    match flow {
        BlockFlow::Done(v) => (st1, v),
        BlockFlow::More => {
            if st1.exit_status is Some {
                (st1, None::<InstanceV>)
            } else {
                match b.last {
                    Some(e) => eval_instr(*e, st1, fuel),
                    None => (st1, None::<InstanceV>),
                }
            }
        },
    }
}

/// Evaluate a type declaration: add the type to the innermost scope; a
/// context error when the name is already declared there.
pub open spec fn eval_type_dec(td: TypeDec, st: CtxV) -> (CtxV, Option<InstanceV>) {
    if st.scopes.len() == 0 {
        (
            with_error_v(st, ErrKind::Context, "Adding new custom type to empty scopemap"@),
            None::<InstanceV>,
        )
    } else {
        match find_type_v(st.scopes.last().types, td@.name) {
            Some(_) => (
                with_error_v(st, ErrKind::Context, "type already declared: "@ + td@.name),
                None::<InstanceV>,
            ),
            None => (
                CtxV {
                    scopes: map_innermost_v(
                        st.scopes,
                        ScopeV { types: st.scopes.last().types.push(td), ..st.scopes.last() },
                    ),
                    ..st
                },
                None::<InstanceV>,
            ),
        }
    }
}

/// Evaluate a function declaration: add the function to the innermost
/// scope; a context error when the name is already declared there.
pub open spec fn eval_function_dec(fd: FunctionDec, st: CtxV) -> (CtxV, Option<InstanceV>) {
    if st.scopes.len() == 0 {
        (
            with_error_v(st, ErrKind::Context, "Adding function to empty scopemap"@),
            None::<InstanceV>,
        )
    } else {
        match find_func_v(st.scopes.last().funcs, fd.name@) {
            Some(_) => (
                with_error_v(st, ErrKind::Context, "function already declared: "@ + fd.name@),
                None::<InstanceV>,
            ),
            None => (
                CtxV {
                    scopes: map_innermost_v(
                        st.scopes,
                        ScopeV { funcs: st.scopes.last().funcs.push(fd), ..st.scopes.last() },
                    ),
                    ..st
                },
                None::<InstanceV>,
            ),
        }
    }
}

/// Evaluate the first `k` top-level instructions of a program. The driver
/// is best-effort per instruction but halts between instructions: once any
/// error has accumulated, or an exit was requested, the remaining
/// instructions do not run.
pub open spec fn eval_program_prefix(instrs: Seq<Instruction>, k: int, st: CtxV, fuel: nat) -> CtxV
    decreases fuel, instrs, 0nat, k,
{
    if k <= 0 || k > instrs.len() {
        st
    } else {
        let st1 = eval_program_prefix(instrs, k - 1, st, fuel);
        if st1.exit_status is Some || st1.errors.len() > 0 {
            st1
        } else {
            eval_instr(instrs[k - 1], st1, fuel).0
        }
    }
}

/// Evaluate a whole program: the top-level instructions in order, halting
/// once an error accumulates or an exit is requested, then the trailing
/// expression, whose instance is the program's value.
pub open spec fn eval_program(
    instrs: Seq<Instruction>,
    last: Option<Instruction>,
    st: CtxV,
    fuel: nat,
) -> (CtxV, Option<InstanceV>)
    decreases fuel, instrs, 1nat, 0nat,
{
    let st1 = eval_program_prefix(instrs, instrs.len() as int, st, fuel);
    if st1.exit_status is Some || st1.errors.len() > 0 {
        (st1, None::<InstanceV>)
    } else {
        match last {
            Some(e) => eval_instr(e, st1, fuel),
            None => (st1, None::<InstanceV>),
        }
    }
}

/// Law: include idempotence. Including a file leaves no mark: resolving an
/// include depends only on the registered sources and the current path, so
/// in any later context with the same sources and the same path, the same
/// include resolves to the same file again and its instructions run again —
/// nothing deduplicates a second inclusion.
pub proof fn lemma_include_no_dedup(path: Seq<char>, st1: CtxV, st2: CtxV)
    requires
        st1.sources == st2.sources,
        st1.path == st2.path,
    ensures
        include_resolution(path, st1) == include_resolution(path, st2),
        include_resolution(path, st1) is Ok ==> find_source_v(
            st1.sources,
            include_resolution(path, st1)->Ok_0,
        ) == find_source_v(st2.sources, include_resolution(path, st2)->Ok_0),
{
}

/// Whether an executable result matches a mathematical one: both absent, or
/// both present with the same model.
pub open spec fn inst_opt_matches(r: Option<ObjectInstance>, res: Option<InstanceV>) -> bool {
    match (r, res) {
        (Some(a), Some(b)) => a@ == b,
        (None, None) => true,
        _ => false,
    }
}

/// The directory part of a path, as executable code.
#[verifier::loop_isolation(false)]
fn parent_dir(p: &str) -> (r: String)
    ensures
        r@ == parent_dir_v(p@),
{
    let n = p.unicode_len();
    let mut i: usize = n;
    proof {
        assert(p@.take(n as int) =~= p@);
    }
    while i > 0
        invariant
            i <= n,
            parent_dir_v(p@) == parent_dir_v(p@.take(i as int)),
        decreases i,
    {
        proof {
            assert(p@.take(i as int).last() == p@[i as int - 1]);
            assert(p@.take(i as int).drop_last() =~= p@.take(i as int - 1));
        }
        if p.get_char(i - 1) == '/' {
            let r = p.substring_char(0, i - 1);
            return r.to_owned();
        }
        i = i - 1;
    }
    proof {
        assert(p@.take(0).len() == 0);
    }
    String::new()
}

/// An arity error quoting both counts.
fn arity_error(what: &str, name: &str, expected: usize, got: usize) -> (e: Error)
    ensures
        e@ == (ErrorV {
            kind: ErrKind::Interpreter,
            msg: arity_msg_v(what@, name@, expected as nat, got as nat),
        }),
{
    let mut m = "wrong number of arguments for ".to_owned();
    m.append(what);
    m.append(name);
    m.append(": expected ");
    crate::text::push_u64_dec(&mut m, expected as u64);
    m.append(", got ");
    crate::text::push_u64_dec(&mut m, got as u64);
    proof {
        assert(m@ =~= arity_msg_v(what@, name@, expected as nat, got as nat));
    }
    Error::new(ErrKind::Interpreter).with_msg(m)
}

/// Execute a variable lookup: hand back a copy of the bound instance, or
/// record a context error.
fn execute_var_lookup(symbol: &str, ctx: &mut Context) -> (r: Option<ObjectInstance>)
    ensures
        ({
            let (st2, res) = eval_var_lookup_v(symbol@, old(ctx)@);
            final(ctx)@ == st2 && inst_opt_matches(r, res)
        }),
{
    let inst: Option<ObjectInstance> = match ctx.get_variable(symbol) {
        Some(v) => match &v.instance {
            Some(i) => Some(i.clone()),
            None => None,
        },
        None => None,
    };
    match inst {
        Some(i) => Some(i),
        None => {
            let mut m = "cannot find variable: ".to_owned();
            m.append(symbol);
            ctx.error(Error::new(ErrKind::Context).with_msg(m));
            proof {
                assert(ctx@ =~~= eval_var_lookup_v(symbol@, old(ctx)@).0);
            }
            None
        },
    }
}

/// Execute an instantiation of the named type with no fields.
fn execute_empty_type_inst(symbol: &str, ctx: &mut Context) -> (r: Option<ObjectInstance>)
    ensures
        ({
            let (st2, res) = eval_empty_type_inst_v(symbol@, old(ctx)@);
            final(ctx)@ == st2 && inst_opt_matches(r, res)
        }),
{
    let tid = crate::types::TypeId::from(symbol);
    if tid.is_primitive() {
        let mut m = "cannot instantiate primitive type ".to_owned();
        m.append(symbol);
        ctx.error(Error::new(ErrKind::Interpreter).with_msg(m));
        proof {
            assert(ctx@ =~~= eval_empty_type_inst_v(symbol@, old(ctx)@).0);
        }
        return None;
    }
    let found: Option<Rc<TypeDec>> = match ctx.get_type(symbol) {
        Some(rc) => Some(rc.clone()),
        None => None,
    };
    match found {
        None => {
            let mut m = "Cannot find type ".to_owned();
            m.append(symbol);
            ctx.error(Error::new(ErrKind::Interpreter).with_msg(m));
            proof {
                assert(ctx@ =~~= eval_empty_type_inst_v(symbol@, old(ctx)@).0);
            }
            None
        },
        Some(dec) => {
            if dec.fields().len() != 0 {
                let e = arity_error("type instantiation ", symbol, dec.fields().len(), 0);
                ctx.error(e);
                proof {
                    assert(ctx@ =~~= eval_empty_type_inst_v(symbol@, old(ctx)@).0);
                }
                None
            } else {
                let inst = ObjectInstance::new(
                    Some(dec),
                    0,
                    Vec::new(),
                    Some(crate::instance::FieldsMap::new()),
                );
                proof {
                    assert(inst@ =~~= eval_empty_type_inst_v(symbol@, old(ctx)@).1->0);
                }
                Some(inst)
            }
        },
    }
}

/// Execute a directive.
#[verifier::loop_isolation(false)]
fn execute_directive(inst: &JkInst, ctx: &mut Context) -> (r: Option<ObjectInstance>)
    ensures
        ({
            let (st2, res) = eval_directive(*inst, old(ctx)@);
            final(ctx)@ == st2 && inst_opt_matches(r, res)
        }),
{
    let ghost st0 = ctx@;
    match inst.kind {
        JkInstKind::Dump => {
            let s = ctx.print();
            ctx.emit_output(s);
        },
        JkInstKind::Quit => {
            ctx.request_exit(0);
        },
        JkInstKind::Ir => {
            ctx.emit_diagnostic("usage: @ir <statement|expr>".to_owned());
        },
        JkInstKind::Error => {
            let mut k: usize = 0;
            while k < inst.args.len()
                invariant
                    k <= inst.args@.len(),
                    ctx@ == (CtxV {
                        diagnostics: st0.diagnostics + print_args_lines_v(inst.args, k as int),
                        ..st0
                    }),
                decreases inst.args@.len() - k,
            {
                let line = inst.args[k].print();
                ctx.emit_diagnostic(line);
                proof {
                    assert(ctx@.diagnostics =~= st0.diagnostics + print_args_lines_v(
                        inst.args,
                        k as int + 1,
                    ));
                    assert(ctx@ =~~= (CtxV {
                        diagnostics: st0.diagnostics + print_args_lines_v(
                            inst.args,
                            k as int + 1,
                        ),
                        ..st0
                    }));
                }
                k = k + 1;
            }
            ctx.request_exit(1);
        },
    }
    proof {
        assert(ctx@ =~~= eval_directive(*inst, st0).0);
    }
    None
}

/// Execute one instruction against the context.
fn execute_instr(i: &Instruction, ctx: &mut Context, fuel: u64) -> (r: Option<ObjectInstance>)
    ensures
        ({
            let (st2, res) = eval_instr(*i, old(ctx)@, fuel as nat);
            final(ctx)@ == st2 && inst_opt_matches(r, res)
        }),
    decreases fuel, *i, 3nat, 0nat,
{
    let ghost st0 = ctx@;
    match i {
        Instruction::Constant(c) => {
            let inst = match c {
                Constant::Int(n) => crate::instance::JkInt::from(*n).to_instance(),
                Constant::Bool(b) => crate::instance::JkBool::from(*b).to_instance(),
                Constant::Char(ch) => crate::instance::JkChar::from(*ch).to_instance(),
                Constant::Str(s) => crate::instance::JkString::from(s.as_str()).to_instance(),
            };
            Some(inst)
        },
        Instruction::Var(v) => execute_var_lookup(v.name.as_str(), ctx),
        Instruction::VarAssign(va) => {
            proof {
                let ii: Instruction = *i;
                assert(decreases_to!(ii => ii->VarAssign_0));
            }
            execute_var_assign(va, ctx, fuel)
        },
        Instruction::FieldAccess(fa) => {
            proof {
                let ii: Instruction = *i;
                assert(decreases_to!(ii => ii->FieldAccess_0));
            }
            execute_field_access(fa, ctx, fuel)
        },
        Instruction::FunctionCall(fc) => {
            proof {
                let ii: Instruction = *i;
                assert(decreases_to!(ii => ii->FunctionCall_0));
            }
            execute_function_call(fc, ctx, fuel)
        },
        Instruction::TypeInstantiation(ti) => {
            proof {
                let ii: Instruction = *i;
                assert(decreases_to!(ii => ii->TypeInstantiation_0));
            }
            execute_type_instantiation(ti, ctx, fuel)
        },
        Instruction::Incl(_) => execute_include(i, ctx, fuel),
        Instruction::JkInst(inst) => execute_directive(inst, ctx),
        Instruction::Return(r) => {
            proof {
                let ii: Instruction = *i;
                assert(decreases_to!(ii => ii->Return_0));
            }
            execute_return(r, ctx, fuel)
        },
        Instruction::Block(b) => {
            proof {
                let ii: Instruction = *i;
                assert(decreases_to!(ii => ii->Block_0));
            }
            execute_block(b, ctx, fuel)
        },
        Instruction::VarOrEmptyType(v) => {
            let is_type = match ctx.get_type(v.symbol.as_str()) {
                Some(_) => true,
                None => false,
            };
            if is_type {
                execute_empty_type_inst(v.symbol.as_str(), ctx)
            } else {
                execute_var_lookup(v.symbol.as_str(), ctx)
            }
        },
        Instruction::TypeDec(td) => {
            match ctx.add_type_rc(td.clone()) {
                Ok(()) => {},
                Err(e) => ctx.error(e),
            }
            proof {
                assert(ctx@ =~~= eval_type_dec(**td, st0).0);
            }
            None
        },
        Instruction::FunctionDec(fd) => {
            match ctx.add_function_rc(fd.clone()) {
                Ok(()) => {},
                Err(e) => ctx.error(e),
            }
            proof {
                assert(ctx@ =~~= eval_function_dec(**fd, st0).0);
            }
            None
        },
    }
}

/// Execute an assignment.
fn execute_var_assign(va: &VarAssign, ctx: &mut Context, fuel: u64) -> (r: Option<ObjectInstance>)
    ensures
        ({
            let (st2, res) = eval_var_assign(*va, old(ctx)@, fuel as nat);
            final(ctx)@ == st2 && inst_opt_matches(r, res)
        }),
    decreases fuel, *va, 2nat, 0nat,
{
    let ghost st0 = ctx@;
    proof {
        let vv: VarAssign = *va;
        assert(decreases_to!(vv => vv.value));
    }
    let rhs = execute_instr(&va.value, ctx, fuel);
    let inst = match rhs {
        None => {
            proof {
                assert(ctx@ =~~= eval_var_assign(*va, st0, fuel as nat).0);
            }
            return None;
        },
        Some(inst) => inst,
    };
    let ghost st1g = ctx@;
    let existing: Option<bool> = match ctx.get_variable(va.symbol.as_str()) {
        Some(v) => Some(v.mutable),
        None => None,
    };
    match existing {
        Some(true) => {
            let var = Var { name: va.symbol.clone(), mutable: true, instance: Some(inst) };
            if let Err(_e) = ctx.set_variable(var) {
                proof {
                    assert(false);
                }
            }
            proof {
                assert(ctx@ =~~= eval_var_assign(*va, st0, fuel as nat).0);
            }
            None
        },
        Some(false) => {
            let mut m = "cannot reassign immutable variable: ".to_owned();
            m.append(va.symbol.as_str());
            ctx.error(Error::new(ErrKind::Context).with_msg(m));
            proof {
                assert(ctx@ =~~= eval_var_assign(*va, st0, fuel as nat).0);
            }
            None
        },
        None => {
            let ghost iv = inst@;
            let var = Var { name: va.symbol.clone(), mutable: va.mutable, instance: Some(inst) };
            proof {
                assert(var@ =~~= (VarV { name: va.symbol@, mutable: va.mutable, instance: Some(iv) }));
            }
            match ctx.set_variable(var) {
                Ok(()) => {
                    proof {
                        assert(st1g.scopes.len() > 0);
                        assert(ctx@ =~~= bind_var_v(
                            st1g,
                            VarV { name: va.symbol@, mutable: va.mutable, instance: Some(iv) },
                        ));
                        let (st1, rr) = eval_instr(*va.value, st0, fuel as nat);
                        assert(st1 == st1g);
                        assert(rr == Some(iv));
                        assert(lookup_var_v(st1.scopes, va.symbol@) is None);
                        assert(eval_var_assign(*va, st0, fuel as nat) == (
                            bind_var_v(
                                st1,
                                VarV {
                                    name: va.symbol@,
                                    mutable: va.mutable,
                                    instance: Some(iv),
                                },
                            ),
                            None::<InstanceV>,
                        ));
                        assert(bind_var_v(
                            st1,
                            VarV { name: va.symbol@, mutable: va.mutable, instance: Some(iv) },
                        ) == bind_var_v(
                            st1g,
                            VarV { name: va.symbol@, mutable: va.mutable, instance: Some(iv) },
                        ));
                        assert(ctx@ == eval_var_assign(*va, st0, fuel as nat).0);
                    }
                },
                Err(e) => {
                    ctx.error(e);
                    proof {
                        let (st1, rr) = eval_instr(*va.value, st0, fuel as nat);
                        assert(st1 == st1g);
                        assert(rr == Some(iv));
                        assert(st1.scopes.len() == 0);
                        assert(eval_var_assign(*va, st0, fuel as nat) == (
                            with_error_v(
                                st1,
                                ErrKind::Context,
                                "Adding variable to empty scopemap"@,
                            ),
                            None::<InstanceV>,
                        ));
                        assert(ctx@ =~~= with_error_v(
                            st1g,
                            ErrKind::Context,
                            "Adding variable to empty scopemap"@,
                        ));
                        assert(ctx@ == eval_var_assign(*va, st0, fuel as nat).0);
                    }
                },
            }
            None
        },
    }
}

/// Execute a field access.
fn execute_field_access(fa: &FieldAccess, ctx: &mut Context, fuel: u64) -> (r: Option<
    ObjectInstance,
>)
    ensures
        ({
            let (st2, res) = eval_field_access(*fa, old(ctx)@, fuel as nat);
            final(ctx)@ == st2 && inst_opt_matches(r, res)
        }),
    decreases fuel, *fa, 2nat, 0nat,
{
    let ghost st0 = ctx@;
    ctx.debug("FIELD ACCESS ENTER", "");
    proof {
        let ff: FieldAccess = *fa;
        assert(decreases_to!(ff => ff.instance));
    }
    let recv = execute_instr(&fa.instance, ctx, fuel);
    let calling_instance = match recv {
        None => {
            let mut m = "instance ".to_owned();
            let p = fa.instance.print();
            m.append(p.as_str());
            m.append(" is a statement and cannot be accessed");
            ctx.error(Error::new(ErrKind::Context).with_msg(m));
            proof {
                assert(ctx@ =~~= eval_field_access(*fa, st0, fuel as nat).0);
            }
            return None;
        },
        Some(inst) => inst,
    };
    match calling_instance.get_field(fa.field_name.as_str()) {
        Ok(field) => {
            ctx.debug("FIELD ACCESS EXIT", "");
            proof {
                assert(ctx@ =~~= eval_field_access(*fa, st0, fuel as nat).0);
            }
            Some(field)
        },
        Err(e) => {
            ctx.error(e);
            proof {
                assert(ctx@ =~~= eval_field_access(*fa, st0, fuel as nat).0);
            }
            None
        },
    }
}

/// Execute a `return`.
fn execute_return(ret: &Return, ctx: &mut Context, fuel: u64) -> (r: Option<ObjectInstance>)
    ensures
        ({
            let (st2, res) = eval_return(*ret, old(ctx)@, fuel as nat);
            final(ctx)@ == st2 && inst_opt_matches(r, res)
        }),
    decreases fuel, *ret, 2nat, 0nat,
{
    match &ret.value {
        Some(e) => {
            proof {
                let rr: Return = *ret;
                assert(decreases_to!(rr => rr.value));
                assert(decreases_to!(rr.value => rr.value->0));
            }
            execute_instr(e, ctx, fuel)
        },
        None => None,
    }
}

/// Execute a block.
#[verifier::loop_isolation(false)]
fn execute_block(b: &Block, ctx: &mut Context, fuel: u64) -> (r: Option<ObjectInstance>)
    ensures
        ({
            let (st2, res) = eval_block(*b, old(ctx)@, fuel as nat);
            final(ctx)@ == st2 && inst_opt_matches(r, res)
        }),
    decreases fuel, *b, 2nat, 0nat,
{
    let ghost st0 = ctx@;
    let mut done = false;
    let mut ret: Option<ObjectInstance> = None;
    let mut k: usize = 0;
    while k < b.instructions.len()
        invariant
            k <= b.instructions@.len(),
            ({
                let (stk, flow) = eval_block_prefix(b.instructions, k as int, st0, fuel as nat);
                &&& ctx@ == stk
                &&& done <==> flow is Done
                &&& done ==> inst_opt_matches(ret, flow->Done_0)
                &&& !done ==> ret is None
            }),
        decreases b.instructions@.len() - k,
    {
        if !done {
            if ctx.exit_status().is_some() {
                done = true;
                ret = None;
            } else {
                match &b.instructions[k] {
                    Instruction::Return(rr) => {
                        proof {
                            let bb: Block = *b;
                            assert(decreases_to!(bb => bb.instructions));
                            assert(decreases_to!(bb.instructions => bb.instructions@[k as int]));
                            let jj: Instruction = b.instructions@[k as int];
                            assert(decreases_to!(jj => jj->Return_0));
                        }
                        ret = execute_return(rr, ctx, fuel);
                        done = true;
                    },
                    _ => {
                        proof {
                            let bb: Block = *b;
                            assert(decreases_to!(bb => bb.instructions));
                            assert(decreases_to!(bb.instructions => bb.instructions@[k as int]));
                        }
                        let _ = execute_instr(&b.instructions[k], ctx, fuel);
                    },
                }
            }
        }
        k = k + 1;
    }
    if done {
        proof {
            let (st2, res) = eval_block(*b, st0, fuel as nat);
            assert(ctx@ =~~= st2);
        }
        return ret;
    }
    if ctx.exit_status().is_some() {
        proof {
            assert(ctx@ =~~= eval_block(*b, st0, fuel as nat).0);
        }
        return None;
    }
    match &b.last {
        Some(e) => {
            proof {
                let bb: Block = *b;
                assert(decreases_to!(bb => bb.last));
                assert(decreases_to!(bb.last => bb.last->0));
            }
            let r = execute_instr(e, ctx, fuel);
            proof {
                assert(ctx@ =~~= eval_block(*b, st0, fuel as nat).0);
            }
            r
        },
        None => {
            proof {
                assert(ctx@ =~~= eval_block(*b, st0, fuel as nat).0);
            }
            None
        },
    }
}

/// Execute a function call.
#[verifier::loop_isolation(false)]
fn execute_function_call(fc: &FunctionCall, ctx: &mut Context, fuel: u64) -> (r: Option<
    ObjectInstance,
>)
    ensures
        ({
            let (st2, res) = eval_function_call(*fc, old(ctx)@, fuel as nat);
            final(ctx)@ == st2 && inst_opt_matches(r, res)
        }),
    decreases fuel, *fc, 2nat, 0nat,
{
    let ghost st0 = ctx@;
    let found: Option<Rc<FunctionDec>> = match ctx.get_function(fc.fn_name.as_str()) {
        Some(rc) => Some(rc.clone()),
        None => None,
    };
    let f = match found {
        None => {
            let mut m = "cannot find function: ".to_owned();
            m.append(fc.fn_name.as_str());
            ctx.error(Error::new(ErrKind::Context).with_msg(m));
            proof {
                assert(ctx@ =~~= eval_function_call(*fc, st0, fuel as nat).0);
            }
            return None;
        },
        Some(f) => f,
    };
    if f.args.len() != fc.args.len() {
        let e = arity_error("call to ", fc.fn_name.as_str(), f.args.len(), fc.args.len());
        ctx.error(e);
        proof {
            assert(ctx@ =~~= eval_function_call(*fc, st0, fuel as nat).0);
        }
        return None;
    }
    let mut vals: Vec<ObjectInstance> = Vec::new();
    let ghost mut vseq: Seq<InstanceV> = Seq::empty();
    let mut failed = false;
    let mut k: usize = 0;
    while k < fc.args.len()
        invariant
            k <= fc.args@.len(),
            !failed ==> {
                &&& vals@.len() == k as int
                &&& vseq.len() == k as int
                &&& (forall|j: int| 0 <= j < k ==> vals@[j]@ == vseq[j])
                &&& eval_args_prefix(fc.args, k as int, st0, fuel as nat) == (ctx@, Some(vseq))
            },
            failed ==> eval_args_prefix(fc.args, k as int, st0, fuel as nat) == (
                ctx@,
                None::<Seq<InstanceV>>,
            ),
        decreases fc.args@.len() - k,
    {
        if !failed {
            proof {
                let ff: FunctionCall = *fc;
                assert(decreases_to!(ff => ff.args));
                assert(decreases_to!(ff.args => ff.args@[k as int]));
            }
            match execute_instr(&fc.args[k], ctx, fuel) {
                None => {
                    failed = true;
                },
                Some(v) => {
                    proof {
                        vseq = vseq.push(v@);
                    }
                    vals.push(v);
                },
            }
        }
        k = k + 1;
    }
    if failed {
        proof {
            assert(ctx@ =~~= eval_function_call(*fc, st0, fuel as nat).0);
        }
        return None;
    }
    if fuel == 0 {
        let mut m = "maximum recursion depth exceeded in call to ".to_owned();
        m.append(fc.fn_name.as_str());
        ctx.error(Error::new(ErrKind::Interpreter).with_msg(m));
        proof {
            assert(ctx@ =~~= eval_function_call(*fc, st0, fuel as nat).0);
        }
        return None;
    }
    let ghost st1 = ctx@;
    let ghost params = f.args@.map_values(|d: crate::types::DecArg| d@);
    ctx.scope_enter();
    let mut k: usize = 0;
    while k < vals.len()
        invariant
            k <= vals@.len(),
            vals@.len() == vseq.len(),
            forall|j: int| 0 <= j < vals@.len() ==> vals@[j]@ == vseq[j],
            vals@.len() == f.args@.len(),
            params == f.args@.map_values(|d: crate::types::DecArg| d@),
            ctx@ == (CtxV {
                scopes: st1.scopes.push(
                    ScopeV {
                        vars: bind_params_v(params, vseq, k as int),
                        funcs: Seq::empty(),
                        types: Seq::empty(),
                    },
                ),
                ..st1
            }),
        decreases vals@.len() - k,
    {
        let var = Var {
            name: f.args[k].name().to_owned(),
            mutable: false,
            instance: Some(vals[k].clone()),
        };
        proof {
            assert(var@ == (VarV {
                name: params[k as int].name,
                mutable: false,
                instance: Some(vseq[k as int]),
            }));
        }
        if let Err(_e) = ctx.set_variable(var) {
            proof {
                assert(false);
            }
        }
        proof {
            assert(ctx@.scopes =~= st1.scopes.push(
                ScopeV {
                    vars: bind_params_v(params, vseq, k as int + 1),
                    funcs: Seq::empty(),
                    types: Seq::empty(),
                },
            ));
            assert(ctx@ =~~= (CtxV {
                scopes: st1.scopes.push(
                    ScopeV {
                        vars: bind_params_v(params, vseq, k as int + 1),
                        funcs: Seq::empty(),
                        types: Seq::empty(),
                    },
                ),
                ..st1
            }));
        }
        k = k + 1;
    }
    let rv = execute_block(&f.block, ctx, fuel - 1);
    if ctx.scope_depth() > 0 {
        ctx.scope_exit();
    }
    proof {
        let (st2, res) = eval_function_call(*fc, st0, fuel as nat);
        assert(ctx@ =~~= st2);
    }
    rv
}

/// Execute a type instantiation.
#[verifier::loop_isolation(false)]
fn execute_type_instantiation(ti: &TypeInstantiation, ctx: &mut Context, fuel: u64) -> (r: Option<
    ObjectInstance,
>)
    ensures
        ({
            let (st2, res) = eval_type_instantiation(*ti, old(ctx)@, fuel as nat);
            final(ctx)@ == st2 && inst_opt_matches(r, res)
        }),
    decreases fuel, *ti, 2nat, 0nat,
{
    let ghost st0 = ctx@;
    if ti.ty_name.is_primitive() {
        let mut m = "cannot instantiate primitive type ".to_owned();
        m.append(ti.ty_name.id());
        ctx.error(Error::new(ErrKind::Interpreter).with_msg(m));
        proof {
            assert(ctx@ =~~= eval_type_instantiation(*ti, st0, fuel as nat).0);
        }
        return None;
    }
    let found: Option<Rc<TypeDec>> = match ctx.get_type(ti.ty_name.id()) {
        Some(rc) => Some(rc.clone()),
        None => None,
    };
    let dec = match found {
        None => {
            let mut m = "Cannot find type ".to_owned();
            m.append(ti.ty_name.id());
            ctx.error(Error::new(ErrKind::Interpreter).with_msg(m));
            proof {
                assert(ctx@ =~~= eval_type_instantiation(*ti, st0, fuel as nat).0);
            }
            return None;
        },
        Some(dec) => dec,
    };
    if dec.fields().len() != ti.fields.len() {
        let e = arity_error(
            "type instantiation ",
            ti.ty_name.id(),
            dec.fields().len(),
            ti.fields.len(),
        );
        ctx.error(e);
        proof {
            assert(ctx@ =~~= eval_type_instantiation(*ti, st0, fuel as nat).0);
        }
        return None;
    }
    let mut data: Vec<u8> = Vec::new();
    let mut fields_map = crate::instance::FieldsMap::new();
    let ghost mut names: Seq<Seq<char>> = Seq::empty();
    let ghost mut vseq: Seq<InstanceV> = Seq::empty();
    let mut failed = false;
    let mut k: usize = 0;
    while k < ti.fields.len()
        invariant
            k <= ti.fields@.len(),
            !failed ==> {
                &&& names.len() == k as int
                &&& vseq.len() == k as int
                &&& data@ == concat_data(vseq, k as int)
                &&& fields_map@ == crate::instance::layout_fields(names, vseq, k as int)
                &&& eval_fields_prefix(ti.fields, k as int, st0, fuel as nat) == (
                    ctx@,
                    Some((names, vseq)),
                )
            },
            failed ==> eval_fields_prefix(ti.fields, k as int, st0, fuel as nat) == (
                ctx@,
                None::<(Seq<Seq<char>>, Seq<InstanceV>)>,
            ),
        decreases ti.fields@.len() - k,
    {
        if !failed {
            proof {
                let tt: TypeInstantiation = *ti;
                assert(decreases_to!(tt => tt.fields));
                assert(decreases_to!(tt.fields => tt.fields@[k as int]));
                let va: VarAssign = ti.fields@[k as int];
                assert(decreases_to!(va => va.value));
            }
            match execute_instr(&ti.fields[k].value, ctx, fuel) {
                None => {
                    failed = true;
                },
                Some(inst) => {
                    let offset = data.len();
                    let size = inst.size();
                    let mut chunk = crate::instance::copy_range(inst.data(), 0, size);
                    proof {
                        assert(chunk@ =~= inst@.data);
                    }
                    data.append(&mut chunk);
                    fields_map.push(
                        crate::instance::FieldEntry::new(ti.fields[k].symbol.clone(), offset, size),
                    );
                    proof {
                        crate::instance::lemma_concat_data_push(vseq, inst@, k as int);
                        crate::instance::lemma_layout_fields_push(
                            names,
                            vseq,
                            ti.fields@[k as int].symbol@,
                            inst@,
                            k as int,
                        );
                        names = names.push(ti.fields@[k as int].symbol@);
                        vseq = vseq.push(inst@);
                        assert(data@ =~= concat_data(vseq, k as int + 1));
                        assert(fields_map@ =~= crate::instance::layout_fields(
                            names,
                            vseq,
                            k as int + 1,
                        ));
                    }
                },
            }
        }
        k = k + 1;
    }
    if failed {
        proof {
            assert(ctx@ =~~= eval_type_instantiation(*ti, st0, fuel as nat).0);
        }
        return None;
    }
    let size = data.len();
    proof {
        crate::instance::lemma_record_layout(dec@, names, vseq);
    }
    let inst = ObjectInstance::new(Some(dec), size, data, Some(fields_map));
    proof {
        let (st2, res) = eval_type_instantiation(*ti, st0, fuel as nat);
        assert(ctx@ =~~= st2);
        assert(inst@ =~~= res->0);
    }
    Some(inst)
}

/// The two candidate files of an include, resolved against the including
/// file's directory: `<base>/<path>.jk` and `<base>/<path>/lib.jk`. The
/// host uses the same computation when it registers sources from disk, so
/// registration and resolution cannot drift apart.
pub fn include_candidates(current_path: Option<&str>, inc_path: &str) -> (r: (String, String))
    ensures
        ({
            let base = match current_path {
                Some(p) => parent_dir_v(p@),
                None => Seq::<char>::empty(),
            };
            let joined = join_path_v(base, inc_path@);
            &&& r.0@ == joined + ".jk"@
            &&& r.1@ == joined + "/lib.jk"@
        }),
{
    let base: String = match current_path {
        Some(p) => parent_dir(p),
        None => String::new(),
    };
    let joined: String = if base.as_str().unicode_len() == 0 {
        let mut j = String::new();
        j.append(inc_path);
        j
    } else {
        let mut j = base;
        crate::text::push_char(&mut j, '/');
        j.append(inc_path);
        j
    };
    proof {
        let basev = match current_path {
            Some(p) => parent_dir_v(p@),
            None => Seq::<char>::empty(),
        };
        assert(joined@ =~= join_path_v(basev, inc_path@));
    }
    let mut file_c = joined.clone();
    file_c.append(".jk");
    let mut dir_c = joined;
    dir_c.append("/lib.jk");
    (file_c, dir_c)
}

/// Execute an include.
#[verifier::loop_isolation(false)]
fn execute_include(i: &Instruction, ctx: &mut Context, fuel: u64) -> (r: Option<ObjectInstance>)
    requires
        i is Incl,
    ensures
        ({
            let (st2, res) = eval_instr(*i, old(ctx)@, fuel as nat);
            final(ctx)@ == st2 && inst_opt_matches(r, res)
        }),
    decreases fuel, *i, 2nat, 0nat,
{
    let inc = match i {
        Instruction::Incl(inc) => inc,
        _ => {
            proof {
                assert(false);
            }
            return None;
        },
    };
    let ghost st0 = ctx@;
    let current: Option<&str> = match ctx.path() {
        Some(p) => Some(p.as_str()),
        None => None,
    };
    let (file_c, dir_c) = include_candidates(current, inc.path.as_str());
    proof {
        assert(file_c@ =~= include_file_candidate_v(st0, inc.path@));
        assert(dir_c@ =~= include_dir_candidate_v(st0, inc.path@));
    }
    let file_ok = ctx.has_source(file_c.as_str());
    let dir_ok = ctx.has_source(dir_c.as_str());
    if dir_ok && file_ok {
        let mut m = "invalid include: ".to_owned();
        m.append(dir_c.as_str());
        m.append(" and ");
        m.append(file_c.as_str());
        m.append(" are both valid candidates");
        ctx.error(Error::new(ErrKind::Interpreter).with_msg(m));
        proof {
            assert(ctx@ =~~= eval_instr(*i, st0, fuel as nat).0);
        }
        return None;
    }
    if !dir_ok && !file_ok {
        let mut m = "no candidate for include: ".to_owned();
        m.append(dir_c.as_str());
        m.append(" and ");
        m.append(file_c.as_str());
        m.append(" do not exist");
        ctx.error(Error::new(ErrKind::Interpreter).with_msg(m));
        proof {
            assert(ctx@ =~~= eval_instr(*i, st0, fuel as nat).0);
        }
        return None;
    }
    let chosen: String = if file_ok {
        file_c
    } else {
        dir_c
    };
    if fuel == 0 {
        let mut m = "maximum recursion depth exceeded in include of ".to_owned();
        m.append(chosen.as_str());
        ctx.error(Error::new(ErrKind::Interpreter).with_msg(m));
        proof {
            assert(ctx@ =~~= eval_instr(*i, st0, fuel as nat).0);
        }
        return None;
    }
    let instrs: Rc<Vec<Instruction>> = match ctx.get_source(chosen.as_str()) {
        Some(rc) => rc.clone(),
        None => {
            proof {
                assert(false);
            }
            Rc::new(Vec::new())
        },
    };
    let old_path: Option<String> = match ctx.path() {
        Some(p) => Some(p.clone()),
        None => None,
    };
    ctx.set_path(Some(chosen));
    let base_count = ctx.error_count();
    let ghost st1 = ctx@;
    let ghost iseq = instrs@;
    let mut k: usize = 0;
    while k < instrs.len()
        invariant
            k <= iseq.len(),
            iseq == instrs@,
            base_count as int == st0.errors.len(),
            ctx@ == eval_seq_prefix(iseq, k as int, st1, (fuel - 1) as nat, base_count as int),
        decreases iseq.len() - k,
    {
        if ctx.exit_status().is_none() && ctx.error_count() <= base_count {
            let _ = execute_instr(&instrs[k], ctx, fuel - 1);
        }
        k = k + 1;
    }
    ctx.set_path(old_path);
    proof {
        assert(ctx@ =~~= eval_instr(*i, st0, fuel as nat).0);
    }
    None
}

impl Instruction {
    /// Execute the instruction against the context: evaluate it, record any
    /// errors on the context, and hand back the produced instance, if any.
    pub fn execute(&self, ctx: &mut Context) -> (r: Option<ObjectInstance>)
        ensures
            ({
                let (st2, res) = eval_instr(*self, old(ctx)@, DEFAULT_FUEL as nat);
                final(ctx)@ == st2 && inst_opt_matches(r, res)
            }),
    {
        execute_instr(self, ctx, DEFAULT_FUEL)
    }
}

impl TypeInstantiation {
    /// Execute the instantiation against the context.
    pub fn execute(&self, ctx: &mut Context) -> (r: Option<ObjectInstance>)
        ensures
            ({
                let (st2, res) = eval_type_instantiation(*self, old(ctx)@, DEFAULT_FUEL as nat);
                final(ctx)@ == st2 && inst_opt_matches(r, res)
            }),
    {
        execute_type_instantiation(self, ctx, DEFAULT_FUEL)
    }
}

impl FieldAccess {
    /// Execute the field access against the context.
    pub fn execute(&self, ctx: &mut Context) -> (r: Option<ObjectInstance>)
        ensures
            ({
                let (st2, res) = eval_field_access(*self, old(ctx)@, DEFAULT_FUEL as nat);
                final(ctx)@ == st2 && inst_opt_matches(r, res)
            }),
    {
        execute_field_access(self, ctx, DEFAULT_FUEL)
    }
}

impl Context {
    /// Execute the whole program held in the entry block: the top-level
    /// instructions in order, halting once an error accumulates or an exit
    /// is requested, then the trailing expression, whose instance is the
    /// program's value. While the program runs, the entry block itself is
    /// set aside and not visible to the executing instructions.
    #[verifier::loop_isolation(false)]
    pub fn execute(&mut self) -> (r: Option<ObjectInstance>)
        ensures
            ({
                let st0 = CtxV { entry_instrs: Seq::empty(), entry_last: None, ..old(self)@ };
                let (st2, res) = eval_program(
                    old(self)@.entry_instrs,
                    old(self)@.entry_last,
                    st0,
                    DEFAULT_FUEL as nat,
                );
                &&& final(self)@ == (CtxV {
                    entry_instrs: old(self)@.entry_instrs,
                    entry_last: old(self)@.entry_last,
                    ..st2
                })
                &&& inst_opt_matches(r, res)
            }),
    {
        let ghost orig = self@;
        let entry = self.take_entry();
        let ghost st0 = self@;
        let ghost iseq = entry.instructions@;
        proof {
            assert(st0 =~~= (CtxV { entry_instrs: Seq::empty(), entry_last: None, ..orig }));
        }
        let mut k: usize = 0;
        while k < entry.instructions.len()
            invariant
                k <= iseq.len(),
                iseq == entry.instructions@,
                self@ == eval_program_prefix(iseq, k as int, st0, DEFAULT_FUEL as nat),
            decreases iseq.len() - k,
        {
            let halt = self.exit_status().is_some() || self.has_errors();
            if !halt {
                let _ = execute_instr(&entry.instructions[k], self, DEFAULT_FUEL);
            }
            k = k + 1;
        }
        let halted = self.exit_status().is_some() || self.has_errors();
        let r: Option<ObjectInstance> = if halted {
            None
        } else {
            match &entry.last {
                Some(e) => execute_instr(e, self, DEFAULT_FUEL),
                None => None,
            }
        };
        self.restore_entry(entry);
        proof {
            let (st2, res) = eval_program(
                orig.entry_instrs,
                orig.entry_last,
                (CtxV { entry_instrs: Seq::empty(), entry_last: None, ..orig }),
                DEFAULT_FUEL as nat,
            );
            assert(self@ =~~= (CtxV {
                entry_instrs: orig.entry_instrs,
                entry_last: orig.entry_last,
                ..st2
            }));
        }
        r
    }
}

} // verus!
