//! The instruction tree. A program is a sequence of instructions; every
//! instruction is either a statement (produces no value) or an expression
//! (may produce an instance). Each node can print itself back in a canonical
//! source-like form, used for diagnostics.

use vstd::prelude::*;
use std::rc::Rc;
use crate::error::{ErrKind, Error};
use crate::text::{dec_chars_int, push_i64_dec, push_char, str_eq};
use crate::types::{DecArg, TypeDec, TypeId};

verus! {

broadcast use vstd::std_specs::vec::group_vec_axioms;

/// What an instruction is: a statement never produces an instance, an
/// expression may, with an optionally known type.
pub enum InstrKind {
    Statement,
    Expression(Option<TypeId>),
}

/// A literal constant of the language.
pub enum Constant {
    Int(i64),
    Bool(bool),
    Char(char),
    Str(String),
}

/// A variable: its name, its mutability, and the instance bound to it. The
/// same shape serves as the lookup instruction (by name) and as the binding
/// stored in a scope.
pub struct Var {
    pub name: String,
    pub mutable: bool,
    pub instance: Option<crate::instance::ObjectInstance>,
}

/// An assignment `symbol = value`, declaring or rebinding a variable; also
/// used for the `field = value` pairs of a type instantiation.
pub struct VarAssign {
    pub mutable: bool,
    pub symbol: String,
    pub value: Box<Instruction>,
}

/// An access `receiver.field` onto a type instance's field.
pub struct FieldAccess {
    pub instance: Box<Instruction>,
    pub field_name: String,
}

/// A call `name(arg, ...)` of a declared function.
pub struct FunctionCall {
    pub fn_name: String,
    pub args: Vec<Instruction>,
}

/// An instantiation `Name { field = value, ... }` of a record type.
pub struct TypeInstantiation {
    pub ty_name: TypeId,
    pub fields: Vec<VarAssign>,
}

/// An inclusion of another source file, with an optional alias.
pub struct Incl {
    pub path: String,
    pub alias: Option<String>,
}

/// The fixed set of interpreter directives.
#[derive(Clone, Copy, Debug, PartialEq, Eq, Structural)]
pub enum JkInstKind {
    Dump,
    Quit,
    Ir,
    Error,
}

/// A directive given to the interpreter itself, with its arguments.
pub struct JkInst {
    pub kind: JkInstKind,
    pub args: Vec<Instruction>,
}

/// A `return`, carrying an optional expression whose instance becomes the
/// enclosing block's value.
pub struct Return {
    pub value: Option<Box<Instruction>>,
}

/// A block of instructions, with an optional trailing expression whose
/// instance is the block's value.
pub struct Block {
    pub instructions: Vec<Instruction>,
    pub last: Option<Box<Instruction>>,
}

/// A bare identifier the parser cannot disambiguate: at execution it is a
/// zero-field type instantiation if the name denotes a type in scope, and a
/// variable lookup otherwise.
pub struct VarOrEmptyType {
    pub symbol: String,
}

/// A function declaration: name, ordered parameters, optional return type,
/// and the body block.
pub struct FunctionDec {
    pub name: String,
    pub args: Vec<DecArg>,
    pub ty: Option<TypeId>,
    pub block: Block,
}

/// One node of the instruction tree.
pub enum Instruction {
    Constant(Constant),
    Var(Var),
    VarAssign(VarAssign),
    FieldAccess(FieldAccess),
    FunctionCall(FunctionCall),
    TypeInstantiation(TypeInstantiation),
    Incl(Incl),
    JkInst(JkInst),
    Return(Return),
    Block(Block),
    VarOrEmptyType(VarOrEmptyType),
    TypeDec(Rc<TypeDec>),
    FunctionDec(Rc<FunctionDec>),
}

/// The canonical rendering of a literal constant: integers in decimal,
/// booleans as keywords, characters between single quotes, strings between
/// double quotes, without escape processing.
pub open spec fn print_constant_v(c: Constant) -> Seq<char> {
    match c {
        Constant::Int(n) => dec_chars_int(n as int),
        Constant::Bool(b) => if b {
            "true"@
        } else {
            "false"@
        },
        Constant::Char(ch) => seq!['\''].push(ch).push('\''),
        Constant::Str(s) => seq!['"'] + s@ + seq!['"'],
    }
}

/// The canonical rendering of an instruction.
pub open spec fn print_instr_v(i: Instruction) -> Seq<char>
    decreases i, 2nat, 0nat,
{
    match i {
        Instruction::Constant(c) => print_constant_v(c),
        Instruction::Var(v) => v.name@,
        Instruction::VarAssign(va) => print_var_assign_v(va),
        Instruction::FieldAccess(fa) => print_instr_v(*fa.instance) + seq!['.'] + fa.field_name@,
        Instruction::FunctionCall(fc) => fc.fn_name@ + seq!['('] + print_comma_list_v(
            fc.args,
            fc.args.len() as int,
        ) + seq![')'],
        Instruction::TypeInstantiation(ti) => ti.ty_name@ + seq!['('] + print_assign_list_v(
            ti.fields,
            ti.fields.len() as int,
        ) + seq![')'],
        Instruction::Incl(inc) => "incl "@ + inc.path@ + match inc.alias {
            Some(a) => " as "@ + a@,
            None => Seq::empty(),
        },
        Instruction::JkInst(inst) => print_jk_inst_kind_v(inst.kind),
        Instruction::Return(r) => match r.value {
            Some(e) => "return "@ + print_instr_v(*e),
            None => "return"@,
        },
        Instruction::Block(b) => print_block_v(b),
        Instruction::VarOrEmptyType(v) => v.symbol@,
        Instruction::TypeDec(td) => "type "@ + td@.name + seq!['('] + print_dec_args_v(
            td@.fields,
            td@.fields.len() as int,
        ) + seq![')'],
        Instruction::FunctionDec(fd) => print_function_dec_v(*fd),
    }
}

/// The rendering of a directive: its name behind an at sign.
pub open spec fn print_jk_inst_kind_v(k: JkInstKind) -> Seq<char> {
    match k {
        JkInstKind::Dump => "@dump"@,
        JkInstKind::Quit => "@quit"@,
        JkInstKind::Ir => "@ir"@,
        JkInstKind::Error => "@error"@,
    }
}

/// The rendering of an assignment: `mut` when mutable, then the symbol, an
/// equals sign, and the right-hand side.
pub open spec fn print_var_assign_v(va: VarAssign) -> Seq<char>
    decreases va, 1nat, 0nat,
{
    (if va.mutable {
        "mut "@
    } else {
        Seq::empty()
    }) + va.symbol@ + " = "@ + print_instr_v(*va.value)
}

/// The rendering of a function declaration.
pub open spec fn print_function_dec_v(fd: FunctionDec) -> Seq<char>
    decreases fd, 1nat, 0nat,
{
    "func "@ + fd.name@ + seq!['('] + print_dec_args_v(
        fd.args@.map_values(|d: DecArg| d@),
        fd.args@.len() as int,
    ) + seq![')'] + match fd.ty {
        Some(t) => " -> "@ + t@,
        None => Seq::empty(),
    } + seq![' '] + print_block_v(fd.block)
}

/// The rendering of a block: its instructions separated by semicolons
/// between curly brackets, with the trailing expression last.
pub open spec fn print_block_v(b: Block) -> Seq<char>
    decreases b, 1nat, 0nat,
{
    seq!['{'] + print_semi_list_v(b.instructions, b.instructions.len() as int) + match b.last {
        Some(e) => seq![' '] + print_instr_v(*e),
        None => Seq::empty(),
    } + seq![' ', '}']
}

/// The rendering of the first `k` instructions, comma-separated.
pub open spec fn print_comma_list_v(items: Vec<Instruction>, k: int) -> Seq<char>
    decreases items, 0nat, k,
{
    if k <= 0 || k > items.len() {
        Seq::empty()
    } else if k == 1 {
        print_instr_v(items[0])
    } else {
        print_comma_list_v(items, k - 1) + ", "@ + print_instr_v(items[k - 1])
    }
}

/// The rendering of the first `k` instructions, each followed by a
/// semicolon and a space.
pub open spec fn print_semi_list_v(items: Vec<Instruction>, k: int) -> Seq<char>
    decreases items, 0nat, k,
{
    if k <= 0 || k > items.len() {
        Seq::empty()
    } else {
        print_semi_list_v(items, k - 1) + seq![' '] + print_instr_v(items[k - 1]) + seq![';']
    }
}

/// The rendering of the first `k` field assignments, comma-separated.
pub open spec fn print_assign_list_v(items: Vec<VarAssign>, k: int) -> Seq<char>
    decreases items, 1nat, k,
{
    if k <= 0 || k > items.len() {
        Seq::empty()
    } else if k == 1 {
        print_var_assign_v(items[0])
    } else {
        print_assign_list_v(items, k - 1) + ", "@ + print_var_assign_v(items[k - 1])
    }
}

/// The rendering of the first `k` declaration arguments (`name: type`),
/// comma-separated.
pub open spec fn print_dec_args_v(items: Seq<crate::types::DecArgV>, k: int) -> Seq<char>
    decreases k,
{
    if k <= 0 || k > items.len() {
        Seq::empty()
    } else if k == 1 {
        items[0].name + ": "@ + items[0].ty
    } else {
        print_dec_args_v(items, k - 1) + ", "@ + items[k - 1].name + ": "@ + items[k - 1].ty
    }
}

/// Whether an instruction is a statement: it never produces an instance.
/// Everything else is an expression. A block is an expression exactly when
/// it has a trailing expression.
pub open spec fn is_statement_v(i: Instruction) -> bool {
    match i {
        Instruction::VarAssign(_) => true,
        Instruction::Incl(_) => true,
        Instruction::JkInst(_) => true,
        Instruction::TypeDec(_) => true,
        Instruction::FunctionDec(_) => true,
        Instruction::Block(b) => b.last is None,
        _ => false,
    }
}

/// The directive denoted by a name, if any.
pub open spec fn jk_directive_of(name: Seq<char>) -> Option<JkInstKind> {
    if name == "dump"@ {
        Some(JkInstKind::Dump)
    } else if name == "quit"@ {
        Some(JkInstKind::Quit)
    } else if name == "ir"@ {
        Some(JkInstKind::Ir)
    } else if name == "error"@ {
        Some(JkInstKind::Error)
    } else {
        None
    }
}

/// Mathematical model of a [`Var`]: its name, mutability, and bound
/// instance.
#[verifier::ext_equal]
pub struct VarV {
    pub name: Seq<char>,
    pub mutable: bool,
    pub instance: Option<crate::instance::InstanceV>,
}

impl View for Var {
    type V = VarV;

    open spec fn view(&self) -> VarV {
        VarV {
            name: self.name@,
            mutable: self.mutable,
            instance: match self.instance {
                Some(i) => Some(i@),
                None => None,
            },
        }
    }
}

impl Var {
    /// A new, immutable variable with no instance bound yet.
    pub fn new(name: String) -> (r: Var)
        ensures
            r@ == (VarV { name: name@, mutable: false, instance: None::<crate::instance::InstanceV> }),
    {
        Var { name, mutable: false, instance: None }
    }

    /// The variable's name.
    pub fn name(&self) -> (r: &str)
        ensures
            r@ == self@.name,
    {
        self.name.as_str()
    }

    /// Bind an instance to the variable.
    pub fn set_instance(&mut self, instance: crate::instance::ObjectInstance)
        ensures
            final(self)@ == (VarV { instance: Some(instance@), ..old(self)@ }),
    {
        self.instance = Some(instance);
    }

    /// Set the variable's mutability.
    pub fn set_mutable(&mut self, mutable: bool)
        ensures
            final(self)@ == (VarV { mutable, ..old(self)@ }),
    {
        self.mutable = mutable;
    }
}

impl Instruction {
    /// Whether the instruction is a statement or an expression.
    pub fn kind(&self) -> (r: InstrKind)
        ensures
            r is Statement <==> is_statement_v(*self),
            r is Expression ==> r->0 is None,
    {
        let stmt = match self {
            Instruction::VarAssign(_) => true,
            Instruction::Incl(_) => true,
            Instruction::JkInst(_) => true,
            Instruction::TypeDec(_) => true,
            Instruction::FunctionDec(_) => true,
            Instruction::Block(b) => b.last.is_none(),
            _ => false,
        };
        if stmt {
            InstrKind::Statement
        } else {
            InstrKind::Expression(None)
        }
    }

    /// The canonical source-like rendering of the instruction.
    pub fn print(&self) -> (r: String)
        ensures
            r@ == print_instr_v(*self),
    {
        let mut out = String::new();
        push_print_instr(self, &mut out);
        out
    }
}

impl VarAssign {
    /// Create an assignment of `value` to `symbol`.
    pub fn new(mutable: bool, symbol: String, value: Box<Instruction>) -> (r: VarAssign)
        ensures
            r.mutable == mutable,
            r.symbol == symbol,
            r.value == value,
    {
        VarAssign { mutable, symbol, value }
    }

    /// The assigned symbol.
    pub fn symbol(&self) -> (r: &str)
        ensures
            r@ == self.symbol@,
    {
        self.symbol.as_str()
    }

    /// The right-hand side expression.
    pub fn value(&self) -> (r: &Instruction)
        ensures
            r == &*self.value,
    {
        &self.value
    }

    /// The canonical rendering of the assignment.
    pub fn print(&self) -> (r: String)
        ensures
            r@ == print_var_assign_v(*self),
    {
        let mut out = String::new();
        push_print_var_assign(self, &mut out);
        out
    }
}

impl FieldAccess {
    /// Create a new field access from the instance accessed and the field
    /// sought.
    pub fn new(instance: Box<Instruction>, field_name: String) -> (r: FieldAccess)
        ensures
            r.instance == instance,
            r.field_name == field_name,
    {
        FieldAccess { instance, field_name }
    }
}

impl FunctionCall {
    /// Create a new function call with no arguments yet.
    pub fn new(fn_name: String) -> (r: FunctionCall)
        ensures
            r.fn_name == fn_name,
            r.args@ == Seq::<Instruction>::empty(),
    {
        FunctionCall { fn_name, args: Vec::new() }
    }

    /// Add an argument to the call.
    pub fn add_arg(&mut self, arg: Instruction)
        ensures
            final(self).fn_name == old(self).fn_name,
            final(self).args@ == old(self).args@.push(arg),
    {
        self.args.push(arg)
    }

    /// The called function's name.
    pub fn name(&self) -> (r: &str)
        ensures
            r@ == self.fn_name@,
    {
        self.fn_name.as_str()
    }

    /// The call's arguments.
    pub fn args(&self) -> (r: &Vec<Instruction>)
        ensures
            r == &self.args,
    {
        &self.args
    }

    /// The canonical rendering of the call: the name, then the arguments
    /// between parentheses, comma-separated.
    pub fn print(&self) -> (r: String)
        ensures
            r@ == print_instr_v(Instruction::FunctionCall(*self)),
    {
        let mut out = String::new();
        out.append(self.fn_name.as_str());
        push_char(&mut out, '(');
        let ghost base = out@;
        let mut k: usize = 0;
        while k < self.args.len()
            invariant
                k <= self.args@.len(),
                out@ == base + print_comma_list_v(self.args, k as int),
            decreases self.args@.len() - k,
        {
            if k > 0 {
                out.append(", ");
            }
            push_print_instr(&self.args[k], &mut out);
            proof {
                assert(out@ =~= base + print_comma_list_v(self.args, k as int + 1));
            }
            k = k + 1;
        }
        push_char(&mut out, ')');
        proof {
            assert(out@ =~= print_instr_v(Instruction::FunctionCall(*self)));
        }
        out
    }
}

impl TypeInstantiation {
    /// Create a new instantiation of the named type, with no fields yet.
    pub fn new(ty_name: TypeId) -> (r: TypeInstantiation)
        ensures
            r.ty_name == ty_name,
            r.fields@ == Seq::<VarAssign>::empty(),
    {
        TypeInstantiation { ty_name, fields: Vec::new() }
    }

    /// Add a field assignment to the instantiation.
    pub fn add_field(&mut self, arg: VarAssign)
        ensures
            final(self).ty_name == old(self).ty_name,
            final(self).fields@ == old(self).fields@.push(arg),
    {
        self.fields.push(arg)
    }

    /// The instantiated type's name.
    pub fn name(&self) -> (r: &TypeId)
        ensures
            r == &self.ty_name,
    {
        &self.ty_name
    }

    /// The field assignments of the instantiation.
    pub fn fields(&self) -> (r: &Vec<VarAssign>)
        ensures
            r == &self.fields,
    {
        &self.fields
    }
}

impl Incl {
    /// Create an inclusion of the given path, with an optional alias.
    pub fn new(path: String, alias: Option<String>) -> (r: Incl)
        ensures
            r.path == path,
            r.alias == alias,
    {
        Incl { path, alias }
    }
}

impl JkInst {
    /// Construct a directive from a parsed function call. The callee must be
    /// one of the fixed directive names; anything else is a parse error.
    pub fn from_function_call(fc: FunctionCall) -> (r: Result<JkInst, Error>)
        ensures
            match r {
                Ok(inst) => jk_directive_of(fc.fn_name@) == Some(inst.kind) && inst.args
                    == fc.args,
                Err(e) => jk_directive_of(fc.fn_name@) is None && e@.kind == ErrKind::Parsing
                    && e@.msg == "unknown interpreter directive @"@ + fc.fn_name@,
            },
    {
        let name = fc.fn_name.as_str();
        let kind = if str_eq(name, "dump") {
            JkInstKind::Dump
        } else if str_eq(name, "quit") {
            JkInstKind::Quit
        } else if str_eq(name, "ir") {
            JkInstKind::Ir
        } else if str_eq(name, "error") {
            JkInstKind::Error
        } else {
            let mut m = "unknown interpreter directive @".to_owned();
            m.append(name);
            return Err(Error::new(ErrKind::Parsing).with_msg(m));
        };
        Ok(JkInst { kind, args: fc.args })
    }

    /// The directive's kind.
    pub fn jk_inst_kind(&self) -> (r: &JkInstKind)
        ensures
            r == &self.kind,
    {
        &self.kind
    }
}

impl Return {
    /// Create a return with an optional value to be returned.
    pub fn new(ret_value: Option<Box<Instruction>>) -> (r: Return)
        ensures
            r.value == ret_value,
    {
        Return { value: ret_value }
    }
}

impl VarOrEmptyType {
    /// Create an unresolved bare-identifier node.
    pub fn new(symbol: String) -> (r: VarOrEmptyType)
        ensures
            r.symbol == symbol,
    {
        VarOrEmptyType { symbol }
    }
}

impl Block {
    /// Create an empty block.
    pub fn new() -> (r: Block)
        ensures
            r.instructions@ == Seq::<Instruction>::empty(),
            r.last is None,
    {
        Block { instructions: Vec::new(), last: None }
    }

    /// Replace the block's instructions.
    pub fn set_instructions(&mut self, instructions: Vec<Instruction>)
        ensures
            final(self).instructions == instructions,
            final(self).last == old(self).last,
    {
        self.instructions = instructions;
    }

    /// Append an instruction to the block.
    pub fn add_instruction(&mut self, instruction: Instruction)
        ensures
            final(self).instructions@ == old(self).instructions@.push(instruction),
            final(self).last == old(self).last,
    {
        self.instructions.push(instruction);
    }

    /// Remove and return the block's final instruction, if any.
    pub fn pop_instruction(&mut self) -> (r: Option<Instruction>)
        ensures
            old(self).instructions@.len() == 0 ==> {
                &&& r is None
                &&& final(self).instructions@ == old(self).instructions@
                &&& final(self).last == old(self).last
            },
            old(self).instructions@.len() > 0 ==> {
                &&& r == Some(old(self).instructions@.last())
                &&& final(self).instructions@ == old(self).instructions@.drop_last()
                &&& final(self).last == old(self).last
            },
    {
        self.instructions.pop()
    }

    /// Set the block's trailing expression, whose instance is the block's
    /// value.
    pub fn set_last(&mut self, last: Option<Box<Instruction>>)
        ensures
            final(self).instructions == old(self).instructions,
            final(self).last == last,
    {
        self.last = last;
    }
}

impl FunctionDec {
    /// Create a function declaration.
    pub fn new(name: String, args: Vec<DecArg>, ty: Option<TypeId>, block: Block) -> (r:
        FunctionDec)
        ensures
            r.name == name,
            r.args == args,
            r.ty == ty,
            r.block == block,
    {
        FunctionDec { name, args, ty, block }
    }

    /// The declared function's name.
    pub fn name(&self) -> (r: &str)
        ensures
            r@ == self.name@,
    {
        self.name.as_str()
    }
}

/// Append the rendering of a constant to `out`.
fn push_print_constant(c: &Constant, out: &mut String)
    ensures
        final(out)@ == old(out)@ + print_constant_v(*c),
{
    match c {
        Constant::Int(n) => push_i64_dec(out, *n),
        Constant::Bool(b) => {
            if *b {
                out.append("true");
            } else {
                out.append("false");
            }
        },
        Constant::Char(ch) => {
            push_char(out, '\'');
            push_char(out, *ch);
            push_char(out, '\'');
            proof {
                assert(old(out)@ + print_constant_v(*c) =~= old(out)@.push('\'').push(*ch).push(
                    '\'',
                ));
            }
        },
        Constant::Str(s) => {
            push_char(out, '"');
            out.append(s.as_str());
            push_char(out, '"');
            proof {
                assert(old(out)@ + print_constant_v(*c) =~= (old(out)@ + seq!['"'] + s@).push('"'));
            }
        },
    }
}

/// Append the rendering of an instruction to `out`.
#[verifier::loop_isolation(false)]
fn push_print_instr(i: &Instruction, out: &mut String)
    ensures
        final(out)@ == old(out)@ + print_instr_v(*i),
    decreases *i, 2nat, 0nat,
{
    match i {
        Instruction::Constant(c) => push_print_constant(c, out),
        Instruction::Var(v) => out.append(v.name.as_str()),
        Instruction::VarAssign(va) => push_print_var_assign(va, out),
        Instruction::FieldAccess(fa) => {
            proof {
                let ii: Instruction = *i;
                assert(decreases_to!(ii => ii->FieldAccess_0));
                assert(decreases_to!(ii->FieldAccess_0 => ii->FieldAccess_0.instance));
            }
            push_print_instr(&fa.instance, out);
            push_char(out, '.');
            out.append(fa.field_name.as_str());
            proof {
                assert(out@ =~= old(out)@ + print_instr_v(*i));
            }
        },
        Instruction::FunctionCall(fc) => {
            out.append(fc.fn_name.as_str());
            push_char(out, '(');
            let ghost base = out@;
            let mut k: usize = 0;
            while k < fc.args.len()
                invariant
                    k <= fc.args@.len(),
                    out@ == base + print_comma_list_v(fc.args, k as int),
                decreases fc.args@.len() - k,
            {
                if k > 0 {
                    out.append(", ");
                }
                proof {
                    let ii: Instruction = *i;
                    assert(decreases_to!(ii => ii->FunctionCall_0));
                    assert(decreases_to!(ii->FunctionCall_0 => ii->FunctionCall_0.args));
                    assert(decreases_to!(ii->FunctionCall_0.args => ii->FunctionCall_0.args@[
                    k as int]));
                }
                push_print_instr(&fc.args[k], out);
                proof {
                    assert(out@ =~= base + print_comma_list_v(fc.args, k as int + 1));
                }
                k = k + 1;
            }
            push_char(out, ')');
            proof {
                assert(out@ =~= old(out)@ + print_instr_v(*i));
            }
        },
        Instruction::TypeInstantiation(ti) => {
            out.append(ti.ty_name.id());
            push_char(out, '(');
            let ghost base = out@;
            let mut k: usize = 0;
            while k < ti.fields.len()
                invariant
                    k <= ti.fields@.len(),
                    out@ == base + print_assign_list_v(ti.fields, k as int),
                decreases ti.fields@.len() - k,
            {
                if k > 0 {
                    out.append(", ");
                }
                proof {
                    let ii: Instruction = *i;
                    assert(decreases_to!(ii => ii->TypeInstantiation_0));
                    assert(decreases_to!(ii->TypeInstantiation_0 => ii->TypeInstantiation_0.fields));
                    assert(decreases_to!(ii->TypeInstantiation_0.fields =>
                        ii->TypeInstantiation_0.fields@[k as int]));
                }
                push_print_var_assign(&ti.fields[k], out);
                proof {
                    assert(out@ =~= base + print_assign_list_v(ti.fields, k as int + 1));
                }
                k = k + 1;
            }
            push_char(out, ')');
            proof {
                assert(out@ =~= old(out)@ + print_instr_v(*i));
            }
        },
        Instruction::Incl(inc) => {
            out.append("incl ");
            out.append(inc.path.as_str());
            match &inc.alias {
                Some(a) => {
                    out.append(" as ");
                    out.append(a.as_str());
                },
                None => {},
            }
            proof {
                assert(out@ =~= old(out)@ + print_instr_v(*i));
            }
        },
        Instruction::JkInst(inst) => {
            match inst.kind {
                JkInstKind::Dump => out.append("@dump"),
                JkInstKind::Quit => out.append("@quit"),
                JkInstKind::Ir => out.append("@ir"),
                JkInstKind::Error => out.append("@error"),
            }
        },
        Instruction::Return(r) => {
            match &r.value {
                Some(e) => {
                    out.append("return ");
                    proof {
                        let ii: Instruction = *i;
                        assert(decreases_to!(ii => ii->Return_0));
                        assert(decreases_to!(ii->Return_0 => ii->Return_0.value));
                        assert(decreases_to!(ii->Return_0.value => ii->Return_0.value->0));
                    }
                    push_print_instr(e, out);
                },
                None => out.append("return"),
            }
        },
        Instruction::Block(b) => {
            proof {
                let ii: Instruction = *i;
                assert(decreases_to!(ii => ii->Block_0));
            }
            push_print_block(b, out);
        },
        Instruction::VarOrEmptyType(v) => out.append(v.symbol.as_str()),
        Instruction::TypeDec(td) => {
            out.append("type ");
            out.append(td.name());
            push_char(out, '(');
            push_print_dec_args(td.fields(), Ghost(td@.fields), out);
            push_char(out, ')');
            proof {
                assert(out@ =~= old(out)@ + print_instr_v(*i));
            }
        },
        Instruction::FunctionDec(fd) => {
            proof {
                let ii: Instruction = *i;
                assert(decreases_to!(ii => ii->FunctionDec_0));
            }
            push_print_function_dec(&**fd, out);
        },
    }
}

/// Append the rendering of an assignment to `out`.
fn push_print_var_assign(va: &VarAssign, out: &mut String)
    ensures
        final(out)@ == old(out)@ + print_var_assign_v(*va),
    decreases *va, 1nat, 0nat,
{
    if va.mutable {
        out.append("mut ");
    }
    out.append(va.symbol.as_str());
    out.append(" = ");
    proof {
        let vv: VarAssign = *va;
        assert(decreases_to!(vv => vv.value));
    }
    push_print_instr(&va.value, out);
    proof {
        assert(out@ =~= old(out)@ + print_var_assign_v(*va));
    }
}

/// Append the rendering of a block to `out`.
#[verifier::loop_isolation(false)]
fn push_print_block(b: &Block, out: &mut String)
    ensures
        final(out)@ == old(out)@ + print_block_v(*b),
    decreases *b, 1nat, 0nat,
{
    push_char(out, '{');
    let ghost base = out@;
    let mut k: usize = 0;
    while k < b.instructions.len()
        invariant
            k <= b.instructions@.len(),
            out@ == base + print_semi_list_v(b.instructions, k as int),
        decreases b.instructions@.len() - k,
    {
        push_char(out, ' ');
        proof {
            let bb: Block = *b;
            assert(decreases_to!(bb => bb.instructions));
            assert(decreases_to!(bb.instructions => bb.instructions@[k as int]));
        }
        push_print_instr(&b.instructions[k], out);
        push_char(out, ';');
        proof {
            assert(out@ =~= base + print_semi_list_v(b.instructions, k as int + 1));
        }
        k = k + 1;
    }
    match &b.last {
        Some(e) => {
            push_char(out, ' ');
            proof {
                let bb: Block = *b;
                assert(decreases_to!(bb => bb.last));
                assert(decreases_to!(bb.last => bb.last->0));
            }
            push_print_instr(e, out);
        },
        None => {},
    }
    push_char(out, ' ');
    push_char(out, '}');
    proof {
        assert(out@ =~= old(out)@ + print_block_v(*b));
    }
}

/// Append the rendering of a function declaration to `out`.
fn push_print_function_dec(fd: &FunctionDec, out: &mut String)
    ensures
        final(out)@ == old(out)@ + print_function_dec_v(*fd),
    decreases *fd, 1nat, 0nat,
{
    out.append("func ");
    out.append(fd.name.as_str());
    push_char(out, '(');
    push_print_dec_args(&fd.args, Ghost(fd.args@.map_values(|d: DecArg| d@)), out);
    push_char(out, ')');
    match &fd.ty {
        Some(t) => {
            out.append(" -> ");
            out.append(t.id());
        },
        None => {},
    }
    push_char(out, ' ');
    proof {
        let ff: FunctionDec = *fd;
        assert(decreases_to!(ff => ff.block));
    }
    push_print_block(&fd.block, out);
    proof {
        assert(out@ =~= old(out)@ + print_function_dec_v(*fd));
    }
}

/// Append the comma-separated rendering of declaration arguments to `out`.
#[verifier::loop_isolation(false)]
fn push_print_dec_args(args: &Vec<DecArg>, items: Ghost<Seq<crate::types::DecArgV>>, out: &mut String)
    requires
        items@ == args@.map_values(|d: DecArg| d@),
    ensures
        final(out)@ == old(out)@ + print_dec_args_v(items@, items@.len() as int),
{
    let ghost base = out@;
    let mut k: usize = 0;
    while k < args.len()
        invariant
            k <= args@.len(),
            out@ == base + print_dec_args_v(items@, k as int),
        decreases args@.len() - k,
    {
        if k > 0 {
            out.append(", ");
        }
        out.append(args[k].name());
        out.append(": ");
        out.append(args[k].get_type().id());
        proof {
            assert(items@[k as int] == args@[k as int]@);
            assert(out@ =~= base + print_dec_args_v(items@, k as int + 1));
        }
        k = k + 1;
    }
}

} // verus!

