//! Grammar productions: they turn source text into instruction trees. The
//! parser is a front end for the evaluator; each production consumes a
//! prefix of its input and hands back the rest of the input with the parsed
//! construct.

use vstd::prelude::*;
use std::rc::Rc;
use crate::context::{Context, CtxV};
use crate::error::{ErrKind, Error};
use crate::instruction::{
    Block, Constant, FieldAccess, FunctionCall, FunctionDec, Incl, InstrKind, Instruction, JkInst,
    TypeInstantiation, VarAssign, VarOrEmptyType,
};
use crate::parser::{bool_lit_v, char_constant_v, int_constant_v, string_constant_v, Token};
use crate::types::{DecArg, TypeDec, TypeId};

verus! {

broadcast use vstd::std_specs::vec::group_vec_axioms;

/// Whether `rest` is what remains of `s` after some prefix was consumed.
pub open spec fn is_suffix_of(rest: Seq<char>, s: Seq<char>) -> bool {
    exists|k: int| 0 <= k <= s.len() && rest == s.skip(k)
}

/// Suffixes compose.
proof fn lemma_suffix_trans(a: Seq<char>, b: Seq<char>, c: Seq<char>)
    requires
        is_suffix_of(b, a),
        is_suffix_of(c, b),
    ensures
        is_suffix_of(c, a),
{
    let k1 = choose|k: int| 0 <= k <= a.len() && b == a.skip(k);
    let k2 = choose|k: int| 0 <= k <= b.len() && c == b.skip(k);
    assert(a.skip(k1).skip(k2) =~= a.skip(k1 + k2));
    assert(c == a.skip(k1 + k2));
}

/// Everything is a suffix of itself.
proof fn lemma_suffix_refl(a: Seq<char>)
    ensures
        is_suffix_of(a, a),
{
    assert(a.skip(0) =~= a);
}

/// The length of the leading run of instruction separators: spaces, tabs,
/// newlines, carriage returns, and semicolons.
pub open spec fn sep_len(s: Seq<char>) -> nat
    decreases s.len(),
{
    if s.len() > 0 && (s[0] == ' ' || s[0] == '\t' || s[0] == '\n' || s[0] == '\r' || s[0] == ';') {
        1 + sep_len(s.drop_first())
    } else {
        0
    }
}

/// The input with its leading instruction separators dropped.
pub open spec fn skip_sep_v(s: Seq<char>) -> Seq<char> {
    s.skip(sep_len(s) as int)
}

/// The input with its leading spaces and tabs dropped.
pub open spec fn skip_ws_v(s: Seq<char>) -> Seq<char> {
    s.skip(crate::parser::ws_len(s) as int)
}

/// Whether the input starts with the given word, on a word boundary.
pub open spec fn word_at_v(s: Seq<char>, w: Seq<char>) -> bool {
    &&& s.len() >= w.len()
    &&& s.take(w.len() as int) == w
    &&& (s.len() == w.len() || !crate::text::is_id_char(s[w.len() as int]))
}

/// The length of the leading run of include-path characters: the identifier
/// alphabet extended with slashes and dots.
pub open spec fn path_len(s: Seq<char>) -> nat
    decreases s.len(),
{
    if s.len() > 0 && (crate::text::is_id_char(s[0]) || s[0] == '/' || s[0] == '.') {
        1 + path_len(s.drop_first())
    } else {
        0
    }
}

/// What remains of the input after a literal constant, when the constant is
/// the parse of the input's head.
pub open spec fn constant_rest(s: Seq<char>, c: Constant) -> Option<Seq<char>> {
    match c {
        Constant::Str(t) => match string_constant_v(s) {
            Some(p) => if p.0 == t@ {
                Some(p.1)
            } else {
                None
            },
            None => None,
        },
        Constant::Char(ch) => match char_constant_v(s) {
            Some(p) => if p.0 == ch {
                Some(p.1)
            } else {
                None
            },
            None => None,
        },
        Constant::Bool(b) => match bool_lit_v(s) {
            Some(p) => if p.0 == b {
                Some(p.1)
            } else {
                None
            },
            None => None,
        },
        Constant::Int(n) => match int_constant_v(s) {
            Some(p) => if p.0 == n {
                Some(p.1)
            } else {
                None
            },
            None => None,
        },
    }
}

/// The position right after declaration argument `k - 1`'s type name,
/// threading the first `k` arguments (`name: type`) and the commas between
/// them from `s`, the ws-skipped start of the list.
pub open spec fn decargs_prefix_rest(
    s: Seq<char>,
    fields: Seq<crate::types::DecArgV>,
    k: int,
) -> Option<Seq<char>>
    decreases k,
{
    if k <= 0 || k > fields.len() {
        Some(s)
    } else {
        match decargs_prefix_rest(s, fields, k - 1) {
            None => None,
            Some(r) => {
                let start = if k == 1 {
                    Some(r)
                } else {
                    match crate::parser::expect_char_v(skip_ws_v(r), ',') {
                        None => None,
                        Some(r3) => Some(skip_ws_v(r3)),
                    }
                };
                match start {
                    None => None,
                    Some(t) => match crate::parser::identifier_v(t) {
                        None => None,
                        Some(p) => if p.0 != fields[k - 1].name {
                            None
                        } else {
                            match crate::parser::expect_char_v(skip_ws_v(p.1), ':') {
                                None => None,
                                Some(r2) => match crate::parser::identifier_v(skip_ws_v(r2)) {
                                    None => None,
                                    Some(q) => if q.0 == fields[k - 1].ty {
                                        Some(q.1)
                                    } else {
                                        None
                                    },
                                },
                            }
                        },
                    },
                }
            },
        }
    }
}

/// What remains after a whole declaration argument list and its closing
/// parenthesis, starting right after the opening parenthesis.
pub open spec fn decargs_rest(after_paren: Seq<char>, fields: Seq<crate::types::DecArgV>) -> Option<
    Seq<char>,
> {
    match decargs_prefix_rest(skip_ws_v(after_paren), fields, fields.len() as int) {
        None => None,
        Some(r) => {
            if fields.len() == 0 {
                crate::parser::expect_char_v(r, ')')
            } else {
                crate::parser::expect_char_v(skip_ws_v(r), ')')
            }
        },
    }
}

/// The position right after argument `k - 1`'s expression, threading the
/// first `k` call arguments and the commas between them from `s`, the
/// ws-skipped start of the argument list.
pub open spec fn args_prefix_rest(s: Seq<char>, args: Seq<Instruction>, k: int) -> Option<
    Seq<char>,
>
    decreases args, 0nat, k,
{
    if k <= 0 || k > args.len() {
        Some(s)
    } else {
        match args_prefix_rest(s, args, k - 1) {
            None => None,
            Some(r) => {
                let start = if k == 1 {
                    Some(r)
                } else {
                    match crate::parser::expect_char_v(skip_ws_v(r), ',') {
                        None => None,
                        Some(r3) => Some(skip_ws_v(r3)),
                    }
                };
                match start {
                    None => None,
                    Some(t) => instr_rest(t, args[k - 1]),
                }
            },
        }
    }
}

/// What remains after a whole call argument list and its closing
/// parenthesis, starting right after the opening parenthesis.
pub open spec fn args_close_rest(after_paren: Seq<char>, args: Seq<Instruction>) -> Option<
    Seq<char>,
>
    decreases args, 1nat, 0nat,
{
    match args_prefix_rest(skip_ws_v(after_paren), args, args.len() as int) {
        None => None,
        Some(r) => {
            if args.len() == 0 {
                crate::parser::expect_char_v(r, ')')
            } else {
                crate::parser::expect_char_v(skip_ws_v(r), ')')
            }
        },
    }
}

/// What remains after a call's argument part in its call-statement shape:
/// a parenthesized list when a parenthesis follows directly, and nothing
/// otherwise (then the call has no arguments).
pub open spec fn call_args_tail(r0: Seq<char>, args: Vec<Instruction>) -> Option<Seq<char>>
    decreases args, 2nat, 0nat,
{
    if r0.len() > 0 && r0[0] == '(' {
        args_close_rest(r0.drop_first(), args@)
    } else if args@.len() == 0 {
        Some(r0)
    } else {
        None
    }
}

/// What remains of the input after a call-shaped construct (a name with an
/// optional parenthesized argument list), when the construct is the parse
/// of the input's head.
pub open spec fn call_rest(s: Seq<char>, fc: FunctionCall) -> Option<Seq<char>> {
    match crate::parser::identifier_v(s) {
        None => None,
        Some(p) => if p.0 != fc.fn_name@ {
            None
        } else {
            call_args_tail(p.1, fc.args)
        },
    }
}

/// The position right after field assignment `k - 1`'s expression,
/// threading the first `k` field assignments of a type instantiation and
/// the commas between them from `s`, the ws-skipped start of the list.
pub open spec fn fields_prefix_rest(s: Seq<char>, fields: Seq<VarAssign>, k: int) -> Option<
    Seq<char>,
>
    decreases fields, 0nat, k,
{
    if k <= 0 || k > fields.len() {
        Some(s)
    } else {
        match fields_prefix_rest(s, fields, k - 1) {
            None => None,
            Some(r) => {
                let start = if k == 1 {
                    Some(r)
                } else {
                    match crate::parser::expect_char_v(skip_ws_v(r), ',') {
                        None => None,
                        Some(r3) => Some(skip_ws_v(r3)),
                    }
                };
                match start {
                    None => None,
                    Some(t) => match crate::parser::identifier_v(t) {
                        None => None,
                        Some(p) => if p.0 != fields[k - 1].symbol@ || fields[k - 1].mutable {
                            None
                        } else {
                            match crate::parser::expect_char_v(skip_ws_v(p.1), '=') {
                                None => None,
                                Some(r2) => instr_rest(skip_ws_v(r2), *fields[k - 1].value),
                            }
                        },
                    },
                }
            },
        }
    }
}

/// What remains after a whole field assignment list and its closing curly
/// bracket, starting right after the opening bracket.
pub open spec fn fields_close_rest(after_bracket: Seq<char>, fields: Seq<VarAssign>) -> Option<
    Seq<char>,
>
    decreases fields, 1nat, 0nat,
{
    match fields_prefix_rest(skip_ws_v(after_bracket), fields, fields.len() as int) {
        None => None,
        Some(r) => {
            if fields.len() == 0 {
                crate::parser::expect_char_v(r, '}')
            } else {
                crate::parser::expect_char_v(skip_ws_v(r), '}')
            }
        },
    }
}

/// The position right after instruction `k - 1`, threading the first `k`
/// instructions of a list from `s`, each preceded by separators.
pub open spec fn instrs_prefix_rest(s: Seq<char>, items: Seq<Instruction>, k: int) -> Option<
    Seq<char>,
>
    decreases items, 0nat, k,
{
    if k <= 0 || k > items.len() {
        Some(s)
    } else {
        match instrs_prefix_rest(s, items, k - 1) {
            None => None,
            Some(r) => instr_rest(skip_sep_v(r), items[k - 1]),
        }
    }
}

/// What remains of the input after a block: the opening curly bracket, the
/// block's instructions each preceded by separators, the optional trailing
/// expression, separators, and the closing curly bracket. The trailing
/// expression is present exactly when the block's final construct is an
/// expression.
pub open spec fn block_rest(s: Seq<char>, b: Block) -> Option<Seq<char>>
    decreases b, 2nat, 0nat,
{
    if s.len() == 0 || s[0] != '{' {
        None
    } else {
        match instrs_prefix_rest(s.drop_first(), b.instructions@, b.instructions@.len() as int) {
            None => None,
            Some(r) => {
                let tail = match b.last {
                    Some(e) => if crate::instruction::is_statement_v(*e) {
                        None
                    } else {
                        instr_rest(skip_sep_v(r), *e)
                    },
                    None => if b.instructions@.len() == 0 || crate::instruction::is_statement_v(
                        b.instructions@.last(),
                    ) {
                        Some(r)
                    } else {
                        None
                    },
                };
                match tail {
                    None => None,
                    Some(r2) => crate::parser::expect_char_v(skip_sep_v(r2), '}'),
                }
            },
        }
    }
}

/// What remains of the input after one instruction, when the given tree is
/// the parse of the input's head: the grammar, stated declaratively. A
/// production that the grammar never yields on its own (a bare variable
/// node, a standalone block) matches no input.
pub open spec fn instr_rest(s: Seq<char>, i: Instruction) -> Option<Seq<char>>
    decreases i, 3nat, 0nat,
{
    match i {
        Instruction::Constant(c) => constant_rest(s, c),
        Instruction::Var(_) => None,
        Instruction::Block(_) => None,
        Instruction::VarOrEmptyType(v) => match crate::parser::identifier_v(s) {
            Some(p) => if p.0 == v.symbol@ {
                Some(p.1)
            } else {
                None
            },
            None => None,
        },
        Instruction::FieldAccess(fa) => match instr_rest(s, *fa.instance) {
            None => None,
            Some(r) => if r.len() > 0 && r[0] == '.' {
                match crate::parser::identifier_v(r.drop_first()) {
                    Some(p) => if p.0 == fa.field_name@ {
                        Some(p.1)
                    } else {
                        None
                    },
                    None => None,
                }
            } else {
                None
            },
        },
        Instruction::FunctionCall(fc) => match crate::parser::identifier_v(s) {
            None => None,
            Some(p) => if p.0 != fc.fn_name@ {
                None
            } else {
                let r1 = skip_ws_v(p.1);
                if r1.len() > 0 && r1[0] == '(' {
                    args_close_rest(r1.drop_first(), fc.args@)
                } else {
                    None
                }
            },
        },
        Instruction::TypeInstantiation(ti) => match crate::parser::identifier_v(s) {
            None => None,
            Some(p) => if p.0 != ti.ty_name@ {
                None
            } else {
                let r1 = skip_ws_v(p.1);
                if r1.len() > 0 && r1[0] == '{' {
                    fields_close_rest(r1.drop_first(), ti.fields@)
                } else {
                    None
                }
            },
        },
        Instruction::VarAssign(va) => {
            let s1 = if va.mutable {
                if word_at_v(s, "mut"@) {
                    Some(skip_ws_v(s.skip(3)))
                } else {
                    None
                }
            } else {
                Some(s)
            };
            match s1 {
                None => None,
                Some(t) => match crate::parser::identifier_v(t) {
                    None => None,
                    Some(p) => if p.0 != va.symbol@ {
                        None
                    } else {
                        match crate::parser::expect_char_v(skip_ws_v(p.1), '=') {
                            None => None,
                            Some(r2) => instr_rest(skip_ws_v(r2), *va.value),
                        }
                    },
                },
            }
        },
        Instruction::JkInst(inst) => {
            if s.len() > 0 && s[0] == '@' {
                match crate::parser::identifier_v(s.drop_first()) {
                    None => None,
                    Some(p) => if crate::instruction::jk_directive_of(p.0) == Some(inst.kind) {
                        call_args_tail(p.1, inst.args)
                    } else {
                        None
                    },
                }
            } else {
                None
            }
        },
        Instruction::Return(rt) => {
            if !word_at_v(s, "return"@) {
                None
            } else {
                let a = s.skip(6);
                let has_ws = a.len() > 0 && (a[0] == ' ' || a[0] == '\t');
                match rt.value {
                    Some(e) => {
                        if has_ws {
                            let t = skip_ws_v(a);
                            if t.len() > 0 && t[0] != '}' && t[0] != ';' && t[0] != '\n' && t[0]
                                != '\r' {
                                instr_rest(t, *e)
                            } else {
                                None
                            }
                        } else {
                            None
                        }
                    },
                    None => {
                        if !has_ws {
                            Some(a)
                        } else {
                            let t = skip_ws_v(a);
                            if t.len() == 0 || t[0] == '}' || t[0] == ';' || t[0] == '\n' || t[0]
                                == '\r' {
                                Some(t)
                            } else {
                                None
                            }
                        }
                    },
                }
            }
        },
        Instruction::Incl(inc) => {
            if !word_at_v(s, "incl"@) {
                None
            } else {
                let s1 = skip_ws_v(s.skip(4));
                let n = path_len(s1);
                if n == 0 || s1.take(n as int) != inc.path@ {
                    None
                } else {
                    let r = s1.skip(n as int);
                    match inc.alias {
                        None => Some(r),
                        Some(a) => {
                            let rw = skip_ws_v(r);
                            if !word_at_v(rw, "as"@) {
                                None
                            } else {
                                match crate::parser::identifier_v(skip_ws_v(rw.skip(2))) {
                                    Some(p) => if p.0 == a@ {
                                        Some(p.1)
                                    } else {
                                        None
                                    },
                                    None => None,
                                }
                            }
                        },
                    }
                }
            }
        },
        Instruction::TypeDec(td) => {
            if !word_at_v(s, "type"@) {
                None
            } else {
                match crate::parser::identifier_v(skip_ws_v(s.skip(4))) {
                    None => None,
                    Some(p) => if p.0 != td@.name {
                        None
                    } else {
                        let r1 = skip_ws_v(p.1);
                        if r1.len() > 0 && r1[0] == '(' {
                            decargs_rest(r1.drop_first(), td@.fields)
                        } else {
                            None
                        }
                    },
                }
            }
        },
        Instruction::FunctionDec(fd) => {
            if !word_at_v(s, "func"@) {
                None
            } else {
                match crate::parser::identifier_v(skip_ws_v(s.skip(4))) {
                    None => None,
                    Some(p) => if p.0 != fd.name@ {
                        None
                    } else {
                        let r1 = skip_ws_v(p.1);
                        if r1.len() > 0 && r1[0] == '(' {
                            match decargs_rest(
                                r1.drop_first(),
                                fd.args@.map_values(|d: DecArg| d@),
                            ) {
                                None => None,
                                Some(r2) => {
                                    let r3 = skip_ws_v(r2);
                                    let arrowed = r3.len() >= 2 && r3[0] == '-' && r3[1] == '>';
                                    let before_block = match fd.ty {
                                        Some(t) => if !arrowed {
                                            None
                                        } else {
                                            match crate::parser::identifier_v(
                                                skip_ws_v(r3.skip(2)),
                                            ) {
                                                Some(q) => if q.0 == t@ {
                                                    Some(skip_ws_v(q.1))
                                                } else {
                                                    None
                                                },
                                                None => None,
                                            }
                                        },
                                        None => if arrowed {
                                            None
                                        } else {
                                            Some(r3)
                                        },
                                    };
                                    match before_block {
                                        None => None,
                                        Some(t) => block_rest(t, fd.block),
                                    }
                                },
                            }
                        } else {
                            None
                        }
                    },
                }
            }
        },
    }
}

/// Whether a whole program text parses exactly as the given top-level
/// instruction sequence with the given trailing expression: the
/// instructions thread through the text, each preceded by separators; the
/// trailing expression is present exactly when the final construct is an
/// expression; and nothing but separators remains.
pub open spec fn program_parses(
    s: Seq<char>,
    instrs: Seq<Instruction>,
    last: Option<Instruction>,
) -> bool {
    match instrs_prefix_rest(s, instrs, instrs.len() as int) {
        None => false,
        Some(r) => match last {
            Some(e) => {
                &&& !crate::instruction::is_statement_v(e)
                &&& match instr_rest(skip_sep_v(r), e) {
                    Some(r2) => skip_sep_v(r2).len() == 0,
                    None => false,
                }
            },
            None => {
                &&& (instrs.len() == 0 || crate::instruction::is_statement_v(instrs.last()))
                &&& skip_sep_v(r).len() == 0
            },
        },
    }
}

/// Threading the first `k` call arguments only looks at those arguments.
proof fn lemma_args_prefix_agree(s: Seq<char>, v1: Seq<Instruction>, v2: Seq<Instruction>, k: int)
    requires
        0 <= k <= v1.len(),
        k <= v2.len(),
        forall|j: int| 0 <= j < k ==> v1[j] == v2[j],
    ensures
        args_prefix_rest(s, v1, k) == args_prefix_rest(s, v2, k),
    decreases k,
{
    if k > 0 {
        lemma_args_prefix_agree(s, v1, v2, k - 1);
    }
}

/// Threading the first `k` field assignments only looks at those fields.
proof fn lemma_fields_prefix_agree(s: Seq<char>, v1: Seq<VarAssign>, v2: Seq<VarAssign>, k: int)
    requires
        0 <= k <= v1.len(),
        k <= v2.len(),
        forall|j: int| 0 <= j < k ==> v1[j] == v2[j],
    ensures
        fields_prefix_rest(s, v1, k) == fields_prefix_rest(s, v2, k),
    decreases k,
{
    if k > 0 {
        lemma_fields_prefix_agree(s, v1, v2, k - 1);
    }
}

/// Threading the first `k` declaration arguments only looks at those
/// arguments.
proof fn lemma_decargs_prefix_agree(
    s: Seq<char>,
    v1: Seq<crate::types::DecArgV>,
    v2: Seq<crate::types::DecArgV>,
    k: int,
)
    requires
        0 <= k <= v1.len(),
        k <= v2.len(),
        forall|j: int| 0 <= j < k ==> v1[j] == v2[j],
    ensures
        decargs_prefix_rest(s, v1, k) == decargs_prefix_rest(s, v2, k),
    decreases k,
{
    if k > 0 {
        lemma_decargs_prefix_agree(s, v1, v2, k - 1);
    }
}

/// Threading the first `k` instructions of a list only looks at those
/// instructions.
proof fn lemma_instrs_prefix_agree(
    s: Seq<char>,
    v1: Seq<Instruction>,
    v2: Seq<Instruction>,
    k: int,
)
    requires
        0 <= k <= v1.len(),
        k <= v2.len(),
        forall|j: int| 0 <= j < k ==> v1[j] == v2[j],
    ensures
        instrs_prefix_rest(s, v1, k) == instrs_prefix_rest(s, v2, k),
    decreases k,
{
    if k > 0 {
        lemma_instrs_prefix_agree(s, v1, v2, k - 1);
    }
}


/// A fuel bound comfortably above any nesting depth an input of this length
/// can hold, as the executable front end computes it.
pub open spec fn fuel_for_v(len: nat) -> nat {
    if len <= 0xffffffffffff0000 {
        len + 16
    } else {
        0xffffffffffffffff
    }
}

/// Whether a literal constant is recognized at the head of the input, and
/// what remains after it.
pub open spec fn rec_constant(s: Seq<char>) -> Option<Seq<char>> {
    if s.len() == 0 {
        None
    } else if s[0] == '"' {
        match string_constant_v(s) {
            Some(p) => Some(p.1),
            None => None,
        }
    } else if s[0] == '\'' {
        match char_constant_v(s) {
            Some(p) => Some(p.1),
            None => None,
        }
    } else if word_at_v(s, "true"@) {
        Some(s.skip(4))
    } else if word_at_v(s, "false"@) {
        Some(s.skip(5))
    } else {
        match int_constant_v(s) {
            Some(p) => Some(p.1),
            None => None,
        }
    }
}

/// Whether a chain of field accesses is recognized behind a primary
/// expression, and what remains after it.
pub open spec fn rec_postfix(cur: Seq<char>) -> Option<Seq<char>>
    decreases cur.len(),
    via rec_postfix_decreases
{
    if cur.len() == 0 || cur[0] != '.' {
        Some(cur)
    } else {
        match crate::parser::identifier_v(cur.drop_first()) {
            None => None,
            Some(p) => rec_postfix(p.1),
        }
    }
}

#[via_fn]
proof fn rec_postfix_decreases(cur: Seq<char>) {
    if !(cur.len() == 0 || cur[0] != '.') {
        match crate::parser::identifier_v(cur.drop_first()) {
            None => {},
            Some(p) => {
                crate::parser::lemma_id_len_le(cur.drop_first());
            },
        }
    }
}

/// Whether an expression is recognized at the head of the input, and what
/// remains after it.
pub open spec fn rec_expr(s: Seq<char>, fuel: nat) -> Option<Seq<char>>
    decreases fuel, 2nat,
{
    if fuel == 0 {
        None
    } else {
        match rec_primary(s, (fuel - 1) as nat) {
            None => None,
            Some(r) => rec_postfix(r),
        }
    }
}

/// Whether a primary expression is recognized at the head of the input, and
/// what remains after it.
pub open spec fn rec_primary(s: Seq<char>, fuel: nat) -> Option<Seq<char>>
    decreases fuel, 1nat,
{
    if fuel == 0 {
        None
    } else if s.len() == 0 {
        None
    } else if s[0] == '"' || s[0] == '\'' || s[0] == '-' || crate::text::is_digit_char(s[0])
        || word_at_v(s, "true"@) || word_at_v(s, "false"@) {
        rec_constant(s)
    } else {
        match crate::parser::identifier_v(s) {
            None => None,
            Some(p) => {
                let r2 = skip_ws_v(p.1);
                if r2.len() > 0 && r2[0] == '(' {
                    rec_args(r2.drop_first(), (fuel - 1) as nat)
                } else if r2.len() > 0 && r2[0] == '{' {
                    rec_fields(r2.drop_first(), (fuel - 1) as nat)
                } else {
                    Some(p.1)
                }
            },
        }
    }
}

/// Whether a call argument list with its closing parenthesis is recognized,
/// starting right after the opening parenthesis.
pub open spec fn rec_args(after: Seq<char>, fuel: nat) -> Option<Seq<char>>
    decreases fuel, 1nat,
{
    let cur = skip_ws_v(after);
    if fuel == 0 {
        None
    } else if cur.len() > 0 && cur[0] == ')' {
        Some(cur.drop_first())
    } else {
        rec_args_loop(cur, fuel)
    }
}

/// One or more comma-separated expressions and the closing parenthesis.
pub open spec fn rec_args_loop(cur: Seq<char>, fuel_left: nat) -> Option<Seq<char>>
    decreases fuel_left, 0nat,
{
    if fuel_left == 0 {
        None
    } else {
        match rec_expr(cur, (fuel_left - 1) as nat) {
            None => None,
            Some(r) => {
                let r2 = skip_ws_v(r);
                if r2.len() > 0 && r2[0] == ',' {
                    rec_args_loop(skip_ws_v(r2.drop_first()), (fuel_left - 1) as nat)
                } else if r2.len() > 0 && r2[0] == ')' {
                    Some(r2.drop_first())
                } else {
                    None
                }
            },
        }
    }
}

/// Whether a field assignment list with its closing curly bracket is
/// recognized, starting right after the opening bracket.
pub open spec fn rec_fields(after: Seq<char>, fuel: nat) -> Option<Seq<char>>
    decreases fuel, 1nat,
{
    let cur = skip_ws_v(after);
    if fuel == 0 {
        None
    } else if cur.len() > 0 && cur[0] == '}' {
        Some(cur.drop_first())
    } else {
        rec_fields_loop(cur, fuel)
    }
}

/// One or more comma-separated field assignments and the closing bracket.
pub open spec fn rec_fields_loop(cur: Seq<char>, fuel_left: nat) -> Option<Seq<char>>
    decreases fuel_left, 0nat,
{
    if fuel_left == 0 {
        None
    } else {
        match crate::parser::identifier_v(cur) {
            None => None,
            Some(p) => {
                match crate::parser::expect_char_v(skip_ws_v(p.1), '=') {
                    None => None,
                    Some(r2) => match rec_expr(skip_ws_v(r2), (fuel_left - 1) as nat) {
                        None => None,
                        Some(r3) => {
                            let r4 = skip_ws_v(r3);
                            if r4.len() > 0 && r4[0] == ',' {
                                rec_fields_loop(skip_ws_v(r4.drop_first()), (fuel_left - 1) as nat)
                            } else if r4.len() > 0 && r4[0] == '}' {
                                Some(r4.drop_first())
                            } else {
                                None
                            }
                        },
                    },
                }
            },
        }
    }
}

/// Whether a declaration argument list with its closing parenthesis is
/// recognized, starting right after the opening parenthesis.
pub open spec fn rec_decargs(after: Seq<char>, fuel: nat) -> Option<Seq<char>>
    decreases fuel, 1nat,
{
    let cur = skip_ws_v(after);
    if fuel == 0 {
        None
    } else if cur.len() > 0 && cur[0] == ')' {
        Some(cur.drop_first())
    } else {
        rec_decargs_loop(cur, fuel)
    }
}

/// One or more comma-separated `name: type` arguments and the closing
/// parenthesis.
pub open spec fn rec_decargs_loop(cur: Seq<char>, fuel_left: nat) -> Option<Seq<char>>
    decreases fuel_left, 0nat,
{
    if fuel_left == 0 {
        None
    } else {
        match crate::parser::identifier_v(cur) {
            None => None,
            Some(p) => {
                let rw = skip_ws_v(p.1);
                if !(rw.len() > 0 && rw[0] == ':') {
                    None
                } else {
                    match crate::parser::identifier_v(skip_ws_v(rw.drop_first())) {
                        None => None,
                        Some(q) => {
                            let r3 = skip_ws_v(q.1);
                            if r3.len() > 0 && r3[0] == ',' {
                                rec_decargs_loop(
                                    skip_ws_v(r3.drop_first()),
                                    (fuel_left - 1) as nat,
                                )
                            } else if r3.len() > 0 && r3[0] == ')' {
                                Some(r3.drop_first())
                            } else {
                                None
                            }
                        },
                    }
                }
            },
        }
    }
}

/// Whether a call-shaped construct (a name with an optional parenthesized
/// argument list) is recognized at the head of the input.
pub open spec fn rec_call_like(s: Seq<char>, fuel: nat) -> Option<Seq<char>>
    decreases fuel, 2nat,
{
    match crate::parser::identifier_v(s) {
        None => None,
        Some(p) => {
            if p.1.len() > 0 && p.1[0] == '(' {
                if fuel == 0 {
                    None
                } else {
                    rec_args(p.1.drop_first(), (fuel - 1) as nat)
                }
            } else {
                Some(p.1)
            }
        },
    }
}

/// Whether a block is recognized at the head of the input.
pub open spec fn rec_block(s: Seq<char>, fuel: nat) -> Option<Seq<char>>
    decreases fuel, 2nat,
{
    if fuel == 0 {
        None
    } else if s.len() == 0 || s[0] != '{' {
        None
    } else {
        rec_block_loop(s.drop_first(), fuel)
    }
}

/// The instructions of a block, each preceded by separators, and the
/// closing curly bracket.
pub open spec fn rec_block_loop(cur: Seq<char>, fuel_left: nat) -> Option<Seq<char>>
    decreases fuel_left, 1nat,
{
    if fuel_left == 0 {
        None
    } else {
        let t = skip_sep_v(cur);
        if t.len() == 0 {
            None
        } else if t[0] == '}' {
            Some(t.drop_first())
        } else {
            match rec_instruction(t, (fuel_left - 1) as nat) {
                None => None,
                Some(r) => rec_block_loop(r, (fuel_left - 1) as nat),
            }
        }
    }
}

/// Whether one instruction is recognized at the head of the input, and what
/// remains after it: the executable grammar's acceptance, stated as a
/// function of the input alone.
pub open spec fn rec_instruction(s: Seq<char>, fuel: nat) -> Option<Seq<char>>
    decreases fuel, 3nat,
{
    if fuel == 0 {
        None
    } else if s.len() == 0 {
        None
    } else if s[0] == '@' {
        match crate::parser::identifier_v(s.drop_first()) {
            None => None,
            Some(p) => if crate::instruction::jk_directive_of(p.0) is Some {
                rec_call_like(s.drop_first(), (fuel - 1) as nat)
            } else {
                None
            },
        }
    } else if word_at_v(s, "type"@) {
        match crate::parser::identifier_v(skip_ws_v(s.skip(4))) {
            None => None,
            Some(p) => {
                let rw = skip_ws_v(p.1);
                if rw.len() > 0 && rw[0] == '(' {
                    rec_decargs(rw.drop_first(), (fuel - 1) as nat)
                } else {
                    None
                }
            },
        }
    } else if word_at_v(s, "func"@) {
        match crate::parser::identifier_v(skip_ws_v(s.skip(4))) {
            None => None,
            Some(p) => {
                let rw = skip_ws_v(p.1);
                if rw.len() > 0 && rw[0] == '(' {
                    match rec_decargs(rw.drop_first(), (fuel - 1) as nat) {
                        None => None,
                        Some(r2) => {
                            let r3 = skip_ws_v(r2);
                            if r3.len() >= 2 && r3[0] == '-' && r3[1] == '>' {
                                match crate::parser::identifier_v(skip_ws_v(r3.skip(2))) {
                                    None => None,
                                    Some(q) => rec_block(skip_ws_v(q.1), (fuel - 1) as nat),
                                }
                            } else {
                                rec_block(r3, (fuel - 1) as nat)
                            }
                        },
                    }
                } else {
                    None
                }
            },
        }
    } else if word_at_v(s, "incl"@) {
        let s1 = skip_ws_v(s.skip(4));
        let n = path_len(s1);
        if n == 0 {
            None
        } else {
            let r = s1.skip(n as int);
            let rw = skip_ws_v(r);
            if word_at_v(rw, "as"@) {
                match crate::parser::identifier_v(skip_ws_v(rw.skip(2))) {
                    None => None,
                    Some(p) => Some(p.1),
                }
            } else {
                Some(r)
            }
        }
    } else if word_at_v(s, "return"@) {
        let a = s.skip(6);
        let has_ws = a.len() > 0 && (a[0] == ' ' || a[0] == '\t');
        if has_ws {
            let t = skip_ws_v(a);
            if t.len() > 0 && t[0] != '}' && t[0] != ';' && t[0] != '\n' && t[0] != '\r' {
                rec_expr(t, (fuel - 1) as nat)
            } else {
                Some(t)
            }
        } else {
            Some(a)
        }
    } else if word_at_v(s, "mut"@) {
        match crate::parser::identifier_v(skip_ws_v(s.skip(3))) {
            None => None,
            Some(p) => {
                let rw = skip_ws_v(p.1);
                if rw.len() > 0 && rw[0] == '=' {
                    rec_expr(skip_ws_v(rw.drop_first()), (fuel - 1) as nat)
                } else {
                    None
                }
            },
        }
    } else {
        match crate::parser::identifier_v(s) {
            None => rec_expr(s, (fuel - 1) as nat),
            Some(p) => {
                let rw = skip_ws_v(p.1);
                if rw.len() > 0 && rw[0] == '=' {
                    rec_expr(skip_ws_v(rw.drop_first()), (fuel - 1) as nat)
                } else {
                    rec_expr(s, (fuel - 1) as nat)
                }
            },
        }
    }
}

/// Whether a whole input is recognized as a sequence of instructions,
/// separated by whitespace, newlines or semicolons, until nothing is left.
pub open spec fn rec_many(cur: Seq<char>, fuel_left: nat) -> bool
    decreases fuel_left,
{
    if fuel_left == 0 {
        false
    } else {
        let t = skip_sep_v(cur);
        if t.len() == 0 {
            true
        } else {
            match rec_instruction(t, fuel_for_v(t.len())) {
                None => false,
                Some(r) => rec_many(r, (fuel_left - 1) as nat),
            }
        }
    }
}

/// A parse error with the given message.
fn parse_error(msg: &str) -> (e: Error)
    ensures
        e@.kind == ErrKind::Parsing,
        e@.msg == msg@,
{
    Error::new(ErrKind::Parsing).with_msg(msg.to_owned())
}

/// Consume leading instruction separators: spaces, tabs, newlines, carriage
/// returns, and semicolons.
#[verifier::loop_isolation(false)]
fn skip_separators<'a>(input: &'a str) -> (rest: &'a str)
    ensures
        is_suffix_of(rest@, input@),
        rest@ == skip_sep_v(input@),
{
    let len = input.unicode_len();
    let mut i: usize = 0;
    proof {
        assert(input@.skip(0) =~= input@);
    }
    while i < len
        invariant
            i <= len,
            sep_len(input@) == i + sep_len(input@.skip(i as int)),
        decreases len - i,
    {
        proof {
            assert(input@.skip(i as int)[0] == input@[i as int]);
            assert(input@.skip(i as int).drop_first() =~= input@.skip(i as int + 1));
        }
        let c = input.get_char(i);
        if !(c == ' ' || c == '\t' || c == '\n' || c == '\r' || c == ';') {
            let r = input.substring_char(i, len);
            proof {
                assert(r@ =~= input@.skip(i as int));
            }
            return r;
        }
        i = i + 1;
    }
    let r = input.substring_char(i, len);
    proof {
        assert(input@.skip(i as int).len() == 0);
        assert(r@ =~= input@.skip(i as int));
    }
    r
}

/// Consume leading spaces and tabs.
fn skip_ws<'a>(input: &'a str) -> (rest: &'a str)
    ensures
        is_suffix_of(rest@, input@),
        rest@ == input@.skip(crate::parser::ws_len(input@) as int),
{
    let n = crate::parser::scan_ws_len(input);
    let len = input.unicode_len();
    let r = input.substring_char(n, len);
    proof {
        assert(r@ =~= input@.skip(n as int));
    }
    r
}

/// Drop the first `n` characters, then any whitespace after them.
fn skip_n_ws<'a>(input: &'a str, n: usize) -> (rest: &'a str)
    requires
        n <= input@.len(),
    ensures
        is_suffix_of(rest@, input@),
        rest@ == skip_ws_v(input@.skip(n as int)),
{
    let len = input.unicode_len();
    let t = input.substring_char(n, len);
    proof {
        assert(t@ =~= input@.skip(n as int));
    }
    let r = skip_ws(t);
    proof {
        crate::parser::lemma_ws_len_le(t@);
        assert(r@ == input@.skip(n as int).skip(crate::parser::ws_len(t@) as int));
        assert(input@.skip(n as int).skip(crate::parser::ws_len(t@) as int) =~= input@.skip(
            n + crate::parser::ws_len(t@) as int,
        ));
    }
    r
}

/// A fuel bound comfortably above any nesting depth the input can hold.
fn fuel_for(len: usize) -> (f: u64)
    ensures
        f >= 16,
        f as nat == fuel_for_v(len as nat),
{
    if len as u64 <= 0xffffffffffff0000u64 {
        len as u64 + 16
    } else {
        0xffffffffffffffffu64
    }
}

/// Whether the input starts with the given word followed by something other
/// than an identifier character.
fn peek_word(input: &str, word: &str) -> (r: bool)
    ensures
        r == word_at_v(input@, word@),
{
    let wlen = word.unicode_len();
    let len = input.unicode_len();
    if len < wlen {
        return false;
    }
    let head = input.substring_char(0, wlen);
    proof {
        assert(head@ =~= input@.take(wlen as int));
    }
    if !crate::text::str_eq(head, word) {
        return false;
    }
    if len == wlen {
        return true;
    }
    !crate::text::is_id(input.get_char(wlen))
}

/// Parse a literal constant: a string, a character, a boolean, or an
/// integer.
fn parse_constant<'a>(input: &'a str) -> (r: Result<(&'a str, Constant), Error>)
    ensures
        match r {
            Ok((rest, c)) => is_suffix_of(rest@, input@) && match c {
                Constant::Str(t) => string_constant_v(input@) == Some((t@, rest@)),
                Constant::Char(ch) => char_constant_v(input@) == Some((ch, rest@)),
                Constant::Bool(b) => bool_lit_v(input@) == Some((b, rest@)),
                Constant::Int(n) => int_constant_v(input@) == Some((n, rest@)),
            },
            Err(_) => {
                &&& string_constant_v(input@) is None
                &&& char_constant_v(input@) is None
                &&& bool_lit_v(input@) is None
                &&& int_constant_v(input@) is None
            },
        },
        match r {
            Ok((rest, _)) => rec_constant(input@) == Some(rest@),
            Err(_) => rec_constant(input@) is None,
        },
{
    proof {
        reveal_strlit("true");
        reveal_strlit("false");
    }
    let len = input.unicode_len();
    if len == 0 {
        return Err(parse_error("expected a constant"));
    }
    let c0 = input.get_char(0);
    if c0 == '"' {
        let r = Token::string_constant(input);
        proof {
            if input@.len() >= 4 && input@.take(4) == "true"@ {
                assert(input@.take(4)[0] == input@[0]);
                assert(false);
            }
            if input@.len() >= 5 && input@.take(5) == "false"@ {
                assert(input@.take(5)[0] == input@[0]);
                assert(false);
            }
        }
        let (rest, s) = match r {
            Ok(p) => p,
            Err(e) => {
                return Err(e);
            },
        };
        proof {
            let k = input@.len() - rest@.len();
            assert(rest@ == input@.skip(
                crate::parser::non_quote_len(input@.drop_first()) as int + 2,
            ));
        }
        return Ok((rest, Constant::Str(s.to_owned())));
    }
    if c0 == '\'' {
        let r = Token::char_constant(input);
        proof {
            if input@.len() >= 4 && input@.take(4) == "true"@ {
                assert(input@.take(4)[0] == input@[0]);
                assert(false);
            }
            if input@.len() >= 5 && input@.take(5) == "false"@ {
                assert(input@.take(5)[0] == input@[0]);
                assert(false);
            }
        }
        let (rest, ch) = match r {
            Ok(p) => p,
            Err(e) => {
                return Err(e);
            },
        };
        proof {
            assert(rest@ == input@.skip(3));
        }
        return Ok((rest, Constant::Char(ch)));
    }
    if peek_word(input, "true") {
        let rest = input.substring_char(4, len);
        proof {
            assert(rest@ =~= input@.skip(4));
            crate::parser::lemma_bool_lit_true(input@);
        }
        return Ok((rest, Constant::Bool(true)));
    }
    if peek_word(input, "false") {
        let rest = input.substring_char(5, len);
        proof {
            assert(rest@ =~= input@.skip(5));
            crate::parser::lemma_bool_lit_false(input@);
        }
        return Ok((rest, Constant::Bool(false)));
    }
    let r = Token::int_constant(input);
    proof {
        if r is Err {
            assert(string_constant_v(input@) is None);
            assert(char_constant_v(input@) is None);
            assert(bool_lit_v(input@) is None);
        }
    }
    let (rest, n) = match r {
        Ok(p) => p,
        Err(e) => {
            return Err(e);
        },
    };
    proof {
        let neg = input@.len() > 0 && input@[0] == '-';
        let s1 = if neg {
            input@.drop_first()
        } else {
            input@
        };
        let d = crate::parser::digits_len(s1);
        crate::parser::lemma_digits_len_le(s1);
        assert(rest@ == s1.skip(d as int));
        if neg {
            assert(s1.skip(d as int) =~= input@.skip(d as int + 1));
        }
    }
    Ok((rest, Constant::Int(n)))
}

/// Parse a comma-separated list of expressions up to a closing parenthesis.
#[verifier::loop_isolation(false)]
fn parse_args<'a>(input: &'a str, fuel: u64) -> (r: Result<(&'a str, Vec<Instruction>), Error>)
    ensures
        r is Ok ==> is_suffix_of(r->Ok_0.0@, input@),
        r is Ok ==> args_close_rest(input@, r->Ok_0.1@) == Some(r->Ok_0.0@),
        match r {
            Ok((rest, _)) => rec_args(input@, fuel as nat) == Some(rest@),
            Err(_) => rec_args(input@, fuel as nat) is None,
        },
    decreases fuel,
{
    let ghost s0 = skip_ws_v(input@);
    let ghost target = rec_args(input@, fuel as nat);
    let mut args: Vec<Instruction> = Vec::new();
    let mut cur: &str = skip_ws(input);
    if fuel == 0 {
        return Err(parse_error("expression too deeply nested"));
    }
    match Token::right_parenthesis(cur) {
        Ok((rest, _)) => {
            proof {
                assert(is_suffix_of(rest@, cur@)) by {
                    assert(rest@ == cur@.skip(1));
                }
                lemma_suffix_trans(input@, cur@, rest@);
                assert(args@ =~= Seq::<Instruction>::empty());
                assert(args_close_rest(input@, args@) == Some(rest@));
                assert(rest@ =~= cur@.drop_first());
                assert(target == Some(rest@));
            }
            return Ok((rest, args));
        },
        Err(_) => {},
    }
    let ghost mut prev_end: Seq<char> = s0;
    let mut fuel_left: u64 = fuel;
    proof {
        assert(target == rec_args_loop(cur@, fuel_left as nat));
    }
    loop
        invariant
            is_suffix_of(cur@, input@),
            fuel_left <= fuel,
            s0 == skip_ws_v(input@),
            target == rec_args(input@, fuel as nat),
            target == rec_args_loop(cur@, fuel_left as nat),
            args@.len() == 0 ==> cur@ == s0,
            args@.len() > 0 ==> {
                &&& args_prefix_rest(s0, args@, args@.len() as int) == Some(prev_end)
                &&& crate::parser::expect_char_v(skip_ws_v(prev_end), ',') is Some
                &&& cur@ == skip_ws_v(
                    crate::parser::expect_char_v(skip_ws_v(prev_end), ',')->0,
                )
            },
        decreases fuel_left,
    {
        if fuel_left == 0 {
            return Err(parse_error("expression too deeply nested"));
        }
        fuel_left = fuel_left - 1;
        let (rest, e) = match parse_expr(cur, fuel_left) {
            Ok(p) => p,
            Err(e) => {
                return Err(e);
            },
        };
        proof {
            lemma_suffix_trans(input@, cur@, rest@);
            lemma_args_prefix_agree(s0, args@.push(e), args@, args@.len() as int);
            assert(args_prefix_rest(s0, args@.push(e), args@.len() as int + 1) == Some(rest@));
        }
        args.push(e);
        proof {
            prev_end = rest@;
        }
        let rest2 = skip_ws(rest);
        proof {
            lemma_suffix_trans(input@, rest@, rest2@);
        }
        match Token::comma(rest2) {
            Ok((after, _)) => {
                let after2 = skip_ws(after);
                proof {
                    assert(after@ == rest2@.skip(1));
                    lemma_suffix_trans(input@, rest2@, after@);
                    lemma_suffix_trans(input@, after@, after2@);
                    assert(after@ =~= rest2@.drop_first());
                    assert(target == rec_args_loop(after2@, fuel_left as nat));
                }
                cur = after2;
            },
            Err(_) => {
                match Token::right_parenthesis(rest2) {
                    Ok((after, _)) => {
                        proof {
                            assert(after@ == rest2@.skip(1));
                            lemma_suffix_trans(input@, rest2@, after@);
                            assert(args_close_rest(input@, args@) == Some(after@));
                            assert(after@ =~= rest2@.drop_first());
                            assert(target == Some(after@));
                        }
                        return Ok((after, args));
                    },
                    Err(e) => {
                        proof {
                            assert(target is None);
                        }
                        return Err(e);
                    },
                }
            },
        }
    }
}

/// Parse the field assignments of a type instantiation, up to the closing
/// curly bracket: `name = expr, ...`.
#[verifier::loop_isolation(false)]
fn parse_field_assigns<'a>(input: &'a str, fuel: u64) -> (r: Result<
    (&'a str, Vec<VarAssign>),
    Error,
>)
    ensures
        r is Ok ==> is_suffix_of(r->Ok_0.0@, input@),
        r is Ok ==> fields_close_rest(input@, r->Ok_0.1@) == Some(r->Ok_0.0@),
        match r {
            Ok((rest, _)) => rec_fields(input@, fuel as nat) == Some(rest@),
            Err(_) => rec_fields(input@, fuel as nat) is None,
        },
    decreases fuel,
{
    let ghost s0 = skip_ws_v(input@);
    let ghost target = rec_fields(input@, fuel as nat);
    let mut fields: Vec<VarAssign> = Vec::new();
    let mut cur: &str = skip_ws(input);
    if fuel == 0 {
        return Err(parse_error("expression too deeply nested"));
    }
    match Token::right_curly_bracket(cur) {
        Ok((rest, _)) => {
            proof {
                assert(rest@ == cur@.skip(1));
                lemma_suffix_trans(input@, cur@, rest@);
                assert(fields@ =~= Seq::<VarAssign>::empty());
                assert(fields_close_rest(input@, fields@) == Some(rest@));
                assert(rest@ =~= cur@.drop_first());
                assert(target == Some(rest@));
            }
            return Ok((rest, fields));
        },
        Err(_) => {},
    }
    let ghost mut prev_end: Seq<char> = s0;
    let mut fuel_left: u64 = fuel;
    proof {
        assert(target == rec_fields_loop(cur@, fuel_left as nat));
    }
    loop
        invariant
            is_suffix_of(cur@, input@),
            fuel_left <= fuel,
            s0 == skip_ws_v(input@),
            target == rec_fields(input@, fuel as nat),
            target == rec_fields_loop(cur@, fuel_left as nat),
            fields@.len() == 0 ==> cur@ == s0,
            fields@.len() > 0 ==> {
                &&& fields_prefix_rest(s0, fields@, fields@.len() as int) == Some(prev_end)
                &&& crate::parser::expect_char_v(skip_ws_v(prev_end), ',') is Some
                &&& cur@ == skip_ws_v(
                    crate::parser::expect_char_v(skip_ws_v(prev_end), ',')->0,
                )
            },
        decreases fuel_left,
    {
        if fuel_left == 0 {
            return Err(parse_error("expression too deeply nested"));
        }
        fuel_left = fuel_left - 1;
        let (rest, name) = match Token::identifier(cur) {
            Ok(p) => p,
            Err(e) => {
                return Err(e);
            },
        };
        proof {
            crate::parser::lemma_id_len_le(cur@);
            assert(rest@ == cur@.skip(crate::parser::id_len(cur@) as int));
            lemma_suffix_trans(input@, cur@, rest@);
        }
        let rest_w = skip_ws(rest);
        proof {
            lemma_suffix_trans(input@, rest@, rest_w@);
        }
        let (rest2, _) = match Token::equal(rest_w) {
            Ok(p) => p,
            Err(e) => {
                return Err(e);
            },
        };
        proof {
            assert(rest2@ =~= rest_w@.skip(1));
            lemma_suffix_trans(input@, rest_w@, rest2@);
        }
        let rest2b = skip_ws(rest2);
        proof {
            lemma_suffix_trans(input@, rest2@, rest2b@);
        }
        let (rest3, e) = match parse_expr(rest2b, fuel_left) {
            Ok(p) => p,
            Err(e) => {
                return Err(e);
            },
        };
        proof {
            lemma_suffix_trans(input@, rest2b@, rest3@);
        }
        let va = VarAssign { mutable: false, symbol: name.to_owned(), value: Box::new(e) };
        proof {
            lemma_fields_prefix_agree(s0, fields@.push(va), fields@, fields@.len() as int);
            assert(fields_prefix_rest(s0, fields@.push(va), fields@.len() as int + 1) == Some(
                rest3@,
            ));
        }
        fields.push(va);
        proof {
            prev_end = rest3@;
        }
        let rest4 = skip_ws(rest3);
        proof {
            lemma_suffix_trans(input@, rest3@, rest4@);
        }
        match Token::comma(rest4) {
            Ok((after, _)) => {
                let after2 = skip_ws(after);
                proof {
                    assert(after@ == rest4@.skip(1));
                    lemma_suffix_trans(input@, rest4@, after@);
                    lemma_suffix_trans(input@, after@, after2@);
                    assert(after@ =~= rest4@.drop_first());
                    assert(rest2@ =~= rest_w@.drop_first());
                    assert(target == rec_fields_loop(after2@, fuel_left as nat));
                }
                cur = after2;
            },
            Err(_) => {
                match Token::right_curly_bracket(rest4) {
                    Ok((after, _)) => {
                        proof {
                            assert(after@ == rest4@.skip(1));
                            lemma_suffix_trans(input@, rest4@, after@);
                            assert(fields_close_rest(input@, fields@) == Some(after@));
                            assert(after@ =~= rest4@.drop_first());
                            assert(rest2@ =~= rest_w@.drop_first());
                            assert(target == Some(after@));
                        }
                        return Ok((after, fields));
                    },
                    Err(e) => {
                        proof {
                            assert(rest2@ =~= rest_w@.drop_first());
                            assert(target is None);
                        }
                        return Err(e);
                    },
                }
            },
        }
    }
}

/// Parse a primary expression: a constant, a function call, a type
/// instantiation, or a bare identifier.
fn parse_primary<'a>(input: &'a str, fuel: u64) -> (r: Result<(&'a str, Instruction), Error>)
    ensures
        r is Ok ==> is_suffix_of(r->Ok_0.0@, input@),
        r is Ok ==> instr_rest(input@, r->Ok_0.1) == Some(r->Ok_0.0@),
        match r {
            Ok((rest, _)) => rec_primary(input@, fuel as nat) == Some(rest@),
            Err(_) => rec_primary(input@, fuel as nat) is None,
        },
    decreases fuel,
{
    if fuel == 0 {
        return Err(parse_error("expression too deeply nested"));
    }
    let len = input.unicode_len();
    if len == 0 {
        return Err(parse_error("expected an expression"));
    }
    let c0 = input.get_char(0);
    if c0 == '"' || c0 == '\'' || c0 == '-' || crate::text::is_digit(c0) || peek_word(
        input,
        "true",
    ) || peek_word(input, "false") {
        let (rest, c) = match parse_constant(input) {
            Ok(p) => p,
            Err(e) => {
                return Err(e);
            },
        };
        proof {
            assert(constant_rest(input@, c) == Some(rest@));
        }
        return Ok((rest, Instruction::Constant(c)));
    }
    let (rest, name) = match Token::identifier(input) {
        Ok(p) => p,
        Err(e) => {
            return Err(e);
        },
    };
    proof {
        crate::parser::lemma_id_len_le(input@);
        assert(rest@ == input@.skip(crate::parser::id_len(input@) as int));
        assert(is_suffix_of(rest@, input@));
    }
    let rest2 = skip_ws(rest);
    proof {
        lemma_suffix_trans(input@, rest@, rest2@);
    }
    match Token::left_parenthesis(rest2) {
        Ok((after, _)) => {
            proof {
                assert(after@ == rest2@.skip(1));
                lemma_suffix_trans(input@, rest2@, after@);
                assert(after@ =~= rest2@.drop_first());
            }
            let (rest3, args) = match parse_args(after, fuel - 1) {
                Ok(p) => p,
                Err(e) => {
                    return Err(e);
                },
            };
            proof {
                lemma_suffix_trans(input@, after@, rest3@);
            }
            let fc = FunctionCall { fn_name: name.to_owned(), args };
            proof {
                assert(rest2@[0] == '(');
                assert(after@ =~= rest2@.drop_first());
                assert(instr_rest(input@, Instruction::FunctionCall(fc)) == Some(rest3@));
            }
            return Ok((rest3, Instruction::FunctionCall(fc)));
        },
        Err(_) => {},
    }
    match Token::left_curly_bracket(rest2) {
        Ok((after, _)) => {
            proof {
                assert(after@ == rest2@.skip(1));
                lemma_suffix_trans(input@, rest2@, after@);
                assert(after@ =~= rest2@.drop_first());
            }
            let (rest3, fields) = match parse_field_assigns(after, fuel - 1) {
                Ok(p) => p,
                Err(e) => {
                    return Err(e);
                },
            };
            proof {
                lemma_suffix_trans(input@, after@, rest3@);
            }
            let ti = TypeInstantiation { ty_name: TypeId::new(name.to_owned()), fields };
            proof {
                assert(rest2@[0] == '{');
                assert(after@ =~= rest2@.drop_first());
                assert(instr_rest(input@, Instruction::TypeInstantiation(ti)) == Some(rest3@));
            }
            return Ok((rest3, Instruction::TypeInstantiation(ti)));
        },
        Err(_) => {},
    }
    let v = VarOrEmptyType { symbol: name.to_owned() };
    proof {
        assert(instr_rest(input@, Instruction::VarOrEmptyType(v)) == Some(rest@));
    }
    Ok((rest, Instruction::VarOrEmptyType(v)))
}

/// Parse an expression: a primary expression with field accesses behind it.
#[verifier::loop_isolation(false)]
fn parse_expr<'a>(input: &'a str, fuel: u64) -> (r: Result<(&'a str, Instruction), Error>)
    ensures
        r is Ok ==> is_suffix_of(r->Ok_0.0@, input@),
        r is Ok ==> instr_rest(input@, r->Ok_0.1) == Some(r->Ok_0.0@),
        match r {
            Ok((rest, _)) => rec_expr(input@, fuel as nat) == Some(rest@),
            Err(_) => rec_expr(input@, fuel as nat) is None,
        },
    decreases fuel,
{
    if fuel == 0 {
        return Err(parse_error("expression too deeply nested"));
    }
    let (rest0, first) = match parse_primary(input, fuel - 1) {
        Ok(p) => p,
        Err(e) => {
            return Err(e);
        },
    };
    let ghost target = rec_expr(input@, fuel as nat);
    proof {
        assert(target == rec_postfix(rest0@));
    }
    let mut cur: &str = rest0;
    let mut e: Instruction = first;
    loop
        invariant
            is_suffix_of(cur@, input@),
            instr_rest(input@, e) == Some(cur@),
            target == rec_expr(input@, fuel as nat),
            target == rec_postfix(cur@),
        decreases cur@.len(),
    {
        let len = cur.unicode_len();
        if len == 0 || cur.get_char(0) != '.' {
            return Ok((cur, e));
        }
        let after_dot = cur.substring_char(1, len);
        proof {
            assert(after_dot@ =~= cur@.skip(1));
        }
        let (rest, field) = match Token::identifier(after_dot) {
            Ok(p) => p,
            Err(e) => {
                proof {
                    assert(after_dot@ =~= cur@.drop_first());
                    assert(target is None);
                }
                return Err(e);
            },
        };
        proof {
            crate::parser::lemma_id_len_le(after_dot@);
            assert(rest@ == after_dot@.skip(crate::parser::id_len(after_dot@) as int));
            assert(is_suffix_of(after_dot@, cur@)) by {
                assert(after_dot@ == cur@.skip(1));
            }
            lemma_suffix_trans(cur@, after_dot@, rest@);
            assert(rest@.len() < cur@.len()) by {
                assert(crate::parser::id_len(after_dot@) > 0);
            }
            lemma_suffix_trans(input@, cur@, rest@);
        }
        let fa = FieldAccess { instance: Box::new(e), field_name: field.to_owned() };
        proof {
            assert(after_dot@ =~= cur@.drop_first());
            assert(instr_rest(input@, Instruction::FieldAccess(fa)) == Some(rest@));
            assert(target == rec_postfix(rest@));
        }
        e = Instruction::FieldAccess(fa);
        cur = rest;
    }
}

/// Parse the declaration arguments of a type or function declaration, up to
/// the closing parenthesis: `name: type, ...`.
#[verifier::loop_isolation(false)]
fn parse_dec_args<'a>(input: &'a str, fuel: u64) -> (r: Result<(&'a str, Vec<DecArg>), Error>)
    ensures
        r is Ok ==> is_suffix_of(r->Ok_0.0@, input@),
        r is Ok ==> decargs_rest(input@, r->Ok_0.1@.map_values(|d: DecArg| d@)) == Some(
            r->Ok_0.0@,
        ),
        match r {
            Ok((rest, _)) => rec_decargs(input@, fuel as nat) == Some(rest@),
            Err(_) => rec_decargs(input@, fuel as nat) is None,
        },
    decreases fuel,
{
    let ghost s0 = skip_ws_v(input@);
    let ghost target = rec_decargs(input@, fuel as nat);
    let mut args: Vec<DecArg> = Vec::new();
    let mut cur: &str = skip_ws(input);
    if fuel == 0 {
        return Err(parse_error("declaration too deeply nested"));
    }
    match Token::right_parenthesis(cur) {
        Ok((rest, _)) => {
            proof {
                assert(rest@ =~= cur@.skip(1));
                lemma_suffix_trans(input@, cur@, rest@);
                assert(args@.map_values(|d: DecArg| d@) =~= Seq::<crate::types::DecArgV>::empty());
                assert(decargs_rest(input@, args@.map_values(|d: DecArg| d@)) == Some(rest@));
                assert(rest@ =~= cur@.drop_first());
                assert(target == Some(rest@));
            }
            return Ok((rest, args));
        },
        Err(_) => {},
    }
    let ghost mut prev_end: Seq<char> = s0;
    let mut fuel_left: u64 = fuel;
    proof {
        assert(target == rec_decargs_loop(cur@, fuel_left as nat));
    }
    loop
        invariant
            is_suffix_of(cur@, input@),
            fuel_left <= fuel,
            s0 == skip_ws_v(input@),
            target == rec_decargs(input@, fuel as nat),
            target == rec_decargs_loop(cur@, fuel_left as nat),
            args@.len() == 0 ==> cur@ == s0,
            args@.len() > 0 ==> {
                &&& decargs_prefix_rest(
                    s0,
                    args@.map_values(|d: DecArg| d@),
                    args@.len() as int,
                ) == Some(prev_end)
                &&& crate::parser::expect_char_v(skip_ws_v(prev_end), ',') is Some
                &&& cur@ == skip_ws_v(
                    crate::parser::expect_char_v(skip_ws_v(prev_end), ',')->0,
                )
            },
        decreases fuel_left,
    {
        if fuel_left == 0 {
            return Err(parse_error("declaration too deeply nested"));
        }
        fuel_left = fuel_left - 1;
        let (rest, name) = match Token::identifier(cur) {
            Ok(p) => p,
            Err(e) => {
                return Err(e);
            },
        };
        proof {
            crate::parser::lemma_id_len_le(cur@);
            assert(rest@ == cur@.skip(crate::parser::id_len(cur@) as int));
            lemma_suffix_trans(input@, cur@, rest@);
        }
        let rest_w = skip_ws(rest);
        let len = rest_w.unicode_len();
        if len == 0 || rest_w.get_char(0) != ':' {
            proof {
                assert(target is None);
            }
            return Err(parse_error("expected a colon after the argument name"));
        }
        let after_colon = rest_w.substring_char(1, len);
        proof {
            assert(after_colon@ =~= rest_w@.skip(1));
            lemma_suffix_trans(input@, rest@, rest_w@);
            lemma_suffix_trans(input@, rest_w@, after_colon@);
        }
        let after_colon_w = skip_ws(after_colon);
        proof {
            lemma_suffix_trans(input@, after_colon@, after_colon_w@);
        }
        let (rest2, tyname) = match Token::identifier(after_colon_w) {
            Ok(p) => p,
            Err(e) => {
                return Err(e);
            },
        };
        proof {
            crate::parser::lemma_id_len_le(after_colon_w@);
            assert(rest2@ == after_colon_w@.skip(crate::parser::id_len(after_colon_w@) as int));
            lemma_suffix_trans(input@, after_colon_w@, rest2@);
        }
        let arg = DecArg::new(name.to_owned(), TypeId::from(tyname));
        proof {
            let ghost old_views = args@.map_values(|d: DecArg| d@);
            let ghost new_views = args@.push(arg).map_values(|d: DecArg| d@);
            assert(new_views =~= old_views.push(arg@));
            lemma_decargs_prefix_agree(s0, new_views, old_views, args@.len() as int);
            assert(after_colon@ =~= rest_w@.drop_first());
            assert(decargs_prefix_rest(s0, new_views, args@.len() as int + 1) == Some(rest2@));
        }
        args.push(arg);
        proof {
            prev_end = rest2@;
        }
        let rest3 = skip_ws(rest2);
        proof {
            lemma_suffix_trans(input@, rest2@, rest3@);
        }
        match Token::comma(rest3) {
            Ok((after, _)) => {
                let after2 = skip_ws(after);
                proof {
                    assert(after@ =~= rest3@.skip(1));
                    lemma_suffix_trans(input@, rest3@, after@);
                    lemma_suffix_trans(input@, after@, after2@);
                    assert(after@ =~= rest3@.drop_first());
                    assert(after_colon@ =~= rest_w@.drop_first());
                    assert(target == rec_decargs_loop(after2@, fuel_left as nat));
                }
                cur = after2;
            },
            Err(_) => {
                match Token::right_parenthesis(rest3) {
                    Ok((after, _)) => {
                        proof {
                            assert(after@ =~= rest3@.skip(1));
                            lemma_suffix_trans(input@, rest3@, after@);
                            assert(decargs_rest(input@, args@.map_values(|d: DecArg| d@)) == Some(
                                after@,
                            ));
                            assert(after@ =~= rest3@.drop_first());
                            assert(after_colon@ =~= rest_w@.drop_first());
                            assert(target == Some(after@));
                        }
                        return Ok((after, args));
                    },
                    Err(e) => {
                        proof {
                            assert(after_colon@ =~= rest_w@.drop_first());
                            assert(target is None);
                        }
                        return Err(e);
                    },
                }
            },
        }
    }
}

/// Parse a block: instructions between curly brackets. If the last
/// instruction is an expression, it becomes the block's trailing expression,
/// whose instance is the block's value.
#[verifier::loop_isolation(false)]
fn parse_block<'a>(input: &'a str, fuel: u64) -> (r: Result<(&'a str, Block), Error>)
    ensures
        r is Ok ==> is_suffix_of(r->Ok_0.0@, input@),
        r is Ok ==> block_rest(input@, r->Ok_0.1) == Some(r->Ok_0.0@),
        match r {
            Ok((rest, _)) => rec_block(input@, fuel as nat) == Some(rest@),
            Err(_) => rec_block(input@, fuel as nat) is None,
        },
    decreases fuel,
{
    if fuel == 0 {
        return Err(parse_error("block too deeply nested"));
    }
    let len = input.unicode_len();
    if len == 0 || input.get_char(0) != '{' {
        return Err(parse_error("expected a block"));
    }
    let ghost s1 = input@.drop_first();
    let ghost target = rec_block(input@, fuel as nat);
    let mut cur: &str = input.substring_char(1, len);
    proof {
        assert(cur@ =~= input@.skip(1));
        assert(s1 =~= input@.skip(1));
        assert(target == rec_block_loop(cur@, fuel as nat));
    }
    let mut block = Block::new();
    let mut fuel_left: u64 = fuel;
    loop
        invariant
            is_suffix_of(cur@, input@),
            fuel_left <= fuel,
            s1 == input@.drop_first(),
            block.last is None,
            target == rec_block(input@, fuel as nat),
            target == rec_block_loop(cur@, fuel_left as nat),
            instrs_prefix_rest(s1, block.instructions@, block.instructions@.len() as int) == Some(
                cur@,
            ),
        decreases fuel_left,
    {
        if fuel_left == 0 {
            return Err(parse_error("block too deeply nested"));
        }
        fuel_left = fuel_left - 1;
        let trimmed = skip_separators(cur);
        proof {
            lemma_suffix_trans(input@, cur@, trimmed@);
        }
        let tlen = trimmed.unicode_len();
        if tlen == 0 {
            return Err(parse_error("unclosed block"));
        }
        if trimmed.get_char(0) == '}' {
            let rest = trimmed.substring_char(1, tlen);
            proof {
                assert(rest@ =~= trimmed@.skip(1));
                lemma_suffix_trans(input@, trimmed@, rest@);
                assert(rest@ =~= trimmed@.drop_first());
                assert(target == Some(rest@));
            }
            let ghost all = block.instructions@;
            let last = block.pop_instruction();
            match last {
                Some(instr) => {
                    match instr.kind() {
                        InstrKind::Expression(_) => {
                            block.set_last(Some(Box::new(instr)));
                            proof {
                                lemma_instrs_prefix_agree(
                                    s1,
                                    block.instructions@,
                                    all,
                                    all.len() as int - 1,
                                );
                                assert(trimmed@ =~= skip_sep_v(cur@));
                                assert(trimmed@.drop_first() =~= trimmed@.skip(1));
                                assert(block_rest(input@, block) == Some(rest@));
                            }
                        },
                        InstrKind::Statement => {
                            block.add_instruction(instr);
                            proof {
                                assert(block.instructions@ =~= all);
                                assert(trimmed@ =~= skip_sep_v(cur@));
                                assert(trimmed@.drop_first() =~= trimmed@.skip(1));
                                assert(block_rest(input@, block) == Some(rest@));
                            }
                        },
                    }
                },
                None => {
                    proof {
                        assert(trimmed@ =~= skip_sep_v(cur@));
                        assert(trimmed@.drop_first() =~= trimmed@.skip(1));
                        assert(block_rest(input@, block) == Some(rest@));
                    }
                },
            }
            return Ok((rest, block));
        }
        let (rest, instr) = match parse_instruction(trimmed, fuel_left) {
            Ok(p) => p,
            Err(e) => {
                proof {
                    assert(target is None);
                }
                return Err(e);
            },
        };
        proof {
            lemma_suffix_trans(input@, trimmed@, rest@);
            assert(target == rec_block_loop(rest@, fuel_left as nat));
            lemma_instrs_prefix_agree(
                s1,
                block.instructions@.push(instr),
                block.instructions@,
                block.instructions@.len() as int,
            );
            assert(trimmed@ =~= skip_sep_v(cur@));
            assert(instrs_prefix_rest(
                s1,
                block.instructions@.push(instr),
                block.instructions@.len() as int + 1,
            ) == Some(rest@));
        }
        block.add_instruction(instr);
        cur = rest;
    }
}

/// The length of the leading run of path characters: the identifier
/// alphabet extended with slashes and dots.
#[verifier::loop_isolation(false)]
fn scan_path_len(s: &str) -> (n: usize)
    ensures
        n <= s@.len(),
        n as nat == path_len(s@),
{
    let len = s.unicode_len();
    let mut i: usize = 0;
    proof {
        assert(s@.skip(0) =~= s@);
    }
    while i < len
        invariant
            i <= len,
            path_len(s@) == i + path_len(s@.skip(i as int)),
        decreases len - i,
    {
        proof {
            assert(s@.skip(i as int)[0] == s@[i as int]);
            assert(s@.skip(i as int).drop_first() =~= s@.skip(i as int + 1));
        }
        let c = s.get_char(i);
        if !(crate::text::is_id(c) || c == '/' || c == '.') {
            return i;
        }
        i = i + 1;
    }
    proof {
        assert(s@.skip(i as int).len() == 0);
    }
    i
}

/// Parse one instruction: a type declaration, a function declaration, an
/// inclusion, a directive, a `return`, an assignment, or an expression.
#[verifier::loop_isolation(false)]
fn parse_instruction<'a>(input: &'a str, fuel: u64) -> (r: Result<(&'a str, Instruction), Error>)
    ensures
        r is Ok ==> is_suffix_of(r->Ok_0.0@, input@),
        r is Ok ==> instr_rest(input@, r->Ok_0.1) == Some(r->Ok_0.0@),
        match r {
            Ok((rest, _)) => rec_instruction(input@, fuel as nat) == Some(rest@),
            Err(_) => rec_instruction(input@, fuel as nat) is None,
        },
    decreases fuel,
{
    if fuel == 0 {
        return Err(parse_error("instruction too deeply nested"));
    }
    let len = input.unicode_len();
    if len == 0 {
        return Err(parse_error("expected an instruction"));
    }
    // A directive: an at sign, the directive's name, optional arguments.
    if input.get_char(0) == '@' {
        let after = input.substring_char(1, len);
        proof {
            assert(after@ =~= input@.skip(1));
        }
        let (rest, fc) = match parse_call_like(after, fuel - 1) {
            Ok(p) => p,
            Err(e) => {
                return Err(e);
            },
        };
        proof {
            lemma_suffix_trans(input@, after@, rest@);
        }
        let inst = match JkInst::from_function_call(fc) {
            Ok(i) => i,
            Err(e) => {
                return Err(e);
            },
        };
        proof {
            assert(after@ =~= input@.drop_first());
            assert(instr_rest(input@, Instruction::JkInst(inst)) == Some(rest@));
        }
        return Ok((rest, Instruction::JkInst(inst)));
    }
    // A type declaration: `type Name(field: type, ...)`.
    if peek_word(input, "type") {
        proof {
            reveal_strlit("type");
        }
        let after = skip_n_ws(input, 4);
        let (rest, name) = match Token::identifier(after) {
            Ok(p) => p,
            Err(e) => {
                return Err(e);
            },
        };
        proof {
            crate::parser::lemma_id_len_le(after@);
            assert(rest@ == after@.skip(crate::parser::id_len(after@) as int));
            lemma_suffix_trans(input@, after@, rest@);
        }
        let rest_w = skip_ws(rest);
        let rlen = rest_w.unicode_len();
        if rlen == 0 || rest_w.get_char(0) != '(' {
            return Err(parse_error("expected a field list"));
        }
        let after_paren = rest_w.substring_char(1, rlen);
        proof {
            lemma_suffix_trans(input@, rest@, rest_w@);
            assert(after_paren@ =~= rest_w@.skip(1));
            lemma_suffix_trans(input@, rest_w@, after_paren@);
        }
        let (rest2, fields) = match parse_dec_args(after_paren, fuel - 1) {
            Ok(p) => p,
            Err(e) => {
                return Err(e);
            },
        };
        proof {
            lemma_suffix_trans(input@, after_paren@, rest2@);
        }
        let dec = TypeDec::new(name.to_owned(), fields);
        let node = Instruction::TypeDec(Rc::new(dec));
        proof {
            assert(rest_w@[0] == '(');
            assert(after_paren@ =~= rest_w@.drop_first());
            assert(instr_rest(input@, node) == Some(rest2@));
        }
        return Ok((rest2, node));
    }
    // A function declaration: `func name(args) [-> type] { ... }`.
    if peek_word(input, "func") {
        proof {
            reveal_strlit("func");
        }
        let after = skip_n_ws(input, 4);
        let (rest, name) = match Token::identifier(after) {
            Ok(p) => p,
            Err(e) => {
                return Err(e);
            },
        };
        proof {
            crate::parser::lemma_id_len_le(after@);
            assert(rest@ == after@.skip(crate::parser::id_len(after@) as int));
            lemma_suffix_trans(input@, after@, rest@);
        }
        let rest_w = skip_ws(rest);
        let rlen = rest_w.unicode_len();
        if rlen == 0 || rest_w.get_char(0) != '(' {
            return Err(parse_error("expected a parameter list"));
        }
        let after_paren = rest_w.substring_char(1, rlen);
        proof {
            lemma_suffix_trans(input@, rest@, rest_w@);
            assert(after_paren@ =~= rest_w@.skip(1));
            lemma_suffix_trans(input@, rest_w@, after_paren@);
        }
        let (rest2, params) = match parse_dec_args(after_paren, fuel - 1) {
            Ok(p) => p,
            Err(e) => {
                return Err(e);
            },
        };
        proof {
            lemma_suffix_trans(input@, after_paren@, rest2@);
        }
        let rest3 = skip_ws(rest2);
        proof {
            lemma_suffix_trans(input@, rest2@, rest3@);
        }
        let r3len = rest3.unicode_len();
        let mut ty: Option<TypeId> = None;
        let mut before_block: &str = rest3;
        if r3len >= 2 && rest3.get_char(0) == '-' && rest3.get_char(1) == '>' {
            let after_arrow = skip_n_ws(rest3, 2);
            proof {
                lemma_suffix_trans(input@, rest3@, after_arrow@);
            }
            let (rest4, tyname) = match Token::identifier(after_arrow) {
                Ok(p) => p,
                Err(e) => {
                    return Err(e);
                },
            };
            proof {
                crate::parser::lemma_id_len_le(after_arrow@);
                assert(rest4@ == after_arrow@.skip(crate::parser::id_len(after_arrow@) as int));
                lemma_suffix_trans(input@, after_arrow@, rest4@);
            }
            ty = Some(TypeId::from(tyname));
            let rest5 = skip_ws(rest4);
            proof {
                lemma_suffix_trans(input@, rest4@, rest5@);
            }
            before_block = rest5;
        }
        let (rest6, block) = match parse_block(before_block, fuel - 1) {
            Ok(p) => p,
            Err(e) => {
                return Err(e);
            },
        };
        proof {
            lemma_suffix_trans(input@, before_block@, rest6@);
        }
        let dec = FunctionDec { name: name.to_owned(), args: params, ty, block };
        let node = Instruction::FunctionDec(Rc::new(dec));
        proof {
            assert(rest_w@[0] == '(');
            assert(after_paren@ =~= rest_w@.drop_first());
            assert(instr_rest(input@, node) == Some(rest6@));
        }
        return Ok((rest6, node));
    }
    // An inclusion: `incl path [as alias]`.
    if peek_word(input, "incl") {
        proof {
            reveal_strlit("incl");
        }
        let after = skip_n_ws(input, 4);
        let n = scan_path_len(after);
        if n == 0 {
            return Err(parse_error("expected an include path"));
        }
        let alen = after.unicode_len();
        let path = after.substring_char(0, n);
        let rest = after.substring_char(n, alen);
        proof {
            assert(rest@ =~= after@.skip(n as int));
            lemma_suffix_trans(input@, after@, rest@);
        }
        let rest_w = skip_ws(rest);
        proof {
            lemma_suffix_trans(input@, rest@, rest_w@);
        }
        if peek_word(rest_w, "as") {
            proof {
                reveal_strlit("as");
            }
            let after_as = skip_n_ws(rest_w, 2);
            proof {
                lemma_suffix_trans(input@, rest_w@, after_as@);
            }
            let (rest2, alias) = match Token::identifier(after_as) {
                Ok(p) => p,
                Err(e) => {
                    return Err(e);
                },
            };
            proof {
                crate::parser::lemma_id_len_le(after_as@);
                assert(rest2@ == after_as@.skip(crate::parser::id_len(after_as@) as int));
                lemma_suffix_trans(input@, after_as@, rest2@);
            }
            let node = Instruction::Incl(
                Incl { path: path.to_owned(), alias: Some(alias.to_owned()) },
            );
            proof {
                assert(path@ =~= after@.take(n as int));
                assert(instr_rest(input@, node) == Some(rest2@));
            }
            return Ok((rest2, node));
        }
        let node = Instruction::Incl(Incl { path: path.to_owned(), alias: None });
        proof {
            assert(path@ =~= after@.take(n as int));
            assert(instr_rest(input@, node) == Some(rest@));
        }
        return Ok((rest, node));
    }
    // A `return`, with an optional value.
    if peek_word(input, "return") {
        proof {
            reveal_strlit("return");
        }
        let after = input.substring_char(6, len);
        proof {
            assert(after@ =~= input@.skip(6));
        }
        let alen = after.unicode_len();
        let has_value = alen > 0 && (after.get_char(0) == ' ' || after.get_char(0) == '\t');
        if has_value {
            let after_w = skip_ws(after);
            proof {
                lemma_suffix_trans(input@, after@, after_w@);
            }
            let wlen = after_w.unicode_len();
            if wlen > 0 && after_w.get_char(0) != '}' && after_w.get_char(0) != ';'
                && after_w.get_char(0) != '\n' && after_w.get_char(0) != '\r' {
                let (rest, e) = match parse_expr(after_w, fuel - 1) {
                    Ok(p) => p,
                    Err(e) => {
                        return Err(e);
                    },
                };
                proof {
                    lemma_suffix_trans(input@, after_w@, rest@);
                }
                let node = Instruction::Return(
                    crate::instruction::Return { value: Some(Box::new(e)) },
                );
                proof {
                    assert(instr_rest(input@, node) == Some(rest@));
                }
                return Ok((rest, node));
            }
            let node = Instruction::Return(crate::instruction::Return { value: None });
            proof {
                assert(instr_rest(input@, node) == Some(after_w@));
            }
            return Ok((after_w, node));
        }
        let node = Instruction::Return(crate::instruction::Return { value: None });
        proof {
            assert(instr_rest(input@, node) == Some(after@));
        }
        return Ok((after, node));
    }
    // An assignment: `[mut ]name = expr`, or otherwise an expression.
    let (mutable, assign_input): (bool, &str) = if peek_word(input, "mut") {
        proof {
            reveal_strlit("mut");
        }
        let after = skip_n_ws(input, 3);
        (true, after)
    } else {
        proof {
            lemma_suffix_refl(input@);
        }
        (false, input)
    };
    match Token::identifier(assign_input) {
        Ok((rest, name)) => {
            proof {
                crate::parser::lemma_id_len_le(assign_input@);
                assert(rest@ == assign_input@.skip(crate::parser::id_len(assign_input@) as int));
                lemma_suffix_trans(input@, assign_input@, rest@);
            }
            let rest_w = skip_ws(rest);
            let rlen = rest_w.unicode_len();
            if rlen > 0 && rest_w.get_char(0) == '=' {
                let after_eq = skip_n_ws(rest_w, 1);
                proof {
                    lemma_suffix_trans(input@, rest@, rest_w@);
                    lemma_suffix_trans(input@, rest_w@, after_eq@);
                }
                let (rest2, e) = match parse_expr(after_eq, fuel - 1) {
                    Ok(p) => p,
                    Err(e) => {
                        return Err(e);
                    },
                };
                proof {
                    lemma_suffix_trans(input@, after_eq@, rest2@);
                }
                let node = Instruction::VarAssign(
                    VarAssign { mutable, symbol: name.to_owned(), value: Box::new(e) },
                );
                proof {
                    assert(instr_rest(input@, node) == Some(rest2@));
                }
                return Ok((rest2, node));
            }
        },
        Err(_) => {},
    }
    if mutable {
        return Err(parse_error("expected an assignment after the mutation qualifier"));
    }
    parse_expr(input, fuel - 1)
}

/// Parse a call-shaped construct: a name with an optional parenthesized
/// argument list.
fn parse_call_like<'a>(input: &'a str, fuel: u64) -> (r: Result<(&'a str, FunctionCall), Error>)
    ensures
        r is Ok ==> is_suffix_of(r->Ok_0.0@, input@),
        r is Ok ==> call_rest(input@, r->Ok_0.1) == Some(r->Ok_0.0@),
        match r {
            Ok((rest, _)) => rec_call_like(input@, fuel as nat) == Some(rest@),
            Err(_) => rec_call_like(input@, fuel as nat) is None,
        },
    decreases fuel,
{
    let (rest, name) = match Token::identifier(input) {
        Ok(p) => p,
        Err(e) => {
            return Err(e);
        },
    };
    proof {
        crate::parser::lemma_id_len_le(input@);
        assert(rest@ == input@.skip(crate::parser::id_len(input@) as int));
        assert(is_suffix_of(rest@, input@));
    }
    let rlen = rest.unicode_len();
    if rlen > 0 && rest.get_char(0) == '(' {
        if fuel == 0 {
            return Err(parse_error("expression too deeply nested"));
        }
        let after = rest.substring_char(1, rlen);
        proof {
            assert(after@ =~= rest@.skip(1));
            lemma_suffix_trans(input@, rest@, after@);
        }
        let (rest2, args) = match parse_args(after, fuel - 1) {
            Ok(p) => p,
            Err(e) => {
                return Err(e);
            },
        };
        proof {
            lemma_suffix_trans(input@, after@, rest2@);
        }
        let fc = FunctionCall { fn_name: name.to_owned(), args };
        proof {
            assert(after@ =~= rest@.drop_first());
            assert(call_rest(input@, fc) == Some(rest2@));
            assert(rec_call_like(input@, fuel as nat) == Some(rest2@));
        }
        return Ok((rest2, fc));
    }
    let fc = FunctionCall { fn_name: name.to_owned(), args: Vec::new() };
    proof {
        assert(fc.args@ =~= Seq::<Instruction>::empty());
        assert(call_rest(input@, fc) == Some(rest@));
    }
    Ok((rest, fc))
}

/// Grammar entry points.
pub struct Construct;

impl Construct {
    /// Parse one instruction, skipping leading separators. On success, the
    /// returned tree is the grammar's parse of the input's head: it stands
    /// for exactly the consumed prefix.
    pub fn instruction<'a>(input: &'a str) -> (r: Result<(&'a str, Instruction), Error>)
        ensures
            r is Ok ==> is_suffix_of(r->Ok_0.0@, input@),
            r is Ok ==> instr_rest(skip_sep_v(input@), r->Ok_0.1) == Some(r->Ok_0.0@),
            ({
                let t = skip_sep_v(input@);
                match r {
                    Ok((rest, _)) => rec_instruction(t, fuel_for_v(t.len())) == Some(rest@),
                    Err(_) => rec_instruction(t, fuel_for_v(t.len())) is None,
                }
            }),
    {
        let trimmed = skip_separators(input);
        let fuel = fuel_for(trimmed.unicode_len());
        let r = parse_instruction(trimmed, fuel);
        match r {
            Ok((rest, i)) => {
                proof {
                    lemma_suffix_trans(input@, trimmed@, rest@);
                }
                Ok((rest, i))
            },
            Err(e) => Err(e),
        }
    }

    /// Parse a function call: a name with an optional parenthesized
    /// argument list. On success, the returned call is the grammar's parse
    /// of the input's head.
    pub fn function_call<'a>(input: &'a str) -> (r: Result<(&'a str, FunctionCall), Error>)
        ensures
            r is Ok ==> is_suffix_of(r->Ok_0.0@, input@),
            r is Ok ==> call_rest(input@, r->Ok_0.1) == Some(r->Ok_0.0@),
            match r {
                Ok((rest, _)) => rec_call_like(input@, fuel_for_v(input@.len())) == Some(rest@),
                Err(_) => rec_call_like(input@, fuel_for_v(input@.len())) is None,
            },
    {
        let fuel = fuel_for(input.unicode_len());
        parse_call_like(input, fuel)
    }

    /// Parse a whole input as a sequence of instructions, separated by
    /// whitespace, newlines or semicolons, until the input is exhausted. On
    /// success, the returned instructions are the grammar's parses of the
    /// whole input, in source order, with nothing but separators left over.
    #[verifier::loop_isolation(false)]
    pub fn many_instructions<'a>(input: &'a str) -> (r: Result<(&'a str, Vec<Instruction>), Error>)
        ensures
            r is Ok ==> r->Ok_0.0@.len() == 0,
            r is Ok ==> match instrs_prefix_rest(input@, r->Ok_0.1@, r->Ok_0.1@.len() as int) {
                Some(rem) => skip_sep_v(rem).len() == 0,
                None => false,
            },
            r is Ok <==> rec_many(input@, fuel_for_v(input@.len())),
    {
        let mut out: Vec<Instruction> = Vec::new();
        let mut cur: &str = input;
        let ghost target = rec_many(input@, fuel_for_v(input@.len()));
        let mut fuel: u64 = fuel_for(input.unicode_len());
        loop
            invariant
                instrs_prefix_rest(input@, out@, out@.len() as int) == Some(cur@),
                target == rec_many(input@, fuel_for_v(input@.len())),
                target == rec_many(cur@, fuel as nat),
            decreases fuel,
        {
            if fuel == 0 {
                return Err(parse_error("instruction list too long"));
            }
            fuel = fuel - 1;
            let trimmed = skip_separators(cur);
            if trimmed.unicode_len() == 0 {
                let done = trimmed.substring_char(0, 0);
                proof {
                    assert(done@ =~= trimmed@.take(0));
                    assert(target);
                }
                return Ok((done, out));
            }
            let tfuel = fuel_for(trimmed.unicode_len());
            let (rest, instr) = match parse_instruction(trimmed, tfuel) {
                Ok(p) => p,
                Err(e) => {
                    proof {
                        assert(!target);
                    }
                    return Err(e);
                },
            };
            proof {
                assert(target == rec_many(rest@, fuel as nat));
                lemma_instrs_prefix_agree(input@, out@.push(instr), out@, out@.len() as int);
                assert(instrs_prefix_rest(input@, out@.push(instr), out@.len() as int + 1) == Some(
                    rest@,
                ));
            }
            out.push(instr);
            cur = rest;
        }
    }
}

/// The parser front end: it turns a whole program into a fresh context
/// whose entry block holds the parsed instructions.
pub struct Parser;

impl Parser {
    /// Parse the entire user input into a fresh execution context. The
    /// top-level instructions land in the context's entry block, in source
    /// order, as the grammar's parses of the whole input; if the last one is
    /// an expression, it is installed as the entry block's trailing
    /// expression, the program's value. Nothing is executed: apart from the
    /// entry block, the returned context is a fresh one.
    pub fn parse(input: &str) -> (r: Result<Context, Error>)
        ensures
            match r {
                Ok(ctx) => {
                    &&& (CtxV {
                        entry_instrs: Seq::empty(),
                        entry_last: None,
                        ..ctx@
                    }) == crate::context::initial_ctx_v()
                    &&& program_parses(input@, ctx@.entry_instrs, ctx@.entry_last)
                },
                Err(_) => !rec_many(input@, fuel_for_v(input@.len())),
            },
        r is Ok <==> rec_many(input@, fuel_for_v(input@.len())),
    {
        let mut ctx = Context::new();
        let (_, instructions) = match Construct::many_instructions(input) {
            Ok(p) => p,
            Err(e) => {
                return Err(e);
            },
        };
        let ghost all = instructions@;
        let mut entry_block = Block::new();
        entry_block.set_instructions(instructions);
        let last = entry_block.pop_instruction();
        match last {
            Some(instr) => {
                match instr.kind() {
                    InstrKind::Expression(_) => {
                        entry_block.set_last(Some(Box::new(instr)));
                        proof {
                            lemma_instrs_prefix_agree(
                                input@,
                                entry_block.instructions@,
                                all,
                                all.len() as int - 1,
                            );
                        }
                    },
                    InstrKind::Statement => {
                        entry_block.add_instruction(instr);
                        proof {
                            assert(entry_block.instructions@ =~= all);
                        }
                    },
                }
            },
            None => {},
        }
        ctx.restore_entry(entry_block);
        proof {
            assert((CtxV { entry_instrs: Seq::empty(), entry_last: None, ..ctx@ })
                =~~= crate::context::initial_ctx_v());
            assert(program_parses(input@, ctx@.entry_instrs, ctx@.entry_last));
        }
        Ok(ctx)
    }
}

} // verus!
