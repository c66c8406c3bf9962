//! End-to-end behaviour: whole programs, literal round trips, instance byte
//! layouts, includes, and assignments.

use jinko::{Constant, Construct, Context, Instruction, JkBool, JkChar, JkInt, JkString, Parser};
use jinko::SymbolKind;

#[test]
fn t_program_field_access_bytes() {
    let mut ctx =
        Parser::parse("type Point(x: int, y: int)\nb = Point { x = 15, y = 14 }\nb.x").unwrap();
    let res = ctx.execute().unwrap();

    assert_eq!(res.data()[..], [15, 0, 0, 0, 0, 0, 0, 0]);
    assert_eq!(res.size(), 8);
    assert_eq!(res.ty().unwrap().name(), "int");
    assert!(!ctx.error_handler.has_errors());
}

#[test]
fn t_int_instance_little_endian() {
    let inst = JkInt::from(15).to_instance();
    assert_eq!(inst.data()[..], [15, 0, 0, 0, 0, 0, 0, 0]);
    assert_eq!(inst.size(), 8);

    // Two's complement of a negative value.
    let neg = JkInt::from(-1).to_instance();
    assert_eq!(neg.data()[..], [255, 255, 255, 255, 255, 255, 255, 255]);

    let big = JkInt::from(258).to_instance();
    assert_eq!(big.data()[..], [2, 1, 0, 0, 0, 0, 0, 0]);
}

#[test]
fn t_primitive_instance_layouts() {
    assert_eq!(JkBool::from(true).to_instance().data()[..], [1]);
    assert_eq!(JkBool::from(false).to_instance().data()[..], [0]);
    assert_eq!(JkChar::from('A').to_instance().data()[..], [65, 0, 0, 0]);
    assert_eq!(
        JkString::from("hey").to_instance().data()[..],
        [104, 101, 121]
    );
}

#[test]
fn t_int_literal_round_trip() {
    // Parsing a literal, printing the result, and parsing it again yields
    // the same value.
    let parsed = Construct::instruction("-45").unwrap().1;
    let printed = parsed.print();
    assert_eq!(printed, "-45");
    let reparsed = Construct::instruction(printed.as_str()).unwrap().1;
    assert_eq!(reparsed.print(), "-45");

    let parsed = Construct::instruction("12").unwrap().1;
    assert_eq!(parsed.print(), "12");
}

#[test]
fn t_string_and_char_literal_round_trip() {
    let parsed = Construct::instruction("\"a str\"").unwrap().1;
    assert_eq!(parsed.print(), "\"a str\"");

    let parsed = Construct::instruction("'z'").unwrap().1;
    assert_eq!(parsed.print(), "'z'");

    let parsed = Construct::instruction("true").unwrap().1;
    assert_eq!(parsed.print(), "true");
}

#[test]
fn t_include_runs_instructions() {
    let mut ctx = Parser::parse("incl lib\nlib_var").unwrap();
    let (_, insts) = Construct::many_instructions("lib_var = 99").unwrap();
    ctx.register_source("lib.jk".to_owned(), insts);

    let res = ctx.execute().unwrap();
    assert_eq!(res, JkInt::from(99).to_instance());
    assert!(!ctx.error_handler.has_errors());
}

#[test]
fn t_include_idempotence() {
    // Including the same file twice executes its top-level instructions
    // twice: each run prints one usage line on the diagnostic stream.
    let mut ctx = Parser::parse("incl tools\nincl tools").unwrap();
    let (_, insts) = Construct::many_instructions("@ir").unwrap();
    ctx.register_source("tools.jk".to_owned(), insts);

    ctx.execute();
    assert_eq!(ctx.diagnostics().len(), 2);
    assert!(!ctx.error_handler.has_errors());
}

#[test]
fn t_include_halts_after_error() {
    // An included file propagates errors: once an instruction has raised
    // one, the rest of the file does not run.
    let mut ctx = Parser::parse("incl broken").unwrap();
    let (_, insts) = Construct::many_instructions("ghost_var
@ir").unwrap();
    ctx.register_source("broken.jk".to_owned(), insts);

    ctx.execute();
    assert!(ctx.error_handler.has_errors());
    assert!(ctx.diagnostics().is_empty());
}

#[test]
fn t_include_missing_candidates() {
    let mut ctx = Parser::parse("incl nowhere").unwrap();
    ctx.execute();

    assert!(ctx
        .error_handler
        .errors()
        .iter()
        .any(|e| e.msg().contains("no candidate for include")));
}

#[test]
fn t_include_ambiguous_candidates() {
    let mut ctx = Parser::parse("incl dual").unwrap();
    let (_, a) = Construct::many_instructions("x = 1").unwrap();
    let (_, b) = Construct::many_instructions("y = 2").unwrap();
    ctx.register_source("dual.jk".to_owned(), a);
    ctx.register_source("dual/lib.jk".to_owned(), b);
    ctx.execute();

    assert!(ctx
        .error_handler
        .errors()
        .iter()
        .any(|e| e.msg().contains("invalid include")));
}

#[test]
fn t_include_relative_to_including_file() {
    // The included file's own includes resolve against its directory.
    let mut ctx = Parser::parse("incl sub/inner\ninner_var").unwrap();
    let (_, outer) = Construct::many_instructions("incl deeper").unwrap();
    let (_, deeper) = Construct::many_instructions("inner_var = 5").unwrap();
    ctx.register_source("sub/inner.jk".to_owned(), outer);
    ctx.register_source("sub/deeper.jk".to_owned(), deeper);

    let res = ctx.execute().unwrap();
    assert_eq!(res, JkInt::from(5).to_instance());
}

#[test]
fn t_reassign_immutable_variable() {
    let mut ctx = Context::new();
    Construct::instruction("a = 1").unwrap().1.execute(&mut ctx);
    Construct::instruction("a = 2").unwrap().1.execute(&mut ctx);

    assert!(ctx
        .error_handler
        .errors()
        .iter()
        .any(|e| e.msg().contains("cannot reassign immutable variable: a")));
}

#[test]
fn t_reassign_mutable_variable() {
    let mut ctx = Context::new();
    Construct::instruction("mut a = 1").unwrap().1.execute(&mut ctx);
    Construct::instruction("a = 2").unwrap().1.execute(&mut ctx);
    let res = Construct::instruction("a").unwrap().1.execute(&mut ctx).unwrap();

    assert_eq!(res, JkInt::from(2).to_instance());
    assert!(!ctx.error_handler.has_errors());
}

#[test]
fn t_unknown_variable() {
    let mut ctx = Context::new();
    assert!(Construct::instruction("ghost_var")
        .unwrap()
        .1
        .execute(&mut ctx)
        .is_none());
    assert!(ctx
        .error_handler
        .errors()
        .iter()
        .any(|e| e.msg().contains("cannot find variable: ghost_var")));
}

#[test]
fn t_empty_type_instantiation_from_bare_name() {
    let mut ctx = Context::new();
    Construct::instruction("type Unit()").unwrap().1.execute(&mut ctx);
    let res = Construct::instruction("Unit").unwrap().1.execute(&mut ctx).unwrap();

    assert_eq!(res.size(), 0);
    assert_eq!(res.ty().unwrap().name(), "Unit");
    assert!(!ctx.error_handler.has_errors());
}

#[test]
fn t_driver_halts_after_error() {
    // The driver inspects the error buffer between top-level instructions
    // and halts once an error accumulated: the later directive never runs.
    let mut ctx = Parser::parse("ghost_var\n@ir").unwrap();
    ctx.execute();

    assert!(ctx.error_handler.has_errors());
    assert!(ctx.diagnostics().is_empty());
}

#[test]
fn t_return_short_circuits_block() {
    let mut ctx = Context::new();
    let (_, insts) =
        Construct::many_instructions("func pick() -> int { return 1; 2 }").unwrap();
    for inst in insts {
        inst.execute(&mut ctx);
    }

    let res = Construct::instruction("pick()").unwrap().1.execute(&mut ctx).unwrap();
    assert_eq!(res, JkInt::from(1).to_instance());
}

#[test]
fn t_parse_failure_builds_no_context() {
    // An input the grammar does not recognize is a parse error.
    assert!(Parser::parse("=").is_err());
    assert!(Parser::parse("type 99()").is_err());
    assert!(Construct::instruction(", nope").is_err());
}

#[test]
fn t_parse_entry_holds_program() {
    // The parsed program lands in the entry block in source order, the
    // trailing expression installed exactly when the last construct is an
    // expression.
    let mut ctx = Parser::parse("a = 1\nb = 2\na").unwrap();
    let res = ctx.execute().unwrap();
    assert_eq!(res, JkInt::from(1).to_instance());

    let mut ctx = Parser::parse("a = 1\nb = 2").unwrap();
    assert!(ctx.execute().is_none());
    assert!(!ctx.error_handler.has_errors());
}

#[test]
fn t_instruction_kinds() {
    let stmt = Construct::instruction("a = 1").unwrap().1;
    assert!(matches!(stmt.kind(), jinko::InstrKind::Statement));

    let expr = Construct::instruction("1").unwrap().1;
    assert!(matches!(expr.kind(), jinko::InstrKind::Expression(_)));
}

#[test]
fn t_resolve_kind_classification() {
    let mut ctx = Context::new();
    Construct::instruction("type Unit()").unwrap().1.execute(&mut ctx);
    Construct::instruction("v = 1").unwrap().1.execute(&mut ctx);

    let as_type = jinko::VarOrEmptyType::new("Unit".to_owned());
    assert_eq!(as_type.resolve_kind(&ctx), SymbolKind::EmptyTypeInst);
    assert!(matches!(
        as_type.resolve_type(&ctx),
        jinko::CheckedType::Resolved(_)
    ));

    let as_var = jinko::VarOrEmptyType::new("v".to_owned());
    assert_eq!(as_var.resolve_kind(&ctx), SymbolKind::VarAccess);

    let unknown = jinko::VarOrEmptyType::new("nothing".to_owned());
    assert_eq!(unknown.resolve_kind(&ctx), SymbolKind::Unknown);
}

#[test]
fn t_constant_execution_produces_instances() {
    let mut ctx = Context::new();
    let int_inst = Instruction::Constant(Constant::Int(3)).execute(&mut ctx).unwrap();
    assert_eq!(int_inst, JkInt::from(3).to_instance());

    let str_inst = Instruction::Constant(Constant::Str("ok".to_owned()))
        .execute(&mut ctx)
        .unwrap();
    assert_eq!(str_inst, JkString::from("ok").to_instance());
}
