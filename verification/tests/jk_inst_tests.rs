//! Interpreter directives: construction from parsed calls and execution.

use jinko::{Construct, JkInst, Parser};

#[test]
fn t_invalid_jkinst() {
    let (_, fc) = Construct::function_call("tamer()").unwrap();
    let inst = JkInst::from_function_call(fc);

    assert!(inst.is_err(), "tamer is not a valid interpreter directive")
}

#[test]
fn t_valid_inst_no_args() {
    let (_, fc) = Construct::function_call("dump()").unwrap();
    let inst = JkInst::from_function_call(fc);

    assert!(inst.is_ok(), "dump is a valid interpreter directive")
}

#[test]
fn t_valid_inst_with_args() {
    let (_, fc) = Construct::function_call("ir(fn)").unwrap();
    let inst = JkInst::from_function_call(fc);

    assert!(
        inst.is_ok(),
        "ir(func) is a valid use of the ir interpreter directive"
    )
}

#[test]
fn t_quit_stops_execution() {
    let mut ctx = Parser::parse("x = 1\n@quit\n@dump").unwrap();
    let res = ctx.execute();

    // The process is asked to exit with status zero, and the later dump
    // never runs.
    assert!(res.is_none());
    assert_eq!(ctx.exit_status(), Some(0));
    assert!(ctx.outputs().is_empty());
    assert!(!ctx.error_handler.has_errors());
}

#[test]
fn t_error_directive_prints_and_exits() {
    let mut ctx = Parser::parse("@error(boom)").unwrap();
    let res = ctx.execute();

    assert!(res.is_none());
    assert_eq!(ctx.exit_status(), Some(1));
    assert_eq!(ctx.diagnostics().len(), 1);
    assert_eq!(ctx.diagnostics()[0], "boom");
}

#[test]
fn t_dump_renders_declarations() {
    let mut ctx = Parser::parse("type Point(x: int, y: int)\nb = 3\n@dump").unwrap();
    ctx.execute();

    assert_eq!(ctx.outputs().len(), 1);
    let dump = &ctx.outputs()[0];
    assert!(dump.contains("type Point"));
    assert!(dump.contains("var b"));
}
