//! Function call construction and printing.

use jinko::{Constant, Construct, Context, FunctionCall, Instruction, JkInt};

#[test]
fn pretty_print_empty() {
    let function = FunctionCall::new("something".to_owned());

    assert_eq!(function.print(), "something()");
}

#[test]
fn pretty_print_simple() {
    let c0 = Instruction::Constant(Constant::Int(12));
    let c1 = Instruction::Constant(Constant::Int(13));
    let c2 = Instruction::Constant(Constant::Int(14));

    let mut function = FunctionCall::new("fn_name".to_string());

    function.add_arg(c0);
    function.add_arg(c1);
    function.add_arg(c2);

    assert_eq!(function.print(), "fn_name(12, 13, 14)");
}

#[test]
fn t_call_returns_block_value() {
    let mut ctx = Context::new();
    let (_, insts) = Construct::many_instructions("func seven() -> int { 7 }").unwrap();
    for inst in insts {
        inst.execute(&mut ctx);
    }

    let call = Construct::instruction("seven()").unwrap().1;
    let res = call.execute(&mut ctx).unwrap();
    assert_eq!(res, JkInt::from(7).to_instance());
    assert!(!ctx.error_handler.has_errors());
}

#[test]
fn t_call_unknown_function() {
    let mut ctx = Context::new();
    let call = Construct::instruction("nope()").unwrap().1;
    assert!(call.execute(&mut ctx).is_none());
    assert!(ctx
        .error_handler
        .errors()
        .iter()
        .any(|e| e.msg().contains("cannot find function: nope")));
}

#[test]
fn t_call_wrong_arity() {
    let mut ctx = Context::new();
    let (_, insts) = Construct::many_instructions("func id(x: int) -> int { x }").unwrap();
    for inst in insts {
        inst.execute(&mut ctx);
    }

    let call = Construct::instruction("id(1, 2)").unwrap().1;
    assert!(call.execute(&mut ctx).is_none());
    assert!(ctx
        .error_handler
        .errors()
        .iter()
        .any(|e| e
            .msg()
            .contains("wrong number of arguments for call to id: expected 1, got 2")));
}

#[test]
fn t_call_parameters_bound_positionally() {
    let mut ctx = Context::new();
    let (_, insts) =
        Construct::many_instructions("func second(a: int, b: int) -> int { b }").unwrap();
    for inst in insts {
        inst.execute(&mut ctx);
    }

    let call = Construct::instruction("second(10, 20)").unwrap().1;
    let res = call.execute(&mut ctx).unwrap();
    assert_eq!(res, JkInt::from(20).to_instance());
}
