//! Field access behaviour: valid accesses, accesses on statements, unknown
//! fields, and fields on primitives.

use jinko::{Construct, Context, JkInt};

fn setup() -> Context {
    let mut ctx = Context::new();
    let (_, insts) = Construct::many_instructions(
        "type Point(x: int, y: int); func basic() -> Point { Point { x = 15, y = 14 }}; b = basic();",
    )
    .unwrap();
    for inst in insts {
        inst.execute(&mut ctx);
    }
    ctx
}

#[test]
fn t_valid_field_access() {
    let mut ctx = setup();

    let inst = Construct::instruction("b.x").unwrap().1;
    let res = match inst.execute(&mut ctx) {
        Some(i) => i,
        None => return assert!(false, "Error when accessing valid field"),
    };

    let exp = JkInt::from(15).to_instance();

    assert_eq!(res, exp)
}

#[test]
fn t_valid_field_access_from_type_instantiation() {
    let mut ctx = setup();

    let inst = Construct::instruction("Point { x = 1, y = 2 }.x").unwrap().1;
    let res = match inst.execute(&mut ctx) {
        Some(i) => i,
        None => unreachable!("Error when accesing valid field"),
    };

    let exp = JkInt::from(1).to_instance();

    assert_eq!(res, exp)
}

#[test]
fn t_field_access_on_void() {
    let mut ctx = setup();

    let inst = Construct::instruction("func void() {}").unwrap().1;
    inst.execute(&mut ctx);

    let inst = Construct::instruction("void().field").unwrap().1;
    assert!(inst.execute(&mut ctx).is_none());
    assert!(ctx.error_handler.has_errors())
}

#[test]
fn t_field_access_unknown_field() {
    let mut ctx = setup();

    let inst = Construct::instruction("b.not_a_field").unwrap().1;
    assert!(inst.execute(&mut ctx).is_none());
    assert!(ctx.error_handler.has_errors());
}

#[test]
fn t_field_access_field_on_primitive() {
    let mut ctx = setup();

    let inst = Construct::instruction("i = 12").unwrap().1;
    inst.execute(&mut ctx);

    let inst = Construct::instruction("i.field_on_primitive").unwrap().1;
    assert!(inst.execute(&mut ctx).is_none());
    assert!(ctx.error_handler.has_errors())
}

#[test]
fn t_field_access_on_void_message() {
    let mut ctx = setup();

    let inst = Construct::instruction("func void() {}").unwrap().1;
    inst.execute(&mut ctx);

    let inst = Construct::instruction("void().field").unwrap().1;
    assert!(inst.execute(&mut ctx).is_none());
    let errors = ctx.error_handler.errors();
    assert!(errors
        .iter()
        .any(|e| e.msg().contains("instance void() is a statement and cannot be accessed")));
}

#[test]
fn t_field_access_unknown_field_message() {
    let mut ctx = setup();

    let inst = Construct::instruction("b.not_a_field").unwrap().1;
    assert!(inst.execute(&mut ctx).is_none());
    let errors = ctx.error_handler.errors();
    assert!(errors.iter().any(|e| e.msg().contains("field not found: not_a_field")));
}
