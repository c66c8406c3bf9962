//! Type instantiation: arity checks, produced instances, and primitive
//! rejection.

use std::rc::Rc;

use jinko::{
    Constant, Construct, Context, DecArg, Instruction, TypeDec, TypeId, TypeInstantiation,
    VarAssign,
};

#[test]
fn t_fields_number() {
    let mut interpreter = Context::new();

    // Create a new type with two integer fields.
    let fields = vec![
        DecArg::new("a".to_owned(), TypeId::from("int")),
        DecArg::new("b".to_owned(), TypeId::from("int")),
    ];
    let t = TypeDec::new("Type_Test".to_owned(), fields);

    Instruction::TypeDec(Rc::new(t)).execute(&mut interpreter);

    let mut t_inst = TypeInstantiation::new(TypeId::from("Type_Test"));

    assert!(t_inst.execute(&mut interpreter).is_none());
    assert!(
        interpreter.error_handler.has_errors(),
        "Given 0 field to 2 fields type"
    );
    interpreter.clear_errors();

    t_inst.add_field(VarAssign::new(
        false,
        "a".to_string(),
        Box::new(Instruction::Constant(Constant::Int(12))),
    ));

    assert!(t_inst.execute(&mut interpreter).is_none());
    assert!(
        interpreter.error_handler.has_errors(),
        "Given 1 field to 2 fields type"
    );
    interpreter.clear_errors();

    t_inst.add_field(VarAssign::new(
        false,
        "b".to_string(),
        Box::new(Instruction::Constant(Constant::Int(8))),
    ));

    assert!(
        t_inst.execute(&mut interpreter).is_some(),
        "Type instantiation should have a correct number of fields now"
    );
    assert!(!interpreter.error_handler.has_errors());
}

#[test]
fn t_returned_instance() {
    const TYPE_NAME: &str = "Type_Name";

    let mut interpreter = Context::new();

    // Create a new type with a string field and an integer field.
    let fields = vec![
        DecArg::new("a".to_owned(), TypeId::from("string")),
        DecArg::new("b".to_owned(), TypeId::from("int")),
    ];
    let t = TypeDec::new(TYPE_NAME.to_owned(), fields);

    Instruction::TypeDec(Rc::new(t)).execute(&mut interpreter);

    let mut t_inst = TypeInstantiation::new(TypeId::new(TYPE_NAME.to_string()));
    t_inst.add_field(VarAssign::new(
        false,
        "a".to_string(),
        Box::new(Instruction::Constant(Constant::Str(
            "I am a loooooooong string".to_string(),
        ))),
    ));
    t_inst.add_field(VarAssign::new(
        false,
        "b".to_string(),
        Box::new(Instruction::Constant(Constant::Int(12))),
    ));

    let instance = match t_inst.execute(&mut interpreter) {
        Some(instance) => instance,
        None => {
            unreachable!("Type instantiation should have returned an Expression")
        }
    };

    assert!(
        instance.ty().unwrap().name() == TYPE_NAME,
        "Type name should be {}",
        TYPE_NAME
    );
    assert_eq!(
        instance.data()[..],
        [
            73, 32, 97, 109, 32, 97, 32, 108, 111, 111, 111, 111, 111, 111, 111, 111, 110, 103,
            32, 115, 116, 114, 105, 110, 103, 12, 0, 0, 0, 0, 0, 0, 0
        ]
    );
    assert_eq!(instance.size(), 33);

    assert_eq!(instance.fields().as_ref().unwrap().get("a"), Some((0, 25)));
    assert_eq!(instance.fields().as_ref().unwrap().get("b"), Some((25, 8)));
}

#[test]
fn t_instantiate_primitive() {
    let mut i = Context::new();

    let instr = Construct::instruction("i = int { no_field = 15 }").unwrap().1;

    assert!(instr.execute(&mut i).is_none());
    assert!(i.error_handler.has_errors());
}

#[test]
fn t_instantiate_primitive_message() {
    let mut i = Context::new();

    let instr = Construct::instruction("i = int { no_field = 15 }").unwrap().1;

    assert!(instr.execute(&mut i).is_none());
    assert!(i
        .error_handler
        .errors()
        .iter()
        .any(|e| e.msg().contains("cannot instantiate primitive type int")));
}

#[test]
fn t_instantiate_unknown_type() {
    let mut i = Context::new();

    let instr = Construct::instruction("Unknown { a = 1 }").unwrap().1;

    assert!(instr.execute(&mut i).is_none());
    assert!(i
        .error_handler
        .errors()
        .iter()
        .any(|e| e.msg().contains("Cannot find type Unknown")));
}
