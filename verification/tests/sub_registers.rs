use cwe_checker_lib::{
    replace_sub_registers_in_block, BinOpType, Bitvector, ByteSize, CastOpType, CatalogError, Def,
    Expression, RegisterCatalog, RegisterDefect, RegisterProperties, UnOpType, Variable,
};

fn register(name: &str, base: &str, lsb: u64, size: u64) -> RegisterProperties {
    RegisterProperties {
        register: name.to_string(),
        base_register: base.to_string(),
        lsb: ByteSize::new(lsb),
        size: ByteSize::new(size),
    }
}

fn x86_catalog() -> RegisterCatalog {
    match RegisterCatalog::new(vec![
        register("EAX", "EAX", 0, 4),
        register("AX", "EAX", 0, 2),
        register("AL", "EAX", 0, 1),
        register("AH", "EAX", 1, 1),
        register("EBX", "EBX", 0, 4),
        register("BL", "EBX", 0, 1),
    ]) {
        Ok(catalog) => catalog,
        Err(error) => panic!("the register list is consistent, but: {:?}", error),
    }
}

fn variable(name: &str, size: u64) -> Variable {
    Variable { name: name.to_string(), size: ByteSize::new(size), is_temp: false }
}

fn var(name: &str, size: u64) -> Expression {
    Expression::Var(variable(name, size))
}

fn constant(value: u8) -> Expression {
    Expression::Const(Bitvector::from_u8(value))
}

fn subpiece(low_byte: u64, size: u64, arg: Expression) -> Expression {
    Expression::Subpiece {
        low_byte: ByteSize::new(low_byte),
        size: ByteSize::new(size),
        arg: Box::new(arg),
    }
}

fn piece(lhs: Expression, rhs: Expression) -> Expression {
    Expression::BinOp { op: BinOpType::Piece, lhs: Box::new(lhs), rhs: Box::new(rhs) }
}

fn zero_extension(size: u64, arg: Expression) -> Expression {
    Expression::Cast { op: CastOpType::IntZExt, size: ByteSize::new(size), arg: Box::new(arg) }
}

#[test]
fn write_to_low_sub_register_is_pieced_from_two_segments() {
    let catalog = x86_catalog();
    let mut output = variable("AL", 1);
    let mut value = constant(5);
    value.process_sub_registers_if_necessary(Some(&mut output), &catalog, None);
    assert_eq!(output, variable("EAX", 4));
    assert_eq!(value, piece(subpiece(1, 3, var("EAX", 4)), constant(5)));
    assert_eq!(value.bytesize(), ByteSize::new(4));
}

#[test]
fn write_followed_by_zero_extension_becomes_a_cast() {
    let catalog = x86_catalog();
    let next = Def::Assign { var: variable("EAX", 4), value: zero_extension(4, var("AL", 1)) };
    let mut output = variable("AL", 1);
    let mut value = constant(5);
    value.process_sub_registers_if_necessary(Some(&mut output), &catalog, Some(&next));
    assert_eq!(output, variable("EAX", 4));
    assert_eq!(value, zero_extension(4, constant(5)));
    assert_eq!(value.bytesize(), ByteSize::new(4));
}

#[test]
fn write_to_inner_sub_register_is_pieced_from_three_segments() {
    let catalog = x86_catalog();
    let mut output = variable("AH", 1);
    let mut value = constant(7);
    value.process_sub_registers_if_necessary(Some(&mut output), &catalog, None);
    assert_eq!(output, variable("EAX", 4));
    assert_eq!(
        value,
        piece(
            piece(subpiece(2, 2, var("EAX", 4)), constant(7)),
            subpiece(0, 1, var("EAX", 4)),
        )
    );
    assert_eq!(value.bytesize(), ByteSize::new(4));
}

#[test]
fn two_byte_sub_register_keeps_the_upper_half() {
    let catalog = x86_catalog();
    let mut output = variable("AX", 2);
    let mut value = var("BL", 1);
    value.process_sub_registers_if_necessary(Some(&mut output), &catalog, None);
    assert_eq!(output, variable("EAX", 4));
    assert_eq!(
        value,
        piece(subpiece(2, 2, var("EAX", 4)), subpiece(0, 1, var("EBX", 4)))
    );
}

#[test]
fn reads_of_sub_registers_become_extractions() {
    let catalog = x86_catalog();
    let mut output = variable("EBX", 4);
    let mut value = Expression::BinOp {
        op: BinOpType::IntAdd,
        lhs: Box::new(zero_extension(4, var("AH", 1))),
        rhs: Box::new(var("EAX", 4)),
    };
    value.process_sub_registers_if_necessary(Some(&mut output), &catalog, None);
    assert_eq!(output, variable("EBX", 4));
    assert_eq!(
        value,
        Expression::BinOp {
            op: BinOpType::IntAdd,
            lhs: Box::new(zero_extension(4, subpiece(1, 1, var("EAX", 4)))),
            rhs: Box::new(var("EAX", 4)),
        }
    );
}

#[test]
fn expression_without_output_is_only_rewritten_at_its_leaves() {
    let catalog = x86_catalog();
    let next = Def::Assign { var: variable("EAX", 4), value: zero_extension(4, var("AL", 1)) };
    let mut value = Expression::UnOp {
        op: UnOpType::IntNegate,
        arg: Box::new(var("AL", 1)),
    };
    value.process_sub_registers_if_necessary(None, &catalog, Some(&next));
    assert_eq!(
        value,
        Expression::UnOp {
            op: UnOpType::IntNegate,
            arg: Box::new(subpiece(0, 1, var("EAX", 4))),
        }
    );
}

#[test]
fn temporary_and_unlisted_variables_are_left_alone() {
    let catalog = x86_catalog();
    let temporary = Variable {
        name: "$U1200".to_string(),
        size: ByteSize::new(1),
        is_temp: true,
    };
    let mut output = temporary.clone();
    let mut value = piece(Expression::Var(temporary.clone()), var("ECX", 4));
    let expected = value.clone();
    value.process_sub_registers_if_necessary(Some(&mut output), &catalog, None);
    assert_eq!(output, temporary);
    assert_eq!(value, expected);
}

#[test]
fn zero_extension_of_another_register_does_not_count() {
    let catalog = x86_catalog();
    let next = Def::Assign { var: variable("EBX", 4), value: zero_extension(4, var("AL", 1)) };
    let mut output = variable("AL", 1);
    let mut value = constant(5);
    value.process_sub_registers_if_necessary(Some(&mut output), &catalog, Some(&next));
    assert_eq!(value, piece(subpiece(1, 3, var("EAX", 4)), constant(5)));
}

#[test]
fn zero_extension_of_a_compound_expression_does_not_count() {
    let catalog = x86_catalog();
    let next = Def::Assign {
        var: variable("EAX", 4),
        value: zero_extension(4, subpiece(0, 1, var("EAX", 4))),
    };
    let mut output = variable("AL", 1);
    let mut value = constant(5);
    value.process_sub_registers_if_necessary(Some(&mut output), &catalog, Some(&next));
    assert_eq!(value, piece(subpiece(1, 3, var("EAX", 4)), constant(5)));
}

#[test]
fn sign_extension_and_stores_do_not_count() {
    let catalog = x86_catalog();
    let sign_extension = Def::Assign {
        var: variable("EAX", 4),
        value: Expression::Cast {
            op: CastOpType::IntSExt,
            size: ByteSize::new(4),
            arg: Box::new(var("AL", 1)),
        },
    };
    let store = Def::Store { address: var("EBX", 4), value: zero_extension(4, var("AL", 1)) };
    let load = Def::Load { var: variable("EAX", 4), address: zero_extension(4, var("AL", 1)) };
    for next in [sign_extension, store, load] {
        let mut output = variable("AL", 1);
        let mut value = constant(5);
        value.process_sub_registers_if_necessary(Some(&mut output), &catalog, Some(&next));
        assert_eq!(value, piece(subpiece(1, 3, var("EAX", 4)), constant(5)));
    }
}

#[test]
fn catalog_finds_registers_by_name() {
    let catalog = x86_catalog();
    assert_eq!(catalog.get("AH"), Some(&register("AH", "EAX", 1, 1)));
    assert_eq!(catalog.get("EAX"), Some(&register("EAX", "EAX", 0, 4)));
    assert_eq!(catalog.get("RAX"), None);
}

#[test]
fn catalog_keeps_the_last_entry_of_a_name() {
    let catalog = match RegisterCatalog::new(vec![
        register("EAX", "EAX", 0, 2),
        register("AL", "EAX", 0, 1),
        register("EAX", "EAX", 0, 4),
    ]) {
        Ok(catalog) => catalog,
        Err(error) => panic!("unexpected {:?}", error),
    };
    assert_eq!(catalog.get("EAX"), Some(&register("EAX", "EAX", 0, 4)));
}

fn refusal(registers: Vec<RegisterProperties>) -> CatalogError {
    match RegisterCatalog::new(registers) {
        Ok(_) => panic!("the register list should be refused"),
        Err(error) => error,
    }
}

#[test]
fn catalog_refuses_a_missing_base_register() {
    let error = refusal(vec![register("EAX", "EAX", 0, 4), register("BL", "EBX", 0, 1)]);
    assert_eq!(
        error,
        CatalogError { register: "BL".to_string(), defect: RegisterDefect::MissingBaseRegister }
    );
}

#[test]
fn catalog_refuses_a_base_register_that_is_a_sub_register() {
    let error = refusal(vec![
        register("EAX", "EAX", 0, 4),
        register("AX", "EAX", 0, 2),
        register("AL", "AX", 0, 1),
    ]);
    assert_eq!(
        error,
        CatalogError { register: "AL".to_string(), defect: RegisterDefect::NestedBaseRegister }
    );
}

#[test]
fn catalog_refuses_a_register_outside_its_base_register() {
    let error = refusal(vec![register("EAX", "EAX", 0, 4), register("AH", "EAX", 3, 2)]);
    assert_eq!(
        error,
        CatalogError { register: "AH".to_string(), defect: RegisterDefect::OutOfBounds }
    );
    let error = refusal(vec![register("EAX", "EAX", 0, 4), register("AH", "EAX", u64::MAX, 2)]);
    assert_eq!(error.defect, RegisterDefect::OutOfBounds);
}

#[test]
fn catalog_names_the_first_defective_register() {
    let error = refusal(vec![
        register("AL", "EAX", 0, 8),
        register("EAX", "EAX", 0, 4),
        register("BL", "EBX", 0, 1),
    ]);
    assert_eq!(
        error,
        CatalogError { register: "AL".to_string(), defect: RegisterDefect::OutOfBounds }
    );
}

#[test]
fn empty_catalog_is_accepted() {
    let catalog = match RegisterCatalog::new(Vec::new()) {
        Ok(catalog) => catalog,
        Err(error) => panic!("unexpected {:?}", error),
    };
    assert_eq!(catalog.get("EAX"), None);
    let mut output = variable("AL", 1);
    let mut value = var("AL", 1);
    value.process_sub_registers_if_necessary(Some(&mut output), &catalog, None);
    assert_eq!(output, variable("AL", 1));
    assert_eq!(value, var("AL", 1));
}

#[test]
fn terms_of_each_kind_are_normalized() {
    let catalog = x86_catalog();
    let mut assign = Def::Assign { var: variable("AH", 1), value: var("BL", 1) };
    assign.replace_sub_registers(&catalog, None);
    assert_eq!(
        assign,
        Def::Assign {
            var: variable("EAX", 4),
            value: piece(
                piece(subpiece(2, 2, var("EAX", 4)), subpiece(0, 1, var("EBX", 4))),
                subpiece(0, 1, var("EAX", 4)),
            ),
        }
    );
    let mut load = Def::Load { var: variable("AL", 1), address: var("BL", 1) };
    load.replace_sub_registers(&catalog, None);
    assert_eq!(
        load,
        Def::Load { var: variable("AL", 1), address: subpiece(0, 1, var("EBX", 4)) }
    );
    let mut store = Def::Store { address: var("EBX", 4), value: var("AX", 2) };
    store.replace_sub_registers(&catalog, None);
    assert_eq!(
        store,
        Def::Store { address: var("EBX", 4), value: subpiece(0, 2, var("EAX", 4)) }
    );
}

#[test]
fn block_is_normalized_with_a_look_at_the_next_term() {
    let catalog = x86_catalog();
    let mut block = vec![
        Def::Assign { var: variable("AL", 1), value: constant(5) },
        Def::Assign { var: variable("EAX", 4), value: zero_extension(4, var("AL", 1)) },
        Def::Assign { var: variable("BL", 1), value: constant(7) },
        Def::Store { address: var("EAX", 4), value: var("BL", 1) },
        Def::Assign { var: variable("AH", 1), value: var("BL", 1) },
    ];
    replace_sub_registers_in_block(&mut block, &catalog);
    assert_eq!(
        block,
        vec![
            Def::Assign { var: variable("EAX", 4), value: zero_extension(4, constant(5)) },
            Def::Assign {
                var: variable("EAX", 4),
                value: zero_extension(4, subpiece(0, 1, var("EAX", 4))),
            },
            Def::Assign {
                var: variable("EBX", 4),
                value: piece(subpiece(1, 3, var("EBX", 4)), constant(7)),
            },
            Def::Store { address: var("EAX", 4), value: subpiece(0, 1, var("EBX", 4)) },
            Def::Assign {
                var: variable("EAX", 4),
                value: piece(
                    piece(subpiece(2, 2, var("EAX", 4)), subpiece(0, 1, var("EBX", 4))),
                    subpiece(0, 1, var("EAX", 4)),
                ),
            },
        ]
    );
}

#[test]
fn empty_block_stays_empty() {
    let catalog = x86_catalog();
    let mut block: Vec<Def> = Vec::new();
    replace_sub_registers_in_block(&mut block, &catalog);
    assert_eq!(block, Vec::new());
}

#[test]
fn normalized_values_can_be_simplified() {
    let catalog = x86_catalog();
    let mut output = variable("EAX", 4);
    let mut value = Expression::BinOp {
        op: BinOpType::IntXOr,
        lhs: Box::new(var("AL", 1)),
        rhs: Box::new(var("AL", 1)),
    };
    value.process_sub_registers_if_necessary(Some(&mut output), &catalog, None);
    assert!(value.try_substitute_trivial_operations());
    assert_eq!(value, Expression::Const(Bitvector::zero(ByteSize::new(1))));
}

#[test]
fn zero_extensions_of_variables_are_recognized() {
    assert!(zero_extension(4, var("AL", 1)).check_for_zero_extension());
    assert!(zero_extension(8, var("$U100", 4)).check_for_zero_extension());
    assert!(!zero_extension(4, subpiece(0, 1, var("EAX", 4))).check_for_zero_extension());
    assert!(!zero_extension(4, constant(1)).check_for_zero_extension());
    assert!(!var("AL", 1).check_for_zero_extension());
    for op in [CastOpType::IntSExt, CastOpType::Int2Float, CastOpType::Float2Float, CastOpType::Trunc] {
        let cast = Expression::Cast { op, size: ByteSize::new(4), arg: Box::new(var("AL", 1)) };
        assert!(!cast.check_for_zero_extension());
    }
}

#[test]
fn pieces_are_put_together_around_the_new_value() {
    let base = register("RAX", "RAX", 0, 8);
    let mut low = var("x", 4);
    low.piece_two_expressions_together(&base, &register("EAX", "RAX", 0, 4));
    assert_eq!(low, piece(subpiece(4, 4, var("RAX", 8)), var("x", 4)));
    assert_eq!(low.bytesize(), ByteSize::new(8));
    let mut inner = var("y", 2);
    inner.piece_two_expressions_together(&base, &register("W3", "RAX", 3, 2));
    assert_eq!(
        inner,
        piece(piece(subpiece(5, 3, var("RAX", 8)), var("y", 2)), subpiece(0, 3, var("RAX", 8)))
    );
    assert_eq!(inner.bytesize(), ByteSize::new(8));
    let mut top = var("z", 1);
    top.piece_two_expressions_together(&base, &register("TOP", "RAX", 7, 1));
    assert_eq!(
        top,
        piece(piece(subpiece(8, 0, var("RAX", 8)), var("z", 1)), subpiece(0, 7, var("RAX", 8)))
    );
    let mut whole = var("w", 8);
    whole.piece_two_expressions_together(&base, &register("ALL", "RAX", 0, 8));
    assert_eq!(whole, piece(subpiece(8, 0, var("RAX", 8)), var("w", 8)));
}
