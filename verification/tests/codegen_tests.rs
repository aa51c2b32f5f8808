use toylang::ast::Program;
use toylang::codegen::lower_program;
use toylang::error::CompileError;
use toylang::ir::{
    Block, Inst, IrFunction, IrModule, Operand, ParamKind, SlotKind, Terminator, WordOp,
};
use toylang::lexer::lex;
use toylang::parser::Parser;
use toylang::signature::{analyze_function_types, Signature};

fn program_of(src: &str) -> Program {
    Parser::new(lex(src).unwrap()).parse_program().unwrap()
}

fn lower_text(src: &str) -> Result<IrModule, CompileError> {
    lower_program(&program_of(src))
}

fn codegen_error(src: &str) -> String {
    match lower_text(src) {
        Err(CompileError::Codegen(m)) => m,
        other => panic!("expected a codegen error, got {:?}", other),
    }
}

fn entry_of(src: &str) -> IrFunction {
    let mut m = lower_text(src).unwrap();
    let f = m.functions.pop().unwrap();
    assert_eq!(f.name, "main");
    f
}

fn signatures_of(src: &str) -> Vec<Signature> {
    analyze_function_types(&program_of(src)).unwrap()
}

fn slot(i: usize) -> Operand {
    Operand::Slot(i)
}

fn reg(i: usize) -> Operand {
    Operand::Reg(i)
}

fn word(c: i64) -> Operand {
    Operand::Const(c)
}

#[test]
fn arithmetic_on_constants_folds() {
    let f = entry_of("var x = 2 + 3 * 4; print x;");
    assert_eq!(
        f,
        IrFunction {
            name: "main".to_string(),
            params: vec![],
            returns_array: false,
            locals: vec![SlotKind::Word],
            blocks: vec![Block {
                insts: vec![
                    Inst::Store { addr: slot(0), value: word(14) },
                    Inst::Load { addr: slot(0) },
                    Inst::PrintWord { value: reg(1) },
                ],
                term: Some(Terminator::Return(word(0))),
            }],
        }
    );
}

#[test]
fn empty_program_returns_zero() {
    let m = lower_text("").unwrap();
    assert_eq!(
        m,
        IrModule {
            functions: vec![IrFunction {
                name: "main".to_string(),
                params: vec![],
                returns_array: false,
                locals: vec![],
                blocks: vec![Block { insts: vec![], term: Some(Terminator::Return(word(0))) }],
            }],
        }
    );
}

#[test]
fn folding_wraps_and_rounds_toward_zero() {
    let value_of = |src: &str| -> Operand {
        let f = entry_of(src);
        match f.blocks[0].term {
            Some(Terminator::Return(v)) => v,
            other => panic!("expected a return, got {:?}", other),
        }
    };
    assert_eq!(value_of("return 2147483647 + 1;"), word(2147483648));
    assert_eq!(value_of("return 9223372036854775807 + 1;"), word(i64::MIN));
    assert_eq!(value_of("return 0 - 9223372036854775807 - 2;"), word(i64::MAX));
    assert_eq!(value_of("return 65536 * 65536;"), word(4294967296));
    assert_eq!(value_of("return 4294967296 * 4294967296;"), word(0));
    assert_eq!(value_of("return 4294967297 * 4294967297;"), word(8589934593));
    assert_eq!(value_of("return 4294967297;"), word(4294967297));
    assert_eq!(value_of("return (0 - 9223372036854775807 - 1) / 1;"), word(i64::MIN));
    assert_eq!(value_of("return (0 - 9223372036854775807 - 1) / 2;"), word(-4611686018427387904));
    assert_eq!(value_of("return (0 - 9223372036854775807 - 1) % 10;"), word(-8));
    assert_eq!(value_of("return 9223372036854775807 / -1;"), word(-9223372036854775807));
    assert_eq!(value_of("return 7 / 2;"), word(3));
    assert_eq!(value_of("return -7 / 2;"), word(-3));
    assert_eq!(value_of("return 7 / -2;"), word(-3));
    assert_eq!(value_of("return -7 / -2;"), word(3));
    assert_eq!(value_of("return 7 % 2;"), word(1));
    assert_eq!(value_of("return -7 % 2;"), word(-1));
    assert_eq!(value_of("return 7 % -2;"), word(1));
    assert_eq!(value_of("return -7 % -2;"), word(-1));
    assert_eq!(value_of("return 1 < 2;"), word(1));
    assert_eq!(value_of("return 2 <= 1;"), word(0));
    assert_eq!(value_of("return 2 > 1;"), word(1));
    assert_eq!(value_of("return 1 >= 2;"), word(0));
    assert_eq!(value_of("return 3 == 3;"), word(1));
    assert_eq!(value_of("return 3 != 3;"), word(0));
    assert_eq!(value_of("return true;"), word(1));
    assert_eq!(value_of("return false;"), word(0));
    assert_eq!(value_of("return -5;"), word(-5));
    assert_eq!(value_of("return +5;"), word(5));
    assert_eq!(value_of("return -(0 - 9223372036854775807 - 1);"), word(i64::MIN));
}

#[test]
fn division_by_constant_zero_is_left_to_run_time() {
    let f = entry_of("return 1 / 0;");
    assert_eq!(
        f.blocks[0],
        Block {
            insts: vec![Inst::Binary { op: WordOp::Div, lhs: word(1), rhs: word(0) }],
            term: Some(Terminator::Return(reg(0))),
        }
    );
    let f = entry_of("return 1 % 0;");
    assert_eq!(
        f.blocks[0].insts,
        vec![Inst::Binary { op: WordOp::Rem, lhs: word(1), rhs: word(0) }]
    );
    let f = entry_of("return (0 - 9223372036854775807 - 1) / -1;");
    assert_eq!(
        f.blocks[0].insts,
        vec![Inst::Binary { op: WordOp::Div, lhs: word(i64::MIN), rhs: word(-1) }]
    );
}

#[test]
fn variables_are_loaded_and_stored() {
    let f = entry_of("var x = 1; var y = x + 2; x = y * x; return x;");
    assert_eq!(f.locals, vec![SlotKind::Word, SlotKind::Word]);
    assert_eq!(
        f.blocks,
        vec![Block {
            insts: vec![
                Inst::Store { addr: slot(0), value: word(1) },
                Inst::Load { addr: slot(0) },
                Inst::Binary { op: WordOp::Add, lhs: reg(1), rhs: word(2) },
                Inst::Store { addr: slot(1), value: reg(2) },
                Inst::Load { addr: slot(1) },
                Inst::Load { addr: slot(0) },
                Inst::Binary { op: WordOp::Mul, lhs: reg(4), rhs: reg(5) },
                Inst::Store { addr: slot(0), value: reg(6) },
                Inst::Load { addr: slot(0) },
            ],
            term: Some(Terminator::Return(reg(8))),
        }]
    );
}

#[test]
fn negation_of_a_variable_subtracts_from_zero() {
    let f = entry_of("var x = 1; return -x;");
    assert_eq!(
        f.blocks[0].insts[2],
        Inst::Binary { op: WordOp::Sub, lhs: word(0), rhs: reg(1) }
    );
}

#[test]
fn array_literal_is_stored_element_by_element() {
    let f = entry_of("let a = [1,2,3]; print a[1]; print length(a);");
    assert_eq!(f.locals, vec![SlotKind::Array(3), SlotKind::Pointer]);
    assert_eq!(
        f.blocks,
        vec![Block {
            insts: vec![
                Inst::Element { base: slot(0), index: word(0) },
                Inst::Store { addr: reg(0), value: word(1) },
                Inst::Element { base: slot(0), index: word(1) },
                Inst::Store { addr: reg(2), value: word(2) },
                Inst::Element { base: slot(0), index: word(2) },
                Inst::Store { addr: reg(4), value: word(3) },
                Inst::StorePtr { addr: slot(1), value: slot(0) },
                Inst::LoadPtr { addr: slot(1) },
                Inst::Element { base: reg(7), index: word(1) },
                Inst::Load { addr: reg(8) },
                Inst::PrintWord { value: reg(9) },
                Inst::PrintWord { value: word(3) },
            ],
            term: Some(Terminator::Return(word(0))),
        }]
    );
}

#[test]
fn var_and_let_build_arrays_alike() {
    let with_let = entry_of("let a = [1,2]; print a[0];");
    let with_var = entry_of("var a = [1,2]; print a[0];");
    assert_eq!(with_let, with_var);
}

#[test]
fn constant_index_is_checked_against_the_length() {
    assert!(lower_text("let a = [1,2]; print a[1];").is_ok());
    assert!(lower_text("let a = [1,2]; print a[0];").is_ok());
    assert_eq!(
        codegen_error("let a = [1,2]; print a[2];"),
        "Index 2 out of bounds for array a of size 2"
    );
    assert_eq!(
        codegen_error("let a = [1,2]; print a[0 - 1];"),
        "Index -1 out of bounds for array a of size 2"
    );
    assert_eq!(
        codegen_error("let a = []; print a[0];"),
        "Index 0 out of bounds for array a of size 0"
    );
    assert_eq!(
        codegen_error("let a = [1,2]; print a[4294967296];"),
        "Index 4294967296 out of bounds for array a of size 2"
    );
}

#[test]
fn index_may_be_any_constant_expression() {
    assert!(lower_text("let a = [1,2,3]; print a[1 + 1];").is_ok());
    assert!(lower_text("let a = [1,2,3]; print a[length(a) - 1];").is_ok());
    assert!(lower_text("let a = [1,2,3]; print a[true];").is_ok());
    assert_eq!(
        codegen_error("let a = [1,2,3]; print a[length(a)];"),
        "Index 3 out of bounds for array a of size 3"
    );
}

#[test]
fn index_must_be_constant() {
    assert_eq!(
        codegen_error("let a=[1,2,3]; var i = 1; print a[i];"),
        "Index must be a constant or resolvable integer"
    );
    assert_eq!(
        codegen_error("let a=[1,2,3]; print a[1 / 0];"),
        "Index must be a constant or resolvable integer"
    );
    assert_eq!(
        codegen_error("fn f() { return 0; } let a=[1,2,3]; print a[f()];"),
        "Index must be a constant or resolvable integer"
    );
}

#[test]
fn indexing_needs_an_array_variable() {
    assert_eq!(codegen_error("print a[0];"), "undefined array a");
    assert_eq!(codegen_error("var a = 1; print a[0];"), "undefined array a");
    assert_eq!(codegen_error("var a = 1; print a[b];"), "undefined var b");
    assert_eq!(codegen_error("print length(a);"), "undefined array a");
    assert_eq!(codegen_error("var a = 1; print length(a);"), "undefined array a");
    assert_eq!(codegen_error("print length([1,2]);"), "Length must be called on a variable");
    assert_eq!(codegen_error("a[0] = 1;"), "undefined array a");
    assert_eq!(codegen_error("var a = 1; a[0] = 1;"), "undefined array a");
}

#[test]
fn indexed_assignment_takes_any_index_unchecked() {
    let f = entry_of("let a = [1]; var i = 5; a[i] = 7; a[9] = 8;");
    let insts = &f.blocks[0].insts;
    assert_eq!(
        insts[4..],
        [
            Inst::LoadPtr { addr: slot(1) },
            Inst::Load { addr: slot(2) },
            Inst::Element { base: reg(4), index: reg(5) },
            Inst::Store { addr: reg(6), value: word(7) },
            Inst::LoadPtr { addr: slot(1) },
            Inst::Element { base: reg(8), index: word(9) },
            Inst::Store { addr: reg(9), value: word(8) },
        ]
    );
}

#[test]
fn let_aliases_an_array_variable() {
    let f = entry_of("let a = [4,5]; let b = a; print b[1]; print length(b);");
    assert_eq!(f.locals, vec![SlotKind::Array(2), SlotKind::Pointer, SlotKind::Pointer]);
    let insts = &f.blocks[0].insts;
    assert_eq!(
        insts[5..],
        [
            Inst::LoadPtr { addr: slot(1) },
            Inst::StorePtr { addr: slot(2), value: reg(5) },
            Inst::LoadPtr { addr: slot(2) },
            Inst::Element { base: reg(7), index: word(1) },
            Inst::Load { addr: reg(8) },
            Inst::PrintWord { value: reg(9) },
            Inst::PrintWord { value: word(2) },
        ]
    );
}

#[test]
fn var_of_an_array_variable_holds_its_address_as_a_word() {
    let f = entry_of("let a = [4,5]; var b = a;");
    assert_eq!(f.locals, vec![SlotKind::Array(2), SlotKind::Pointer, SlotKind::Word]);
    assert_eq!(
        f.blocks[0].insts[5..],
        [
            Inst::LoadPtr { addr: slot(1) },
            Inst::PtrToWord { value: reg(5) },
            Inst::Store { addr: slot(2), value: reg(6) },
        ]
    );
    assert_eq!(codegen_error("let a = [4,5]; var b = a; print b[0];"), "undefined array b");
}

#[test]
fn assigning_an_array_literal_rebinds_the_name() {
    let f = entry_of("var a = 1; a = [7,8,9]; print length(a); print a[2];");
    assert_eq!(f.locals, vec![SlotKind::Word, SlotKind::Array(3), SlotKind::Pointer]);
    assert!(f.blocks[0].insts.contains(&Inst::PrintWord { value: word(3) }));
}

#[test]
fn assignment_needs_a_declared_variable() {
    assert_eq!(codegen_error("x = 1;"), "undefined variable x");
    assert_eq!(codegen_error("x = [1];"), "undefined variable x");
    assert_eq!(codegen_error("print x;"), "undefined var x");
    assert_eq!(codegen_error("var x = x;"), "undefined var x");
}

#[test]
fn string_literal_prints_as_text() {
    let f = entry_of("print \"hello\";");
    assert_eq!(f.blocks[0].insts, vec![Inst::PrintText { text: "hello".to_string() }]);
    assert_eq!(codegen_error("var s = \"hello\";"), "string literal used as a value");
    assert_eq!(codegen_error("print \"a\" + 1;"), "string literal used as a value");
}

#[test]
fn if_branches_rejoin_at_the_merge_block() {
    let f = entry_of("var x = 1; if (x) { x = 2; } else { x = 3; } print x;");
    assert_eq!(
        f.blocks,
        vec![
            Block {
                insts: vec![
                    Inst::Store { addr: slot(0), value: word(1) },
                    Inst::Load { addr: slot(0) },
                ],
                term: Some(Terminator::Branch { cond: reg(1), if_true: 1, if_false: 2 }),
            },
            Block {
                insts: vec![Inst::Store { addr: slot(0), value: word(2) }],
                term: Some(Terminator::Jump(3)),
            },
            Block {
                insts: vec![Inst::Store { addr: slot(0), value: word(3) }],
                term: Some(Terminator::Jump(3)),
            },
            Block {
                insts: vec![Inst::Load { addr: slot(0) }, Inst::PrintWord { value: reg(0) }],
                term: Some(Terminator::Return(word(0))),
            },
        ]
    );
}

#[test]
fn if_without_else_has_an_empty_else_block() {
    let f = entry_of("var x = 1; if (x) { print 1; }");
    assert_eq!(f.blocks.len(), 4);
    assert_eq!(f.blocks[2], Block { insts: vec![], term: Some(Terminator::Jump(3)) });
}

#[test]
fn branch_that_returns_does_not_fall_through() {
    let m = lower_text("fn abs(n) { if (n < 0) { return 0 - n; } return n; } print abs(0 - 5);")
        .unwrap();
    let abs = &m.functions[0];
    assert_eq!(abs.name, "abs");
    assert_eq!(abs.params, vec![ParamKind::Word]);
    assert!(!abs.returns_array);
    assert_eq!(
        abs.blocks,
        vec![
            Block {
                insts: vec![
                    Inst::Store { addr: slot(0), value: Operand::Param(0) },
                    Inst::Load { addr: slot(0) },
                    Inst::Binary { op: WordOp::Lt, lhs: reg(1), rhs: word(0) },
                ],
                term: Some(Terminator::Branch { cond: reg(2), if_true: 1, if_false: 2 }),
            },
            Block {
                insts: vec![
                    Inst::Load { addr: slot(0) },
                    Inst::Binary { op: WordOp::Sub, lhs: word(0), rhs: reg(0) },
                ],
                term: Some(Terminator::Return(reg(1))),
            },
            Block { insts: vec![], term: Some(Terminator::Jump(3)) },
            Block {
                insts: vec![Inst::Load { addr: slot(0) }],
                term: Some(Terminator::Return(reg(0))),
            },
        ]
    );
    let main = &m.functions[1];
    assert_eq!(
        main.blocks[0].insts,
        vec![
            Inst::Call { callee: 0, args: vec![word(-5)], returns_array: false },
            Inst::PrintWord { value: reg(0) },
        ]
    );
}

#[test]
fn code_after_a_return_is_checked_but_not_emitted() {
    let f = entry_of("return 1; print 2; return 3;");
    assert_eq!(f.blocks, vec![Block { insts: vec![], term: Some(Terminator::Return(word(1))) }]);
    assert_eq!(codegen_error("return 1; print y;"), "undefined var y");
}

#[test]
fn while_loop_jumps_back_to_its_condition() {
    let f = entry_of("var i = 0; while (i < 3) { i = i + 1; } return i;");
    assert_eq!(
        f.blocks,
        vec![
            Block {
                insts: vec![Inst::Store { addr: slot(0), value: word(0) }],
                term: Some(Terminator::Jump(1)),
            },
            Block {
                insts: vec![
                    Inst::Load { addr: slot(0) },
                    Inst::Binary { op: WordOp::Lt, lhs: reg(0), rhs: word(3) },
                ],
                term: Some(Terminator::Branch { cond: reg(1), if_true: 3, if_false: 2 }),
            },
            Block {
                insts: vec![Inst::Load { addr: slot(0) }],
                term: Some(Terminator::Return(reg(0))),
            },
            Block {
                insts: vec![
                    Inst::Load { addr: slot(0) },
                    Inst::Binary { op: WordOp::Add, lhs: reg(0), rhs: word(1) },
                    Inst::Store { addr: slot(0), value: reg(1) },
                ],
                term: Some(Terminator::Jump(1)),
            },
        ]
    );
}

#[test]
fn loop_body_that_returns_does_not_jump_back() {
    let f = entry_of("while (1) { return 7; }");
    assert_eq!(f.blocks[3], Block { insts: vec![], term: Some(Terminator::Return(word(7))) });
    assert_eq!(f.blocks[2], Block { insts: vec![], term: Some(Terminator::Return(word(0))) });
}

#[test]
fn every_block_of_a_compiled_program_is_sealed() {
    let m = lower_text(
        "fn f(a, n) { while (n) { if (a) { return 1; } else { n = n - 1; } } }
         fn g() { return [1]; }
         var x = f(1, 2); if (x) { if (x) { return 2; } } while (x) { x = x - 1; }",
    )
    .unwrap();
    for f in &m.functions {
        for b in &f.blocks {
            assert!(b.term.is_some());
        }
    }
}

#[test]
fn array_parameter_is_a_pointer_and_a_length() {
    let m = lower_text("fn f(x, n) { return length(x) + n; } print f([1,2,3], 4);").unwrap();
    let f = &m.functions[0];
    assert_eq!(f.params, vec![ParamKind::Pointer, ParamKind::Word, ParamKind::Word]);
    assert_eq!(f.locals, vec![SlotKind::Pointer, SlotKind::Word, SlotKind::Word]);
    assert_eq!(
        f.blocks[0].insts,
        vec![
            Inst::StorePtr { addr: slot(0), value: Operand::Param(0) },
            Inst::Store { addr: slot(1), value: Operand::Param(1) },
            Inst::Store { addr: slot(2), value: Operand::Param(2) },
            Inst::Load { addr: slot(1) },
            Inst::Load { addr: slot(2) },
            Inst::Binary { op: WordOp::Add, lhs: reg(3), rhs: reg(4) },
        ]
    );
    assert_eq!(f.blocks[0].term, Some(Terminator::Return(reg(5))));
    let main = &m.functions[1];
    assert_eq!(main.locals, vec![SlotKind::Array(3)]);
    assert_eq!(
        main.blocks[0].insts[6..],
        [
            Inst::Call { callee: 0, args: vec![slot(0), word(3), word(4)], returns_array: false },
            Inst::PrintWord { value: reg(6) },
        ]
    );
}

#[test]
fn array_variable_is_passed_with_its_tracked_length() {
    let m = lower_text("fn f(x) { return length(x); } let a = [1,2]; print f(a);").unwrap();
    let main = &m.functions[1];
    assert_eq!(
        main.blocks[0].insts[5..],
        [
            Inst::LoadPtr { addr: slot(1) },
            Inst::Call { callee: 0, args: vec![reg(5), word(2)], returns_array: false },
            Inst::PrintWord { value: reg(6) },
        ]
    );
}

#[test]
fn scalar_for_an_array_parameter_is_a_calling_convention_error() {
    assert_eq!(signatures_of("fn f(x) { return length(x); } f([1,2,3]);")[0].params, vec![true]);
    assert_eq!(
        codegen_error("fn f(x) { return length(x); } f([1,2,3]); f(5);"),
        "Expected array argument for parameter 0 of f"
    );
    assert_eq!(
        codegen_error("fn f(a, x) { return length(x); } var n = 1; f(1, n);"),
        "Expected array argument for parameter 1 of f"
    );
    assert_eq!(
        codegen_error("fn f(x) { return length(x); } f(1 + 2);"),
        "Expected array argument for parameter 0 of f"
    );
}

#[test]
fn array_parameter_of_unknown_length_cannot_be_indexed_or_passed() {
    assert_eq!(codegen_error("fn f(x) { return x[0]; } f([1]);"), "undefined array x");
    assert_eq!(
        codegen_error("fn g(y) { return length(y); } fn f(x) { return g(x) + length(x); }"),
        "Expected array argument for parameter 0 of g"
    );
    assert!(lower_text("fn f(x) { x[0] = 1; return length(x); } f([1]);").is_ok());
}

#[test]
fn unknown_function_is_named() {
    assert_eq!(codegen_error("print f(1);"), "unknown fn f");
    assert_eq!(codegen_error("fn g() { return h(); } fn h() { return 1; }"), "unknown fn h");
    assert_eq!(codegen_error("x = printf(1);"), "undefined variable x");
    assert_eq!(codegen_error("print printf(1);"), "unknown fn printf");
    assert_eq!(codegen_error("print main();"), "unknown fn main");
}

#[test]
fn function_may_call_itself_and_earlier_functions() {
    let m = lower_text(
        "fn one() { return 1; } fn down(n) { if (n) { return down(n - one()); } return 0; }",
    )
    .unwrap();
    let down = &m.functions[1];
    assert!(down.blocks[1].insts.contains(&Inst::Call {
        callee: 0,
        args: vec![],
        returns_array: false
    }));
    assert!(down
        .blocks
        .iter()
        .any(|b| b.insts.iter().any(|i| matches!(i, Inst::Call { callee: 1, .. }))));
}

#[test]
fn wrong_number_of_arguments() {
    assert_eq!(
        codegen_error("fn f(a) { return a; } print f(1, 2);"),
        "Too many arguments for function f"
    );
    assert_eq!(
        codegen_error("fn f(a, b) { return a; } print f(1);"),
        "Too few arguments for function f"
    );
    assert_eq!(
        codegen_error("fn f() { return f(f(1)); }"),
        "Too many arguments for function f"
    );
}

#[test]
fn function_that_returns_an_array() {
    let m = lower_text("fn mk() { return [1,2]; } var a = [0,0]; a = mk(); print a[1];").unwrap();
    let mk = &m.functions[0];
    assert!(mk.returns_array);
    assert_eq!(mk.locals, vec![SlotKind::Array(2)]);
    assert_eq!(mk.blocks[0].term, Some(Terminator::Return(slot(0))));
    let main = &m.functions[1];
    assert_eq!(
        main.blocks[0].insts[5..],
        [
            Inst::Call { callee: 0, args: vec![], returns_array: true },
            Inst::PtrToWord { value: reg(5) },
            Inst::WordToPtr { value: reg(6) },
            Inst::StorePtr { addr: slot(2), value: reg(7) },
            Inst::LoadPtr { addr: slot(2) },
            Inst::Element { base: reg(9), index: word(1) },
            Inst::Load { addr: reg(10) },
            Inst::PrintWord { value: reg(11) },
        ]
    );
    assert_eq!(
        codegen_error("fn mk() { return [1,2]; } var a = 0; a = mk();"),
        "Array size not found for a"
    );
}

#[test]
fn array_function_without_a_return_gives_an_empty_array() {
    let m = lower_text("fn mk(c) { if (c) { return [1]; } }").unwrap();
    let mk = &m.functions[0];
    assert!(mk.returns_array);
    assert_eq!(
        mk.locals,
        vec![SlotKind::Word, SlotKind::Array(1), SlotKind::Array(0)]
    );
    assert_eq!(mk.blocks[3].term, Some(Terminator::Return(slot(2))));
}

#[test]
fn array_function_returning_a_word_converts_it() {
    let m = lower_text("fn mk(c) { if (c) { return [1]; } return c; }").unwrap();
    let mk = &m.functions[0];
    assert_eq!(
        mk.blocks[3],
        Block {
            insts: vec![Inst::Load { addr: slot(0) }, Inst::WordToPtr { value: reg(0) }],
            term: Some(Terminator::Return(reg(1))),
        }
    );
}

#[test]
fn returns_array_is_inferred_from_any_return() {
    let sigs = signatures_of(
        "fn a() { return [1]; } fn b() { return 1; } fn c(x) { while (x) { if (x) { } else { return []; } } } fn d() { }",
    );
    let flags: Vec<bool> = sigs.iter().map(|s| s.returns_array).collect();
    assert_eq!(flags, vec![true, false, true, false]);
}

#[test]
fn parameter_is_an_array_where_a_call_passes_one() {
    let sigs = signatures_of("fn f(a, b, c) { return 0; } let v = [1]; var w = 2; f(1, v, w); f(w, 2, [3]);");
    assert_eq!(sigs[0].params, vec![false, true, true]);
    let sigs = signatures_of("fn f(a) { return 0; } fn g() { return f([1]); }");
    assert_eq!(sigs[0].params, vec![true]);
    let sigs = signatures_of("fn f(a) { return 0; } print 1 + f(f([1]));");
    assert_eq!(sigs[0].params, vec![true]);
    let sigs = signatures_of("fn f(a) { return 0; } var v = [1]; var v = 2; f(v);");
    assert_eq!(sigs[0].params, vec![false]);
    let sigs = signatures_of("fn f(a) { return 0; } var v = 1; v = [2]; f(v);");
    assert_eq!(sigs[0].params, vec![true]);
    let sigs = signatures_of("fn f(a) { return 0; } let v = [1]; let w = v; var u = v; f(w); ");
    assert_eq!(sigs[0].params, vec![true]);
    let sigs = signatures_of("fn f(a) { return 0; } let v = [1]; var u = v; f(u); ");
    assert_eq!(sigs[0].params, vec![false]);
}

#[test]
fn parameter_is_an_array_where_the_body_takes_its_length() {
    let sigs = signatures_of("fn f(a, b) { if (length(b) > 0) { return 1; } return 0; }");
    assert_eq!(sigs[0].params, vec![false, true]);
    let sigs = signatures_of("fn f(a) { return 0; } fn g(a) { return length(a); }");
    assert_eq!(sigs[0].params, vec![false]);
    assert_eq!(sigs[1].params, vec![true]);
}

#[test]
fn array_parameters_of_earlier_functions_are_known_in_their_bodies() {
    let sigs = signatures_of(
        "fn first(x) { return length(x); } fn second(y) { return 0; } fn third(z) { return second(z) + length(z); }",
    );
    assert_eq!(sigs[0].params, vec![true]);
    assert_eq!(sigs[1].params, vec![false]);
    let sigs = signatures_of(
        "fn third(z) { return length(z); } fn user(q) { return second(q) + length(q); } fn second(y) { return 0; }",
    );
    assert_eq!(sigs[2].params, vec![true]);
}

#[test]
fn never_observed_array_parameter_is_inferred_scalar() {
    let sigs = signatures_of("fn f(a) { return a[0]; }");
    assert_eq!(sigs[0].params, vec![false]);
}

#[test]
fn analysis_rejects_too_many_arguments() {
    let p = program_of("fn f(a) { return 0; } fn g() { return f(1, 2); }");
    assert_eq!(
        analyze_function_types(&p),
        Err(CompileError::Codegen("Too many arguments for function f".to_string()))
    );
}

#[test]
fn one_signature_for_each_declaration() {
    assert!(signatures_of("print 1;").is_empty());
    let sigs = signatures_of("fn f(a) { } fn f(a, b) { return [1]; } f([1]);");
    assert_eq!(sigs.len(), 2);
    assert_eq!(sigs[0], Signature { params: vec![true], returns_array: false });
    assert_eq!(sigs[1], Signature { params: vec![true, false], returns_array: true });
}

#[test]
fn call_reaches_the_last_declaration_of_a_name() {
    let m = lower_text("fn f() { return 1; } fn f() { return 2; } print f();").unwrap();
    assert_eq!(
        m.functions[2].blocks[0].insts[0],
        Inst::Call { callee: 1, args: vec![], returns_array: false }
    );
}

#[test]
fn nested_array_literal_is_a_word_element() {
    let f = entry_of("let a = [[1], 2];");
    assert_eq!(f.locals, vec![SlotKind::Array(2), SlotKind::Array(1), SlotKind::Pointer]);
    assert_eq!(
        f.blocks[0].insts,
        vec![
            Inst::Element { base: slot(1), index: word(0) },
            Inst::Store { addr: reg(0), value: word(1) },
            Inst::PtrToWord { value: slot(1) },
            Inst::Element { base: slot(0), index: word(0) },
            Inst::Store { addr: reg(3), value: reg(2) },
            Inst::Element { base: slot(0), index: word(1) },
            Inst::Store { addr: reg(5), value: word(2) },
            Inst::StorePtr { addr: slot(2), value: slot(0) },
        ]
    );
}

#[test]
fn first_error_wins() {
    assert_eq!(codegen_error("print a; print b;"), "undefined var a");
    assert_eq!(codegen_error("fn f() { return zz; } print a;"), "undefined var zz");
    assert_eq!(codegen_error("print f(a, b);"), "unknown fn f");
    assert_eq!(codegen_error("fn f(a, b) { } print f(q, r);"), "undefined var q");
}
