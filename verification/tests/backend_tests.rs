use inkwell::context::Context;
use toylang::ast::Program;
use toylang::codegen::{lower_program, CodeGen};
use toylang::error::CompileError;
use toylang::ir::{Block, Inst, IrFunction, IrModule, Operand, ParamKind, SlotKind, Terminator};
use toylang::lexer::lex;
use toylang::parser::Parser;

fn parsed(src: &str) -> Program {
    Parser::new(lex(src).unwrap()).parse_program().unwrap()
}

/// Compiles a source text and gives the text of the backend's module,
/// after the backend's own verifier has accepted it.
fn backend_text(src: &str) -> String {
    let ctx = Context::create();
    let module = ctx.create_module("toy");
    let mut cg = CodeGen::new(&ctx, module);
    cg.compile_program(&parsed(src)).unwrap();
    if let Err(msg) = cg.module.verify() {
        panic!("the backend rejects the module: {}\n{}", msg, cg.module.print_to_string());
    }
    assert!(cg.entry().is_some());
    cg.module.print_to_string().to_string()
}

fn backend_error(module: IrModule) -> String {
    let ctx = Context::create();
    let target = ctx.create_module("toy");
    let mut cg = CodeGen::new(&ctx, target);
    match cg.emit(&module) {
        Err(CompileError::Codegen(m)) => m,
        other => panic!("expected a codegen error, got {:?}", other),
    }
}

fn one_function(locals: Vec<SlotKind>, insts: Vec<Inst>, term: Option<Terminator>) -> IrModule {
    IrModule {
        functions: vec![IrFunction {
            name: "f".to_string(),
            params: vec![ParamKind::Word, ParamKind::Pointer],
            returns_array: false,
            locals,
            blocks: vec![Block { insts, term }],
        }],
    }
}

#[test]
fn entry_routine_returns_zero_by_default() {
    let text = backend_text("var x = 2 + 3 * 4; print x;");
    assert!(text.contains("define i64 @main()"), "{}", text);
    assert!(text.contains("store i64 14"), "{}", text);
    assert!(text.contains("@printf"), "{}", text);
    assert!(text.contains("%lld\\0A\\00"), "{}", text);
    assert!(text.contains("ret i64 0"), "{}", text);
}

#[test]
fn printf_is_declared_variadic() {
    let text = backend_text("");
    assert!(text.contains("declare i32 @printf(i8*, ...)"), "{}", text);
    assert!(text.contains("define i64 @main()"), "{}", text);
}

#[test]
fn text_is_printed_with_the_text_format() {
    let text = backend_text("print \"hello\";");
    assert!(text.contains("hello\\00"), "{}", text);
    assert!(text.contains("%s\\0A\\00"), "{}", text);
}

#[test]
fn control_flow_builds_a_valid_module() {
    let text = backend_text(
        "fn abs(n) { if (n < 0) { return 0 - n; } return n; }
         var i = 0; var s = 0;
         while (i < 10) { if (i % 2 == 0) { s = s + abs(0 - i); } else { s = s - 1; } i = i + 1; }
         print s; return s;",
    );
    assert!(text.contains("define i64 @abs(i64"), "{}", text);
    assert!(text.contains("icmp slt i64"), "{}", text);
    assert!(text.contains("zext i1"), "{}", text);
    assert!(text.contains("br i1"), "{}", text);
    assert!(text.contains("srem i64"), "{}", text);
    assert!(text.contains("call i64 @abs(i64"), "{}", text);
}

#[test]
fn arrays_build_a_valid_module() {
    let text = backend_text(
        "fn total(xs, n) { return length(xs) + n; }
         fn make() { return [7, 8, 9]; }
         let a = [1, 2, 3]; let b = a; var c = [0, 0, 0];
         a[0] = 5; var i = 2; b[i] = 6;
         print a[1]; print length(b);
         c = make(); print c[2];
         print total(a, 1); print total([4, 5], 2);",
    );
    assert!(text.contains("define i64 @total(i64* %0, i64 %1, i64 %2)"), "{}", text);
    assert!(text.contains("define i64* @make()"), "{}", text);
    assert!(text.contains("alloca i64, i64 3"), "{}", text);
    assert!(text.contains("ptrtoint i64*"), "{}", text);
    assert!(text.contains("inttoptr"), "{}", text);
    assert!(text.contains("call i64* @make()"), "{}", text);
}

#[test]
fn code_after_return_leaves_a_valid_module() {
    let text = backend_text("fn f(n) { while (n) { return 1; n = n - 1; } return 2; print 3; } return f(1); print 4;");
    assert!(text.contains("define i64 @f(i64"), "{}", text);
}

#[test]
fn division_by_zero_is_left_to_the_backend() {
    let text = backend_text("var z = 0; print 1 / z; print 5 % z;");
    assert!(text.contains("sdiv i64 1"), "{}", text);
    assert!(text.contains("srem i64 5"), "{}", text);
}

#[test]
fn lowering_error_is_returned_unchanged() {
    let ctx = Context::create();
    let module = ctx.create_module("toy");
    let mut cg = CodeGen::new(&ctx, module);
    let prog = parsed("let a = [1,2]; print a[2];");
    let expected = lower_program(&prog).unwrap_err();
    assert_eq!(cg.compile_program(&prog), Err(expected));
    assert!(cg.entry().is_none());
    assert!(cg.module.get_function("main").is_none());
    assert_eq!(
        cg.compile_program(&parsed("print nowhere;")),
        Err(CompileError::Codegen("undefined var nowhere".to_string()))
    );
}

#[test]
fn entry_is_the_last_function_built() {
    let ctx = Context::create();
    let module = ctx.create_module("toy");
    let mut cg = CodeGen::new(&ctx, module);
    assert!(cg.entry().is_none());
    cg.compile_program(&parsed("fn f() { return 1; } return f();")).unwrap();
    let entry = cg.entry().unwrap();
    assert_eq!(entry.get_name().to_str().unwrap(), "main");
    assert_eq!(entry.count_params(), 0);
    assert_eq!(cg.module.get_function("f").unwrap().count_params(), 0);
}

#[test]
fn builder_error_becomes_a_codegen_error() {
    let ctx = Context::create();
    let builder = ctx.create_builder();
    let unset = builder.build_return(None).unwrap_err();
    let e = CompileError::from(unset);
    assert_eq!(e, CompileError::Codegen("LLVM builder error: UnsetPosition".to_string()));
}

#[test]
fn malformed_code_never_reaches_the_backend() {
    let ret = Some(Terminator::Return(Operand::Const(0)));
    assert_eq!(
        backend_error(one_function(vec![], vec![], None)),
        "malformed intermediate code: a block without terminator"
    );
    assert_eq!(
        backend_error(one_function(vec![], vec![Inst::Load { addr: Operand::Reg(0) }], ret)),
        "malformed intermediate code: no such instruction"
    );
    assert_eq!(
        backend_error(one_function(vec![], vec![Inst::Load { addr: Operand::Slot(0) }], ret)),
        "malformed intermediate code: no such stack slot"
    );
    assert_eq!(
        backend_error(one_function(vec![], vec![Inst::Load { addr: Operand::Param(2) }], ret)),
        "malformed intermediate code: no such parameter"
    );
    assert_eq!(
        backend_error(one_function(vec![], vec![Inst::Load { addr: Operand::Param(0) }], ret)),
        "malformed intermediate code: a pointer is expected"
    );
    assert_eq!(
        backend_error(one_function(
            vec![],
            vec![Inst::PrintWord { value: Operand::Param(1) }],
            ret
        )),
        "malformed intermediate code: a word is expected"
    );
    assert_eq!(
        backend_error(one_function(
            vec![SlotKind::Word],
            vec![Inst::LoadPtr { addr: Operand::Slot(0) }],
            ret
        )),
        "malformed intermediate code: the address of a pointer slot is expected"
    );
    assert_eq!(
        backend_error(one_function(
            vec![SlotKind::Word],
            vec![
                Inst::Store { addr: Operand::Slot(0), value: Operand::Const(1) },
                Inst::PrintWord { value: Operand::Reg(0) },
            ],
            ret
        )),
        "malformed intermediate code: the instruction yields no value"
    );
    assert_eq!(
        backend_error(one_function(vec![], vec![], Some(Terminator::Jump(1)))),
        "malformed intermediate code: no such block"
    );
    assert_eq!(
        backend_error(one_function(
            vec![],
            vec![Inst::Call { callee: 1, args: vec![], returns_array: false }],
            ret
        )),
        "malformed intermediate code: no such function"
    );
    assert_eq!(
        backend_error(one_function(
            vec![],
            vec![Inst::Call { callee: 0, args: vec![], returns_array: false }],
            ret
        )),
        "malformed intermediate code: the call does not fit the function"
    );
    assert_eq!(
        backend_error(one_function(vec![], vec![], Some(Terminator::Return(Operand::Param(1))))),
        "malformed intermediate code: a word is expected"
    );
    let mut empty = one_function(vec![], vec![], ret);
    empty.functions[0].blocks.clear();
    assert_eq!(backend_error(empty), "malformed intermediate code: a function without blocks");
}

#[test]
fn well_formed_code_is_built_as_given() {
    let ctx = Context::create();
    let target = ctx.create_module("toy");
    let mut cg = CodeGen::new(&ctx, target);
    let module = one_function(
        vec![SlotKind::Word, SlotKind::Pointer, SlotKind::Array(2)],
        vec![
            Inst::Store { addr: Operand::Slot(0), value: Operand::Param(0) },
            Inst::StorePtr { addr: Operand::Slot(1), value: Operand::Param(1) },
            Inst::LoadPtr { addr: Operand::Slot(1) },
            Inst::Load { addr: Operand::Slot(0) },
            Inst::Element { base: Operand::Reg(2), index: Operand::Reg(3) },
            Inst::Load { addr: Operand::Reg(4) },
            Inst::Call {
                callee: 0,
                args: vec![Operand::Reg(5), Operand::Slot(2)],
                returns_array: false,
            },
        ],
        Some(Terminator::Return(Operand::Reg(6))),
    );
    cg.emit(&module).unwrap();
    assert!(cg.module.verify().is_ok(), "{}", cg.module.print_to_string());
    let text = cg.module.print_to_string().to_string();
    assert!(text.contains("define i64 @f(i64 %0, i64* %1)"), "{}", text);
    assert!(text.contains("mul i64"), "{}", text);
    assert!(text.contains("call i64 @f(i64"), "{}", text);
    assert_eq!(cg.entry().unwrap().get_name().to_str().unwrap(), "f");
}

#[test]
fn constants_keep_their_sign() {
    let text = backend_text(
        "var x = 0 - 7; var y = 2147483647; var z = 0 - 9223372036854775807; print x; return 0 - 1;",
    );
    assert!(text.contains("store i64 -7"), "{}", text);
    assert!(text.contains("store i64 2147483647"), "{}", text);
    assert!(text.contains("store i64 -9223372036854775807"), "{}", text);
    assert!(text.contains("ret i64 -1"), "{}", text);
}
