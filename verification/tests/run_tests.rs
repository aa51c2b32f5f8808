use toylang::codegen::lower_program;
use toylang::ir::{Inst, IrModule, Operand, SlotKind, Terminator, WordOp};
use toylang::lexer::lex;
use toylang::parser::Parser;

/// What a run of intermediate code gave: the word returned and the lines
/// printed.
#[derive(Debug, PartialEq)]
struct Ran {
    result: i64,
    printed: Vec<String>,
}

/// A reference run of intermediate code on a flat memory of words, in
/// which the address of a word is its place. It stops a run that takes
/// too many steps.
struct Runner<'a> {
    module: &'a IrModule,
    memory: Vec<i64>,
    printed: Vec<String>,
    steps: usize,
}

fn apply(op: WordOp, a: i64, b: i64) -> i64 {
    match op {
        WordOp::Add => a.wrapping_add(b),
        WordOp::Sub => a.wrapping_sub(b),
        WordOp::Mul => a.wrapping_mul(b),
        WordOp::Div => a.checked_div(b).expect("division without result"),
        WordOp::Rem => a.checked_rem(b).expect("remainder without result"),
        WordOp::Lt => (a < b) as i64,
        WordOp::Le => (a <= b) as i64,
        WordOp::Gt => (a > b) as i64,
        WordOp::Ge => (a >= b) as i64,
        WordOp::Eq => (a == b) as i64,
        WordOp::Ne => (a != b) as i64,
    }
}

impl<'a> Runner<'a> {
    fn call(&mut self, index: usize, args: &[i64]) -> i64 {
        let module = self.module;
        let f = &module.functions[index];
        assert_eq!(args.len(), f.params.len());
        let mut slots: Vec<usize> = Vec::new();
        for kind in &f.locals {
            slots.push(self.memory.len());
            let words = match kind {
                SlotKind::Word | SlotKind::Pointer => 1,
                SlotKind::Array(n) => *n,
            };
            self.memory.extend(std::iter::repeat(0).take(words));
        }
        let mut block = 0;
        loop {
            let mut regs: Vec<Option<i64>> = Vec::new();
            let value = |op: Operand, regs: &Vec<Option<i64>>| -> i64 {
                match op {
                    Operand::Const(c) => c,
                    Operand::Reg(i) => regs[i].expect("the instruction yields no value"),
                    Operand::Param(i) => args[i],
                    Operand::Slot(i) => slots[i] as i64,
                }
            };
            for inst in &f.blocks[block].insts {
                self.steps += 1;
                assert!(self.steps < 100_000, "the run does not end");
                let yielded = match inst {
                    Inst::Load { addr } | Inst::LoadPtr { addr } => {
                        Some(self.memory[value(*addr, &regs) as usize])
                    }
                    Inst::Store { addr, value: v } | Inst::StorePtr { addr, value: v } => {
                        let place = value(*addr, &regs) as usize;
                        self.memory[place] = value(*v, &regs);
                        None
                    }
                    Inst::Binary { op, lhs, rhs } => {
                        Some(apply(*op, value(*lhs, &regs), value(*rhs, &regs)))
                    }
                    Inst::Element { base, index } => {
                        Some(value(*base, &regs) + value(*index, &regs))
                    }
                    Inst::PtrToWord { value: v } | Inst::WordToPtr { value: v } => {
                        Some(value(*v, &regs))
                    }
                    Inst::Call { callee, args: operands, .. } => {
                        let words: Vec<i64> = operands.iter().map(|o| value(*o, &regs)).collect();
                        Some(self.call(*callee, &words))
                    }
                    Inst::PrintWord { value: v } => {
                        self.printed.push(value(*v, &regs).to_string());
                        None
                    }
                    Inst::PrintText { text } => {
                        self.printed.push(text.clone());
                        None
                    }
                };
                regs.push(yielded);
            }
            self.steps += 1;
            match f.blocks[block].term.expect("a block without terminator") {
                Terminator::Return(v) => return value(v, &regs),
                Terminator::Jump(to) => block = to,
                Terminator::Branch { cond, if_true, if_false } => {
                    block = if value(cond, &regs) != 0 { if_true } else { if_false };
                }
            }
        }
    }
}

/// Compiles a source text and runs its entry routine.
fn run_text(src: &str) -> Ran {
    let prog = Parser::new(lex(src).unwrap()).parse_program().unwrap();
    let module = lower_program(&prog).unwrap();
    let mut runner = Runner { module: &module, memory: vec![0], printed: Vec::new(), steps: 0 };
    let result = runner.call(module.functions.len() - 1, &[]);
    Ran { result, printed: runner.printed }
}

fn ran(result: i64, printed: &[&str]) -> Ran {
    Ran { result, printed: printed.iter().map(|s| s.to_string()).collect() }
}

#[test]
fn print_is_no_return() {
    assert_eq!(run_text("var x = 2 + 3 * 4; print x;"), ran(0, &["14"]));
}

#[test]
fn statements_run_in_order() {
    assert_eq!(
        run_text("var x = 1; var y = x + 1; x = x * 10 + y; print x; print y; return x - y;"),
        ran(10, &["12", "2"])
    );
}

#[test]
fn arithmetic_at_run_time_matches_folding() {
    let src = "var a = 0 - 7; var b = 2; print a / b; print a % b; print a * b; print a - b;
               print a < b; print a >= b; print a == a; print a != a; print -a; print +a;";
    assert_eq!(
        run_text(src),
        ran(0, &["-3", "-1", "-14", "-9", "1", "0", "1", "0", "7", "-7"])
    );
    let src = "var big = 2147483647; print big + 1; print big * 2;";
    assert_eq!(run_text(src), ran(0, &["2147483648", "4294967294"]));
    let src = "var big = 9223372036854775807; print big + 1; print big * 2;";
    assert_eq!(run_text(src), ran(0, &["-9223372036854775808", "-2"]));
}

#[test]
fn array_literal_round_trip() {
    assert_eq!(run_text("let a = [1,2,3]; print a[1]; print length(a);"), ran(0, &["2", "3"]));
}

#[test]
fn indexed_assignment_writes_the_element() {
    assert_eq!(
        run_text("let a = [1,2,3]; var i = 2; a[i] = 9; a[0] = a[2] + 1; print a[0]; print a[1]; print a[2];"),
        ran(0, &["10", "2", "9"])
    );
}

#[test]
fn alias_shares_the_elements() {
    assert_eq!(
        run_text("let a = [1,2]; let b = a; b[0] = 7; print a[0]; print length(b);"),
        ran(0, &["7", "2"])
    );
}

#[test]
fn abs_of_negative_and_positive() {
    let abs = "fn abs(n) { if (n < 0) { return 0 - n; } return n; }";
    assert_eq!(run_text(&format!("{} return abs(0 - 5);", abs)), ran(5, &[]));
    assert_eq!(run_text(&format!("{} return abs(5);", abs)), ran(5, &[]));
    assert_eq!(run_text(&format!("{} return abs(0);", abs)), ran(0, &[]));
}

#[test]
fn if_takes_the_branch_of_its_condition() {
    let src = "var x = 3; if (x > 2) { print 1; } else { print 2; } if (x < 2) { print 3; } else { print 4; } if (0) { print 5; } print 6;";
    assert_eq!(run_text(src), ran(0, &["1", "4", "6"]));
}

#[test]
fn while_repeats_until_its_condition_fails() {
    let src = "var i = 0; var s = 0; while (i < 5) { s = s + i; i = i + 1; } print s; return i;";
    assert_eq!(run_text(src), ran(5, &["10"]));
    assert_eq!(run_text("while (0) { print 1; } print 2;"), ran(0, &["2"]));
}

#[test]
fn return_inside_a_loop_ends_the_run() {
    let src = "var i = 0; while (1) { if (i == 3) { return i * 2; } print i; i = i + 1; } print 99;";
    assert_eq!(run_text(src), ran(6, &["0", "1", "2"]));
}

#[test]
fn code_after_return_does_not_run() {
    assert_eq!(run_text("print 1; return 2; print 3; return 4;"), ran(2, &["1"]));
}

#[test]
fn functions_call_functions_and_themselves() {
    let src = "fn twice(n) { return n * 2; }
               fn fact(n) { if (n <= 1) { return 1; } return n * fact(n - 1); }
               print twice(fact(4)); return fact(5) - twice(10);";
    assert_eq!(run_text(src), ran(100, &["48"]));
}

#[test]
fn function_without_return_gives_zero() {
    assert_eq!(run_text("fn f(n) { print n; } return f(3) + 1;"), ran(1, &["3"]));
}

#[test]
fn array_parameter_carries_its_length() {
    let src = "fn count(xs) { return length(xs); } let a = [4,5,6,7]; print count(a); print count([1]); print count([]);";
    assert_eq!(run_text(src), ran(0, &["4", "1", "0"]));
}

#[test]
fn array_parameter_shares_the_elements() {
    let src = "fn set(xs, v) { xs[1] = v; return length(xs); } let a = [1,2,3]; set(a, 8); print a[1];";
    assert_eq!(run_text(src), ran(0, &["8"]));
}

#[test]
fn text_is_printed_as_it_stands() {
    assert_eq!(run_text("print \"sum:\"; print 1 + 2;"), ran(0, &["sum:", "3"]));
}

#[test]
fn truth_values_are_words() {
    assert_eq!(run_text("var t = true; var f = false; print t + t; print f; if (t) { return 7; }"), ran(7, &["2", "0"]));
}

#[test]
fn declaration_inside_a_branch_is_seen_there() {
    assert_eq!(run_text("if (1) { var x = 1; print x; }"), ran(0, &["1"]));
    assert_eq!(
        run_text("var a = 2; if (a > 5) { var b = 1; print b; } else { var c = a * 3; print c; } return a;"),
        ran(2, &["6"])
    );
}

#[test]
fn declaration_inside_a_loop_is_stored_each_time() {
    let src = "var i = 0; while (i < 3) { var sq = i * i; print sq; i = i + 1; } return i;";
    assert_eq!(run_text(src), ran(3, &["0", "1", "4"]));
}

#[test]
fn declaration_inside_a_branch_stays_to_the_end() {
    let src = "var n = 4; if (n) { var half = n / 2; n = half; } print half + n;";
    assert_eq!(run_text(src), ran(0, &["4"]));
}

#[test]
fn top_level_declaration_may_bind_a_name_anew() {
    assert_eq!(run_text("var x = 1; print x; var x = x + 6; return x;"), ran(7, &["1"]));
}
