//! End-to-end runs: source text through the tokenizer, parser, compiler and
//! virtual machine, checking the printed lines.

use reaper::compiler::{Compiler, CompileError};
use reaper::parser::{FnStatement, Parser, Statement};
use reaper::tokenizer::Tokenizer;
use reaper::vm::{RunStatus, VM};

fn run_source(src: &str) -> (RunStatus, VM) {
    let mut tokenizer = Tokenizer::new(src.as_bytes().to_vec());
    let tokens = tokenizer.tokenize();
    let mut parser = Parser::new();
    let ast = parser.parse(tokens).expect("parse failed");
    let mut compiler = Compiler::new();
    compiler.compile(&ast).expect("compile failed");
    let mut vm = VM::new();
    vm.load(compiler.bytecode);
    let status = vm.run(10_000_000);
    (status, vm)
}

fn output_lines(src: &str) -> Vec<Vec<u8>> {
    let (status, vm) = run_source(src);
    assert_eq!(status, RunStatus::Done);
    vm.output
}

fn compile_rejection(src: &str) -> CompileError {
    let mut tokenizer = Tokenizer::new(src.as_bytes().to_vec());
    let tokens = tokenizer.tokenize();
    let mut parser = Parser::new();
    let ast = parser.parse(tokens).expect("parse failed");
    let mut compiler = Compiler::new();
    compiler.compile(&ast).expect_err("compile unexpectedly succeeded")
}

#[test]
fn arithmetic_precedence() {
    assert_eq!(output_lines("print 1+2*3;"), vec![b"7".to_vec()]);
}

#[test]
fn identity_function() {
    assert_eq!(
        output_lines("fn id(x,) { return x; } print id(42);"),
        vec![b"42".to_vec()]
    );
}

#[test]
fn fibonacci_ten() {
    assert_eq!(
        output_lines("fn fib(n,) { if (n < 2) return n; return fib(n-1) + fib(n-2); } print fib(10);"),
        vec![b"55".to_vec()]
    );
}

#[test]
fn fibonacci_twenty() {
    assert_eq!(
        output_lines("fn fib(n,) { if (n < 2) return n; return fib(n-1) + fib(n-2); } print fib(20);"),
        vec![b"6765".to_vec()]
    );
}

#[test]
fn argument_update() {
    assert_eq!(
        output_lines("fn f(a,b,) { a = a + b; return a; } print f(3, 4);"),
        vec![b"7".to_vec()]
    );
}

#[test]
fn if_true_branch() {
    assert_eq!(output_lines("if (1 < 2) print 10; else print 20;"), vec![b"10".to_vec()]);
}

#[test]
fn if_false_branch() {
    assert_eq!(output_lines("if (2 < 1) print 10; else print 20;"), vec![b"20".to_vec()]);
}

#[test]
fn if_without_else() {
    assert_eq!(output_lines("if (1 < 2) print 3;"), vec![b"3".to_vec()]);
    let (status, vm) = run_source("if (2 < 1) print 3;");
    assert_eq!(status, RunStatus::Done);
    assert!(vm.output.is_empty());
}

#[test]
fn block_scoped_assignment() {
    assert_eq!(
        output_lines("fn k(,) { x = 1; { x = x + 1; } return x; } print k();"),
        vec![b"2".to_vec()]
    );
}

#[test]
fn stack_empty_after_run() {
    let sources = [
        "print 1+2*3;",
        "fn id(x,) { return x; } print id(42);",
        "fn f(a,b,) { a = a + b; return a; } print f(3, 4);",
        "if (1 < 2) print 10; else print 20;",
        "fn k(,) { x = 1; { x = x + 1; } return x; } print k();",
    ];
    for src in sources {
        let (status, vm) = run_source(src);
        assert_eq!(status, RunStatus::Done);
        assert_eq!(vm.stack.len(), 0, "operand stack not empty");
        assert_eq!(vm.frame_ptrs.len(), 0, "frame stack not empty");
    }
}

#[test]
fn double_negation() {
    assert_eq!(output_lines("print !!true;"), vec![b"true".to_vec()]);
    assert_eq!(output_lines("print !true;"), vec![b"false".to_vec()]);
    assert_eq!(output_lines("print !!false;"), vec![b"false".to_vec()]);
}

#[test]
fn self_equality() {
    assert_eq!(output_lines("print 1 == 1;"), vec![b"true".to_vec()]);
    assert_eq!(output_lines("print 1 != 1;"), vec![b"false".to_vec()]);
    assert_eq!(
        output_lines("fn f(x,) { return x == x; } print f(5);"),
        vec![b"true".to_vec()]
    );
    assert_eq!(
        output_lines("fn f(x,) { return x != x; } print f(5);"),
        vec![b"false".to_vec()]
    );
}

#[test]
fn compile_twice_identical() {
    let src = "fn fib(n,) { if (n < 2) return n; return fib(n-1) + fib(n-2); } print fib(10);";
    let mut tokenizer = Tokenizer::new(src.as_bytes().to_vec());
    let tokens = tokenizer.tokenize();
    let mut parser = Parser::new();
    let ast = parser.parse(tokens).expect("parse failed");
    let mut c1 = Compiler::new();
    c1.compile(&ast).expect("compile failed");
    let mut c2 = Compiler::new();
    c2.compile(&ast).expect("compile failed");
    assert_eq!(c1.bytecode, c2.bytecode);
    assert!(!c1.bytecode.is_empty());
}

#[test]
fn keyword_literals_print() {
    assert_eq!(output_lines("print null;"), vec![b"null".to_vec()]);
    assert_eq!(output_lines("print true;"), vec![b"true".to_vec()]);
    assert_eq!(output_lines("print false;"), vec![b"false".to_vec()]);
}

#[test]
fn negative_result() {
    assert_eq!(output_lines("print 0 - 5;"), vec![b"-5".to_vec()]);
    assert_eq!(output_lines("print 3 - 10 * 2;"), vec![b"-17".to_vec()]);
}

#[test]
fn division() {
    assert_eq!(output_lines("print 20 / 4;"), vec![b"5".to_vec()]);
    assert_eq!(output_lines("print 7 / 2;"), vec![b"3".to_vec()]);
}

#[test]
fn argument_list_without_trailing_comma() {
    assert_eq!(
        output_lines("fn add2(a, b) { return a + b; } print add2(2, 5);"),
        vec![b"7".to_vec()]
    );
}

#[test]
fn top_level_variables() {
    assert_eq!(output_lines("x = 4; print x + 1;"), vec![b"5".to_vec()]);
}

#[test]
fn multiple_prints() {
    assert_eq!(
        output_lines("print 1; print 2; print 3;"),
        vec![b"1".to_vec(), b"2".to_vec(), b"3".to_vec()]
    );
}

#[test]
fn expression_statement_call() {
    let (status, vm) = run_source("fn noisy(,) { print 9; return 0; } noisy();");
    assert_eq!(status, RunStatus::Done);
    assert_eq!(vm.output, vec![b"9".to_vec()]);
    assert_eq!(vm.stack.len(), 0);
}

#[test]
fn undeclared_variable_read() {
    assert_eq!(compile_rejection("print x;"), CompileError::UndeclaredVariable);
}

#[test]
fn unknown_function_call() {
    assert_eq!(compile_rejection("print missing(1);"), CompileError::UnknownFunction);
}

#[test]
fn top_level_return_rejected() {
    assert_eq!(compile_rejection("return 1;"), CompileError::TopLevelReturn);
}

#[test]
fn top_level_return_in_block_rejected() {
    assert_eq!(compile_rejection("{ return 1; }"), CompileError::TopLevelReturn);
}

#[test]
fn return_inside_nested_block_allowed() {
    assert_eq!(
        output_lines("fn f(,) { { return 5; } } print f();"),
        vec![b"5".to_vec()]
    );
}

#[test]
fn nested_function_rejected() {
    assert_eq!(
        compile_rejection("fn f(,) { fn g(,) { return 1; } return 1; }"),
        CompileError::NestedFunction
    );
}

#[test]
fn bare_expression_statement_rejected() {
    assert_eq!(compile_rejection("1 + 2;"), CompileError::BadExpressionStatement);
}

#[test]
fn bad_assign_target_rejected() {
    assert_eq!(compile_rejection("1 = 2;"), CompileError::BadAssignTarget);
}

#[test]
fn fn_body_must_be_a_block() {
    let ast = vec![Statement::Fn(FnStatement {
        name: b"f".to_vec(),
        arguments: vec![],
        body: Box::new(Statement::Dummy),
    })];
    let mut compiler = Compiler::new();
    assert_eq!(compiler.compile(&ast).unwrap_err(), CompileError::BadFnBody);
}

#[test]
fn out_of_scope_read_rejected() {
    assert_eq!(
        compile_rejection("fn k(,) { { y = 2; } return y; } print k();"),
        CompileError::UndeclaredVariable
    );
}
