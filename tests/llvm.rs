use minilang::ast::AstNode;
use minilang::codegen::Compiler;
use minilang::llvm::emit_llvm_ir;
use minilang::parser::Start;

fn ir_of(source: &str) -> String {
    let (tree, _) = Start::parse(source.to_owned()).unwrap();
    let mut compiler = Compiler::new("prog".to_owned());
    compiler.visit(&tree).unwrap();
    compiler.finalize().unwrap();
    emit_llvm_ir(&compiler).unwrap()
}

#[test]
fn literal_function_returns_the_constant() {
    let mut compiler = Compiler::new("prog".to_owned());
    AstNode::integer(42).accept(&mut compiler).unwrap();
    compiler.finalize().unwrap();
    let ir = emit_llvm_ir(&compiler).unwrap();
    assert!(ir.contains("define i32 @main()"), "{}", ir);
    assert!(ir.contains("ret i32 42"), "{}", ir);
    assert!(ir.contains("prog"), "{}", ir);
}

#[test]
fn constant_arithmetic_is_folded_by_the_builder() {
    let ir = ir_of("(12 + 5) / 4");
    assert!(ir.contains("ret i32 4"), "{}", ir);
}

#[test]
fn variables_become_stack_slots() {
    let ir = ir_of("{ let x: i32 = 5; x * 2 }");
    assert!(ir.contains("alloca i32"), "{}", ir);
    assert!(ir.contains("store i32 5"), "{}", ir);
    assert!(ir.contains("load i32"), "{}", ir);
    assert!(ir.contains("mul i32"), "{}", ir);
}

#[test]
fn comparisons_yield_zero_or_one() {
    let ir = ir_of("{ let a: i32 = 3; a < 4 }");
    assert!(ir.contains("icmp slt"), "{}", ir);
    assert!(ir.contains("zext i1"), "{}", ir);
}

#[test]
fn emitted_code_computes_the_expression_values() {
    for (source, value) in [
        ("3 < 5", "ret i32 1"),
        ("5 < 3", "ret i32 0"),
        ("4 >= 4", "ret i32 1"),
        ("!0", "ret i32 1"),
        ("!7", "ret i32 0"),
        ("2 && 0", "ret i32 0"),
        ("0 || 9", "ret i32 1"),
        ("(0 - 7) / 2", "ret i32 -3"),
        ("2147483647 + 1", "ret i32 -2147483648"),
    ] {
        let ir = ir_of(source);
        assert!(ir.contains(value), "{}: {}", source, ir);
    }
}
