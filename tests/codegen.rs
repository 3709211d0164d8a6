use minilang::ast::{AstNode, Assignment, BinOp, Identifier, Integer};
use minilang::codegen::{Compiler, GenError, Instr, Operand};
use minilang::parser::Start;

fn compile(source: &str) -> Result<Compiler, GenError> {
    let (tree, _) = Start::parse(source.to_owned()).unwrap();
    let mut compiler = Compiler::new("test".to_owned());
    compiler.visit(&tree)?;
    compiler.finalize()?;
    Ok(compiler)
}

#[test]
fn literal_module_returns_the_constant() {
    let mut compiler = Compiler::new("prog".to_owned());
    compiler.visit(&AstNode::integer(42)).unwrap();
    compiler.finalize().unwrap();
    assert_eq!(compiler.blocks().len(), 1);
    assert_eq!(compiler.blocks()[0], vec![Instr::Ret(Operand::Const(42))]);
    assert_eq!(compiler.name(), "prog");
}

#[test]
fn operands_are_consumed_in_order() {
    let compiler = compile("7 - 2 * 3").unwrap();
    assert_eq!(
        compiler.blocks()[0],
        vec![
            Instr::Binary(BinOp::Mul, Operand::Const(2), Operand::Const(3)),
            Instr::Binary(BinOp::Sub, Operand::Const(7), Operand::Value(0, 0)),
            Instr::Ret(Operand::Value(0, 1)),
        ]
    );
    assert!(compiler.values().is_empty());
}

#[test]
fn logic_and_comparison_are_lowered() {
    let compiler = compile("!(1 < 2) || 0").unwrap();
    assert_eq!(
        compiler.blocks()[0],
        vec![
            Instr::Binary(BinOp::Lt, Operand::Const(1), Operand::Const(2)),
            Instr::Not(Operand::Value(0, 0)),
            Instr::Binary(BinOp::Or, Operand::Value(0, 1), Operand::Const(0)),
            Instr::Ret(Operand::Value(0, 2)),
        ]
    );
}

#[test]
fn variables_get_slots() {
    let compiler = compile("{ let x: i32 = 5; x + 1 }").unwrap();
    assert_eq!(compiler.slots(), &vec!["x".to_owned()]);
    assert_eq!(
        compiler.blocks()[0],
        vec![
            Instr::Alloca(0),
            Instr::Store(0, Operand::Const(5)),
            Instr::Load(0),
            Instr::Binary(BinOp::Add, Operand::Value(0, 2), Operand::Const(1)),
            Instr::Ret(Operand::Value(0, 3)),
        ]
    );
}

#[test]
fn generation_errors() {
    assert_eq!(compile("y + 1").err(), Some(GenError::UndefinedVariable));
    let bad = AstNode::Assignment(Assignment {
        left: Box::new(AstNode::integer(1)),
        right: Box::new(AstNode::integer(2)),
    });
    let mut compiler = Compiler::new("m".to_owned());
    assert_eq!(compiler.visit(&bad), Err(GenError::InvalidAssignmentTarget));
    let mut compiler = Compiler::new("m".to_owned());
    assert_eq!(compiler.finalize(), Err(GenError::StackUnderflow));
    let mut compiler = Compiler::new("m".to_owned());
    compiler.visit(&AstNode::Integer(Integer { value: 1 })).unwrap();
    compiler.finalize().unwrap();
    assert_eq!(compiler.finalize(), Err(GenError::NoInsertionPoint));
    let name = AstNode::Identifier(Identifier { name: "z".to_owned() });
    let mut compiler = Compiler::new("m".to_owned());
    assert_eq!(compiler.visit(&name), Err(GenError::UndefinedVariable));
}

#[test]
fn an_expression_leaves_one_value_above_the_rest() {
    let mut compiler = Compiler::new("m".to_owned());
    compiler.visit(&AstNode::integer(9)).unwrap();
    let (tree, _) = Start::parse("2 * 3 < 4".to_owned()).unwrap();
    tree.accept(&mut compiler).unwrap();
    assert_eq!(compiler.values().len(), 2);
    assert_eq!(compiler.values()[0], Operand::Const(9));
    assert_eq!(compiler.values()[1], Operand::Value(0, 1));
}

#[test]
fn statements_of_a_block_leave_their_values() {
    let mut compiler = Compiler::new("m".to_owned());
    let (tree, _) = Start::parse("{ 1 2 3 }".to_owned()).unwrap();
    compiler.visit(&tree).unwrap();
    assert_eq!(
        compiler.values(),
        &vec![Operand::Const(1), Operand::Const(2), Operand::Const(3)]
    );
    compiler.finalize().unwrap();
    assert_eq!(compiler.blocks()[0], vec![Instr::Ret(Operand::Const(3))]);
}

#[test]
fn a_failing_operator_emits_nothing() {
    let bad = AstNode::Addition(minilang::ast::Addition {
        left: Box::new(AstNode::Block(minilang::ast::Block { nodes: vec![] })),
        right: Box::new(AstNode::integer(1)),
    });
    let mut compiler = Compiler::new("m".to_owned());
    assert_eq!(compiler.visit(&bad), Err(GenError::StackUnderflow));
    assert!(compiler.blocks()[0].is_empty());
    assert_eq!(compiler.values(), &vec![Operand::Const(1)]);
}
