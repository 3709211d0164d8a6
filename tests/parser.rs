use minilang::ast::{
    Addition, AstNode, Division, Greater, GreaterEqual, Integer, Less, LessEqual, LogicalAnd,
    LogicalNot, LogicalOr, Multiplication, Subtraction,
};
use minilang::grammar::{Expected, ParseError};
use minilang::cursor::Source;
use minilang::parser::{parse_binary_op, parse_type, Declaration, Factor, Or, Start, Type};

fn lit(value: i32) -> Box<AstNode> {
    Box::new(AstNode::Integer(Integer { value }))
}

fn render(node: &AstNode) -> String {
    node.render()
}

#[test]
fn parser_test_arithmetic() {
    let expression = "12 + 5 / 4".to_owned();
    let (expression, _remainder) = Start::parse(expression).unwrap();

    let expected = AstNode::Addition(Addition {
        left: lit(12),
        right: Box::new(AstNode::Division(Division { left: lit(5), right: lit(4) })),
    });

    assert_eq!(render(&expression), render(&expected));

    let expression = "(12 + 5) / 4".to_owned();
    let (expression, _remainder) = Start::parse(expression).unwrap();

    let expected = AstNode::Division(Division {
        left: Box::new(AstNode::Addition(Addition { left: lit(12), right: lit(5) })),
        right: lit(4),
    });

    assert_eq!(render(&expression), render(&expected));
}

#[test]
fn mod_test_arithmetic() {
    let expression = "12 + 5 / 4".to_owned();
    let (expression, _remainder) = Start::parse(expression).unwrap();

    let expected = AstNode::Addition(Addition {
        left: lit(12),
        right: Box::new(AstNode::Division(Division { left: lit(5), right: lit(4) })),
    });

    assert_eq!(format!("{}", render(&expression)), format!("{}", render(&expected)));

    let expression = "(12 + 5) / 4".to_owned();
    let (expression, _remainder) = Start::parse(expression).unwrap();

    let expected = AstNode::Division(Division {
        left: Box::new(AstNode::Addition(Addition { left: lit(12), right: lit(5) })),
        right: lit(4),
    });

    assert_eq!(format!("{}", render(&expression)), format!("{}", render(&expected)));

    let expression = "3 * 4 + 2 * 5".to_owned();
    let (expression, _remainder) = Start::parse(expression).unwrap();

    let expected = AstNode::Addition(Addition {
        left: Box::new(AstNode::Multiplication(Multiplication { left: lit(3), right: lit(4) })),
        right: Box::new(AstNode::Multiplication(Multiplication { left: lit(2), right: lit(5) })),
    });

    assert_eq!(format!("{}", render(&expression)), format!("{}", render(&expected)));

    let expression = "((3 + 5) * 2) - 4 / 2".to_owned();
    let (expression, _remainder) = Start::parse(expression).unwrap();

    let expected = AstNode::Subtraction(Subtraction {
        left: Box::new(AstNode::Multiplication(Multiplication {
            left: Box::new(AstNode::Addition(Addition { left: lit(3), right: lit(5) })),
            right: lit(2),
        })),
        right: Box::new(AstNode::Division(Division { left: lit(4), right: lit(2) })),
    });

    assert_eq!(format!("{}", render(&expression)), format!("{}", render(&expected)));
}

#[test]
fn test_boolean() {
    let expression = "3 < 5 && 2 >= 1".to_owned();
    let (expression, _remainder) = Start::parse(expression).unwrap();

    let expected = AstNode::LogicalAnd(LogicalAnd {
        left: Box::new(AstNode::Less(Less { left: lit(3), right: lit(5) })),
        right: Box::new(AstNode::GreaterEqual(GreaterEqual { left: lit(2), right: lit(1) })),
    });

    assert_eq!(format!("{}", render(&expression)), format!("{}", render(&expected)));

    let expression = "!(4 > 2 || 1 <= 0)".to_owned();
    let (expression, _remainder) = Start::parse(expression).unwrap();

    let expected = AstNode::LogicalNot(LogicalNot {
        value: Box::new(AstNode::LogicalOr(LogicalOr {
            left: Box::new(AstNode::Greater(Greater { left: lit(4), right: lit(2) })),
            right: Box::new(AstNode::LessEqual(LessEqual { left: lit(1), right: lit(0) })),
        })),
    });

    assert_eq!(format!("{}", render(&expression)), format!("{}", render(&expected)));

    let expression = "5 + 3 > 2 * 4 || 1 && !0".to_owned();
    let (expression, _remainder) = Start::parse(expression).unwrap();

    let expected = AstNode::LogicalOr(LogicalOr {
        left: Box::new(AstNode::Greater(Greater {
            left: Box::new(AstNode::Addition(Addition { left: lit(5), right: lit(3) })),
            right: Box::new(AstNode::Multiplication(Multiplication { left: lit(2), right: lit(4) })),
        })),
        right: Box::new(AstNode::LogicalAnd(LogicalAnd {
            left: lit(1),
            right: Box::new(AstNode::LogicalNot(LogicalNot { value: lit(0) })),
        })),
    });

    assert_eq!(format!("{}", render(&expression)), format!("{}", render(&expected)));
}

#[test]
fn renders_in_canonical_form() {
    let (tree, _) = Start::parse("3 * 4 + 2 * 5".to_owned()).unwrap();
    assert_eq!(tree.render(), "Addition(Multiplication(3, 4), Multiplication(2, 5))");
    let (tree, _) = Start::parse("(12 + 5) / 4".to_owned()).unwrap();
    assert_eq!(tree.render(), "Division(Addition(12, 5), 4)");
    let (tree, _) = Start::parse("((3 + 5) * 2) - 4 / 2".to_owned()).unwrap();
    assert_eq!(tree.render(), "Subtraction(Multiplication(Addition(3, 5), 2), Division(4, 2))");
    let (tree, _) = Start::parse("3 < 5 && 2 >= 1".to_owned()).unwrap();
    assert_eq!(tree.render(), "And(Less(3, 5), GreaterEqual(2, 1))");
    let (tree, _) = Start::parse("!(4 > 2 || 1 <= 0)".to_owned()).unwrap();
    assert_eq!(tree.render(), "Not(Or(Greater(4, 2), LessEqual(1, 0)))");
    let (tree, _) = Start::parse("5 + 3 > 2 * 4 || 1 && !0".to_owned()).unwrap();
    assert_eq!(tree.render(), "Or(Greater(Addition(5, 3), Multiplication(2, 4)), And(1, Not(0)))");
}

#[test]
fn operators_of_one_level_associate_left() {
    let (tree, rest) = Or::parse("10 - 4 - 3".to_owned()).unwrap();
    assert_eq!(tree.render(), "Subtraction(Subtraction(10, 4), 3)");
    assert_eq!(rest, "");
    let (tree, _) = Or::parse("8 / 4 * 2".to_owned()).unwrap();
    assert_eq!(tree.render(), "Multiplication(Division(8, 4), 2)");
    let (tree, _) = Or::parse("1 < 2 < 3".to_owned()).unwrap();
    assert_eq!(tree.render(), "Less(Less(1, 2), 3)");
}

#[test]
fn missing_close_paren_is_reported() {
    let r = Start::parse("(12 + 5".to_owned());
    assert!(matches!(r, Err(ParseError::Expected(Expected::CloseParen))));
    assert_eq!(r.err().unwrap().message(), "expected ')'");
}

#[test]
fn leaf_rendering_reparses_to_itself() {
    for input in ["42", "  007 ", "(x_1)", "abc )"] {
        let (tree, _) = Or::parse(input.to_owned()).unwrap();
        let (again, rest) = Or::parse(tree.render()).unwrap();
        assert_eq!(again.render(), tree.render());
        assert_eq!(rest, "");
    }
}

#[test]
fn remainder_follows_the_statement() {
    let (tree, rest) = Start::parse("let x: i32 = 1 + 2; x".to_owned()).unwrap();
    assert_eq!(tree.render(), "Assignment(x, Addition(1, 2))");
    assert_eq!(rest, " x");
    let (tree, rest) = Declaration::parse("let y : i32;".to_owned()).unwrap();
    assert_eq!(tree.render(), "Assignment(y, 0)");
    assert_eq!(rest, "");
}

#[test]
fn control_flow_statements_parse() {
    let (tree, rest) = Start::parse("if a < 1 { a } else { b c }".to_owned()).unwrap();
    assert_eq!(tree.render(), "If(Less(a, 1), Block(a), Block(b, c))");
    assert_eq!(rest, "");
    let (tree, _) = Start::parse("if 1 {}".to_owned()).unwrap();
    assert_eq!(tree.render(), "If(1, Block())");
    let (tree, _) = Start::parse("while n > 0 { let n: i32 = n - 1; }".to_owned()).unwrap();
    assert_eq!(tree.render(), "While(Greater(n, 0), Block(Assignment(n, Subtraction(n, 1))))");
    let (tree, _) = Start::parse("{ }".to_owned()).unwrap();
    assert_eq!(tree.render(), "Block()");
}

#[test]
fn each_parse_error_has_its_input() {
    let cases: [(&str, ParseError); 9] = [
        ("(1", ParseError::Expected(Expected::CloseParen)),
        ("let x i32;", ParseError::Expected(Expected::Colon)),
        ("let x: u8;", ParseError::Expected(Expected::Type)),
        ("let x: i32 = 1", ParseError::Expected(Expected::Semicolon)),
        ("let 1: i32;", ParseError::Expected(Expected::Identifier)),
        ("{ 1", ParseError::Expected(Expected::CloseBrace)),
        ("1 | 2", ParseError::Expected(Expected::DoubleBar)),
        ("1 & 2", ParseError::Expected(Expected::DoubleAmpersand)),
        ("2147483648", ParseError::IntegerOutOfRange),
    ];
    for (input, error) in cases {
        let r = Start::parse(input.to_owned());
        assert_eq!(r.err(), Some(error), "{}", input);
    }
    assert_eq!(Declaration::parse("x".to_owned()).err(), Some(ParseError::Expected(Expected::Let)));
    assert_eq!(minilang::parser::Block::parse("x".to_owned()).err(), Some(ParseError::Expected(Expected::OpenBrace)));
    assert_eq!(minilang::parser::If::parse("x".to_owned()).err(), Some(ParseError::Expected(Expected::If)));
    assert_eq!(minilang::parser::While::parse("x".to_owned()).err(), Some(ParseError::Expected(Expected::While)));
}

#[test]
fn largest_literal_and_negative_rendering() {
    let (tree, _) = Factor::parse("2147483647".to_owned()).unwrap();
    assert_eq!(tree.render(), "2147483647");
    assert_eq!(AstNode::integer(-17).render(), "-17");
    assert_eq!(AstNode::integer(i32::MIN).render(), "-2147483648");
}

#[test]
fn level_and_type_parsers_report_positions() {
    let src = Source::new("1 + 2 * 3 ;".to_owned());
    let (tree, end) = parse_binary_op(3, &src, 0).unwrap();
    assert_eq!(tree.render(), "Addition(1, Multiplication(2, 3))");
    assert_eq!(end, 10);
    let (tree, end) = parse_binary_op(4, &src, 0).unwrap();
    assert_eq!(tree.render(), "1");
    assert_eq!(end, 2);
    let src = Source::new("  i32 =".to_owned());
    assert_eq!(parse_type(&src, 0), Ok((Type::I32, 5)));
    let src = Source::new("i64".to_owned());
    assert_eq!(parse_type(&src, 0), Err(ParseError::Expected(Expected::Type)));
}
