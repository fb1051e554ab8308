use laspa::BinaryExpr;
use laspa::FnTable;
use laspa::Node;
use laspa::Number;
use laspa::Op;
use laspa::ParseError;
use laspa::lex;
use laspa::parse;

#[test]
fn parse_number() {
    assert_eq!(Number::new("1.0").unwrap(), Number((1.0f64).to_bits()));
    assert_eq!(Number::new("4").unwrap(), Number((4.0f64).to_bits()));
}

#[test]
fn parse_add() {
    assert_eq!(Op::new("+"), Op::Add);
}

#[test]
fn parse_sub() {
    assert_eq!(Op::new("-"), Op::Sub);
}

#[test]
fn parse_mul() {
    assert_eq!(Op::new("*"), Op::Mul);
}

#[test]
fn parse_div() {
    assert_eq!(Op::new("/"), Op::Div);
}

#[test]
fn parse_gt() {
    assert_eq!(Op::new(">"), Op::Gt);
}

#[test]
fn parse_lt() {
    assert_eq!(Op::new("<"), Op::Lt);
}

#[test]
fn parse_expr() {
    let stmts = lex("+ * -2 3 - 2 3.5");
    let mut functions = FnTable::new();
    let nodes = parse(&stmts, &mut functions).unwrap();
    assert_eq!(
        nodes,
        vec![Node::BinaryExpr(BinaryExpr {
            op: Op::Add,
            lhs: vec![Node::BinaryExpr(BinaryExpr {
                op: Op::Mul,
                lhs: vec![Node::Number(Number((-2.0f64).to_bits()))],
                rhs: vec![Node::Number(Number((3.0f64).to_bits()))],
            })],
            rhs: vec![Node::BinaryExpr(BinaryExpr {
                op: Op::Sub,
                lhs: vec![Node::Number(Number((2.0f64).to_bits()))],
                rhs: vec![Node::Number(Number((3.5f64).to_bits()))],
            })],
        })]
    )
}

#[test]
fn parse_invalid_number_is_variable() {
    let stmts = lex("x");
    let mut functions = FnTable::new();
    let nodes = parse(&stmts, &mut functions).unwrap();
    assert_eq!(nodes, vec![Node::Variable("x".to_string())]);
}

#[test]
fn parse_missing_name() {
    let stmts = lex("let");
    let mut functions = FnTable::new();
    assert_eq!(parse(&stmts, &mut functions), Err(ParseError::MissingName));
}

#[test]
fn parse_missing_operand() {
    let stmts = lex("+ 1");
    let mut functions = FnTable::new();
    assert_eq!(parse(&stmts, &mut functions), Err(ParseError::MissingOperand));
}

#[test]
fn parse_invalid_arg_list() {
    let stmts = lex("fn f (x)\nreturn x;\nend\nf 1 2");
    let mut functions = FnTable::new();
    assert_eq!(parse(&stmts, &mut functions), Err(ParseError::InvalidArgList));
}

#[test]
fn parse_comment_contributes_nothing() {
    let stmts = lex("// this text is skipped");
    let mut functions = FnTable::new();
    let nodes = parse(&stmts, &mut functions).unwrap();
    assert_eq!(nodes, vec![]);
}

#[test]
fn parse_blank_statement_contributes_nothing() {
    let stmts = lex("   ;  \n  ");
    let mut functions = FnTable::new();
    let nodes = parse(&stmts, &mut functions).unwrap();
    assert_eq!(nodes, vec![]);
}

#[test]
fn empty_loop_body_is_backfilled_again() {
    // A block construct whose body came back empty is still waiting for a
    // body, so statements that contribute nothing let the following block
    // be consumed into it.
    let stmts = lex("while == 1 0\nend\n// c\n5");
    let mut functions = FnTable::new();
    let nodes = parse(&stmts, &mut functions).unwrap();
    assert_eq!(nodes.len(), 1);
    match &nodes[0] {
        Node::WhileExpr(w) => {
            assert_eq!(w.body, vec![Node::Number(Number((5.0f64).to_bits()))]);
        }
        other => panic!("expected a loop, got {:?}", other),
    }
}
