use bdscript::scanner::{build_ast, BinaryOp, Command, Expression, Object, UnaryOp};
use bdscript::tokenizer::{tokenize, Span, Token};
use rust_decimal::Decimal;

fn parse(src: &str) -> Result<Vec<Command>, Vec<bdscript::scanner::ParseError>> {
    let tokens: Vec<(Token, Span)> = tokenize(src.as_bytes()).unwrap();
    build_ast(&tokens)
}

fn obj_eq(a: &Object, b: &Object) -> bool {
    match (a, b) {
        (Object::Constant(x), Object::Constant(y)) => x == y,
        (Object::Str(x), Object::Str(y)) => x == y,
        (Object::Variable(x), Object::Variable(y)) => x == y,
        (Object::Tuple(x), Object::Tuple(y))
        | (Object::Array(x), Object::Array(y))
        | (Object::Dict(x), Object::Dict(y)) => {
            x.len() == y.len() && x.iter().zip(y.iter()).all(|(l, r)| expr_eq(l, r))
        }
        (Object::DictItem(k1, v1), Object::DictItem(k2, v2)) => {
            expr_eq(k1, k2) && expr_eq(v1, v2)
        }
        _ => false,
    }
}

fn expr_eq(a: &Expression, b: &Expression) -> bool {
    match (a, b) {
        (Expression::Object(x), Expression::Object(y)) => obj_eq(x, y),
        (Expression::Unary { op: o1, hs: h1 }, Expression::Unary { op: o2, hs: h2 }) => {
            std::mem::discriminant(o1) == std::mem::discriminant(o2) && expr_eq(h1, h2)
        }
        (
            Expression::Binary { op: o1, lhs: l1, rhs: r1 },
            Expression::Binary { op: o2, lhs: l2, rhs: r2 },
        ) => {
            std::mem::discriminant(o1) == std::mem::discriminant(o2)
                && expr_eq(l1, l2)
                && expr_eq(r1, r2)
        }
        (Expression::Priority(x), Expression::Priority(y)) => expr_eq(x, y),
        (
            Expression::Query { with_compoents: w1, without_compoents: wo1 },
            Expression::Query { with_compoents: w2, without_compoents: wo2 },
        ) => w1 == w2 && wo1 == wo2,
        _ => false,
    }
}

fn num(n: u32) -> Expression {
    Expression::Object(Object::Constant(Decimal::from(n)))
}

fn statement_expr(src: &str) -> Expression {
    let cmds = parse(src).expect("parse should succeed");
    assert_eq!(cmds.len(), 1);
    match cmds.into_iter().next().unwrap() {
        Command::Expression(e) => e,
        other => panic!("expected an expression statement, got {:?}", other),
    }
}

#[test]
fn test_build_ast() {
    let lex = r#"
if Query<Dog|Cat&Pig>:
    1+2
elif 1:
    1

"#;
    let ast = parse(lex).expect("the example program must parse");
    println!("{:#?}", ast);
    assert_eq!(ast.len(), 3);
    assert!(matches!(ast[0], Command::NewLine));
    assert!(matches!(ast[2], Command::NewLine));
    match &ast[1] {
        Command::If { if_branch, else_branch } => {
            assert_eq!(if_branch.len(), 2);
            assert!(else_branch.is_none());
            match &if_branch[0].condition {
                Expression::Query { with_compoents, without_compoents } => {
                    assert_eq!(with_compoents, &vec![b"Dog".to_vec(), b"Cat".to_vec()]);
                    assert_eq!(without_compoents, &vec![b"Pig".to_vec()]);
                }
                other => panic!("expected a query condition, got {:?}", other),
            }
            assert_eq!(if_branch[0].commands.len(), 1);
            match &if_branch[0].commands[0] {
                Command::Expression(e) => {
                    let expected = Expression::Binary {
                        op: BinaryOp::Add,
                        lhs: Box::new(num(1)),
                        rhs: Box::new(num(2)),
                    };
                    assert!(expr_eq(e, &expected));
                }
                other => panic!("expected an expression, got {:?}", other),
            }
            assert!(expr_eq(&if_branch[1].condition, &num(1)));
            assert_eq!(if_branch[1].commands.len(), 1);
        }
        other => panic!("expected an if command, got {:?}", other),
    }
}

#[test]
fn right_associative_chain() {
    let e = statement_expr("1+2*3");
    let expected = Expression::Binary {
        op: BinaryOp::Add,
        lhs: Box::new(num(1)),
        rhs: Box::new(Expression::Binary {
            op: BinaryOp::Mul,
            lhs: Box::new(num(2)),
            rhs: Box::new(num(3)),
        }),
    };
    assert!(expr_eq(&e, &expected));
}

#[test]
fn trailing_separators_ignored() {
    for (with, without) in [
        ("[1,2,3,]", "[1,2,3]"),
        ("{1,2,3,}", "{1,2,3}"),
        ("(1,2,3,)", "(1,2,3)"),
    ] {
        let a = statement_expr(with);
        let b = statement_expr(without);
        assert!(expr_eq(&a, &b), "{} and {} must parse alike", with, without);
    }
}

#[test]
fn empty_collection_literals() {
    let e = statement_expr("[]");
    assert!(expr_eq(&e, &Expression::Object(Object::Array(vec![]))));
}

#[test]
fn bare_query_and_empty_brackets() {
    for src in ["Query", "Query<>"] {
        let e = statement_expr(src);
        match e {
            Expression::Query { with_compoents, without_compoents } => {
                assert!(with_compoents.is_empty());
                assert!(without_compoents.is_empty());
            }
            other => panic!("expected a query, got {:?}", other),
        }
    }
}

#[test]
fn query_component_routing() {
    let e = statement_expr("Query<Dog|Cat&Pig>");
    match e {
        Expression::Query { with_compoents, without_compoents } => {
            assert_eq!(with_compoents, vec![b"Dog".to_vec(), b"Cat".to_vec()]);
            assert_eq!(without_compoents, vec![b"Pig".to_vec()]);
        }
        other => panic!("expected a query, got {:?}", other),
    }
}

#[test]
fn query_bad_connector_is_parse_error() {
    // the error's span is the offending connector token itself
    let errs = parse("Query<Dog.Cat>").expect_err("a stray connector must fail the parse");
    assert_eq!(errs.len(), 1);
    assert_eq!((errs[0].start, errs[0].end), (9, 10));
    let errs = parse("Query<Dog^Cat>\n").expect_err("a stray connector must fail the parse");
    assert_eq!(errs.len(), 1);
    assert_eq!((errs[0].start, errs[0].end), (9, 10));
}

#[test]
fn error_spans_point_at_offending_token() {
    // the statement fails at the token after the colon, where a line token
    // was required; the error carries that token's span
    let errs = parse("if 1:)\n").expect_err("a stray token after the colon must fail");
    assert_eq!(errs.len(), 1);
    assert_eq!((errs[0].start, errs[0].end), (5, 6));
    // where the tokens run out, the error carries an empty span at the end
    let errs = parse("if 1\n").expect_err("a missing colon must fail");
    assert_eq!(errs.len(), 1);
    assert_eq!((errs[0].start, errs[0].end), (5, 5));
}

#[test]
fn indentation_gates_block_membership() {
    let cmds = parse("if 1:\n\t1\n2\n").expect("must parse");
    assert_eq!(cmds.len(), 2);
    match &cmds[0] {
        Command::If { if_branch, else_branch } => {
            assert_eq!(if_branch.len(), 1);
            assert!(else_branch.is_none());
            assert_eq!(if_branch[0].commands.len(), 1);
            match &if_branch[0].commands[0] {
                Command::Expression(e) => assert!(expr_eq(e, &num(1))),
                other => panic!("expected an expression, got {:?}", other),
            }
        }
        other => panic!("expected an if command, got {:?}", other),
    }
    match &cmds[1] {
        Command::Expression(e) => assert!(expr_eq(e, &num(2))),
        other => panic!("expected an expression, got {:?}", other),
    }
}

#[test]
fn underindented_body_is_empty() {
    let cmds = parse("if 1:\n2\n").expect("must parse");
    assert_eq!(cmds.len(), 2);
    match &cmds[0] {
        Command::If { if_branch, .. } => {
            assert_eq!(if_branch.len(), 1);
            assert!(if_branch[0].commands.is_empty());
        }
        other => panic!("expected an if command, got {:?}", other),
    }
}

#[test]
fn call_and_index_synthesis() {
    let e = statement_expr("f(x,y)");
    match &e {
        Expression::Binary { op: BinaryOp::Call, lhs, rhs } => {
            assert!(expr_eq(lhs, &Expression::Object(Object::Variable(b"f".to_vec()))));
            match rhs.as_ref() {
                Expression::Object(Object::Tuple(items)) => {
                    assert_eq!(items.len(), 2);
                    assert!(expr_eq(
                        &items[0],
                        &Expression::Object(Object::Variable(b"x".to_vec()))
                    ));
                    assert!(expr_eq(
                        &items[1],
                        &Expression::Object(Object::Variable(b"y".to_vec()))
                    ));
                }
                other => panic!("expected a tuple operand, got {:?}", other),
            }
        }
        other => panic!("expected a call, got {:?}", other),
    }
    let e = statement_expr("a[0]");
    match &e {
        Expression::Binary { op: BinaryOp::Index, lhs, rhs } => {
            assert!(expr_eq(lhs, &Expression::Object(Object::Variable(b"a".to_vec()))));
            match rhs.as_ref() {
                Expression::Object(Object::Array(items)) => {
                    assert_eq!(items.len(), 1);
                    assert!(expr_eq(&items[0], &num(0)));
                }
                other => panic!("expected an array operand, got {:?}", other),
            }
        }
        other => panic!("expected an index, got {:?}", other),
    }
}

#[test]
fn if_elif_else_shape() {
    let cmds = parse("if 1:\n\t1\nelif 2:\n\t2\nelse:\n\t3\n").expect("must parse");
    assert_eq!(cmds.len(), 1);
    match &cmds[0] {
        Command::If { if_branch, else_branch } => {
            assert_eq!(if_branch.len(), 2);
            assert!(expr_eq(&if_branch[0].condition, &num(1)));
            assert!(expr_eq(&if_branch[1].condition, &num(2)));
            let els = else_branch.as_ref().expect("else branch must be present");
            assert_eq!(els.len(), 1);
            match &els[0] {
                Command::Expression(e) => assert!(expr_eq(e, &num(3))),
                other => panic!("expected an expression, got {:?}", other),
            }
        }
        other => panic!("expected an if command, got {:?}", other),
    }
}

#[test]
fn key_value_and_unary_forms() {
    let e = statement_expr("k: 1");
    match &e {
        Expression::Object(Object::DictItem(k, v)) => {
            assert!(expr_eq(k, &Expression::Object(Object::Variable(b"k".to_vec()))));
            assert!(expr_eq(v, &num(1)));
        }
        other => panic!("expected a key-value pair, got {:?}", other),
    }
    let e = statement_expr("-1");
    match &e {
        Expression::Unary { op: UnaryOp::Minus, hs } => assert!(expr_eq(hs, &num(1))),
        other => panic!("expected a unary minus, got {:?}", other),
    }
    let e = statement_expr("1?");
    match &e {
        Expression::Unary { op: UnaryOp::Question, hs } => assert!(expr_eq(hs, &num(1))),
        other => panic!("expected a question form, got {:?}", other),
    }
}

#[test]
fn multiple_errors_reported_with_spans() {
    let errs = parse("]\n)\n").expect_err("both lines must fail");
    assert_eq!(errs.len(), 2);
    assert_eq!((errs[0].start, errs[0].end), (0, 1));
    assert_eq!((errs[1].start, errs[1].end), (2, 3));
}

#[test]
fn while_keyword_is_not_a_statement() {
    let errs = parse("while 1:\n").expect_err("no while statement exists in the grammar");
    assert_eq!(errs.len(), 1);
}

#[test]
fn failed_parse_yields_no_partial_ast() {
    let r = parse("1\n]\n2\n");
    let errs = r.expect_err("the bad line must fail the whole parse");
    assert_eq!(errs.len(), 1);
    assert_eq!((errs[0].start, errs[0].end), (2, 3));
}
