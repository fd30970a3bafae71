use luo::error::Error;
use luo::scanning::lexer::{lex, Lexer};
use luo::scanning::nodes::{join, Node, NodeType};
use luo::scanning::parser::{parse, Parser};
use luo::scanning::position::Position;
use luo::scanning::tokens::{Numeral, Token, TokenType};

fn path() -> String {
    String::from("test.lua")
}

fn kinds(text: &str) -> Vec<TokenType> {
    lex(&path(), text.to_string()).unwrap().into_iter().map(|t| t.token).collect()
}

fn program(text: &str) -> Result<Node, Error> {
    parse(&path(), lex(&path(), text.to_string()).unwrap())
}

fn expression(text: &str) -> Node {
    let mut parser = Parser::new(&path(), lex(&path(), text.to_string()).unwrap());
    parser.expr().unwrap()
}

fn decimal(whole: &str) -> TokenType {
    TokenType::Number(Numeral { hex: false, whole: whole.to_string(), frac: None })
}

fn is_number(n: &Node, whole: &str) -> bool {
    matches!(&n.node, NodeType::Number(x) if !x.hex && x.whole == whole && x.frac.is_none())
}

fn is_name(n: &Node, name: &str) -> bool {
    matches!(&n.node, NodeType::ID(x) if x == name)
}

#[test]
fn precedence_mul_over_add() {
    let n = expression("1 + 2 * 3");
    match &n.node {
        NodeType::Binary { left, op, right } => {
            assert_eq!(*op, TokenType::Add);
            assert!(is_number(left, "1"));
            match &right.node {
                NodeType::Binary { left, op, right } => {
                    assert_eq!(*op, TokenType::Mul);
                    assert!(is_number(left, "2"));
                    assert!(is_number(right, "3"));
                }
                other => panic!("unexpected {:?}", other),
            }
        }
        other => panic!("unexpected {:?}", other),
    }
}

#[test]
fn subtraction_groups_left() {
    let n = expression("1 - 2 - 3");
    match &n.node {
        NodeType::Binary { left, op, right } => {
            assert_eq!(*op, TokenType::Sub);
            assert!(is_number(right, "3"));
            match &left.node {
                NodeType::Binary { left, op, right } => {
                    assert_eq!(*op, TokenType::Sub);
                    assert!(is_number(left, "1"));
                    assert!(is_number(right, "2"));
                }
                other => panic!("unexpected {:?}", other),
            }
        }
        other => panic!("unexpected {:?}", other),
    }
}

#[test]
fn hex_literal() {
    let toks = kinds("0x1F");
    assert_eq!(toks.len(), 1);
    match &toks[0] {
        TokenType::Number(n) => {
            assert!(n.hex);
            assert_eq!(n.whole, "1F");
            assert_eq!(n.value(), Some(31));
            assert_eq!(n.value().unwrap() as f64, 31.0);
            assert_eq!(n.text(), "0x1F");
        }
        other => panic!("unexpected {:?}", other),
    }
    assert_eq!(lex(&path(), "0x".to_string()).unwrap_err(), Error::ExpectedHexDigit);
    assert_eq!(lex(&path(), "0xg".to_string()).unwrap_err(), Error::ExpectedHexDigit);
}

#[test]
fn decimal_literals() {
    assert_eq!(kinds("42"), vec![decimal("42")]);
    let toks = kinds("12.5");
    assert_eq!(
        toks,
        vec![TokenType::Number(Numeral {
            hex: false,
            whole: "12".to_string(),
            frac: Some("5".to_string())
        })]
    );
    match &toks[0] {
        TokenType::Number(n) => assert_eq!(n.text().parse::<f64>().unwrap(), 12.5),
        _ => unreachable!(),
    }
}

#[test]
fn numeral_values() {
    let n = |t: &str| match &kinds(t)[0] {
        TokenType::Number(n) => n.clone(),
        other => panic!("unexpected {:?}", other),
    };
    assert_eq!(n("42").value(), Some(42));
    assert_eq!(n("0xff").value(), Some(255));
    assert_eq!(n("18446744073709551615").value(), Some(u64::MAX));
    assert_eq!(n("18446744073709551616").value(), None);
    assert_eq!(n("1.5").value(), None);
}

#[test]
fn string_escapes() {
    assert_eq!(kinds("\"a\\nb\""), vec![TokenType::String("a\nb".to_string())]);
    assert_eq!(kinds("'x\\ty\\\\z\\q'"), vec![TokenType::String("x\ty\\zq".to_string())]);
    assert_eq!(lex(&path(), "\"abc".to_string()).unwrap_err(), Error::UnexpectedEOF);
    assert_eq!(lex(&path(), "\"abc\\".to_string()).unwrap_err(), Error::UnexpectedEOF);
}

#[test]
fn operators_and_comments() {
    assert_eq!(
        kinds("a == b ~= c <= d >= e < f > g = h .. i ... j . k"),
        vec![
            TokenType::ID("a".to_string()),
            TokenType::EQ,
            TokenType::ID("b".to_string()),
            TokenType::NE,
            TokenType::ID("c".to_string()),
            TokenType::LE,
            TokenType::ID("d".to_string()),
            TokenType::GE,
            TokenType::ID("e".to_string()),
            TokenType::LT,
            TokenType::ID("f".to_string()),
            TokenType::GT,
            TokenType::ID("g".to_string()),
            TokenType::Assign,
            TokenType::ID("h".to_string()),
            TokenType::Concat,
            TokenType::ID("i".to_string()),
            TokenType::Args,
            TokenType::ID("j".to_string()),
            TokenType::Field,
            TokenType::ID("k".to_string()),
        ]
    );
    assert_eq!(kinds("1 -- note\n2"), vec![decimal("1"), TokenType::Sub, decimal("2")]);
    assert_eq!(lex(&path(), "a ~ b".to_string()).unwrap_err(), Error::ExpectedChar('='));
    assert_eq!(lex(&path(), "a @ b".to_string()).unwrap_err(), Error::IllegalChar('@'));
}

#[test]
fn keywords_and_names() {
    assert_eq!(
        kinds("local function true false nil while_ x_y"),
        vec![
            TokenType::Local,
            TokenType::Fn,
            TokenType::Boolean(true),
            TokenType::Boolean(false),
            TokenType::Nil,
            TokenType::ID("while_".to_string()),
            TokenType::ID("x_y".to_string()),
        ]
    );
    assert_eq!(TokenType::from_name("elseif".to_string()), TokenType::Elseif);
    assert_eq!(TokenType::from_name("abc".to_string()), TokenType::ID("abc".to_string()));
    assert_eq!(kinds("a1"), vec![TokenType::ID("a".to_string()), decimal("1")]);
}

#[test]
fn token_names() {
    assert_eq!(TokenType::ID("x".to_string()).name(), "identifier");
    assert_eq!(TokenType::Add.name(), "'+'");
    assert_eq!(TokenType::TableIn.display(), "{");
    assert_eq!(TokenType::Fn.display(), "function");
    assert_eq!(decimal("7").name(), "number");
}

#[test]
fn multi_assignment() {
    let chunk = program("local a, b = 1, 2").unwrap();
    match &chunk.node {
        NodeType::Chunk(stats) => {
            assert_eq!(stats.len(), 1);
            match &stats[0].node {
                NodeType::LocalAssignVars(vars, exprs) => {
                    assert_eq!(vars.len(), 2);
                    assert!(is_name(&vars[0], "a"));
                    assert!(is_name(&vars[1], "b"));
                    assert_eq!(exprs.len(), 2);
                    assert!(is_number(&exprs[0], "1"));
                    assert!(is_number(&exprs[1], "2"));
                }
                other => panic!("unexpected {:?}", other),
            }
        }
        other => panic!("unexpected {:?}", other),
    }
}

#[test]
fn bare_expression_statement_rejected() {
    let err = program("1 + 2").unwrap_err();
    assert!(matches!(&err, Error::UnexpectedNode(NodeType::Binary { .. })));
    assert_eq!(err.message(), "ERROR: unexpected binary operation");
}

#[test]
fn if_arms_align() {
    let chunk = program("if a then 1 elseif b then 2 else 3 end");
    // bodies holding bare numbers are statements, so they are rejected
    assert!(chunk.is_err());
    let chunk = program("if a then f() elseif b then g() else h() end").unwrap();
    match &chunk.node {
        NodeType::Chunk(stats) => match &stats[0].node {
            NodeType::If { conds, cases, else_case } => {
                assert_eq!(conds.len(), 2);
                assert_eq!(cases.len(), 2);
                assert!(else_case.is_some());
                assert!(is_name(&conds[0], "a"));
                assert!(is_name(&conds[1], "b"));
            }
            other => panic!("unexpected {:?}", other),
        },
        other => panic!("unexpected {:?}", other),
    }
}

#[test]
fn empty_program() {
    let toks = lex(&path(), String::new()).unwrap();
    assert!(toks.is_empty());
    let chunk = parse(&path(), toks).unwrap();
    assert!(matches!(&chunk.node, NodeType::Chunk(v) if v.is_empty()));
    assert_eq!(chunk.pos, Position::zero());
}

#[test]
fn self_call() {
    let chunk = program("obj:method(1)").unwrap();
    match &chunk.node {
        NodeType::Chunk(stats) => match &stats[0].node {
            NodeType::SelfCall { head, field, args } => {
                assert!(is_name(head, "obj"));
                assert_eq!(field, "method");
                assert_eq!(args.len(), 1);
                assert!(is_number(&args[0], "1"));
            }
            other => panic!("unexpected {:?}", other),
        },
        other => panic!("unexpected {:?}", other),
    }
    let chunk = program("obj:m()").unwrap();
    assert!(matches!(&chunk.node, NodeType::Chunk(s) if matches!(&s[0].node, NodeType::SelfCall { args, .. } if args.is_empty())));
}

#[test]
fn syntax_errors() {
    assert_eq!(
        program("f(1").unwrap_err(),
        Error::ExpectedToken(TokenType::EvalOut, None)
    );
    assert_eq!(program("for").unwrap_err(), Error::UnexpectedToken(TokenType::For));
    assert_eq!(program("while a b").unwrap_err(), Error::ExpectedToken(TokenType::Do, Some(TokenType::ID("b".to_string()))));
    assert_eq!(program("do f()").unwrap_err(), Error::UnexpectedEOF);
    assert_eq!(program("local").unwrap_err(), Error::UnexpectedEOF);
    assert_eq!(
        Error::ExpectedToken(TokenType::ID("x".to_string()), Some(TokenType::Assign)).message(),
        "ERROR: expected identifier, got '='"
    );
    assert_eq!(Error::IllegalChar('@').message(), "ERROR: illegal character '@'");
    assert_eq!(Error::error("boom").message(), "ERROR: boom");
}

#[test]
fn statements_and_calls() {
    let chunk = program("x = 1\na, b = 2, 3\nreturn x\nbreak\nwhile x do f \"s\" end\ndo t.k[1](2) end").unwrap();
    match &chunk.node {
        NodeType::Chunk(s) => {
            assert_eq!(s.len(), 6);
            assert!(matches!(&s[0].node, NodeType::Assign(..)));
            assert!(matches!(&s[1].node, NodeType::AssignVars(v, e) if v.len() == 2 && e.len() == 2));
            assert!(matches!(&s[2].node, NodeType::Return(_)));
            assert!(matches!(&s[3].node, NodeType::Break));
            assert!(matches!(&s[4].node, NodeType::While { .. }));
            assert!(matches!(&s[5].node, NodeType::DoBlock(b) if b.len() == 1));
        }
        other => panic!("unexpected {:?}", other),
    }
}

#[test]
fn unary_binds_below_power() {
    let n = expression("-x ^ 2");
    match &n.node {
        NodeType::Unary { op, node } => {
            assert_eq!(*op, TokenType::Sub);
            assert!(matches!(&node.node, NodeType::Binary { op: TokenType::Pow, .. }));
        }
        other => panic!("unexpected {:?}", other),
    }
    assert_eq!(NodeType::Nil.name(), "nil");
    assert_eq!(expression("(1 + 2)").node.name(), "binary operation");
}

#[test]
fn format_reparses_to_same_text() {
    let source = "local a, b = 1, \"q\\\"x\\n\"\nif a == b then\n f(a .. b)\nelseif not a then\n obj:m(-a ^ 2, (1 + 2) * 3)\nelse\n t.k[\"z\"] = 0x1F\nend\nwhile a do break end\ndo g{} end";
    let first = program(source);
    assert!(first.is_err());
    let source = "local a, b = 1, \"q\\\"x\\n\"\nif a == b then\n f(a .. b)\nelseif not a then\n obj:m(-a ^ 2, (1 + 2) * 3)\nelse\n x = t.k[\"z\"] .. 0x1F\nend\nwhile a do break end\ndo g \"s\" end";
    let first = program(source).unwrap();
    let text = first.format(0, false);
    let second = program(&text).unwrap();
    assert_eq!(second.format(0, false), text);
    assert!(text.contains("(1 + 2) * 3"));
    assert!(text.contains("\"q\\\"x\\n\""));
    assert!(text.contains("elseif not a then"));
}

#[test]
fn lexer_cursor() {
    let mut lx = Lexer::new(&path(), "a\nb".to_string());
    assert_eq!(lx.get(), Some('a'));
    assert_eq!(lx.pos(), Position::new(0..1, 0..1));
    lx.advance();
    assert_eq!(lx.get(), Some('\n'));
    assert_eq!(lx.pos(), Position::new(1..2, 0..1));
    lx.advance();
    assert_eq!(lx.pos(), Position::new(1..2, 1..2));
    let toks: Vec<Token> = lx.lex().unwrap();
    assert_eq!(toks.len(), 1);
    assert_eq!(*toks[0].token(), TokenType::ID("b".to_string()));
}

#[test]
fn positions_extend() {
    let mut p = Position::zero();
    p.extend(&Position::new(2..3, 4..5));
    assert_eq!(p, Position::new(0..3, 0..5));
    let toks = lex(&path(), "ab == c".to_string()).unwrap();
    assert_eq!(toks[0].pos, Position::new(0..1, 0..2));
    assert_eq!(toks[1].pos, Position::new(0..1, 3..5));
    let toks = lex(&path(), "x 0x1F".to_string()).unwrap();
    assert_eq!(toks[1].pos, Position::new(0..1, 2..6));
    let toks = lex(&path(), "a\n  \"s\"".to_string()).unwrap();
    assert_eq!(toks[1].pos.ln_start, 1);
    assert_eq!(toks[1].pos.col_start, 3);
}

#[test]
fn join_strings() {
    let v = vec!["a".to_string(), "b".to_string(), "c".to_string()];
    assert_eq!(join(&v, ", "), "a, b, c");
    assert_eq!(join(&Vec::new(), ", "), "");
}

#[test]
fn node_positions() {
    let n = expression("ab + c * d");
    assert_eq!(n.pos, Position::new(0..1, 0..10));
    match &n.node {
        NodeType::Binary { left, right, .. } => {
            assert_eq!(left.pos, Position::new(0..1, 0..2));
            assert_eq!(right.pos, Position::new(0..1, 5..10));
        }
        other => panic!("unexpected {:?}", other),
    }
    let chunk = program("local x = f(1)\ny = 2").unwrap();
    assert_eq!(chunk.pos, Position::new(0..1, 0..5));
    match &chunk.node {
        NodeType::Chunk(s) => {
            assert_eq!(s[0].pos, Position::new(0..1, 0..14));
            assert_eq!(s[1].pos.ln_start, 1);
            assert_eq!(s[1].pos.ln_end, 2);
        }
        other => panic!("unexpected {:?}", other),
    }
    let n = expression("1 - 2 - 3");
    assert_eq!(n.pos, Position::new(0..1, 0..9));
    match &n.node {
        NodeType::Binary { left, .. } => assert_eq!(left.pos, Position::new(0..1, 0..5)),
        other => panic!("unexpected {:?}", other),
    }
    let n = expression("(a)[b]");
    assert_eq!(n.pos, Position::new(0..1, 0..6));
}

#[test]
fn token_spans() {
    let toks = lex(&path(), "a .. b ... c - -- x\n'hi'".to_string()).unwrap();
    assert_eq!(toks[1].pos, Position::new(0..1, 2..4));
    assert_eq!(toks[3].pos, Position::new(0..1, 7..10));
    assert_eq!(toks[5].pos, Position::new(0..1, 13..14));
    assert_eq!(toks[6].token, TokenType::Sub);
    assert_eq!(toks[6].pos, Position::new(0..1, 15..16));
    assert_eq!(toks[7].token, TokenType::String("hi".to_string()));
    assert_eq!(toks[7].pos.col_start, 1);
    assert_eq!(toks[7].pos.col_end, 4);
}

#[test]
fn expect_any_token() {
    let parser = Parser::new(&path(), lex(&path(), "x".to_string()).unwrap());
    assert_eq!(parser.expect_token(TokenType::ID("x".to_string())), Ok(()));
    assert_eq!(
        parser.expect_token(TokenType::ID("y".to_string())),
        Err(Error::ExpectedToken(TokenType::ID("y".to_string()), Some(TokenType::ID("x".to_string()))))
    );
    assert_eq!(*parser.pos().unwrap(), Position::new(0..1, 0..1));
}

#[test]
fn message_escapes_characters() {
    assert_eq!(Error::IllegalChar('\t').message(), "ERROR: illegal character '\\t'");
    assert_eq!(Error::ExpectedChar('=').message(), "ERROR: expected character '='");
    assert_eq!(Error::IllegalChar('\'').message(), "ERROR: illegal character '\\''");
}
