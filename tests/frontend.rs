use pycompiler::ast::{ExprData, StmtData};
use pycompiler::explicate_control::ExplicateControl;
use pycompiler::parser::{parse_decimal, Parser};
use pycompiler::reporter::ErrorReporter;
use pycompiler::scanner::{LexError, Scanner};
use pycompiler::token::{Kind, Token};
use pycompiler::type_checking::{Type, TypeChecker, TypeError};

fn kinds(src: &str) -> Vec<Kind> {
    Scanner::new(src).scan_tokens().unwrap().iter().map(|t| t.kind()).collect()
}

fn parse(src: &str) -> Vec<pycompiler::ast::Stmt> {
    Parser::new(Scanner::new(src).scan_tokens().unwrap()).stmts().unwrap()
}

#[test]
fn scanner_kinds_and_lexemes() {
    assert_eq!(
        kinds("x = 10\nprint_int(x + 32)"),
        vec![
            Kind::Name,
            Kind::Equal,
            Kind::Integer,
            Kind::NewLine,
            Kind::Name,
            Kind::LeftParen,
            Kind::Name,
            Kind::Plus,
            Kind::Integer,
            Kind::RightParen,
            Kind::Eof,
        ]
    );
    let toks = Scanner::new("ab >= 1.5").scan_tokens().unwrap();
    assert_eq!(toks[0].lexeme(), "ab");
    assert_eq!(toks[1].lexeme(), ">=");
    assert_eq!(toks[2].kind(), Kind::Float);
    assert_eq!(toks[2].lexeme(), "1.5");
    assert_eq!(toks[2].pos(), 6);
}

#[test]
fn scanner_star_and_slash() {
    assert_eq!(kinds("a * b / c"), vec![Kind::Name, Kind::Star, Kind::Name, Kind::Slash, Kind::Name, Kind::Eof]);
}

#[test]
fn scanner_keywords() {
    assert_eq!(
        kinds("not and or if else true false iffy"),
        vec![
            Kind::Bang,
            Kind::And,
            Kind::Or,
            Kind::If,
            Kind::Else,
            Kind::True,
            Kind::False,
            Kind::Name,
            Kind::Eof,
        ]
    );
}

#[test]
fn scanner_errors() {
    assert_eq!(Scanner::new("a $").scan_tokens().unwrap_err(), LexError::UnexpectedChar { ch: '$', line: 1, pos: 2 });
    assert!(matches!(Scanner::new("!a").scan_tokens(), Err(LexError::ExpectedBangEqual { .. })));
    assert!(matches!(Scanner::new("1.2.3").scan_tokens(), Err(LexError::UnexpectedDot { .. })));
    assert!(matches!(Scanner::new("1.x").scan_tokens(), Err(LexError::ExpectedDigit { .. })));
}

#[test]
fn decimal_reader() {
    assert_eq!(parse_decimal("0"), Some(0));
    assert_eq!(parse_decimal("9223372036854775807"), Some(i64::MAX));
    assert_eq!(parse_decimal("9223372036854775808"), None);
    assert_eq!(parse_decimal("12a"), None);
    assert_eq!(parse_decimal(""), None);
}

#[test]
fn parser_shapes() {
    let prog = parse("x = 10\nprint_int(x + 32)\n");
    assert_eq!(prog.len(), 2);
    assert!(matches!(&prog[0].stmt, StmtData::Assign { binding, .. } if matches!(binding.data, ExprData::Int(10))));
    match &prog[1].stmt {
        StmtData::Expr(e) => match &e.data {
            ExprData::Call { name, args } => {
                assert_eq!(name.get_ident(), Some("print_int"));
                assert_eq!(args.len(), 1);
                assert!(matches!(args[0].data, ExprData::Prim { .. }));
            },
            _ => panic!("call expected"),
        },
        _ => panic!("expression statement expected"),
    }
    let prog = parse("z = 5 if a < 1 else 7");
    match &prog[0].stmt {
        StmtData::Assign { binding, .. } => assert!(matches!(binding.data, ExprData::Condition { .. })),
        _ => panic!("assignment expected"),
    }
    let prog = parse("y = { a = 1\n a + 2 }");
    match &prog[0].stmt {
        StmtData::Assign { binding, .. } => match &binding.data {
            ExprData::Block { body, result } => {
                assert_eq!(body.len(), 1);
                assert!(result.is_some());
            },
            _ => panic!("block expected"),
        },
        _ => panic!("assignment expected"),
    }
}

#[test]
fn parser_precedence() {
    let prog = parse("1 + 2 < 4 and true");
    match &prog[0].stmt {
        StmtData::Expr(e) => match &e.data {
            ExprData::Prim { op, operands } => {
                assert_eq!(op.kind(), Kind::And);
                assert!(matches!(&operands[0].data, ExprData::Prim { op, .. } if op.kind() == Kind::Less));
            },
            _ => panic!("operator expected"),
        },
        _ => panic!("expression expected"),
    }
}

#[test]
fn parser_errors() {
    let err = Parser::new(Scanner::new("f(1, 2").scan_tokens().unwrap()).stmts().unwrap_err();
    assert_eq!(err.message, "Expected `,`");
    let err = Parser::new(Scanner::new("(1 + 2").scan_tokens().unwrap()).stmts().unwrap_err();
    assert_eq!(err.message, "Expected `)`.");
    let err = Parser::new(Scanner::new("x = )").scan_tokens().unwrap()).stmts().unwrap_err();
    assert_eq!(err.message, "Unexpected Token.");
    let err = Parser::new(Scanner::new("x = 99999999999999999999").scan_tokens().unwrap()).stmts().unwrap_err();
    assert_eq!(err.message, "Integer literal out of range.");
}

#[test]
fn type_checker_accepts_and_rejects() {
    assert!(TypeChecker::new().check(&parse("x = 10\nprint_int(x + 32)")).is_ok());
    assert!(matches!(TypeChecker::new().check(&parse("print_int(y)")), Err(TypeError::UnknownName { .. })));
    assert!(matches!(TypeChecker::new().check(&parse("x = 1 + true")), Err(TypeError::Mismatch { .. })));
    assert!(matches!(TypeChecker::new().check(&parse("x = 1 if 2 else 3")), Err(TypeError::NonBoolCondition { .. })));
    assert!(matches!(TypeChecker::new().check(&parse("x = 1\nx(2)")), Err(TypeError::NotAFunction { .. })));
    assert!(matches!(TypeChecker::new().check(&parse("x = 2 * 3")), Err(TypeError::Unsupported { .. })));
    assert!(TypeChecker::new().check(&parse("y = { a = 1\n a + 2 }")).is_ok());
}

#[test]
fn type_compatibility() {
    assert!(Type::Any.is_compatible(&Type::Int));
    assert!(Type::Int.is_compatible(&Type::Int));
    assert!(!Type::Int.is_compatible(&Type::Bool));
    let f1 = Type::Func { params: vec![Type::Int], ret: Box::new(Type::Unit) };
    let f2 = Type::Func { params: vec![Type::Any], ret: Box::new(Type::Unit) };
    let f3 = Type::Func { params: vec![Type::Bool], ret: Box::new(Type::Unit) };
    assert!(f1.is_compatible(&f2));
    assert!(!f1.is_compatible(&f3));
}

#[test]
fn reporter_locates_lines() {
    let r = ErrorReporter::new(Some("a.py".to_string()), "x = 1\ny = $\n");
    let d = r.error("Unexpected character: `$`", 2, 10, 1);
    assert_eq!(d.lineno, 2);
    assert_eq!(d.column, 4);
    assert_eq!(d.line, "y = $");
    assert_eq!(d.file.as_deref(), Some("a.py"));
    assert_eq!(r.range2lineno((6, 10)), Some((2, 2)));
    assert_eq!(r.range2lineno((50, 60)), None);
    let tok = Token::new(Kind::Name, "y".to_string(), 2, 6);
    assert_eq!(r.error_token("cannot find name", &tok).column, 0);
    assert!(r.error_range((0, 0), "here").is_some());
}

#[test]
fn explicate_block_labels() {
    let prog = parse("z = 5 if a < 1 else 7");
    let p = ExplicateControl::explicate_control(&prog).unwrap();
    let labels: Vec<&str> = p.blocks.iter().map(|(l, _)| l.as_str()).collect();
    assert!(labels.contains(&"block_0"));
    assert!(labels.contains(&"start"));
}

#[test]
fn source_text_of_ast() {
    let prog = parse("x = 10\nprint_int(x + -3)\nz = 5 if true else 7");
    let texts: Vec<String> = prog.iter().map(|s| s.to_text()).collect();
    assert_eq!(texts, vec!["x = 10", "print_int(x + - 3)", "z = 5 if true else 7"]);
}

#[test]
fn messages_of_errors() {
    let f = Type::Func { params: vec![Type::Int], ret: Box::new(Type::Unit) };
    assert_eq!(f.to_text(), "(int,) => ()");
    let e = TypeChecker::new().check(&parse("x = 1 + true")).unwrap_err();
    assert_eq!(e.message(), "bool != int");
    let (m, line, pos) = Scanner::new("a $").scan_tokens().unwrap_err().describe();
    assert_eq!(m, "Unexpected character: `$`");
    assert_eq!((line, pos), (1, 2));
}
