use objection::lexer::get_tokens;
use objection::lexer::tokens::TokenType;
use objection::parser::ast::{NodeExpr, NodeLiteral, NodeProg, NodeStmt};
use objection::parser::{parse_prog, SyntaxError};

fn parse_source(src: &str) -> Result<NodeProg, SyntaxError> {
    parse_prog(get_tokens(src.to_string()))
}

#[test]
fn parse_empty_program() {
    let prog = parse_source("").unwrap();
    assert_eq!(prog.functions.len(), 0);
}

#[test]
fn parse_return_literal_function() {
    let prog = parse_source("main(): int = { return 152; }").unwrap();
    assert_eq!(prog.functions.len(), 1);
    let f = &prog.functions[0];
    assert_eq!(f.ident.name, "main");
    assert_eq!(f.block.stmts.len(), 1);
    match &f.block.stmts[0] {
        NodeStmt::Return(NodeExpr::Literal(NodeLiteral::IntLit(v))) => assert_eq!(*v, 152),
        other => panic!("unexpected statement {:?}", other),
    }
}

#[test]
fn parse_assign_then_return() {
    let prog = parse_source("main(): int = { x: int = 12; return x; }").unwrap();
    let f = &prog.functions[0];
    assert_eq!(f.block.stmts.len(), 2);
    match &f.block.stmts[0] {
        NodeStmt::Assign(id, _, NodeExpr::Literal(NodeLiteral::IntLit(v))) => {
            assert_eq!(id.name, "x");
            assert_eq!(*v, 12);
        }
        other => panic!("unexpected statement {:?}", other),
    }
    match &f.block.stmts[1] {
        NodeStmt::Return(NodeExpr::Ident(id)) => assert_eq!(id.name, "x"),
        other => panic!("unexpected statement {:?}", other),
    }
}

#[test]
fn parse_two_functions_in_order() {
    let prog = parse_source("a(): int = { return 1; } b(): int = { return 2; }").unwrap();
    assert_eq!(prog.functions.len(), 2);
    assert_eq!(prog.functions[0].ident.name, "a");
    assert_eq!(prog.functions[1].ident.name, "b");
}

#[test]
fn parse_empty_block() {
    let prog = parse_source("main(): int = { }").unwrap();
    assert_eq!(prog.functions[0].block.stmts.len(), 0);
}

#[test]
fn parse_duplicate_function_rejected() {
    let err = parse_source("main(): int = { return 1; }\nmain(): int = { return 2; }")
        .unwrap_err();
    match err {
        SyntaxError::DuplicateFunction(tok) => {
            assert_eq!(tok.value, "main");
            assert_eq!(tok.line, 2);
            assert_eq!(tok.column, 1);
        }
        other => panic!("unexpected error {:?}", other),
    }
}

#[test]
fn parse_missing_colon_names_expected_kind() {
    // the function's `:` type annotation is missing: the `=` is found instead
    let err = parse_source("main() = { return 1; }").unwrap_err();
    match err {
        SyntaxError::Expected(expected, tok) => {
            assert_eq!(expected, TokenType::Colon);
            assert_eq!(tok.token_type, TokenType::Assign);
            assert_eq!(tok.value, "=");
            assert_eq!(tok.line, 1);
            assert_eq!(tok.column, 8);
        }
        other => panic!("unexpected error {:?}", other),
    }
}

#[test]
fn parse_unknown_identifier_rejected() {
    let err = parse_source("main(): int = { return y; }").unwrap_err();
    match err {
        SyntaxError::UnknownIdentifier(tok) => assert_eq!(tok.value, "y"),
        other => panic!("unexpected error {:?}", other),
    }
}

#[test]
fn parse_function_name_resolves_in_expression() {
    // a declared function name, including the current one, is a known name
    let prog = parse_source("main(): int = { return main; }").unwrap();
    match &prog.functions[0].block.stmts[0] {
        NodeStmt::Return(NodeExpr::Ident(id)) => assert_eq!(id.name, "main"),
        other => panic!("unexpected statement {:?}", other),
    }
}

#[test]
fn parse_assigned_name_visible_to_later_statement_only() {
    let err = parse_source("main(): int = { y: int = x; x: int = 1; }").unwrap_err();
    match err {
        SyntaxError::UnknownIdentifier(tok) => assert_eq!(tok.value, "x"),
        other => panic!("unexpected error {:?}", other),
    }
}

#[test]
fn parse_statement_must_start_with_return_or_identifier() {
    let err = parse_source("main(): int = { 5; }").unwrap_err();
    match err {
        SyntaxError::ExpectedStatement(tok) => assert_eq!(tok.value, "5"),
        other => panic!("unexpected error {:?}", other),
    }
}

#[test]
fn parse_literal_too_large_rejected() {
    let err = parse_source("main(): int = { return 99999999999999999999; }").unwrap_err();
    assert!(matches!(err, SyntaxError::BadLiteral(_)));
}

#[test]
fn parse_largest_literal_accepted() {
    let prog = parse_source("main(): int = { return 9223372036854775807; }").unwrap();
    match &prog.functions[0].block.stmts[0] {
        NodeStmt::Return(NodeExpr::Literal(NodeLiteral::IntLit(v))) => {
            assert_eq!(*v, i64::MAX);
        }
        other => panic!("unexpected statement {:?}", other),
    }
}

#[test]
fn parse_unclosed_block_fails_at_end_of_file_token() {
    let err = parse_source("main(): int = { return 1;").unwrap_err();
    match err {
        SyntaxError::ExpectedStatement(tok) => assert_eq!(tok.token_type, TokenType::EOF),
        other => panic!("unexpected error {:?}", other),
    }
}

#[test]
fn parse_missing_type_names_found_token() {
    let err = parse_source("main(): float = { return 1; }").unwrap_err();
    match err {
        SyntaxError::ExpectedType(tok) => assert_eq!(tok.value, "float"),
        other => panic!("unexpected error {:?}", other),
    }
}
