use objection::lexer::get_tokens;
use objection::lexer::tokens::{get_keywords, get_symbols, TokenType};

fn kinds(src: &str) -> Vec<TokenType> {
    get_tokens(src.to_string()).iter().map(|t| t.token_type).collect()
}

#[test]
fn tokenize_empty_input() {
    let toks = get_tokens(String::new());
    assert_eq!(toks.len(), 1);
    assert_eq!(toks[0].token_type, TokenType::EOF);
    assert_eq!(toks[0].value, "<EOF>");
    assert_eq!(toks[0].line, 1);
    assert_eq!(toks[0].column, 1);
}

#[test]
fn tokenize_digit_run() {
    let toks = get_tokens("152".to_string());
    assert_eq!(toks.len(), 2);
    assert_eq!(toks[0].token_type, TokenType::IntLit);
    assert_eq!(toks[0].value, "152");
    assert_eq!(toks[0].line, 1);
    assert_eq!(toks[0].column, 1);
    assert_eq!(toks[1].token_type, TokenType::EOF);
    assert_eq!(toks[1].line, 1);
    assert_eq!(toks[1].column, 4);
}

#[test]
fn tokenize_keywords_and_identifiers() {
    let toks = get_tokens("int return main _x a1".to_string());
    assert_eq!(
        toks.iter().map(|t| t.token_type).collect::<Vec<_>>(),
        vec![
            TokenType::Int,
            TokenType::Ret,
            TokenType::Id,
            TokenType::Id,
            TokenType::Id,
            TokenType::EOF,
        ]
    );
    assert_eq!(toks[2].value, "main");
    assert_eq!(toks[3].value, "_x");
    assert_eq!(toks[4].value, "a1");
    assert_eq!(toks[1].column, 5);
    assert_eq!(toks[2].column, 12);
}

#[test]
fn tokenize_symbols() {
    assert_eq!(
        kinds("(){};:="),
        vec![
            TokenType::LP,
            TokenType::RP,
            TokenType::LB,
            TokenType::RB,
            TokenType::Semi,
            TokenType::Colon,
            TokenType::Assign,
            TokenType::EOF,
        ]
    );
}

#[test]
fn tokenize_unknown_character() {
    let toks = get_tokens("@".to_string());
    assert_eq!(toks.len(), 2);
    assert_eq!(toks[0].token_type, TokenType::UNKNOWN);
    assert_eq!(toks[0].value, "@");
    assert_eq!(toks[0].column, 1);
    assert_eq!(toks[1].column, 2);
}

#[test]
fn tokenize_newlines_track_position() {
    let toks = get_tokens("a\nbb\n  c".to_string());
    assert_eq!(toks[0].value, "a");
    assert_eq!((toks[0].line, toks[0].column), (1, 1));
    assert_eq!(toks[1].value, "bb");
    assert_eq!((toks[1].line, toks[1].column), (2, 1));
    assert_eq!(toks[2].value, "c");
    assert_eq!((toks[2].line, toks[2].column), (3, 3));
    assert_eq!(toks[3].token_type, TokenType::EOF);
    assert_eq!((toks[3].line, toks[3].column), (3, 4));
}

#[test]
fn tokenize_line_comment() {
    let toks = get_tokens("// hello\nx".to_string());
    assert_eq!(toks.len(), 2);
    assert_eq!(toks[0].token_type, TokenType::Id);
    assert_eq!(toks[0].value, "x");
    assert_eq!((toks[0].line, toks[0].column), (2, 1));
}

#[test]
fn tokenize_line_comment_at_end_of_input() {
    let toks = get_tokens("x // trailing".to_string());
    assert_eq!(toks.len(), 2);
    assert_eq!(toks[0].value, "x");
    assert_eq!(toks[1].token_type, TokenType::EOF);
}

#[test]
fn tokenize_block_comment() {
    let toks = get_tokens("/* a\nb */x".to_string());
    assert_eq!(toks.len(), 2);
    assert_eq!(toks[0].value, "x");
    assert_eq!((toks[0].line, toks[0].column), (2, 5));
}

#[test]
fn tokenize_unterminated_block_comment_truncates() {
    // the stream is silently truncated: no error token, only end-of-file
    let toks = get_tokens("a /* b".to_string());
    assert_eq!(toks.len(), 2);
    assert_eq!(toks[0].value, "a");
    assert_eq!(toks[1].token_type, TokenType::EOF);
    assert_eq!((toks[1].line, toks[1].column), (1, 7));
}

#[test]
fn tokenize_slash_alone_is_unknown() {
    let toks = get_tokens("/".to_string());
    assert_eq!(toks[0].token_type, TokenType::UNKNOWN);
    assert_eq!(toks[0].value, "/");
}

#[test]
fn tokenize_multi_character_tokens_advance_column_by_length() {
    let toks = get_tokens("abc 12".to_string());
    assert_eq!(toks[0].column, 1);
    assert_eq!(toks[1].column, 5);
    assert_eq!(toks[2].column, 7);
}

#[test]
fn keyword_table_contents() {
    let kw = get_keywords();
    assert_eq!(kw.len(), 2);
    assert_eq!(kw[0], ("int".to_string(), TokenType::Int));
    assert_eq!(kw[1], ("return".to_string(), TokenType::Ret));
}

#[test]
fn symbol_table_contents() {
    let sy = get_symbols();
    assert_eq!(sy.len(), 7);
    assert_eq!(sy[0], ("(".to_string(), TokenType::LP));
    assert_eq!(sy[1], (")".to_string(), TokenType::RP));
    assert_eq!(sy[2], ("{".to_string(), TokenType::LB));
    assert_eq!(sy[3], ("}".to_string(), TokenType::RB));
    assert_eq!(sy[4], (";".to_string(), TokenType::Semi));
    assert_eq!(sy[5], (":".to_string(), TokenType::Colon));
    assert_eq!(sy[6], ("=".to_string(), TokenType::Assign));
}
