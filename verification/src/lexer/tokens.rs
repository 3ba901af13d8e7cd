use vstd::prelude::*;

verus! {

/// The classification of a lexical unit, drawn from a closed, fixed set of
/// kinds.
#[derive(Clone, Copy, Debug, PartialEq, Eq, Structural)]
pub enum TokenType {
    // Keywords: the primitive type and the control-flow keyword.
    Int,
    Ret,
    // Single-character symbols.
    LP,
    RP,
    LB,
    RB,
    Semi,
    Colon,
    Assign,
    // Multi-character tokens.
    Id,
    IntLit,
    // Special tokens.
    EOF,
    UNKNOWN,
}

/// A classified lexical unit: its kind, the text it was scanned from, and its
/// 1-based source position.
#[derive(Debug)]
pub struct Token {
    pub token_type: TokenType,
    pub value: String,
    pub line: u32,
    pub column: u32,
}

/// The mathematical image of a [`Token`]: the text as a sequence of
/// characters, the position as unbounded integers.
pub struct SpecToken {
    pub kind: TokenType,
    pub text: Seq<char>,
    pub line: int,
    pub col: int,
}

impl View for Token {
    type V = SpecToken;

    open spec fn view(&self) -> SpecToken {
        SpecToken {
            kind: self.token_type,
            text: self.value@,
            line: self.line as int,
            col: self.column as int,
        }
    }
}

impl Clone for Token {
    fn clone(&self) -> (r: Self)
        ensures
            r@ == self@,
    {
        Token {
            token_type: self.token_type,
            value: self.value.clone(),
            line: self.line,
            column: self.column,
        }
    }
}

/// The kind that an identifier-shaped word denotes: the two keywords map to
/// their kinds, every other word is a plain identifier.
pub open spec fn keyword_kind(w: Seq<char>) -> TokenType {
    if w == "int"@ {
        TokenType::Int
    } else if w == "return"@ {
        TokenType::Ret
    } else {
        TokenType::Id
    }
}

/// The kind of a single-character symbol, if the character is one of the
/// fixed punctuation set.
pub open spec fn symbol_kind(c: char) -> Option<TokenType> {
    match c {
        '(' => Some(TokenType::LP),
        ')' => Some(TokenType::RP),
        '{' => Some(TokenType::LB),
        '}' => Some(TokenType::RB),
        ';' => Some(TokenType::Semi),
        ':' => Some(TokenType::Colon),
        '=' => Some(TokenType::Assign),
        _ => None,
    }
}

/// Classifies a scanned word as a keyword or a plain identifier.
pub fn keyword_token_type(word: &String) -> (t: TokenType)
    ensures
        t == keyword_kind(word@),
{
    if word.eq(&"int".to_owned()) {
        TokenType::Int
    } else if word.eq(&"return".to_owned()) {
        TokenType::Ret
    } else {
        TokenType::Id
    }
}

/// Classifies a character as one of the fixed symbols, or as none of them.
pub fn symbol_token_type(c: char) -> (t: Option<TokenType>)
    ensures
        t == symbol_kind(c),
{
    match c {
        '(' => Some(TokenType::LP),
        ')' => Some(TokenType::RP),
        '{' => Some(TokenType::LB),
        '}' => Some(TokenType::RB),
        ';' => Some(TokenType::Semi),
        ':' => Some(TokenType::Colon),
        '=' => Some(TokenType::Assign),
        _ => None,
    }
}

/// The fixed keyword table: every word whose kind is not a plain identifier,
/// paired with that kind.
pub fn get_keywords() -> (r: Vec<(String, TokenType)>)
    ensures
        r@.len() == 2,
        r@[0].0@ == "int"@ && r@[0].1 == TokenType::Int,
        r@[1].0@ == "return"@ && r@[1].1 == TokenType::Ret,
        forall|k: int| 0 <= k < r@.len() ==> keyword_kind(#[trigger] r@[k].0@) == r@[k].1,
        forall|w: Seq<char>|
            keyword_kind(w) != TokenType::Id ==> exists|k: int|
                0 <= k < r@.len() && #[trigger] r@[k].0@ == w,
{
    let mut keywords: Vec<(String, TokenType)> = Vec::new();
    keywords.push(("int".to_owned(), TokenType::Int));
    keywords.push(("return".to_owned(), TokenType::Ret));
    proof {
        reveal_strlit("int");
        reveal_strlit("return");
        assert("int"@.len() == 3);
        assert("return"@.len() == 6);
        assert(keyword_kind(keywords@[0].0@) == TokenType::Int);
        assert(keyword_kind(keywords@[1].0@) == TokenType::Ret);
        assert forall|w: Seq<char>| keyword_kind(w) != TokenType::Id implies exists|k: int|
            0 <= k < keywords@.len() && #[trigger] keywords@[k].0@ == w by {
            if w == "int"@ {
                assert(keywords@[0].0@ == w);
            } else {
                assert(keywords@[1].0@ == w);
            }
        }
    }
    keywords
}

/// The fixed symbol table: every character of the punctuation set as a
/// one-character string, paired with its kind.
pub fn get_symbols() -> (r: Vec<(String, TokenType)>)
    ensures
        r@.len() == 7,
        forall|k: int|
            0 <= k < r@.len() ==> (#[trigger] r@[k].0@).len() == 1 && symbol_kind(r@[k].0@[0])
                == Some(r@[k].1),
        forall|c: char|
            symbol_kind(c) is Some ==> exists|k: int|
                0 <= k < r@.len() && (#[trigger] r@[k].0@) == seq![c],
{
    let mut symbols: Vec<(String, TokenType)> = Vec::new();
    symbols.push(("(".to_owned(), TokenType::LP));
    symbols.push((")".to_owned(), TokenType::RP));
    symbols.push(("{".to_owned(), TokenType::LB));
    symbols.push(("}".to_owned(), TokenType::RB));
    symbols.push((";".to_owned(), TokenType::Semi));
    symbols.push((":".to_owned(), TokenType::Colon));
    symbols.push(("=".to_owned(), TokenType::Assign));
    proof {
        reveal_strlit("(");
        reveal_strlit(")");
        reveal_strlit("{");
        reveal_strlit("}");
        reveal_strlit(";");
        reveal_strlit(":");
        reveal_strlit("=");
        assert(symbols@[0].0@ =~= seq!['(']);
        assert(symbols@[1].0@ =~= seq![')']);
        assert(symbols@[2].0@ =~= seq!['{']);
        assert(symbols@[3].0@ =~= seq!['}']);
        assert(symbols@[4].0@ =~= seq![';']);
        assert(symbols@[5].0@ =~= seq![':']);
        assert(symbols@[6].0@ =~= seq!['=']);
        assert forall|c: char| symbol_kind(c) is Some implies exists|k: int|
            0 <= k < symbols@.len() && (#[trigger] symbols@[k].0@) == seq![c] by {
            match c {
                '(' => assert(symbols@[0].0@ == seq![c]),
                ')' => assert(symbols@[1].0@ == seq![c]),
                '{' => assert(symbols@[2].0@ == seq![c]),
                '}' => assert(symbols@[3].0@ == seq![c]),
                ';' => assert(symbols@[4].0@ == seq![c]),
                ':' => assert(symbols@[5].0@ == seq![c]),
                '=' => assert(symbols@[6].0@ == seq![c]),
                _ => {},
            }
        }
    }
    symbols
}

} // verus!
