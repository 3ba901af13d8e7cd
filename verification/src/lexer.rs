pub mod tokens;

use vstd::prelude::*;
use vstd::string::StrSliceExecFns;

use crate::lexer::tokens::{keyword_kind, keyword_token_type, symbol_kind, symbol_token_type,
    SpecToken, Token, TokenType};
use crate::text::{is_digit, is_digit_char};

verus! {

/// The mathematical image of a token sequence.
pub open spec fn toks_model(ts: Seq<Token>) -> Seq<SpecToken> {
    ts.map_values(|t: Token| t@)
}

/// Whether a character is whitespace other than a newline: space, tab,
/// carriage return or form feed.
pub open spec fn is_space_char(c: char) -> bool {
    c == ' ' || c == '\t' || c == '\r' || c == '\x0c'
}

/// Whether a character may start an identifier: a letter or an underscore.
pub open spec fn is_ident_start_char(c: char) -> bool {
    (97 <= c as u32 <= 122) || (65 <= c as u32 <= 90) || c == '_'
}

/// Whether a character may continue an identifier: a letter, a digit or an
/// underscore.
pub open spec fn is_ident_cont_char(c: char) -> bool {
    is_ident_start_char(c) || is_digit_char(c)
}

/// The index just past the maximal run of identifier characters starting at
/// `i`.
pub open spec fn ident_end(s: Seq<char>, i: int) -> int
    decreases s.len() - i,
{
    if i < s.len() && is_ident_cont_char(s[i]) {
        ident_end(s, i + 1)
    } else {
        i
    }
}

/// The index just past the maximal run of digit characters starting at `i`.
pub open spec fn digits_end(s: Seq<char>, i: int) -> int
    decreases s.len() - i,
{
    if i < s.len() && is_digit_char(s[i]) {
        digits_end(s, i + 1)
    } else {
        i
    }
}

/// The index just past the newline that ends a line comment whose text starts
/// at `i`, or the end of the input when no newline follows.
pub open spec fn line_comment_end(s: Seq<char>, i: int) -> int
    decreases s.len() - i,
{
    if i >= s.len() {
        i
    } else if s[i] == '\n' {
        i + 1
    } else {
        line_comment_end(s, i + 1)
    }
}

/// The index just past the first closing marker of a block comment whose text
/// starts at `i`, or nothing when the comment is unterminated.
pub open spec fn block_comment_end(s: Seq<char>, i: int) -> Option<int>
    decreases s.len() - i,
{
    if i + 1 >= s.len() {
        None
    } else if s[i] == '*' && s[i + 1] == '/' {
        Some(i + 2)
    } else {
        block_comment_end(s, i + 1)
    }
}

/// The line and column reached from `(line, col)` after consuming the
/// characters of `s` from `i` up to `j`: a newline moves to the next line and
/// resets the column to 1, every other character advances the column by 1.
pub open spec fn adv(s: Seq<char>, i: int, j: int, line: int, col: int) -> (int, int)
    decreases j - i,
{
    if i >= j {
        (line, col)
    } else if s[i] == '\n' {
        adv(s, i + 1, j, line + 1, 1)
    } else {
        adv(s, i + 1, j, line, col + 1)
    }
}

/// The end-of-file token, carrying the final position.
pub open spec fn eof_token(line: int, col: int) -> SpecToken {
    SpecToken { kind: TokenType::EOF, text: "<EOF>"@, line, col }
}

/// The token sequence of the source text `s` from index `i`, scanning with
/// the current position `(line, col)`. Whitespace and comments are discarded;
/// an unterminated block comment silently truncates the stream; exactly one
/// end-of-file token closes the sequence.
pub open spec fn lex_from(s: Seq<char>, i: int, line: int, col: int) -> Seq<SpecToken>
    decreases s.len() - i,
    when 0 <= i <= s.len()
    via lex_from_decreases
{
    if i >= s.len() {
        seq![eof_token(line, col)]
    } else {
        let c = s[i];
        if c == '\n' {
            lex_from(s, i + 1, line + 1, 1)
        } else if is_space_char(c) {
            lex_from(s, i + 1, line, col + 1)
        } else if c == '/' && i + 1 < s.len() && s[i + 1] == '/' {
            let j = line_comment_end(s, i + 2);
            let p = adv(s, i, j, line, col);
            lex_from(s, j, p.0, p.1)
        } else if c == '/' && i + 1 < s.len() && s[i + 1] == '*' {
            match block_comment_end(s, i + 2) {
                Some(j) => {
                    let p = adv(s, i, j, line, col);
                    lex_from(s, j, p.0, p.1)
                },
                None => {
                    let p = adv(s, i, s.len() as int, line, col);
                    seq![eof_token(p.0, p.1)]
                },
            }
        } else if is_ident_start_char(c) {
            let j = ident_end(s, i + 1);
            let text = s.subrange(i, j);
            seq![SpecToken { kind: keyword_kind(text), text, line, col }] + lex_from(
                s,
                j,
                line,
                col + (j - i),
            )
        } else if is_digit_char(c) {
            let j = digits_end(s, i + 1);
            seq![SpecToken { kind: TokenType::IntLit, text: s.subrange(i, j), line, col }]
                + lex_from(s, j, line, col + (j - i))
        } else if symbol_kind(c) is Some {
            seq![SpecToken { kind: symbol_kind(c)->0, text: seq![c], line, col }] + lex_from(
                s,
                i + 1,
                line,
                col + 1,
            )
        } else {
            seq![SpecToken { kind: TokenType::UNKNOWN, text: seq![c], line, col }] + lex_from(
                s,
                i + 1,
                line,
                col + 1,
            )
        }
    }
}

#[via_fn]
proof fn lex_from_decreases(s: Seq<char>, i: int, line: int, col: int) {
    if 0 <= i < s.len() {
        lemma_ident_end_bounds(s, i + 1);
        lemma_digits_end_bounds(s, i + 1);
        if i + 1 < s.len() {
            lemma_line_comment_end_bounds(s, i + 2);
            lemma_block_comment_end_bounds(s, i + 2);
        }
    }
}

/// The maximal identifier run ends no earlier than it starts and no later
/// than the input.
pub proof fn lemma_ident_end_bounds(s: Seq<char>, i: int)
    requires
        0 <= i <= s.len(),
    ensures
        i <= ident_end(s, i) <= s.len(),
    decreases s.len() - i,
{
    if i < s.len() && is_ident_cont_char(s[i]) {
        lemma_ident_end_bounds(s, i + 1);
    }
}

/// The maximal digit run ends no earlier than it starts and no later than the
/// input.
pub proof fn lemma_digits_end_bounds(s: Seq<char>, i: int)
    requires
        0 <= i <= s.len(),
    ensures
        i <= digits_end(s, i) <= s.len(),
    decreases s.len() - i,
{
    if i < s.len() && is_digit_char(s[i]) {
        lemma_digits_end_bounds(s, i + 1);
    }
}

/// A line comment ends no earlier than it starts and no later than the input.
pub proof fn lemma_line_comment_end_bounds(s: Seq<char>, i: int)
    requires
        0 <= i <= s.len(),
    ensures
        i <= line_comment_end(s, i) <= s.len(),
    decreases s.len() - i,
{
    if i < s.len() && s[i] != '\n' {
        lemma_line_comment_end_bounds(s, i + 1);
    }
}

/// A terminated block comment ends after its opening and no later than the
/// input.
pub proof fn lemma_block_comment_end_bounds(s: Seq<char>, i: int)
    requires
        0 <= i <= s.len(),
    ensures
        block_comment_end(s, i) matches Some(j) ==> i + 2 <= j <= s.len(),
    decreases s.len() - i,
{
    if i + 1 < s.len() && !(s[i] == '*' && s[i + 1] == '/') {
        lemma_block_comment_end_bounds(s, i + 1);
    }
}

/// Consuming one more character advances the position by one step: to the
/// next line for a newline, to the next column otherwise.
pub proof fn lemma_adv_snoc(s: Seq<char>, i: int, j: int, line: int, col: int)
    requires
        0 <= i <= j < s.len(),
    ensures
        adv(s, i, j + 1, line, col) == if s[j] == '\n' {
            (adv(s, i, j, line, col).0 + 1, 1)
        } else {
            (adv(s, i, j, line, col).0, adv(s, i, j, line, col).1 + 1)
        },
    decreases j - i,
{
    if i < j {
        if s[i] == '\n' {
            lemma_adv_snoc(s, i + 1, j, line + 1, 1);
        } else {
            lemma_adv_snoc(s, i + 1, j, line, col + 1);
        }
    } else {
        if s[j] == '\n' {
            assert(adv(s, i, j + 1, line, col) == adv(s, j + 1, j + 1, line + 1, 1));
        } else {
            assert(adv(s, i, j + 1, line, col) == adv(s, j + 1, j + 1, line, col + 1));
        }
    }
}

/// Advancing the position never moves the line backwards, and keeps both
/// line and column at least 1.
pub proof fn lemma_adv_monotone(s: Seq<char>, i: int, j: int, line: int, col: int)
    requires
        i <= j,
        1 <= line,
        1 <= col,
    ensures
        adv(s, i, j, line, col).0 >= line,
        adv(s, i, j, line, col).1 >= 1,
    decreases j - i,
{
    if i < j {
        if s[i] == '\n' {
            lemma_adv_monotone(s, i + 1, j, line + 1, 1);
        } else {
            lemma_adv_monotone(s, i + 1, j, line, col + 1);
        }
    }
}

/// The column resets to 1 immediately after any consumed newline.
pub proof fn lemma_column_resets_after_newline(s: Seq<char>, i: int, j: int, line: int, col: int)
    requires
        0 <= i <= j < s.len(),
        s[j] == '\n',
    ensures
        adv(s, i, j + 1, line, col).1 == 1,
{
    lemma_adv_snoc(s, i, j, line, col);
}

/// A well-formed token stream relative to a current line: non-empty, closed
/// by the end-of-file kind, with line numbers that never fall below the
/// current line and never decrease from one token to the next.
pub open spec fn stream_lines_ok(toks: Seq<SpecToken>, line: int) -> bool {
    &&& toks.len() >= 1
    &&& toks.last().kind == TokenType::EOF
    &&& forall|k: int| 0 <= k < toks.len() ==> (#[trigger] toks[k]).line >= line
    &&& forall|k1: int, k2: int|
        0 <= k1 <= k2 < toks.len() ==> (#[trigger] toks[k1]).line <= (#[trigger] toks[k2]).line
}

/// Putting a token in front of a well-formed stream keeps it well formed when
/// the token's line lies between the current line and the stream's.
proof fn lemma_stream_lines_ok_cons(t: SpecToken, rest: Seq<SpecToken>, line: int)
    requires
        stream_lines_ok(rest, t.line),
        t.line >= line,
    ensures
        stream_lines_ok(seq![t] + rest, line),
{
    let toks = seq![t] + rest;
    assert(toks.last() == rest.last());
    assert forall|k: int| 0 <= k < toks.len() implies (#[trigger] toks[k]).line >= line by {
        if k > 0 {
            assert(toks[k] == rest[k - 1]);
        }
    }
    assert forall|k1: int, k2: int| 0 <= k1 <= k2 < toks.len() implies (#[trigger] toks[k1]).line
        <= (#[trigger] toks[k2]).line by {
        if k1 > 0 {
            assert(toks[k1] == rest[k1 - 1]);
            assert(toks[k2] == rest[k2 - 1]);
            assert(rest[k1 - 1].line <= rest[k2 - 1].line);
        } else {
            assert(toks[k1] == t);
            if k2 > 0 {
                assert(toks[k2] == rest[k2 - 1]);
                assert(rest[k2 - 1].line >= t.line);
            }
        }
    }
}

/// Lexing is total: from any position the token sequence is non-empty, ends
/// in the end-of-file kind, and its line numbers never fall below the current
/// line nor decrease from one token to the next.
pub proof fn lemma_lex_from_total(s: Seq<char>, i: int, line: int, col: int)
    requires
        0 <= i <= s.len(),
        1 <= line,
        1 <= col,
    ensures
        stream_lines_ok(lex_from(s, i, line, col), line),
    decreases s.len() - i,
{
    let toks = lex_from(s, i, line, col);
    if i >= s.len() {
        assert(toks == seq![eof_token(line, col)]);
    } else {
        let c = s[i];
        if c == '\n' {
            lemma_lex_from_total(s, i + 1, line + 1, 1);
        } else if is_space_char(c) {
            lemma_lex_from_total(s, i + 1, line, col + 1);
        } else if c == '/' && i + 1 < s.len() && s[i + 1] == '/' {
            let j = line_comment_end(s, i + 2);
            let p = adv(s, i, j, line, col);
            lemma_line_comment_end_bounds(s, i + 2);
            lemma_adv_monotone(s, i, j, line, col);
            lemma_lex_from_total(s, j, p.0, p.1);
        } else if c == '/' && i + 1 < s.len() && s[i + 1] == '*' {
            match block_comment_end(s, i + 2) {
                Some(j) => {
                    let p = adv(s, i, j, line, col);
                    lemma_block_comment_end_bounds(s, i + 2);
                    lemma_adv_monotone(s, i, j, line, col);
                    lemma_lex_from_total(s, j, p.0, p.1);
                },
                None => {
                    lemma_adv_monotone(s, i, s.len() as int, line, col);
                },
            }
        } else if is_ident_start_char(c) {
            let j = ident_end(s, i + 1);
            let text = s.subrange(i, j);
            lemma_ident_end_bounds(s, i + 1);
            lemma_lex_from_total(s, j, line, col + (j - i));
            lemma_stream_lines_ok_cons(
                SpecToken { kind: keyword_kind(text), text, line, col },
                lex_from(s, j, line, col + (j - i)),
                line,
            );
        } else if is_digit_char(c) {
            let j = digits_end(s, i + 1);
            lemma_digits_end_bounds(s, i + 1);
            lemma_lex_from_total(s, j, line, col + (j - i));
            lemma_stream_lines_ok_cons(
                SpecToken { kind: TokenType::IntLit, text: s.subrange(i, j), line, col },
                lex_from(s, j, line, col + (j - i)),
                line,
            );
        } else if symbol_kind(c) is Some {
            lemma_lex_from_total(s, i + 1, line, col + 1);
            lemma_stream_lines_ok_cons(
                SpecToken { kind: symbol_kind(c)->0, text: seq![c], line, col },
                lex_from(s, i + 1, line, col + 1),
                line,
            );
        } else {
            lemma_lex_from_total(s, i + 1, line, col + 1);
            lemma_stream_lines_ok_cons(
                SpecToken { kind: TokenType::UNKNOWN, text: seq![c], line, col },
                lex_from(s, i + 1, line, col + 1),
                line,
            );
        }
    }
}

/// Lexing totality for whole inputs: the token sequence of any source text is
/// non-empty, its last element is the end-of-file kind, and line numbers are
/// monotonically non-decreasing across the sequence.
pub proof fn lemma_tokenize_total(s: Seq<char>)
    ensures
        stream_lines_ok(lex_from(s, 0, 1, 1), 1),
{
    lemma_lex_from_total(s, 0, 1, 1);
}

/// A maximal digit run over an all-digit input reaches the end of the input.
proof fn lemma_digits_end_all(s: Seq<char>, i: int)
    requires
        0 <= i <= s.len(),
        forall|k: int| 0 <= k < s.len() ==> is_digit_char(#[trigger] s[k]),
    ensures
        digits_end(s, i) == s.len(),
    decreases s.len() - i,
{
    if i < s.len() {
        lemma_digits_end_all(s, i + 1);
    }
}

/// Round-trip identity at the lexer: any non-empty sequence of decimal digits
/// lexes to exactly one integer-literal token whose text is the input itself,
/// followed by the end-of-file token.
pub proof fn lemma_lex_digit_run(d: Seq<char>)
    requires
        d.len() > 0,
        forall|k: int| 0 <= k < d.len() ==> is_digit_char(#[trigger] d[k]),
    ensures
        lex_from(d, 0, 1, 1) == seq![
            SpecToken { kind: TokenType::IntLit, text: d, line: 1, col: 1 },
            eof_token(1, 1 + d.len() as int),
        ],
{
    lemma_digits_end_all(d, 1);
    assert(d.subrange(0, d.len() as int) =~= d);
    assert(lex_from(d, d.len() as int, 1, 1 + d.len() as int) == seq![
        eof_token(1, 1 + d.len() as int),
    ]);
    assert(seq![SpecToken { kind: TokenType::IntLit, text: d, line: 1, col: 1 }] + seq![
        eof_token(1, 1 + d.len() as int),
    ] =~= seq![
        SpecToken { kind: TokenType::IntLit, text: d, line: 1, col: 1 },
        eof_token(1, 1 + d.len() as int),
    ]);
}

/// Decides whether a character is whitespace other than a newline.
fn is_space(c: char) -> (r: bool)
    ensures
        r == is_space_char(c),
{
    c == ' ' || c == '\t' || c == '\r' || c == '\x0c'
}

/// Decides whether a character may start an identifier.
fn is_ident_start(c: char) -> (r: bool)
    ensures
        r == is_ident_start_char(c),
{
    let u = c as u32;
    (97 <= u && u <= 122) || (65 <= u && u <= 90) || c == '_'
}

/// Decides whether a character may continue an identifier.
fn is_ident_cont(c: char) -> (r: bool)
    ensures
        r == is_ident_cont_char(c),
{
    is_ident_start(c) || is_digit(c)
}

/// Appending a token to the scanned prefix keeps the whole equal when the
/// token was the head of the remaining stream.
proof fn lemma_push_token(ts: Seq<Token>, t: Token, rest: Seq<SpecToken>, rest_new: Seq<SpecToken>)
    requires
        rest == seq![t@] + rest_new,
    ensures
        toks_model(ts.push(t)) + rest_new == toks_model(ts) + rest,
{
    assert(toks_model(ts.push(t)) =~= toks_model(ts).push(t@));
    assert(toks_model(ts).push(t@) + rest_new =~= toks_model(ts) + (seq![t@] + rest_new));
}

/// Scans the identifier or keyword that starts at index `i` of the source,
/// returning its token and the index just past it.
fn keyword_or_id(s: &str, i: usize, line: u32, column: u32) -> (r: (Token, usize))
    requires
        i < s@.len(),
        s@.len() <= u32::MAX - 1,
        is_ident_start_char(s@[i as int]),
    ensures
        r.1 as int == ident_end(s@, i + 1),
        i < r.1 <= s@.len(),
        r.0@ == (SpecToken {
            kind: keyword_kind(s@.subrange(i as int, r.1 as int)),
            text: s@.subrange(i as int, r.1 as int),
            line: line as int,
            col: column as int,
        }),
{
    let len = s.unicode_len();
    let mut j: usize = i + 1;
    while j < len && is_ident_cont(s.get_char(j))
        invariant
            i + 1 <= j <= len,
            len == s@.len(),
            ident_end(s@, i + 1) == ident_end(s@, j as int),
        decreases len - j,
    {
        j = j + 1;
    }
    proof {
        assert(ident_end(s@, j as int) == j as int);
    }
    let value = s.substring_char(i, j).to_owned();
    let token_type = keyword_token_type(&value);
    (Token { token_type, value, line, column }, j)
}

/// Scans the integer literal that starts at index `i` of the source,
/// returning its token and the index just past it.
fn int_lit(s: &str, i: usize, line: u32, column: u32) -> (r: (Token, usize))
    requires
        i < s@.len(),
        s@.len() <= u32::MAX - 1,
        is_digit_char(s@[i as int]),
    ensures
        r.1 as int == digits_end(s@, i + 1),
        i < r.1 <= s@.len(),
        r.0@ == (SpecToken {
            kind: TokenType::IntLit,
            text: s@.subrange(i as int, r.1 as int),
            line: line as int,
            col: column as int,
        }),
{
    let len = s.unicode_len();
    let mut j: usize = i + 1;
    while j < len && is_digit(s.get_char(j))
        invariant
            i + 1 <= j <= len,
            len == s@.len(),
            digits_end(s@, i + 1) == digits_end(s@, j as int),
        decreases len - j,
    {
        j = j + 1;
    }
    proof {
        assert(digits_end(s@, j as int) == j as int);
    }
    let value = s.substring_char(i, j).to_owned();
    (Token { token_type: TokenType::IntLit, value, line, column }, j)
}

/// Converts source text into its ordered token sequence: total, and closed by
/// exactly one end-of-file token.
pub fn get_tokens(source_code: String) -> (tokens: Vec<Token>)
    requires
        source_code@.len() <= u32::MAX - 1,
    ensures
        toks_model(tokens@) == lex_from(source_code@, 0, 1, 1),
{
    let s = source_code.as_str();
    let len = s.unicode_len();
    let mut i: usize = 0;
    let mut line: u32 = 1;
    let mut column: u32 = 1;
    let mut tokens: Vec<Token> = Vec::new();
    proof {
        assert(toks_model(tokens@) + lex_from(s@, 0, 1, 1) =~= lex_from(s@, 0, 1, 1));
    }
    while i < len
        invariant
            len == s@.len(),
            s@.len() <= u32::MAX - 1,
            s@ == source_code@,
            0 <= i <= len,
            1 <= line as int <= i + 1,
            1 <= column as int <= i + 1,
            toks_model(tokens@) + lex_from(s@, i as int, line as int, column as int) == lex_from(
                s@,
                0,
                1,
                1,
            ),
        decreases len - i,
    {
        let ghost rest0 = lex_from(s@, i as int, line as int, column as int);
        let ghost toks0 = tokens@;
        let c = s.get_char(i);
        if c == '\n' {
            i = i + 1;
            line = line + 1;
            column = 1;
        } else if is_space(c) {
            i = i + 1;
            column = column + 1;
        } else if c == '/' && i + 1 < len && s.get_char(i + 1) == '/' {
            let mut j: usize = i + 2;
            let mut l2: u32 = line;
            let mut c2: u32 = column + 2;
            let mut done = false;
            proof {
                lemma_adv_snoc(s@, i as int, i as int, line as int, column as int);
                lemma_adv_snoc(s@, i as int, i + 1, line as int, column as int);
                assert((l2 as int, c2 as int) == adv(
                    s@,
                    i as int,
                    j as int,
                    line as int,
                    column as int,
                ));
            }
            while j < len && !done
                invariant
                    i + 2 <= j <= len,
                    len == s@.len(),
                    s@.len() <= u32::MAX - 1,
                    0 <= i,
                    1 <= l2 as int <= j + 1,
                    1 <= c2 as int <= j + 1,
                    (l2 as int, c2 as int) == adv(
                        s@,
                        i as int,
                        j as int,
                        line as int,
                        column as int,
                    ),
                    !done ==> line_comment_end(s@, i + 2) == line_comment_end(s@, j as int),
                    done ==> line_comment_end(s@, i + 2) == j as int,
                decreases len - j,
            {
                let ch = s.get_char(j);
                proof {
                    lemma_adv_snoc(s@, i as int, j as int, line as int, column as int);
                }
                j = j + 1;
                if ch == '\n' {
                    l2 = l2 + 1;
                    c2 = 1;
                    done = true;
                } else {
                    c2 = c2 + 1;
                }
            }
            proof {
                if !done {
                    assert(line_comment_end(s@, j as int) == j as int);
                }
                assert(rest0 == lex_from(s@, j as int, l2 as int, c2 as int));
            }
            i = j;
            line = l2;
            column = c2;
        } else if c == '/' && i + 1 < len && s.get_char(i + 1) == '*' {
            let mut j: usize = i + 2;
            let mut l2: u32 = line;
            let mut c2: u32 = column + 2;
            let mut found = false;
            proof {
                lemma_adv_snoc(s@, i as int, i as int, line as int, column as int);
                lemma_adv_snoc(s@, i as int, i + 1, line as int, column as int);
            }
            while j < len && !found
                invariant
                    i + 2 <= j <= len,
                    len == s@.len(),
                    s@.len() <= u32::MAX - 1,
                    0 <= i,
                    1 <= l2 as int <= j + 1,
                    1 <= c2 as int <= j + 1,
                    (l2 as int, c2 as int) == adv(
                        s@,
                        i as int,
                        j as int,
                        line as int,
                        column as int,
                    ),
                    !found ==> block_comment_end(s@, i + 2) == block_comment_end(s@, j as int),
                    found ==> block_comment_end(s@, i + 2) == Some(j as int),
                decreases len - j,
            {
                let ch = s.get_char(j);
                if ch == '*' && j + 1 < len && s.get_char(j + 1) == '/' {
                    proof {
                        lemma_adv_snoc(s@, i as int, j as int, line as int, column as int);
                        lemma_adv_snoc(s@, i as int, j + 1, line as int, column as int);
                    }
                    j = j + 2;
                    c2 = c2 + 2;
                    found = true;
                } else {
                    proof {
                        lemma_adv_snoc(s@, i as int, j as int, line as int, column as int);
                    }
                    j = j + 1;
                    if ch == '\n' {
                        l2 = l2 + 1;
                        c2 = 1;
                    } else {
                        c2 = c2 + 1;
                    }
                }
            }
            proof {
                if found {
                    assert(rest0 == lex_from(s@, j as int, l2 as int, c2 as int));
                } else {
                    assert(block_comment_end(s@, j as int) is None);
                    assert(rest0 == seq![eof_token(l2 as int, c2 as int)]);
                    assert(lex_from(s@, j as int, l2 as int, c2 as int) == seq![
                        eof_token(l2 as int, c2 as int),
                    ]);
                }
            }
            i = j;
            line = l2;
            column = c2;
        } else if is_ident_start(c) {
            let (t, j) = keyword_or_id(s, i, line, column);
            proof {
                lemma_push_token(toks0, t, rest0, lex_from(
                    s@,
                    j as int,
                    line as int,
                    column as int + (j - i),
                ));
            }
            tokens.push(t);
            column = column + ((j - i) as u32);
            i = j;
        } else if is_digit(c) {
            let (t, j) = int_lit(s, i, line, column);
            proof {
                lemma_push_token(toks0, t, rest0, lex_from(
                    s@,
                    j as int,
                    line as int,
                    column as int + (j - i),
                ));
            }
            tokens.push(t);
            column = column + ((j - i) as u32);
            i = j;
        } else {
            let value = s.substring_char(i, i + 1).to_owned();
            proof {
                assert(value@ =~= seq![c]);
            }
            let token_type = match symbol_token_type(c) {
                Some(tt) => tt,
                None => TokenType::UNKNOWN,
            };
            let t = Token { token_type, value, line, column };
            proof {
                lemma_push_token(toks0, t, rest0, lex_from(
                    s@,
                    i + 1,
                    line as int,
                    column as int + 1,
                ));
            }
            tokens.push(t);
            i = i + 1;
            column = column + 1;
        }
    }
    let eof = Token {
        token_type: TokenType::EOF,
        value: "<EOF>".to_owned(),
        line,
        column,
    };
    proof {
        assert(eof@ == eof_token(line as int, column as int));
        lemma_push_token(
            tokens@,
            eof,
            lex_from(s@, i as int, line as int, column as int),
            Seq::<SpecToken>::empty(),
        );
    }
    tokens.push(eof);
    proof {
        assert(toks_model(tokens@) + Seq::<SpecToken>::empty() =~= toks_model(tokens@));
    }
    tokens
}

} // verus!
