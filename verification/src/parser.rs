pub mod ast;

use vstd::prelude::*;

use crate::lexer::tokens::{SpecToken, Token, TokenType};
use crate::lexer::{lemma_lex_digit_run, lex_from, toks_model};
use crate::parser::ast::{funcs_model, stmts_model, NodeBlock, NodeExpr, NodeFunc, NodeIdent,
    NodeLiteral, NodeProg, NodeStmt, NodeType, PrimitiveType, SpecBlock, SpecExpr, SpecFunc,
    SpecProg, SpecStmt, TypeMeta};
use crate::text::{dec_val, dec_value_of, is_digit_run};

verus! {

/// A failure of parsing, carrying the offending token where one exists.
#[derive(Debug)]
pub enum SyntaxError {
    /// A specific token kind was required and another was found.
    Expected(TokenType, Token),
    /// No statement can start with the found token.
    ExpectedStatement(Token),
    /// No expression can start with the found token.
    ExpectedExpression(Token),
    /// A known type name was required and another token was found.
    ExpectedType(Token),
    /// A function was declared under a name that is already in use.
    DuplicateFunction(Token),
    /// An identifier expression names neither a variable assigned in scope
    /// nor a declared function.
    UnknownIdentifier(Token),
    /// An integer-literal token whose text is not a run of digits whose
    /// value fits a 64-bit signed integer.
    BadLiteral(Token),
    /// The token sequence ended where the grammar required more.
    UnexpectedEnd,
}

/// The mathematical image of a [`SyntaxError`].
pub enum SpecSyntaxError {
    Expected(TokenType, SpecToken),
    ExpectedStatement(SpecToken),
    ExpectedExpression(SpecToken),
    ExpectedType(SpecToken),
    DuplicateFunction(SpecToken),
    UnknownIdentifier(SpecToken),
    BadLiteral(SpecToken),
    UnexpectedEnd,
}

impl View for SyntaxError {
    type V = SpecSyntaxError;

    open spec fn view(&self) -> SpecSyntaxError {
        match self {
            SyntaxError::Expected(tt, t) => SpecSyntaxError::Expected(*tt, t@),
            SyntaxError::ExpectedStatement(t) => SpecSyntaxError::ExpectedStatement(t@),
            SyntaxError::ExpectedExpression(t) => SpecSyntaxError::ExpectedExpression(t@),
            SyntaxError::ExpectedType(t) => SpecSyntaxError::ExpectedType(t@),
            SyntaxError::DuplicateFunction(t) => SpecSyntaxError::DuplicateFunction(t@),
            SyntaxError::UnknownIdentifier(t) => SpecSyntaxError::UnknownIdentifier(t@),
            SyntaxError::BadLiteral(t) => SpecSyntaxError::BadLiteral(t@),
            SyntaxError::UnexpectedEnd => SpecSyntaxError::UnexpectedEnd,
        }
    }
}

/// Consuming an identifier token: its text and the next position.
pub open spec fn sp_ident(ts: Seq<SpecToken>, i: int) -> Result<
    (Seq<char>, int),
    SpecSyntaxError,
> {
    if i >= ts.len() {
        Err(SpecSyntaxError::UnexpectedEnd)
    } else if ts[i].kind == TokenType::Id {
        Ok((ts[i].text, i + 1))
    } else {
        Err(SpecSyntaxError::Expected(TokenType::Id, ts[i]))
    }
}

/// Consuming one token of a required kind: the next position.
pub open spec fn sp_symbol(ts: Seq<SpecToken>, i: int, symbol: TokenType) -> Result<
    int,
    SpecSyntaxError,
> {
    if i >= ts.len() {
        Err(SpecSyntaxError::UnexpectedEnd)
    } else if ts[i].kind == symbol {
        Ok(i + 1)
    } else {
        Err(SpecSyntaxError::Expected(symbol, ts[i]))
    }
}

/// Consuming a type name: the type and the next position.
pub open spec fn sp_type(ts: Seq<SpecToken>, i: int) -> Result<(NodeType, int), SpecSyntaxError> {
    if i >= ts.len() {
        Err(SpecSyntaxError::UnexpectedEnd)
    } else if ts[i].kind == TokenType::Int {
        Ok((NodeType { meta: TypeMeta::Primitive(PrimitiveType::Int) }, i + 1))
    } else {
        Err(SpecSyntaxError::ExpectedType(ts[i]))
    }
}

/// Consuming an expression under the set of names known at this point: the
/// expression and the next position. An integer literal is read as its
/// decimal value; an identifier must be a known name.
pub open spec fn sp_expr(ts: Seq<SpecToken>, i: int, env: Set<Seq<char>>) -> Result<
    (SpecExpr, int),
    SpecSyntaxError,
> {
    if i >= ts.len() {
        Err(SpecSyntaxError::UnexpectedEnd)
    } else if ts[i].kind == TokenType::IntLit {
        if is_digit_run(ts[i].text) && dec_val(ts[i].text) <= i64::MAX {
            Ok((SpecExpr::Literal(dec_val(ts[i].text)), i + 1))
        } else {
            Err(SpecSyntaxError::BadLiteral(ts[i]))
        }
    } else if ts[i].kind == TokenType::Id {
        if env.contains(ts[i].text) {
            Ok((SpecExpr::Ident(ts[i].text), i + 1))
        } else {
            Err(SpecSyntaxError::UnknownIdentifier(ts[i]))
        }
    } else {
        Err(SpecSyntaxError::ExpectedExpression(ts[i]))
    }
}

/// Consuming a return statement (without its semicolon).
pub open spec fn sp_return_stmt(ts: Seq<SpecToken>, i: int, env: Set<Seq<char>>) -> Result<
    (SpecStmt, int),
    SpecSyntaxError,
> {
    match sp_symbol(ts, i, TokenType::Ret) {
        Ok(i1) => match sp_expr(ts, i1, env) {
            Ok((e, i2)) => Ok((SpecStmt::Return(e), i2)),
            Err(e) => Err(e),
        },
        Err(e) => Err(e),
    }
}

/// Consuming an assignment statement (without its semicolon): the statement,
/// the names known afterwards, and the next position. The expression is read
/// under the names known before the assignment binds its own.
pub open spec fn sp_assign_stmt(ts: Seq<SpecToken>, i: int, env: Set<Seq<char>>) -> Result<
    ((SpecStmt, Set<Seq<char>>), int),
    SpecSyntaxError,
> {
    match sp_ident(ts, i) {
        Ok((name, i1)) => match sp_symbol(ts, i1, TokenType::Colon) {
            Ok(i2) => match sp_type(ts, i2) {
                Ok((t, i3)) => match sp_symbol(ts, i3, TokenType::Assign) {
                    Ok(i4) => match sp_expr(ts, i4, env) {
                        Ok((e, i5)) => Ok(((SpecStmt::Assign(name, t, e), env.insert(name)), i5)),
                        Err(e) => Err(e),
                    },
                    Err(e) => Err(e),
                },
                Err(e) => Err(e),
            },
            Err(e) => Err(e),
        },
        Err(e) => Err(e),
    }
}

/// Consuming one statement and its closing semicolon: the statement, the
/// names known afterwards, and the next position. The next token decides the
/// production: the return keyword or an identifier.
pub open spec fn sp_stmt(ts: Seq<SpecToken>, i: int, env: Set<Seq<char>>) -> Result<
    ((SpecStmt, Set<Seq<char>>), int),
    SpecSyntaxError,
> {
    if i >= ts.len() {
        Err(SpecSyntaxError::UnexpectedEnd)
    } else if ts[i].kind == TokenType::Ret {
        match sp_return_stmt(ts, i, env) {
            Ok((st, i1)) => match sp_symbol(ts, i1, TokenType::Semi) {
                Ok(i2) => Ok(((st, env), i2)),
                Err(e) => Err(e),
            },
            Err(e) => Err(e),
        }
    } else if ts[i].kind == TokenType::Id {
        match sp_assign_stmt(ts, i, env) {
            Ok(((st, env2), i1)) => match sp_symbol(ts, i1, TokenType::Semi) {
                Ok(i2) => Ok(((st, env2), i2)),
                Err(e) => Err(e),
            },
            Err(e) => Err(e),
        }
    } else {
        Err(SpecSyntaxError::ExpectedStatement(ts[i]))
    }
}

/// Consuming statements up to and including the closing brace, accumulating
/// the statements parsed so far.
pub open spec fn sp_stmts(
    ts: Seq<SpecToken>,
    i: int,
    env: Set<Seq<char>>,
    acc: Seq<SpecStmt>,
) -> Result<(Seq<SpecStmt>, int), SpecSyntaxError>
    decreases ts.len() - i,
    when 0 <= i <= ts.len()
    via sp_stmts_decreases
{
    if i >= ts.len() {
        Err(SpecSyntaxError::UnexpectedEnd)
    } else if ts[i].kind == TokenType::RB {
        Ok((acc, i + 1))
    } else {
        match sp_stmt(ts, i, env) {
            Ok(((st, env2), i2)) => sp_stmts(ts, i2, env2, acc.push(st)),
            Err(e) => Err(e),
        }
    }
}

#[via_fn]
proof fn sp_stmts_decreases(ts: Seq<SpecToken>, i: int, env: Set<Seq<char>>, acc: Seq<SpecStmt>) {
    lemma_sp_stmt_advances(ts, i, env);
}

/// A successfully consumed statement moves strictly forward and stays within
/// the tokens.
pub proof fn lemma_sp_stmt_advances(ts: Seq<SpecToken>, i: int, env: Set<Seq<char>>)
    ensures
        sp_stmt(ts, i, env) matches Ok((_, j)) ==> i < j <= ts.len(),
{
}

/// Consuming a block: its opening brace, its statements and its closing
/// brace.
pub open spec fn sp_block(ts: Seq<SpecToken>, i: int, env: Set<Seq<char>>) -> Result<
    (SpecBlock, int),
    SpecSyntaxError,
> {
    match sp_symbol(ts, i, TokenType::LB) {
        Ok(i1) => match sp_stmts(ts, i1, env, Seq::empty()) {
            Ok((stmts, i2)) => Ok((SpecBlock { stmts }, i2)),
            Err(e) => Err(e),
        },
        Err(e) => Err(e),
    }
}

/// Consuming one function declaration under the set of function names
/// declared before it: the function, the names known afterwards, and the
/// next position. A name already declared is rejected at once; the body is
/// read with the function's own name in scope.
pub open spec fn sp_func(ts: Seq<SpecToken>, i: int, fenv: Set<Seq<char>>) -> Result<
    ((SpecFunc, Set<Seq<char>>), int),
    SpecSyntaxError,
> {
    match sp_ident(ts, i) {
        Ok((name, i1)) => if fenv.contains(name) {
            Err(SpecSyntaxError::DuplicateFunction(ts[i]))
        } else {
            match sp_symbol(ts, i1, TokenType::LP) {
                Ok(i2) => match sp_symbol(ts, i2, TokenType::RP) {
                    Ok(i3) => match sp_symbol(ts, i3, TokenType::Colon) {
                        Ok(i4) => match sp_type(ts, i4) {
                            Ok((r_type, i5)) => match sp_symbol(ts, i5, TokenType::Assign) {
                                Ok(i6) => match sp_block(ts, i6, fenv.insert(name)) {
                                    Ok((block, i7)) => Ok(
                                        ((
                                            SpecFunc { name, r_type, block },
                                            fenv.insert(name),
                                        ), i7),
                                    ),
                                    Err(e) => Err(e),
                                },
                                Err(e) => Err(e),
                            },
                            Err(e) => Err(e),
                        },
                        Err(e) => Err(e),
                    },
                    Err(e) => Err(e),
                },
                Err(e) => Err(e),
            }
        },
        Err(e) => Err(e),
    }
}

/// A successfully consumed block moves strictly forward and stays within the
/// tokens.
pub proof fn lemma_sp_stmts_advances(
    ts: Seq<SpecToken>,
    i: int,
    env: Set<Seq<char>>,
    acc: Seq<SpecStmt>,
)
    requires
        0 <= i <= ts.len(),
    ensures
        sp_stmts(ts, i, env, acc) matches Ok((_, j)) ==> i < j <= ts.len(),
    decreases ts.len() - i,
{
    if i < ts.len() && ts[i].kind != TokenType::RB {
        lemma_sp_stmt_advances(ts, i, env);
        if let Ok(((st, env2), i2)) = sp_stmt(ts, i, env) {
            lemma_sp_stmts_advances(ts, i2, env2, acc.push(st));
        }
    }
}

/// A successfully consumed function moves strictly forward and stays within
/// the tokens.
pub proof fn lemma_sp_func_advances(ts: Seq<SpecToken>, i: int, fenv: Set<Seq<char>>)
    requires
        0 <= i <= ts.len(),
    ensures
        sp_func(ts, i, fenv) matches Ok((_, j)) ==> i < j <= ts.len(),
{
    if let Ok((name, i1)) = sp_ident(ts, i) {
        if !fenv.contains(name) {
            if let Ok(i2) = sp_symbol(ts, i1, TokenType::LP) {
                if let Ok(i3) = sp_symbol(ts, i2, TokenType::RP) {
                    if let Ok(i4) = sp_symbol(ts, i3, TokenType::Colon) {
                        if let Ok((_, i5)) = sp_type(ts, i4) {
                            if let Ok(i6) = sp_symbol(ts, i5, TokenType::Assign) {
                                if let Ok(i7) = sp_symbol(ts, i6, TokenType::LB) {
                                    lemma_sp_stmts_advances(
                                        ts,
                                        i7,
                                        fenv.insert(name),
                                        Seq::empty(),
                                    );
                                }
                            }
                        }
                    }
                }
            }
        }
    }
}

/// Consuming function declarations up to the end-of-file token or the end of
/// the sequence, accumulating the functions parsed so far.
pub open spec fn sp_prog_rest(
    ts: Seq<SpecToken>,
    i: int,
    fenv: Set<Seq<char>>,
    acc: Seq<SpecFunc>,
) -> Result<Seq<SpecFunc>, SpecSyntaxError>
    decreases ts.len() - i,
    when 0 <= i <= ts.len()
    via sp_prog_rest_decreases
{
    if i >= ts.len() {
        Ok(acc)
    } else if ts[i].kind == TokenType::EOF {
        Ok(acc)
    } else {
        match sp_func(ts, i, fenv) {
            Ok(((f, fenv2), i2)) => sp_prog_rest(ts, i2, fenv2, acc.push(f)),
            Err(e) => Err(e),
        }
    }
}

#[via_fn]
proof fn sp_prog_rest_decreases(
    ts: Seq<SpecToken>,
    i: int,
    fenv: Set<Seq<char>>,
    acc: Seq<SpecFunc>,
) {
    if 0 <= i <= ts.len() {
        lemma_sp_func_advances(ts, i, fenv);
    }
}

/// The program that a token sequence parses to, or the first syntax error
/// met while reading it.
pub open spec fn spec_parse(ts: Seq<SpecToken>) -> Result<SpecProg, SpecSyntaxError> {
    match sp_prog_rest(ts, 0, Set::empty(), Seq::empty()) {
        Ok(functions) => Ok(SpecProg { functions }),
        Err(e) => Err(e),
    }
}

/// A successfully consumed function was not declared before, and afterwards
/// its name is among the declared ones.
proof fn lemma_sp_func_name(ts: Seq<SpecToken>, i: int, fenv: Set<Seq<char>>)
    ensures
        sp_func(ts, i, fenv) matches Ok(((f, fenv2), _)) ==> !fenv.contains(f.name) && fenv2
            == fenv.insert(f.name),
{
}

/// Parsing keeps function names distinct: starting from functions whose
/// names are pairwise distinct and all declared, whatever parsing adds stays
/// pairwise distinct.
proof fn lemma_sp_prog_rest_distinct(
    ts: Seq<SpecToken>,
    i: int,
    fenv: Set<Seq<char>>,
    acc: Seq<SpecFunc>,
)
    requires
        0 <= i <= ts.len(),
        forall|j: int| 0 <= j < acc.len() ==> fenv.contains((#[trigger] acc[j]).name),
        forall|j: int, k: int|
            0 <= j < k < acc.len() ==> (#[trigger] acc[j]).name != (#[trigger] acc[k]).name,
    ensures
        sp_prog_rest(ts, i, fenv, acc) matches Ok(fs) ==> forall|j: int, k: int|
            0 <= j < k < fs.len() ==> (#[trigger] fs[j]).name != (#[trigger] fs[k]).name,
    decreases ts.len() - i,
{
    if i < ts.len() && ts[i].kind != TokenType::EOF {
        if let Ok(((f, fenv2), i2)) = sp_func(ts, i, fenv) {
            lemma_sp_func_advances(ts, i, fenv);
            lemma_sp_func_name(ts, i, fenv);
            let acc2 = acc.push(f);
            assert forall|j: int| 0 <= j < acc2.len() implies fenv2.contains(
                (#[trigger] acc2[j]).name,
            ) by {
                if j < acc.len() {
                    assert(acc2[j] == acc[j]);
                } else {
                    assert(acc2[j] == f);
                }
            }
            assert forall|j: int, k: int| 0 <= j < k < acc2.len() implies (
            #[trigger] acc2[j]).name != (#[trigger] acc2[k]).name by {
                if k < acc.len() {
                    assert(acc2[j] == acc[j] && acc2[k] == acc[k]);
                } else {
                    assert(acc2[j] == acc[j] && acc2[k] == f);
                    assert(fenv.contains(acc[j].name));
                }
            }
            lemma_sp_prog_rest_distinct(ts, i2, fenv2, acc2);
        }
    }
}

/// Duplicate function rejection, seen from what parsing can produce: a
/// program that parses successfully never holds two functions with the same
/// name; a token sequence that redeclares a name fails at the second
/// declaration and so never parses.
pub proof fn lemma_parse_rejects_duplicates(ts: Seq<SpecToken>)
    ensures
        spec_parse(ts) matches Ok(p) ==> forall|j: int, k: int|
            0 <= j < k < p.functions.len() ==> (#[trigger] p.functions[j]).name != (
            #[trigger] p.functions[k]).name,
{
    lemma_sp_prog_rest_distinct(ts, 0, Set::empty(), Seq::empty());
}

/// Round-trip literal identity: a non-empty run of decimal digits lexes to
/// exactly one integer-literal token whose text is the input itself, and
/// parsing an expression from that token yields a literal whose value is the
/// decimal interpretation of the digits. A run whose value exceeds the
/// 64-bit signed range is rejected by the parser, so the law is stated for
/// values within it.
pub proof fn lemma_literal_round_trip(d: Seq<char>, env: Set<Seq<char>>)
    requires
        is_digit_run(d),
        dec_val(d) <= i64::MAX,
    ensures
        ({
            let toks = lex_from(d, 0, 1, 1);
            &&& toks.len() == 2
            &&& toks[0].kind == TokenType::IntLit
            &&& toks[0].text == d
            &&& toks[1].kind == TokenType::EOF
            &&& sp_expr(toks, 0, env) == Ok::<_, SpecSyntaxError>(
                (SpecExpr::Literal(dec_val(d)), 1int),
            )
        }),
{
    lemma_lex_digit_run(d);
}

/// The set of names that a list of name strings holds.
pub open spec fn names_set(ss: Seq<String>) -> Set<Seq<char>> {
    Set::new(|n: Seq<char>| exists|k: int| 0 <= k < ss.len() && (#[trigger] ss[k])@ == n)
}

/// Appending a name to a list inserts it into the set of names the list
/// holds.
proof fn lemma_names_set_push(ss: Seq<String>, s: String)
    ensures
        names_set(ss.push(s)) == names_set(ss).insert(s@),
{
    let a = names_set(ss.push(s));
    let b = names_set(ss).insert(s@);
    assert forall|n: Seq<char>| a.contains(n) implies b.contains(n) by {
        let k = choose|k: int| 0 <= k < ss.push(s).len() && (#[trigger] ss.push(s)[k])@ == n;
        if k < ss.len() {
            assert(ss[k]@ == n);
        } else {
            assert(n == s@);
        }
    }
    assert forall|n: Seq<char>| b.contains(n) implies a.contains(n) by {
        if n == s@ {
            assert((ss.push(s)[ss.len() as int])@ == n);
        } else {
            let k = choose|k: int| 0 <= k < ss.len() && (#[trigger] ss[k])@ == n;
            assert((ss.push(s)[k])@ == n);
        }
    }
    assert(a =~= b);
}

/// Decides whether a list of names holds the given name.
fn contains_name(names: &Vec<String>, name: &String) -> (r: bool)
    ensures
        r == names_set(names@).contains(name@),
{
    let mut k: usize = 0;
    while k < names.len()
        invariant
            0 <= k <= names@.len(),
            forall|j: int| 0 <= j < k ==> (#[trigger] names@[j])@ != name@,
        decreases names@.len() - k,
    {
        if names[k].eq(name) {
            return true;
        }
        k = k + 1;
    }
    false
}

/// Copies a list of names; the copy holds the same set of names.
fn copy_names(names: &Vec<String>) -> (r: Vec<String>)
    ensures
        names_set(r@) == names_set(names@),
{
    let mut r: Vec<String> = Vec::new();
    let mut k: usize = 0;
    while k < names.len()
        invariant
            0 <= k <= names@.len(),
            r@.len() == k,
            forall|j: int| 0 <= j < k ==> (#[trigger] r@[j])@ == names@[j]@,
        decreases names@.len() - k,
    {
        r.push(names[k].clone());
        k = k + 1;
    }
    proof {
        assert forall|n: Seq<char>| names_set(r@).contains(n) implies names_set(
            names@,
        ).contains(n) by {
            let j = choose|j: int| 0 <= j < r@.len() && (#[trigger] r@[j])@ == n;
            assert(names@[j]@ == n);
        }
        assert forall|n: Seq<char>| names_set(names@).contains(n) implies names_set(
            r@,
        ).contains(n) by {
            let j = choose|j: int| 0 <= j < names@.len() && (#[trigger] names@[j])@ == n;
            assert(r@[j]@ == n);
        }
        assert(names_set(r@) =~= names_set(names@));
    }
    r
}

/// Appending a statement node extends the image sequence by its image.
proof fn lemma_stmts_model_push(ss: Seq<NodeStmt>, st: NodeStmt)
    ensures
        stmts_model(ss.push(st)) == stmts_model(ss).push(st@),
{
    assert(stmts_model(ss.push(st)) =~= stmts_model(ss).push(st@));
}

/// Appending a function node extends the image sequence by its image.
proof fn lemma_funcs_model_push(fs: Seq<NodeFunc>, f: NodeFunc)
    ensures
        funcs_model(fs.push(f)) == funcs_model(fs).push(f@),
{
    assert(funcs_model(fs.push(f)) =~= funcs_model(fs).push(f@));
}

/// Consumes the identifier token at `i`, or fails naming the token found.
fn parse_ident(tokens: &Vec<Token>, i: usize) -> (r: Result<(NodeIdent, usize), SyntaxError>)
    ensures
        r matches Ok((id, j)) ==> sp_ident(toks_model(tokens@), i as int) == Ok::<
            _,
            SpecSyntaxError,
        >((id@, j as int)) && j == i + 1 && i < tokens@.len(),
        r matches Err(e) ==> sp_ident(toks_model(tokens@), i as int) == Err::<
            (Seq<char>, int),
            _,
        >(e@),
{
    if i >= tokens.len() {
        return Err(SyntaxError::UnexpectedEnd);
    }
    let t = &tokens[i];
    if t.token_type == TokenType::Id {
        Ok((NodeIdent { name: t.value.clone() }, i + 1))
    } else {
        Err(SyntaxError::Expected(TokenType::Id, t.clone()))
    }
}

/// Consumes the token at `i`, which must be of the given kind, or fails
/// naming the kind required and the token found.
fn parse_symbol(tokens: &Vec<Token>, i: usize, symbol: TokenType) -> (r: Result<
    usize,
    SyntaxError,
>)
    ensures
        r matches Ok(j) ==> sp_symbol(toks_model(tokens@), i as int, symbol) == Ok::<
            _,
            SpecSyntaxError,
        >(j as int) && j == i + 1 && i < tokens@.len(),
        r matches Err(e) ==> sp_symbol(toks_model(tokens@), i as int, symbol) == Err::<int, _>(e@),
{
    if i >= tokens.len() {
        return Err(SyntaxError::UnexpectedEnd);
    }
    let t = &tokens[i];
    if t.token_type == symbol {
        Ok(i + 1)
    } else {
        Err(SyntaxError::Expected(symbol, t.clone()))
    }
}

/// Consumes the type name at `i`, or fails naming the token found.
fn parse_type(tokens: &Vec<Token>, i: usize) -> (r: Result<(NodeType, usize), SyntaxError>)
    ensures
        r matches Ok((t, j)) ==> sp_type(toks_model(tokens@), i as int) == Ok::<
            _,
            SpecSyntaxError,
        >((t, j as int)) && j == i + 1 && i < tokens@.len(),
        r matches Err(e) ==> sp_type(toks_model(tokens@), i as int) == Err::<(NodeType, int), _>(
            e@,
        ),
{
    if i >= tokens.len() {
        return Err(SyntaxError::UnexpectedEnd);
    }
    let t = &tokens[i];
    if t.token_type == TokenType::Int {
        Ok((NodeType { meta: TypeMeta::Primitive(PrimitiveType::Int) }, i + 1))
    } else {
        Err(SyntaxError::ExpectedType(t.clone()))
    }
}

/// Converts the integer-literal token at `i` into a literal expression,
/// reading its text as a decimal value.
fn parse_literal_expression(tokens: &Vec<Token>, i: usize) -> (r: Result<
    (NodeExpr, usize),
    SyntaxError,
>)
    requires
        i < tokens@.len(),
        toks_model(tokens@)[i as int].kind == TokenType::IntLit,
    ensures
        r matches Ok((e, j)) ==> {
            &&& is_digit_run(toks_model(tokens@)[i as int].text)
            &&& dec_val(toks_model(tokens@)[i as int].text) <= i64::MAX
            &&& e@ == SpecExpr::Literal(dec_val(toks_model(tokens@)[i as int].text))
            &&& j == i + 1
        },
        r matches Err(err) ==> {
            &&& !(is_digit_run(toks_model(tokens@)[i as int].text) && dec_val(
                toks_model(tokens@)[i as int].text,
            ) <= i64::MAX)
            &&& err@ == SpecSyntaxError::BadLiteral(toks_model(tokens@)[i as int])
        },
{
    let n = tokens.len();
    proof {
        assert(i < n);
    }
    let t = &tokens[i];
    match dec_value_of(t.value.as_str()) {
        Some(v) => Ok((NodeExpr::Literal(NodeLiteral::IntLit(v)), i + 1)),
        None => Err(SyntaxError::BadLiteral(t.clone())),
    }
}

/// Converts the identifier token at `i` into a variable reference, which
/// must name a variable assigned in scope or a declared function.
fn parse_ident_expression(tokens: &Vec<Token>, i: usize, env: &Vec<String>) -> (r: Result<
    (NodeExpr, usize),
    SyntaxError,
>)
    requires
        i < tokens@.len(),
        toks_model(tokens@)[i as int].kind == TokenType::Id,
    ensures
        r matches Ok((e, j)) ==> {
            &&& names_set(env@).contains(toks_model(tokens@)[i as int].text)
            &&& e@ == SpecExpr::Ident(toks_model(tokens@)[i as int].text)
            &&& j == i + 1
        },
        r matches Err(err) ==> {
            &&& !names_set(env@).contains(toks_model(tokens@)[i as int].text)
            &&& err@ == SpecSyntaxError::UnknownIdentifier(toks_model(tokens@)[i as int])
        },
{
    match parse_ident(tokens, i) {
        Ok((id, j)) => {
            if contains_name(env, &id.name) {
                Ok((NodeExpr::Ident(id), j))
            } else {
                Err(SyntaxError::UnknownIdentifier(tokens[i].clone()))
            }
        },
        Err(e) => Err(e),
    }
}

/// Consumes the expression at `i` under the names known at this point: an
/// integer literal or a known identifier.
fn parse_expr(tokens: &Vec<Token>, i: usize, env: &Vec<String>) -> (r: Result<
    (NodeExpr, usize),
    SyntaxError,
>)
    ensures
        r matches Ok((e, j)) ==> sp_expr(toks_model(tokens@), i as int, names_set(env@)) == Ok::<
            _,
            SpecSyntaxError,
        >((e@, j as int)) && i < j <= tokens@.len(),
        r matches Err(err) ==> sp_expr(toks_model(tokens@), i as int, names_set(env@)) == Err::<
            (SpecExpr, int),
            _,
        >(err@),
{
    if i >= tokens.len() {
        return Err(SyntaxError::UnexpectedEnd);
    }
    let kind = tokens[i].token_type;
    if kind == TokenType::IntLit {
        parse_literal_expression(tokens, i)
    } else if kind == TokenType::Id {
        parse_ident_expression(tokens, i, env)
    } else {
        Err(SyntaxError::ExpectedExpression(tokens[i].clone()))
    }
}

/// Consumes the return statement at `i` (without its semicolon).
fn parse_return_stmt(tokens: &Vec<Token>, i: usize, env: &Vec<String>) -> (r: Result<
    (NodeStmt, usize),
    SyntaxError,
>)
    ensures
        r matches Ok((st, j)) ==> sp_return_stmt(toks_model(tokens@), i as int, names_set(env@))
            == Ok::<_, SpecSyntaxError>((st@, j as int)) && i < j <= tokens@.len(),
        r matches Err(err) ==> sp_return_stmt(toks_model(tokens@), i as int, names_set(env@))
            == Err::<(SpecStmt, int), _>(err@),
{
    let i1 = match parse_symbol(tokens, i, TokenType::Ret) {
        Ok(x) => x,
        Err(e) => {
            return Err(e);
        },
    };
    let (expr, i2) = match parse_expr(tokens, i1, env) {
        Ok(x) => x,
        Err(e) => {
            return Err(e);
        },
    };
    Ok((NodeStmt::Return(expr), i2))
}

/// Consumes the assignment statement at `i` (without its semicolon), adding
/// the assigned name to the names in scope. Its expression is read under the
/// names known before the assignment binds its own.
fn parse_assign_stmt(tokens: &Vec<Token>, i: usize, env: &mut Vec<String>) -> (r: Result<
    (NodeStmt, usize),
    SyntaxError,
>)
    ensures
        r matches Ok((st, j)) ==> sp_assign_stmt(toks_model(tokens@), i as int, names_set(
            old(env)@,
        )) == Ok::<_, SpecSyntaxError>(((st@, names_set(final(env)@)), j as int)) && i < j
            <= tokens@.len(),
        r matches Err(err) ==> sp_assign_stmt(toks_model(tokens@), i as int, names_set(old(env)@))
            == Err::<((SpecStmt, Set<Seq<char>>), int), _>(err@),
{
    let (ident, i1) = match parse_ident(tokens, i) {
        Ok(x) => x,
        Err(e) => {
            return Err(e);
        },
    };
    let i2 = match parse_symbol(tokens, i1, TokenType::Colon) {
        Ok(x) => x,
        Err(e) => {
            return Err(e);
        },
    };
    let (a_type, i3) = match parse_type(tokens, i2) {
        Ok(x) => x,
        Err(e) => {
            return Err(e);
        },
    };
    let i4 = match parse_symbol(tokens, i3, TokenType::Assign) {
        Ok(x) => x,
        Err(e) => {
            return Err(e);
        },
    };
    let (expr, i5) = match parse_expr(tokens, i4, env) {
        Ok(x) => x,
        Err(e) => {
            return Err(e);
        },
    };
    let name = ident.name.clone();
    proof {
        lemma_names_set_push(env@, name);
    }
    env.push(name);
    Ok((NodeStmt::Assign(ident, a_type, expr), i5))
}

/// Consumes the statement at `i` and its closing semicolon. The next token
/// decides the production: the return keyword or an identifier.
fn parse_stmt(tokens: &Vec<Token>, i: usize, env: &mut Vec<String>) -> (r: Result<
    (NodeStmt, usize),
    SyntaxError,
>)
    ensures
        r matches Ok((st, j)) ==> sp_stmt(toks_model(tokens@), i as int, names_set(old(env)@))
            == Ok::<_, SpecSyntaxError>(((st@, names_set(final(env)@)), j as int)) && i < j
            <= tokens@.len(),
        r matches Err(err) ==> sp_stmt(toks_model(tokens@), i as int, names_set(old(env)@))
            == Err::<((SpecStmt, Set<Seq<char>>), int), _>(err@),
{
    if i >= tokens.len() {
        return Err(SyntaxError::UnexpectedEnd);
    }
    let kind = tokens[i].token_type;
    let (st, i1) = if kind == TokenType::Ret {
        match parse_return_stmt(tokens, i, env) {
            Ok(x) => x,
            Err(e) => {
                return Err(e);
            },
        }
    } else if kind == TokenType::Id {
        match parse_assign_stmt(tokens, i, env) {
            Ok(x) => x,
            Err(e) => {
                return Err(e);
            },
        }
    } else {
        return Err(SyntaxError::ExpectedStatement(tokens[i].clone()));
    };
    let i2 = match parse_symbol(tokens, i1, TokenType::Semi) {
        Ok(x) => x,
        Err(e) => {
            return Err(e);
        },
    };
    Ok((st, i2))
}

/// Consumes the block at `i`: its opening brace, its statements and its
/// closing brace. The block's scope starts from the given names; names
/// assigned inside it do not outlive the call.
fn parse_block(tokens: &Vec<Token>, i: usize, env: &Vec<String>) -> (r: Result<
    (NodeBlock, usize),
    SyntaxError,
>)
    ensures
        r matches Ok((b, j)) ==> sp_block(toks_model(tokens@), i as int, names_set(env@)) == Ok::<
            _,
            SpecSyntaxError,
        >((b@, j as int)) && i < j <= tokens@.len(),
        r matches Err(err) ==> sp_block(toks_model(tokens@), i as int, names_set(env@)) == Err::<
            (SpecBlock, int),
            _,
        >(err@),
{
    let i1 = match parse_symbol(tokens, i, TokenType::LB) {
        Ok(x) => x,
        Err(e) => {
            return Err(e);
        },
    };
    let mut scope = copy_names(env);
    let mut stmts: Vec<NodeStmt> = Vec::new();
    let mut j: usize = i1;
    proof {
        assert(stmts_model(stmts@) =~= Seq::<SpecStmt>::empty());
    }
    while j < tokens.len() && tokens[j].token_type != TokenType::RB
        invariant
            i1 <= j <= tokens@.len(),
            sp_symbol(toks_model(tokens@), i as int, TokenType::LB) == Ok::<_, SpecSyntaxError>(
                i1 as int,
            ),
            sp_stmts(toks_model(tokens@), i1 as int, names_set(env@), Seq::empty()) == sp_stmts(
                toks_model(tokens@),
                j as int,
                names_set(scope@),
                stmts_model(stmts@),
            ),
        decreases tokens@.len() - j,
    {
        let ghost stmts0 = stmts@;
        let ghost scope0 = scope@;
        match parse_stmt(tokens, j, &mut scope) {
            Ok((st, j2)) => {
                proof {
                    lemma_stmts_model_push(stmts0, st);
                }
                stmts.push(st);
                j = j2;
            },
            Err(e) => {
                proof {
                    let ts = toks_model(tokens@);
                    assert(ts[j as int] == tokens@[j as int]@);
                    assert(sp_stmts(ts, j as int, names_set(scope0), stmts_model(stmts@))
                        == Err::<(Seq<SpecStmt>, int), SpecSyntaxError>(e@));
                }
                return Err(e);
            },
        }
    }
    if j >= tokens.len() {
        return Err(SyntaxError::UnexpectedEnd);
    }
    Ok((NodeBlock { stmts }, j + 1))
}

/// Consumes the function declaration at `i` under the function names
/// declared before it. A name already declared is rejected at once; the body
/// is read with the function's own name in scope.
fn parse_func(tokens: &Vec<Token>, i: usize, fenv: &Vec<String>) -> (r: Result<
    (NodeFunc, usize),
    SyntaxError,
>)
    ensures
        r matches Ok((f, j)) ==> sp_func(toks_model(tokens@), i as int, names_set(fenv@)) == Ok::<
            _,
            SpecSyntaxError,
        >(((f@, names_set(fenv@).insert(f@.name)), j as int)) && i < j <= tokens@.len(),
        r matches Err(err) ==> sp_func(toks_model(tokens@), i as int, names_set(fenv@)) == Err::<
            ((SpecFunc, Set<Seq<char>>), int),
            _,
        >(err@),
{
    let (ident, i1) = match parse_ident(tokens, i) {
        Ok(x) => x,
        Err(e) => {
            return Err(e);
        },
    };
    if contains_name(fenv, &ident.name) {
        return Err(SyntaxError::DuplicateFunction(tokens[i].clone()));
    }
    let i2 = match parse_symbol(tokens, i1, TokenType::LP) {
        Ok(x) => x,
        Err(e) => {
            return Err(e);
        },
    };
    let i3 = match parse_symbol(tokens, i2, TokenType::RP) {
        Ok(x) => x,
        Err(e) => {
            return Err(e);
        },
    };
    let i4 = match parse_symbol(tokens, i3, TokenType::Colon) {
        Ok(x) => x,
        Err(e) => {
            return Err(e);
        },
    };
    let (r_type, i5) = match parse_type(tokens, i4) {
        Ok(x) => x,
        Err(e) => {
            return Err(e);
        },
    };
    let i6 = match parse_symbol(tokens, i5, TokenType::Assign) {
        Ok(x) => x,
        Err(e) => {
            return Err(e);
        },
    };
    let mut env = copy_names(fenv);
    let name = ident.name.clone();
    proof {
        lemma_names_set_push(env@, name);
    }
    env.push(name);
    let (block, i7) = match parse_block(tokens, i6, &env) {
        Ok(x) => x,
        Err(e) => {
            return Err(e);
        },
    };
    Ok((NodeFunc { ident, r_type, block }, i7))
}

/// Parses a token sequence into a program tree, or fails with the first
/// syntax error met while reading it.
pub fn parse_prog(tokens: Vec<Token>) -> (r: Result<NodeProg, SyntaxError>)
    ensures
        r matches Ok(p) ==> spec_parse(toks_model(tokens@)) == Ok::<_, SpecSyntaxError>(p@),
        r matches Err(e) ==> spec_parse(toks_model(tokens@)) == Err::<SpecProg, _>(e@),
{
    let mut functions: Vec<NodeFunc> = Vec::new();
    let mut fenv: Vec<String> = Vec::new();
    let mut i: usize = 0;
    proof {
        assert(names_set(fenv@) =~= Set::<Seq<char>>::empty());
        assert(funcs_model(functions@) =~= Seq::<SpecFunc>::empty());
    }
    while i < tokens.len() && tokens[i].token_type != TokenType::EOF
        invariant
            0 <= i <= tokens@.len(),
            sp_prog_rest(toks_model(tokens@), 0, Set::empty(), Seq::empty()) == sp_prog_rest(
                toks_model(tokens@),
                i as int,
                names_set(fenv@),
                funcs_model(functions@),
            ),
        decreases tokens@.len() - i,
    {
        let ghost functions0 = functions@;
        match parse_func(&tokens, i, &fenv) {
            Ok((f, j)) => {
                let name = f.ident.name.clone();
                proof {
                    lemma_names_set_push(fenv@, name);
                    lemma_funcs_model_push(functions0, f);
                }
                fenv.push(name);
                functions.push(f);
                i = j;
            },
            Err(e) => {
                return Err(e);
            },
        }
    }
    Ok(NodeProg { functions })
}

} // verus!
