use vstd::pervasive::unreached;
use vstd::prelude::*;
use vstd::string::{StrSliceExecFns, StringExecFns};

use crate::code_generator::{CodeGenerator, GenerationError, SpecGenerationError};
use crate::parser::ast::{funcs_model, stmts_model, NodeBlock, NodeExpr, NodeFunc, NodeLiteral,
    NodeProg, NodeStmt, SpecExpr, SpecFunc, SpecProg, SpecStmt};
use crate::text::{i32_to_string, i64_to_string, int_str};

verus! {

/// The offset bound to the given name, searching the scope stack from the
/// innermost scope outwards: the first scope holding the name decides.
pub open spec fn lookup(scopes: Seq<Map<Seq<char>, int>>, name: Seq<char>) -> Option<int>
    decreases scopes.len(),
{
    if scopes.len() == 0 {
        None
    } else if scopes.last().dom().contains(name) {
        Some(scopes.last()[name])
    } else {
        lookup(scopes.drop_last(), name)
    }
}

/// The fixed lines that precede every program: the entry trampoline calls
/// the renamed main function and then issues the process-exit system call.
pub open spec fn preamble() -> Seq<Seq<char>> {
    seq![
        ".global _main"@,
        "_main:"@,
        "    bl objection_main"@,
        "    mov x16, #1"@,
        "    svc #0x80"@,
    ]
}

/// The immediate-load of a literal into the scratch register.
pub open spec fn lit_line(v: int) -> Seq<char> {
    "    mov x9, #"@ + int_str(v)
}

/// The load of a stack slot into the scratch register.
pub open spec fn load_line(off: int) -> Seq<char> {
    "    ldr x9, [sp, #"@ + int_str(off) + "]"@
}

/// The store of the scratch register to a stack slot.
pub open spec fn store_line(off: int) -> Seq<char> {
    "    str x9, [sp, #"@ + int_str(off) + "]"@
}

/// The line making a function's label globally visible.
pub open spec fn func_global_line(name: Seq<char>) -> Seq<char> {
    ".global objection_"@ + name
}

/// The label line opening a function.
pub open spec fn func_label_line(name: Seq<char>) -> Seq<char> {
    "objection_"@ + name + ":"@
}

/// The lines that an expression compiles to: a literal is an immediate load
/// into the scratch register; an identifier is a load from the innermost
/// stack slot bound to its name, and fails when no scope binds it.
pub open spec fn gen_expr(e: SpecExpr, scopes: Seq<Map<Seq<char>, int>>) -> Result<
    Seq<Seq<char>>,
    SpecGenerationError,
> {
    match e {
        SpecExpr::Literal(v) => Ok(seq![lit_line(v)]),
        SpecExpr::Ident(n) => match lookup(scopes, n) {
            Some(off) => Ok(seq![load_line(off)]),
            None => Err(SpecGenerationError::UnresolvedIdentifier(n)),
        },
    }
}

/// The lines that one statement compiles to, together with the scope stack
/// and running offset afterwards. A return moves the scratch register to the
/// return register and restores the frame; an assignment claims the next
/// 8-byte slot, binds the name in the innermost scope and stores the scratch
/// register there.
pub open spec fn gen_stmt(st: SpecStmt, scopes: Seq<Map<Seq<char>, int>>, cur_off: int) -> Result<
    (Seq<Seq<char>>, Seq<Map<Seq<char>, int>>, int),
    SpecGenerationError,
> {
    match st {
        SpecStmt::Return(e) => match gen_expr(e, scopes) {
            Ok(ls) => Ok(
                (
                    ls + seq!["    mov x0, x9"@, "    ldp x29, x30, [sp], #16"@, "    ret"@],
                    scopes,
                    cur_off,
                ),
            ),
            Err(err) => Err(err),
        },
        SpecStmt::Assign(n, _, e) => match gen_expr(e, scopes) {
            Ok(ls) => {
                let off = cur_off - 8;
                let scopes2 = scopes.update(scopes.len() - 1, scopes.last().insert(n, off));
                Ok((ls + seq![store_line(off)], scopes2, off))
            },
            Err(err) => Err(err),
        },
    }
}

/// The lines that a sequence of statements compiles to, in order,
/// accumulating the lines emitted so far.
pub open spec fn gen_stmts(
    stmts: Seq<SpecStmt>,
    scopes: Seq<Map<Seq<char>, int>>,
    cur_off: int,
    acc: Seq<Seq<char>>,
) -> Result<(Seq<Seq<char>>, Seq<Map<Seq<char>, int>>, int), SpecGenerationError>
    decreases stmts.len(),
{
    if stmts.len() == 0 {
        Ok((acc, scopes, cur_off))
    } else {
        match gen_stmt(stmts[0], scopes, cur_off) {
            Ok((ls, scopes2, off2)) => gen_stmts(stmts.drop_first(), scopes2, off2, acc + ls),
            Err(err) => Err(err),
        }
    }
}

/// The lines that a block compiles to, and the running offset afterwards: a
/// fresh scope is pushed for the block's statements and dropped at its end,
/// so nothing the block binds is visible after it.
pub open spec fn gen_block(
    stmts: Seq<SpecStmt>,
    scopes: Seq<Map<Seq<char>, int>>,
    cur_off: int,
) -> Result<(Seq<Seq<char>>, int), SpecGenerationError> {
    match gen_stmts(stmts, scopes.push(Map::empty()), cur_off, Seq::empty()) {
        Ok((ls, _, off2)) => Ok((ls, off2)),
        Err(err) => Err(err),
    }
}

/// The lines that one function compiles to: its global directive and label,
/// the frame save and frame-pointer setup, then its body compiled in a fresh
/// function scope with the running offset reset to zero.
pub open spec fn gen_function(f: SpecFunc) -> Result<Seq<Seq<char>>, SpecGenerationError> {
    match gen_block(f.block.stmts, seq![Map::<Seq<char>, int>::empty()], 0) {
        Ok((ls, _)) => Ok(
            seq![
                func_global_line(f.name),
                func_label_line(f.name),
                "    stp x29, x30, [sp, #-16]!"@,
                "    mov x29, sp"@,
            ] + ls,
        ),
        Err(err) => Err(err),
    }
}

/// The lines that a sequence of functions compiles to, in declaration
/// order, accumulating the lines emitted so far.
pub open spec fn gen_funcs(fs: Seq<SpecFunc>, acc: Seq<Seq<char>>) -> Result<
    Seq<Seq<char>>,
    SpecGenerationError,
>
    decreases fs.len(),
{
    if fs.len() == 0 {
        Ok(acc)
    } else {
        match gen_function(fs[0]) {
            Ok(ls) => gen_funcs(fs.drop_first(), acc + ls),
            Err(err) => Err(err),
        }
    }
}

/// The lines that a whole program compiles to: the entry trampoline
/// followed by each function.
pub open spec fn gen_program(p: SpecProg) -> Result<Seq<Seq<char>>, SpecGenerationError> {
    gen_funcs(p.functions, preamble())
}

/// Lines joined by single newlines, with none at the end.
pub open spec fn join_lines(ls: Seq<Seq<char>>) -> Seq<char>
    decreases ls.len(),
{
    if ls.len() == 0 {
        Seq::empty()
    } else if ls.len() == 1 {
        ls[0]
    } else {
        ls[0] + seq!['\n'] + join_lines(ls.drop_first())
    }
}

/// Appending one more line joins it after a newline.
proof fn lemma_join_snoc(ls: Seq<Seq<char>>, l: Seq<char>)
    ensures
        join_lines(ls.push(l)) == if ls.len() == 0 {
            l
        } else {
            join_lines(ls) + seq!['\n'] + l
        },
    decreases ls.len(),
{
    if ls.len() == 0 {
        assert(ls.push(l) =~= seq![l]);
        assert(join_lines(seq![l]) == l);
    } else if ls.len() == 1 {
        assert(ls.push(l).drop_first() =~= seq![l]);
        assert(join_lines(seq![l]) == l);
        assert(ls.push(l)[0] == ls[0]);
    } else {
        lemma_join_snoc(ls.drop_first(), l);
        assert(ls.push(l).drop_first() =~= ls.drop_first().push(l));
        assert(ls.push(l)[0] == ls[0]);
        assert((ls[0] + seq!['\n'] + join_lines(ls.drop_first())) + seq!['\n'] + l =~= ls[0]
            + seq!['\n'] + (join_lines(ls.drop_first()) + seq!['\n'] + l));
    }
}

/// Generating statements never changes the scopes below the innermost one,
/// so a binding made inside a block dies with the block's scope.
pub proof fn lemma_gen_stmts_scopes(
    stmts: Seq<SpecStmt>,
    scopes: Seq<Map<Seq<char>, int>>,
    cur_off: int,
    acc: Seq<Seq<char>>,
)
    requires
        scopes.len() >= 1,
    ensures
        gen_stmts(stmts, scopes, cur_off, acc) matches Ok((_, sc2, _)) ==> sc2.len()
            == scopes.len() && (forall|k: int| 0 <= k < scopes.len() - 1 ==> sc2[k] == scopes[k]),
    decreases stmts.len(),
{
    if stmts.len() > 0 {
        if let Ok((ls, sc1, off1)) = gen_stmt(stmts[0], scopes, cur_off) {
            match stmts[0] {
                SpecStmt::Return(_) => {
                    assert(sc1 == scopes);
                },
                SpecStmt::Assign(_, _, _) => {
                    assert(sc1.len() == scopes.len());
                },
            }
            lemma_gen_stmts_scopes(stmts.drop_first(), sc1, off1, acc + ls);
            if let Ok((_, sc2, _)) = gen_stmts(stmts.drop_first(), sc1, off1, acc + ls) {
                assert forall|k: int| 0 <= k < scopes.len() - 1 implies sc2[k] == scopes[k] by {
                    assert(sc1[k] == scopes[k]);
                }
            }
        }
    }
}

/// An identifier resolves to the innermost scope that binds it: whatever an
/// outer scope binds under the same name is shadowed.
pub proof fn lemma_lookup_innermost(scopes: Seq<Map<Seq<char>, int>>, name: Seq<char>, j: int)
    requires
        0 <= j < scopes.len(),
        scopes[j].dom().contains(name),
        forall|k: int| j < k < scopes.len() ==> !(#[trigger] scopes[k]).dom().contains(name),
    ensures
        lookup(scopes, name) == Some(scopes[j][name]),
    decreases scopes.len(),
{
    if j < scopes.len() - 1 {
        assert(!scopes[scopes.len() - 1].dom().contains(name));
        assert(scopes.drop_last()[j] == scopes[j]);
        assert forall|k: int|
            j < k < scopes.drop_last().len() implies !(#[trigger] scopes.drop_last()[k]).dom().contains(
            name,
        ) by {
            assert(scopes.drop_last()[k] == scopes[k]);
        }
        lemma_lookup_innermost(scopes.drop_last(), name, j);
    }
}

/// The name-to-offset map that an association list holds; a later entry for
/// the same name overrides an earlier one.
pub open spec fn alist_map(s: Seq<(String, i32)>) -> Map<Seq<char>, int>
    decreases s.len(),
{
    if s.len() == 0 {
        Map::empty()
    } else {
        alist_map(s.drop_last()).insert(s.last().0@, s.last().1 as int)
    }
}

/// The scope stack as a stack of name-to-offset maps.
pub open spec fn stack_view(s: Seq<Vec<(String, i32)>>) -> Seq<Map<Seq<char>, int>> {
    s.map_values(|v: Vec<(String, i32)>| alist_map(v@))
}

/// The mathematical image of a sequence of emitted lines.
pub open spec fn lines_model(ls: Seq<String>) -> Seq<Seq<char>> {
    ls.map_values(|s: String| s@)
}

/// Appending a line extends the image sequence by its image.
proof fn lemma_lines_push(ls: Seq<String>, l: String)
    ensures
        lines_model(ls.push(l)) == lines_model(ls).push(l@),
{
    assert(lines_model(ls.push(l)) =~= lines_model(ls).push(l@));
}

/// Looks a name up in one scope, searching from the latest entry backwards
/// so that the latest binding of the name decides.
fn assoc_lookup(scope: &Vec<(String, i32)>, name: &String) -> (r: Option<i32>)
    ensures
        match r {
            Some(v) => alist_map(scope@).dom().contains(name@) && alist_map(scope@)[name@]
                == v as int,
            None => !alist_map(scope@).dom().contains(name@),
        },
{
    let mut k: usize = scope.len();
    proof {
        assert(scope@.take(k as int) =~= scope@);
    }
    while k > 0
        invariant
            0 <= k <= scope@.len(),
            alist_map(scope@).dom().contains(name@) == alist_map(
                scope@.take(k as int),
            ).dom().contains(name@),
            alist_map(scope@).dom().contains(name@) ==> alist_map(scope@)[name@] == alist_map(
                scope@.take(k as int),
            )[name@],
        decreases k,
    {
        k = k - 1;
        proof {
            assert(scope@.take(k as int + 1).drop_last() =~= scope@.take(k as int));
            assert(scope@.take(k as int + 1).last() == scope@[k as int]);
        }
        if scope[k].0.eq(name) {
            return Some(scope[k].1);
        }
    }
    proof {
        assert(scope@.take(0) =~= Seq::<(String, i32)>::empty());
    }
    None
}

/// Looks a name up across the scope stack, searching from the innermost
/// scope outwards.
fn stack_lookup(stack: &Vec<Vec<(String, i32)>>, name: &String) -> (r: Option<i32>)
    ensures
        match r {
            Some(v) => lookup(stack_view(stack@), name@) == Some(v as int),
            None => lookup(stack_view(stack@), name@) is None,
        },
{
    let mut k: usize = stack.len();
    proof {
        assert(stack_view(stack@).take(k as int) =~= stack_view(stack@));
    }
    while k > 0
        invariant
            0 <= k <= stack@.len(),
            lookup(stack_view(stack@), name@) == lookup(
                stack_view(stack@).take(k as int),
                name@,
            ),
        decreases k,
    {
        k = k - 1;
        proof {
            let sv = stack_view(stack@);
            assert(sv.take(k as int + 1).drop_last() =~= sv.take(k as int));
            assert(sv.take(k as int + 1).last() == sv[k as int]);
            assert(sv[k as int] == alist_map(stack@[k as int]@));
        }
        match assoc_lookup(&stack[k], name) {
            Some(v) => {
                return Some(v);
            },
            None => {},
        }
    }
    proof {
        assert(stack_view(stack@).take(0) =~= Seq::<Map<Seq<char>, int>>::empty());
    }
    None
}

/// Renders the immediate-load line for a literal value.
fn make_lit_line(v: i64) -> (r: String)
    ensures
        r@ == lit_line(v as int),
{
    let mut s = "    mov x9, #".to_owned();
    s.append(i64_to_string(v).as_str());
    s
}

/// Renders the load line for a stack offset.
fn make_load_line(off: i32) -> (r: String)
    ensures
        r@ == load_line(off as int),
{
    let mut s = "    ldr x9, [sp, #".to_owned();
    s.append(i32_to_string(off).as_str());
    s.append("]");
    proof {
        assert(s@ =~= load_line(off as int));
    }
    s
}

/// Renders the store line for a stack offset.
fn make_store_line(off: i32) -> (r: String)
    ensures
        r@ == store_line(off as int),
{
    let mut s = "    str x9, [sp, #".to_owned();
    s.append(i32_to_string(off).as_str());
    s.append("]");
    proof {
        assert(s@ =~= store_line(off as int));
    }
    s
}

/// Renders the global directive for a function's label.
fn make_func_global(name: &String) -> (r: String)
    ensures
        r@ == func_global_line(name@),
{
    let mut s = ".global objection_".to_owned();
    s.append(name.as_str());
    s
}

/// Renders the label line for a function.
fn make_func_label(name: &String) -> (r: String)
    ensures
        r@ == func_label_line(name@),
{
    let mut s = "objection_".to_owned();
    s.append(name.as_str());
    s.append(":");
    proof {
        assert(s@ =~= func_label_line(name@));
    }
    s
}

/// Joins lines with single newlines.
fn join_strings(lines: &Vec<String>) -> (r: String)
    ensures
        r@ == join_lines(lines_model(lines@)),
{
    let mut s = String::new();
    let mut k: usize = 0;
    proof {
        assert(lines_model(lines@).take(0) =~= Seq::<Seq<char>>::empty());
    }
    while k < lines.len()
        invariant
            0 <= k <= lines@.len(),
            s@ == join_lines(lines_model(lines@).take(k as int)),
        decreases lines@.len() - k,
    {
        if k > 0 {
            s.append("\n");
        }
        s.append(lines[k].as_str());
        proof {
            reveal_strlit("\n");
            assert("\n"@ =~= seq!['\n']);
            lemma_join_snoc(lines_model(lines@).take(k as int), lines@[k as int]@);
            assert(lines_model(lines@).take(k as int).push(lines@[k as int]@) =~= lines_model(
                lines@,
            ).take(k as int + 1));
            if k == 0 {
                assert(s@ =~= lines@[k as int]@);
            }
        }
        k = k + 1;
    }
    proof {
        assert(lines_model(lines@).take(lines@.len() as int) =~= lines_model(lines@));
    }
    s
}

/// The code generator for the one supported target: 64-bit ARM under a
/// Unix-like calling convention. It owns a stack of name-to-offset scopes
/// and the running frame offset of the function being generated; both live
/// only within one generation walk.
pub struct MacOsAarch64 {
    scope_offsets_stack: Vec<Vec<(String, i32)>>,
    current_offset: i32,
}

impl MacOsAarch64 {
    /// The scope stack as a stack of name-to-offset maps.
    pub closed spec fn scopes(&self) -> Seq<Map<Seq<char>, int>> {
        stack_view(self.scope_offsets_stack@)
    }

    /// A fresh generator with an empty scope stack.
    pub fn new() -> (r: Self)
        ensures
            r.wf(),
    {
        MacOsAarch64 { scope_offsets_stack: Vec::new(), current_offset: 0 }
    }

    /// Emits the lines of one expression: an immediate load for a literal, a
    /// stack load for an identifier resolved against the scope stack.
    fn generate_expr(&self, expr: &NodeExpr, lines: &mut Vec<String>) -> (r: Result<
        (),
        GenerationError,
    >)
        ensures
            r matches Ok(_) ==> (gen_expr(expr@, self.scopes()) matches Ok(ls) && lines_model(
                final(lines)@,
            ) == lines_model(old(lines)@) + ls),
            r matches Err(e) ==> gen_expr(expr@, self.scopes()) == Err::<Seq<Seq<char>>, _>(e@),
    {
        match expr {
            NodeExpr::Literal(NodeLiteral::IntLit(v)) => {
                let l = make_lit_line(*v);
                proof {
                    lemma_lines_push(lines@, l);
                    assert(lines_model(lines@).push(l@) =~= lines_model(lines@) + seq![
                        lit_line(*v as int),
                    ]);
                }
                lines.push(l);
                Ok(())
            },
            NodeExpr::Ident(id) => {
                match stack_lookup(&self.scope_offsets_stack, &id.name) {
                    Some(off) => {
                        let l = make_load_line(off);
                        proof {
                            lemma_lines_push(lines@, l);
                            assert(lines_model(lines@).push(l@) =~= lines_model(lines@) + seq![
                                load_line(off as int),
                            ]);
                        }
                        lines.push(l);
                        Ok(())
                    },
                    None => Err(GenerationError::UnresolvedIdentifier(id.name.clone())),
                }
            },
        }
    }

    /// Emits the lines of one statement, claiming a stack slot and binding
    /// the name in the innermost scope for an assignment.
    fn generate_stmt(&mut self, stmt: &NodeStmt, lines: &mut Vec<String>) -> (r: Result<
        (),
        GenerationError,
    >)
        requires
            old(self).scope_offsets_stack@.len() >= 1,
            old(self).current_offset as int - 8 >= i32::MIN,
        ensures
            r matches Ok(_) ==> (gen_stmt(stmt@, old(self).scopes(), old(self).current_offset as int)
                matches Ok((ls, sc2, off2)) && lines_model(final(lines)@) == lines_model(
                old(lines)@,
            ) + ls && final(self).scopes() == sc2 && final(self).current_offset as int == off2
                && final(self).scope_offsets_stack@.len() == old(self).scope_offsets_stack@.len()
                && final(self).current_offset as int >= old(self).current_offset as int - 8),
            r matches Err(e) ==> gen_stmt(stmt@, old(self).scopes(), old(self).current_offset as int)
                == Err::<(Seq<Seq<char>>, Seq<Map<Seq<char>, int>>, int), SpecGenerationError>(e@),
    {
        match stmt {
            NodeStmt::Return(expr) => {
                let ghost lines0 = lines@;
                match self.generate_expr(expr, lines) {
                    Ok(_) => {},
                    Err(e) => {
                        return Err(e);
                    },
                }
                let a = "    mov x0, x9".to_owned();
                proof {
                    lemma_lines_push(lines@, a);
                }
                lines.push(a);
                let b = "    ldp x29, x30, [sp], #16".to_owned();
                proof {
                    lemma_lines_push(lines@, b);
                }
                lines.push(b);
                let c = "    ret".to_owned();
                proof {
                    lemma_lines_push(lines@, c);
                }
                lines.push(c);
                proof {
                    if let Ok(ls) = gen_expr(expr@, self.scopes()) {
                        assert(lines_model(lines@) =~= lines_model(lines0) + (ls + seq![
                            "    mov x0, x9"@,
                            "    ldp x29, x30, [sp], #16"@,
                            "    ret"@,
                        ]));
                    }
                }
                Ok(())
            },
            NodeStmt::Assign(ident, _, expr) => {
                let ghost lines0 = lines@;
                let ghost scopes0 = self.scopes();
                match self.generate_expr(expr, lines) {
                    Ok(_) => {},
                    Err(e) => {
                        return Err(e);
                    },
                }
                self.current_offset = self.current_offset - 8;
                let off = self.current_offset;
                let mut top = match self.scope_offsets_stack.pop() {
                    Some(t) => t,
                    None => unreached(),
                };
                let ghost top0 = top@;
                top.push((ident.name.clone(), off));
                proof {
                    assert(top@.drop_last() =~= top0);
                    assert(alist_map(top@) == alist_map(top0).insert(ident.name@, off as int));
                }
                self.scope_offsets_stack.push(top);
                let l = make_store_line(off);
                proof {
                    lemma_lines_push(lines@, l);
                    if let Ok(ls) = gen_expr(expr@, scopes0) {
                        assert(lines_model(lines@).push(l@) =~= lines_model(lines0) + (ls + seq![
                            store_line(off as int),
                        ]));
                    }
                    assert(self.scopes() =~= scopes0.update(
                        scopes0.len() - 1,
                        scopes0.last().insert(ident.name@, off as int),
                    ));
                }
                lines.push(l);
                Ok(())
            },
        }
    }

    /// Emits the lines of a block: a fresh scope is pushed for its
    /// statements and dropped at its end, restoring the outer scopes.
    fn generate_block(&mut self, block: &NodeBlock, lines: &mut Vec<String>) -> (r: Result<
        (),
        GenerationError,
    >)
        requires
            old(self).current_offset as int - 8 * block.stmts@.len() >= i32::MIN,
        ensures
            r matches Ok(_) ==> (gen_block(
                block@.stmts,
                old(self).scopes(),
                old(self).current_offset as int,
            ) matches Ok((ls, off2)) && lines_model(final(lines)@) == lines_model(old(lines)@) + ls
                && final(self).scopes() == old(self).scopes() && final(self).current_offset as int
                == off2 && final(self).scope_offsets_stack@.len() == old(
                self,
            ).scope_offsets_stack@.len()),
            r matches Err(e) ==> gen_block(
                block@.stmts,
                old(self).scopes(),
                old(self).current_offset as int,
            ) == Err::<(Seq<Seq<char>>, int), SpecGenerationError>(e@),
    {
        let ghost scopes0 = self.scopes();
        let ghost off0 = self.current_offset as int;
        let ghost lines0 = lines@;
        let ghost model = stmts_model(block.stmts@);
        self.scope_offsets_stack.push(Vec::new());
        proof {
            assert(self.scopes() =~= scopes0.push(Map::<Seq<char>, int>::empty()));
            assert(model.skip(0) =~= model);
            assert(lines_model(lines@) =~= lines_model(lines0) + Seq::<Seq<char>>::empty());
        }
        let mut k: usize = 0;
        let ghost mut added: Seq<Seq<char>> = Seq::empty();
        while k < block.stmts.len()
            invariant
                0 <= k <= block.stmts@.len(),
                model == stmts_model(block.stmts@),
                scopes0 == old(self).scopes(),
                off0 == old(self).current_offset as int,
                lines0 == old(lines)@,
                off0 - 8 * block.stmts@.len() >= i32::MIN,
                self.scope_offsets_stack@.len() == scopes0.len() + 1,
                self.current_offset as int >= off0 - 8 * k,
                self.current_offset as int <= i32::MAX,
                lines_model(lines@) == lines_model(lines0) + added,
                gen_stmts(model, scopes0.push(Map::empty()), off0, Seq::empty()) == gen_stmts(
                    model.skip(k as int),
                    self.scopes(),
                    self.current_offset as int,
                    added,
                ),
            decreases block.stmts@.len() - k,
        {
            let ghost scopes_pre = self.scopes();
            let ghost off_pre = self.current_offset as int;
            let ghost added0 = added;
            let st = &block.stmts[k];
            proof {
                assert(model.skip(k as int)[0] == model[k as int]);
                assert(model[k as int] == block.stmts@[k as int]@);
            }
            match self.generate_stmt(st, lines) {
                Ok(_) => {
                    proof {
                        assert(model.skip(k as int).drop_first() =~= model.skip(k as int + 1));
                        if let Ok((ls, _, _)) = gen_stmt(st@, scopes_pre, off_pre) {
                            added = added0 + ls;
                            assert(lines_model(lines@) =~= lines_model(lines0) + added);
                        }
                    }
                    k = k + 1;
                },
                Err(e) => {
                    proof {
                        assert(gen_stmts(model, scopes0.push(Map::empty()), off0, Seq::empty())
                            == Err::<
                            (Seq<Seq<char>>, Seq<Map<Seq<char>, int>>, int),
                            SpecGenerationError,
                        >(e@));
                    }
                    return Err(e);
                },
            }
        }
        let ghost stack_pre = self.scope_offsets_stack@;
        proof {
            assert(model.skip(block.stmts@.len() as int) =~= Seq::<SpecStmt>::empty());
            assert(gen_stmts(model, scopes0.push(Map::empty()), off0, Seq::empty()) == Ok::<
                _,
                SpecGenerationError,
            >((added, stack_view(stack_pre), self.current_offset as int)));
            lemma_gen_stmts_scopes(model, scopes0.push(Map::empty()), off0, Seq::empty());
        }
        match self.scope_offsets_stack.pop() {
            Some(_) => {},
            None => unreached(),
        }
        proof {
            assert forall|k: int| 0 <= k < scopes0.len() implies stack_view(
                self.scope_offsets_stack@,
            )[k] == scopes0[k] by {
                assert(self.scope_offsets_stack@[k] == stack_pre[k]);
                assert(stack_view(stack_pre)[k] == alist_map(stack_pre[k]@));
                assert(stack_view(stack_pre)[k] == scopes0.push(Map::empty())[k]);
                assert(scopes0.push(Map::empty())[k] == scopes0[k]);
            }
            assert(self.scopes() =~= scopes0);
        }
        Ok(())
    }

    /// Emits the lines of one function: its global directive and label, the
    /// frame save and frame-pointer setup, then its body in a fresh function
    /// scope with the running offset reset to zero.
    fn generate_function(&mut self, func: &NodeFunc, lines: &mut Vec<String>) -> (r: Result<
        (),
        GenerationError,
    >)
        requires
            old(self).scope_offsets_stack@.len() == 0,
            func.block.stmts@.len() <= 0x0FFF_FFFF,
        ensures
            r matches Ok(_) ==> (gen_function(func@) matches Ok(ls) && lines_model(final(lines)@)
                == lines_model(old(lines)@) + ls && final(self).scope_offsets_stack@.len() == 0),
            r matches Err(e) ==> gen_function(func@) == Err::<Seq<Seq<char>>, _>(e@),
    {
        let ghost lines0 = lines@;
        lines.push(make_func_global(&func.ident.name));
        lines.push(make_func_label(&func.ident.name));
        lines.push("    stp x29, x30, [sp, #-16]!".to_owned());
        lines.push("    mov x29, sp".to_owned());
        let ghost header = seq![
            func_global_line(func.ident.name@),
            func_label_line(func.ident.name@),
            "    stp x29, x30, [sp, #-16]!"@,
            "    mov x29, sp"@,
        ];
        proof {
            assert(lines_model(lines@) =~= lines_model(lines0) + header);
        }
        self.current_offset = 0;
        self.scope_offsets_stack.push(Vec::new());
        proof {
            assert(self.scopes() =~= seq![Map::<Seq<char>, int>::empty()]);
        }
        match self.generate_block(&func.block, lines) {
            Ok(_) => {},
            Err(e) => {
                return Err(e);
            },
        }
        match self.scope_offsets_stack.pop() {
            Some(_) => {},
            None => unreached(),
        }
        proof {
            if let Ok((ls, _)) = gen_block(func@.block.stmts, seq![Map::<Seq<char>, int>::empty()], 0) {
                assert(lines_model(lines@) =~= lines_model(lines0) + (header + ls));
            }
        }
        Ok(())
    }
}

impl CodeGenerator for MacOsAarch64 {
    /// Generation starts from an empty scope stack.
    closed spec fn wf(&self) -> bool {
        self.scope_offsets_stack@.len() == 0
    }

    /// Every block must be small enough for the 32-bit frame offsets: each
    /// statement claims at most one 8-byte slot.
    open spec fn accepts(&self, prog: SpecProg) -> bool {
        forall|k: int|
            0 <= k < prog.functions.len() ==> (#[trigger] prog.functions[k]).block.stmts.len()
                <= 0x0FFF_FFFF
    }

    /// The newline-joined text of the program's lines.
    open spec fn spec_generate(&self, prog: SpecProg) -> Result<Seq<char>, SpecGenerationError> {
        match gen_program(prog) {
            Ok(ls) => Ok(join_lines(ls)),
            Err(e) => Err(e),
        }
    }

    fn generate(&mut self, prog: &NodeProg) -> (r: Result<String, GenerationError>) {
        let mut lines: Vec<String> = Vec::new();
        lines.push(".global _main".to_owned());
        lines.push("_main:".to_owned());
        lines.push("    bl objection_main".to_owned());
        lines.push("    mov x16, #1".to_owned());
        lines.push("    svc #0x80".to_owned());
        proof {
            assert(lines_model(lines@) =~= preamble());
        }
        let ghost fm = funcs_model(prog.functions@);
        proof {
            assert(fm.skip(0) =~= fm);
            assert forall|j: int|
                0 <= j < prog.functions@.len() implies (#[trigger] prog.functions@[j]@).block.stmts.len()
                <= 0x0FFF_FFFF by {
                assert(prog@.functions[j] == prog.functions@[j]@);
            }
        }
        let mut k: usize = 0;
        while k < prog.functions.len()
            invariant
                0 <= k <= prog.functions@.len(),
                fm == funcs_model(prog.functions@),
                self.scope_offsets_stack@.len() == 0,
                forall|j: int|
                    0 <= j < prog.functions@.len() ==> (#[trigger] prog.functions@[j]@).block.stmts.len()
                        <= 0x0FFF_FFFF,
                gen_funcs(fm, preamble()) == gen_funcs(fm.skip(k as int), lines_model(lines@)),
            decreases prog.functions@.len() - k,
        {
            let ghost lines_pre = lines@;
            proof {
                assert(fm.skip(k as int)[0] == fm[k as int]);
                assert(fm[k as int] == prog.functions@[k as int]@);
            }
            match self.generate_function(&prog.functions[k], &mut lines) {
                Ok(_) => {
                    proof {
                        assert(fm.skip(k as int).drop_first() =~= fm.skip(k as int + 1));
                    }
                    k = k + 1;
                },
                Err(e) => {
                    self.scope_offsets_stack = Vec::new();
                    proof {
                        assert(gen_funcs(fm, preamble()) == Err::<Seq<Seq<char>>, _>(e@));
                    }
                    return Err(e);
                },
            }
        }
        proof {
            assert(fm.skip(prog.functions@.len() as int) =~= Seq::<SpecFunc>::empty());
        }
        let out = join_strings(&lines);
        Ok(out)
    }
}

} // verus!
