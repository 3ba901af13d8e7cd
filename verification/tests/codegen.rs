use objection::code_generator::aarch64::MacOsAarch64;
use objection::code_generator::{target_supported, CodeGenerator, GenerationError};
use objection::lexer::get_tokens;
use objection::parser::ast::{
    NodeBlock, NodeExpr, NodeFunc, NodeIdent, NodeLiteral, NodeProg, NodeStmt, NodeType,
    PrimitiveType, TypeMeta,
};
use objection::parser::parse_prog;

fn compile(src: &str) -> Result<String, GenerationError> {
    let prog = parse_prog(get_tokens(src.to_string())).unwrap();
    MacOsAarch64::new().generate(&prog)
}

fn int_type() -> NodeType {
    NodeType { meta: TypeMeta::Primitive(PrimitiveType::Int) }
}

fn one_function_program(stmts: Vec<NodeStmt>) -> NodeProg {
    NodeProg {
        functions: vec![NodeFunc {
            ident: NodeIdent { name: "main".to_string() },
            r_type: int_type(),
            block: NodeBlock { stmts },
        }],
    }
}

#[test]
fn generate_empty_program_is_trampoline_only() {
    let out = compile("").unwrap();
    assert_eq!(
        out,
        ".global _main\n\
         _main:\n    \
         bl objection_main\n    \
         mov x16, #1\n    \
         svc #0x80"
    );
}

#[test]
fn generate_return_literal() {
    // source `main(): int = { return 152; }`: the literal-return path
    let out = compile("main(): int = { return 152; }").unwrap();
    assert_eq!(
        out,
        ".global _main\n\
         _main:\n    \
         bl objection_main\n    \
         mov x16, #1\n    \
         svc #0x80\n\
         .global objection_main\n\
         objection_main:\n    \
         stp x29, x30, [sp, #-16]!\n    \
         mov x29, sp\n    \
         mov x9, #152\n    \
         mov x0, x9\n    \
         ldp x29, x30, [sp], #16\n    \
         ret"
    );
}

#[test]
fn generate_assign_then_load() {
    // source `main(): int = { x: int = 12; return x; }`: the
    // assignment-then-load path with 8-byte stack-offset accounting
    let out = compile("main(): int = { x: int = 12; return x; }").unwrap();
    assert_eq!(
        out,
        ".global _main\n\
         _main:\n    \
         bl objection_main\n    \
         mov x16, #1\n    \
         svc #0x80\n\
         .global objection_main\n\
         objection_main:\n    \
         stp x29, x30, [sp, #-16]!\n    \
         mov x29, sp\n    \
         mov x9, #12\n    \
         str x9, [sp, #-8]\n    \
         ldr x9, [sp, #-8]\n    \
         mov x0, x9\n    \
         ldp x29, x30, [sp], #16\n    \
         ret"
    );
}

#[test]
fn generate_second_assignment_shadows_first() {
    // reusing a name re-binds it: a later reference loads the innermost,
    // most recent slot, not the first one
    let prog = one_function_program(vec![
        NodeStmt::Assign(
            NodeIdent { name: "x".to_string() },
            int_type(),
            NodeExpr::Literal(NodeLiteral::IntLit(1)),
        ),
        NodeStmt::Assign(
            NodeIdent { name: "x".to_string() },
            int_type(),
            NodeExpr::Literal(NodeLiteral::IntLit(2)),
        ),
        NodeStmt::Return(NodeExpr::Ident(NodeIdent { name: "x".to_string() })),
    ]);
    let out = MacOsAarch64::new().generate(&prog).unwrap();
    assert!(out.contains("str x9, [sp, #-8]"));
    assert!(out.contains("str x9, [sp, #-16]"));
    assert!(out.contains("ldr x9, [sp, #-16]"));
    assert!(!out.contains("ldr x9, [sp, #-8]"));
}

#[test]
fn generate_offsets_reset_per_function() {
    let out = compile(
        "a(): int = { x: int = 1; return x; } b(): int = { y: int = 2; return y; }",
    )
    .unwrap();
    // both functions store their first variable at the first slot
    assert_eq!(out.matches("str x9, [sp, #-8]").count(), 2);
    assert!(!out.contains("str x9, [sp, #-16]"));
    assert!(!out.contains("ldr x9, [sp, #-16]"));
}

#[test]
fn generate_two_functions_in_declaration_order() {
    let out = compile("a(): int = { return 1; } b(): int = { return 2; }").unwrap();
    let pos_a = out.find("objection_a:").unwrap();
    let pos_b = out.find("objection_b:").unwrap();
    assert!(pos_a < pos_b);
    assert!(out.contains(".global objection_a"));
    assert!(out.contains(".global objection_b"));
}

#[test]
fn generate_unresolved_identifier_fails() {
    // the parser would reject this reference; a tree built by hand shows the
    // generator's own internal-consistency check
    let prog = one_function_program(vec![NodeStmt::Return(NodeExpr::Ident(NodeIdent {
        name: "y".to_string(),
    }))]);
    let err = MacOsAarch64::new().generate(&prog).unwrap_err();
    match err {
        GenerationError::UnresolvedIdentifier(name) => assert_eq!(name, "y"),
    }
}

#[test]
fn generate_negative_literal_from_tree() {
    let prog = one_function_program(vec![NodeStmt::Return(NodeExpr::Literal(
        NodeLiteral::IntLit(-7),
    ))]);
    let out = MacOsAarch64::new().generate(&prog).unwrap();
    assert!(out.contains("mov x9, #-7"));
}

#[test]
fn target_support_is_exactly_one_pair() {
    assert!(target_supported("macos", "aarch64"));
    assert!(!target_supported("macos", "x86_64"));
    assert!(!target_supported("linux", "aarch64"));
    assert!(!target_supported("", ""));
}
