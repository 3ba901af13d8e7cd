use vstd::prelude::*;

verus! {

/// The tree produced by parsing: an ordered sequence of functions.
#[derive(Debug)]
pub struct NodeProg {
    pub functions: Vec<NodeFunc>,
}

/// A function: its name, its declared return type and the block that is its
/// body.
#[derive(Debug)]
pub struct NodeFunc {
    pub ident: NodeIdent,
    pub r_type: NodeType,
    pub block: NodeBlock,
}

/// One lexical scope: an ordered sequence of statements.
#[derive(Debug)]
pub struct NodeBlock {
    pub stmts: Vec<NodeStmt>,
}

/// A statement: return a value, or bind a value to a typed variable.
#[derive(Debug)]
pub enum NodeStmt {
    Return(NodeExpr),
    Assign(NodeIdent, NodeType, NodeExpr),
}

/// An expression: an integer literal or a variable reference.
#[derive(Debug)]
pub enum NodeExpr {
    Literal(NodeLiteral),
    Ident(NodeIdent),
}

/// A literal value.
#[derive(Clone, Copy, Debug, PartialEq, Eq, Structural)]
pub enum NodeLiteral {
    IntLit(i64),
}

/// An identifier.
#[derive(Debug)]
pub struct NodeIdent {
    pub name: String,
}

/// A declared type.
#[derive(Clone, Copy, Debug, PartialEq, Eq, Structural)]
pub struct NodeType {
    pub meta: TypeMeta,
}

/// The shape of a type: currently only primitive kinds exist.
#[derive(Clone, Copy, Debug, PartialEq, Eq, Structural)]
pub enum TypeMeta {
    Primitive(PrimitiveType),
}

/// The primitive types of the language.
#[derive(Clone, Copy, Debug, PartialEq, Eq, Structural)]
pub enum PrimitiveType {
    Int,
}

/// The mathematical image of a program tree.
pub struct SpecProg {
    pub functions: Seq<SpecFunc>,
}

/// The mathematical image of a function node.
pub struct SpecFunc {
    pub name: Seq<char>,
    pub r_type: NodeType,
    pub block: SpecBlock,
}

/// The mathematical image of a block node.
pub struct SpecBlock {
    pub stmts: Seq<SpecStmt>,
}

/// The mathematical image of a statement node.
pub enum SpecStmt {
    Return(SpecExpr),
    Assign(Seq<char>, NodeType, SpecExpr),
}

/// The mathematical image of an expression node.
pub enum SpecExpr {
    Literal(int),
    Ident(Seq<char>),
}

impl View for NodeIdent {
    type V = Seq<char>;

    open spec fn view(&self) -> Seq<char> {
        self.name@
    }
}

impl View for NodeExpr {
    type V = SpecExpr;

    open spec fn view(&self) -> SpecExpr {
        match self {
            NodeExpr::Literal(NodeLiteral::IntLit(x)) => SpecExpr::Literal(*x as int),
            NodeExpr::Ident(id) => SpecExpr::Ident(id@),
        }
    }
}

impl View for NodeStmt {
    type V = SpecStmt;

    open spec fn view(&self) -> SpecStmt {
        match self {
            NodeStmt::Return(e) => SpecStmt::Return(e@),
            NodeStmt::Assign(id, t, e) => SpecStmt::Assign(id@, *t, e@),
        }
    }
}

/// The images of a sequence of statement nodes.
pub open spec fn stmts_model(ss: Seq<NodeStmt>) -> Seq<SpecStmt> {
    ss.map_values(|s: NodeStmt| s@)
}

impl View for NodeBlock {
    type V = SpecBlock;

    open spec fn view(&self) -> SpecBlock {
        SpecBlock { stmts: stmts_model(self.stmts@) }
    }
}

impl View for NodeFunc {
    type V = SpecFunc;

    open spec fn view(&self) -> SpecFunc {
        SpecFunc { name: self.ident@, r_type: self.r_type, block: self.block@ }
    }
}

/// The images of a sequence of function nodes.
pub open spec fn funcs_model(fs: Seq<NodeFunc>) -> Seq<SpecFunc> {
    fs.map_values(|f: NodeFunc| f@)
}

impl View for NodeProg {
    type V = SpecProg;

    open spec fn view(&self) -> SpecProg {
        SpecProg { functions: funcs_model(self.functions@) }
    }
}

} // verus!
