//! The node model: one exhaustive tagged union over the syntactic kinds the
//! engine analyses, each node carrying a byte-range `src` and its children
//! in natural declaration order.
//!
//! Children conventions, per kind:
//! - `SourceUnit`: pragma directives and top-level definitions;
//! - `ContractDefinition`: the contract's members;
//! - `FunctionDefinition`: parameter and return declarations, then the body
//!   `Block` when `implemented` is set;
//! - `Block`: statements;
//! - `VariableDeclarationStatement`: the declared variables, then the
//!   initial-value expression when there is one;
//! - `ExpressionStatement`, `EmitStatement`, `MemberAccess`,
//!   `YulExpressionStatement`: the single inner expression;
//! - `Assignment`, `BinaryOperation`: left-hand side then right-hand side;
//! - `FunctionCall`, `YulFunctionCall`: the callee, then the arguments;
//! - `ForStatement`: initialiser, condition, increment and body as present;
//!   the condition is the only bare expression among the children;
//! - `IfStatement`: condition, then the branches;
//! - `InlineAssembly`: the assembly block's statements;
//! - `YulBlock`: statements;
//! - `YulAssignment`: the assignment targets, then the value; the value is
//!   always the last child;
//! - `YulVariableDeclaration`: the value expression when there is one;
//! - `YulForLoop`: initialiser block, condition, post-iteration block, body;
//! - `EventDefinition`, `ErrorDefinition`: parameter declarations;
//! - `ModifierDefinition`: the body block;
//! - the remaining kinds have no children.

use vstd::prelude::*;

verus! {

/// A byte range inside a source file: start offset, length, file index.
#[derive(Clone, Copy, Debug)]
pub struct Src {
    pub start: Option<usize>,
    pub length: Option<usize>,
    pub index: Option<usize>,
}

impl Src {
    /// A source range with all parts unknown.
    pub fn empty() -> (r: Src)
        ensures
            r.start is None,
            r.length is None,
            r.index is None,
    {
        Src { start: None, length: None, index: None }
    }
}

/// The compiler's description of an expression's type.
#[derive(Debug)]
pub struct TypeDescriptions {
    pub type_string: Option<String>,
    pub type_identifier: Option<String>,
}

#[derive(Clone, Copy, PartialEq, Eq, Structural, Debug)]
pub enum ContractKind {
    Contract,
    Interface,
    Library,
}

#[derive(Clone, Copy, PartialEq, Eq, Structural, Debug)]
pub enum FunctionKind {
    Constructor,
    Function,
    Receive,
    Fallback,
    FreeFunction,
}

#[derive(Clone, Copy, PartialEq, Eq, Structural, Debug)]
pub enum Visibility {
    Public,
    Private,
    Internal,
    External,
}

#[derive(Clone, Copy, PartialEq, Eq, Structural, Debug)]
pub enum Mutability {
    Mutable,
    Immutable,
    Constant,
}

#[derive(Clone, Copy, PartialEq, Eq, Structural, Debug)]
pub enum BinaryOperator {
    Add,
    Sub,
    Mul,
    Div,
    Mod,
    Other,
}

#[derive(Clone, Copy, PartialEq, Eq, Structural, Debug)]
pub enum FunctionCallKind {
    FunctionCall,
    TypeConversion,
    StructConstructorCall,
}

/// A modifier reference as written at a function definition.
#[derive(Debug)]
pub enum IdentifierOrIdentifierPath {
    Identifier(String),
    IdentifierPath(String),
}

/// One modifier invocation on a function definition.
#[derive(Debug)]
pub struct ModifierInvocation {
    pub modifier_name: IdentifierOrIdentifierPath,
}

/// The root of one file's tree.
#[derive(Debug)]
pub struct SourceUnit {
    /// The compiler's canonical numeric identity for this tree.
    pub id: u64,
    pub absolute_path: String,
}

#[derive(Debug)]
pub struct PragmaDirective {
    pub literals: Vec<String>,
}

#[derive(Debug)]
pub struct ContractDefinition {
    pub name: String,
    pub kind: ContractKind,
}

#[derive(Debug)]
pub struct FunctionDefinition {
    pub name: String,
    pub kind: FunctionKind,
    pub visibility: Visibility,
    /// Whether the definition carries a body.
    pub implemented: bool,
    pub modifiers: Vec<ModifierInvocation>,
}

#[derive(Debug)]
pub struct ElementaryTypeName {
    pub name: String,
}

#[derive(Debug)]
pub struct VariableDeclaration {
    /// The declaration's numeric id, the target of references.
    pub id: u64,
    pub name: String,
    pub state_variable: bool,
    pub indexed: bool,
    pub mutability: Mutability,
    pub visibility: Visibility,
    pub declared_type: Option<ElementaryTypeName>,
}

#[derive(Debug)]
pub struct Identifier {
    pub name: String,
    pub referenced_declaration: Option<u64>,
    pub type_descriptions: TypeDescriptions,
}

#[derive(Debug)]
pub struct MemberAccess {
    pub member_name: String,
    pub type_descriptions: TypeDescriptions,
}

#[derive(Debug)]
pub struct FunctionCall {
    pub kind: FunctionCallKind,
    pub type_descriptions: TypeDescriptions,
}

#[derive(Debug)]
pub struct Literal {
    pub type_descriptions: TypeDescriptions,
}

#[derive(Debug)]
pub struct BinaryOperation {
    pub operator: BinaryOperator,
}

#[derive(Debug)]
pub struct ElementaryTypeNameExpression {
    pub name: String,
}

#[derive(Debug)]
pub struct EventDefinition {
    pub name: String,
}

#[derive(Debug)]
pub struct ErrorDefinition {
    pub name: String,
}

#[derive(Debug)]
pub struct ModifierDefinition {
    pub name: String,
}

#[derive(Debug)]
pub struct YulIdentifier {
    pub name: String,
}

/// The tag of a tree node, with the kind-specific payload.
#[derive(Debug)]
pub enum NodeKind {
    SourceUnit(SourceUnit),
    PragmaDirective(PragmaDirective),
    ContractDefinition(ContractDefinition),
    FunctionDefinition(FunctionDefinition),
    ModifierDefinition(ModifierDefinition),
    VariableDeclaration(VariableDeclaration),
    EventDefinition(EventDefinition),
    ErrorDefinition(ErrorDefinition),
    Block,
    VariableDeclarationStatement,
    ExpressionStatement,
    ForStatement,
    IfStatement,
    EmitStatement,
    Return,
    InlineAssembly,
    Assignment,
    BinaryOperation(BinaryOperation),
    FunctionCall(FunctionCall),
    MemberAccess(MemberAccess),
    Identifier(Identifier),
    Literal(Literal),
    ElementaryTypeNameExpression(ElementaryTypeNameExpression),
    YulBlock,
    YulAssignment,
    YulExpressionStatement,
    YulVariableDeclaration,
    YulForLoop,
    YulFunctionCall,
    YulIdentifier(YulIdentifier),
    YulLiteral,
}

/// One node of a compiled unit's tree.
#[derive(Debug)]
pub struct Node {
    pub kind: NodeKind,
    pub src: Src,
    pub children: Vec<Node>,
}

impl Node {
    /// The canonical numeric identity of the tree rooted here: the source
    /// unit's id, or zero for a root of any other kind.
    pub open spec fn spec_tree_id(self) -> u64 {
        match self.kind {
            NodeKind::SourceUnit(su) => su.id,
            _ => 0,
        }
    }

    /// Executable twin of [`Self::spec_tree_id`].
    pub fn tree_id(&self) -> (r: u64)
        ensures
            r == self.spec_tree_id(),
    {
        match &self.kind {
            NodeKind::SourceUnit(su) => su.id,
            _ => 0,
        }
    }

    /// The path recorded on the root, or the empty string elsewhere.
    pub fn absolute_path(&self) -> (r: &str)
        ensures
            self.kind is SourceUnit ==> r@ == self.kind->SourceUnit_0.absolute_path@,
            !(self.kind is SourceUnit) ==> r@ == Seq::<char>::empty(),
    {
        match &self.kind {
            NodeKind::SourceUnit(su) => su.absolute_path.as_str(),
            _ => {
                proof {
                    reveal_strlit("");
                }
                ""
            },
        }
    }
}

/// The nodes of the tree rooted at `n`, in depth-first pre-order: the node
/// itself, then its children's trees left to right.
pub open spec fn preorder(n: Node) -> Seq<Node>
    decreases n,
{
    seq![n] + preorder_seq(n.children@)
}

/// Pre-order enumeration of a forest, left to right.
pub open spec fn preorder_seq(ns: Seq<Node>) -> Seq<Node>
    decreases ns,
{
    if ns.len() == 0 {
        Seq::empty()
    } else {
        preorder(ns[0]) + preorder_seq(ns.drop_first())
    }
}

} // verus!
