//! The pass's model of the host's immutable, fully type-checked
//! expression tree: node shapes, stable identifiers, and the
//! well-formedness predicates the traversal proofs rest on.

use vstd::prelude::*;

verus! {

/// A source location, as the host's tree reports it.
#[derive(Clone, Copy, PartialEq, Eq, Structural, Debug)]
pub struct Span {
    pub lo: u64,
    pub hi: u64,
}

/// A qualified reference to a definition, as written at a call site.
#[derive(Debug)]
pub enum QualPath {
    /// A full written path; the called method's name is the last segment.
    Resolved { segments: Vec<String> },
    /// A type-relative reference; only the method segment is textual.
    TypeRelative { segment: String },
}

/// The callee of a qualified call.
#[derive(Debug)]
pub struct Callee {
    /// Key under which the host resolves this reference to a definition.
    pub ref_id: u64,
    /// The span of the written callee path.
    pub span: Span,
    /// The written path, when the callee is a plain path expression;
    /// `None` when the callee is anything else.
    pub path: Option<QualPath>,
}

/// One node of the expression tree. Distinct nodes of a well-formed
/// tree carry distinct ids; see [`subtree_well_formed`].
#[derive(Debug)]
pub struct Expr {
    /// Stable node identifier.
    pub id: u64,
    /// The node's source span.
    pub span: Span,
    pub kind: ExprKind,
}

/// The node shapes the pass distinguishes.
#[derive(Debug)]
pub enum ExprKind {
    /// `recv.name(...)`; the receiver is the first element of `args`.
    MethodCall { name: String, args: Vec<Expr> },
    /// `callee(...)` with an explicitly written callee.
    Call { callee: Callee, args: Vec<Expr> },
    /// A match synthesized by error-propagation desugaring;
    /// `arms` holds the arm bodies in order.
    TryDesugarMatch { arms: Vec<Expr> },
    /// An early return; `vals` holds the returned operand, if any
    /// (at most one in a well-formed tree).
    Ret { vals: Vec<Expr> },
    /// A loop break; `vals` holds the carried operand, if any.
    Brk { vals: Vec<Expr> },
    /// Any other expression; only its children matter to this pass.
    Other { children: Vec<Expr> },
}

impl Expr {
    /// The child expressions, in the order the host traversal visits them.
    pub open spec fn children(self) -> Seq<Expr> {
        match self.kind {
            ExprKind::MethodCall { name: _, args } => args@,
            ExprKind::Call { callee: _, args } => args@,
            ExprKind::TryDesugarMatch { arms } => arms@,
            ExprKind::Ret { vals } => vals@,
            ExprKind::Brk { vals } => vals@,
            ExprKind::Other { children } => children@,
        }
    }
}

/// Whether the subtree rooted at `e` contains a node with id `x`.
pub open spec fn subtree_has_id(e: Expr, x: u64) -> bool
    decreases e, 0int,
{
    e.id == x || list_has_id(e.children(), 0, x)
}

/// Whether some subtree rooted at `es[i]`, `es[i + 1]`, ... contains a
/// node with id `x`.
pub open spec fn list_has_id(es: Seq<Expr>, i: int, x: u64) -> bool
    decreases es, es.len() - i,
{
    0 <= i < es.len() && (subtree_has_id(es[i], x) || list_has_id(es, i + 1, x))
}

/// Well-formedness of a tree: every node's id differs from the ids of
/// all its descendants, and the subtrees of any two siblings share no id.
/// The host's stable node identifiers give exactly this.
pub open spec fn subtree_well_formed(e: Expr) -> bool
    decreases e, 0int,
{
    &&& !list_has_id(e.children(), 0, e.id)
    &&& list_well_formed(e.children(), 0)
}

/// Well-formedness of the sibling list `es[i]`, `es[i + 1]`, ...
pub open spec fn list_well_formed(es: Seq<Expr>, i: int) -> bool
    decreases es, es.len() - i,
{
    0 <= i < es.len() ==> {
        &&& subtree_well_formed(es[i])
        &&& (forall|x: u64| subtree_has_id(es[i], x) ==> !list_has_id(es, i + 1, x))
        &&& list_well_formed(es, i + 1)
    }
}

} // verus!
