//! The syntax tree: one exit statement wrapping one integer expression.

use vstd::prelude::*;

use crate::tokens::Token;

verus! {

/// The expression of a statement: exactly one integer-literal token,
/// holding the value to exit with.
pub struct NodeExpr {
    pub integer: Token,
}

/// The root of the syntax tree: one exit statement owning one expression.
pub struct NodeExit {
    pub expr: NodeExpr,
}

impl NodeExpr {
    /// The wrapped token is an integer literal carrying its digit text.
    pub open spec fn wf(&self) -> bool {
        self.integer.kind is Integer && self.integer.value is Some
    }

    /// The digit characters of the literal.
    pub open spec fn digits(&self) -> Seq<char> {
        (self.integer.value->0)@
    }
}

impl NodeExit {
    /// The tree is well formed when its expression is.
    pub open spec fn wf(&self) -> bool {
        self.expr.wf()
    }

    /// The digit characters of the tree's literal.
    pub open spec fn digits(&self) -> Seq<char> {
        self.expr.digits()
    }
}

} // verus!
