//! The code generator: one syntax tree in, assembly text out.
//!
//! The output is a fixed skeleton — entry-point label, a load of the
//! process-termination syscall number, a load of the exit status, the
//! syscall instruction — with the literal's digit text substituted
//! verbatim into the status load. No range check is made against the
//! target's effective exit-status width: the digits pass through as
//! written.

use vstd::prelude::*;

use vstd::string::StringExecFns;

use crate::nodes::NodeExit;

verus! {

/// The assembly produced for a program whose literal has the given
/// digits: the fixed skeleton with the digit text substituted into the
/// status load.
pub open spec fn spec_asm(digits: Seq<char>) -> Seq<char> {
    "global _start:\n_start:\n    mov rax, 60\n    mov rdi, "@ + digits + "\n    syscall\n"@
}

/// The generator: owns the syntax tree and emits its assembly.
pub struct Generator {
    root: NodeExit,
}

impl Generator {
    /// The digit text of the tree's literal.
    pub closed spec fn root_digits(&self) -> Seq<char> {
        self.root.digits()
    }

    /// The held tree is well formed.
    pub closed spec fn wf(&self) -> bool {
        self.root.wf()
    }

    pub fn new(root: NodeExit) -> (g: Generator)
        ensures
            g.wf() == root.wf(),
            g.root_digits() == root.digits(),
    {
        Generator { root }
    }

    /// Emits the complete assembly unit for the tree, in one pass with no
    /// branching on its shape.
    pub fn generate(&self) -> (r: String)
        requires
            self.wf(),
        ensures
            r@ == spec_asm(self.root_digits()),
    {
        let mut output = String::new();
        output.append("global _start:\n_start:\n    mov rax, 60\n    mov rdi, ");
        let value = self.root.expr.integer.value.as_ref().unwrap();
        output.append(value.as_str());
        output.append("\n    syscall\n");
        proof {
            assert(output@ =~= spec_asm(self.root_digits()));
        }
        output
    }
}

} // verus!
