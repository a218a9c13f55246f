//! Building the syntax tree from a token list.
use vstd::prelude::*;
use crate::batch::{Error, Node, Token};

verus! {

impl Default for Node {
    fn default() -> (r: Node)
        ensures
            r is Empty,
    {
        Node::Empty
    }
}

impl Node {
    /// The display text of the node.
    pub fn text(&self) -> (r: String)
        ensures
            r@ == "(None)"@,
    {
        String::from_str("(None)")
    }
}

/// The syntax tree of `tokens`; the grammar has no rule yet, so the tree is
/// empty and no error is reported.
pub fn build(tokens: &Vec<Token>, errors: &mut Vec<Error>) -> (r: Node)
    ensures
        r is Empty,
        final(errors)@ == old(errors)@,
{
    Node::Empty
}

} // verus!
