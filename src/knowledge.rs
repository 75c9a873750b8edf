//! The knowledge base of learned solutions.
use vstd::prelude::*;

verus! {

/// Knowledge base errors.
#[derive(Debug, Clone, PartialEq, Eq)]
pub enum KnowledgeError {
    NotFound(String),
}

/// Knowledge base manager.
pub struct KnowledgeBase {}

impl KnowledgeBase {
    /// A new, empty knowledge base.
    pub fn new() -> (r: Self) {
        KnowledgeBase {}
    }
}

} // verus!
