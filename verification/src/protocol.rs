//! Plain value types passed across the editor-protocol boundary.

use vstd::prelude::*;

verus! {

/// The kinds of dictionary entry a completion or hover answer can name,
/// in the order lookups try them.
#[derive(Debug, Clone, Copy, PartialEq, Eq, Structural, Hash)]
pub enum StdCompletionKind {
    Function,
    Variable,
    Constant,
    Object,
}

impl StdCompletionKind {
    /// Every kind, in lookup order: functions before variables before
    /// constants before objects.
    pub fn all() -> (r: Vec<StdCompletionKind>)
        ensures
            r@ == seq![
                StdCompletionKind::Function,
                StdCompletionKind::Variable,
                StdCompletionKind::Constant,
                StdCompletionKind::Object,
            ],
    {
        let mut v: Vec<StdCompletionKind> = Vec::new();
        v.push(StdCompletionKind::Function);
        v.push(StdCompletionKind::Variable);
        v.push(StdCompletionKind::Constant);
        v.push(StdCompletionKind::Object);
        proof {
            assert(v@ =~= seq![
                StdCompletionKind::Function,
                StdCompletionKind::Variable,
                StdCompletionKind::Constant,
                StdCompletionKind::Object,
            ]);
        }
        v
    }
}

/// Options the editor hands the server when the session starts.
#[derive(Debug, Clone, PartialEq, Eq)]
pub struct InitializationOptions {
    /// The directory the project's resources are resolved against.
    pub working_directory: String,
}

} // verus!
