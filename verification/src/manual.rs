//! Plain value types of the static identifier manual that the lexical
//! answers are joined with. The manual itself — the indexed-by-name lookup
//! table and its rendering — lives with the surrounding request handlers;
//! only the plain data crosses the boundary.

use vstd::prelude::*;

verus! {

/// One named parameter of a manual function, with its description.
#[derive(Debug, Clone, PartialEq, Eq)]
pub struct GmManualFunctionParameter {
    /// The name of the parameter.
    pub parameter: String,
    /// A description given of the parameter.
    pub description: String,
}

impl Default for GmManualFunctionParameter {
    /// A parameter with empty name and description.
    fn default() -> (r: Self)
        ensures
            r.parameter@ == Seq::<char>::empty(),
            r.description@ == Seq::<char>::empty(),
    {
        GmManualFunctionParameter { parameter: String::new(), description: String::new() }
    }
}

} // verus!
