//! How an extension describes its tools to the model.

use vstd::prelude::*;

verus! {

/// One tool: its name, what it is for, and the JSON schema of its
/// arguments, as JSON text.
#[derive(Debug, Clone, Copy, PartialEq, Eq)]
pub struct ToolSpec {
    pub name: &'static str,
    pub description: &'static str,
    pub input_schema: &'static str,
}

} // verus!
