//! Agent tools that need no logic of their own beyond their names.
use vstd::prelude::*;

verus! {

/// How a model call may use tools.
#[derive(Debug, Clone)]
pub enum ToolChoice {
    /// The model chooses between text and tool calls.
    Auto,
    /// The model must call some tool.
    Required,
    /// The model must call this tool (used to force a conclusion).
    Specific { name: String },
}

/// The `output_finding` tool: the terminal tool of a review loop, whose
/// arguments are the finding itself.
pub struct OutputFindingTool;

impl OutputFindingTool {
    /// The tool's name.
    pub fn name(&self) -> (r: &'static str)
        ensures
            r@ == "output_finding"@,
    {
        "output_finding"
    }
}

} // verus!
