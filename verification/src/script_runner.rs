//! The state of the script runner window.
use vstd::prelude::*;

verus! {

/// The script being edited, the output of its last run, and whether the window is
/// open and a run was asked for.
pub struct ScriptRunner {
    pub script: String,
    pub output: String,
    pub opened: bool,
    pub execute_requested: bool,
}

impl ScriptRunner {
    /// A closed runner with an empty script and no output.
    pub fn new() -> (r: Self)
        ensures
            r.script@ == Seq::<char>::empty(),
            r.output@ == Seq::<char>::empty(),
            !r.opened,
            !r.execute_requested,
    {
        ScriptRunner { script: String::new(), output: String::new(), opened: false, execute_requested: false }
    }
}

} // verus!
