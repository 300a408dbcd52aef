//! Options recognised when a session is created.

use vstd::prelude::*;

verus! {

/// Optional configuration for creating a session.
#[non_exhaustive]
pub struct SessionConfig {
    /// When set, only these outputs are computed, and nodes that none of them
    /// depends on are dropped from the plan.
    pub outputs: Option<Vec<String>>,
}

impl SessionConfig {
    /// The requested output names as sequences of characters, if any were set.
    pub open spec fn requested(&self) -> Option<Seq<Seq<char>>> {
        self.outputs.deep_view()
    }

    /// A configuration with every option at its default: all declared outputs
    /// are computed.
    pub fn new() -> (config: Self)
        ensures
            config.outputs is None,
    {
        Self { outputs: None }
    }

    /// Replaces the requested outputs and hands the configuration back.
    pub fn with_outputs(self, outputs: Option<Vec<String>>) -> (config: Self)
        ensures
            config.outputs == outputs,
    {
        let mut config = self;
        config.outputs = outputs;
        config
    }
}

impl Default for SessionConfig {
    fn default() -> (config: Self)
        ensures
            config.outputs is None,
    {
        Self::new()
    }
}

} // verus!
