//! The sandbox that tools run in.
use vstd::prelude::*;

verus! {

/// Sandbox policy; so far every tool is allowed.
#[derive(Debug, Clone, Copy, PartialEq, Eq, Structural)]
pub struct SandboxPolicy {
    pub allow_network: bool,
    pub allow_fs: bool,
    pub max_cpu_ms: u64,
}

impl Default for SandboxPolicy {
    fn default() -> (res: Self)
        ensures
            res == (SandboxPolicy { allow_network: false, allow_fs: false, max_cpu_ms: 5_000 }),
    {
        SandboxPolicy { allow_network: false, allow_fs: false, max_cpu_ms: 5_000 }
    }
}

#[derive(Debug, Clone, Copy, PartialEq, Eq, Structural)]
pub struct Sandbox {
    pub policy: SandboxPolicy,
}

impl Default for Sandbox {
    fn default() -> (res: Self)
        ensures
            res == (Sandbox {
                policy: SandboxPolicy { allow_network: false, allow_fs: false, max_cpu_ms: 5_000 },
            }),
    {
        Sandbox { policy: SandboxPolicy::default() }
    }
}

impl Sandbox {
    /// Whether the tool may run.
    pub open spec fn allows(self, tool_name: Seq<char>) -> bool {
        true
    }

    pub fn check_allowed(&self, tool_name: &str) -> (res: bool)
        ensures
            res == self.allows(tool_name@),
    {
        let _ = tool_name;
        true
    }
}

/// So far the sandbox lets every tool run.
pub proof fn law_every_tool_allowed(s: Sandbox, tool_name: Seq<char>)
    ensures
        s.allows(tool_name),
{
}

} // verus!
