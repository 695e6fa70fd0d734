//! How a tool call is launched, and what it comes to.
use vstd::prelude::*;

use crate::error::{TrajectError, TrajectErrorView};
use crate::ids::{StepId, TrajectoryId};
use crate::step::{ToolCall, ToolResult, ToolResultView};
use crate::tool::sandbox::{Sandbox, SandboxPolicy};

verus! {

#[derive(Debug, Clone, Copy, PartialEq, Eq, Structural)]
pub struct ToolRuntimeConfig {
    pub default_timeout_ms: u64,
}

impl Default for ToolRuntimeConfig {
    fn default() -> (res: Self)
        ensures
            res == (ToolRuntimeConfig { default_timeout_ms: 30_000 }),
    {
        ToolRuntimeConfig { default_timeout_ms: 30_000 }
    }
}

/// A tool call that has come to its end.
#[derive(Debug)]
pub struct ToolFinishedEvent {
    pub trajectory_id: TrajectoryId,
    pub step_id: StepId,
    pub result: Result<ToolResult, TrajectError>,
}

/// The view of a tool's result.
pub open spec fn tool_res(r: Result<ToolResult, TrajectError>) -> Result<
    ToolResultView,
    TrajectErrorView,
> {
    match r {
        Ok(x) => Ok(x@),
        Err(e) => Err(e@),
    }
}

/// What to do with a call.
#[derive(Debug)]
pub enum Launch {
    /// Run it, for so long at most.
    Run { timeout_ms: u64 },
    /// Do not run it; this is the answer.
    Refuse(TrajectError),
}

/// How running a tool went.
#[derive(Debug)]
pub enum ToolEnd {
    Returned(Result<ToolResult, TrajectError>),
    TimedOut,
}

#[derive(Debug, Clone, Copy, PartialEq, Eq, Structural)]
pub struct ToolRuntime {
    pub sandbox: Sandbox,
    pub config: ToolRuntimeConfig,
}

impl ToolRuntime {
    pub fn new(config: ToolRuntimeConfig) -> (res: Self)
        ensures
            res == (ToolRuntime {
                sandbox: Sandbox {
                    policy: SandboxPolicy {
                        allow_network: false,
                        allow_fs: false,
                        max_cpu_ms: 5_000,
                    },
                },
                config,
            }),
    {
        ToolRuntime { sandbox: Sandbox::default(), config }
    }

    /// Whether and how long a call may run: within the time asked for, or
    /// within the usual one; a call that the sandbox does not allow fails.
    pub fn launch(&self, call: &ToolCall, timeout_ms: Option<u64>) -> (res: Launch)
        ensures
            match res {
                Launch::Run { timeout_ms: t } => self.sandbox.allows(call@.name) && t
                    == match timeout_ms {
                    Some(ms) => ms,
                    None => self.config.default_timeout_ms,
                },
                Launch::Refuse(e) => !self.sandbox.allows(call@.name) && e@
                    == (TrajectErrorView::ToolFailed {
                    tool: call@.name,
                    reason: "sandbox denied"@,
                }),
            },
    {
        if self.sandbox.check_allowed(call.name.as_str()) {
            let timeout_ms: u64 = match timeout_ms {
                Some(ms) => ms,
                None => self.config.default_timeout_ms,
            };
            Launch::Run { timeout_ms }
        } else {
            Launch::Refuse(
                TrajectError::ToolFailed {
                    tool: call.name.clone(),
                    reason: "sandbox denied".to_string(),
                },
            )
        }
    }

    /// The event that a call's end is reported with: the tool's own answer, or
    /// that it ran out of time.
    pub fn finished(
        trajectory_id: TrajectoryId,
        step_id: StepId,
        call: &ToolCall,
        end: ToolEnd,
    ) -> (res: ToolFinishedEvent)
        ensures
            res.trajectory_id == trajectory_id,
            res.step_id == step_id,
            tool_res(res.result) == match end {
                ToolEnd::Returned(r) => tool_res(r),
                ToolEnd::TimedOut => Err(TrajectErrorView::ToolTimeout { tool: call@.name }),
            },
    {
        let result = match end {
            ToolEnd::Returned(r) => r,
            ToolEnd::TimedOut => Err(TrajectError::ToolTimeout { tool: call.name.clone() }),
        };
        ToolFinishedEvent { trajectory_id, step_id, result }
    }
}

} // verus!
