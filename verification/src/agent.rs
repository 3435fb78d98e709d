//! Per-query agent / governance context carried in request metadata.

use vstd::prelude::*;

use crate::strmap::StringMap;

verus! {

/// Stable identity of the calling agent.
pub const AGENT_ID: &'static str = "x-hydrofoil-agent-id";

/// The agent's own session or conversation id.
pub const AGENT_SESSION: &'static str = "x-hydrofoil-agent-session";

/// The task the agent performs this turn.
pub const AGENT_TASK: &'static str = "x-hydrofoil-agent-task";

/// Free-form purpose of the access.
pub const AGENT_PURPOSE: &'static str = "x-hydrofoil-agent-purpose";

/// Per-query agent context; every field optional.
#[derive(Debug, Default)]
pub struct AgentContext {
    pub agent_id: Option<String>,
    pub agent_session: Option<String>,
    pub task: Option<String>,
    pub purpose: Option<String>,
}

/// The carrier of a query's [`AgentContext`] among its session settings,
/// distinct from every other setting's type.
#[derive(Debug)]
pub struct AgentContextExt(pub AgentContext);

impl AgentContext {
    pub open spec fn spec_is_empty(&self) -> bool {
        self.agent_id is None && self.agent_session is None && self.task is None
            && self.purpose is None
    }

    /// Whether no field is set.
    pub fn is_empty(&self) -> (r: bool)
        ensures
            r == self.spec_is_empty(),
    {
        self.agent_id.is_none() && self.agent_session.is_none() && self.task.is_none()
            && self.purpose.is_none()
    }
}

/// The agent context of a request: each field from its metadata key; no
/// context at all when none of the keys is present.
pub fn agent_context_from_metadata(meta: &StringMap) -> (r: Option<AgentContext>)
    ensures
        match r {
            Some(c) => {
                &&& !c.spec_is_empty()
                &&& crate::text::opt_view(c.agent_id) == meta.spec_get(AGENT_ID@)
                &&& crate::text::opt_view(c.agent_session) == meta.spec_get(AGENT_SESSION@)
                &&& crate::text::opt_view(c.task) == meta.spec_get(AGENT_TASK@)
                &&& crate::text::opt_view(c.purpose) == meta.spec_get(AGENT_PURPOSE@)
            },
            None => meta.spec_get(AGENT_ID@) is None && meta.spec_get(AGENT_SESSION@) is None
                && meta.spec_get(AGENT_TASK@) is None && meta.spec_get(AGENT_PURPOSE@) is None,
        },
{
    let ctx = AgentContext {
        agent_id: meta.get(AGENT_ID),
        agent_session: meta.get(AGENT_SESSION),
        task: meta.get(AGENT_TASK),
        purpose: meta.get(AGENT_PURPOSE),
    };
    if ctx.is_empty() {
        None
    } else {
        Some(ctx)
    }
}

} // verus!
