//! Legacy shape of the plan-update tool arguments.
use vstd::prelude::*;

verus! {

#[derive(Clone, Copy, Debug, PartialEq, Eq, Structural)]
pub enum StepStatus {
    Pending,
    InProgress,
    Completed,
}

#[derive(Clone, Debug, PartialEq, Eq)]
pub struct PlanItemArg {
    pub step: String,
    pub status: StepStatus,
}

#[derive(Clone, Debug, PartialEq, Eq)]
pub struct UpdatePlanArgs {
    pub explanation: Option<String>,
    /// Legacy field name for todo items; kept for compatibility.
    pub plan: Vec<PlanItemArg>,
}

} // verus!
