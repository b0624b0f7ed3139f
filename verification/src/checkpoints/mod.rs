//! Checkpoints: snapshots of what an agent is working on.
use crate::clock::Timestamp;
use vstd::prelude::*;

pub mod storage;

verus! {

/// A single agent checkpoint, a snapshot of its state at a point in time.
#[derive(Debug, Clone)]
pub struct Checkpoint {
    /// Unique identifier for this checkpoint
    pub id: String,
    /// Agent identifier (e.g., "mmn/my-project")
    pub agent: String,
    /// Description of what the agent was working on
    pub working_on: String,
    /// Arbitrary state data (decisions, flags, file paths, etc.)
    pub state: serde_json::Value,
    /// When the checkpoint was created
    pub created_at: Timestamp,
}

/// Aggregated status of an agent based on its checkpoints.
#[derive(Debug, Clone)]
pub struct AgentStatus {
    /// Agent identifier
    pub agent: String,
    /// Current status (idle or in progress)
    pub status: AgentState,
    /// What the agent last worked on
    pub current_task: Option<String>,
    /// Total number of checkpoints for this agent
    pub checkpoint_count: usize,
    /// When the most recent checkpoint was made
    pub last_checkpoint_at: Option<Timestamp>,
}

/// Agent operational state.
#[derive(Debug, Clone, Copy, PartialEq, Eq, Structural)]
pub enum AgentState {
    /// No recent checkpoint activity
    Idle,
    /// A checkpoint within the idle threshold
    InProgress,
}

} // verus!
