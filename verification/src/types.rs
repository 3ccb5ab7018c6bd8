//! The coordinator's data model: node records, task records, and their
//! mathematical views.

use vstd::prelude::*;

verus! {

/// Task lifecycle states.
#[derive(Clone, Copy, Debug, PartialEq, Eq, Structural)]
pub enum TaskStatus {
    Pending,
    Assigned,
    InProgress,
    Completed,
    Failed,
    TimedOut,
}

/// Ordinal scheduling classes, `Urgent` highest.
#[derive(Clone, Copy, Debug, PartialEq, Eq, Structural)]
pub enum TaskPriority {
    Low,
    Normal,
    High,
    Urgent,
}

/// The rank the scheduler compares priorities by.
pub open spec fn prio_val(p: TaskPriority) -> int {
    match p {
        TaskPriority::Low => 1,
        TaskPriority::Normal => 2,
        TaskPriority::High => 3,
        TaskPriority::Urgent => 4,
    }
}

impl TaskPriority {
    /// The numeric rank of this priority.
    pub fn value(&self) -> (r: u8)
        ensures
            r == prio_val(*self),
    {
        match self {
            TaskPriority::Low => 1,
            TaskPriority::Normal => 2,
            TaskPriority::High => 3,
            TaskPriority::Urgent => 4,
        }
    }
}

/// One registered operator node.
pub struct NodeInfo {
    pub account_id: String,
    pub stake: u128,
    pub public_ip: String,
    pub gpu_specs: String,
    pub cpu_specs: String,
    pub api_endpoint: String,
    pub is_active: bool,
    pub last_heartbeat: u64,
    pub total_tasks_completed: u64,
    pub reputation_score: u32,
    pub slashed_amount: u128,
    pub registration_time: u64,
}

/// The mathematical image of a node record.
#[verifier::ext_equal]
pub ghost struct NodeView {
    pub account_id: Seq<char>,
    pub stake: u128,
    pub public_ip: Seq<char>,
    pub gpu_specs: Seq<char>,
    pub cpu_specs: Seq<char>,
    pub api_endpoint: Seq<char>,
    pub is_active: bool,
    pub last_heartbeat: u64,
    pub total_tasks_completed: u64,
    pub reputation_score: u32,
    pub slashed_amount: u128,
    pub registration_time: u64,
}

impl View for NodeInfo {
    type V = NodeView;

    open spec fn view(&self) -> NodeView {
        NodeView {
            account_id: self.account_id@,
            stake: self.stake,
            public_ip: self.public_ip@,
            gpu_specs: self.gpu_specs@,
            cpu_specs: self.cpu_specs@,
            api_endpoint: self.api_endpoint@,
            is_active: self.is_active,
            last_heartbeat: self.last_heartbeat,
            total_tasks_completed: self.total_tasks_completed,
            reputation_score: self.reputation_score,
            slashed_amount: self.slashed_amount,
            registration_time: self.registration_time,
        }
    }
}

impl Clone for NodeInfo {
    /// An exact copy.
    fn clone(&self) -> (res: Self)
        ensures
            res@ == self@,
    {
        NodeInfo {
            account_id: self.account_id.clone(),
            stake: self.stake,
            public_ip: self.public_ip.clone(),
            gpu_specs: self.gpu_specs.clone(),
            cpu_specs: self.cpu_specs.clone(),
            api_endpoint: self.api_endpoint.clone(),
            is_active: self.is_active,
            last_heartbeat: self.last_heartbeat,
            total_tasks_completed: self.total_tasks_completed,
            reputation_score: self.reputation_score,
            slashed_amount: self.slashed_amount,
            registration_time: self.registration_time,
        }
    }
}

/// One compute task.
pub struct Task {
    pub id: u64,
    /// Opaque JSON job description: `{model, input, task_type, ...}`.
    pub description: String,
    pub assignee: Option<String>,
    pub status: TaskStatus,
    pub output: Option<String>,
    pub proof_hash: Option<String>,
    pub created_at: u64,
    pub completed_at: Option<u64>,
    pub assigned_at: Option<u64>,
    pub timeout_at: Option<u64>,
    pub reward_amount: u128,
    pub requester: String,
    pub priority: TaskPriority,
}

/// The mathematical image of a task record.
#[verifier::ext_equal]
pub ghost struct TaskView {
    pub id: u64,
    pub description: Seq<char>,
    pub assignee: Option<Seq<char>>,
    pub status: TaskStatus,
    pub output: Option<Seq<char>>,
    pub proof_hash: Option<Seq<char>>,
    pub created_at: u64,
    pub completed_at: Option<u64>,
    pub assigned_at: Option<u64>,
    pub timeout_at: Option<u64>,
    pub reward_amount: u128,
    pub requester: Seq<char>,
    pub priority: TaskPriority,
}

/// The view of an optional string.
pub open spec fn opt_view(o: Option<String>) -> Option<Seq<char>> {
    match o {
        Some(s) => Some(s@),
        None => None,
    }
}

impl View for Task {
    type V = TaskView;

    open spec fn view(&self) -> TaskView {
        TaskView {
            id: self.id,
            description: self.description@,
            assignee: opt_view(self.assignee),
            status: self.status,
            output: opt_view(self.output),
            proof_hash: opt_view(self.proof_hash),
            created_at: self.created_at,
            completed_at: self.completed_at,
            assigned_at: self.assigned_at,
            timeout_at: self.timeout_at,
            reward_amount: self.reward_amount,
            requester: self.requester@,
            priority: self.priority,
        }
    }
}

/// An exact copy of an optional string.
pub fn clone_opt_string(o: &Option<String>) -> (res: Option<String>)
    ensures
        opt_view(res) == opt_view(*o),
{
    match o {
        Some(s) => Some(s.clone()),
        None => None,
    }
}

impl Clone for Task {
    /// An exact copy.
    fn clone(&self) -> (res: Self)
        ensures
            res@ == self@,
    {
        Task {
            id: self.id,
            description: self.description.clone(),
            assignee: clone_opt_string(&self.assignee),
            status: self.status,
            output: clone_opt_string(&self.output),
            proof_hash: clone_opt_string(&self.proof_hash),
            created_at: self.created_at,
            completed_at: self.completed_at,
            assigned_at: self.assigned_at,
            timeout_at: self.timeout_at,
            reward_amount: self.reward_amount,
            requester: self.requester.clone(),
            priority: self.priority,
        }
    }
}

} // verus!
