//! The coordinator: a deterministic, single-writer state machine that
//! registers staked nodes, queues prioritized tasks, assigns them to live
//! nodes, mints reward tokens for accepted results, and slashes nodes that
//! miss deadlines.
//!
//! Every public operation takes the ambient facts it needs as plain values
//! (the calling account, the attached deposit in smallest token units, and
//! the wall-clock time in nanoseconds) and either applies completely or
//! returns a typed error and leaves the state untouched. The well-formedness
//! predicate [`CoordView::wf`] carries the system invariants: token
//! conservation, archive disjointness, reputation bounds, IP uniqueness,
//! queue consistency and timeout consistency; each mutating operation
//! ensures it is preserved.

use vstd::prelude::*;

use crate::errors::ErrorKind;
use crate::ledger::{contains_id, sum_balances, LedgerView, TokenLedger};
use crate::strutil::blen;
use crate::types::{prio_val, NodeInfo, NodeView, Task, TaskPriority, TaskStatus, TaskView};

verus! {

/// Default minimum stake: 1 whole token in smallest units.
pub const MIN_STAKE_YOCTO: u128 = 1_000_000_000_000_000_000_000_000;

/// Storage surcharge a task submission must cover.
pub const STORAGE_COST: u128 = 1_000_000_000_000_000_000_000;

/// The exact safety deposit sensitive calls must attach.
pub const ONE_YOCTO: u128 = 1;

/// A node is live while its last heartbeat is younger than this (ns).
pub const HEARTBEAT_TIMEOUT: u64 = 300_000_000_000;

/// Reputation ceiling.
pub const MAX_REPUTATION: u32 = 1000;

/// Reputation gained per accepted result.
pub const REPUTATION_GAIN: u32 = 10;

/// Reputation lost per timed-out task.
pub const REPUTATION_LOSS: u32 = 50;

/// Default (and largest initial) task timeout: 1 hour in ns.
pub const MAX_TASK_TIMEOUT: u64 = 3_600_000_000_000;

/// Smallest admissible task timeout: 5 minutes in ns.
pub const MIN_TIMEOUT_DURATION: u64 = 300_000_000_000;

/// Largest admissible task timeout: 24 hours in ns.
pub const MAX_TIMEOUT_DURATION: u64 = 86_400_000_000_000;

/// A transfer of native funds the host must perform after an operation.
pub struct Refund {
    pub receiver: String,
    pub amount: u128,
}

/// The coordinator state.
pub struct DeAICompute {
    pub nodes: Vec<NodeInfo>,
    pub active_tasks: Vec<Task>,
    pub completed_tasks: Vec<Task>,
    pub pending_tasks: Vec<u64>,
    pub task_counter: u64,
    pub token: TokenLedger,
    pub min_stake: u128,
    pub total_rewards_distributed: u128,
    pub owner_id: String,
    pub paused: bool,
    pub max_tasks_per_node: u32,
    pub task_timeout_duration: u64,
}

/// The mathematical image of the coordinator state.
#[verifier::ext_equal]
pub ghost struct CoordView {
    pub nodes: Seq<NodeView>,
    pub active: Seq<TaskView>,
    pub completed: Seq<TaskView>,
    pub pending: Seq<u64>,
    pub task_counter: u64,
    pub ledger: LedgerView,
    pub min_stake: u128,
    pub total_rewards_distributed: u128,
    pub owner: Seq<char>,
    pub paused: bool,
    pub max_tasks_per_node: u32,
    pub task_timeout_duration: u64,
}

impl View for DeAICompute {
    type V = CoordView;

    open spec fn view(&self) -> CoordView {
        CoordView {
            nodes: Seq::new(self.nodes@.len(), |i: int| self.nodes@[i]@),
            active: Seq::new(self.active_tasks@.len(), |i: int| self.active_tasks@[i]@),
            completed: Seq::new(self.completed_tasks@.len(), |i: int| self.completed_tasks@[i]@),
            pending: self.pending_tasks@,
            task_counter: self.task_counter,
            ledger: self.token@,
            min_stake: self.min_stake,
            total_rewards_distributed: self.total_rewards_distributed,
            owner: self.owner_id@,
            paused: self.paused,
            max_tasks_per_node: self.max_tasks_per_node,
            task_timeout_duration: self.task_timeout_duration,
        }
    }
}

/// Some node of `nodes` carries `id`.
pub open spec fn has_node(nodes: Seq<NodeView>, id: Seq<char>) -> bool {
    exists|i: int| 0 <= i < nodes.len() && #[trigger] nodes[i].account_id == id
}

/// The index of the node carrying `id` (meaningful under unique ids).
pub open spec fn node_at(nodes: Seq<NodeView>, id: Seq<char>) -> int {
    choose|i: int| 0 <= i < nodes.len() && #[trigger] nodes[i].account_id == id
}

/// The node record carrying `id`.
pub open spec fn node_of(nodes: Seq<NodeView>, id: Seq<char>) -> NodeView {
    nodes[node_at(nodes, id)]
}

/// Some node of `nodes` advertises `ip`.
pub open spec fn ip_taken(nodes: Seq<NodeView>, ip: Seq<char>) -> bool {
    exists|i: int| 0 <= i < nodes.len() && #[trigger] nodes[i].public_ip == ip
}

/// Some task of `tasks` carries `id`.
pub open spec fn has_task(tasks: Seq<TaskView>, id: u64) -> bool {
    exists|i: int| 0 <= i < tasks.len() && #[trigger] tasks[i].id == id
}

/// The index of the task carrying `id` (meaningful under unique ids).
pub open spec fn task_at(tasks: Seq<TaskView>, id: u64) -> int {
    choose|i: int| 0 <= i < tasks.len() && #[trigger] tasks[i].id == id
}

/// The task record carrying `id`.
pub open spec fn task_of(tasks: Seq<TaskView>, id: u64) -> TaskView {
    tasks[task_at(tasks, id)]
}

/// Account ids of `nodes` are pairwise distinct.
pub open spec fn unique_node_ids(nodes: Seq<NodeView>) -> bool {
    forall|i: int, j: int|
        0 <= i < j < nodes.len() ==> nodes[i].account_id != nodes[j].account_id
}

/// Public IPs of `nodes` are pairwise distinct.
pub open spec fn unique_ips(nodes: Seq<NodeView>) -> bool {
    forall|i: int, j: int| 0 <= i < j < nodes.len() ==> nodes[i].public_ip != nodes[j].public_ip
}

/// Task ids of `tasks` are pairwise distinct.
pub open spec fn unique_task_ids(tasks: Seq<TaskView>) -> bool {
    forall|i: int, j: int| 0 <= i < j < tasks.len() ==> tasks[i].id != tasks[j].id
}

/// A node is live: active, with a heartbeat younger than the liveness window.
pub open spec fn node_live(n: NodeView, now: u64) -> bool {
    n.is_active && now - n.last_heartbeat < HEARTBEAT_TIMEOUT
}

/// How many active tasks are assigned to (or in progress at) node `id`.
pub open spec fn count_active_for(tasks: Seq<TaskView>, id: Seq<char>) -> int
    decreases tasks.len(),
{
    if tasks.len() == 0 {
        0
    } else {
        count_active_for(tasks.drop_last(), id) + if tasks.last().assignee == Some(id) && (
        tasks.last().status is Assigned || tasks.last().status is InProgress) {
            1int
        } else {
            0int
        }
    }
}

/// Structural soundness of one task record for its status.
pub open spec fn task_shape_wf(t: TaskView) -> bool {
    &&& t.reward_amount > 0
    &&& match t.status {
        TaskStatus::Pending => {
            &&& t.assignee is None
            &&& t.assigned_at is None
            &&& t.timeout_at is None
            &&& t.completed_at is None
            &&& t.output is None
            &&& t.proof_hash is None
        },
        TaskStatus::Assigned | TaskStatus::InProgress => {
            &&& t.assignee is Some
            &&& t.assigned_at is Some
            &&& t.timeout_at is Some
            &&& t.assigned_at->0 < t.timeout_at->0
            &&& t.completed_at is None
        },
        TaskStatus::Completed => {
            &&& t.assignee is Some
            &&& t.completed_at is Some
            &&& t.output is Some
            &&& t.proof_hash is Some
        },
        TaskStatus::TimedOut => {
            &&& t.assignee is Some
            &&& t.completed_at is Some
        },
        TaskStatus::Failed => t.completed_at is Some,
    }
}

impl CoordView {
    /// Node-registry invariants: unique accounts and IPs, bounded
    /// reputation, slashing never exceeds the stake, completion counters
    /// bounded by the archive.
    pub open spec fn nodes_wf(self) -> bool {
        &&& unique_node_ids(self.nodes)
        &&& unique_ips(self.nodes)
        &&& forall|i: int|
            0 <= i < self.nodes.len() ==> {
                &&& (#[trigger] self.nodes[i]).reputation_score <= MAX_REPUTATION
                &&& self.nodes[i].slashed_amount <= self.nodes[i].stake
                &&& self.nodes[i].total_tasks_completed <= self.completed.len()
                &&& contains_id(self.ledger.accounts, self.nodes[i].account_id)
            }
    }

    /// Active-table invariants: unique fresh ids, sound shapes, only live
    /// statuses, and every assignee is a registered node.
    pub open spec fn active_wf(self) -> bool {
        &&& unique_task_ids(self.active)
        &&& forall|i: int|
            0 <= i < self.active.len() ==> {
                &&& (#[trigger] self.active[i]).id < self.task_counter
                &&& task_shape_wf(self.active[i])
                &&& (self.active[i].status is Pending || self.active[i].status is Assigned
                    || self.active[i].status is InProgress)
                &&& (self.active[i].assignee is Some ==> has_node(
                    self.nodes,
                    self.active[i].assignee->0,
                ))
            }
    }

    /// Archive invariants: unique fresh ids, sound shapes, only terminal
    /// statuses.
    pub open spec fn completed_wf(self) -> bool {
        &&& unique_task_ids(self.completed)
        &&& forall|i: int|
            0 <= i < self.completed.len() ==> {
                &&& (#[trigger] self.completed[i]).id < self.task_counter
                &&& task_shape_wf(self.completed[i])
                &&& (self.completed[i].status is Completed || self.completed[i].status is Failed
                    || self.completed[i].status is TimedOut)
            }
    }

    /// No task id is both active and archived.
    pub open spec fn archives_disjoint(self) -> bool {
        forall|i: int, j: int|
            0 <= i < self.active.len() && 0 <= j < self.completed.len()
                ==> (#[trigger] self.active[i]).id != (#[trigger] self.completed[j]).id
    }

    /// Queue invariants: strictly increasing ids, each entry a pending
    /// active task, and every pending active task enqueued.
    pub open spec fn pending_wf(self) -> bool {
        &&& forall|k1: int, k2: int|
            0 <= k1 < k2 < self.pending.len() ==> self.pending[k1] < self.pending[k2]
        &&& forall|k: int|
            0 <= k < self.pending.len() ==> has_task(self.active, #[trigger] self.pending[k])
                && task_of(self.active, self.pending[k]).status is Pending
        &&& forall|i: int|
            0 <= i < self.active.len() && (#[trigger] self.active[i]).status is Pending
                ==> self.pending.contains(self.active[i].id)
    }

    /// Configured parameters stay in their documented ranges.
    pub open spec fn params_wf(self) -> bool {
        &&& self.min_stake > 0
        &&& 1 <= self.max_tasks_per_node <= 100
        &&& MIN_TIMEOUT_DURATION <= self.task_timeout_duration <= MAX_TIMEOUT_DURATION
    }

    /// Token conservation: the ledger is sound and every minted token was
    /// distributed as a reward.
    pub open spec fn conservation(self) -> bool {
        &&& self.ledger.wf()
        &&& self.total_rewards_distributed == self.ledger.total_supply
    }

    /// All system invariants together.
    pub open spec fn wf(self) -> bool {
        &&& self.nodes_wf()
        &&& self.active_wf()
        &&& self.completed_wf()
        &&& self.archives_disjoint()
        &&& self.pending_wf()
        &&& self.params_wf()
        &&& self.conservation()
    }
}

/// Token conservation: in every well-formed state, the total supply equals
/// the sum of all balances and equals the total of distributed rewards.
pub proof fn lemma_token_conservation(s: CoordView)
    requires
        s.wf(),
    ensures
        s.ledger.total_supply == sum_balances(s.ledger.accounts),
        s.total_rewards_distributed == s.ledger.total_supply,
{
}

/// No double dispatch: a task in the pending queue has no assignee.
pub proof fn lemma_no_double_dispatch(s: CoordView, k: int, i: int)
    requires
        s.wf(),
        0 <= k < s.pending.len(),
        0 <= i < s.active.len(),
        s.active[i].id == s.pending[k],
    ensures
        s.active[i].assignee is None,
        s.active[i].status is Pending,
{
    let j = task_at(s.active, s.pending[k]);
    assert(0 <= j < s.active.len() && s.active[j].id == s.pending[k]);
    if i != j {
        assert(s.active[i].id != s.active[j].id);
    }
}

/// Archive disjointness: no task id is in both the active table and the
/// completed archive.
pub proof fn lemma_archive_disjointness(s: CoordView)
    requires
        s.wf(),
    ensures
        forall|i: int, j: int|
            0 <= i < s.active.len() && 0 <= j < s.completed.len()
                ==> (#[trigger] s.active[i]).id != (#[trigger] s.completed[j]).id,
{
}

/// Reputation bounds: every node's reputation lies in `[0, 1000]`.
pub proof fn lemma_reputation_bounds(s: CoordView, i: int)
    requires
        s.wf(),
        0 <= i < s.nodes.len(),
    ensures
        0 <= s.nodes[i].reputation_score <= MAX_REPUTATION,
{
}

/// IP uniqueness: no two node records share a public IP.
pub proof fn lemma_ip_uniqueness(s: CoordView, i: int, j: int)
    requires
        s.wf(),
        0 <= i < j < s.nodes.len(),
    ensures
        s.nodes[i].public_ip != s.nodes[j].public_ip,
{
}

/// Timeout consistency: every assigned or in-progress task has a deadline
/// strictly after its assignment time.
pub proof fn lemma_timeout_consistency(s: CoordView, i: int)
    requires
        s.wf(),
        0 <= i < s.active.len(),
        s.active[i].status is Assigned || s.active[i].status is InProgress,
    ensures
        s.active[i].assigned_at is Some,
        s.active[i].timeout_at is Some,
        s.active[i].assigned_at->0 < s.active[i].timeout_at->0,
{
}

/// Under unique account ids, the node found at index `i` is the node the
/// lookup functions speak of.
pub proof fn lemma_node_at(nodes: Seq<NodeView>, i: int)
    requires
        unique_node_ids(nodes),
        0 <= i < nodes.len(),
    ensures
        has_node(nodes, nodes[i].account_id),
        node_at(nodes, nodes[i].account_id) == i,
        node_of(nodes, nodes[i].account_id) == nodes[i],
{
    let id = nodes[i].account_id;
    assert(has_node(nodes, id)) by {
        assert(nodes[i].account_id == id);
    }
    let w = node_at(nodes, id);
    if w != i {
        assert(nodes[w].account_id == nodes[i].account_id);
    }
}

/// Under unique task ids, the task found at index `i` is the task the
/// lookup functions speak of.
pub proof fn lemma_task_at(tasks: Seq<TaskView>, i: int)
    requires
        unique_task_ids(tasks),
        0 <= i < tasks.len(),
    ensures
        has_task(tasks, tasks[i].id),
        task_at(tasks, tasks[i].id) == i,
        task_of(tasks, tasks[i].id) == tasks[i],
{
    let id = tasks[i].id;
    assert(has_task(tasks, id)) by {
        assert(tasks[i].id == id);
    }
    let w = task_at(tasks, id);
    if w != i {
        assert(tasks[w].id == tasks[i].id);
    }
}

impl DeAICompute {
    /// A fresh coordinator owned by `owner_id`, with the owner registered in
    /// the token ledger and all parameters at their defaults.
    pub fn new(owner_id: String) -> (r: DeAICompute)
        ensures
            r@.wf(),
            r@.nodes.len() == 0,
            r@.active.len() == 0,
            r@.completed.len() == 0,
            r@.pending.len() == 0,
            r@.task_counter == 0,
            r@.ledger.total_supply == 0,
            r@.ledger.registered(owner_id@),
            r@.min_stake == MIN_STAKE_YOCTO,
            r@.total_rewards_distributed == 0,
            r@.owner == owner_id@,
            !r@.paused,
            r@.max_tasks_per_node == 5,
            r@.task_timeout_duration == MAX_TASK_TIMEOUT,
    {
        let mut token = TokenLedger::new();
        token.register_account(owner_id.as_str());
        let r = DeAICompute {
            nodes: Vec::new(),
            active_tasks: Vec::new(),
            completed_tasks: Vec::new(),
            pending_tasks: Vec::new(),
            task_counter: 0,
            token,
            min_stake: MIN_STAKE_YOCTO,
            total_rewards_distributed: 0,
            owner_id,
            paused: false,
            max_tasks_per_node: 5,
            task_timeout_duration: MAX_TASK_TIMEOUT,
        };
        proof {
            assert(r@.nodes =~= Seq::<NodeView>::empty());
            assert(r@.active =~= Seq::<TaskView>::empty());
            assert(r@.completed =~= Seq::<TaskView>::empty());
        }
        r
    }

    /// Index of the node registered by `id`.
    fn find_node(&self, id: &str) -> (r: Option<usize>)
        ensures
            match r {
                Some(i) => 0 <= i < self@.nodes.len() && self@.nodes[i as int].account_id == id@,
                None => !has_node(self@.nodes, id@),
            },
    {
        let n = self.nodes.len();
        let mut k: usize = 0;
        while k < n
            invariant
                n == self@.nodes.len(),
                0 <= k <= n,
                forall|j: int| 0 <= j < k ==> #[trigger] self@.nodes[j].account_id != id@,
            decreases n - k,
        {
            if crate::strutil::str_eq(self.nodes[k].account_id.as_str(), id) {
                return Some(k);
            }
            k = k + 1;
        }
        None
    }

    /// Index of the active task with id `id`.
    fn find_active(&self, id: u64) -> (r: Option<usize>)
        ensures
            match r {
                Some(i) => 0 <= i < self@.active.len() && self@.active[i as int].id == id,
                None => !has_task(self@.active, id),
            },
    {
        let n = self.active_tasks.len();
        let mut k: usize = 0;
        while k < n
            invariant
                n == self@.active.len(),
                0 <= k <= n,
                forall|j: int| 0 <= j < k ==> #[trigger] self@.active[j].id != id,
            decreases n - k,
        {
            if self.active_tasks[k].id == id {
                return Some(k);
            }
            k = k + 1;
        }
        None
    }

    /// Index of the archived task with id `id`.
    fn find_completed(&self, id: u64) -> (r: Option<usize>)
        ensures
            match r {
                Some(i) => 0 <= i < self@.completed.len() && self@.completed[i as int].id == id,
                None => !has_task(self@.completed, id),
            },
    {
        let n = self.completed_tasks.len();
        let mut k: usize = 0;
        while k < n
            invariant
                n == self@.completed.len(),
                0 <= k <= n,
                forall|j: int| 0 <= j < k ==> #[trigger] self@.completed[j].id != id,
            decreases n - k,
        {
            if self.completed_tasks[k].id == id {
                return Some(k);
            }
            k = k + 1;
        }
        None
    }

    /// How many active tasks are currently assigned to node `id`.
    fn get_node_active_task_count(&self, id: &str) -> (r: usize)
        ensures
            r == count_active_for(self@.active, id@),
    {
        let n = self.active_tasks.len();
        let mut cnt: usize = 0;
        let mut k: usize = 0;
        while k < n
            invariant
                n == self@.active.len(),
                0 <= k <= n,
                cnt == count_active_for(self@.active.subrange(0, k as int), id@),
                cnt <= k,
            decreases n - k,
        {
            let t = &self.active_tasks[k];
            let counted = match (&t.assignee, t.status) {
                (Some(a), TaskStatus::Assigned) => crate::strutil::str_eq(a.as_str(), id),
                (Some(a), TaskStatus::InProgress) => crate::strutil::str_eq(a.as_str(), id),
                _ => false,
            };
            if counted {
                cnt = cnt + 1;
            }
            proof {
                assert(self@.active.subrange(0, k + 1).drop_last() =~= self@.active.subrange(
                    0,
                    k as int,
                ));
                assert(self@.active.subrange(0, k + 1).last() == self@.active[k as int]);
            }
            k = k + 1;
        }
        proof {
            assert(self@.active.subrange(0, n as int) =~= self@.active);
        }
        cnt
    }

    /// Whether node `id` has at least one assigned or in-progress task.
    fn node_has_active_task(&self, id: &str) -> (r: bool)
        ensures
            r == (count_active_for(self@.active, id@) > 0),
    {
        proof {
            lemma_count_active_nonneg(self@.active, id@);
        }
        self.get_node_active_task_count(id) > 0
    }

    /// Refreshes the caller's liveness: sets `last_heartbeat` to `now` and
    /// re-activates the node. Nothing else changes.
    pub fn heartbeat(&mut self, caller: &str, now: u64) -> (r: Result<(), ErrorKind>)
        requires
            old(self)@.wf(),
        ensures
            final(self)@.wf(),
            r is Ok <==> spec_heartbeat_err(old(self)@, caller@) is None,
            r is Err ==> Some(r->Err_0) == spec_heartbeat_err(old(self)@, caller@),
            r is Err ==> final(self)@ == old(self)@,
            r is Ok ==> final(self)@ == (CoordView {
                nodes: old(self)@.nodes.update(
                    node_at(old(self)@.nodes, caller@),
                    (NodeView { last_heartbeat: now, is_active: true, ..node_of(
                        old(self)@.nodes,
                        caller@,
                    ) }),
                ),
                ..old(self)@
            }),
    {
        if self.paused {
            return Err(ErrorKind::Paused);
        }
        let i = match self.find_node(caller) {
            Some(i) => i,
            None => {
                return Err(ErrorKind::NotFound);
            },
        };
        proof {
            lemma_node_at(self@.nodes, i as int);
        }
        let old_node = self.nodes[i].clone();
        self.nodes.set(
            i,
            NodeInfo { last_heartbeat: now, is_active: true, ..old_node },
        );
        proof {
            let nv = NodeView { last_heartbeat: now, is_active: true, ..node_of(
                old(self)@.nodes,
                caller@,
            ) };
            assert(self@.nodes =~= old(self)@.nodes.update(i as int, nv));
            assert(self@ =~= (CoordView { nodes: old(self)@.nodes.update(i as int, nv), ..old(
                self,
            )@ }));
            lemma_wf_after_node_update(old(self)@, i as int, nv);
        }
        Ok(())
    }

    /// Pauses the coordinator (owner only, exact safety deposit, not
    /// already paused).
    pub fn pause_contract(&mut self, caller: &str, deposit: u128) -> (r: Result<(), ErrorKind>)
        requires
            old(self)@.wf(),
        ensures
            final(self)@.wf(),
            r is Ok <==> caller@ == old(self)@.owner && deposit == ONE_YOCTO && !old(self)@.paused,
            r is Err ==> final(self)@ == old(self)@,
            caller@ != old(self)@.owner ==> r == Err::<(), ErrorKind>(ErrorKind::Forbidden),
            caller@ == old(self)@.owner && deposit != ONE_YOCTO ==> r == Err::<(), ErrorKind>(
                ErrorKind::InsufficientDeposit,
            ),
            caller@ == old(self)@.owner && deposit == ONE_YOCTO && old(self)@.paused ==> r == Err::<
                (),
                ErrorKind,
            >(ErrorKind::BadRequest),
            r is Ok ==> final(self)@ == (CoordView { paused: true, ..old(self)@ }),
    {
        if !crate::strutil::str_eq(caller, self.owner_id.as_str()) {
            return Err(ErrorKind::Forbidden);
        }
        if deposit != ONE_YOCTO {
            return Err(ErrorKind::InsufficientDeposit);
        }
        if self.paused {
            return Err(ErrorKind::BadRequest);
        }
        self.paused = true;
        proof {
            assert(self@ =~= (CoordView { paused: true, ..old(self)@ }));
        }
        Ok(())
    }

    /// Unpauses the coordinator (owner only, exact safety deposit, only
    /// while paused).
    pub fn unpause_contract(&mut self, caller: &str, deposit: u128) -> (r: Result<(), ErrorKind>)
        requires
            old(self)@.wf(),
        ensures
            final(self)@.wf(),
            r is Ok <==> caller@ == old(self)@.owner && deposit == ONE_YOCTO && old(self)@.paused,
            r is Err ==> final(self)@ == old(self)@,
            r is Ok ==> final(self)@ == (CoordView { paused: false, ..old(self)@ }),
    {
        if !crate::strutil::str_eq(caller, self.owner_id.as_str()) {
            return Err(ErrorKind::Forbidden);
        }
        if deposit != ONE_YOCTO {
            return Err(ErrorKind::InsufficientDeposit);
        }
        if !self.paused {
            return Err(ErrorKind::BadRequest);
        }
        self.paused = false;
        proof {
            assert(self@ =~= (CoordView { paused: false, ..old(self)@ }));
        }
        Ok(())
    }

    /// Sets the minimum stake (owner only, exact deposit, positive value).
    pub fn update_min_stake(&mut self, caller: &str, deposit: u128, new_min_stake: u128) -> (r:
        Result<(), ErrorKind>)
        requires
            old(self)@.wf(),
        ensures
            final(self)@.wf(),
            r is Ok <==> caller@ == old(self)@.owner && deposit == ONE_YOCTO && new_min_stake > 0,
            r is Err ==> final(self)@ == old(self)@,
            r is Ok ==> final(self)@ == (CoordView { min_stake: new_min_stake, ..old(self)@ }),
    {
        if !crate::strutil::str_eq(caller, self.owner_id.as_str()) {
            return Err(ErrorKind::Forbidden);
        }
        if deposit != ONE_YOCTO {
            return Err(ErrorKind::InsufficientDeposit);
        }
        if new_min_stake == 0 {
            return Err(ErrorKind::BadRequest);
        }
        self.min_stake = new_min_stake;
        proof {
            assert(self@ =~= (CoordView { min_stake: new_min_stake, ..old(self)@ }));
        }
        Ok(())
    }

    /// Sets the per-node concurrency cap (owner only, exact deposit, value
    /// in `[1, 100]`).
    pub fn update_max_tasks_per_node(&mut self, caller: &str, deposit: u128, max_tasks: u32) -> (r:
        Result<(), ErrorKind>)
        requires
            old(self)@.wf(),
        ensures
            final(self)@.wf(),
            r is Ok <==> caller@ == old(self)@.owner && deposit == ONE_YOCTO && 1 <= max_tasks
                <= 100,
            r is Err ==> final(self)@ == old(self)@,
            r is Ok ==> final(self)@ == (CoordView { max_tasks_per_node: max_tasks, ..old(self)@ }),
    {
        if !crate::strutil::str_eq(caller, self.owner_id.as_str()) {
            return Err(ErrorKind::Forbidden);
        }
        if deposit != ONE_YOCTO {
            return Err(ErrorKind::InsufficientDeposit);
        }
        if max_tasks == 0 || max_tasks > 100 {
            return Err(ErrorKind::BadRequest);
        }
        self.max_tasks_per_node = max_tasks;
        proof {
            assert(self@ =~= (CoordView { max_tasks_per_node: max_tasks, ..old(self)@ }));
        }
        Ok(())
    }

    /// Sets the task timeout (owner only, exact deposit, between 5 minutes
    /// and 24 hours).
    pub fn update_task_timeout(&mut self, caller: &str, deposit: u128, timeout_duration: u64) -> (r:
        Result<(), ErrorKind>)
        requires
            old(self)@.wf(),
        ensures
            final(self)@.wf(),
            r is Ok <==> caller@ == old(self)@.owner && deposit == ONE_YOCTO
                && MIN_TIMEOUT_DURATION <= timeout_duration <= MAX_TIMEOUT_DURATION,
            r is Err ==> final(self)@ == old(self)@,
            r is Ok ==> final(self)@ == (CoordView {
                task_timeout_duration: timeout_duration,
                ..old(self)@
            }),
    {
        if !crate::strutil::str_eq(caller, self.owner_id.as_str()) {
            return Err(ErrorKind::Forbidden);
        }
        if deposit != ONE_YOCTO {
            return Err(ErrorKind::InsufficientDeposit);
        }
        if timeout_duration < MIN_TIMEOUT_DURATION || timeout_duration > MAX_TIMEOUT_DURATION {
            return Err(ErrorKind::BadRequest);
        }
        self.task_timeout_duration = timeout_duration;
        proof {
            assert(self@ =~= (CoordView { task_timeout_duration: timeout_duration, ..old(self)@ }));
        }
        Ok(())
    }

    /// Authorizes withdrawing native funds while paused (owner only, exact
    /// deposit, bounded by the contract balance). State is unchanged; the
    /// returned amount is what the host should transfer to the owner.
    pub fn emergency_withdraw(
        &mut self,
        caller: &str,
        deposit: u128,
        contract_balance: u128,
        amount: u128,
    ) -> (r: Result<u128, ErrorKind>)
        requires
            old(self)@.wf(),
        ensures
            final(self)@.wf(),
            final(self)@ == old(self)@,
            r is Ok <==> caller@ == old(self)@.owner && deposit == ONE_YOCTO && old(self)@.paused
                && amount <= contract_balance,
            r is Ok ==> r->Ok_0 == amount,
    {
        if !crate::strutil::str_eq(caller, self.owner_id.as_str()) {
            return Err(ErrorKind::Forbidden);
        }
        if deposit != ONE_YOCTO {
            return Err(ErrorKind::InsufficientDeposit);
        }
        if !self.paused {
            return Err(ErrorKind::BadRequest);
        }
        if amount > contract_balance {
            return Err(ErrorKind::InsufficientBalance);
        }
        Ok(amount)
    }

    /// The balance of `account_id` in the reward token.
    pub fn ft_balance_of(&self, account_id: &str) -> (r: u128)
        requires
            self@.wf(),
        ensures
            r == self@.ledger.balance(account_id@),
    {
        self.token.balance_of(account_id)
    }

    /// The total minted supply of the reward token.
    pub fn ft_total_supply(&self) -> (r: u128)
        ensures
            r == self@.ledger.total_supply,
    {
        self.token.supply()
    }

    /// Transfers reward tokens from the caller (exact safety deposit
    /// required). The memo is recorded nowhere; it is accepted for
    /// interface compatibility.
    pub fn ft_transfer(
        &mut self,
        caller: &str,
        deposit: u128,
        receiver_id: &str,
        amount: u128,
        memo: Option<String>,
    ) -> (r: Result<(), ErrorKind>)
        requires
            old(self)@.wf(),
        ensures
            final(self)@.wf(),
            deposit != ONE_YOCTO ==> r == Err::<(), ErrorKind>(ErrorKind::InsufficientDeposit),
            r is Ok <==> deposit == ONE_YOCTO && caller@ != receiver_id@ && amount > 0 && old(
                self,
            )@.ledger.registered(caller@) && old(self)@.ledger.registered(receiver_id@) && old(
                self,
            )@.ledger.balance(caller@) >= amount,
            r is Err ==> final(self)@ == old(self)@,
            r is Ok ==> {
                &&& final(self)@.ledger.balance(caller@) == old(self)@.ledger.balance(caller@)
                    - amount
                &&& final(self)@.ledger.balance(receiver_id@) == old(self)@.ledger.balance(
                    receiver_id@,
                ) + amount
                &&& forall|a: Seq<char>|
                    a != caller@ && a != receiver_id@ ==> final(self)@.ledger.balance(a) == old(
                        self,
                    )@.ledger.balance(a)
                &&& final(self)@.ledger.total_supply == old(self)@.ledger.total_supply
                &&& final(self)@ == (CoordView { ledger: final(self)@.ledger, ..old(self)@ })
            },
    {
        if deposit != ONE_YOCTO {
            return Err(ErrorKind::InsufficientDeposit);
        }
        let r = self.token.transfer(caller, receiver_id, amount);
        proof {
            assert(self@ =~= (CoordView { ledger: self@.ledger, ..old(self)@ }));
            assert forall|i: int| 0 <= i < self@.nodes.len() implies contains_id(
                self@.ledger.accounts,
                (#[trigger] self@.nodes[i]).account_id,
            ) by {
                assert(contains_id(old(self)@.ledger.accounts, old(self)@.nodes[i].account_id));
                assert(self@.ledger.registered(old(self)@.nodes[i].account_id) == old(
                    self,
                )@.ledger.registered(old(self)@.nodes[i].account_id));
            }
        }
        r
    }

    /// Registers the caller as an operator node. The attached deposit is
    /// the stake and must reach the configured minimum; the public IP must
    /// be new to the registry; descriptor sizes are bounded. The caller is
    /// also registered with the token ledger.
    pub fn register_node(
        &mut self,
        caller: &str,
        deposit: u128,
        now: u64,
        public_ip: String,
        gpu_specs: String,
        cpu_specs: String,
        api_endpoint: String,
    ) -> (r: Result<(), ErrorKind>)
        requires
            old(self)@.wf(),
        ensures
            final(self)@.wf(),
            r is Ok <==> spec_register_err(
                old(self)@,
                caller@,
                deposit,
                public_ip@,
                gpu_specs@,
                cpu_specs@,
                api_endpoint@,
            ) is None,
            r is Err ==> final(self)@ == old(self)@ && Some(r->Err_0) == spec_register_err(
                old(self)@,
                caller@,
                deposit,
                public_ip@,
                gpu_specs@,
                cpu_specs@,
                api_endpoint@,
            ),
            r is Ok ==> final(self)@ == (CoordView {
                nodes: old(self)@.nodes.push(
                    spec_new_node(caller@, deposit, now, public_ip@, gpu_specs@, cpu_specs@, api_endpoint@),
                ),
                ledger: ledger_register(old(self)@.ledger, caller@),
                ..old(self)@
            }),
    {
        if self.paused {
            return Err(ErrorKind::Paused);
        }
        if deposit < self.min_stake {
            return Err(ErrorKind::InsufficientStake);
        }
        if self.find_node(caller).is_some() {
            return Err(ErrorKind::Conflict);
        }
        if public_ip.as_str().is_empty() {
            return Err(ErrorKind::BadRequest);
        }
        if api_endpoint.as_str().is_empty() {
            return Err(ErrorKind::BadRequest);
        }
        if crate::strutil::str_blen(gpu_specs.as_str()) > 500 {
            return Err(ErrorKind::BadRequest);
        }
        if crate::strutil::str_blen(cpu_specs.as_str()) > 500 {
            return Err(ErrorKind::BadRequest);
        }
        if crate::strutil::str_blen(api_endpoint.as_str()) > 200 {
            return Err(ErrorKind::BadRequest);
        }
        if self.ip_in_use(public_ip.as_str()) {
            return Err(ErrorKind::Conflict);
        }
        let ghost ip_v = public_ip@;
        let ghost gpu_v = gpu_specs@;
        let ghost cpu_v = cpu_specs@;
        let ghost ep_v = api_endpoint@;
        self.token.register_account(caller);
        let node = NodeInfo {
            account_id: caller.to_owned(),
            stake: deposit,
            public_ip,
            gpu_specs,
            cpu_specs,
            api_endpoint,
            is_active: true,
            last_heartbeat: now,
            total_tasks_completed: 0,
            reputation_score: 100,
            slashed_amount: 0,
            registration_time: now,
        };
        self.nodes.push(node);
        proof {
            let s0 = old(self)@;
            let nv = spec_new_node(caller@, deposit, now, ip_v, gpu_v, cpu_v, ep_v);
            assert(self@.nodes =~= s0.nodes.push(nv));
            assert(self@.ledger =~= ledger_register(s0.ledger, caller@));
            assert(self@ =~= (CoordView {
                nodes: s0.nodes.push(nv),
                ledger: ledger_register(s0.ledger, caller@),
                ..s0
            }));
            lemma_wf_register(s0, nv, self@.ledger);
        }
        Ok(())
    }

    /// Whether some registered node advertises `ip`.
    fn ip_in_use(&self, ip: &str) -> (r: bool)
        ensures
            r == ip_taken(self@.nodes, ip@),
    {
        let n = self.nodes.len();
        let mut k: usize = 0;
        while k < n
            invariant
                n == self@.nodes.len(),
                0 <= k <= n,
                forall|j: int| 0 <= j < k ==> #[trigger] self@.nodes[j].public_ip != ip@,
            decreases n - k,
        {
            if crate::strutil::str_eq(self.nodes[k].public_ip.as_str(), ip) {
                proof {
                    assert(self@.nodes[k as int].public_ip == ip@);
                }
                return true;
            }
            k = k + 1;
        }
        false
    }

    /// The record of node `node_id`, when registered.
    pub fn get_node_info(&self, node_id: &str) -> (r: Option<NodeInfo>)
        requires
            self@.wf(),
        ensures
            match r {
                Some(n) => has_node(self@.nodes, node_id@) && n@ == node_of(self@.nodes, node_id@),
                None => !has_node(self@.nodes, node_id@),
            },
    {
        match self.find_node(node_id) {
            Some(i) => {
                proof {
                    lemma_self_node_at(self@, i as int);
                }
                Some(self.nodes[i].clone())
            },
            None => None,
        }
    }

    /// The active (pending, assigned or in-progress) task `task_id`.
    pub fn get_active_task(&self, task_id: u64) -> (r: Option<Task>)
        requires
            self@.wf(),
        ensures
            match r {
                Some(t) => has_task(self@.active, task_id) && t@ == task_of(self@.active, task_id),
                None => !has_task(self@.active, task_id),
            },
    {
        match self.find_active(task_id) {
            Some(i) => {
                proof {
                    lemma_self_task_at(self@.active, i as int);
                }
                Some(self.active_tasks[i].clone())
            },
            None => None,
        }
    }

    /// The archived terminal record of task `task_id`.
    pub fn get_task_result(&self, task_id: u64) -> (r: Option<Task>)
        requires
            self@.wf(),
        ensures
            match r {
                Some(t) => has_task(self@.completed, task_id) && t@ == task_of(
                    self@.completed,
                    task_id,
                ),
                None => !has_task(self@.completed, task_id),
            },
    {
        match self.find_completed(task_id) {
            Some(i) => {
                proof {
                    lemma_self_task_at(self@.completed, i as int);
                }
                Some(self.completed_tasks[i].clone())
            },
            None => None,
        }
    }

    /// All active tasks assigned to node `node_id`, in table order.
    pub fn get_assigned_tasks(&self, node_id: &str) -> (r: Vec<Task>)
        ensures
            tasks_view(r@) == assigned_to(self@.active, node_id@),
    {
        let n = self.active_tasks.len();
        let mut out: Vec<Task> = Vec::new();
        let mut k: usize = 0;
        while k < n
            invariant
                n == self@.active.len(),
                0 <= k <= n,
                tasks_view(out@) == assigned_to(self@.active.subrange(0, k as int), node_id@),
            decreases n - k,
        {
            let t = &self.active_tasks[k];
            let is_mine = match &t.assignee {
                Some(a) => crate::strutil::str_eq(a.as_str(), node_id),
                None => false,
            };
            if is_mine {
                let ghost pre = out@;
                out.push(t.clone());
                proof {
                    assert(tasks_view(out@) =~= tasks_view(pre).push(self@.active[k as int]));
                }
            }
            proof {
                assert(self@.active.subrange(0, k + 1).drop_last() =~= self@.active.subrange(
                    0,
                    k as int,
                ));
                assert(self@.active.subrange(0, k + 1).last() == self@.active[k as int]);
                assert(tasks_view(out@) =~= assigned_to(
                    self@.active.subrange(0, k + 1),
                    node_id@,
                ));
            }
            k = k + 1;
        }
        proof {
            assert(self@.active.subrange(0, n as int) =~= self@.active);
        }
        out
    }

    /// All live nodes (active with a fresh heartbeat), in registry order.
    pub fn get_active_nodes(&self, now: u64) -> (r: Vec<NodeInfo>)
        ensures
            nodes_view(r@) == live_nodes(self@.nodes, now),
    {
        let n = self.nodes.len();
        let mut out: Vec<NodeInfo> = Vec::new();
        let mut k: usize = 0;
        while k < n
            invariant
                n == self@.nodes.len(),
                0 <= k <= n,
                nodes_view(out@) == live_nodes(self@.nodes.subrange(0, k as int), now),
            decreases n - k,
        {
            let nd = &self.nodes[k];
            if nd.is_active && (now <= nd.last_heartbeat || now - nd.last_heartbeat
                < HEARTBEAT_TIMEOUT) {
                let ghost pre = out@;
                out.push(nd.clone());
                proof {
                    assert(nodes_view(out@) =~= nodes_view(pre).push(self@.nodes[k as int]));
                }
            }
            proof {
                assert(self@.nodes.subrange(0, k + 1).drop_last() =~= self@.nodes.subrange(
                    0,
                    k as int,
                ));
                assert(self@.nodes.subrange(0, k + 1).last() == self@.nodes[k as int]);
                assert(nodes_view(out@) =~= live_nodes(self@.nodes.subrange(0, k + 1), now));
            }
            k = k + 1;
        }
        proof {
            assert(self@.nodes.subrange(0, n as int) =~= self@.nodes);
        }
        out
    }

    /// The queued tasks, in queue order (ascending task id).
    pub fn get_pending_tasks(&self) -> (r: Vec<Task>)
        requires
            self@.wf(),
        ensures
            r@.len() == self@.pending.len(),
            forall|k: int|
                0 <= k < r@.len() ==> (#[trigger] r@[k])@ == task_of(
                    self@.active,
                    self@.pending[k],
                ),
    {
        let n = self.pending_tasks.len();
        let mut out: Vec<Task> = Vec::new();
        let mut k: usize = 0;
        while k < n
            invariant
                self@.wf(),
                n == self@.pending.len(),
                0 <= k <= n,
                out@.len() == k,
                forall|j: int|
                    0 <= j < k ==> (#[trigger] out@[j])@ == task_of(
                        self@.active,
                        self@.pending[j],
                    ),
            decreases n - k,
        {
            let id = self.pending_tasks[k];
            match self.find_active(id) {
                Some(i) => {
                    proof {
                        lemma_self_task_at(self@.active, i as int);
                    }
                    out.push(self.active_tasks[i].clone());
                },
                None => {
                    proof {
                        assert(has_task(self@.active, self@.pending[k as int]));
                    }
                },
            }
            k = k + 1;
        }
        out
    }

    /// Summary statistics: live nodes, total nodes, active tasks, archived
    /// tasks, and the pause flag.
    pub fn get_contract_stats(&self, now: u64) -> (r: (u64, u64, u64, u64, bool))
        ensures
            r.0 == live_nodes(self@.nodes, now).len(),
            r.1 == self@.nodes.len(),
            r.2 == self@.active.len(),
            r.3 == self@.completed.len(),
            r.4 == self@.paused,
    {
        let live = self.get_active_nodes(now);
        proof {
            assert(live@.len() == nodes_view(live@).len());
        }
        (
            live.len() as u64,
            self.nodes.len() as u64,
            self.active_tasks.len() as u64,
            self.completed_tasks.len() as u64,
            self.paused,
        )
    }

    /// The scheduler's node choice: the first live, under-capacity node
    /// with the highest nonzero reputation.
    fn get_available_node(&self, now: u64) -> (r: Option<usize>)
        ensures
            match r {
                Some(i) => best_node(self@, now) == Some(i as int),
                None => best_node(self@, now) is None,
            },
    {
        let n = self.nodes.len();
        let mut best: Option<usize> = None;
        let mut k: usize = 0;
        while k < n
            invariant
                n == self@.nodes.len(),
                0 <= k <= n,
                match best {
                    Some(b) => 0 <= b < k && best_node_upto(self@, now, k as int) == Some(b as int),
                    None => best_node_upto(self@, now, k as int) is None,
                },
            decreases n - k,
        {
            let nd = &self.nodes[k];
            let live = nd.is_active && (now <= nd.last_heartbeat || now - nd.last_heartbeat
                < HEARTBEAT_TIMEOUT);
            let eligible = live && nd.reputation_score > 0 && self.get_node_active_task_count(
                nd.account_id.as_str(),
            ) < self.max_tasks_per_node as usize;
            proof {
                assert(eligible == node_eligible(self@, k as int, now));
            }
            let take = eligible && match best {
                None => true,
                Some(b) => nd.reputation_score > self.nodes[b].reputation_score,
            };
            if take {
                best = Some(k);
            }
            k = k + 1;
        }
        best
    }

    /// One greedy dispatch round: assign the highest-priority queued task
    /// (earliest-submitted among equals) to the best eligible node, if both
    /// exist.
    fn try_assign_next_task(&mut self, now: u64)
        requires
            old(self)@.wf(),
            now + old(self)@.task_timeout_duration <= u64::MAX,
        ensures
            final(self)@.wf(),
            final(self)@ == spec_assign(old(self)@, now),
    {
        proof {
            lemma_wf_assign(old(self)@, now);
        }
        let node_idx = match self.get_available_node(now) {
            Some(i) => i,
            None => {
                return ;
            },
        };
        proof {
            lemma_best_node_upto_props(self@, now, self@.nodes.len() as int);
        }
        let n = self.pending_tasks.len();
        let mut best: Option<usize> = None;
        let mut best_prio: u8 = 0;
        let mut k: usize = 0;
        while k < n
            invariant
                self@.wf(),
                self@ == old(self)@,
                n == self@.pending.len(),
                0 <= k <= n,
                match best {
                    Some(p) => 0 <= p < k && best_pending_upto(self@, k as int) == Some(p as int)
                        && best_prio == prio_val(
                        task_of(self@.active, self@.pending[p as int]).priority,
                    ),
                    None => best_pending_upto(self@, k as int) is None,
                },
            decreases n - k,
        {
            let id = self.pending_tasks[k];
            let i = match self.find_active(id) {
                Some(i) => i,
                None => {
                    proof {
                        assert(has_task(self@.active, self@.pending[k as int]));
                    }
                    // unreachable under the queue invariant
                    return ;
                },
            };
            proof {
                lemma_self_task_at(self@.active, i as int);
            }
            let cur = self.active_tasks[i].priority.value();
            match best {
                None => {
                    best = Some(k);
                    best_prio = cur;
                },
                Some(_) => {
                    if cur > best_prio {
                        best = Some(k);
                        best_prio = cur;
                    }
                },
            }
            k = k + 1;
        }
        let p = match best {
            Some(p) => p,
            None => {
                proof {
                    assert(self@ =~= spec_assign(old(self)@, now));
                }
                return ;
            },
        };
        let tid = self.pending_tasks[p];
        self.pending_tasks.remove(p);
        let ti = match self.find_active(tid) {
            Some(i) => i,
            None => {
                proof {
                    lemma_best_pending_upto_props(old(self)@, n as int);
                    assert(has_task(old(self)@.active, tid));
                    assert(false);
                }
                return ;
            },
        };
        proof {
            lemma_self_task_at(old(self)@.active, ti as int);
        }
        let assignee = self.nodes[node_idx].account_id.clone();
        let old_task = self.active_tasks[ti].clone();
        let deadline = now + self.task_timeout_duration;
        self.active_tasks.set(
            ti,
            Task {
                assignee: Some(assignee),
                status: TaskStatus::Assigned,
                assigned_at: Some(now),
                timeout_at: Some(deadline),
                ..old_task
            },
        );
        proof {
            let s0 = old(self)@;
            assert(best_node(s0, now) == Some(node_idx as int));
            assert(best_pending(s0) == Some(p as int));
            assert(tid == s0.pending[p as int]);
            assert(task_at(s0.active, tid) == ti as int);
            let t2 = TaskView {
                assignee: Some(s0.nodes[node_idx as int].account_id),
                status: TaskStatus::Assigned,
                assigned_at: Some(now),
                timeout_at: Some((now + s0.task_timeout_duration) as u64),
                ..s0.active[ti as int]
            };
            assert(self@.active =~= s0.active.update(ti as int, t2));
            assert(self@.pending =~= s0.pending.remove(p as int));
            assert(self@ =~= spec_assign(s0, now));
        }
    }

    /// Submits a task: the attached payment must cover the estimated cost
    /// plus storage, the description must be non-empty and bounded, and the
    /// cost positive. The task enters the active table and the queue with a
    /// fresh id, the requester gets a ledger account, and one dispatch
    /// round runs.
    pub fn submit_task(
        &mut self,
        caller: &str,
        deposit: u128,
        now: u64,
        description: String,
        estimated_compute_cost: u128,
        priority: Option<TaskPriority>,
    ) -> (r: Result<(), ErrorKind>)
        requires
            old(self)@.wf(),
            old(self)@.task_counter < u64::MAX,
            now + old(self)@.task_timeout_duration <= u64::MAX,
        ensures
            final(self)@.wf(),
            r is Ok <==> spec_submit_task_err(
                old(self)@,
                deposit,
                description@,
                estimated_compute_cost,
            ) is None,
            r is Err ==> final(self)@ == old(self)@ && Some(r->Err_0) == spec_submit_task_err(
                old(self)@,
                deposit,
                description@,
                estimated_compute_cost,
            ),
            r is Ok ==> final(self)@ == spec_assign(
                submit_mid(
                    old(self)@,
                    caller@,
                    now,
                    description@,
                    estimated_compute_cost,
                    spec_prio_or_normal(priority),
                ),
                now,
            ),
            // round trip: the submitted task is in the active table under the
            // fresh id with exactly the submitted fields (only scheduling
            // fields may differ)
            r is Ok ==> has_task(final(self)@.active, old(self)@.task_counter) && ({
                let t = task_of(final(self)@.active, old(self)@.task_counter);
                &&& t.id == old(self)@.task_counter
                &&& t.description == description@
                &&& t.requester == caller@
                &&& t.reward_amount == estimated_compute_cost
                &&& t.priority == spec_prio_or_normal(priority)
                &&& t.created_at == now
            }),
            r is Ok ==> final(self)@.task_counter == old(self)@.task_counter + 1,
    {
        if self.paused {
            return Err(ErrorKind::Paused);
        }
        if estimated_compute_cost > u128::MAX - STORAGE_COST || deposit < estimated_compute_cost
            + STORAGE_COST {
            return Err(ErrorKind::InsufficientDeposit);
        }
        if description.as_str().is_empty() {
            return Err(ErrorKind::BadRequest);
        }
        if crate::strutil::str_blen(description.as_str()) > 1000 {
            return Err(ErrorKind::BadRequest);
        }
        if estimated_compute_cost == 0 {
            return Err(ErrorKind::BadRequest);
        }
        let ghost desc_v = description@;
        self.token.register_account(caller);
        let prio = match priority {
            Some(p) => p,
            None => TaskPriority::Normal,
        };
        let task = Task {
            id: self.task_counter,
            description,
            assignee: None,
            status: TaskStatus::Pending,
            output: None,
            proof_hash: None,
            created_at: now,
            completed_at: None,
            assigned_at: None,
            timeout_at: None,
            reward_amount: estimated_compute_cost,
            requester: caller.to_owned(),
            priority: prio,
        };
        self.active_tasks.push(task);
        self.pending_tasks.push(self.task_counter);
        self.task_counter = self.task_counter + 1;
        proof {
            let s0 = old(self)@;
            let mid = submit_mid(
                s0,
                caller@,
                now,
                desc_v,
                estimated_compute_cost,
                spec_prio_or_normal(priority),
            );
            assert(self@.active =~= mid.active);
            assert(self@.ledger =~= mid.ledger);
            assert(self@ =~= mid);
            lemma_wf_submit_mid(
                s0,
                caller@,
                now,
                desc_v,
                estimated_compute_cost,
                spec_prio_or_normal(priority),
            );
        }
        self.try_assign_next_task(now);
        proof {
            let s0 = old(self)@;
            let mid = submit_mid(
                s0,
                caller@,
                now,
                desc_v,
                estimated_compute_cost,
                spec_prio_or_normal(priority),
            );
            lemma_assign_preserves(mid, now);
            let tid = s0.task_counter;
            assert(mid.active[s0.active.len() as int].id == tid);
            assert(has_task(mid.active, tid));
            lemma_wf_submit_mid(
                s0,
                caller@,
                now,
                desc_v,
                estimated_compute_cost,
                spec_prio_or_normal(priority),
            );
            lemma_task_at(mid.active, s0.active.len() as int);
            let i = task_at(mid.active, tid);
            assert(final(self)@.active[i].id == tid);
            assert(has_task(final(self)@.active, tid));
            lemma_wf_assign(mid, now);
            lemma_task_at(final(self)@.active, i);
        }
        Ok(())
    }

    /// Accepts the result of a task from its assignee: the task must be
    /// active, assigned to the caller, within its deadline; the proof hash
    /// and output must be non-empty and bounded. The task is archived as
    /// `Completed`, the node gains reputation and a completed-task count,
    /// the reward is minted to the caller, and one dispatch round runs.
    pub fn submit_result(
        &mut self,
        caller: &str,
        deposit: u128,
        now: u64,
        task_id: u64,
        proof_hash: String,
        output: String,
    ) -> (r: Result<(), ErrorKind>)
        requires
            old(self)@.wf(),
            now + old(self)@.task_timeout_duration <= u64::MAX,
        ensures
            final(self)@.wf(),
            r is Ok <==> spec_submit_result_err(
                old(self)@,
                caller@,
                deposit,
                now,
                task_id,
                proof_hash@,
                output@,
            ) is None,
            r is Err ==> final(self)@ == old(self)@ && Some(r->Err_0) == spec_submit_result_err(
                old(self)@,
                caller@,
                deposit,
                now,
                task_id,
                proof_hash@,
                output@,
            ),
            r is Ok ==> final(self)@ == spec_assign(
                submit_result_mid(old(self)@, caller@, now, task_id, proof_hash@, output@),
                now,
            ),
            r is Ok ==> ({
                let reward = task_of(old(self)@.active, task_id).reward_amount;
                let nd = node_of(old(self)@.nodes, caller@);
                &&& final(self)@.ledger.balance(caller@) == old(self)@.ledger.balance(caller@)
                    + reward
                &&& final(self)@.total_rewards_distributed == old(
                    self,
                )@.total_rewards_distributed + reward
                &&& node_of(final(self)@.nodes, caller@).total_tasks_completed
                    == nd.total_tasks_completed + 1
                &&& node_of(final(self)@.nodes, caller@).reputation_score == (
                if nd.reputation_score + REPUTATION_GAIN > MAX_REPUTATION {
                    MAX_REPUTATION
                } else {
                    (nd.reputation_score + REPUTATION_GAIN) as u32
                })
                &&& !has_task(final(self)@.active, task_id)
                &&& has_task(final(self)@.completed, task_id)
                &&& task_of(final(self)@.completed, task_id) == (TaskView {
                    status: TaskStatus::Completed,
                    output: Some(output@),
                    proof_hash: Some(proof_hash@),
                    completed_at: Some(now),
                    ..task_of(old(self)@.active, task_id)
                })
            }),
    {
        if deposit != ONE_YOCTO {
            return Err(ErrorKind::InsufficientDeposit);
        }
        let ti = match self.find_active(task_id) {
            Some(i) => i,
            None => {
                return Err(ErrorKind::NotFound);
            },
        };
        proof {
            lemma_self_task_at(self@.active, ti as int);
        }
        let assigned_here = match &self.active_tasks[ti].assignee {
            Some(a) => crate::strutil::str_eq(a.as_str(), caller),
            None => false,
        };
        if !assigned_here {
            return Err(ErrorKind::NotAssigned);
        }
        if !(matches!(self.active_tasks[ti].status, TaskStatus::Assigned | TaskStatus::InProgress))
        {
            return Err(ErrorKind::TaskNotActive);
        }
        if proof_hash.as_str().is_empty() {
            return Err(ErrorKind::BadRequest);
        }
        if output.as_str().is_empty() {
            return Err(ErrorKind::BadRequest);
        }
        if crate::strutil::str_blen(proof_hash.as_str()) > 64 {
            return Err(ErrorKind::BadRequest);
        }
        if crate::strutil::str_blen(output.as_str()) > 10000 {
            return Err(ErrorKind::BadRequest);
        }
        let deadline = match self.active_tasks[ti].timeout_at {
            Some(tm) => tm,
            None => {
                proof {
                    assert(false);
                }
                return Err(ErrorKind::TaskNotActive);
            },
        };
        if now > deadline {
            return Err(ErrorKind::TaskTimedOut);
        }
        let reward = self.active_tasks[ti].reward_amount;
        if reward > u128::MAX - self.token.supply() {
            return Err(ErrorKind::Internal);
        }
        let ghost ph_v = proof_hash@;
        let ghost out_v = output@;
        // archive the task as completed
        let old_task = self.active_tasks.remove(ti);
        let done = Task {
            status: TaskStatus::Completed,
            output: Some(output),
            proof_hash: Some(proof_hash),
            completed_at: Some(now),
            ..old_task
        };
        self.completed_tasks.push(done);
        let archive_len = self.completed_tasks.len();
        // update the node's counters
        let ni = match self.find_node(caller) {
            Some(i) => i,
            None => {
                proof {
                    assert(has_node(old(self)@.nodes, caller@));
                    assert(false);
                }
                return Err(ErrorKind::Internal);
            },
        };
        proof {
            lemma_self_node_at(old(self)@, ni as int);
            assert(old(self)@.nodes[ni as int].total_tasks_completed <= old(
                self,
            )@.completed.len());
            assert(self@.completed.len() == archive_len <= usize::MAX);
        }
        let nd = self.nodes[ni].clone();
        let new_rep = if nd.reputation_score > MAX_REPUTATION - REPUTATION_GAIN {
            MAX_REPUTATION
        } else {
            nd.reputation_score + REPUTATION_GAIN
        };
        let new_count = nd.total_tasks_completed + 1;
        self.nodes.set(
            ni,
            NodeInfo { total_tasks_completed: new_count, reputation_score: new_rep, ..nd },
        );
        // mint the reward
        let dep = self.token.internal_deposit(caller, reward);
        proof {
            assert(contains_id(old(self)@.ledger.accounts, caller@));
        }
        if dep.is_err() {
            proof {
                assert(false);
            }
            return Err(ErrorKind::Internal);
        }
        self.total_rewards_distributed = self.total_rewards_distributed + reward;
        proof {
            let s0 = old(self)@;
            let mid = submit_result_mid(s0, caller@, now, task_id, ph_v, out_v);
            assert(task_at(s0.active, task_id) == ti as int);
            assert(node_at(s0.nodes, caller@) == ni as int);
            crate::ledger::lemma_id_at_index(
                s0.ledger.accounts,
                choose|k: int|
                    0 <= k < s0.ledger.accounts.len() && #[trigger] s0.ledger.accounts[k].id
                        == caller@,
                caller@,
            );
            assert(self@.active =~= mid.active);
            assert(self@.completed =~= mid.completed);
            assert(self@.nodes =~= mid.nodes);
            assert(self@.ledger.accounts =~= mid.ledger.accounts);
            assert(self@.ledger =~= mid.ledger);
            assert(self@ =~= mid);
            lemma_wf_submit_result_mid(s0, caller@, now, task_id, ph_v, out_v);
        }
        self.try_assign_next_task(now);
        proof {
            let s0 = old(self)@;
            let mid = submit_result_mid(s0, caller@, now, task_id, ph_v, out_v);
            lemma_wf_submit_result_mid(s0, caller@, now, task_id, ph_v, out_v);
            lemma_assign_preserves(mid, now);
            lemma_node_update(
                s0.nodes,
                ni as int,
                mid.nodes[ni as int],
            );
            lemma_task_remove(s0.active, ti as int);
            lemma_task_at(mid.completed, s0.completed.len() as int);
            crate::ledger::lemma_id_at_index(
                s0.ledger.accounts,
                choose|k: int|
                    0 <= k < s0.ledger.accounts.len() && #[trigger] s0.ledger.accounts[k].id
                        == caller@,
                caller@,
            );
            crate::ledger::lemma_update_balance(
                s0.ledger.accounts,
                crate::ledger::acct_at(s0.ledger.accounts, caller@),
                crate::ledger::AccountEntry {
                    id: caller@,
                    balance: (crate::ledger::bal_of(s0.ledger.accounts, caller@)
                        + reward) as u128,
                },
            );
        }
        Ok(())
    }

    /// Times out an overdue task (permissionless, exact safety deposit):
    /// strictly after the deadline, the task is archived as `TimedOut`, the
    /// assignee loses reputation and a tenth of its stake, and the caller
    /// is told to refund the reward to the requester.
    pub fn timeout_task(&mut self, deposit: u128, now: u64, task_id: u64) -> (r: Result<
        Refund,
        ErrorKind,
    >)
        requires
            old(self)@.wf(),
        ensures
            final(self)@.wf(),
            r is Ok <==> spec_timeout_err(old(self)@, deposit, now, task_id) is None,
            r is Err ==> final(self)@ == old(self)@ && Some(r->Err_0) == spec_timeout_err(
                old(self)@,
                deposit,
                now,
                task_id,
            ),
            r is Ok ==> final(self)@ == spec_timeout_state(old(self)@, now, task_id),
            r is Ok ==> ({
                let t = task_of(old(self)@.active, task_id);
                let nd = node_of(old(self)@.nodes, t.assignee->0);
                &&& r->Ok_0.receiver@ == t.requester
                &&& r->Ok_0.amount == t.reward_amount
                &&& node_of(final(self)@.nodes, t.assignee->0).reputation_score == (
                if nd.reputation_score >= REPUTATION_LOSS {
                    (nd.reputation_score - REPUTATION_LOSS) as u32
                } else {
                    0
                })
                &&& node_of(final(self)@.nodes, t.assignee->0).slashed_amount == (
                if nd.slashed_amount + nd.stake / 10 > nd.stake {
                    nd.stake
                } else {
                    (nd.slashed_amount + nd.stake / 10) as u128
                })
                &&& !has_task(final(self)@.active, task_id)
                &&& has_task(final(self)@.completed, task_id)
                &&& task_of(final(self)@.completed, task_id) == (TaskView {
                    status: TaskStatus::TimedOut,
                    completed_at: Some(now),
                    ..t
                })
            }),
    {
        if deposit != ONE_YOCTO {
            return Err(ErrorKind::InsufficientDeposit);
        }
        let ti = match self.find_active(task_id) {
            Some(i) => i,
            None => {
                return Err(ErrorKind::NotFound);
            },
        };
        proof {
            lemma_self_task_at(self@.active, ti as int);
        }
        if !(matches!(self.active_tasks[ti].status, TaskStatus::Assigned | TaskStatus::InProgress))
        {
            return Err(ErrorKind::TaskNotActive);
        }
        let deadline = match self.active_tasks[ti].timeout_at {
            Some(tm) => tm,
            None => {
                proof {
                    assert(false);
                }
                return Err(ErrorKind::TaskNotActive);
            },
        };
        if now <= deadline {
            return Err(ErrorKind::BadRequest);
        }
        let old_task = self.active_tasks.remove(ti);
        let assignee = match &old_task.assignee {
            Some(a) => a.clone(),
            None => {
                proof {
                    assert(false);
                }
                return Err(ErrorKind::Internal);
            },
        };
        let refund = Refund {
            receiver: old_task.requester.clone(),
            amount: old_task.reward_amount,
        };
        let done = Task { status: TaskStatus::TimedOut, completed_at: Some(now), ..old_task };
        self.completed_tasks.push(done);
        let ni = match self.find_node(assignee.as_str()) {
            Some(i) => i,
            None => {
                proof {
                    assert(has_node(old(self)@.nodes, old(self)@.active[ti as int].assignee->0));
                    assert(false);
                }
                return Err(ErrorKind::Internal);
            },
        };
        proof {
            lemma_self_node_at(old(self)@, ni as int);
        }
        let nd = self.nodes[ni].clone();
        let new_rep = if nd.reputation_score >= REPUTATION_LOSS {
            nd.reputation_score - REPUTATION_LOSS
        } else {
            0
        };
        let slash = nd.stake / 10;
        let new_slashed = if nd.slashed_amount > nd.stake - slash {
            nd.stake
        } else {
            nd.slashed_amount + slash
        };
        self.nodes.set(
            ni,
            NodeInfo { reputation_score: new_rep, slashed_amount: new_slashed, ..nd },
        );
        proof {
            let s0 = old(self)@;
            let fin = spec_timeout_state(s0, now, task_id);
            assert(task_at(s0.active, task_id) == ti as int);
            assert(node_at(s0.nodes, s0.active[ti as int].assignee->0) == ni as int);
            assert(self@.active =~= fin.active);
            assert(self@.completed =~= fin.completed);
            assert(self@.nodes =~= fin.nodes);
            assert(self@ =~= fin);
            lemma_wf_timeout_state(s0, now, task_id);
            lemma_node_update(s0.nodes, ni as int, fin.nodes[ni as int]);
            lemma_task_remove(s0.active, ti as int);
            lemma_task_at(fin.completed, s0.completed.len() as int);
        }
        Ok(refund)
    }

    /// Deactivates the caller's node (exact safety deposit, no assigned or
    /// in-progress tasks). The record stays but is marked inactive; the
    /// returned amount — the stake minus what was slashed — is what the
    /// host should transfer back to the node.
    pub fn deactivate_node(&mut self, caller: &str, deposit: u128) -> (r: Result<u128, ErrorKind>)
        requires
            old(self)@.wf(),
        ensures
            final(self)@.wf(),
            r is Ok <==> spec_deactivate_err(old(self)@, caller@, deposit) is None,
            r is Err ==> final(self)@ == old(self)@ && Some(r->Err_0) == spec_deactivate_err(
                old(self)@,
                caller@,
                deposit,
            ),
            r is Ok ==> ({
                let nd = node_of(old(self)@.nodes, caller@);
                &&& r->Ok_0 == nd.stake - nd.slashed_amount
                &&& final(self)@ == (CoordView {
                    nodes: old(self)@.nodes.update(
                        node_at(old(self)@.nodes, caller@),
                        (NodeView { is_active: false, ..nd }),
                    ),
                    ..old(self)@
                })
            }),
    {
        if deposit != ONE_YOCTO {
            return Err(ErrorKind::InsufficientDeposit);
        }
        let ni = match self.find_node(caller) {
            Some(i) => i,
            None => {
                return Err(ErrorKind::NotFound);
            },
        };
        proof {
            lemma_self_node_at(self@, ni as int);
        }
        if !self.nodes[ni].is_active {
            return Err(ErrorKind::BadRequest);
        }
        if self.node_has_active_task(caller) {
            proof {
                lemma_count_active_nonneg(self@.active, caller@);
            }
            return Err(ErrorKind::Conflict);
        }
        let nd = self.nodes[ni].clone();
        let refund = nd.stake - nd.slashed_amount;
        self.nodes.set(ni, NodeInfo { is_active: false, ..nd });
        proof {
            let s0 = old(self)@;
            let nv = NodeView { is_active: false, ..node_of(s0.nodes, caller@) };
            assert(self@.nodes =~= s0.nodes.update(ni as int, nv));
            assert(self@ =~= (CoordView { nodes: s0.nodes.update(ni as int, nv), ..s0 }));
            lemma_wf_after_node_update(s0, ni as int, nv);
        }
        Ok(refund)
    }

    /// The number of tasks ever submitted.
    pub fn get_task_count(&self) -> (r: u64)
        ensures
            r == self@.task_counter,
    {
        self.task_counter
    }

    /// The total of all rewards minted so far.
    pub fn get_total_rewards_distributed(&self) -> (r: u128)
        ensures
            r == self@.total_rewards_distributed,
    {
        self.total_rewards_distributed
    }
}

/// The active-assignment count is never negative.
pub proof fn lemma_count_active_nonneg(tasks: Seq<TaskView>, id: Seq<char>)
    ensures
        count_active_for(tasks, id) >= 0,
    decreases tasks.len(),
{
    if tasks.len() > 0 {
        lemma_count_active_nonneg(tasks.drop_last(), id);
    }
}

/// Updating one node in place, keeping its identity, its IP, a bounded
/// reputation, bounded slashing and a bounded completion counter, preserves
/// every invariant.
pub proof fn lemma_wf_after_node_update(s0: CoordView, i: int, nv: NodeView)
    requires
        s0.wf(),
        0 <= i < s0.nodes.len(),
        nv.account_id == s0.nodes[i].account_id,
        nv.public_ip == s0.nodes[i].public_ip,
        nv.reputation_score <= MAX_REPUTATION,
        nv.slashed_amount <= nv.stake,
        nv.total_tasks_completed <= s0.completed.len(),
    ensures
        (CoordView { nodes: s0.nodes.update(i, nv), ..s0 }).wf(),
{
    let s1 = CoordView { nodes: s0.nodes.update(i, nv), ..s0 };
    assert forall|a: int|
        0 <= a < s1.active.len() && (#[trigger] s1.active[a]).assignee is Some implies has_node(
        s1.nodes,
        s1.active[a].assignee->0,
    ) by {
        let w = choose|w: int|
            0 <= w < s0.nodes.len() && #[trigger] s0.nodes[w].account_id == s0.active[a].assignee
                ->0;
        assert(s1.nodes[w].account_id == s0.active[a].assignee->0);
    }
}

/// The views of a vector of tasks.
pub open spec fn tasks_view(v: Seq<Task>) -> Seq<TaskView> {
    Seq::new(v.len(), |i: int| v[i]@)
}

/// The views of a vector of nodes.
pub open spec fn nodes_view(v: Seq<NodeInfo>) -> Seq<NodeView> {
    Seq::new(v.len(), |i: int| v[i]@)
}

/// The subsequence of `tasks` assigned to node `id`, in order.
pub open spec fn assigned_to(tasks: Seq<TaskView>, id: Seq<char>) -> Seq<TaskView>
    decreases tasks.len(),
{
    if tasks.len() == 0 {
        Seq::empty()
    } else if tasks.last().assignee == Some(id) {
        assigned_to(tasks.drop_last(), id).push(tasks.last())
    } else {
        assigned_to(tasks.drop_last(), id)
    }
}

/// The subsequence of live nodes, in order.
pub open spec fn live_nodes(nodes: Seq<NodeView>, now: u64) -> Seq<NodeView>
    decreases nodes.len(),
{
    if nodes.len() == 0 {
        Seq::empty()
    } else if node_live(nodes.last(), now) {
        live_nodes(nodes.drop_last(), now).push(nodes.last())
    } else {
        live_nodes(nodes.drop_last(), now)
    }
}

/// The record a freshly registered node starts with.
pub open spec fn spec_new_node(
    caller: Seq<char>,
    stake: u128,
    now: u64,
    public_ip: Seq<char>,
    gpu_specs: Seq<char>,
    cpu_specs: Seq<char>,
    api_endpoint: Seq<char>,
) -> NodeView {
    NodeView {
        account_id: caller,
        stake: stake,
        public_ip: public_ip,
        gpu_specs: gpu_specs,
        cpu_specs: cpu_specs,
        api_endpoint: api_endpoint,
        is_active: true,
        last_heartbeat: now,
        total_tasks_completed: 0,
        reputation_score: 100,
        slashed_amount: 0,
        registration_time: now,
    }
}

/// The ledger after idempotently registering `id` with a zero balance.
pub open spec fn ledger_register(lv: LedgerView, id: Seq<char>) -> LedgerView {
    if contains_id(lv.accounts, id) {
        lv
    } else {
        LedgerView {
            accounts: lv.accounts.push(crate::ledger::AccountEntry { id: id, balance: 0 }),
            ..lv
        }
    }
}

/// Why `register_node` refuses, or `None` when it succeeds. The checks run
/// in this order: pause flag, stake, prior registration, non-empty IP and
/// endpoint, descriptor sizes, IP uniqueness.
pub open spec fn spec_register_err(
    s: CoordView,
    caller: Seq<char>,
    deposit: u128,
    public_ip: Seq<char>,
    gpu_specs: Seq<char>,
    cpu_specs: Seq<char>,
    api_endpoint: Seq<char>,
) -> Option<ErrorKind> {
    if s.paused {
        Some(ErrorKind::Paused)
    } else if deposit < s.min_stake {
        Some(ErrorKind::InsufficientStake)
    } else if has_node(s.nodes, caller) {
        Some(ErrorKind::Conflict)
    } else if public_ip.len() == 0 {
        Some(ErrorKind::BadRequest)
    } else if api_endpoint.len() == 0 {
        Some(ErrorKind::BadRequest)
    } else if blen(gpu_specs) > 500 {
        Some(ErrorKind::BadRequest)
    } else if blen(cpu_specs) > 500 {
        Some(ErrorKind::BadRequest)
    } else if blen(api_endpoint) > 200 {
        Some(ErrorKind::BadRequest)
    } else if ip_taken(s.nodes, public_ip) {
        Some(ErrorKind::Conflict)
    } else {
        None
    }
}

/// Registering a fresh node (new account id, new IP, base reputation, no
/// slashing) together with its zero-balance ledger account preserves every
/// invariant.
pub proof fn lemma_wf_register(s0: CoordView, nv: NodeView, lv: LedgerView)
    requires
        s0.wf(),
        !has_node(s0.nodes, nv.account_id),
        !ip_taken(s0.nodes, nv.public_ip),
        nv.reputation_score <= MAX_REPUTATION,
        nv.slashed_amount <= nv.stake,
        nv.total_tasks_completed <= s0.completed.len(),
        lv == ledger_register(s0.ledger, nv.account_id),
    ensures
        (CoordView { nodes: s0.nodes.push(nv), ledger: lv, ..s0 }).wf(),
{
    let s1 = CoordView { nodes: s0.nodes.push(nv), ledger: lv, ..s0 };
    let n = s0.nodes.len() as int;
    assert(forall|j: int| 0 <= j < n ==> s1.nodes[j] == s0.nodes[j]);
    assert(unique_node_ids(s1.nodes)) by {
        assert forall|i: int, j: int| 0 <= i < j < s1.nodes.len() implies s1.nodes[i].account_id
            != s1.nodes[j].account_id by {
            if j == n {
                if s1.nodes[i].account_id == nv.account_id {
                    assert(s0.nodes[i].account_id == nv.account_id);
                }
            }
        }
    }
    assert(unique_ips(s1.nodes)) by {
        assert forall|i: int, j: int| 0 <= i < j < s1.nodes.len() implies s1.nodes[i].public_ip
            != s1.nodes[j].public_ip by {
            if j == n {
                if s1.nodes[i].public_ip == nv.public_ip {
                    assert(s0.nodes[i].public_ip == nv.public_ip);
                }
            }
        }
    }
    assert forall|a: int|
        0 <= a < s1.active.len() && (#[trigger] s1.active[a]).assignee is Some implies has_node(
        s1.nodes,
        s1.active[a].assignee->0,
    ) by {
        let w = choose|w: int|
            0 <= w < s0.nodes.len() && #[trigger] s0.nodes[w].account_id == s0.active[a].assignee
                ->0;
        assert(s1.nodes[w].account_id == s1.active[a].assignee->0);
    }
    if !contains_id(s0.ledger.accounts, nv.account_id) {
        crate::ledger::lemma_sum_push(
            s0.ledger.accounts,
            crate::ledger::AccountEntry { id: nv.account_id, balance: 0 },
        );
        assert(crate::ledger::unique_ids(lv.accounts)) by {
            assert forall|i: int, j: int| 0 <= i < j < lv.accounts.len() implies lv.accounts[i].id
                != lv.accounts[j].id by {
                if j == s0.ledger.accounts.len() {
                    if lv.accounts[i].id == nv.account_id {
                        assert(s0.ledger.accounts[i].id == nv.account_id);
                    }
                }
            }
        }
    }
    lemma_ledger_register_contains(s0.ledger, nv.account_id);
    assert forall|i: int| 0 <= i < s1.nodes.len() implies contains_id(
        s1.ledger.accounts,
        (#[trigger] s1.nodes[i]).account_id,
    ) by {
        if i < n {
            assert(contains_id(s0.ledger.accounts, s0.nodes[i].account_id));
        }
    }
}

/// Under a well-formed registry, index lookups and `node_of` agree.
pub proof fn lemma_self_node_at(s: CoordView, i: int)
    requires
        unique_node_ids(s.nodes),
        0 <= i < s.nodes.len(),
    ensures
        node_of(s.nodes, s.nodes[i].account_id) == s.nodes[i],
        node_at(s.nodes, s.nodes[i].account_id) == i,
        has_node(s.nodes, s.nodes[i].account_id),
{
    lemma_node_at(s.nodes, i);
}

/// Under unique task ids, index lookups and `task_of` agree.
pub proof fn lemma_self_task_at(tasks: Seq<TaskView>, i: int)
    requires
        unique_task_ids(tasks),
        0 <= i < tasks.len(),
    ensures
        task_of(tasks, tasks[i].id) == tasks[i],
        task_at(tasks, tasks[i].id) == i,
        has_task(tasks, tasks[i].id),
{
    lemma_task_at(tasks, i);
}

/// A node may take another task: it is live, has nonzero reputation, and is
/// below the per-node concurrency cap.
pub open spec fn node_eligible(s: CoordView, i: int, now: u64) -> bool {
    &&& 0 <= i < s.nodes.len()
    &&& node_live(s.nodes[i], now)
    &&& s.nodes[i].reputation_score > 0
    &&& count_active_for(s.active, s.nodes[i].account_id) < s.max_tasks_per_node
}

/// The scheduler's node choice among the first `n` registry entries: a
/// forward scan that replaces its candidate only on strictly higher
/// reputation, so among equals the earliest-registered node wins.
pub open spec fn best_node_upto(s: CoordView, now: u64, n: int) -> Option<int>
    decreases n,
{
    if n <= 0 {
        None
    } else {
        let prev = best_node_upto(s, now, n - 1);
        if node_eligible(s, n - 1, now) && (prev is None || s.nodes[n
            - 1].reputation_score > s.nodes[prev->0].reputation_score) {
            Some(n - 1)
        } else {
            prev
        }
    }
}

/// The scheduler's node choice over the whole registry.
pub open spec fn best_node(s: CoordView, now: u64) -> Option<int> {
    best_node_upto(s, now, s.nodes.len() as int)
}

/// The scheduler's task choice among the first `n` queue positions: a
/// forward scan that replaces its candidate only on strictly higher
/// priority, so among equals the earliest-queued (lowest-id) task wins.
pub open spec fn best_pending_upto(s: CoordView, n: int) -> Option<int>
    decreases n,
{
    if n <= 0 {
        None
    } else {
        let prev = best_pending_upto(s, n - 1);
        let cur = prio_val(task_of(s.active, s.pending[n - 1]).priority);
        match prev {
            None => Some(n - 1),
            Some(p) => if cur > prio_val(task_of(s.active, s.pending[p]).priority) {
                Some(n - 1)
            } else {
                prev
            },
        }
    }
}

/// The scheduler's task choice over the whole queue.
pub open spec fn best_pending(s: CoordView) -> Option<int> {
    best_pending_upto(s, s.pending.len() as int)
}

/// One greedy dispatch round: when an eligible node and a queued task
/// exist, the chosen task leaves the queue and becomes `Assigned` to the
/// chosen node with its deadline set; otherwise nothing changes.
pub open spec fn spec_assign(s: CoordView, now: u64) -> CoordView {
    let bn = best_node(s, now);
    let bp = best_pending(s);
    if bn is Some && bp is Some {
        let ni = bn->0;
        let pi = bp->0;
        let tid = s.pending[pi];
        let ti = task_at(s.active, tid);
        let t2 = TaskView {
            assignee: Some(s.nodes[ni].account_id),
            status: TaskStatus::Assigned,
            assigned_at: Some(now),
            timeout_at: Some((now + s.task_timeout_duration) as u64),
            ..s.active[ti]
        };
        CoordView { active: s.active.update(ti, t2), pending: s.pending.remove(pi), ..s }
    } else {
        s
    }
}

/// What the node scan has established after `n` entries: the candidate is
/// eligible, no scanned node beats it, and earlier nodes are strictly worse.
pub proof fn lemma_best_node_upto_props(s: CoordView, now: u64, n: int)
    requires
        0 <= n <= s.nodes.len(),
    ensures
        match best_node_upto(s, now, n) {
            Some(i) => {
                &&& 0 <= i < n
                &&& node_eligible(s, i, now)
                &&& forall|j: int|
                    0 <= j < n && node_eligible(s, j, now)
                        ==> s.nodes[j].reputation_score <= s.nodes[i].reputation_score
                &&& forall|j: int|
                    0 <= j < i && node_eligible(s, j, now)
                        ==> s.nodes[j].reputation_score < s.nodes[i].reputation_score
            },
            None => forall|j: int| 0 <= j < n ==> !node_eligible(s, j, now),
        },
    decreases n,
{
    if n > 0 {
        lemma_best_node_upto_props(s, now, n - 1);
    }
}

/// What the queue scan has established after `n` positions: the candidate
/// is in range, no scanned task outranks it, and earlier tasks rank
/// strictly lower.
pub proof fn lemma_best_pending_upto_props(s: CoordView, n: int)
    requires
        0 <= n <= s.pending.len(),
    ensures
        match best_pending_upto(s, n) {
            Some(p) => {
                &&& 0 <= p < n
                &&& forall|k: int|
                    0 <= k < n ==> prio_val(task_of(s.active, #[trigger] s.pending[k]).priority)
                        <= prio_val(task_of(s.active, s.pending[p]).priority)
                &&& forall|k: int|
                    0 <= k < p ==> prio_val(task_of(s.active, #[trigger] s.pending[k]).priority)
                        < prio_val(task_of(s.active, s.pending[p]).priority)
            },
            None => n == 0,
        },
    decreases n,
{
    if n > 0 {
        lemma_best_pending_upto_props(s, n - 1);
    }
}

/// The scheduler prefers priority, and breaks ties towards the task that
/// was submitted first: no queued task outranks the chosen one, and a
/// queued task of equal priority has a task id at least as large.
pub proof fn lemma_scheduler_picks_best_task(s: CoordView, now: u64, k: int)
    requires
        s.wf(),
        best_pending(s) is Some,
        0 <= k < s.pending.len(),
    ensures
        prio_val(task_of(s.active, s.pending[k]).priority) <= prio_val(
            task_of(s.active, s.pending[best_pending(s)->0]).priority,
        ),
        prio_val(task_of(s.active, s.pending[k]).priority) == prio_val(
            task_of(s.active, s.pending[best_pending(s)->0]).priority,
        ) ==> s.pending[best_pending(s)->0] <= s.pending[k],
{
    lemma_best_pending_upto_props(s, s.pending.len() as int);
    let p = best_pending(s)->0;
    if k < p {
    } else if k > p {
        assert(s.pending[p] < s.pending[k]);
    }
}

/// The scheduler prefers reputation, and breaks ties towards the node that
/// registered first: the chosen node is eligible, no eligible node has
/// higher reputation, and an eligible node of equal reputation does not
/// precede it in the registry.
pub proof fn lemma_scheduler_picks_best_node(s: CoordView, now: u64, j: int)
    requires
        best_node(s, now) is Some,
        0 <= j < s.nodes.len(),
        node_eligible(s, j, now),
    ensures
        node_eligible(s, best_node(s, now)->0, now),
        s.nodes[j].reputation_score <= s.nodes[best_node(s, now)->0].reputation_score,
        s.nodes[j].reputation_score == s.nodes[best_node(s, now)->0].reputation_score ==> best_node(
            s,
            now,
        )->0 <= j,
{
    lemma_best_node_upto_props(s, now, s.nodes.len() as int);
}

/// Replacing the task at `i` by one with the same id keeps ids unique and
/// leaves every other lookup unchanged.
pub proof fn lemma_task_update(tasks: Seq<TaskView>, i: int, t2: TaskView)
    requires
        unique_task_ids(tasks),
        0 <= i < tasks.len(),
        t2.id == tasks[i].id,
    ensures
        unique_task_ids(tasks.update(i, t2)),
        forall|id: u64| has_task(tasks.update(i, t2), id) == has_task(tasks, id),
        task_of(tasks.update(i, t2), t2.id) == t2,
        task_at(tasks.update(i, t2), t2.id) == i,
        forall|id: u64|
            id != t2.id && has_task(tasks, id) ==> #[trigger] task_of(tasks.update(i, t2), id)
                == task_of(tasks, id) && task_at(tasks.update(i, t2), id) == task_at(tasks, id),
{
    let t = tasks.update(i, t2);
    assert forall|id: u64| has_task(t, id) == has_task(tasks, id) by {
        if has_task(t, id) {
            let k = choose|k: int| 0 <= k < t.len() && #[trigger] t[k].id == id;
            if k == i {
                assert(tasks[i].id == id);
            } else {
                assert(tasks[k].id == id);
            }
        }
        if has_task(tasks, id) {
            let k = choose|k: int| 0 <= k < tasks.len() && #[trigger] tasks[k].id == id;
            if k == i {
                assert(t[i].id == id);
            } else {
                assert(t[k].id == id);
            }
        }
    }
    lemma_task_at(t, i);
    assert forall|id: u64| id != t2.id && has_task(tasks, id) implies #[trigger] task_of(
        t,
        id,
    ) == task_of(tasks, id) && task_at(t, id) == task_at(tasks, id) by {
        let k = choose|k: int| 0 <= k < tasks.len() && #[trigger] tasks[k].id == id;
        assert(k != i);
        assert(t[k].id == id);
        lemma_task_at(tasks, k);
        lemma_task_at(t, k);
    }
}

/// One dispatch round preserves every invariant.
#[verifier::spinoff_prover]
#[verifier::rlimit(100)]
pub proof fn lemma_wf_assign(s: CoordView, now: u64)
    requires
        s.wf(),
        now + s.task_timeout_duration <= u64::MAX,
    ensures
        spec_assign(s, now).wf(),
{
    let bn = best_node(s, now);
    let bp = best_pending(s);
    if bn is Some && bp is Some {
        let ni = bn->0;
        let pi = bp->0;
        let tid = s.pending[pi];
        let ti = task_at(s.active, tid);
        lemma_best_node_upto_props(s, now, s.nodes.len() as int);
        lemma_best_pending_upto_props(s, s.pending.len() as int);
        assert(has_task(s.active, tid) && task_of(s.active, tid).status is Pending);
        assert(0 <= ti < s.active.len() && s.active[ti].id == tid);
        let t = s.active[ti];
        let t2 = TaskView {
            assignee: Some(s.nodes[ni].account_id),
            status: TaskStatus::Assigned,
            assigned_at: Some(now),
            timeout_at: Some((now + s.task_timeout_duration) as u64),
            ..t
        };
        let s1 = spec_assign(s, now);
        assert(s1.active == s.active.update(ti, t2));
        assert(s1.pending == s.pending.remove(pi));
        lemma_task_update(s.active, ti, t2);
        // the new record is a sound Assigned task
        assert(task_shape_wf(t2)) by {
            assert(MIN_TIMEOUT_DURATION <= s.task_timeout_duration);
        }
        // its assignee is a registered node
        assert(has_node(s1.nodes, t2.assignee->0)) by {
            assert(s.nodes[ni].account_id == t2.assignee->0);
        }
        assert(s1.active_wf()) by {
            assert(forall|i: int|
                0 <= i < s1.active.len() && i != ti ==> s1.active[i] == s.active[i]);
        }
        // queue invariants survive removal of position `pi`
        assert(s1.pending_wf()) by {
            assert(forall|k: int| 0 <= k < pi ==> s1.pending[k] == s.pending[k]);
            assert(forall|k: int|
                pi <= k < s1.pending.len() ==> s1.pending[k] == s.pending[k + 1]);
            // entries other than position pi name tasks other than tid
            assert forall|k: int| 0 <= k < s1.pending.len() implies has_task(
                s1.active,
                #[trigger] s1.pending[k],
            ) && task_of(s1.active, s1.pending[k]).status is Pending by {
                let k0 = if k < pi {
                    k
                } else {
                    k + 1
                };
                assert(s.pending[k0] == s1.pending[k]);
                assert(s.pending[k0] != tid) by {
                    if k0 < pi {
                        assert(s.pending[k0] < s.pending[pi]);
                    } else {
                        assert(s.pending[pi] < s.pending[k0]);
                    }
                }
            }
            assert forall|i: int|
                0 <= i < s1.active.len() && (#[trigger] s1.active[i]).status is Pending implies s1
                .pending.contains(s1.active[i].id) by {
                assert(i != ti);
                assert(s.active[i].status is Pending);
                assert(s.pending.contains(s.active[i].id));
                let k0 = choose|k0: int|
                    0 <= k0 < s.pending.len() && s.pending[k0] == s.active[i].id;
                assert(k0 != pi) by {
                    if k0 == pi {
                        assert(s.active[i].id == tid);
                        assert(i == task_at(s.active, tid)) by {
                            lemma_task_at(s.active, i);
                        }
                    }
                }
                let k1 = if k0 < pi {
                    k0
                } else {
                    k0 - 1
                };
                assert(s1.pending[k1] == s.active[i].id);
                assert(s1.pending.contains(s1.active[i].id));
            }
        }
        assert(s1.nodes_wf());
        assert(s1.completed_wf());
        assert(s1.archives_disjoint()) by {
            assert(forall|i: int| 0 <= i < s1.active.len() ==> s1.active[i].id == s.active[i].id);
        }
    }
}

/// Dispatch changes no field of any task except the scheduling fields of
/// the task it assigns, and touches nothing outside the active table and
/// the queue.
pub proof fn lemma_assign_preserves(s: CoordView, now: u64)
    requires
        s.wf(),
    ensures
        ({
            let s1 = spec_assign(s, now);
            &&& s1.active.len() == s.active.len()
            &&& forall|i: int|
                0 <= i < s.active.len() ==> {
                    &&& (#[trigger] s1.active[i]).id == s.active[i].id
                    &&& s1.active[i].description == s.active[i].description
                    &&& s1.active[i].requester == s.active[i].requester
                    &&& s1.active[i].reward_amount == s.active[i].reward_amount
                    &&& s1.active[i].priority == s.active[i].priority
                    &&& s1.active[i].created_at == s.active[i].created_at
                }
            &&& s1.completed == s.completed
            &&& s1.nodes == s.nodes
            &&& s1.ledger == s.ledger
            &&& s1.task_counter == s.task_counter
            &&& s1.total_rewards_distributed == s.total_rewards_distributed
            &&& s1.owner == s.owner
            &&& s1.paused == s.paused
            &&& s1.min_stake == s.min_stake
            &&& s1.max_tasks_per_node == s.max_tasks_per_node
            &&& s1.task_timeout_duration == s.task_timeout_duration
        }),
{
    let bn = best_node(s, now);
    let bp = best_pending(s);
    if bn is Some && bp is Some {
        let pi = bp->0;
        lemma_best_pending_upto_props(s, s.pending.len() as int);
        let tid = s.pending[pi];
        assert(has_task(s.active, tid));
        let ti = task_at(s.active, tid);
        assert(0 <= ti < s.active.len());
    }
}

/// The submitted priority, `Normal` when none was given.
pub open spec fn spec_prio_or_normal(p: Option<TaskPriority>) -> TaskPriority {
    match p {
        Some(q) => q,
        None => TaskPriority::Normal,
    }
}

/// Why `submit_task` refuses, or `None` when it succeeds. The checks run
/// in this order: pause flag, payment, non-empty description, description
/// size, positive cost.
pub open spec fn spec_submit_task_err(
    s: CoordView,
    deposit: u128,
    description: Seq<char>,
    cost: u128,
) -> Option<ErrorKind> {
    if s.paused {
        Some(ErrorKind::Paused)
    } else if deposit < cost + STORAGE_COST {
        Some(ErrorKind::InsufficientDeposit)
    } else if description.len() == 0 {
        Some(ErrorKind::BadRequest)
    } else if blen(description) > 1000 {
        Some(ErrorKind::BadRequest)
    } else if cost == 0 {
        Some(ErrorKind::BadRequest)
    } else {
        None
    }
}

/// The state right after a task is accepted, before the dispatch round:
/// the fresh `Pending` task is in the table and at the back of the queue,
/// the counter moved on, and the requester has a ledger account.
pub open spec fn submit_mid(
    s: CoordView,
    caller: Seq<char>,
    now: u64,
    description: Seq<char>,
    cost: u128,
    priority: TaskPriority,
) -> CoordView {
    let t = TaskView {
        id: s.task_counter,
        description: description,
        assignee: None,
        status: TaskStatus::Pending,
        output: None,
        proof_hash: None,
        created_at: now,
        completed_at: None,
        assigned_at: None,
        timeout_at: None,
        reward_amount: cost,
        requester: caller,
        priority: priority,
    };
    CoordView {
        active: s.active.push(t),
        pending: s.pending.push(s.task_counter),
        task_counter: (s.task_counter + 1) as u64,
        ledger: ledger_register(s.ledger, caller),
        ..s
    }
}

/// Accepting a fresh task preserves every invariant.
pub proof fn lemma_wf_submit_mid(
    s: CoordView,
    caller: Seq<char>,
    now: u64,
    description: Seq<char>,
    cost: u128,
    priority: TaskPriority,
)
    requires
        s.wf(),
        s.task_counter < u64::MAX,
        cost > 0,
    ensures
        submit_mid(s, caller, now, description, cost, priority).wf(),
{
    let s1 = submit_mid(s, caller, now, description, cost, priority);
    let n = s.active.len() as int;
    let t = s1.active[n];
    assert(forall|i: int| 0 <= i < n ==> s1.active[i] == s.active[i]);
    assert(unique_task_ids(s1.active)) by {
        assert forall|i: int, j: int| 0 <= i < j < s1.active.len() implies s1.active[i].id
            != s1.active[j].id by {
            if j == n {
                assert(s.active[i].id < s.task_counter);
            }
        }
    }
    assert forall|a: int|
        0 <= a < s1.active.len() && (#[trigger] s1.active[a]).assignee is Some implies has_node(
        s1.nodes,
        s1.active[a].assignee->0,
    ) by {
        assert(a < n);
        assert(has_node(s.nodes, s.active[a].assignee->0));
    }
    assert(s1.pending_wf()) by {
        let m = s.pending.len() as int;
        assert(forall|k: int| 0 <= k < m ==> s1.pending[k] == s.pending[k]);
        assert(s1.pending[m] == s.task_counter);
        // strictly increasing: every queued id names an active task, whose
        // ids all precede the fresh counter value
        assert forall|k1: int, k2: int| 0 <= k1 < k2 < s1.pending.len() implies s1.pending[k1]
            < s1.pending[k2] by {
            if k2 == m {
                assert(has_task(s.active, s.pending[k1]));
                let w = choose|w: int|
                    0 <= w < s.active.len() && #[trigger] s.active[w].id == s.pending[k1];
                assert(s.active[w].id < s.task_counter);
            }
        }
        assert forall|k: int| 0 <= k < s1.pending.len() implies has_task(
            s1.active,
            #[trigger] s1.pending[k],
        ) && task_of(s1.active, s1.pending[k]).status is Pending by {
            if k < m {
                let w = choose|w: int|
                    0 <= w < s.active.len() && #[trigger] s.active[w].id == s.pending[k];
                assert(s1.active[w].id == s.pending[k]);
                lemma_task_at(s.active, w);
                lemma_task_at(s1.active, w);
            } else {
                assert(s1.active[n].id == s1.pending[k]);
                lemma_task_at(s1.active, n);
            }
        }
        assert forall|i: int|
            0 <= i < s1.active.len() && (#[trigger] s1.active[i]).status is Pending implies s1
            .pending.contains(s1.active[i].id) by {
            if i < n {
                let k = choose|k: int| 0 <= k < s.pending.len() && s.pending[k] == s.active[i].id;
                assert(s1.pending[k] == s1.active[i].id);
            } else {
                assert(s1.pending[m] == s1.active[i].id);
            }
        }
    }
    assert(s1.archives_disjoint()) by {
        assert forall|i: int, j: int|
            0 <= i < s1.active.len() && 0 <= j < s1.completed.len() implies (
        #[trigger] s1.active[i]).id != (#[trigger] s1.completed[j]).id by {
            if i == n {
                assert(s.completed[j].id < s.task_counter);
            }
        }
    }
    if !contains_id(s.ledger.accounts, caller) {
        crate::ledger::lemma_sum_push(
            s.ledger.accounts,
            crate::ledger::AccountEntry { id: caller, balance: 0 },
        );
        assert(crate::ledger::unique_ids(s1.ledger.accounts)) by {
            assert forall|i: int, j: int|
                0 <= i < j < s1.ledger.accounts.len() implies s1.ledger.accounts[i].id
                != s1.ledger.accounts[j].id by {
                if j == s.ledger.accounts.len() {
                    if s1.ledger.accounts[i].id == caller {
                        assert(s.ledger.accounts[i].id == caller);
                    }
                }
            }
        }
    }
    lemma_ledger_register_contains(s.ledger, caller);
    assert forall|i: int| 0 <= i < s1.nodes.len() implies contains_id(
        s1.ledger.accounts,
        (#[trigger] s1.nodes[i]).account_id,
    ) by {
        assert(contains_id(s.ledger.accounts, s.nodes[i].account_id));
    }
}

/// What `ledger_register` does to the registered set.
pub proof fn lemma_ledger_register_contains(lv: LedgerView, id: Seq<char>)
    ensures
        forall|a: Seq<char>|
            contains_id(ledger_register(lv, id).accounts, a) == (contains_id(lv.accounts, a) || a
                == id),
{
    let lv2 = ledger_register(lv, id);
    assert forall|a: Seq<char>| contains_id(lv2.accounts, a) == (contains_id(lv.accounts, a) || a
        == id) by {
        if contains_id(lv.accounts, a) {
            let k = choose|k: int|
                0 <= k < lv.accounts.len() && #[trigger] lv.accounts[k].id == a;
            assert(lv2.accounts[k].id == a);
        }
        if a == id && !contains_id(lv.accounts, a) {
            assert(lv2.accounts[lv.accounts.len() as int].id == a);
        }
        if contains_id(lv2.accounts, a) && !contains_id(lv.accounts, a) {
            let k = choose|k: int|
                0 <= k < lv2.accounts.len() && #[trigger] lv2.accounts[k].id == a;
            if k < lv.accounts.len() {
                assert(lv.accounts[k].id == a);
            }
        }
    }
}

/// Removing the task at `i` keeps ids unique, drops exactly that id, and
/// leaves every other lookup unchanged.
pub proof fn lemma_task_remove(tasks: Seq<TaskView>, i: int)
    requires
        unique_task_ids(tasks),
        0 <= i < tasks.len(),
    ensures
        unique_task_ids(tasks.remove(i)),
        !has_task(tasks.remove(i), tasks[i].id),
        forall|id: u64|
            id != tasks[i].id ==> #[trigger] has_task(tasks.remove(i), id) == has_task(tasks, id),
        forall|id: u64|
            id != tasks[i].id && has_task(tasks, id) ==> #[trigger] task_of(tasks.remove(i), id)
                == task_of(tasks, id),
{
    let t = tasks.remove(i);
    assert(forall|k: int| 0 <= k < i ==> t[k] == tasks[k]);
    assert(forall|k: int| i <= k < t.len() ==> t[k] == tasks[k + 1]);
    assert(!has_task(t, tasks[i].id)) by {
        if has_task(t, tasks[i].id) {
            let k = choose|k: int| 0 <= k < t.len() && #[trigger] t[k].id == tasks[i].id;
            if k < i {
                assert(tasks[k].id == tasks[i].id);
            } else {
                assert(tasks[k + 1].id == tasks[i].id);
            }
        }
    }
    assert forall|id: u64| id != tasks[i].id implies #[trigger] has_task(t, id) == has_task(
        tasks,
        id,
    ) by {
        if has_task(tasks, id) {
            let k = choose|k: int| 0 <= k < tasks.len() && #[trigger] tasks[k].id == id;
            if k < i {
                assert(t[k].id == id);
            } else {
                assert(t[k - 1].id == id);
            }
        }
        if has_task(t, id) {
            let k = choose|k: int| 0 <= k < t.len() && #[trigger] t[k].id == id;
            if k < i {
                assert(tasks[k].id == id);
            } else {
                assert(tasks[k + 1].id == id);
            }
        }
    }
    assert forall|id: u64| id != tasks[i].id && has_task(tasks, id) implies #[trigger] task_of(
        t,
        id,
    ) == task_of(tasks, id) by {
        let k = choose|k: int| 0 <= k < tasks.len() && #[trigger] tasks[k].id == id;
        lemma_task_at(tasks, k);
        if k < i {
            assert(t[k].id == id);
            lemma_task_at(t, k);
        } else {
            assert(t[k - 1].id == id);
            lemma_task_at(t, k - 1);
        }
    }
}

/// Replacing the node at `i` by one with the same account id keeps ids
/// unique and leaves every other lookup unchanged.
pub proof fn lemma_node_update(nodes: Seq<NodeView>, i: int, nv: NodeView)
    requires
        unique_node_ids(nodes),
        0 <= i < nodes.len(),
        nv.account_id == nodes[i].account_id,
    ensures
        unique_node_ids(nodes.update(i, nv)),
        forall|id: Seq<char>| has_node(nodes.update(i, nv), id) == has_node(nodes, id),
        node_of(nodes.update(i, nv), nv.account_id) == nv,
        node_at(nodes.update(i, nv), nv.account_id) == i,
        forall|id: Seq<char>|
            id != nv.account_id && has_node(nodes, id) ==> #[trigger] node_of(
                nodes.update(i, nv),
                id,
            ) == node_of(nodes, id),
{
    let t = nodes.update(i, nv);
    assert forall|id: Seq<char>| has_node(t, id) == has_node(nodes, id) by {
        if has_node(t, id) {
            let k = choose|k: int| 0 <= k < t.len() && #[trigger] t[k].account_id == id;
            if k == i {
                assert(nodes[i].account_id == id);
            } else {
                assert(nodes[k].account_id == id);
            }
        }
        if has_node(nodes, id) {
            let k = choose|k: int| 0 <= k < nodes.len() && #[trigger] nodes[k].account_id == id;
            if k == i {
                assert(t[i].account_id == id);
            } else {
                assert(t[k].account_id == id);
            }
        }
    }
    lemma_node_at(t, i);
    assert forall|id: Seq<char>| id != nv.account_id && has_node(nodes, id) implies
        #[trigger] node_of(t, id) == node_of(nodes, id) by {
        let k = choose|k: int| 0 <= k < nodes.len() && #[trigger] nodes[k].account_id == id;
        assert(k != i);
        assert(t[k].account_id == id);
        lemma_node_at(nodes, k);
        lemma_node_at(t, k);
    }
}

/// The ledger after minting `amount` into registered account `id`.
pub open spec fn ledger_deposit(lv: LedgerView, id: Seq<char>, amount: u128) -> LedgerView {
    LedgerView {
        accounts: lv.accounts.update(
            crate::ledger::acct_at(lv.accounts, id),
            crate::ledger::AccountEntry {
                id: id,
                balance: (crate::ledger::bal_of(lv.accounts, id) + amount) as u128,
            },
        ),
        total_supply: (lv.total_supply + amount) as u128,
    }
}

/// Why `submit_result` refuses, or `None` when it succeeds. The checks run
/// in this order: safety deposit, task existence, assignment, status,
/// non-empty proof and output, size bounds, deadline, supply headroom.
pub open spec fn spec_submit_result_err(
    s: CoordView,
    caller: Seq<char>,
    deposit: u128,
    now: u64,
    task_id: u64,
    proof_hash: Seq<char>,
    output: Seq<char>,
) -> Option<ErrorKind> {
    if deposit != ONE_YOCTO {
        Some(ErrorKind::InsufficientDeposit)
    } else if !has_task(s.active, task_id) {
        Some(ErrorKind::NotFound)
    } else if task_of(s.active, task_id).assignee != Some(caller) {
        Some(ErrorKind::NotAssigned)
    } else if !(task_of(s.active, task_id).status is Assigned || task_of(
        s.active,
        task_id,
    ).status is InProgress) {
        Some(ErrorKind::TaskNotActive)
    } else if proof_hash.len() == 0 {
        Some(ErrorKind::BadRequest)
    } else if output.len() == 0 {
        Some(ErrorKind::BadRequest)
    } else if blen(proof_hash) > 64 {
        Some(ErrorKind::BadRequest)
    } else if blen(output) > 10000 {
        Some(ErrorKind::BadRequest)
    } else if now > task_of(s.active, task_id).timeout_at->0 {
        Some(ErrorKind::TaskTimedOut)
    } else if s.ledger.total_supply + task_of(s.active, task_id).reward_amount > u128::MAX {
        Some(ErrorKind::Internal)
    } else {
        None
    }
}

/// The state right after a result is accepted, before the dispatch round:
/// the task is archived as `Completed` with the submitted output and proof,
/// the node's counters move, and the reward is minted.
pub open spec fn submit_result_mid(
    s: CoordView,
    caller: Seq<char>,
    now: u64,
    task_id: u64,
    proof_hash: Seq<char>,
    output: Seq<char>,
) -> CoordView {
    let ti = task_at(s.active, task_id);
    let t = s.active[ti];
    let t2 = TaskView {
        status: TaskStatus::Completed,
        output: Some(output),
        proof_hash: Some(proof_hash),
        completed_at: Some(now),
        ..t
    };
    let ni = node_at(s.nodes, caller);
    let nd = s.nodes[ni];
    let nd2 = NodeView {
        total_tasks_completed: (nd.total_tasks_completed + 1) as u64,
        reputation_score: if nd.reputation_score + REPUTATION_GAIN > MAX_REPUTATION {
            MAX_REPUTATION
        } else {
            (nd.reputation_score + REPUTATION_GAIN) as u32
        },
        ..nd
    };
    CoordView {
        active: s.active.remove(ti),
        completed: s.completed.push(t2),
        nodes: s.nodes.update(ni, nd2),
        ledger: ledger_deposit(s.ledger, caller, t.reward_amount),
        total_rewards_distributed: (s.total_rewards_distributed + t.reward_amount) as u128,
        ..s
    }
}

/// Why `timeout_task` refuses, or `None` when it succeeds. Succeeds only
/// strictly after the deadline.
pub open spec fn spec_timeout_err(s: CoordView, deposit: u128, now: u64, task_id: u64) -> Option<
    ErrorKind,
> {
    if deposit != ONE_YOCTO {
        Some(ErrorKind::InsufficientDeposit)
    } else if !has_task(s.active, task_id) {
        Some(ErrorKind::NotFound)
    } else if !(task_of(s.active, task_id).status is Assigned || task_of(
        s.active,
        task_id,
    ).status is InProgress) {
        Some(ErrorKind::TaskNotActive)
    } else if now <= task_of(s.active, task_id).timeout_at->0 {
        Some(ErrorKind::BadRequest)
    } else {
        None
    }
}

/// The state after a task is timed out: the task is archived as `TimedOut`,
/// and its assignee loses reputation and a tenth of its stake (capped so
/// slashing never exceeds the stake).
pub open spec fn spec_timeout_state(s: CoordView, now: u64, task_id: u64) -> CoordView {
    let ti = task_at(s.active, task_id);
    let t = s.active[ti];
    let t2 = TaskView { status: TaskStatus::TimedOut, completed_at: Some(now), ..t };
    let ni = node_at(s.nodes, t.assignee->0);
    let nd = s.nodes[ni];
    let slash = nd.stake / 10;
    let nd2 = NodeView {
        reputation_score: if nd.reputation_score >= REPUTATION_LOSS {
            (nd.reputation_score - REPUTATION_LOSS) as u32
        } else {
            0
        },
        slashed_amount: if nd.slashed_amount + slash > nd.stake {
            nd.stake
        } else {
            (nd.slashed_amount + slash) as u128
        },
        ..nd
    };
    CoordView {
        active: s.active.remove(ti),
        completed: s.completed.push(t2),
        nodes: s.nodes.update(ni, nd2),
        ..s
    }
}

/// Why `deactivate_node` refuses, or `None` when it succeeds.
pub open spec fn spec_deactivate_err(s: CoordView, caller: Seq<char>, deposit: u128) -> Option<
    ErrorKind,
> {
    if deposit != ONE_YOCTO {
        Some(ErrorKind::InsufficientDeposit)
    } else if !has_node(s.nodes, caller) {
        Some(ErrorKind::NotFound)
    } else if !node_of(s.nodes, caller).is_active {
        Some(ErrorKind::BadRequest)
    } else if count_active_for(s.active, caller) > 0 {
        Some(ErrorKind::Conflict)
    } else {
        None
    }
}

/// Accepting a result preserves every invariant.
#[verifier::spinoff_prover]
#[verifier::rlimit(100)]
pub proof fn lemma_wf_submit_result_mid(
    s: CoordView,
    caller: Seq<char>,
    now: u64,
    task_id: u64,
    proof_hash: Seq<char>,
    output: Seq<char>,
)
    requires
        s.wf(),
        spec_submit_result_err(s, caller, ONE_YOCTO, now, task_id, proof_hash, output) is None,
        node_of(s.nodes, caller).total_tasks_completed + 1 <= u64::MAX,
    ensures
        submit_result_mid(s, caller, now, task_id, proof_hash, output).wf(),
{
    let s1 = submit_result_mid(s, caller, now, task_id, proof_hash, output);
    let ti = task_at(s.active, task_id);
    assert(0 <= ti < s.active.len() && s.active[ti].id == task_id);
    let t = s.active[ti];
    assert(t.assignee == Some(caller));
    assert(has_node(s.nodes, caller));
    let ni = node_at(s.nodes, caller);
    assert(0 <= ni < s.nodes.len() && s.nodes[ni].account_id == caller);
    let nd = s.nodes[ni];
    let nd2 = NodeView {
        total_tasks_completed: (nd.total_tasks_completed + 1) as u64,
        reputation_score: if nd.reputation_score + REPUTATION_GAIN > MAX_REPUTATION {
            MAX_REPUTATION
        } else {
            (nd.reputation_score + REPUTATION_GAIN) as u32
        },
        ..nd
    };
    let t2 = TaskView {
        status: TaskStatus::Completed,
        output: Some(output),
        proof_hash: Some(proof_hash),
        completed_at: Some(now),
        ..t
    };
    lemma_task_remove(s.active, ti);
    lemma_node_update(s.nodes, ni, nd2);
    // the ledger mint keeps the ledger sound and conserves tokens
    assert(contains_id(s.ledger.accounts, caller));
    let ai = crate::ledger::acct_at(s.ledger.accounts, caller);
    crate::ledger::lemma_id_at_index(
        s.ledger.accounts,
        choose|k: int|
            0 <= k < s.ledger.accounts.len() && #[trigger] s.ledger.accounts[k].id == caller,
        caller,
    );
    assert(0 <= ai < s.ledger.accounts.len() && s.ledger.accounts[ai].id == caller);
    crate::ledger::lemma_bal_le_sum(s.ledger.accounts, ai);
    let e2 = crate::ledger::AccountEntry {
        id: caller,
        balance: (crate::ledger::bal_of(s.ledger.accounts, caller) + t.reward_amount) as u128,
    };
    crate::ledger::lemma_sum_update(s.ledger.accounts, ai, e2);
    crate::ledger::lemma_update_balance(s.ledger.accounts, ai, e2);
    assert(s1.ledger.wf());
    // node registry invariants
    assert(s1.nodes_wf()) by {
        assert(forall|i: int|
            0 <= i < s1.nodes.len() && i != ni ==> s1.nodes[i] == s.nodes[i]);
        assert forall|i: int| 0 <= i < s1.nodes.len() implies contains_id(
            s1.ledger.accounts,
            (#[trigger] s1.nodes[i]).account_id,
        ) by {
            assert(contains_id(s.ledger.accounts, s.nodes[i].account_id));
        }
        assert(s1.completed.len() == s.completed.len() + 1);
    }
    // archive invariants
    assert(s1.completed_wf()) by {
        assert(forall|j: int| 0 <= j < s.completed.len() ==> s1.completed[j] == s.completed[j]);
        assert(s1.completed.last() == t2);
        assert forall|i: int, j: int| 0 <= i < j < s1.completed.len() implies s1.completed[i].id
            != s1.completed[j].id by {
            if j == s.completed.len() {
                assert(s.completed[i].id != s.active[ti].id);
            }
        }
        assert(task_shape_wf(t2));
    }
    assert(s1.archives_disjoint()) by {
        assert forall|i: int, j: int|
            0 <= i < s1.active.len() && 0 <= j < s1.completed.len() implies (
        #[trigger] s1.active[i]).id != (#[trigger] s1.completed[j]).id by {
            assert(has_task(s.active, s1.active[i].id)) by {
                if i < ti {
                    assert(s.active[i].id == s1.active[i].id);
                } else {
                    assert(s.active[i + 1].id == s1.active[i].id);
                }
            }
            if j == s.completed.len() {
                assert(!has_task(s1.active, task_id));
                assert(has_task(s1.active, s1.active[i].id));
            }
        }
    }
    // queue invariants: the archived task was not queued
    assert(s1.pending_wf()) by {
        assert forall|k: int| 0 <= k < s1.pending.len() implies has_task(
            s1.active,
            #[trigger] s1.pending[k],
        ) && task_of(s1.active, s1.pending[k]).status is Pending by {
            assert(has_task(s.active, s.pending[k]));
            assert(task_of(s.active, s.pending[k]).status is Pending);
            assert(s.pending[k] != task_id) by {
                if s.pending[k] == task_id {
                    assert(task_of(s.active, task_id).status is Pending);
                }
            }
        }
        assert forall|i: int|
            0 <= i < s1.active.len() && (#[trigger] s1.active[i]).status is Pending implies s1
            .pending.contains(s1.active[i].id) by {
            let i0 = if i < ti {
                i
            } else {
                i + 1
            };
            assert(s1.active[i] == s.active[i0]);
            assert(s.pending.contains(s.active[i0].id));
        }
    }
    // active invariants survive the removal
    assert(s1.active_wf()) by {
        assert forall|i: int| 0 <= i < s1.active.len() implies {
            &&& (#[trigger] s1.active[i]).id < s1.task_counter
            &&& task_shape_wf(s1.active[i])
            &&& (s1.active[i].status is Pending || s1.active[i].status is Assigned
                || s1.active[i].status is InProgress)
            &&& (s1.active[i].assignee is Some ==> has_node(s1.nodes, s1.active[i].assignee->0))
        } by {
            let i0 = if i < ti {
                i
            } else {
                i + 1
            };
            assert(s1.active[i] == s.active[i0]);
            if s.active[i0].assignee is Some {
                assert(has_node(s.nodes, s.active[i0].assignee->0));
            }
        }
    }
}

/// Timing out a task preserves every invariant.
#[verifier::spinoff_prover]
#[verifier::rlimit(100)]
pub proof fn lemma_wf_timeout_state(s: CoordView, now: u64, task_id: u64)
    requires
        s.wf(),
        spec_timeout_err(s, ONE_YOCTO, now, task_id) is None,
    ensures
        spec_timeout_state(s, now, task_id).wf(),
{
    let s1 = spec_timeout_state(s, now, task_id);
    let ti = task_at(s.active, task_id);
    assert(0 <= ti < s.active.len() && s.active[ti].id == task_id);
    let t = s.active[ti];
    assert(t.assignee is Some);
    assert(has_node(s.nodes, t.assignee->0));
    let ni = node_at(s.nodes, t.assignee->0);
    assert(0 <= ni < s.nodes.len() && s.nodes[ni].account_id == t.assignee->0);
    let nd = s.nodes[ni];
    let slash = nd.stake / 10;
    let nd2 = NodeView {
        reputation_score: if nd.reputation_score >= REPUTATION_LOSS {
            (nd.reputation_score - REPUTATION_LOSS) as u32
        } else {
            0
        },
        slashed_amount: if nd.slashed_amount + slash > nd.stake {
            nd.stake
        } else {
            (nd.slashed_amount + slash) as u128
        },
        ..nd
    };
    let t2 = TaskView { status: TaskStatus::TimedOut, completed_at: Some(now), ..t };
    lemma_task_remove(s.active, ti);
    lemma_node_update(s.nodes, ni, nd2);
    assert(s1.nodes_wf()) by {
        assert(forall|i: int|
            0 <= i < s1.nodes.len() && i != ni ==> s1.nodes[i] == s.nodes[i]);
        assert forall|i: int| 0 <= i < s1.nodes.len() implies contains_id(
            s1.ledger.accounts,
            (#[trigger] s1.nodes[i]).account_id,
        ) by {
            assert(contains_id(s.ledger.accounts, s.nodes[i].account_id));
        }
        assert(s1.completed.len() == s.completed.len() + 1);
    }
    assert(s1.completed_wf()) by {
        assert(forall|j: int| 0 <= j < s.completed.len() ==> s1.completed[j] == s.completed[j]);
        assert(s1.completed.last() == t2);
        assert forall|i: int, j: int| 0 <= i < j < s1.completed.len() implies s1.completed[i].id
            != s1.completed[j].id by {
            if j == s.completed.len() {
                assert(s.completed[i].id != s.active[ti].id);
            }
        }
        assert(task_shape_wf(t2));
    }
    assert(s1.archives_disjoint()) by {
        assert forall|i: int, j: int|
            0 <= i < s1.active.len() && 0 <= j < s1.completed.len() implies (
        #[trigger] s1.active[i]).id != (#[trigger] s1.completed[j]).id by {
            assert(has_task(s.active, s1.active[i].id)) by {
                if i < ti {
                    assert(s.active[i].id == s1.active[i].id);
                } else {
                    assert(s.active[i + 1].id == s1.active[i].id);
                }
            }
            if j == s.completed.len() {
                assert(!has_task(s1.active, task_id));
                assert(has_task(s1.active, s1.active[i].id));
            }
        }
    }
    assert(s1.pending_wf()) by {
        assert forall|k: int| 0 <= k < s1.pending.len() implies has_task(
            s1.active,
            #[trigger] s1.pending[k],
        ) && task_of(s1.active, s1.pending[k]).status is Pending by {
            assert(has_task(s.active, s.pending[k]));
            assert(task_of(s.active, s.pending[k]).status is Pending);
            assert(s.pending[k] != task_id) by {
                if s.pending[k] == task_id {
                    assert(task_of(s.active, task_id).status is Pending);
                }
            }
        }
        assert forall|i: int|
            0 <= i < s1.active.len() && (#[trigger] s1.active[i]).status is Pending implies s1
            .pending.contains(s1.active[i].id) by {
            let i0 = if i < ti {
                i
            } else {
                i + 1
            };
            assert(s1.active[i] == s.active[i0]);
            assert(s.pending.contains(s.active[i0].id));
        }
    }
    assert(s1.active_wf()) by {
        assert forall|i: int| 0 <= i < s1.active.len() implies {
            &&& (#[trigger] s1.active[i]).id < s1.task_counter
            &&& task_shape_wf(s1.active[i])
            &&& (s1.active[i].status is Pending || s1.active[i].status is Assigned
                || s1.active[i].status is InProgress)
            &&& (s1.active[i].assignee is Some ==> has_node(s1.nodes, s1.active[i].assignee->0))
        } by {
            let i0 = if i < ti {
                i
            } else {
                i + 1
            };
            assert(s1.active[i] == s.active[i0]);
            if s.active[i0].assignee is Some {
                assert(has_node(s.nodes, s.active[i0].assignee->0));
            }
        }
    }
}

/// Why `heartbeat` refuses, or `None` when it succeeds.
pub open spec fn spec_heartbeat_err(s: CoordView, caller: Seq<char>) -> Option<ErrorKind> {
    if s.paused {
        Some(ErrorKind::Paused)
    } else if !has_node(s.nodes, caller) {
        Some(ErrorKind::NotFound)
    } else {
        None
    }
}

} // verus!
