//! Tests of the coordinator state machine: registration, scheduling,
//! results, rewards, timeouts, slashing, administration and the token
//! ledger.

use compute_deai::coordinator::{DeAICompute, MIN_STAKE_YOCTO, ONE_YOCTO, STORAGE_COST};
use compute_deai::errors::ErrorKind;
use compute_deai::types::{TaskPriority, TaskStatus};

const MIN_STAKE: u128 = MIN_STAKE_YOCTO;

fn accounts(i: usize) -> String {
    let names = ["alice", "bob", "charlie", "danny", "eugene", "fargo"];
    names[i].to_string()
}

fn register_default_node(contract: &mut DeAICompute, who: usize) {
    contract
        .register_node(
            &accounts(who),
            MIN_STAKE,
            0,
            "192.168.1.100".to_string(),
            "RTX 4090".to_string(),
            "Intel i9".to_string(),
            "http://192.168.1.100:8080".to_string(),
        )
        .unwrap();
}

#[test]
fn test_new_contract() {
    let contract = DeAICompute::new(accounts(1));
    assert_eq!(contract.get_task_count(), 0);
    assert_eq!(contract.get_active_nodes(0).len(), 0);
}

#[test]
fn test_register_node() {
    let mut contract = DeAICompute::new(accounts(1));

    register_default_node(&mut contract, 2);

    let node_info = contract.get_node_info(&accounts(2)).unwrap();
    assert_eq!(node_info.public_ip, "192.168.1.100");
    assert_eq!(node_info.stake, MIN_STAKE);
    assert!(node_info.is_active);

    let active_nodes = contract.get_active_nodes(0);
    assert_eq!(active_nodes.len(), 1);
}

#[test]
fn test_register_node_insufficient_stake() {
    let mut contract = DeAICompute::new(accounts(1));

    let r = contract.register_node(
        &accounts(2),
        MIN_STAKE / 2,
        0,
        "192.168.1.100".to_string(),
        "RTX 4090".to_string(),
        "Intel i9".to_string(),
        "http://192.168.1.100:8080".to_string(),
    );
    assert_eq!(r, Err(ErrorKind::InsufficientStake));
}

#[test]
fn test_register_node_duplicate_ip() {
    let mut contract = DeAICompute::new(accounts(1));

    register_default_node(&mut contract, 2);

    let r = contract.register_node(
        &accounts(3),
        MIN_STAKE,
        0,
        "192.168.1.100".to_string(),
        "RTX 3080".to_string(),
        "Intel i7".to_string(),
        "http://192.168.1.100:8081".to_string(),
    );
    assert_eq!(r, Err(ErrorKind::Conflict));
}

#[test]
fn test_submit_task() {
    let mut contract = DeAICompute::new(accounts(1));

    register_default_node(&mut contract, 2);

    let task_cost: u128 = 100_000_000_000_000_000_000_000;
    contract
        .submit_task(
            &accounts(3),
            task_cost + STORAGE_COST,
            0,
            r#"{"model": "gpt2", "input": "Hello world", "task_type": "inference"}"#.to_string(),
            task_cost,
            Some(TaskPriority::Normal),
        )
        .unwrap();

    assert_eq!(contract.get_task_count(), 1);

    let assigned_tasks = contract.get_assigned_tasks(&accounts(2));
    assert_eq!(assigned_tasks.len(), 1);
    assert_eq!(assigned_tasks[0].status, TaskStatus::Assigned);
}

#[test]
fn test_submit_result() {
    let mut contract = DeAICompute::new(accounts(1));

    register_default_node(&mut contract, 2);

    let task_cost: u128 = 100_000_000_000_000_000_000_000;
    contract
        .submit_task(
            &accounts(3),
            task_cost + STORAGE_COST,
            0,
            r#"{"model": "gpt2", "input": "Hello world", "task_type": "inference"}"#.to_string(),
            task_cost,
            Some(TaskPriority::Normal),
        )
        .unwrap();

    contract
        .submit_result(
            &accounts(2),
            ONE_YOCTO,
            0,
            0,
            "abc123hash".to_string(),
            "Hello world response".to_string(),
        )
        .unwrap();

    let result = contract.get_task_result(0).unwrap();
    assert_eq!(result.status, TaskStatus::Completed);
    assert_eq!(result.output.unwrap(), "Hello world response");

    let balance = contract.ft_balance_of(&accounts(2));
    assert_eq!(balance, task_cost);

    let node_info = contract.get_node_info(&accounts(2)).unwrap();
    assert_eq!(node_info.total_tasks_completed, 1);
    assert_eq!(node_info.reputation_score, 110);
}

#[test]
fn test_heartbeat() {
    let mut contract = DeAICompute::new(accounts(1));

    register_default_node(&mut contract, 2);

    let initial_heartbeat = contract.get_node_info(&accounts(2)).unwrap().last_heartbeat;

    contract
        .heartbeat(&accounts(2), initial_heartbeat + 60_000_000_000)
        .unwrap();

    let updated_heartbeat = contract.get_node_info(&accounts(2)).unwrap().last_heartbeat;
    assert!(updated_heartbeat > initial_heartbeat);
}

#[test]
fn test_multiple_nodes_task_assignment() {
    let mut contract = DeAICompute::new(accounts(1));

    register_default_node(&mut contract, 2);
    contract
        .register_node(
            &accounts(3),
            MIN_STAKE,
            0,
            "192.168.1.101".to_string(),
            "RTX 3080".to_string(),
            "Intel i7".to_string(),
            "http://192.168.1.101:8080".to_string(),
        )
        .unwrap();

    let task_cost: u128 = 100_000_000_000_000_000_000_000;

    contract
        .submit_task(
            &accounts(4),
            task_cost + STORAGE_COST,
            0,
            "Task 1".to_string(),
            task_cost,
            Some(TaskPriority::Normal),
        )
        .unwrap();
    contract
        .submit_task(
            &accounts(4),
            task_cost + STORAGE_COST,
            0,
            "Task 2".to_string(),
            task_cost,
            Some(TaskPriority::High),
        )
        .unwrap();

    assert_eq!(contract.get_task_count(), 2);

    let node2_tasks = contract.get_assigned_tasks(&accounts(2));
    let node3_tasks = contract.get_assigned_tasks(&accounts(3));

    assert!(node2_tasks.len() >= 1 || node3_tasks.len() >= 1);
    assert_eq!(node2_tasks.len() + node3_tasks.len(), 2);
}

#[test]
fn test_token_operations() {
    let mut contract = DeAICompute::new(accounts(1));

    assert_eq!(contract.ft_total_supply(), 0);

    register_default_node(&mut contract, 2);

    let task_cost: u128 = 100_000_000_000_000_000_000_000;
    contract
        .submit_task(
            &accounts(3),
            task_cost + STORAGE_COST,
            0,
            "Test task".to_string(),
            task_cost,
            Some(TaskPriority::Normal),
        )
        .unwrap();

    contract
        .submit_result(
            &accounts(2),
            ONE_YOCTO,
            0,
            0,
            "proof_hash".to_string(),
            "result".to_string(),
        )
        .unwrap();

    assert_eq!(contract.ft_balance_of(&accounts(2)), task_cost);
    assert_eq!(contract.ft_total_supply(), task_cost);
    assert_eq!(contract.get_total_rewards_distributed(), task_cost);
}

#[test]
fn test_pause_functionality() {
    let mut contract = DeAICompute::new(accounts(1));

    contract.pause_contract(&accounts(1), ONE_YOCTO).unwrap();

    let r = contract.register_node(
        &accounts(2),
        MIN_STAKE,
        0,
        "192.168.1.100".to_string(),
        "RTX 4090".to_string(),
        "Intel i9".to_string(),
        "http://192.168.1.100:8080".to_string(),
    );
    assert_eq!(r, Err(ErrorKind::Paused));
}

#[test]
fn test_unauthorized_admin_access() {
    let mut contract = DeAICompute::new(accounts(1));

    let r = contract.pause_contract(&accounts(2), ONE_YOCTO);
    assert_eq!(r, Err(ErrorKind::Forbidden));
}

#[test]
fn test_one_yocto_security() {
    let mut contract = DeAICompute::new(accounts(1));

    register_default_node(&mut contract, 2);

    let r = contract.deactivate_node(&accounts(2), 0);
    assert_eq!(r, Err(ErrorKind::InsufficientDeposit));
}

#[test]
fn test_contract_stats() {
    let mut contract = DeAICompute::new(accounts(1));

    let (active_nodes, total_nodes, active_tasks, completed_tasks, paused) =
        contract.get_contract_stats(0);
    assert_eq!(active_nodes, 0);
    assert_eq!(total_nodes, 0);
    assert_eq!(active_tasks, 0);
    assert_eq!(completed_tasks, 0);
    assert_eq!(paused, false);

    register_default_node(&mut contract, 2);

    let (active_nodes, total_nodes, _, _, _) = contract.get_contract_stats(0);
    assert_eq!(active_nodes, 1);
    assert_eq!(total_nodes, 1);
}

#[test]
fn test_task_priority_assignment() {
    let mut contract = DeAICompute::new(accounts(1));

    register_default_node(&mut contract, 2);

    let task_cost: u128 = 100_000_000_000_000_000_000_000;

    contract
        .submit_task(
            &accounts(3),
            task_cost + STORAGE_COST,
            0,
            "Low priority task".to_string(),
            task_cost,
            Some(TaskPriority::Low),
        )
        .unwrap();
    contract
        .submit_task(
            &accounts(3),
            task_cost + STORAGE_COST,
            0,
            "Urgent task".to_string(),
            task_cost,
            Some(TaskPriority::Urgent),
        )
        .unwrap();

    let assigned_tasks = contract.get_assigned_tasks(&accounts(2));
    assert_eq!(assigned_tasks.len(), 2);

    let task_0 = contract.get_active_task(0);
    let task_1 = contract.get_active_task(1);

    assert!(task_0.is_some());
    assert!(task_1.is_some());
    assert_eq!(task_0.unwrap().priority, TaskPriority::Low);
    assert_eq!(task_1.unwrap().priority, TaskPriority::Urgent);
}

#[test]
fn test_urgent_task_dispatched_before_earlier_low_task() {
    // one node with capacity for a single task at a time: the urgent task
    // submitted second must be dispatched first
    let mut contract = DeAICompute::new(accounts(1));
    contract
        .update_max_tasks_per_node(&accounts(1), ONE_YOCTO, 1)
        .unwrap();

    register_default_node(&mut contract, 2);

    let task_cost: u128 = 100_000_000_000_000_000_000_000;
    // the node is busy with the first task; two more wait in the queue
    contract
        .submit_task(
            &accounts(3),
            task_cost + STORAGE_COST,
            0,
            "Busy task".to_string(),
            task_cost,
            Some(TaskPriority::Normal),
        )
        .unwrap();
    contract
        .submit_task(
            &accounts(3),
            task_cost + STORAGE_COST,
            0,
            "Low priority task".to_string(),
            task_cost,
            Some(TaskPriority::Low),
        )
        .unwrap();
    contract
        .submit_task(
            &accounts(3),
            task_cost + STORAGE_COST,
            0,
            "Urgent task".to_string(),
            task_cost,
            Some(TaskPriority::Urgent),
        )
        .unwrap();

    // finishing the busy task triggers one dispatch round: the urgent task
    // (id 2) must win over the older low task (id 1)
    contract
        .submit_result(&accounts(2), ONE_YOCTO, 0, 0, "p".to_string(), "r".to_string())
        .unwrap();

    assert_eq!(contract.get_active_task(2).unwrap().status, TaskStatus::Assigned);
    assert_eq!(contract.get_active_task(1).unwrap().status, TaskStatus::Pending);
}

#[test]
fn test_admin_functions() {
    let mut contract = DeAICompute::new(accounts(1));

    let new_stake: u128 = 2_000_000_000_000_000_000_000_000;
    contract
        .update_min_stake(&accounts(1), ONE_YOCTO, new_stake)
        .unwrap();

    contract
        .update_max_tasks_per_node(&accounts(1), ONE_YOCTO, 10)
        .unwrap();

    let new_timeout: u64 = 7200_000_000_000;
    contract
        .update_task_timeout(&accounts(1), ONE_YOCTO, new_timeout)
        .unwrap();

    contract.pause_contract(&accounts(1), ONE_YOCTO).unwrap();
    contract.unpause_contract(&accounts(1), ONE_YOCTO).unwrap();
}

#[test]
fn test_node_deactivation_with_active_tasks() {
    let mut contract = DeAICompute::new(accounts(1));

    register_default_node(&mut contract, 2);

    let task_cost: u128 = 100_000_000_000_000_000_000_000;
    contract
        .submit_task(
            &accounts(3),
            task_cost + STORAGE_COST,
            0,
            "Test task".to_string(),
            task_cost,
            Some(TaskPriority::Normal),
        )
        .unwrap();

    let result = contract.deactivate_node(&accounts(2), ONE_YOCTO);
    assert!(result.is_err());
}

#[test]
fn test_input_validation() {
    let mut contract = DeAICompute::new(accounts(1));

    let result = contract.submit_task(
        &accounts(2),
        STORAGE_COST + 1000,
        0,
        "".to_string(),
        1000,
        Some(TaskPriority::Normal),
    );
    assert!(result.is_err());

    let result = contract.register_node(
        &accounts(2),
        MIN_STAKE,
        0,
        "".to_string(),
        "RTX 4090".to_string(),
        "Intel i9".to_string(),
        "http://192.168.1.100:8080".to_string(),
    );
    assert!(result.is_err());
}

#[test]
fn test_emergency_withdraw() {
    let mut contract = DeAICompute::new(accounts(1));

    contract.pause_contract(&accounts(1), ONE_YOCTO).unwrap();

    let withdraw_amount: u128 = 1000;
    let granted = contract
        .emergency_withdraw(&accounts(1), ONE_YOCTO, withdraw_amount * 2, withdraw_amount)
        .unwrap();
    assert_eq!(granted, withdraw_amount);
}

#[test]
fn test_get_active_task() {
    let mut contract = DeAICompute::new(accounts(1));

    register_default_node(&mut contract, 2);

    let task_cost: u128 = 100_000_000_000_000_000_000_000;
    contract
        .submit_task(
            &accounts(3),
            task_cost + STORAGE_COST,
            0,
            "Test task".to_string(),
            task_cost,
            Some(TaskPriority::Normal),
        )
        .unwrap();

    let active_task = contract.get_active_task(0);
    assert!(active_task.is_some());
    assert_eq!(active_task.unwrap().status, TaskStatus::Assigned);

    let non_existent = contract.get_active_task(999);
    assert!(non_existent.is_none());
}

#[test]
fn test_task_timeout_and_slashing() {
    let mut contract = DeAICompute::new(accounts(1));

    register_default_node(&mut contract, 2);

    let task_cost: u128 = 100_000_000_000_000_000_000_000;
    contract
        .submit_task(
            &accounts(3),
            task_cost + STORAGE_COST,
            0,
            "Test task".to_string(),
            task_cost,
            Some(TaskPriority::Normal),
        )
        .unwrap();

    let initial_reputation = contract.get_node_info(&accounts(2)).unwrap().reputation_score;
    assert_eq!(initial_reputation, 100);

    let refund = contract.timeout_task(ONE_YOCTO, 3700_000_000_000, 0).unwrap();
    assert_eq!(refund.receiver, accounts(3));
    assert_eq!(refund.amount, task_cost);

    let completed_task = contract.get_task_result(0);
    assert!(completed_task.is_some());
    assert_eq!(completed_task.unwrap().status, TaskStatus::TimedOut);

    let node_info = contract.get_node_info(&accounts(2)).unwrap();
    assert_eq!(node_info.reputation_score, initial_reputation - 50);
    assert_eq!(node_info.slashed_amount, MIN_STAKE / 10);
}

#[test]
fn test_premature_timeout() {
    let mut contract = DeAICompute::new(accounts(1));

    register_default_node(&mut contract, 2);

    let task_cost: u128 = 100_000_000_000_000_000_000_000;
    contract
        .submit_task(
            &accounts(3),
            task_cost + STORAGE_COST,
            0,
            "Test task".to_string(),
            task_cost,
            Some(TaskPriority::Normal),
        )
        .unwrap();

    let r = contract.timeout_task(ONE_YOCTO, 0, 0);
    assert!(r.is_err());
}

#[test]
fn test_timeout_boundary_is_strict() {
    // one nanosecond before the deadline the call fails; one after, it
    // succeeds
    let mut contract = DeAICompute::new(accounts(1));

    register_default_node(&mut contract, 2);

    let task_cost: u128 = 100_000_000_000_000_000_000_000;
    contract
        .submit_task(
            &accounts(3),
            task_cost + STORAGE_COST,
            0,
            "Test task".to_string(),
            task_cost,
            Some(TaskPriority::Normal),
        )
        .unwrap();

    let deadline = contract.get_active_task(0).unwrap().timeout_at.unwrap();
    assert!(contract.timeout_task(ONE_YOCTO, deadline - 1, 0).is_err());
    assert!(contract.timeout_task(ONE_YOCTO, deadline, 0).is_err());
    assert!(contract.timeout_task(ONE_YOCTO, deadline + 1, 0).is_ok());
}

#[test]
fn test_reputation_system() {
    let mut contract = DeAICompute::new(accounts(1));

    register_default_node(&mut contract, 2);

    for i in 0..5 {
        let task_cost: u128 = 100_000_000_000_000_000_000_000;
        contract
            .submit_task(
                &accounts(3),
                task_cost + STORAGE_COST,
                0,
                format!("Task {}", i),
                task_cost,
                Some(TaskPriority::Normal),
            )
            .unwrap();
        contract
            .submit_result(
                &accounts(2),
                ONE_YOCTO,
                0,
                i,
                format!("proof_{}", i),
                format!("result_{}", i),
            )
            .unwrap();
    }

    let node_info = contract.get_node_info(&accounts(2)).unwrap();
    assert_eq!(node_info.reputation_score, 150);
    assert_eq!(node_info.total_tasks_completed, 5);
}

#[test]
fn test_max_reputation_cap() {
    let mut contract = DeAICompute::new(accounts(1));

    register_default_node(&mut contract, 2);

    for i in 0..100 {
        let task_cost: u128 = 100_000_000_000_000_000_000_000;
        contract
            .submit_task(
                &accounts(3),
                task_cost + STORAGE_COST,
                0,
                format!("Task {}", i),
                task_cost,
                Some(TaskPriority::Normal),
            )
            .unwrap();
        contract
            .submit_result(
                &accounts(2),
                ONE_YOCTO,
                0,
                i,
                format!("proof_{}", i),
                format!("result_{}", i),
            )
            .unwrap();
    }

    let node_info = contract.get_node_info(&accounts(2)).unwrap();
    assert_eq!(node_info.reputation_score, 1000);
    assert_eq!(node_info.total_tasks_completed, 100);
}

#[test]
fn test_ft_transfer_security() {
    let mut contract = DeAICompute::new(accounts(1));

    register_default_node(&mut contract, 2);

    let task_cost: u128 = 100_000_000_000_000_000_000_000;
    contract
        .submit_task(
            &accounts(3),
            task_cost + STORAGE_COST,
            0,
            "Test task".to_string(),
            task_cost,
            Some(TaskPriority::Normal),
        )
        .unwrap();
    contract
        .submit_result(
            &accounts(2),
            ONE_YOCTO,
            0,
            0,
            "proof_hash".to_string(),
            "result".to_string(),
        )
        .unwrap();

    contract
        .ft_transfer(
            &accounts(2),
            ONE_YOCTO,
            &accounts(3),
            task_cost / 2,
            Some("test transfer".to_string()),
        )
        .unwrap();

    assert_eq!(contract.ft_balance_of(&accounts(2)), task_cost / 2);
    assert_eq!(contract.ft_balance_of(&accounts(3)), task_cost / 2);
}

#[test]
fn test_ft_transfer_without_security() {
    let mut contract = DeAICompute::new(accounts(1));

    let r = contract.ft_transfer(&accounts(2), 0, &accounts(3), 1000, None);
    assert_eq!(r, Err(ErrorKind::InsufficientDeposit));
}

#[test]
fn test_registration_stake_boundary() {
    // exactly the minimum is accepted; one unit less is refused
    let mut contract = DeAICompute::new(accounts(1));

    let r = contract.register_node(
        &accounts(2),
        MIN_STAKE - 1,
        0,
        "10.0.0.1".to_string(),
        "gpu".to_string(),
        "cpu".to_string(),
        "http://10.0.0.1:8080".to_string(),
    );
    assert_eq!(r, Err(ErrorKind::InsufficientStake));

    let r = contract.register_node(
        &accounts(2),
        MIN_STAKE,
        0,
        "10.0.0.1".to_string(),
        "gpu".to_string(),
        "cpu".to_string(),
        "http://10.0.0.1:8080".to_string(),
    );
    assert!(r.is_ok());
}

#[test]
fn test_duplicate_ip_scenario() {
    // alice registers 10.0.0.1 with 1 whole token of stake; bob's attempt
    // to take the same IP is a conflict
    let mut contract = DeAICompute::new(accounts(2));

    contract
        .register_node(
            "alice",
            MIN_STAKE,
            0,
            "10.0.0.1".to_string(),
            "gpu".to_string(),
            "cpu".to_string(),
            "http://10.0.0.1:8080".to_string(),
        )
        .unwrap();

    let r = contract.register_node(
        "bob",
        MIN_STAKE,
        0,
        "10.0.0.1".to_string(),
        "gpu".to_string(),
        "cpu".to_string(),
        "http://10.0.0.1:8081".to_string(),
    );
    assert_eq!(r, Err(ErrorKind::Conflict));
}

#[test]
fn test_submit_and_dispatch_scenario() {
    // with alice live, a submitted task moves straight to Assigned
    let mut contract = DeAICompute::new(accounts(2));

    contract
        .register_node(
            "alice",
            MIN_STAKE,
            0,
            "10.0.0.1".to_string(),
            "gpu".to_string(),
            "cpu".to_string(),
            "http://10.0.0.1:8080".to_string(),
        )
        .unwrap();

    let cost: u128 = 100_000_000_000_000_000_000_000;
    contract
        .submit_task(
            "requester",
            cost + STORAGE_COST,
            0,
            r#"{"model":"distilbert","input":"hi","task_type":"inference"}"#.to_string(),
            cost,
            Some(TaskPriority::Normal),
        )
        .unwrap();

    let t = contract.get_active_task(0).unwrap();
    assert_eq!(t.status, TaskStatus::Assigned);
    assert_eq!(t.assignee.unwrap(), "alice");
    assert_eq!(contract.get_assigned_tasks("alice").len(), 1);
}

#[test]
fn test_heartbeat_changes_only_liveness() {
    // repeated heartbeats only advance the timestamp; every other field of
    // the record stays
    let mut contract = DeAICompute::new(accounts(1));
    register_default_node(&mut contract, 2);

    let before = contract.get_node_info(&accounts(2)).unwrap();
    contract.heartbeat(&accounts(2), 1_000).unwrap();
    contract.heartbeat(&accounts(2), 2_000).unwrap();
    let after = contract.get_node_info(&accounts(2)).unwrap();

    assert_eq!(after.last_heartbeat, 2_000);
    assert!(after.is_active);
    assert_eq!(after.account_id, before.account_id);
    assert_eq!(after.stake, before.stake);
    assert_eq!(after.public_ip, before.public_ip);
    assert_eq!(after.gpu_specs, before.gpu_specs);
    assert_eq!(after.cpu_specs, before.cpu_specs);
    assert_eq!(after.api_endpoint, before.api_endpoint);
    assert_eq!(after.total_tasks_completed, before.total_tasks_completed);
    assert_eq!(after.reputation_score, before.reputation_score);
    assert_eq!(after.slashed_amount, before.slashed_amount);
    assert_eq!(after.registration_time, before.registration_time);
}

#[test]
fn test_submit_then_read_round_trip() {
    // submit-then-read yields identical fields modulo scheduling state
    let mut contract = DeAICompute::new(accounts(1));
    register_default_node(&mut contract, 2);

    let cost: u128 = 42_000_000_000_000_000_000_000;
    contract
        .submit_task(
            &accounts(3),
            cost + STORAGE_COST,
            7,
            "round trip task".to_string(),
            cost,
            Some(TaskPriority::High),
        )
        .unwrap();

    let t = contract.get_active_task(0).unwrap();
    assert_eq!(t.id, 0);
    assert_eq!(t.description, "round trip task");
    assert_eq!(t.requester, accounts(3));
    assert_eq!(t.reward_amount, cost);
    assert_eq!(t.priority, TaskPriority::High);
    assert_eq!(t.created_at, 7);
}

#[test]
fn test_deactivation_refund_after_slashing() {
    // cumulative scenario: alice completes a task, then a second task times
    // out; deactivation refunds the stake minus the slashed tenth
    let mut contract = DeAICompute::new(accounts(1));
    register_default_node(&mut contract, 2);

    let cost: u128 = 100_000_000_000_000_000_000_000;
    contract
        .submit_task(
            &accounts(3),
            cost + STORAGE_COST,
            0,
            "first".to_string(),
            cost,
            None,
        )
        .unwrap();
    contract
        .submit_result(&accounts(2), ONE_YOCTO, 0, 0, "p".to_string(), "out".to_string())
        .unwrap();

    contract
        .submit_task(
            &accounts(3),
            cost + STORAGE_COST,
            0,
            "second".to_string(),
            cost,
            None,
        )
        .unwrap();
    contract.timeout_task(ONE_YOCTO, 3_700_000_000_000, 1).unwrap();

    let node = contract.get_node_info(&accounts(2)).unwrap();
    assert_eq!(node.reputation_score, 60);
    assert_eq!(node.slashed_amount, MIN_STAKE / 10);

    let refund = contract.deactivate_node(&accounts(2), ONE_YOCTO).unwrap();
    assert_eq!(refund, MIN_STAKE - MIN_STAKE / 10);
    assert!(!contract.get_node_info(&accounts(2)).unwrap().is_active);
}

#[test]
fn test_token_conservation_across_operations() {
    // the supply always equals the distributed rewards and the sum of
    // balances, and transfers conserve it
    let mut contract = DeAICompute::new(accounts(1));
    register_default_node(&mut contract, 2);

    let cost: u128 = 5_000_000_000_000_000_000_000;
    for i in 0..3u64 {
        contract
            .submit_task(
                &accounts(3),
                cost + STORAGE_COST,
                0,
                format!("t{}", i),
                cost,
                None,
            )
            .unwrap();
        contract
            .submit_result(&accounts(2), ONE_YOCTO, 0, i, "p".to_string(), "o".to_string())
            .unwrap();
    }
    assert_eq!(contract.ft_total_supply(), 3 * cost);
    assert_eq!(contract.get_total_rewards_distributed(), 3 * cost);

    contract
        .ft_transfer(&accounts(2), ONE_YOCTO, &accounts(3), cost, None)
        .unwrap();
    assert_eq!(contract.ft_total_supply(), 3 * cost);
    assert_eq!(
        contract.ft_balance_of(&accounts(2)) + contract.ft_balance_of(&accounts(3)),
        3 * cost
    );
}

#[test]
fn test_error_variants() {
    let mut contract = DeAICompute::new(accounts(1));

    // a heartbeat from an unknown node
    assert_eq!(contract.heartbeat(&accounts(2), 0), Err(ErrorKind::NotFound));

    register_default_node(&mut contract, 2);
    let task_cost: u128 = 100_000_000_000_000_000_000_000;
    contract
        .submit_task(
            &accounts(3),
            task_cost + STORAGE_COST,
            0,
            "Test task".to_string(),
            task_cost,
            None,
        )
        .unwrap();

    // a result from a node the task is not assigned to
    let r = contract.submit_result(&accounts(4), ONE_YOCTO, 0, 0, "p".to_string(), "o".to_string());
    assert_eq!(r, Err(ErrorKind::NotAssigned));

    // a result for a task that does not exist
    let r = contract.submit_result(&accounts(2), ONE_YOCTO, 0, 9, "p".to_string(), "o".to_string());
    assert_eq!(r, Err(ErrorKind::NotFound));

    // a result after the deadline
    let r = contract.submit_result(
        &accounts(2),
        ONE_YOCTO,
        4_000_000_000_000,
        0,
        "p".to_string(),
        "o".to_string(),
    );
    assert_eq!(r, Err(ErrorKind::TaskTimedOut));

    // finish the task properly, then mis-spend the balance
    contract
        .submit_result(&accounts(2), ONE_YOCTO, 0, 0, "p".to_string(), "o".to_string())
        .unwrap();
    let r = contract.ft_transfer(&accounts(2), ONE_YOCTO, &accounts(3), task_cost + 1, None);
    assert_eq!(r, Err(ErrorKind::InsufficientBalance));
    let r = contract.ft_transfer(&accounts(2), ONE_YOCTO, "nobody", 1, None);
    assert_eq!(r, Err(ErrorKind::NotRegistered));
}

#[test]
fn test_timeout_of_queued_task_refused() {
    // a task still waiting in the queue has no deadline to miss
    let mut contract = DeAICompute::new(accounts(1));
    let task_cost: u128 = 100_000_000_000_000_000_000_000;
    contract
        .submit_task(
            &accounts(3),
            task_cost + STORAGE_COST,
            0,
            "queued".to_string(),
            task_cost,
            None,
        )
        .unwrap();
    // no node is registered, so the task stays pending
    let r = contract.timeout_task(ONE_YOCTO, 4_000_000_000_000, 0);
    assert_eq!(r.err().map(|e| e), Some(ErrorKind::TaskNotActive));
}
