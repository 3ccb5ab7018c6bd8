//! Tests of the node agent's decision logic: validation, health, the
//! concurrency gate, heartbeat back-off and stake parsing.

use compute_deai::agent::{
    parse_stake_amount, should_execute, AiEngine, HealthStatus, HeartbeatAction, HeartbeatManager,
    TaskDescription, TaskExecution, TaskInfo, TaskProcessor,
};
use compute_deai::node_config::NodeConfig;

fn create_test_config() -> NodeConfig {
    let mut config = NodeConfig::create_default();
    config.ai.python_path = "/usr/bin/python3".to_string();
    config.ai.models_cache_dir = "./test_models_cache".to_string();
    config.hardware.max_concurrent_tasks = 2;
    config
}

fn create_test_task() -> TaskInfo {
    TaskInfo {
        id: 1,
        description:
            r#"{"model": "bert-base-uncased", "input": "test input", "task_type": "inference"}"#
                .to_string(),
        assignee: Some("test.testnet".to_string()),
        status: "Assigned".to_string(),
        created_at: 1234567890,
        reward_amount: "1000".to_string(),
        requester: "user.testnet".to_string(),
    }
}

#[test]
fn ai_engine_test_validate_task() {
    let mut config = create_test_config();
    config.ai.supported_frameworks = vec!["pytorch".to_string(), "transformers".to_string()];
    let engine = AiEngine::new(&config);

    let valid_task = TaskDescription {
        model: "bert-base-uncased".to_string(),
        input: "test input".to_string(),
        task_type: "inference".to_string(),
        parameters: None,
    };
    assert!(engine.validate_task(&valid_task).is_ok());

    let invalid_task = TaskDescription {
        model: "".to_string(),
        input: "test input".to_string(),
        task_type: "invalid_type".to_string(),
        parameters: None,
    };
    assert!(engine.validate_task(&invalid_task).is_err());
}

#[test]
fn task_processor_test_validate_task() {
    let config = create_test_config();
    let processor = TaskProcessor::new(&config);

    let valid_task = create_test_task();
    assert!(processor.validate_task(&valid_task).is_ok());

    let mut invalid_task = create_test_task();
    invalid_task.description = "invalid json".to_string();
    assert!(processor.validate_task(&invalid_task).is_err());
}

#[test]
fn test_validate_task_rejects_missing_fields() {
    let config = create_test_config();
    let processor = TaskProcessor::new(&config);

    let mut task = create_test_task();
    task.description = r#"{"model": "m", "input": "i"}"#.to_string();
    assert!(processor.validate_task(&task).is_err());

    task.description = r#"{"model": "m", "input": "i", "task_type": "sorcery"}"#.to_string();
    assert!(processor.validate_task(&task).is_err());

    task.description = r#"{"model": "m", "input": "i", "task_type": "embedding"}"#.to_string();
    assert!(processor.validate_task(&task).is_ok());
}

#[test]
fn test_validate_execution_result() {
    let config = create_test_config();
    let processor = TaskProcessor::new(&config);

    let valid_result = TaskExecution {
        proof_hash: "a".repeat(64),
        output: r#"{"result": "test", "timestamp": 1234567890}"#.to_string(),
    };
    assert!(processor.validate_execution_result(&valid_result).is_ok());

    let short_hash = TaskExecution {
        proof_hash: "a".repeat(63),
        output: r#"{"result": "test"}"#.to_string(),
    };
    assert!(processor.validate_execution_result(&short_hash).is_err());

    let bad_hex = TaskExecution {
        proof_hash: "z".repeat(64),
        output: r#"{"result": "test"}"#.to_string(),
    };
    assert!(processor.validate_execution_result(&bad_hex).is_err());

    let bad_json = TaskExecution {
        proof_hash: "a".repeat(64),
        output: "not valid json".to_string(),
    };
    assert!(processor.validate_execution_result(&bad_json).is_err());
}

#[test]
fn test_capacity_management() {
    let config = create_test_config();
    let mut processor = TaskProcessor::new(&config);

    assert_eq!(processor.get_current_load(), 0);
    assert!(!processor.is_at_capacity());

    assert!(processor.try_acquire());
    assert!(processor.try_acquire());
    assert!(processor.is_at_capacity());
    assert!(!processor.try_acquire());
    assert_eq!(processor.get_current_load(), 2);

    processor.release();
    assert_eq!(processor.get_current_load(), 1);
    assert!(!processor.is_at_capacity());
}

#[test]
fn test_heartbeat_manager_creation() {
    let manager = HeartbeatManager::new();
    assert_eq!(manager.interval_seconds, 60);
    assert_eq!(manager.max_retries, 3);

    let manager = HeartbeatManager::new().with_interval(10).with_max_retries(5);
    assert_eq!(manager.interval_seconds, 10);
    assert_eq!(manager.max_retries, 5);
}

#[test]
fn test_heartbeat_backoff() {
    let mut manager = HeartbeatManager::new().with_max_retries(3);

    assert_eq!(manager.note_outcome(false), HeartbeatAction::Proceed);
    assert_eq!(manager.note_outcome(false), HeartbeatAction::Proceed);
    assert_eq!(manager.note_outcome(false), HeartbeatAction::CoolDown);
    assert_eq!(manager.consecutive_failures, 0);

    assert_eq!(manager.note_outcome(true), HeartbeatAction::Proceed);
    assert_eq!(manager.consecutive_failures, 0);

    assert!(manager.needs_warning(301));
    assert!(!manager.needs_warning(300));
}

#[test]
fn test_health_status_healthy() {
    let healthy_status = HealthStatus {
        is_registered: true,
        is_active: true,
        network_latency_ms: 100,
        last_heartbeat_age_seconds: 60,
        reputation_score: 100,
        total_tasks_completed: 10,
        current_stake: "1000000000000000000000000".to_string(),
    };

    assert!(healthy_status.is_healthy());
    assert!(healthy_status.get_issues().is_empty());
}

#[test]
fn test_health_status_unhealthy() {
    let unhealthy_status = HealthStatus {
        is_registered: false,
        is_active: false,
        network_latency_ms: 15000,
        last_heartbeat_age_seconds: 600,
        reputation_score: 30,
        total_tasks_completed: 0,
        current_stake: "0".to_string(),
    };

    assert!(!unhealthy_status.is_healthy());
    let issues = unhealthy_status.get_issues();
    assert!(issues.len() > 0);
    assert!(issues.iter().any(|i| i.contains("not registered")));
    assert!(issues.iter().any(|i| i.contains("inactive")));
    assert!(issues.iter().any(|i| i.contains("latency")));
    assert!(issues.iter().any(|i| i.contains("heartbeat too old")));
    assert!(issues.iter().any(|i| i.contains("reputation")));
}

#[test]
fn test_should_execute_only_assigned() {
    let mut task = create_test_task();
    assert!(should_execute(&task));
    task.status = "InProgress".to_string();
    assert!(!should_execute(&task));
}

#[test]
fn test_parse_stake_amount() {
    assert_eq!(
        parse_stake_amount("1.0"),
        Some(1_000_000_000_000_000_000_000_000)
    );
    assert_eq!(
        parse_stake_amount("1"),
        Some(1_000_000_000_000_000_000_000_000)
    );
    assert_eq!(
        parse_stake_amount("2.5"),
        Some(2_500_000_000_000_000_000_000_000)
    );
    assert_eq!(
        parse_stake_amount("0.000000000000000000000001"),
        Some(1)
    );
    assert_eq!(parse_stake_amount(""), None);
    assert_eq!(parse_stake_amount("1."), None);
    assert_eq!(parse_stake_amount(".5"), None);
    assert_eq!(parse_stake_amount("1.0.0"), None);
    assert_eq!(parse_stake_amount("abc"), None);
    assert_eq!(parse_stake_amount("1.0000000000000000000000001"), None);
}

#[test]
fn test_config_validation() {
    let valid_config = create_test_config();
    assert!(valid_config.validate().is_ok());

    let mut invalid_config = valid_config.clone();
    invalid_config.node.account_id = "".to_string();
    assert!(invalid_config.validate().is_err());
}
