use proving_api::circuit::CircuitType;
use proving_api::schema::{ProveResponse, QueryTaskResponse, TimeSec, CIRCUIT_VERSION_0_13};
use proving_api::status::TaskStatus;

fn queued_response() -> ProveResponse {
    ProveResponse {
        task_id: "task-1".to_string(),
        circuit_type: CircuitType::Chunk,
        circuit_version: CIRCUIT_VERSION_0_13.to_string(),
        hard_fork_name: "euclidV2".to_string(),
        status: TaskStatus::Queued,
        created_at: TimeSec { micros: 1_700_000_000_000_000 },
        started_at: None,
        finished_at: None,
        compute_time_sec: None,
        input: Some("<detail>".to_string()),
        proof: None,
        vk: None,
        error: None,
    }
}

fn snapshot(status: TaskStatus) -> QueryTaskResponse {
    let terminal = matches!(status, TaskStatus::Success | TaskStatus::Failed);
    QueryTaskResponse {
        task_id: "task-1".to_string(),
        circuit_type: CircuitType::Chunk,
        circuit_version: CIRCUIT_VERSION_0_13.to_string(),
        hard_fork_name: "euclidV2".to_string(),
        status,
        created_at: TimeSec { micros: 1_700_000_000_000_000 },
        started_at: if matches!(status, TaskStatus::Queued) {
            None
        } else {
            Some(TimeSec { micros: 1_700_000_001_000_000 })
        },
        finished_at: if terminal { Some(TimeSec { micros: 1_700_000_009_500_000 }) } else { None },
        compute_time_sec: if terminal { Some(TimeSec { micros: 8_500_000 }) } else { None },
        input: None,
        proof: if matches!(status, TaskStatus::Success) { Some("proof".to_string()) } else { None },
        vk: if matches!(status, TaskStatus::Success) { Some("vk".to_string()) } else { None },
        error: if matches!(status, TaskStatus::Failed) {
            Some("prover crashed".to_string())
        } else {
            None
        },
    }
}

#[test]
fn submitted_task_snapshot_is_queued() {
    let r = queued_response();
    assert!(r.validate());
    assert!(!r.task_id.is_empty());
    assert_eq!(r.status, TaskStatus::Queued);
    assert!(r.started_at.is_none());
    assert!(r.finished_at.is_none());
    assert!(r.error.is_none());
    assert!(!r.has_error());
}

#[test]
fn queued_snapshot_with_error_is_rejected() {
    let mut r = queued_response();
    r.error = Some("boom".to_string());
    assert!(!r.validate());
    let mut r2 = queued_response();
    r2.task_id = String::new();
    assert!(!r2.validate());
}

#[test]
fn completed_task_snapshot_carries_proof_and_ordered_times() {
    let r = snapshot(TaskStatus::Success);
    assert!(r.validate());
    assert!(r.proof.is_some());
    assert!(r.vk.is_some());
    assert!(r.error.is_none());
    let started = r.started_at.unwrap();
    let finished = r.finished_at.unwrap();
    assert!(r.created_at.le(started));
    assert!(started.le(finished));
}

#[test]
fn failed_task_snapshot_carries_nonempty_error_and_no_proof() {
    let r = snapshot(TaskStatus::Failed);
    assert!(r.validate());
    let err = r.error.clone().unwrap();
    assert!(!err.is_empty());
    assert!(r.proof.is_none());
    assert!(r.vk.is_none());
}

#[test]
fn failed_snapshot_with_empty_error_is_rejected() {
    let mut r = snapshot(TaskStatus::Failed);
    r.error = Some(String::new());
    assert!(!r.validate());
}

#[test]
fn success_snapshot_without_proof_is_rejected() {
    let mut r = snapshot(TaskStatus::Success);
    r.proof = None;
    assert!(!r.validate());
}

#[test]
fn drifting_compute_time_is_rejected() {
    let mut r = snapshot(TaskStatus::Success);
    assert!(r.validate());
    // The span is 8.5 s; a reported compute time within one second passes...
    r.compute_time_sec = Some(TimeSec { micros: 9_400_000 });
    assert!(r.validate());
    // ...but one two seconds off does not.
    r.compute_time_sec = Some(TimeSec { micros: 10_600_000 });
    assert!(!r.validate());
    r.compute_time_sec = Some(TimeSec { micros: 7_400_000 });
    assert!(!r.validate());
}

#[test]
fn unordered_timestamps_are_rejected() {
    let mut r = snapshot(TaskStatus::Proving);
    assert!(r.validate());
    r.started_at = Some(TimeSec { micros: 1 });
    assert!(!r.validate());
}

#[test]
fn status_names_round_trip() {
    for s in [TaskStatus::Queued, TaskStatus::Proving, TaskStatus::Success, TaskStatus::Failed] {
        assert_eq!(TaskStatus::from_name(s.name()).unwrap(), s);
    }
    assert!(TaskStatus::from_name("queued").is_err());
    assert!(TaskStatus::from_name("").is_err());
    assert!(TaskStatus::from_name("Done").is_err());
}
