use strategy::optimization::{OptimizationRequest, OptimizationService, OptimizationStatus};
use strategy::options::{ObjectiveMetric, OptimizationMethod};

fn make_request(id: &str, method: OptimizationMethod) -> OptimizationRequest {
    OptimizationRequest {
        id: id.to_string(),
        strategy_type: "test".to_string(),
        param_space: serde_json::from_str(r#"{"x": {"type": "discrete", "values": [1.0, 2.0, 3.0]}}"#).unwrap(),
        method,
        max_iter: 5,
        objective: ObjectiveMetric::SharpeRatio,
    }
}

#[test]
fn submit_job_stores_pending() {
    let mut svc = OptimizationService::<f64>::new();
    let id = svc.submit(make_request("job1", OptimizationMethod::Grid));
    assert_eq!(id, "job1");
    let status = svc.get_status("job1").unwrap();
    assert!(matches!(status.status, OptimizationStatus::Pending));
    assert_eq!(status.total_iterations, 5);
    assert_eq!(status.iterations_completed, 0);
}

#[test]
fn cancel_job_marks_failed() {
    let mut svc = OptimizationService::<f64>::new();
    svc.submit(make_request("job3", OptimizationMethod::Grid));
    let cancelled = svc.cancel_job("job3");
    assert!(cancelled);
    let resp = svc.get_status("job3").unwrap();
    assert!(matches!(&resp.status, OptimizationStatus::Failed(msg) if msg == "cancelled"));
}

#[test]
fn cancel_nonexistent_returns_false() {
    let mut svc = OptimizationService::<f64>::new();
    assert!(!svc.cancel_job("nonexistent"));
}

#[test]
fn list_jobs_returns_all() {
    let mut svc = OptimizationService::<f64>::new();
    svc.submit(make_request("j1", OptimizationMethod::Grid));
    svc.submit(make_request("j2", OptimizationMethod::Bayesian));
    let jobs = svc.list_jobs();
    assert_eq!(jobs.len(), 2);
    assert!(jobs.contains(&"j1".to_string()));
    assert!(jobs.contains(&"j2".to_string()));
}

#[test]
fn run_job_not_found_returns_error() {
    let mut svc = OptimizationService::<f64>::new();
    let result = svc.start_job("nonexistent");
    assert_eq!(result, Err("Job 'nonexistent' not found".to_string()));
}

#[test]
fn job_lifecycle_runs_to_completed() {
    let mut svc = OptimizationService::<f64>::new();
    svc.submit(make_request("job2", OptimizationMethod::Random));
    svc.start_job("job2").unwrap();
    assert!(matches!(svc.get_status("job2").unwrap().status, OptimizationStatus::Running));
    svc.complete_job("job2", Some(3.0), 3, Vec::new());
    let resp = svc.get_status("job2").unwrap();
    assert!(matches!(resp.status, OptimizationStatus::Completed));
    assert_eq!(resp.best, Some(3.0));
    assert_eq!(resp.iterations_completed, 3);
    assert_eq!(resp.total_iterations, 5);
    assert_eq!(svc.get_request("job2").unwrap().max_iter, 5);
}

#[test]
fn list_jobs_is_in_code_point_order_and_resubmission_replaces() {
    let mut svc = OptimizationService::<f64>::new();
    svc.submit(make_request("b", OptimizationMethod::Grid));
    svc.submit(make_request("a", OptimizationMethod::Grid));
    svc.cancel_job("b");
    svc.submit(make_request("b", OptimizationMethod::Grid));
    assert_eq!(svc.list_jobs(), vec!["a".to_string(), "b".to_string()]);
    assert!(matches!(svc.get_status("b").unwrap().status, OptimizationStatus::Pending));
    assert!(svc.get_status("c").is_none());
}
