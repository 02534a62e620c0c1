use std::sync::Arc;

use query_engine::catalog::table::{check_mutable, DummyColumnStatisticsProvider, TableStatistics};
use query_engine::cloud_control::cloud_api::{
    CloudControlApiProvider, TaskClient, CLOUD_REQUEST_TIMEOUT_SEC, QUERY_ID, REQUESTER, TENANT_ID,
};
use query_engine::ee::enterprise_services::{EnterpriseService, EnterpriseServices};
use query_engine::exception::ErrorCode;
use query_engine::metrics::http::{
    metrics_incr_http_request_count, metrics_incr_http_response_errors_count,
    metrics_incr_http_response_panics_count, metrics_incr_http_slow_request_count, HttpMetrics,
};
use query_engine::planners::plan_node::{ExpressionPlan, PlanNode};
use query_engine::planners::plan_sort::SortPlan;
use query_engine::plans::copy_into_table::{CopyIntoTableMode, ValidationMode};

fn labels(pairs: &[(&str, &str)]) -> Vec<(String, String)> {
    pairs.iter().map(|(k, v)| (k.to_string(), v.to_string())).collect()
}

#[test]
fn requests_are_counted_per_label_set() {
    let mut metrics = HttpMetrics::new();
    metrics_incr_http_request_count(&mut metrics, "GET".into(), "/v1/query".into(), "200".into());
    metrics_incr_http_request_count(&mut metrics, "GET".into(), "/v1/query".into(), "200".into());
    metrics_incr_http_request_count(&mut metrics, "POST".into(), "/v1/query".into(), "200".into());
    let get = labels(&[("method", "GET"), ("api", "/v1/query"), ("status", "200")]);
    let post = labels(&[("method", "POST"), ("api", "/v1/query"), ("status", "200")]);
    let other = labels(&[("method", "GET"), ("api", "/v1/query"), ("status", "500")]);
    assert_eq!(metrics.query_http_requests_count.get(&get), 2);
    assert_eq!(metrics.query_http_requests_count.get(&post), 1);
    assert_eq!(metrics.query_http_requests_count.get(&other), 0);
    assert_eq!(metrics.query_http_slow_requests_count.get(&get), 0);
    assert_eq!(metrics.query_http_response_panics_count.get(), 0);
}

#[test]
fn slow_requests_have_a_family_of_their_own() {
    let mut metrics = HttpMetrics::new();
    metrics_incr_http_slow_request_count(&mut metrics, "GET".into(), "/v1/status".into(), "200".into());
    let key = labels(&[("method", "GET"), ("api", "/v1/status"), ("status", "200")]);
    assert_eq!(metrics.query_http_slow_requests_count.get(&key), 1);
    assert_eq!(metrics.query_http_requests_count.get(&key), 0);
}

#[test]
fn error_responses_are_labelled_with_the_code_in_decimal() {
    let mut metrics = HttpMetrics::new();
    metrics_incr_http_response_errors_count(&mut metrics, "timeout".into(), 404);
    metrics_incr_http_response_errors_count(&mut metrics, "timeout".into(), 404);
    metrics_incr_http_response_errors_count(&mut metrics, "timeout".into(), 0);
    metrics_incr_http_response_errors_count(&mut metrics, "timeout".into(), 65535);
    let family = &metrics.query_http_response_errors_count;
    assert_eq!(family.get(&labels(&[("err", "timeout"), ("code", "404")])), 2);
    assert_eq!(family.get(&labels(&[("err", "timeout"), ("code", "0")])), 1);
    assert_eq!(family.get(&labels(&[("err", "timeout"), ("code", "65535")])), 1);
    assert_eq!(family.get(&labels(&[("err", "timeout"), ("code", "0404")])), 0);
    assert_eq!(family.get(&labels(&[("code", "404"), ("err", "timeout")])), 0);
}

#[test]
fn panics_are_counted() {
    let mut metrics = HttpMetrics::new();
    metrics_incr_http_response_panics_count(&mut metrics);
    metrics_incr_http_response_panics_count(&mut metrics);
    metrics_incr_http_response_panics_count(&mut metrics);
    assert_eq!(metrics.query_http_response_panics_count.get(), 3);
}

#[test]
fn a_read_only_table_refuses_mutation() {
    assert!(check_mutable(false, "t1").is_ok());
    match check_mutable(true, "t1") {
        Err(ErrorCode::InvalidOperation(msg)) => {
            assert_eq!(msg, "Mutation not allowed, table [t1] is READ ONLY.")
        }
        other => panic!("unexpected result: {other:?}"),
    }
}

#[test]
fn the_dummy_provider_knows_nothing() {
    let provider = DummyColumnStatisticsProvider;
    assert!(provider.column_statistics(0).is_none());
    assert!(provider.column_statistics(7).is_none());
    assert!(provider.num_rows().is_none());
    let stats = TableStatistics::default();
    assert!(stats.num_rows.is_none());
    assert!(stats.number_of_segments.is_none());
}

#[test]
fn services_start_in_order_with_the_license_manager_first() {
    let expected = [
        EnterpriseService::LicenseManager,
        EnterpriseService::StorageEncryption,
        EnterpriseService::Vacuum,
        EnterpriseService::AggregatingIndex,
        EnterpriseService::DataMask,
        EnterpriseService::BackgroundService,
        EnterpriseService::VirtualColumn,
    ];
    for (started, service) in expected.iter().enumerate() {
        assert_eq!(EnterpriseServices::next_to_init(started), Some(*service));
    }
    assert_eq!(EnterpriseServices::next_to_init(7), None);
    assert_eq!(EnterpriseServices::next_to_init(usize::MAX), None);
}

#[test]
fn a_sort_plan_hands_out_and_replaces_its_input() {
    let source = PlanNode::ReadSource { db: "db".into(), table: "t".into() };
    let mut plan = SortPlan {
        order_by: vec![ExpressionPlan::Sort { column: "a".into(), asc: true, nulls_first: false }],
        input: Arc::new(PlanNode::Empty),
    };
    assert!(matches!(*plan.input(), PlanNode::Empty));
    let limit = PlanNode::Limit { n: 10, input: Arc::new(source) };
    assert!(plan.set_input(&limit).is_ok());
    match &*plan.input() {
        PlanNode::Limit { n, input } => {
            assert_eq!(*n, 10);
            match &**input {
                PlanNode::ReadSource { db, table } => {
                    assert_eq!(db, "db");
                    assert_eq!(table, "t");
                }
                _ => panic!("the input of the limit changed"),
            }
        }
        _ => panic!("the input was not replaced"),
    }
    assert_eq!(plan.order_by.len(), 1);
    let first = plan.input();
    let second = plan.input();
    assert!(Arc::ptr_eq(&first, &second));
}

#[test]
fn the_provider_shares_one_task_client() {
    let client = TaskClient::new("http://127.0.0.1:8080".to_string());
    assert_eq!(client.endpoint, "http://127.0.0.1:8080");
    assert_eq!(client.connect_timeout_sec, 5);
    assert_eq!(CLOUD_REQUEST_TIMEOUT_SEC, 5);
    assert_eq!(TENANT_ID, "X-DATABEND-TENANT");
    assert_eq!(REQUESTER, "X-DATABEND-USER");
    assert_eq!(QUERY_ID, "X-DATABEND-QUERY-ID");
    let provider = CloudControlApiProvider { task_client: Arc::new(client) };
    let a = provider.get_task_client();
    let b = provider.get_task_client();
    assert!(Arc::ptr_eq(&a, &b));
    assert!(Arc::ptr_eq(&a, &provider.task_client));
}

#[test]
fn validation_modes_are_read_whatever_their_case() {
    assert_eq!(ValidationMode::from_str(""), Ok(ValidationMode::NoValidation));
    assert_eq!(ValidationMode::from_str("return_errors"), Ok(ValidationMode::ReturnErrors));
    assert_eq!(ValidationMode::from_str("RETURN_ERRORS"), Ok(ValidationMode::ReturnErrors));
    assert_eq!(ValidationMode::from_str("Return_All_Errors"), Ok(ValidationMode::ReturnAllErrors));
    assert_eq!(ValidationMode::from_str("RETURN_5_ROWS"), Ok(ValidationMode::ReturnNRows(5)));
    assert_eq!(ValidationMode::from_str("return_120_rows"), Ok(ValidationMode::ReturnNRows(120)));
    assert_eq!(ValidationMode::from_str("7"), Ok(ValidationMode::ReturnNRows(7)));
}

#[test]
fn an_unknown_validation_mode_is_quoted_in_the_error() {
    assert_eq!(
        ValidationMode::from_str("return_some_rows"),
        Err(
            "Unknown validation mode:\"RETURN_SOME_ROWS\", must one of { RETURN_<n>_ROWS | RETURN_ERRORS | RETURN_ALL_ERRORS}"
                .to_string()
        )
    );
    assert!(ValidationMode::from_str("RETURN_-1_ROWS").is_err());
    assert!(ValidationMode::from_str("RETURN__ROWS").is_err());
}

#[test]
fn the_parts_of_a_validation_mode_decide_it() {
    assert_eq!(
        ValidationMode::from_parts(&"".to_string(), None),
        Some(ValidationMode::NoValidation)
    );
    assert_eq!(
        ValidationMode::from_parts(&"RETURN_ERRORS".to_string(), Some(3)),
        Some(ValidationMode::ReturnErrors)
    );
    assert_eq!(
        ValidationMode::from_parts(&"RETURN_ALL_ERRORS".to_string(), None),
        Some(ValidationMode::ReturnAllErrors)
    );
    assert_eq!(
        ValidationMode::from_parts(&"RETURN_3_ROWS".to_string(), Some(3)),
        Some(ValidationMode::ReturnNRows(3))
    );
    assert_eq!(ValidationMode::from_parts(&"return_errors".to_string(), None), None);
}

#[test]
fn only_an_overwriting_insert_overwrites() {
    assert!(CopyIntoTableMode::Insert { overwrite: true }.is_overwrite());
    assert!(!CopyIntoTableMode::Insert { overwrite: false }.is_overwrite());
    assert!(!CopyIntoTableMode::Replace.is_overwrite());
    assert!(!CopyIntoTableMode::Copy.is_overwrite());
}
