use sapphillon_core::permission::{Permissions, PluginFunctionPermissions};
use sapphillon_core::error::{Error, WorkflowRuntimeErrorType};
use sapphillon_core::runtime::{
    collect_pre_scripts, route_op, script_failure, OpRoute, OpStateWorkflowData, WorkflowStdout,
};
use sapphillon_core::proto::{WorkflowResult, WorkflowStatus};
use sapphillon_core::workflow::record_run_outcome;

fn texts(d: &OpStateWorkflowData) -> Vec<String> {
    d.get_results().iter().map(|s| match s { WorkflowStdout::Stdout(t) => t.clone() }).collect()
}

#[test]
fn workflow_data_getters() {
    let mut d = OpStateWorkflowData::new("wf-1", true, None, None, vec![]);
    assert_eq!(d.get_workflow_id(), "wf-1");
    assert!(d.is_capture_stdout());
    assert!(d.get_results().is_empty());
    assert_eq!(d.stdout_to_string(), "");
    d.add_result(WorkflowStdout::Stdout("a".to_string()));
    d.add_result(WorkflowStdout::Stdout("b".to_string()));
    assert_eq!(d.stdout_to_string(), "a\nb");
    assert_eq!(texts(&d), vec!["a".to_string(), "b".to_string()]);
}

#[test]
fn ingest_skips_empty_lines() {
    let mut d = OpStateWorkflowData::new("wf", false, None, None, vec![]);
    d.ingest_stdout("x\n\ny\n");
    assert_eq!(texts(&d), vec!["x".to_string(), "y".to_string()]);
    assert_eq!(d.stdout_to_string(), "x\ny");
    d.ingest_stdout("");
    assert_eq!(texts(&d).len(), 2);
    d.ingest_stdout("z");
    assert_eq!(d.stdout_to_string(), "x\ny\nz");
    assert!(!d.is_capture_stdout());
}

#[test]
fn captured_output_round_trips_without_empty_lines() {
    let text = "first line\nsecond\nthird";
    let mut d = OpStateWorkflowData::new("wf", true, None, None, vec![]);
    d.ingest_stdout(text);
    assert_eq!(d.stdout_to_string(), text);
}

#[test]
fn script_failure_message_is_first_line() {
    match script_failure("boom\r\n  at main.js:1".to_string()) {
        Error::WorkflowRuntimeError(e) => {
            assert_eq!(e.message, "boom");
            assert_eq!(e.error_type, WorkflowRuntimeErrorType::WorkflowScriptExecuteError);
            assert_eq!(e.js_error_detail, "boom\r\n  at main.js:1");
        }
        _ => panic!("expected a runtime error"),
    }
    match script_failure(String::new()) {
        Error::WorkflowRuntimeError(e) => assert_eq!(e.message, ""),
        _ => panic!("expected a runtime error"),
    }
    match script_failure("only\r".to_string()) {
        Error::WorkflowRuntimeError(e) => assert_eq!(e.message, "only\r"),
        _ => panic!("expected a runtime error"),
    }
}

#[test]
fn routes_internal_before_external() {
    assert!(matches!(route_op("pkg::f", &["pkg::f"], &["pkg"]), OpRoute::Internal));
    match route_op("pkg::f", &["other"], &["a", "pkg", "pkg"]) {
        OpRoute::External { package_index, function_name } => {
            assert_eq!(package_index, 1);
            assert_eq!(function_name, "f");
        }
        other => panic!("unexpected route {:?}", other),
    }
    match route_op("p::a::b", &[], &["p"]) {
        OpRoute::External { package_index, function_name } => {
            assert_eq!(package_index, 0);
            assert_eq!(function_name, "a::b");
        }
        other => panic!("unexpected route {:?}", other),
    }
    assert!(matches!(route_op("nope", &[], &["nope"]), OpRoute::Unknown));
    assert!(matches!(route_op("x::y", &[], &["p"]), OpRoute::Unknown));
}

#[test]
fn pre_scripts_then_present_shims() {
    let r = collect_pre_scripts(
        Some(vec!["a".to_string()]),
        vec![Some("s1".to_string()), None, Some("s2".to_string())],
    );
    assert_eq!(r, vec!["a".to_string(), "s1".to_string(), "s2".to_string()]);
    let r = collect_pre_scripts(None, vec![None]);
    assert!(r.is_empty());
}

#[test]
fn run_outcomes_append_one_entry_each() {
    let mut results: Vec<WorkflowResult> = Vec::new();
    record_run_outcome(&mut results, Ok("out".to_string()), 12);
    record_run_outcome(&mut results, Err("bad".to_string()), 3);
    assert_eq!(results.len(), 2);
    assert_eq!(results[0].status, WorkflowStatus::Succeeded.to_i32());
    assert_eq!(results[0].stdout, "out");
    assert_eq!(results[0].duration_ms, 12);
    assert_eq!(results[0].error_message, "");
    assert_eq!(results[1].status, 1);
    assert_eq!(results[1].stdout, "");
    assert_eq!(results[1].error_message, "bad");
}

#[test]
fn workflow_data_setters() {
    let mut d = OpStateWorkflowData::new("wf-2", false, None, None, vec![]);
    d.set_capture_stdout(true);
    d.set_stdout_buf(vec![WorkflowStdout::Stdout("x".to_string())]);
    let grants = vec![PluginFunctionPermissions {
        plugin_function_id: "f".to_string(),
        permissions: Permissions::new(vec![]),
    }];
    d.set_allowed_permissions(Some(grants));
    d.set_required_permissions(None);
    d.set_external_packages(vec![]);
    assert!(d.is_capture_stdout());
    assert_eq!(texts(&d), vec!["x".to_string()]);
    assert_eq!(d.get_allowed_permissions().as_ref().map(|v| v.len()), Some(1));
    assert!(d.get_required_permissions().is_none());
    assert!(d.get_external_packages().is_empty());
    assert_eq!(d.get_workflow_id(), "wf-2");
}
