use sapphillon_core::error::{Error, PermissionDeniedError, WorkflowRuntimeError, WorkflowRuntimeErrorType};
use sapphillon_core::permission::Permissions;
use sapphillon_core::proto::{Permission, PermissionType};

#[test]
fn runtime_error_message() {
    let e = WorkflowRuntimeError {
        message: "boom".to_string(),
        error_type: WorkflowRuntimeErrorType::WorkflowScriptExecuteError,
        js_error_detail: "boom\n  at <eval>".to_string(),
    };
    assert_eq!(e.to_message(), "WorkflowScriptExecuteError: boom");
    assert_eq!(
        Error::WorkflowRuntimeError(e).to_message(),
        "workflow runtime error: WorkflowScriptExecuteError: boom"
    );
}

#[test]
fn permission_denied_message_matches_debug_rendering() {
    let requested = Permissions::new(vec![
        Permission::new(PermissionType::FilesystemRead, "/a \"q\" \\ \n\t\u{1}\u{7f}é"),
        Permission { permission_type: -12, resource: String::new() },
        Permission::new(PermissionType::NetworkAccess, "it's a\u{301}b\u{85}\u{ad}\u{200b}\u{1f600}\u{e000}"),
    ]);
    let granted = Permissions::new(vec![]);
    let expected = format!("permission denied — requested: {:?}, granted: {:?}", requested, granted);
    let e = PermissionDeniedError { requested, granted };
    assert_eq!(e.to_message(), expected);
    assert_eq!(Error::PermissionDeniedError(e).to_message(), format!("permission denied: {}", expected));
}

#[test]
fn permission_denied_message_exact_text() {
    let e = PermissionDeniedError {
        requested: Permissions::new(vec![Permission::new(PermissionType::NetworkAccess, "https://x.org")]),
        granted: Permissions::new(vec![
            Permission::new(PermissionType::FilesystemRead, "/a"),
            Permission::new(PermissionType::FilesystemWrite, "/b"),
        ]),
    };
    assert_eq!(
        e.to_message(),
        "permission denied — requested: Permissions { permissions: [Permission { permission_type: 6, resource: \"https://x.org\" }] }, granted: Permissions { permissions: [Permission { permission_type: 4, resource: \"/a\" }, Permission { permission_type: 5, resource: \"/b\" }] }"
    );
}

#[test]
fn non_ascii_escapes_follow_debug() {
    let requested = Permissions::new(vec![Permission::new(PermissionType::FilesystemRead, "\u{301}x\u{85}")]);
    let granted = Permissions::new(vec![]);
    let e = PermissionDeniedError { requested, granted };
    assert_eq!(
        e.to_message(),
        "permission denied — requested: Permissions { permissions: [Permission { permission_type: 4, resource: \"\\u{301}x\\u{85}\" }] }, granted: Permissions { permissions: [] }"
    );
}
