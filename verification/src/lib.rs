//! Sapphillon core rules: which permissions cover which, how permission sets
//! are normalized, how workflow output is recorded, and how plugin calls are
//! routed.
pub mod check_path;
pub mod check_url;
pub mod error;
pub mod ext_plugin;
pub mod permission;
pub mod permission_laws;
pub mod plugin;
pub mod proto;
pub mod runtime;
pub mod text;
pub mod workflow;

pub use check_path::{paths_cover_as_set, paths_cover_by_ancestor};
pub use check_url::urls_cover_by_ancestor;
pub use error::{Error, PermissionDeniedError, SapphillonError, WorkflowRuntimeError, WorkflowRuntimeErrorType};
pub use permission::{check_permission, find_allowed_permissions, CheckPermissionResult, Permissions, PluginFunctionPermissions};
pub use plugin::{CorePluginExternalFunction, CorePluginExternalPackage, PluginIdentifier};
pub use runtime::{OpStateWorkflowData, WorkflowStdout};
