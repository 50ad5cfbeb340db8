use sapphillon_core::ext_plugin::{check_function_permissions, permissions_to_wasi, FunctionSchema};
use sapphillon_core::plugin::{
    external_shim_js, extract_used_plugins, CorePluginExternalFunction, CorePluginExternalPackage,
    PackageFunctionNames, PluginIdentifier,
};
use sapphillon_core::proto::{Permission, PermissionType};
use sapphillon_core::text::decimal_i32;

fn expected_shim(pkg: &str, func: &str) -> String {
    let op_key = format!("{pkg}::{func}");
    format!(
        r#"
globalThis.Sapphillon = globalThis.Sapphillon ?? {{}};
globalThis.Sapphillon["{pkg}"] = globalThis.Sapphillon["{pkg}"] ?? {{}};
globalThis.Sapphillon["{pkg}"]["{func}"] = function(args) {{
    const raw = __sapphillon_dispatch(
        "{op_key}",
        JSON.stringify(args ?? {{}})
    );
    return JSON.parse(raw);
}};
"#
    )
}

#[test]
fn shim_text_matches_template() {
    assert_eq!(external_shim_js("fs", "read"), expected_shim("fs", "read"));
    let f = CorePluginExternalFunction {
        id: "id".to_string(),
        name: "fetch".to_string(),
        description: String::new(),
        author_id: String::new(),
        package_id: "net".to_string(),
    };
    assert_eq!(f.get_pre_run_js(), Some(expected_shim("net", "fetch")));
}

#[test]
fn external_package_new_keeps_fields() {
    let p = CorePluginExternalPackage::new("pid", "pname", vec![], "/plugins/p.wasm");
    assert_eq!(p.id, "pid");
    assert_eq!(p.name, "pname");
    assert!(p.functions.is_empty());
    assert_eq!(p.wasm_path, "/plugins/p.wasm");
}

#[test]
fn grants_are_keyed_by_function_id() {
    let f = |id: &str, name: &str| CorePluginExternalFunction {
        id: id.to_string(),
        name: name.to_string(),
        description: String::new(),
        author_id: String::new(),
        package_id: "pid".to_string(),
    };
    let p = CorePluginExternalPackage::new("pid", "pname", vec![f("id-a", "a"), f("id-b", "b"), f("id-b2", "b")], "/p.wasm");
    assert_eq!(p.grant_key("b"), "id-b");
    assert_eq!(p.grant_key("a"), "id-a");
    assert_eq!(p.grant_key("c"), "c");
}

#[test]
fn used_plugins_found_in_both_forms() {
    let pkgs = vec![
        PackageFunctionNames {
            package_id: "p1".to_string(),
            package_name: "fs".to_string(),
            function_names: vec!["read".to_string(), "write".to_string()],
        },
        PackageFunctionNames {
            package_id: "p2".to_string(),
            package_name: "net".to_string(),
            function_names: vec!["fetch".to_string()],
        },
    ];
    let code = "const a = Sapphillon.fs.read('/x'); Sapphillon[\"net\"][\"fetch\"](u);";
    let found = extract_used_plugins(code, &pkgs);
    assert_eq!(
        found,
        vec![
            PluginIdentifier { package_id: "p1".to_string(), function_name: "read".to_string() },
            PluginIdentifier { package_id: "p2".to_string(), function_name: "fetch".to_string() },
        ]
    );
    assert!(extract_used_plugins("nothing here", &pkgs).is_empty());
}

#[test]
fn wasi_capabilities_from_grants() {
    let perms = vec![
        Permission::new(PermissionType::FilesystemRead, "/data"),
        Permission::new(PermissionType::NetworkAccess, "example.com"),
        Permission::new(PermissionType::Unspecified, "ignored"),
        Permission::new(PermissionType::FilesystemWrite, "/out"),
        Permission::new(PermissionType::AllowAll, ""),
    ];
    let (paths, hosts) = permissions_to_wasi(&perms);
    assert_eq!(paths, vec!["/data".to_string(), "/out".to_string(), "/".to_string()]);
    assert_eq!(hosts, vec!["example.com".to_string(), "*".to_string()]);
}

#[test]
fn wasi_paths_are_opened_once() {
    let perms = vec![
        Permission::new(PermissionType::FilesystemRead, "/data"),
        Permission::new(PermissionType::FilesystemWrite, "/data"),
        Permission::new(PermissionType::AllowAll, ""),
        Permission::new(PermissionType::FilesystemRead, "/"),
        Permission::new(PermissionType::AllowAll, ""),
    ];
    let (paths, hosts) = permissions_to_wasi(&perms);
    assert_eq!(paths, vec!["/data".to_string(), "/".to_string()]);
    assert_eq!(hosts, vec!["*".to_string(), "*".to_string()]);
}

fn schema(types: Vec<i32>) -> FunctionSchema {
    FunctionSchema {
        required_permission_types: types,
        description: String::new(),
        parameters: vec![],
        returns: vec![],
    }
}

#[test]
fn function_permission_check() {
    let granted = vec![Permission::new(PermissionType::FilesystemRead, "/a")];
    assert!(check_function_permissions(&schema(vec![4]), &granted).is_ok());
    assert!(check_function_permissions(&schema(vec![]), &[]).is_ok());
    let all = vec![Permission::new(PermissionType::AllowAll, "")];
    assert!(check_function_permissions(&schema(vec![4, 5, 6]), &all).is_ok());
    let denied = check_function_permissions(&schema(vec![4, 6, -3]), &granted).unwrap_err();
    assert_eq!(denied.required, vec!["PermissionType(6)".to_string(), "PermissionType(-3)".to_string()]);
    assert_eq!(denied.granted, vec!["PermissionType(4)".to_string()]);
}

#[test]
fn decimal_rendering() {
    assert_eq!(decimal_i32(0), "0");
    assert_eq!(decimal_i32(42), "42");
    assert_eq!(decimal_i32(-7), "-7");
    assert_eq!(decimal_i32(i32::MAX), i32::MAX.to_string());
    assert_eq!(decimal_i32(i32::MIN), i32::MIN.to_string());
}
