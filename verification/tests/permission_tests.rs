use sapphillon_core::permission::{
    check_permission, find_allowed_permissions, CheckPermissionResult, Permissions,
    PluginFunctionPermissions,
};
use sapphillon_core::proto::{Permission, PermissionType};

fn fs_read(path: &str) -> Permission {
    Permission::new(PermissionType::FilesystemRead, path)
}
fn fs_write(path: &str) -> Permission {
    Permission::new(PermissionType::FilesystemWrite, path)
}
fn net(url: &str) -> Permission {
    Permission::new(PermissionType::NetworkAccess, url)
}
fn allow_all() -> Permission {
    Permission::new(PermissionType::AllowAll, "")
}

#[test]
fn allow_all_covers_everything() {
    let granted = Permissions::new(vec![allow_all()]);
    let required = Permissions::new(vec![fs_read("/secret"), net("https://evil.com")]);
    assert!(matches!(check_permission(&granted, &required), CheckPermissionResult::Granted));
}

#[test]
fn ancestor_path_covers_child() {
    let granted = Permissions::new(vec![fs_read("/data")]);
    let required = Permissions::new(vec![fs_read("/data/file.txt")]);
    assert!(matches!(check_permission(&granted, &required), CheckPermissionResult::Granted));
}

#[test]
fn sibling_path_missing() {
    let granted = Permissions::new(vec![fs_read("/data/a")]);
    let required = Permissions::new(vec![fs_read("/data/b/file.txt")]);
    assert!(matches!(
        check_permission(&granted, &required),
        CheckPermissionResult::MissingPermission(_)
    ));
}

#[test]
fn merge_collapses_allow_all() {
    let p = Permissions::new(vec![fs_read("/tmp"), allow_all()]).merge();
    assert_eq!(p.permissions.len(), 1);
    assert_eq!(p.permissions[0].kind(), PermissionType::AllowAll);
}

#[test]
fn missing_permission_lists_exactly_the_uncovered() {
    let granted = Permissions::new(vec![fs_read("/data"), net("https://example.com/api")]);
    let required = Permissions::new(vec![
        fs_read("/data/x"),
        fs_read("/etc/passwd"),
        net("https://example.com/api/v1"),
        net("https://other.com/"),
        fs_write("/data/x"),
    ]);
    match check_permission(&granted, &required) {
        CheckPermissionResult::MissingPermission(m) => {
            assert_eq!(
                m.permissions,
                vec![fs_read("/etc/passwd"), net("https://other.com/"), fs_write("/data/x")]
            );
        }
        CheckPermissionResult::Granted => panic!("expected missing permissions"),
    }
}

#[test]
fn empty_required_is_granted() {
    let granted = Permissions::new(vec![]);
    let required = Permissions::new(vec![]);
    assert!(matches!(check_permission(&granted, &required), CheckPermissionResult::Granted));
}

#[test]
fn other_types_match_by_wire_value() {
    let granted = Permissions::new(vec![Permission { permission_type: 9, resource: "x".to_string() }]);
    let required = Permissions::new(vec![Permission { permission_type: 9, resource: "y".to_string() }]);
    assert!(matches!(check_permission(&granted, &required), CheckPermissionResult::Granted));
    let required = Permissions::new(vec![Permission { permission_type: 7, resource: "y".to_string() }]);
    assert!(matches!(
        check_permission(&granted, &required),
        CheckPermissionResult::MissingPermission(_)
    ));
}

#[test]
fn merge_drops_subsumed_and_orders_by_kind() {
    let p = Permissions::new(vec![
        net("https://example.com/api/v1"),
        fs_write("/data/out"),
        fs_read("/data/a/b"),
        net("https://example.com/api"),
        fs_read("/data"),
        Permission { permission_type: 0, resource: "ignored".to_string() },
    ])
    .merge();
    assert_eq!(
        p.permissions,
        vec![fs_read("/data"), fs_write("/data/out"), net("https://example.com/api")]
    );
}

#[test]
fn merge_collapses_duplicates_of_the_same_resource() {
    let p = Permissions::new(vec![fs_read("/tmp"), fs_read("/tmp")]).merge();
    assert_eq!(p.permissions, vec![fs_read("/tmp")]);
    let u = Permissions::new(vec![net("not a url"), net("not a url")]).merge();
    assert_eq!(u.permissions, vec![net("not a url")]);
}

#[test]
fn merge_keeps_the_first_of_mutually_covering_spellings() {
    // "/a" and "/a/" name the same directory and each covers the other.
    let p = Permissions::new(vec![fs_read("/a"), fs_read("/a/")]).merge();
    assert_eq!(p.permissions, vec![fs_read("/a")]);
    let q = Permissions::new(vec![fs_read("/a/"), fs_read("/x/y"), fs_read("/a"), fs_read("/x")]).merge();
    assert_eq!(q.permissions, vec![fs_read("/a/"), fs_read("/x")]);
    let n = Permissions::new(vec![net("https://h.org/p/"), net("https://h.org/p")]).merge();
    assert_eq!(n.permissions, vec![net("https://h.org/p/")]);
}

#[test]
fn merge_is_idempotent_on_example() {
    let once = Permissions::new(vec![fs_read("/x/y"), fs_read("/x"), net("https://h.org/p")]).merge();
    let twice = once.clone().merge();
    assert_eq!(once.permissions, twice.permissions);
}

fn granted_by(granted: &Permissions, req: Permission) -> bool {
    matches!(
        check_permission(granted, &Permissions::new(vec![req])),
        CheckPermissionResult::Granted
    )
}

#[test]
fn merge_keeps_what_is_granted() {
    let original = Permissions::new(vec![
        fs_read("/data/sub"),
        fs_read("/data"),
        fs_write("/tmp/out"),
        net("https://example.com/api/v1"),
        net("https://example.com/api"),
    ]);
    let merged = original.clone().merge();
    assert_eq!(merged.permissions.len(), 3);
    let probes = vec![
        fs_read("/data/sub/file"),
        fs_read("/data/x"),
        fs_read("/etc"),
        fs_write("/tmp/out/log"),
        fs_write("/tmp"),
        net("https://example.com/api/v1/users"),
        net("https://example.com/apiv2"),
        net("https://other.com/api"),
    ];
    for p in probes {
        assert_eq!(granted_by(&merged, p.clone()), granted_by(&original, p));
    }
}

#[test]
fn merge_keeps_grants_that_cover_each_other() {
    let original = Permissions::new(vec![fs_read("/tmp"), fs_read("/tmp/"), fs_write("/w"), fs_write("/w")]);
    let merged = original.clone().merge();
    assert_eq!(merged.permissions, vec![fs_read("/tmp"), fs_write("/w")]);
    for p in vec![fs_read("/tmp/b"), fs_read("/tmp"), fs_write("/w/x"), fs_read("/w")] {
        assert_eq!(granted_by(&merged, p.clone()), granted_by(&original, p));
    }
}

#[test]
fn granting_more_keeps_a_passing_check() {
    let required = Permissions::new(vec![fs_read("/data/file")]);
    let granted = Permissions::new(vec![fs_read("/data")]);
    assert!(matches!(check_permission(&granted, &required), CheckPermissionResult::Granted));
    let more = Permissions::new(vec![fs_read("/data"), net("https://x.org")]);
    assert!(matches!(check_permission(&more, &required), CheckPermissionResult::Granted));
    let two = Permissions::new(vec![fs_read("/data/file"), fs_read("/data/other")]);
    assert!(matches!(check_permission(&granted, &two), CheckPermissionResult::Granted));
    let fewer = Permissions::new(vec![fs_read("/data/other")]);
    assert!(matches!(check_permission(&more, &fewer), CheckPermissionResult::Granted));
}

#[test]
fn find_allowed_permissions_gathers_and_merges() {
    let allowed = vec![
        PluginFunctionPermissions {
            plugin_function_id: "f1".to_string(),
            permissions: Permissions::new(vec![fs_read("/data/a")]),
        },
        PluginFunctionPermissions {
            plugin_function_id: "f2".to_string(),
            permissions: Permissions::new(vec![fs_read("/secret")]),
        },
        PluginFunctionPermissions {
            plugin_function_id: "f3".to_string(),
            permissions: Permissions::new(vec![fs_read("/data")]),
        },
    ];
    let p = find_allowed_permissions(&allowed, &["f1", "f3"]);
    assert_eq!(p.permissions, vec![fs_read("/data")]);
    let none = find_allowed_permissions(&allowed, &["nope"]);
    assert!(none.permissions.is_empty());
}

#[test]
fn kind_round_trips_through_wire_value() {
    for t in [
        PermissionType::Unspecified,
        PermissionType::AllowAll,
        PermissionType::FilesystemRead,
        PermissionType::FilesystemWrite,
        PermissionType::NetworkAccess,
    ] {
        assert_eq!(Permission::new(t, "r").kind(), t);
        assert_eq!(PermissionType::from_i32(t.to_i32()), t);
    }
    assert_eq!(PermissionType::from_i32(4), PermissionType::FilesystemRead);
    assert_eq!(PermissionType::from_i32(42), PermissionType::Unspecified);
    assert_eq!(PermissionType::NetworkAccess.to_i32(), 6);
}
