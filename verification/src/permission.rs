//! Permission sets: normalizing them, checking required against granted
//! permissions, and gathering the permissions granted to plugin functions.
use vstd::prelude::*;
use crate::check_path::{
    is_ancestor_or_equal, paths_cover_by_ancestor, spec_is_ancestor_or_equal, spec_paths_cover,
};
use crate::check_url::{spec_url_covers, spec_urls_cover, url_covers, urls_cover_by_ancestor};
use crate::proto::{copy_permission, kind_of, Permission, PermissionType};
use crate::text::{contains_text, same_text, str_views};

verus! {

/// A set of [`Permission`] grants attached to a workflow or plugin function.
#[derive(Clone, Debug, Default)]
pub struct Permissions {
    pub permissions: Vec<Permission>,
}

/// Associates a [`Permissions`] set with a specific plugin function ID.
#[derive(Clone, Debug)]
pub struct PluginFunctionPermissions {
    pub plugin_function_id: String,
    pub permissions: Permissions,
}

/// The outcome of a permission check.
#[derive(Debug)]
pub enum CheckPermissionResult {
    /// Every required permission is covered.
    Granted,
    /// Carries exactly which permissions were required but not present.
    MissingPermission(Permissions),
}

// ── Specification ─────────────────────────────────────────────────────────

/// Some grant of `ps` is `AllowAll`.
pub open spec fn grants_all(ps: Seq<Permission>) -> bool {
    exists|i: int| 0 <= i < ps.len() && kind_of(#[trigger] ps[i]) == PermissionType::AllowAll
}

/// The grants of `ps` of kind `k`, in order.
pub open spec fn of_kind(ps: Seq<Permission>, k: PermissionType) -> Seq<Permission>
    decreases ps.len(),
{
    if ps.len() == 0 {
        Seq::empty()
    } else {
        let prev = of_kind(ps.drop_last(), k);
        if kind_of(ps.last()) == k {
            prev.push(ps.last())
        } else {
            prev
        }
    }
}

/// The resources of the grants, in order.
pub open spec fn resource_views(ps: Seq<Permission>) -> Seq<Seq<char>> {
    ps.map_values(|p: Permission| p.resource@)
}

/// The kinds whose grants name a resource.
pub open spec fn resource_kind(k: PermissionType) -> bool {
    k == PermissionType::FilesystemRead || k == PermissionType::FilesystemWrite || k
        == PermissionType::NetworkAccess
}

/// Resource `a` covers resource `b` under the rules of kind `k`: URL
/// coverage for network access, path ancestry otherwise.
pub open spec fn resource_covers(k: PermissionType, a: Seq<char>, b: Seq<char>) -> bool {
    if k == PermissionType::NetworkAccess {
        spec_url_covers(a, b)
    } else {
        spec_is_ancestor_or_equal(a, b)
    }
}

/// A grant on `a` makes a grant on `b` of the same kind redundant: the two
/// name the same resource, or `a` covers `b`.
pub open spec fn grant_covers(k: PermissionType, a: Seq<char>, b: Seq<char>) -> bool {
    a == b || resource_covers(k, a, b)
}

/// Resource `r` of kind `k` is covered by the resources `granted`: by URL
/// coverage for network access, by path ancestry otherwise.
pub open spec fn covers_resource(k: PermissionType, granted: Seq<Seq<char>>, r: Seq<char>) -> bool {
    if k == PermissionType::NetworkAccess {
        spec_urls_cover(granted, seq![r])
    } else {
        spec_paths_cover(granted, seq![r])
    }
}

/// Grant `i` of the group `g` (grants of kind `k`) stands for its class:
/// every other grant of the group that makes it redundant is a later grant
/// that it makes redundant in turn.
pub open spec fn represents(g: Seq<Permission>, k: PermissionType, i: int) -> bool {
    forall|j: int|
        0 <= j < g.len() && j != i && #[trigger] grant_covers(k, g[j].resource@, g[i].resource@)
            ==> j > i && grant_covers(k, g[i].resource@, g[j].resource@)
}

/// The positions among the first `n` grants of `g` that stand for their
/// class, in increasing order.
pub open spec fn representative_indices(g: Seq<Permission>, k: PermissionType, n: int) -> Seq<int>
    decreases n,
{
    if n <= 0 {
        Seq::empty()
    } else {
        let prev = representative_indices(g, k, n - 1);
        if represents(g, k, n - 1) {
            prev.push(n - 1)
        } else {
            prev
        }
    }
}

/// The grants of kind `k` that stand for their class, in their order in
/// `ps`: one grant for each group of grants that make each other redundant,
/// none that another grant makes redundant.
pub open spec fn minimal_of_kind(ps: Seq<Permission>, k: PermissionType) -> Seq<Permission> {
    let g = of_kind(ps, k);
    representative_indices(g, k, g.len() as int).map_values(|i: int| g[i])
}

/// The normalized grants when no `AllowAll` is present: the minimal
/// filesystem-read, filesystem-write and network grants, in that order.
pub open spec fn merged_grants(ps: Seq<Permission>) -> Seq<Permission> {
    minimal_of_kind(ps, PermissionType::FilesystemRead) + minimal_of_kind(
        ps,
        PermissionType::FilesystemWrite,
    ) + minimal_of_kind(ps, PermissionType::NetworkAccess)
}

/// Every filesystem and network grant of `input` is made redundant by a
/// grant of the same kind in `out`.
pub open spec fn covers_every_grant(out: Seq<Permission>, input: Seq<Permission>) -> bool {
    forall|i: int|
        #![trigger input[i]]
        0 <= i < input.len() && resource_kind(kind_of(input[i])) ==> exists|j: int|
            0 <= j < out.len() && kind_of(out[j]) == kind_of(input[i]) && #[trigger] grant_covers(
                kind_of(input[i]),
                out[j].resource@,
                input[i].resource@,
            )
}

/// No grant of `out` makes another grant of the same kind in `out`
/// redundant: no duplicates, and no grant covered by another.
pub open spec fn no_redundant_grant(out: Seq<Permission>) -> bool {
    forall|i: int, j: int|
        0 <= i < out.len() && 0 <= j < out.len() && i != j && kind_of(out[i]) == kind_of(out[j])
            ==> !#[trigger] grant_covers(kind_of(out[i]), out[i].resource@, out[j].resource@)
}

/// `out` is what merging `input` yields: the single grant `AllowAll` on ""
/// when `input` holds an `AllowAll`, else [`merged_grants`].
pub open spec fn is_merge_of(out: Seq<Permission>, input: Seq<Permission>) -> bool {
    if grants_all(input) {
        &&& out.len() == 1
        &&& out[0].permission_type == PermissionType::AllowAll.spec_to_i32()
        &&& out[0].resource@.len() == 0
    } else {
        out == merged_grants(input)
    }
}

/// Required grant `req` is covered by `granted` (ignoring `AllowAll`).
pub open spec fn covered_by_grants(granted: Seq<Permission>, req: Permission) -> bool {
    let k = kind_of(req);
    if k == PermissionType::FilesystemRead || k == PermissionType::FilesystemWrite || k
        == PermissionType::NetworkAccess {
        covers_resource(k, resource_views(of_kind(granted, k)), req.resource@)
    } else {
        exists|i: int|
            0 <= i < granted.len() && #[trigger] granted[i].permission_type == req.permission_type
    }
}

/// The grants of `required` that `granted` does not cover, in order.
pub open spec fn missing_grants(granted: Seq<Permission>, required: Seq<Permission>) -> Seq<
    Permission,
>
    decreases required.len(),
{
    if required.len() == 0 {
        Seq::empty()
    } else {
        let prev = missing_grants(granted, required.drop_last());
        if covered_by_grants(granted, required.last()) {
            prev
        } else {
            prev.push(required.last())
        }
    }
}

/// `granted` satisfies every grant of `required`.
pub open spec fn spec_check_ok(granted: Seq<Permission>, required: Seq<Permission>) -> bool {
    grants_all(granted) || missing_grants(granted, required).len() == 0
}

/// The grants of the entries of `allowed` whose function ID is one of `ids`,
/// concatenated in order.
pub open spec fn gathered_grants(allowed: Seq<PluginFunctionPermissions>, ids: Seq<Seq<char>>) -> Seq<
    Permission,
>
    decreases allowed.len(),
{
    if allowed.len() == 0 {
        Seq::empty()
    } else {
        let prev = gathered_grants(allowed.drop_last(), ids);
        if ids.contains(allowed.last().plugin_function_id@) {
            prev + allowed.last().permissions.permissions@
        } else {
            prev
        }
    }
}

// ── Implementation ────────────────────────────────────────────────────────

fn has_allow_all(ps: &Vec<Permission>) -> (r: bool)
    ensures
        r == grants_all(ps@),
{
    let mut i: usize = 0;
    while i < ps.len()
        invariant
            0 <= i <= ps@.len(),
            forall|k: int| 0 <= k < i ==> kind_of(#[trigger] ps@[k]) != PermissionType::AllowAll,
        decreases ps@.len() - i,
    {
        if ps[i].kind() == PermissionType::AllowAll {
            return true;
        }
        i += 1;
    }
    false
}

fn select_kind(ps: &Vec<Permission>, k: PermissionType) -> (r: Vec<Permission>)
    ensures
        r@ == of_kind(ps@, k),
{
    let mut out: Vec<Permission> = Vec::new();
    let mut i: usize = 0;
    while i < ps.len()
        invariant
            0 <= i <= ps@.len(),
            out@ == of_kind(ps@.take(i as int), k),
        decreases ps@.len() - i,
    {
        proof {
            assert(ps@.take(i + 1).drop_last() =~= ps@.take(i as int));
        }
        if ps[i].kind() == k {
            out.push(copy_permission(&ps[i]));
        }
        i += 1;
    }
    proof {
        assert(ps@.take(i as int) =~= ps@);
    }
    out
}

fn resources_of(group: &Vec<Permission>) -> (r: Vec<&str>)
    ensures
        str_views(r@) == resource_views(group@),
{
    let mut out: Vec<&str> = Vec::new();
    let mut i: usize = 0;
    while i < group.len()
        invariant
            0 <= i <= group@.len(),
            str_views(out@) =~= resource_views(group@.take(i as int)),
        decreases group@.len() - i,
    {
        let ghost old_out = out@;
        let res = group[i].resource.as_str();
        out.push(res);
        proof {
            assert(res@ == group@[i as int].resource@);
            assert(group@.take(i + 1) =~= group@.take(i as int).push(group@[i as int]));
            assert(str_views(out@) =~= str_views(old_out).push(res@));
            assert(resource_views(group@.take(i + 1)) =~= resource_views(group@.take(i as int)).push(
                group@[i as int].resource@,
            ));
        }
        i += 1;
    }
    proof {
        assert(group@.take(i as int) =~= group@);
    }
    out
}

fn covered_within(k: PermissionType, others: &Vec<&str>, r: &str) -> (c: bool)
    ensures
        c == covers_resource(k, str_views(others@), r@),
{
    let single: Vec<&str> = vec![r];
    proof {
        assert(str_views(single@) =~= seq![r@]);
    }
    if k == PermissionType::NetworkAccess {
        urls_cover_by_ancestor(others.as_slice(), single.as_slice())
    } else {
        paths_cover_by_ancestor(others.as_slice(), single.as_slice())
    }
}

/// Whether a grant on `a` makes a grant on `b` of kind `k` redundant.
fn covers_grant(k: PermissionType, a: &str, b: &str) -> (r: bool)
    ensures
        r == grant_covers(k, a@, b@),
{
    if same_text(a, b) {
        return true;
    }
    if k == PermissionType::NetworkAccess {
        url_covers(a, b)
    } else {
        is_ancestor_or_equal(a, b)
    }
}

fn is_representative(group: &Vec<Permission>, k: PermissionType, i: usize) -> (r: bool)
    requires
        i < group@.len(),
    ensures
        r == represents(group@, k, i as int),
{
    let ghost g = group@;
    let mut j: usize = 0;
    while j < group.len()
        invariant
            g == group@,
            i < g.len(),
            0 <= j <= g.len(),
            forall|t: int|
                0 <= t < j && t != i && #[trigger] grant_covers(k, g[t].resource@, g[i as int].resource@)
                    ==> t > i && grant_covers(k, g[i as int].resource@, g[t].resource@),
        decreases g.len() - j,
    {
        if j != i && covers_grant(k, group[j].resource.as_str(), group[i].resource.as_str()) {
            if !(j > i && covers_grant(k, group[i].resource.as_str(), group[j].resource.as_str())) {
                assert(grant_covers(k, g[j as int].resource@, g[i as int].resource@));
                return false;
            }
        }
        j += 1;
    }
    true
}

fn minimal_of(ps: &Vec<Permission>, k: PermissionType) -> (r: Vec<Permission>)
    ensures
        r@ == minimal_of_kind(ps@, k),
{
    let group = select_kind(ps, k);
    let ghost g = group@;
    let mut out: Vec<Permission> = Vec::new();
    let mut i: usize = 0;
    while i < group.len()
        invariant
            g == group@,
            g == of_kind(ps@, k),
            0 <= i <= g.len(),
            out@ == representative_indices(g, k, i as int).map_values(|t: int| g[t]),
        decreases g.len() - i,
    {
        let ghost prev = representative_indices(g, k, i as int);
        if is_representative(&group, k, i) {
            out.push(copy_permission(&group[i]));
            proof {
                assert(representative_indices(g, k, i + 1) == prev.push(i as int));
                assert(prev.push(i as int).map_values(|t: int| g[t]) =~= prev.map_values(
                    |t: int| g[t],
                ).push(g[i as int]));
            }
        } else {
            proof {
                assert(representative_indices(g, k, i + 1) == prev);
            }
        }
        i += 1;
    }
    out
}

impl Permissions {
    /// A permission set holding exactly `permissions`.
    pub fn new(permissions: Vec<Permission>) -> (r: Self)
        ensures
            r.permissions@ == permissions@,
    {
        Permissions { permissions }
    }

    /// Deduplicate and normalize:
    /// * If `AllowAll` is present, collapse to exactly `[AllowAll]`.
    /// * For filesystem and network entries, keep one entry for each group
    ///   of entries that cover each other (or repeat one resource), and drop
    ///   entries that are subsumed by a more general entry of the same kind.
    ///   Every dropped entry stays covered by a kept one. Filesystem-read
    ///   entries come first, then filesystem-write, then network entries,
    ///   each in their original order.
    /// * Entries of any other type are dropped.
    pub fn merge(self) -> (r: Self)
        ensures
            is_merge_of(r.permissions@, self.permissions@),
            !grants_all(self.permissions@) ==> covers_every_grant(
                r.permissions@,
                self.permissions@,
            ) && no_redundant_grant(r.permissions@),
    {
        let perms = self.permissions;
        if has_allow_all(&perms) {
            let all = Permission::new(PermissionType::AllowAll, "");
            proof {
                reveal_strlit("");
            }
            let r = Permissions::new(vec![all]);
            return r;
        }
        let mut out = minimal_of(&perms, PermissionType::FilesystemRead);
        let mut writes = minimal_of(&perms, PermissionType::FilesystemWrite);
        let mut network = minimal_of(&perms, PermissionType::NetworkAccess);
        out.append(&mut writes);
        out.append(&mut network);
        proof {
            crate::permission_laws::law_merge_covers_every_grant(perms@);
            crate::permission_laws::law_merge_no_redundant_grant(perms@);
        }
        Permissions::new(out)
    }
}

fn has_same_type(granted: &Vec<Permission>, req: &Permission) -> (r: bool)
    ensures
        r == exists|i: int|
            0 <= i < granted@.len() && #[trigger] granted@[i].permission_type
                == req.permission_type,
{
    let mut i: usize = 0;
    while i < granted.len()
        invariant
            0 <= i <= granted@.len(),
            forall|k: int|
                0 <= k < i ==> #[trigger] granted@[k].permission_type != req.permission_type,
        decreases granted@.len() - i,
    {
        if granted[i].permission_type == req.permission_type {
            return true;
        }
        i += 1;
    }
    false
}

fn is_covered(granted: &Vec<Permission>, req: &Permission) -> (r: bool)
    ensures
        r == covered_by_grants(granted@, *req),
{
    let k = req.kind();
    if k == PermissionType::FilesystemRead || k == PermissionType::FilesystemWrite || k
        == PermissionType::NetworkAccess {
        let group = select_kind(granted, k);
        let resources = resources_of(&group);
        covered_within(k, &resources, req.resource.as_str())
    } else {
        has_same_type(granted, req)
    }
}

/// Returns `Granted` if every permission in `required` is covered by `granted`.
///
/// Coverage rules:
/// * `AllowAll` in `granted` covers everything.
/// * `FilesystemRead`/`Write`: granted paths of the same type must be
///   ancestors of required paths. Paths are read with Unix rules on every
///   platform (see [`paths_cover_by_ancestor`]).
/// * `NetworkAccess`: granted URLs must cover required URLs.
/// * All other types: a granted entry with the same wire type suffices.
///
/// Otherwise `MissingPermission` carries the uncovered required entries, in
/// order.
pub fn check_permission(granted: &Permissions, required: &Permissions) -> (r: CheckPermissionResult)
    ensures
        (r is Granted) == spec_check_ok(granted.permissions@, required.permissions@),
        grants_all(granted.permissions@) ==> r is Granted,
        r matches CheckPermissionResult::MissingPermission(m) ==> m.permissions@ == missing_grants(
            granted.permissions@,
            required.permissions@,
        ) && m.permissions@.len() > 0,
{
    if has_allow_all(&granted.permissions) {
        return CheckPermissionResult::Granted;
    }
    let req = &required.permissions;
    let mut missing: Vec<Permission> = Vec::new();
    let mut i: usize = 0;
    while i < req.len()
        invariant
            0 <= i <= req@.len(),
            missing@ == missing_grants(granted.permissions@, req@.take(i as int)),
        decreases req@.len() - i,
    {
        proof {
            assert(req@.take(i + 1).drop_last() =~= req@.take(i as int));
        }
        if !is_covered(&granted.permissions, &req[i]) {
            missing.push(copy_permission(&req[i]));
        }
        i += 1;
    }
    proof {
        assert(req@.take(i as int) =~= req@);
    }
    if missing.len() == 0 {
        CheckPermissionResult::Granted
    } else {
        CheckPermissionResult::MissingPermission(Permissions::new(missing))
    }
}

/// Finds and merges all permissions from `allowed` whose
/// `plugin_function_id` matches any of `target_function_ids`.
pub fn find_allowed_permissions(
    allowed: &[PluginFunctionPermissions],
    target_function_ids: &[&str],
) -> (r: Permissions)
    ensures
        is_merge_of(r.permissions@, gathered_grants(allowed@, str_views(target_function_ids@))),
{
    let ghost ids = str_views(target_function_ids@);
    let mut merged: Vec<Permission> = Vec::new();
    let mut i: usize = 0;
    while i < allowed.len()
        invariant
            ids == str_views(target_function_ids@),
            0 <= i <= allowed@.len(),
            merged@ == gathered_grants(allowed@.take(i as int), ids),
        decreases allowed@.len() - i,
    {
        proof {
            assert(allowed@.take(i + 1).drop_last() =~= allowed@.take(i as int));
        }
        let entry = &allowed[i];
        let wanted = contains_text(target_function_ids, entry.plugin_function_id.as_str());
        proof {
            if wanted {
                let k = choose|k: int|
                    0 <= k < target_function_ids@.len() && #[trigger] target_function_ids@[k]@
                        == entry.plugin_function_id@;
                assert(ids[k] == entry.plugin_function_id@);
            } else {
                assert(!ids.contains(entry.plugin_function_id@)) by {
                    if ids.contains(entry.plugin_function_id@) {
                        let k = choose|k: int| 0 <= k < ids.len() && ids[k] == entry.plugin_function_id@;
                        assert(target_function_ids@[k]@ == entry.plugin_function_id@);
                    }
                }
            }
        }
        if wanted {
            let ghost before = merged@;
            let grants = &entry.permissions.permissions;
            let mut j: usize = 0;
            while j < grants.len()
                invariant
                    0 <= j <= grants@.len(),
                    merged@ == before + grants@.take(j as int),
                decreases grants@.len() - j,
            {
                merged.push(copy_permission(&grants[j]));
                proof {
                    assert(grants@.take(j + 1) =~= grants@.take(j as int).push(grants@[j as int]));
                }
                j += 1;
            }
            proof {
                assert(grants@.take(j as int) =~= grants@);
            }
        }
        i += 1;
    }
    proof {
        assert(allowed@.take(i as int) =~= allowed@);
    }
    Permissions::new(merged).merge()
}

} // verus!
