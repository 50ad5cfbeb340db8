//! External (WASM) plugin packages: their self-description, the check of a
//! function's declared permission types against the granted permissions,
//! and the sandbox capabilities that granted permissions translate to.
use vstd::prelude::*;
use crate::proto::{kind_of, Permission, PermissionType};
use crate::text::{decimal_i32, spec_decimal, string_views};
use std::collections::HashMap;

verus! {

/// Package metadata returned by a plugin's `describe` export.
#[derive(Debug, Clone)]
pub struct Meta {
    pub name: String,
    pub version: String,
    pub description: String,
    pub author_id: String,
    pub package_id: String,
}

/// A parameter of a plugin function.
#[derive(Debug, Clone)]
pub struct Parameter {
    pub name: String,
    pub description: String,
    /// The parameter's type, as the plugin names it.
    pub value_type: String,
}

/// A return value of a plugin function.
#[derive(Debug, Clone)]
pub struct ReturnInfo {
    pub name: String,
    pub description: String,
    /// The value's type, as the plugin names it.
    pub value_type: String,
}

/// The schema of one plugin function.
#[derive(Debug, Clone)]
pub struct FunctionSchema {
    /// Permission types (wire values of `PermissionType`) this function
    /// declares it needs.
    pub required_permission_types: Vec<i32>,
    pub description: String,
    pub parameters: Vec<Parameter>,
    pub returns: Vec<ReturnInfo>,
}

/// Full metadata returned by `describe()` in the WASM plugin.
#[derive(Debug, Clone)]
pub struct PackageDescriptor {
    pub meta: Meta,
    pub functions: HashMap<String, FunctionSchema>,
}

/// A loaded external plugin package backed by a WASM module.
#[derive(Debug)]
pub struct SapphillonPackage {
    pub meta: Meta,
    pub functions: HashMap<String, FunctionSchema>,
    /// Filesystem path to the `.wasm` file.
    pub wasm_path: String,
}

/// `paths` with `p` added at the end, unless it is already there.
pub open spec fn add_path(paths: Seq<Seq<char>>, p: Seq<char>) -> Seq<Seq<char>> {
    if paths.contains(p) {
        paths
    } else {
        paths.push(p)
    }
}

/// The filesystem paths that the grants open to the sandbox, each once, in
/// the order of their first grant: `/` for `AllowAll`, the resource for
/// filesystem grants.
pub open spec fn wasi_paths(ps: Seq<Permission>) -> Seq<Seq<char>>
    decreases ps.len(),
{
    if ps.len() == 0 {
        Seq::empty()
    } else {
        let prev = wasi_paths(ps.drop_last());
        let k = kind_of(ps.last());
        if k == PermissionType::AllowAll {
            add_path(prev, seq!['/'])
        } else if k == PermissionType::FilesystemRead || k == PermissionType::FilesystemWrite {
            add_path(prev, ps.last().resource@)
        } else {
            prev
        }
    }
}

/// No path is opened twice.
pub proof fn lemma_wasi_paths_distinct(ps: Seq<Permission>)
    ensures
        forall|i: int, j: int|
            0 <= i < j < wasi_paths(ps).len() ==> #[trigger] wasi_paths(ps)[i] != #[trigger] wasi_paths(
                ps,
            )[j],
    decreases ps.len(),
{
    if ps.len() > 0 {
        lemma_wasi_paths_distinct(ps.drop_last());
        let prev = wasi_paths(ps.drop_last());
        assert forall|p: Seq<char>, i: int, j: int|
            0 <= i < j < add_path(prev, p).len() implies #[trigger] add_path(prev, p)[i]
            != #[trigger] add_path(prev, p)[j] by {
            if !prev.contains(p) && j == prev.len() {
                if add_path(prev, p)[i] == add_path(prev, p)[j] {
                    assert(prev[i] == p);
                }
            }
        }
    }
}

fn has_text(v: &Vec<String>, s: &str) -> (r: bool)
    ensures
        r == string_views(v@).contains(s@),
{
    let mut k: usize = 0;
    while k < v.len()
        invariant
            0 <= k <= v@.len(),
            forall|t: int| 0 <= t < k ==> v@[t]@ != s@,
        decreases v@.len() - k,
    {
        if crate::text::same_text(v[k].as_str(), s) {
            assert(string_views(v@)[k as int] == s@);
            return true;
        }
        k += 1;
    }
    assert(!string_views(v@).contains(s@)) by {
        if string_views(v@).contains(s@) {
            let t = choose|t: int| 0 <= t < string_views(v@).len() && string_views(v@)[t] == s@;
            assert(v@[t]@ == s@);
        }
    }
    false
}

/// The network hosts that the grants open to the sandbox, in order: `*` for
/// `AllowAll`, the resource for network grants.
pub open spec fn wasi_hosts(ps: Seq<Permission>) -> Seq<Seq<char>>
    decreases ps.len(),
{
    if ps.len() == 0 {
        Seq::empty()
    } else {
        let prev = wasi_hosts(ps.drop_last());
        let k = kind_of(ps.last());
        if k == PermissionType::AllowAll {
            prev.push(seq!['*'])
        } else if k == PermissionType::NetworkAccess {
            prev.push(ps.last().resource@)
        } else {
            prev
        }
    }
}

/// The sandbox capabilities for the grants: the filesystem paths to
/// pre-open (each mapped to itself) and the network hosts to allow.
pub fn permissions_to_wasi(permissions: &[Permission]) -> (r: (Vec<String>, Vec<String>))
    ensures
        string_views(r.0@) == wasi_paths(permissions@),
        string_views(r.1@) == wasi_hosts(permissions@),
        forall|i: int, j: int| 0 <= i < j < r.0@.len() ==> r.0@[i]@ != r.0@[j]@,
{
    let mut paths: Vec<String> = Vec::new();
    let mut hosts: Vec<String> = Vec::new();
    let mut i: usize = 0;
    while i < permissions.len()
        invariant
            0 <= i <= permissions@.len(),
            string_views(paths@) == wasi_paths(permissions@.take(i as int)),
            string_views(hosts@) == wasi_hosts(permissions@.take(i as int)),
        decreases permissions@.len() - i,
    {
        let perm = &permissions[i];
        let ghost old_paths = paths@;
        let ghost old_hosts = hosts@;
        proof {
            assert(permissions@.take(i + 1).drop_last() =~= permissions@.take(i as int));
            assert(permissions@.take(i + 1).last() == permissions@[i as int]);
            reveal_strlit("/");
            reveal_strlit("*");
        }
        match perm.kind() {
            PermissionType::AllowAll => {
                let root = String::from_str("/");
                let any_host = String::from_str("*");
                proof {
                    assert(root@ =~= seq!['/']);
                    assert(any_host@ =~= seq!['*']);
                }
                if !has_text(&paths, root.as_str()) {
                    paths.push(root);
                    proof {
                        assert(string_views(paths@) =~= string_views(old_paths).push(seq!['/']));
                    }
                }
                hosts.push(any_host);
                proof {
                    assert(string_views(hosts@) =~= string_views(old_hosts).push(seq!['*']));
                }
            },
            PermissionType::FilesystemRead | PermissionType::FilesystemWrite => {
                if !has_text(&paths, perm.resource.as_str()) {
                    paths.push(perm.resource.clone());
                    proof {
                        assert(string_views(paths@) =~= string_views(old_paths).push(perm.resource@));
                    }
                }
            },
            PermissionType::NetworkAccess => {
                hosts.push(perm.resource.clone());
                proof {
                    assert(string_views(hosts@) =~= string_views(old_hosts).push(perm.resource@));
                }
            },
            PermissionType::Unspecified => {},
        }
        i += 1;
    }
    proof {
        assert(permissions@.take(i as int) =~= permissions@);
        lemma_wasi_paths_distinct(permissions@);
        assert forall|a: int, b: int| 0 <= a < b < paths@.len() implies paths@[a]@ != paths@[b]@ by {
            assert(string_views(paths@)[a] == paths@[a]@);
            assert(string_views(paths@)[b] == paths@[b]@);
        }
    }
    (paths, hosts)
}

/// The permission types that a function declares but that are not granted.
#[derive(Debug, Clone)]
pub struct DeniedPermissionTypes {
    /// The missing types, each as `PermissionType(<n>)`.
    pub required: Vec<String>,
    /// The granted types, each as `PermissionType(<n>)`.
    pub granted: Vec<String>,
}

/// `PermissionType(<n>)` with `n` in decimal.
pub open spec fn type_label(t: i32) -> Seq<char> {
    "PermissionType("@ + spec_decimal(t as int) + ")"@
}

/// The wire types of the grants, in order.
pub open spec fn granted_types(ps: Seq<Permission>) -> Seq<i32> {
    ps.map_values(|p: Permission| p.permission_type)
}

/// The required types that are not granted, in order.
pub open spec fn missing_types(required: Seq<i32>, granted: Seq<i32>) -> Seq<i32>
    decreases required.len(),
{
    if required.len() == 0 {
        Seq::empty()
    } else {
        let prev = missing_types(required.drop_last(), granted);
        if granted.contains(required.last()) {
            prev
        } else {
            prev.push(required.last())
        }
    }
}

/// The labels of wire types, in order.
pub open spec fn type_labels(ts: Seq<i32>) -> Seq<Seq<char>> {
    ts.map_values(|t: i32| type_label(t))
}

fn label_of(t: i32) -> (r: String)
    ensures
        r@ == type_label(t),
{
    let mut out = String::from_str("PermissionType(");
    let digits = decimal_i32(t);
    out.append(digits.as_str());
    out.append(")");
    out
}

fn labels_of(ts: &Vec<i32>) -> (r: Vec<String>)
    ensures
        string_views(r@) == type_labels(ts@),
{
    let mut out: Vec<String> = Vec::new();
    let mut i: usize = 0;
    while i < ts.len()
        invariant
            0 <= i <= ts@.len(),
            string_views(out@) =~= type_labels(ts@.take(i as int)),
        decreases ts@.len() - i,
    {
        let ghost old_out = out@;
        out.push(label_of(ts[i]));
        proof {
            assert(string_views(out@) =~= string_views(old_out).push(type_label(ts@[i as int])));
            assert(type_labels(ts@.take(i + 1)) =~= type_labels(ts@.take(i as int)).push(
                type_label(ts@[i as int]),
            ));
        }
        i += 1;
    }
    proof {
        assert(ts@.take(i as int) =~= ts@);
    }
    out
}

fn contains_type(ts: &Vec<i32>, t: i32) -> (r: bool)
    ensures
        r == ts@.contains(t),
{
    let mut i: usize = 0;
    while i < ts.len()
        invariant
            0 <= i <= ts@.len(),
            forall|k: int| 0 <= k < i ==> ts@[k] != t,
        decreases ts@.len() - i,
    {
        if ts[i] == t {
            assert(ts@[i as int] == t);
            return true;
        }
        i += 1;
    }
    false
}

/// Checks that `granted` holds every permission type `schema` declares.
///
/// A granted `AllowAll` (wire value 1) satisfies everything. Otherwise the
/// check fails exactly when some declared type is not among the granted
/// types, and the error lists the missing and the granted types.
pub fn check_function_permissions(schema: &FunctionSchema, granted: &[Permission]) -> (r: Result<
    (),
    DeniedPermissionTypes,
>)
    ensures
        granted_types(granted@).contains(PermissionType::AllowAll.spec_to_i32()) ==> r is Ok,
        !granted_types(granted@).contains(PermissionType::AllowAll.spec_to_i32()) ==> ((r is Ok)
            <==> missing_types(schema.required_permission_types@, granted_types(granted@)).len()
            == 0),
        r matches Err(d) ==> string_views(d.required@) == type_labels(
            missing_types(schema.required_permission_types@, granted_types(granted@)),
        ) && string_views(d.granted@) == type_labels(granted_types(granted@)),
{
    let mut types: Vec<i32> = Vec::new();
    let mut i: usize = 0;
    while i < granted.len()
        invariant
            0 <= i <= granted@.len(),
            types@ =~= granted_types(granted@.take(i as int)),
        decreases granted@.len() - i,
    {
        types.push(granted[i].permission_type);
        proof {
            assert(granted@.take(i + 1) =~= granted@.take(i as int).push(granted@[i as int]));
        }
        i += 1;
    }
    proof {
        assert(granted@.take(i as int) =~= granted@);
    }
    if contains_type(&types, PermissionType::AllowAll.to_i32()) {
        return Ok(());
    }
    let required = &schema.required_permission_types;
    let mut missing: Vec<i32> = Vec::new();
    let mut j: usize = 0;
    while j < required.len()
        invariant
            types@ == granted_types(granted@),
            0 <= j <= required@.len(),
            missing@ == missing_types(required@.take(j as int), types@),
        decreases required@.len() - j,
    {
        proof {
            assert(required@.take(j + 1).drop_last() =~= required@.take(j as int));
        }
        if !contains_type(&types, required[j]) {
            missing.push(required[j]);
        }
        j += 1;
    }
    proof {
        assert(required@.take(j as int) =~= required@);
    }
    if missing.len() == 0 {
        Ok(())
    } else {
        Err(DeniedPermissionTypes { required: labels_of(&missing), granted: labels_of(&types) })
    }
}

/// Some grant of `granted` has the wire type `t`.
pub open spec fn type_granted(granted: Seq<Permission>, t: i32) -> bool {
    exists|j: int| 0 <= j < granted.len() && #[trigger] granted[j].permission_type == t
}

proof fn lemma_granted_types_contains(granted: Seq<Permission>, t: i32)
    ensures
        granted_types(granted).contains(t) == type_granted(granted, t),
{
    let gt = granted_types(granted);
    if gt.contains(t) {
        let j = choose|j: int| 0 <= j < gt.len() && gt[j] == t;
        assert(granted[j].permission_type == t);
    }
    if type_granted(granted, t) {
        let j = choose|j: int| 0 <= j < granted.len() && #[trigger] granted[j].permission_type == t;
        assert(gt[j] == t);
    }
}

proof fn lemma_missing_types_members(required: Seq<i32>, granted: Seq<Permission>)
    ensures
        forall|t: i32|
            #[trigger] missing_types(required, granted_types(granted)).contains(t) <==> (
            required.contains(t) && !type_granted(granted, t)),
    decreases required.len(),
{
    if required.len() > 0 {
        let prev = required.drop_last();
        lemma_missing_types_members(prev, granted);
        let m0 = missing_types(prev, granted_types(granted));
        assert forall|t: i32|
            #[trigger] missing_types(required, granted_types(granted)).contains(t) <==> (
            required.contains(t) && !type_granted(granted, t)) by {
            lemma_granted_types_contains(granted, required.last());
            lemma_granted_types_contains(granted, t);
            assert(required =~= prev.push(required.last()));
            if required.contains(t) {
                let i = choose|i: int| 0 <= i < required.len() && required[i] == t;
                if i < prev.len() {
                    assert(prev[i] == t);
                }
            }
            if prev.contains(t) {
                let i = choose|i: int| 0 <= i < prev.len() && prev[i] == t;
                assert(required[i] == t);
            }
            if m0.contains(t) {
                let i = choose|i: int| 0 <= i < m0.len() && m0[i] == t;
                assert(m0.push(required.last())[i] == t);
            }
            if m0.push(required.last()).contains(t) {
                let i = choose|i: int| 0 <= i < m0.len() + 1 && m0.push(required.last())[i] == t;
                if i < m0.len() {
                    assert(m0[i] == t);
                }
            }
            assert(m0.push(required.last())[m0.len() as int] == required.last());
            assert(required[required.len() - 1] == required.last());
        }
    }
}

/// What the check of a function's declared types decides: a granted
/// `AllowAll` is found at any position of the grants; without it, the check
/// fails exactly when some declared type is the wire type of no grant at
/// all, and the types reported missing are exactly those.
pub proof fn law_function_permissions_meaning(required: Seq<i32>, granted: Seq<Permission>)
    ensures
        granted_types(granted).contains(PermissionType::AllowAll.spec_to_i32()) == type_granted(
            granted,
            PermissionType::AllowAll.spec_to_i32(),
        ),
        (missing_types(required, granted_types(granted)).len() == 0) == (forall|i: int|
            0 <= i < required.len() ==> type_granted(granted, #[trigger] required[i])),
        forall|t: i32|
            #[trigger] missing_types(required, granted_types(granted)).contains(t) <==> (
            required.contains(t) && !type_granted(granted, t)),
{
    lemma_granted_types_contains(granted, PermissionType::AllowAll.spec_to_i32());
    lemma_missing_types_members(required, granted);
    let m = missing_types(required, granted_types(granted));
    if m.len() == 0 {
        assert forall|i: int| 0 <= i < required.len() implies type_granted(granted, #[trigger] required[i]) by {
            assert(required.contains(required[i]));
            if !type_granted(granted, required[i]) {
                assert(m.contains(required[i]));
            }
        }
    } else {
        assert(m.contains(m[0]));
        let i = choose|i: int| 0 <= i < required.len() && required[i] == m[0];
        assert(!type_granted(granted, required[i]));
    }
}

} // verus!
