//! Properties of permission checking and merging that hold for every input.
use vstd::prelude::*;
use crate::check_path::{
    covered_by_some, law_ancestor_transitive, lemma_ancestor_not_deeper,
    lemma_strict_ancestor_shallower, path_depth, spec_is_ancestor_or_equal,
};
use crate::check_url::{
    law_url_covers_transitive, lemma_cover_not_deeper, lemma_strict_cover_shallower,
    spec_url_covers, url_covered_by_some, url_depth,
};
use crate::permission::{
    covered_by_grants, covers_every_grant, gathered_grants, PluginFunctionPermissions, covers_resource, grant_covers, grants_all, is_merge_of,
    merged_grants, minimal_of_kind, missing_grants, no_redundant_grant, of_kind,
    representative_indices, represents, resource_covers, resource_kind, resource_views,
    spec_check_ok,
};
use crate::proto::{kind_of, Permission, PermissionType};

verus! {

proof fn lemma_push_contains<A>(s: Seq<A>, x: A, y: A)
    ensures
        s.push(x).contains(y) <==> (s.contains(y) || y == x),
{
    if s.contains(y) {
        let i = choose|i: int| 0 <= i < s.len() && s[i] == y;
        assert(s.push(x)[i] == y);
    }
    if y == x {
        assert(s.push(x)[s.len() as int] == y);
    }
    if s.push(x).contains(y) {
        let i = choose|i: int| 0 <= i < s.len() + 1 && s.push(x)[i] == y;
        if i < s.len() {
            assert(s[i] == y);
        }
    }
}

proof fn lemma_of_kind_append(a: Seq<Permission>, b: Seq<Permission>, k: PermissionType)
    ensures
        of_kind(a + b, k) == of_kind(a, k) + of_kind(b, k),
    decreases b.len(),
{
    if b.len() == 0 {
        assert(a + b =~= a);
        assert(of_kind(a, k) + of_kind(b, k) =~= of_kind(a, k));
    } else {
        lemma_of_kind_append(a, b.drop_last(), k);
        assert((a + b).drop_last() =~= a + b.drop_last());
        assert((a + b).last() == b.last());
        assert(of_kind(a + b, k) =~= of_kind(a, k) + of_kind(b, k));
    }
}

proof fn lemma_of_kind_members(ps: Seq<Permission>, k: PermissionType)
    ensures
        forall|x: Permission| #[trigger] of_kind(ps, k).contains(x) <==> (ps.contains(x) && kind_of(x) == k),
    decreases ps.len(),
{
    if ps.len() > 0 {
        let prev = ps.drop_last();
        lemma_of_kind_members(prev, k);
        assert(ps =~= prev.push(ps.last()));
        assert forall|x: Permission| #[trigger] of_kind(ps, k).contains(x) <==> (ps.contains(x)
            && kind_of(x) == k) by {
            lemma_push_contains(prev, ps.last(), x);
            lemma_push_contains(of_kind(prev, k), ps.last(), x);
        }
    }
}

proof fn lemma_of_kind_uniform(s: Seq<Permission>, k: PermissionType)
    ensures
        (forall|i: int| 0 <= i < s.len() ==> kind_of(#[trigger] s[i]) == k) ==> of_kind(s, k) == s,
        (forall|i: int| 0 <= i < s.len() ==> kind_of(#[trigger] s[i]) != k) ==> of_kind(s, k)
            == Seq::<Permission>::empty(),
    decreases s.len(),
{
    if s.len() > 0 {
        lemma_of_kind_uniform(s.drop_last(), k);
        if forall|i: int| 0 <= i < s.len() ==> kind_of(#[trigger] s[i]) == k {
            assert(forall|i: int|
                0 <= i < s.drop_last().len() ==> kind_of(#[trigger] s.drop_last()[i]) == k) by {
                assert forall|i: int| 0 <= i < s.drop_last().len() implies kind_of(
                    #[trigger] s.drop_last()[i],
                ) == k by {
                    assert(s.drop_last()[i] == s[i]);
                }
            }
            assert(kind_of(s[s.len() - 1]) == k);
            assert(s.drop_last().push(s.last()) =~= s);
        }
        if forall|i: int| 0 <= i < s.len() ==> kind_of(#[trigger] s[i]) != k {
            assert(forall|i: int|
                0 <= i < s.drop_last().len() ==> kind_of(#[trigger] s.drop_last()[i]) != k) by {
                assert forall|i: int| 0 <= i < s.drop_last().len() implies kind_of(
                    #[trigger] s.drop_last()[i],
                ) != k by {
                    assert(s.drop_last()[i] == s[i]);
                }
            }
            assert(kind_of(s[s.len() - 1]) != k);
        }
    } else {
        assert(s =~= Seq::<Permission>::empty());
    }
}

/// Coverage only grows when the granted resources grow.
proof fn lemma_covers_resource_mono(
    k: PermissionType,
    a: Seq<Seq<char>>,
    b: Seq<Seq<char>>,
    r: Seq<char>,
)
    requires
        covers_resource(k, a, r),
        forall|i: int| 0 <= i < a.len() ==> b.contains(#[trigger] a[i]),
    ensures
        covers_resource(k, b, r),
{
    let single = seq![r];
    assert(single[0] == r);
    if k == PermissionType::NetworkAccess {
        assert(url_covered_by_some(a, single[0]));
        let i = choose|i: int| 0 <= i < a.len() && #[trigger] crate::check_url::spec_url_covers(a[i], r);
        assert(b.contains(a[i]));
        let m = choose|m: int| 0 <= m < b.len() && b[m] == a[i];
        assert(crate::check_url::spec_url_covers(b[m], r));
        assert(url_covered_by_some(b, single[0]));
        assert forall|j: int| 0 <= j < single.len() implies #[trigger] url_covered_by_some(b, single[j]) by {
            assert(j == 0);
        }
    } else {
        assert(covered_by_some(a, single[0]));
        let i = choose|i: int|
            0 <= i < a.len() && #[trigger] crate::check_path::spec_is_ancestor_or_equal(a[i], r);
        assert(b.contains(a[i]));
        let m = choose|m: int| 0 <= m < b.len() && b[m] == a[i];
        assert(crate::check_path::spec_is_ancestor_or_equal(b[m], r));
        assert(covered_by_some(b, single[0]));
        assert forall|j: int| 0 <= j < single.len() implies #[trigger] covered_by_some(b, single[j]) by {
            assert(j == 0);
        }
    }
}

proof fn lemma_missing_empty(granted: Seq<Permission>, required: Seq<Permission>)
    ensures
        (missing_grants(granted, required).len() == 0) <==> (forall|i: int|
            0 <= i < required.len() ==> covered_by_grants(granted, #[trigger] required[i])),
    decreases required.len(),
{
    if required.len() > 0 {
        let prev = required.drop_last();
        lemma_missing_empty(granted, prev);
        if missing_grants(granted, required).len() == 0 {
            assert forall|i: int| 0 <= i < required.len() implies covered_by_grants(
                granted,
                #[trigger] required[i],
            ) by {
                if i < prev.len() {
                    assert(prev[i] == required[i]);
                }
            }
        }
        if forall|i: int| 0 <= i < required.len() ==> covered_by_grants(granted, #[trigger] required[i]) {
            assert(covered_by_grants(granted, required[required.len() - 1]));
            assert forall|i: int| 0 <= i < prev.len() implies covered_by_grants(
                granted,
                #[trigger] prev[i],
            ) by {
                assert(prev[i] == required[i]);
            }
        }
    }
}

proof fn lemma_covered_by_more_grants(g: Seq<Permission>, more: Seq<Permission>, req: Permission)
    requires
        covered_by_grants(g, req),
        forall|i: int| 0 <= i < g.len() ==> more.contains(#[trigger] g[i]),
    ensures
        covered_by_grants(more, req),
{
    let k = kind_of(req);
    if resource_kind(k) {
        lemma_of_kind_members(g, k);
        lemma_of_kind_members(more, k);
        let small_g = of_kind(g, k);
        let big_g = of_kind(more, k);
        let small = resource_views(small_g);
        let big = resource_views(big_g);
        assert forall|i: int| 0 <= i < small.len() implies big.contains(#[trigger] small[i]) by {
            assert(small_g.contains(small_g[i]));
            let t = choose|t: int| 0 <= t < g.len() && g[t] == small_g[i];
            assert(more.contains(g[t]));
            assert(big_g.contains(small_g[i]));
            let u = choose|u: int| 0 <= u < big_g.len() && big_g[u] == small_g[i];
            assert(big[u] == small[i]);
        }
        lemma_covers_resource_mono(k, small, big, req.resource@);
    } else {
        let i = choose|i: int|
            0 <= i < g.len() && #[trigger] g[i].permission_type == req.permission_type;
        assert(more.contains(g[i]));
        let u = choose|u: int| 0 <= u < more.len() && more[u] == g[i];
        assert(more[u].permission_type == req.permission_type);
    }
}

/// Granting more, or requiring less, never turns a passing check into a
/// failing one: whatever `granted` satisfies of `required`, every set that
/// holds all grants of `granted` satisfies of every set whose entries all
/// occur in `required`.
pub proof fn law_check_monotone(
    granted: Seq<Permission>,
    more: Seq<Permission>,
    required: Seq<Permission>,
    fewer: Seq<Permission>,
)
    requires
        spec_check_ok(granted, required),
        forall|i: int| 0 <= i < granted.len() ==> more.contains(#[trigger] granted[i]),
        forall|i: int| 0 <= i < fewer.len() ==> required.contains(#[trigger] fewer[i]),
    ensures
        spec_check_ok(more, fewer),
{
    if grants_all(granted) {
        let i = choose|i: int|
            0 <= i < granted.len() && kind_of(#[trigger] granted[i]) == PermissionType::AllowAll;
        assert(more.contains(granted[i]));
        let u = choose|u: int| 0 <= u < more.len() && more[u] == granted[i];
        assert(kind_of(more[u]) == PermissionType::AllowAll);
    } else {
        lemma_missing_empty(granted, required);
        lemma_missing_empty(more, fewer);
        assert forall|i: int| 0 <= i < fewer.len() implies covered_by_grants(
            more,
            #[trigger] fewer[i],
        ) by {
            assert(required.contains(fewer[i]));
            let t = choose|t: int| 0 <= t < required.len() && required[t] == fewer[i];
            assert(covered_by_grants(granted, required[t]));
            lemma_covered_by_more_grants(granted, more, fewer[i]);
        }
    }
}

/// A check of two required sets together passes exactly when each passes
/// on its own.
pub proof fn law_check_splits_over_required(
    granted: Seq<Permission>,
    first: Seq<Permission>,
    second: Seq<Permission>,
)
    ensures
        spec_check_ok(granted, first + second) == (spec_check_ok(granted, first) && spec_check_ok(
            granted,
            second,
        )),
{
    lemma_missing_empty(granted, first);
    lemma_missing_empty(granted, second);
    lemma_missing_empty(granted, first + second);
    let both = first + second;
    if forall|i: int| 0 <= i < both.len() ==> covered_by_grants(granted, #[trigger] both[i]) {
        assert forall|i: int| 0 <= i < first.len() implies covered_by_grants(
            granted,
            #[trigger] first[i],
        ) by {
            assert(both[i] == first[i]);
        }
        assert forall|i: int| 0 <= i < second.len() implies covered_by_grants(
            granted,
            #[trigger] second[i],
        ) by {
            assert(both[first.len() + i] == second[i]);
        }
    }
    if (forall|i: int| 0 <= i < first.len() ==> covered_by_grants(granted, #[trigger] first[i]))
        && (forall|i: int| 0 <= i < second.len() ==> covered_by_grants(granted, #[trigger] second[i])) {
        assert forall|i: int| 0 <= i < both.len() implies covered_by_grants(
            granted,
            #[trigger] both[i],
        ) by {
            if i < first.len() {
                assert(both[i] == first[i]);
            } else {
                assert(both[i] == second[i - first.len()]);
            }
        }
    }
}

proof fn lemma_rep_indices(g: Seq<Permission>, k: PermissionType, n: int)
    requires
        0 <= n <= g.len(),
    ensures
        forall|a: int|
            0 <= a < representative_indices(g, k, n).len() ==> 0 <= #[trigger] representative_indices(
                g,
                k,
                n,
            )[a] < n && represents(g, k, representative_indices(g, k, n)[a]),
        forall|a: int, b: int|
            0 <= a < b < representative_indices(g, k, n).len() ==> #[trigger] representative_indices(
                g,
                k,
                n,
            )[a] < #[trigger] representative_indices(g, k, n)[b],
        forall|t: int|
            0 <= t < n && #[trigger] represents(g, k, t) ==> representative_indices(g, k, n).contains(t),
    decreases n,
{
    if n > 0 {
        lemma_rep_indices(g, k, n - 1);
        let prev = representative_indices(g, k, n - 1);
        if represents(g, k, n - 1) {
            let cur = prev.push(n - 1);
            assert(cur[prev.len() as int] == n - 1);
            assert forall|t: int| 0 <= t < n && #[trigger] represents(g, k, t) implies cur.contains(t) by {
                if t < n - 1 {
                    let a = choose|a: int| 0 <= a < prev.len() && prev[a] == t;
                    assert(cur[a] == t);
                }
            }
        }
    }
}

/// When every grant stands for its class, all of them are kept.
proof fn lemma_rep_indices_all(g: Seq<Permission>, k: PermissionType, n: int)
    requires
        0 <= n <= g.len(),
        forall|t: int| 0 <= t < n ==> #[trigger] represents(g, k, t),
    ensures
        representative_indices(g, k, n).len() == n,
        forall|a: int| 0 <= a < n ==> #[trigger] representative_indices(g, k, n)[a] == a,
    decreases n,
{
    if n > 0 {
        lemma_rep_indices_all(g, k, n - 1);
        assert(represents(g, k, n - 1));
    }
}

proof fn lemma_minimal_members(ps: Seq<Permission>, k: PermissionType)
    ensures
        forall|x: Permission| #[trigger] minimal_of_kind(ps, k).contains(x) ==> ps.contains(x)
            && kind_of(x) == k,
{
    let g = of_kind(ps, k);
    let ri = representative_indices(g, k, g.len() as int);
    lemma_of_kind_members(ps, k);
    lemma_rep_indices(g, k, g.len() as int);
    assert forall|x: Permission| #[trigger] minimal_of_kind(ps, k).contains(x) implies ps.contains(x)
        && kind_of(x) == k by {
        let a = choose|a: int| 0 <= a < minimal_of_kind(ps, k).len() && minimal_of_kind(ps, k)[a] == x;
        assert(minimal_of_kind(ps, k)[a] == g[ri[a]]);
        assert(g.contains(g[ri[a]]));
    }
}

/// No kept grant of kind `k` makes another kept grant redundant.
proof fn lemma_minimal_no_redundant(ps: Seq<Permission>, k: PermissionType)
    ensures
        forall|a: int, b: int|
            0 <= a < minimal_of_kind(ps, k).len() && 0 <= b < minimal_of_kind(ps, k).len() && a != b
                ==> !#[trigger] grant_covers(
                k,
                minimal_of_kind(ps, k)[a].resource@,
                minimal_of_kind(ps, k)[b].resource@,
            ),
{
    let g = of_kind(ps, k);
    let n = g.len() as int;
    let ri = representative_indices(g, k, n);
    let m = minimal_of_kind(ps, k);
    lemma_rep_indices(g, k, n);
    assert forall|a: int, b: int| 0 <= a < m.len() && 0 <= b < m.len() && a != b implies !#[trigger] grant_covers(
        k,
        m[a].resource@,
        m[b].resource@,
    ) by {
        let ia = ri[a];
        let ib = ri[b];
        assert(m[a] == g[ia]);
        assert(m[b] == g[ib]);
        if a < b {
            assert(ri[a] < ri[b]);
        } else {
            assert(ri[b] < ri[a]);
        }
        assert(represents(g, k, ia));
        assert(represents(g, k, ib));
        if grant_covers(k, g[ia].resource@, g[ib].resource@) {
            assert(ia > ib && grant_covers(k, g[ib].resource@, g[ia].resource@));
            assert(ib > ia);
        }
    }
}

spec fn resource_depth(k: PermissionType, r: Seq<char>) -> nat {
    if k == PermissionType::NetworkAccess {
        url_depth(r)
    } else {
        path_depth(r)
    }
}

proof fn lemma_grant_covers_transitive(k: PermissionType, a: Seq<char>, b: Seq<char>, c: Seq<char>)
    requires
        grant_covers(k, a, b),
        grant_covers(k, b, c),
    ensures
        grant_covers(k, a, c),
{
    if a != b && b != c {
        if k == PermissionType::NetworkAccess {
            law_url_covers_transitive(a, b, c);
        } else {
            law_ancestor_transitive(a, b, c);
        }
    }
}

proof fn lemma_grant_covers_depth(k: PermissionType, a: Seq<char>, b: Seq<char>)
    requires
        grant_covers(k, a, b),
    ensures
        resource_depth(k, a) <= resource_depth(k, b),
        !grant_covers(k, b, a) ==> resource_depth(k, a) < resource_depth(k, b),
{
    if a != b {
        if k == PermissionType::NetworkAccess {
            lemma_cover_not_deeper(a, b);
            if !spec_url_covers(b, a) {
                lemma_strict_cover_shallower(a, b);
            }
        } else {
            lemma_ancestor_not_deeper(a, b);
            if !spec_is_ancestor_or_equal(b, a) {
                lemma_strict_ancestor_shallower(a, b);
            }
        }
    }
}

/// Every grant of a group is made redundant by a grant that stands for its
/// class.
proof fn lemma_representative_covers(g: Seq<Permission>, k: PermissionType, t: int)
    requires
        0 <= t < g.len(),
    ensures
        exists|a: int|
            0 <= a < representative_indices(g, k, g.len() as int).len() && #[trigger] grant_covers(
                k,
                g[representative_indices(g, k, g.len() as int)[a]].resource@,
                g[t].resource@,
            ),
    decreases resource_depth(k, g[t].resource@), t,
{
    let ri = representative_indices(g, k, g.len() as int);
    lemma_rep_indices(g, k, g.len() as int);
    if represents(g, k, t) {
        assert(ri.contains(t));
        let a = choose|a: int| 0 <= a < ri.len() && ri[a] == t;
        assert(grant_covers(k, g[ri[a]].resource@, g[t].resource@));
    } else {
        let j = choose|j: int|
            0 <= j < g.len() && j != t && #[trigger] grant_covers(k, g[j].resource@, g[t].resource@)
                && !(j > t && grant_covers(k, g[t].resource@, g[j].resource@));
        lemma_grant_covers_depth(k, g[j].resource@, g[t].resource@);
        if grant_covers(k, g[t].resource@, g[j].resource@) {
            lemma_grant_covers_depth(k, g[t].resource@, g[j].resource@);
        }
        lemma_representative_covers(g, k, j);
        let a = choose|a: int| 0 <= a < ri.len() && #[trigger] grant_covers(
            k,
            g[ri[a]].resource@,
            g[j].resource@,
        );
        lemma_grant_covers_transitive(k, g[ri[a]].resource@, g[j].resource@, g[t].resource@);
    }
}

proof fn lemma_concat3_contains<A>(a: Seq<A>, b: Seq<A>, c: Seq<A>, i: int)
    requires
        0 <= i < (a + b + c).len(),
    ensures
        a.contains((a + b + c)[i]) || b.contains((a + b + c)[i]) || c.contains((a + b + c)[i]),
{
    if i < a.len() {
        assert((a + b + c)[i] == a[i]);
    } else if i < a.len() + b.len() {
        assert((a + b + c)[i] == b[i - a.len()]);
    } else {
        assert((a + b + c)[i] == c[i - a.len() - b.len()]);
    }
}

/// Without `AllowAll`, merging keeps only grants of the input, and only
/// filesystem-read, filesystem-write and network grants.
pub proof fn law_merge_keeps_only_input(ps: Seq<Permission>)
    requires
        !grants_all(ps),
    ensures
        forall|i: int|
            0 <= i < merged_grants(ps).len() ==> ps.contains(#[trigger] merged_grants(ps)[i]) && (
            kind_of(merged_grants(ps)[i]) == PermissionType::FilesystemRead || kind_of(
                merged_grants(ps)[i],
            ) == PermissionType::FilesystemWrite || kind_of(merged_grants(ps)[i])
                == PermissionType::NetworkAccess),
{
    let mr = minimal_of_kind(ps, PermissionType::FilesystemRead);
    let mw = minimal_of_kind(ps, PermissionType::FilesystemWrite);
    let mn = minimal_of_kind(ps, PermissionType::NetworkAccess);
    lemma_minimal_members(ps, PermissionType::FilesystemRead);
    lemma_minimal_members(ps, PermissionType::FilesystemWrite);
    lemma_minimal_members(ps, PermissionType::NetworkAccess);
    assert forall|i: int| 0 <= i < merged_grants(ps).len() implies ps.contains(
        #[trigger] merged_grants(ps)[i],
    ) && (kind_of(merged_grants(ps)[i]) == PermissionType::FilesystemRead || kind_of(
        merged_grants(ps)[i],
    ) == PermissionType::FilesystemWrite || kind_of(merged_grants(ps)[i])
        == PermissionType::NetworkAccess) by {
        lemma_concat3_contains(mr, mw, mn, i);
    }
}

proof fn lemma_all_of_kind(s: Seq<Permission>, ps: Seq<Permission>, k: PermissionType)
    requires
        forall|x: Permission| #[trigger] s.contains(x) ==> kind_of(x) == k,
    ensures
        forall|i: int| 0 <= i < s.len() ==> kind_of(#[trigger] s[i]) == k,
{
    assert forall|i: int| 0 <= i < s.len() implies kind_of(#[trigger] s[i]) == k by {
        assert(s.contains(s[i]));
    }
}

proof fn lemma_none_of_kind(s: Seq<Permission>, k: PermissionType, other: PermissionType)
    requires
        k != other,
        forall|x: Permission| #[trigger] s.contains(x) ==> kind_of(x) == other,
    ensures
        forall|i: int| 0 <= i < s.len() ==> kind_of(#[trigger] s[i]) != k,
{
    assert forall|i: int| 0 <= i < s.len() implies kind_of(#[trigger] s[i]) != k by {
        assert(s.contains(s[i]));
    }
}

/// The merged grants of each resource kind are the minimal grants of that
/// kind, and the merged grants hold no `AllowAll`.
proof fn lemma_merged_groups(ps: Seq<Permission>)
    requires
        !grants_all(ps),
    ensures
        !grants_all(merged_grants(ps)),
        of_kind(merged_grants(ps), PermissionType::FilesystemRead) == minimal_of_kind(
            ps,
            PermissionType::FilesystemRead,
        ),
        of_kind(merged_grants(ps), PermissionType::FilesystemWrite) == minimal_of_kind(
            ps,
            PermissionType::FilesystemWrite,
        ),
        of_kind(merged_grants(ps), PermissionType::NetworkAccess) == minimal_of_kind(
            ps,
            PermissionType::NetworkAccess,
        ),
{
    let r = PermissionType::FilesystemRead;
    let w = PermissionType::FilesystemWrite;
    let n = PermissionType::NetworkAccess;
    let mr = minimal_of_kind(ps, r);
    let mw = minimal_of_kind(ps, w);
    let mn = minimal_of_kind(ps, n);
    let m = merged_grants(ps);
    law_merge_keeps_only_input(ps);
    assert(!grants_all(m));
    lemma_minimal_members(ps, r);
    lemma_minimal_members(ps, w);
    lemma_minimal_members(ps, n);
    lemma_all_of_kind(mr, ps, r);
    lemma_all_of_kind(mw, ps, w);
    lemma_all_of_kind(mn, ps, n);
    lemma_none_of_kind(mr, w, r);
    lemma_none_of_kind(mr, n, r);
    lemma_none_of_kind(mw, r, w);
    lemma_none_of_kind(mw, n, w);
    lemma_none_of_kind(mn, r, n);
    lemma_none_of_kind(mn, w, n);
    lemma_of_kind_uniform(mr, r);
    lemma_of_kind_uniform(mr, w);
    lemma_of_kind_uniform(mr, n);
    lemma_of_kind_uniform(mw, r);
    lemma_of_kind_uniform(mw, w);
    lemma_of_kind_uniform(mw, n);
    lemma_of_kind_uniform(mn, r);
    lemma_of_kind_uniform(mn, w);
    lemma_of_kind_uniform(mn, n);
    lemma_of_kind_append(mr + mw, mn, r);
    lemma_of_kind_append(mr, mw, r);
    lemma_of_kind_append(mr + mw, mn, w);
    lemma_of_kind_append(mr, mw, w);
    lemma_of_kind_append(mr + mw, mn, n);
    lemma_of_kind_append(mr, mw, n);
    assert(of_kind(m, r) =~= mr);
    assert(of_kind(m, w) =~= mw);
    assert(of_kind(m, n) =~= mn);
}

/// A permission set satisfies itself, provided that every network resource
/// in it is a URL that parses.
pub proof fn law_permissions_satisfy_themselves(ps: Seq<Permission>)
    requires
        forall|i: int|
            0 <= i < ps.len() && kind_of(#[trigger] ps[i]) == PermissionType::NetworkAccess
                ==> crate::check_url::parsed_url(ps[i].resource@) is Some,
    ensures
        spec_check_ok(ps, ps),
{
    lemma_missing_empty(ps, ps);
    assert forall|i: int| 0 <= i < ps.len() implies covered_by_grants(ps, #[trigger] ps[i]) by {
        let req = ps[i];
        let k = kind_of(req);
        if k == PermissionType::FilesystemRead || k == PermissionType::FilesystemWrite || k
            == PermissionType::NetworkAccess {
            lemma_of_kind_members(ps, k);
            let group = of_kind(ps, k);
            assert(ps.contains(req));
            assert(group.contains(req));
            let m = choose|m: int| 0 <= m < group.len() && group[m] == req;
            let rv = resource_views(group);
            assert(rv[m] == req.resource@);
            let single = seq![req.resource@];
            if k == PermissionType::NetworkAccess {
                crate::check_url::law_url_covers_reflexive(req.resource@);
                assert(crate::check_url::spec_url_covers(rv[m], single[0]));
                assert(url_covered_by_some(rv, single[0]));
                assert forall|j: int| 0 <= j < single.len() implies #[trigger] url_covered_by_some(
                    rv,
                    single[j],
                ) by {
                    assert(j == 0);
                }
            } else {
                crate::check_path::law_ancestor_reflexive(req.resource@);
                assert(crate::check_path::spec_is_ancestor_or_equal(rv[m], single[0]));
                assert(covered_by_some(rv, single[0]));
                assert forall|j: int| 0 <= j < single.len() implies #[trigger] covered_by_some(
                    rv,
                    single[j],
                ) by {
                    assert(j == 0);
                }
            }
        } else {
            assert(ps[i].permission_type == req.permission_type);
        }
    }
}

/// No grant of `ps` carries the wire type of a required permission outside
/// the resource kinds.
pub open spec fn no_shared_plain_type(ps: Seq<Permission>, required: Seq<Permission>) -> bool {
    forall|i: int, j: int|
        0 <= i < required.len() && 0 <= j < ps.len() && !resource_kind(kind_of(required[i]))
            ==> #[trigger] ps[j].permission_type != #[trigger] required[i].permission_type
}

proof fn lemma_covers_resource_iff(k: PermissionType, granted: Seq<Seq<char>>, r: Seq<char>)
    ensures
        covers_resource(k, granted, r) <==> exists|i: int|
            0 <= i < granted.len() && #[trigger] resource_covers(k, granted[i], r),
{
    let single = seq![r];
    assert(single[0] == r);
    if k == PermissionType::NetworkAccess {
        if covers_resource(k, granted, r) {
            assert(url_covered_by_some(granted, single[0]));
            let i = choose|i: int| 0 <= i < granted.len() && #[trigger] spec_url_covers(granted[i], r);
            assert(resource_covers(k, granted[i], r));
        }
        if exists|i: int| 0 <= i < granted.len() && #[trigger] resource_covers(k, granted[i], r) {
            let i = choose|i: int| 0 <= i < granted.len() && #[trigger] resource_covers(k, granted[i], r);
            assert(spec_url_covers(granted[i], r));
            assert(url_covered_by_some(granted, r));
            assert forall|j: int| 0 <= j < single.len() implies #[trigger] url_covered_by_some(
                granted,
                single[j],
            ) by {
                assert(j == 0);
            }
        }
    } else {
        if covers_resource(k, granted, r) {
            assert(covered_by_some(granted, single[0]));
            let i = choose|i: int|
                0 <= i < granted.len() && #[trigger] spec_is_ancestor_or_equal(granted[i], r);
            assert(resource_covers(k, granted[i], r));
        }
        if exists|i: int| 0 <= i < granted.len() && #[trigger] resource_covers(k, granted[i], r) {
            let i = choose|i: int| 0 <= i < granted.len() && #[trigger] resource_covers(k, granted[i], r);
            assert(spec_is_ancestor_or_equal(granted[i], r));
            assert(covered_by_some(granted, r));
            assert forall|j: int| 0 <= j < single.len() implies #[trigger] covered_by_some(
                granted,
                single[j],
            ) by {
                assert(j == 0);
            }
        }
    }
}


/// The position in the merged grants of each kept grant of kind `k`.
proof fn lemma_merged_positions(ps: Seq<Permission>, k: PermissionType)
    requires
        !grants_all(ps),
        resource_kind(k),
    ensures
        forall|a: int|
            0 <= a < minimal_of_kind(ps, k).len() ==> merged_grants(ps).contains(
                #[trigger] minimal_of_kind(ps, k)[a],
            ),
{
    lemma_merged_groups(ps);
    lemma_of_kind_members(merged_grants(ps), k);
    assert forall|a: int| 0 <= a < minimal_of_kind(ps, k).len() implies merged_grants(ps).contains(
        #[trigger] minimal_of_kind(ps, k)[a],
    ) by {
        assert(of_kind(merged_grants(ps), k).contains(minimal_of_kind(ps, k)[a]));
    }
}

/// Merging keeps coverage: without `AllowAll`, every filesystem and network
/// grant of the input is made redundant (same resource, or covered) by a
/// merged grant of the same kind.
pub proof fn law_merge_covers_every_grant(ps: Seq<Permission>)
    requires
        !grants_all(ps),
    ensures
        covers_every_grant(merged_grants(ps), ps),
{
    let m = merged_grants(ps);
    assert forall|i: int| #![trigger ps[i]] 0 <= i < ps.len() && resource_kind(kind_of(ps[i])) implies exists|j: int|
        0 <= j < m.len() && kind_of(m[j]) == kind_of(ps[i]) && #[trigger] grant_covers(
            kind_of(ps[i]),
            m[j].resource@,
            ps[i].resource@,
        ) by {
        let k = kind_of(ps[i]);
        let g = of_kind(ps, k);
        lemma_of_kind_members(ps, k);
        assert(ps.contains(ps[i]));
        assert(g.contains(ps[i]));
        let t = choose|t: int| 0 <= t < g.len() && g[t] == ps[i];
        lemma_representative_covers(g, k, t);
        let ri = representative_indices(g, k, g.len() as int);
        let a = choose|a: int| 0 <= a < ri.len() && #[trigger] grant_covers(
            k,
            g[ri[a]].resource@,
            g[t].resource@,
        );
        let mk = minimal_of_kind(ps, k);
        assert(mk[a] == g[ri[a]]);
        lemma_merged_positions(ps, k);
        assert(m.contains(mk[a]));
        let j = choose|j: int| 0 <= j < m.len() && m[j] == mk[a];
        lemma_minimal_members(ps, k);
        assert(mk.contains(mk[a]));
        assert(grant_covers(k, m[j].resource@, ps[i].resource@));
    }
}

/// Merging leaves nothing redundant: without `AllowAll`, no merged grant
/// repeats or covers another merged grant of the same kind.
pub proof fn law_merge_no_redundant_grant(ps: Seq<Permission>)
    requires
        !grants_all(ps),
    ensures
        no_redundant_grant(merged_grants(ps)),
{
    let r = PermissionType::FilesystemRead;
    let w = PermissionType::FilesystemWrite;
    let n = PermissionType::NetworkAccess;
    let mr = minimal_of_kind(ps, r);
    let mw = minimal_of_kind(ps, w);
    let mn = minimal_of_kind(ps, n);
    let m = merged_grants(ps);
    lemma_minimal_members(ps, r);
    lemma_minimal_members(ps, w);
    lemma_minimal_members(ps, n);
    lemma_minimal_no_redundant(ps, r);
    lemma_minimal_no_redundant(ps, w);
    lemma_minimal_no_redundant(ps, n);
    assert forall|i: int, j: int|
        0 <= i < m.len() && 0 <= j < m.len() && i != j && kind_of(m[i]) == kind_of(m[j]) implies !#[trigger] grant_covers(
        kind_of(m[i]),
        m[i].resource@,
        m[j].resource@,
    ) by {
        let lr = mr.len() as int;
        let lw = mw.len() as int;
        if i < lr {
            assert(m[i] == mr[i]);
            assert(mr.contains(mr[i]));
        } else if i < lr + lw {
            assert(m[i] == mw[i - lr]);
            assert(mw.contains(mw[i - lr]));
        } else {
            assert(m[i] == mn[i - lr - lw]);
            assert(mn.contains(mn[i - lr - lw]));
        }
        if j < lr {
            assert(m[j] == mr[j]);
            assert(mr.contains(mr[j]));
        } else if j < lr + lw {
            assert(m[j] == mw[j - lr]);
            assert(mw.contains(mw[j - lr]));
        } else {
            assert(m[j] == mn[j - lr - lw]);
            assert(mn.contains(mn[j - lr - lw]));
        }
        if i < lr && j < lr {
            assert(!grant_covers(r, mr[i].resource@, mr[j].resource@));
        } else if lr <= i < lr + lw && lr <= j < lr + lw {
            assert(!grant_covers(w, mw[i - lr].resource@, mw[j - lr].resource@));
        } else if i >= lr + lw && j >= lr + lw {
            assert(!grant_covers(n, mn[i - lr - lw].resource@, mn[j - lr - lw].resource@));
        }
    }
}

/// Merging is idempotent: without `AllowAll`, the merged grants hold no
/// `AllowAll` and merging them again changes nothing.
pub proof fn law_merge_idempotent(ps: Seq<Permission>)
    requires
        !grants_all(ps),
    ensures
        !grants_all(merged_grants(ps)),
        merged_grants(merged_grants(ps)) == merged_grants(ps),
{
    lemma_merged_groups(ps);
    lemma_minimal_stable(ps, PermissionType::FilesystemRead);
    lemma_minimal_stable(ps, PermissionType::FilesystemWrite);
    lemma_minimal_stable(ps, PermissionType::NetworkAccess);
}

/// The kept grants of kind `k` are again kept when merged on their own.
proof fn lemma_minimal_stable(ps: Seq<Permission>, k: PermissionType)
    requires
        !grants_all(ps),
        resource_kind(k),
    ensures
        minimal_of_kind(merged_grants(ps), k) == minimal_of_kind(ps, k),
{
    lemma_merged_groups(ps);
    let m = minimal_of_kind(ps, k);
    assert(of_kind(merged_grants(ps), k) == m);
    lemma_minimal_no_redundant(ps, k);
    assert forall|t: int| 0 <= t < m.len() implies #[trigger] represents(m, k, t) by {
        assert forall|j: int|
            0 <= j < m.len() && j != t && #[trigger] grant_covers(k, m[j].resource@, m[t].resource@)
            implies j > t && grant_covers(k, m[t].resource@, m[j].resource@) by {
            assert(!grant_covers(k, m[j].resource@, m[t].resource@));
        }
    }
    lemma_rep_indices_all(m, k, m.len() as int);
    let ri = representative_indices(m, k, m.len() as int);
    assert(ri.map_values(|i: int| m[i]) =~= m);
}

/// Merging keeps what a permission set grants: without `AllowAll`, a
/// required filesystem or network permission is covered by the merged
/// grants exactly when it is covered by the original ones.
pub proof fn law_merge_preserves_coverage(ps: Seq<Permission>, req: Permission)
    requires
        !grants_all(ps),
        resource_kind(kind_of(req)),
    ensures
        covered_by_grants(merged_grants(ps), req) == covered_by_grants(ps, req),
{
    let k = kind_of(req);
    let r = req.resource@;
    lemma_merged_groups(ps);
    let g = of_kind(ps, k);
    let m = minimal_of_kind(ps, k);
    assert(of_kind(merged_grants(ps), k) == m);
    lemma_minimal_members(ps, k);
    lemma_of_kind_members(ps, k);
    let rg = resource_views(g);
    let rm = resource_views(m);
    if covers_resource(k, rm, r) {
        assert forall|j: int| 0 <= j < rm.len() implies rg.contains(#[trigger] rm[j]) by {
            assert(m.contains(m[j]));
            assert(g.contains(m[j]));
            let u = choose|u: int| 0 <= u < g.len() && g[u] == m[j];
            assert(rg[u] == rm[j]);
        }
        lemma_covers_resource_mono(k, rm, rg, r);
    }
    if covers_resource(k, rg, r) {
        lemma_covers_resource_iff(k, rg, r);
        let idx = choose|idx: int| 0 <= idx < rg.len() && #[trigger] resource_covers(k, rg[idx], r);
        assert(rg[idx] == g[idx].resource@);
        lemma_representative_covers(g, k, idx);
        let ri = representative_indices(g, k, g.len() as int);
        let a = choose|a: int| 0 <= a < ri.len() && #[trigger] grant_covers(
            k,
            g[ri[a]].resource@,
            g[idx].resource@,
        );
        assert(m[a] == g[ri[a]]);
        assert(rm[a] == m[a].resource@);
        if rm[a] != g[idx].resource@ {
            if k == PermissionType::NetworkAccess {
                law_url_covers_transitive(rm[a], g[idx].resource@, r);
            } else {
                law_ancestor_transitive(rm[a], g[idx].resource@, r);
            }
        }
        assert(resource_covers(k, rm[a], r));
        lemma_covers_resource_iff(k, rm, r);
    }
}

/// Merging keeps the outcome of every check: the merge of `ps` satisfies
/// `required` exactly when `ps` does, provided (when `ps` holds no
/// `AllowAll`) that no grant carries the wire type of a required permission
/// of another kind, which merging drops.
pub proof fn law_merge_preserves_check(
    ps: Seq<Permission>,
    out: Seq<Permission>,
    required: Seq<Permission>,
)
    requires
        is_merge_of(out, ps),
        grants_all(ps) || no_shared_plain_type(ps, required),
    ensures
        spec_check_ok(out, required) == spec_check_ok(ps, required),
{
    if grants_all(ps) {
        assert(kind_of(out[0]) == PermissionType::AllowAll);
        assert(grants_all(out));
    } else {
        lemma_merged_groups(ps);
        law_merge_keeps_only_input(ps);
        lemma_missing_empty(out, required);
        lemma_missing_empty(ps, required);
        assert forall|i: int| 0 <= i < required.len() implies covered_by_grants(
            out,
            #[trigger] required[i],
        ) == covered_by_grants(ps, required[i]) by {
            let req = required[i];
            if resource_kind(kind_of(req)) {
                law_merge_preserves_coverage(ps, req);
            } else {
                if covered_by_grants(out, req) {
                    let t = choose|t: int|
                        0 <= t < out.len() && #[trigger] out[t].permission_type == req.permission_type;
                    assert(kind_of(out[t]) == kind_of(req));
                    assert(false);
                }
                if covered_by_grants(ps, req) {
                    let j = choose|j: int|
                        0 <= j < ps.len() && #[trigger] ps[j].permission_type == req.permission_type;
                    assert(ps[j].permission_type != required[i].permission_type);
                }
            }
        }
    }
}


// ── What checking and gathering mean ──────────────────────────────────────

/// Some grant of `g` satisfies `req` on its own: for a filesystem or network
/// permission, a grant of the same kind whose resource covers `req`'s; for a
/// permission of any other kind, a grant with the same wire type.
pub open spec fn granted_by_some(g: Seq<Permission>, req: Permission) -> bool {
    let k = kind_of(req);
    if k == PermissionType::NetworkAccess {
        exists|i: int|
            0 <= i < g.len() && kind_of(#[trigger] g[i]) == k && spec_url_covers(
                g[i].resource@,
                req.resource@,
            )
    } else if k == PermissionType::FilesystemRead || k == PermissionType::FilesystemWrite {
        exists|i: int|
            0 <= i < g.len() && kind_of(#[trigger] g[i]) == k && spec_is_ancestor_or_equal(
                g[i].resource@,
                req.resource@,
            )
    } else {
        exists|i: int| 0 <= i < g.len() && #[trigger] g[i].permission_type == req.permission_type
    }
}

proof fn lemma_covered_iff_granted_by_some(g: Seq<Permission>, req: Permission)
    ensures
        covered_by_grants(g, req) == granted_by_some(g, req),
{
    let k = kind_of(req);
    if resource_kind(k) {
        let grp = of_kind(g, k);
        let rv = resource_views(grp);
        lemma_of_kind_members(g, k);
        lemma_covers_resource_iff(k, rv, req.resource@);
        if covered_by_grants(g, req) {
            let t = choose|t: int| 0 <= t < rv.len() && #[trigger] resource_covers(k, rv[t], req.resource@);
            assert(rv[t] == grp[t].resource@);
            assert(grp.contains(grp[t]));
            let i = choose|i: int| 0 <= i < g.len() && g[i] == grp[t];
            assert(kind_of(g[i]) == k);
            assert(resource_covers(k, g[i].resource@, req.resource@));
        }
        if granted_by_some(g, req) {
            let i = choose|i: int|
                0 <= i < g.len() && kind_of(#[trigger] g[i]) == kind_of(req) && resource_covers(
                    kind_of(req),
                    g[i].resource@,
                    req.resource@,
                );
            assert(g.contains(g[i]));
            assert(grp.contains(g[i]));
            let t = choose|t: int| 0 <= t < grp.len() && grp[t] == g[i];
            assert(rv[t] == g[i].resource@);
            assert(resource_covers(k, rv[t], req.resource@));
        }
    }
}

proof fn lemma_missing_members(g: Seq<Permission>, required: Seq<Permission>)
    ensures
        forall|x: Permission|
            #[trigger] missing_grants(g, required).contains(x) <==> (required.contains(x)
                && !covered_by_grants(g, x)),
    decreases required.len(),
{
    if required.len() > 0 {
        let prev = required.drop_last();
        lemma_missing_members(g, prev);
        assert(required =~= prev.push(required.last()));
        assert forall|x: Permission|
            #[trigger] missing_grants(g, required).contains(x) <==> (required.contains(x)
                && !covered_by_grants(g, x)) by {
            lemma_push_contains(prev, required.last(), x);
            lemma_push_contains(missing_grants(g, prev), required.last(), x);
        }
    }
}

/// What a permission check decides: without `AllowAll`, `required` is
/// satisfied exactly when each of its entries is satisfied by a single grant
/// (of the same kind and covering its resource, for filesystem and network
/// permissions; with the same wire type otherwise). A grant of another kind
/// never satisfies a filesystem or network permission. The missing entries
/// are exactly the required ones that no grant satisfies.
pub proof fn law_check_permission_meaning(granted: Seq<Permission>, required: Seq<Permission>)
    ensures
        forall|req: Permission| #[trigger] covered_by_grants(granted, req) == granted_by_some(granted, req),
        spec_check_ok(granted, required) == (grants_all(granted) || forall|i: int|
            0 <= i < required.len() ==> granted_by_some(granted, #[trigger] required[i])),
        forall|x: Permission|
            #[trigger] missing_grants(granted, required).contains(x) <==> (required.contains(x)
                && !granted_by_some(granted, x)),
{
    assert forall|req: Permission| #[trigger] covered_by_grants(granted, req) == granted_by_some(granted, req) by {
        lemma_covered_iff_granted_by_some(granted, req);
    }
    lemma_missing_empty(granted, required);
    lemma_missing_members(granted, required);
}

proof fn lemma_concat_contains<A>(a: Seq<A>, b: Seq<A>, x: A)
    ensures
        (a + b).contains(x) <==> (a.contains(x) || b.contains(x)),
{
    if (a + b).contains(x) {
        let i = choose|i: int| 0 <= i < (a + b).len() && (a + b)[i] == x;
        if i < a.len() {
            assert(a[i] == x);
        } else {
            assert(b[i - a.len()] == x);
        }
    }
    if a.contains(x) {
        let i = choose|i: int| 0 <= i < a.len() && a[i] == x;
        assert((a + b)[i] == x);
    }
    if b.contains(x) {
        let i = choose|i: int| 0 <= i < b.len() && b[i] == x;
        assert((a + b)[a.len() + i] == x);
    }
}

/// The grants gathered for the target IDs are exactly the grants of the
/// entries whose function ID is a target: every grant of every matching
/// entry, and nothing else.
pub proof fn law_gathered_grants_members(allowed: Seq<PluginFunctionPermissions>, ids: Seq<Seq<char>>)
    ensures
        forall|x: Permission|
            #[trigger] gathered_grants(allowed, ids).contains(x) <==> exists|i: int|
                0 <= i < allowed.len() && ids.contains(allowed[i].plugin_function_id@)
                    && #[trigger] allowed[i].permissions.permissions@.contains(x),
    decreases allowed.len(),
{
    if allowed.len() > 0 {
        let prev = allowed.drop_last();
        let last = allowed.last();
        law_gathered_grants_members(prev, ids);
        assert forall|x: Permission|
            #[trigger] gathered_grants(allowed, ids).contains(x) <==> exists|i: int|
                0 <= i < allowed.len() && ids.contains(allowed[i].plugin_function_id@)
                    && #[trigger] allowed[i].permissions.permissions@.contains(x) by {
            if ids.contains(last.plugin_function_id@) {
                lemma_concat_contains(gathered_grants(prev, ids), last.permissions.permissions@, x);
            }
            if gathered_grants(allowed, ids).contains(x) {
                if gathered_grants(prev, ids).contains(x) {
                    let i = choose|i: int|
                        0 <= i < prev.len() && ids.contains(prev[i].plugin_function_id@)
                            && #[trigger] prev[i].permissions.permissions@.contains(x);
                    assert(allowed[i] == prev[i]);
                } else {
                    assert(allowed[allowed.len() - 1] == last);
                }
            }
            if exists|i: int|
                0 <= i < allowed.len() && ids.contains(allowed[i].plugin_function_id@)
                    && #[trigger] allowed[i].permissions.permissions@.contains(x) {
                let i = choose|i: int|
                    0 <= i < allowed.len() && ids.contains(allowed[i].plugin_function_id@)
                        && #[trigger] allowed[i].permissions.permissions@.contains(x);
                if i < prev.len() {
                    assert(prev[i] == allowed[i]);
                    assert(gathered_grants(prev, ids).contains(x));
                } else {
                    assert(allowed[i] == last);
                }
            }
        }
    }
}

proof fn lemma_gathered_has(
    allowed: Seq<PluginFunctionPermissions>,
    ids: Seq<Seq<char>>,
    i: int,
    x: Permission,
)
    requires
        0 <= i < allowed.len(),
        ids.contains(allowed[i].plugin_function_id@),
        allowed[i].permissions.permissions@.contains(x),
    ensures
        gathered_grants(allowed, ids).contains(x),
{
    law_gathered_grants_members(allowed, ids);
    assert(allowed[i].permissions.permissions@.contains(x));
}

proof fn lemma_gathered_from(allowed: Seq<PluginFunctionPermissions>, ids: Seq<Seq<char>>, x: Permission)
    requires
        gathered_grants(allowed, ids).contains(x),
    ensures
        exists|i: int|
            0 <= i < allowed.len() && ids.contains(allowed[i].plugin_function_id@)
                && #[trigger] allowed[i].permissions.permissions@.contains(x),
{
    law_gathered_grants_members(allowed, ids);
}

proof fn lemma_merge_covers_member(g: Seq<Permission>, out: Seq<Permission>, p: Permission)
    requires
        is_merge_of(out, g),
        !grants_all(g),
        g.contains(p),
        resource_kind(kind_of(p)),
    ensures
        exists|q: int|
            0 <= q < out.len() && kind_of(out[q]) == kind_of(p) && #[trigger] grant_covers(
                kind_of(p),
                out[q].resource@,
                p.resource@,
            ),
{
    law_merge_covers_every_grant(g);
    let t = choose|t: int| 0 <= t < g.len() && g[t] == p;
    assert(covers_every_grant(out, g));
    assert(resource_kind(kind_of(g[t])));
}

proof fn lemma_merge_member_is_input(g: Seq<Permission>, out: Seq<Permission>, q: int)
    requires
        is_merge_of(out, g),
        !grants_all(g),
        0 <= q < out.len(),
    ensures
        g.contains(out[q]),
{
    law_merge_keeps_only_input(g);
    assert(g.contains(merged_grants(g)[q]));
}

/// What finding the allowed permissions gives: a merge of the grants of all
/// entries whose function ID is a target. Unless one of those grants is
/// `AllowAll` (then the result is the single `AllowAll`), every filesystem
/// and network grant of every matching entry is covered by a result grant
/// of the same kind.
pub proof fn law_find_allowed_meaning(
    allowed: Seq<PluginFunctionPermissions>,
    ids: Seq<Seq<char>>,
    out: Seq<Permission>,
)
    requires
        is_merge_of(out, gathered_grants(allowed, ids)),
    ensures
        grants_all(gathered_grants(allowed, ids)) ==> out.len() == 1 && kind_of(out[0])
            == PermissionType::AllowAll,
        !grants_all(gathered_grants(allowed, ids)) ==> forall|i: int, j: int|
            0 <= i < allowed.len() && ids.contains(allowed[i].plugin_function_id@) && 0 <= j
                < allowed[i].permissions.permissions@.len() && resource_kind(
                kind_of(#[trigger] allowed[i].permissions.permissions@[j]),
            ) ==> exists|q: int|
                0 <= q < out.len() && kind_of(out[q]) == kind_of(
                    allowed[i].permissions.permissions@[j],
                ) && #[trigger] grant_covers(
                    kind_of(allowed[i].permissions.permissions@[j]),
                    out[q].resource@,
                    allowed[i].permissions.permissions@[j].resource@,
                ),
{
    let g = gathered_grants(allowed, ids);
    if !grants_all(g) {
        assert forall|i: int, j: int|
            0 <= i < allowed.len() && ids.contains(allowed[i].plugin_function_id@) && 0 <= j
                < allowed[i].permissions.permissions@.len() && resource_kind(
                kind_of(#[trigger] allowed[i].permissions.permissions@[j]),
            ) implies exists|q: int|
                0 <= q < out.len() && kind_of(out[q]) == kind_of(
                    allowed[i].permissions.permissions@[j],
                ) && #[trigger] grant_covers(
                    kind_of(allowed[i].permissions.permissions@[j]),
                    out[q].resource@,
                    allowed[i].permissions.permissions@[j].resource@,
                ) by {
            let p = allowed[i].permissions.permissions@[j];
            assert(allowed[i].permissions.permissions@.contains(p));
            lemma_gathered_has(allowed, ids, i, p);
            lemma_merge_covers_member(g, out, p);
        }
    }
}

/// Finding the allowed permissions grants nothing else: without `AllowAll`
/// among the gathered grants, every result grant is a grant of an entry whose
/// function ID is a target.
pub proof fn law_find_allowed_only_matching(
    allowed: Seq<PluginFunctionPermissions>,
    ids: Seq<Seq<char>>,
    out: Seq<Permission>,
)
    requires
        is_merge_of(out, gathered_grants(allowed, ids)),
        !grants_all(gathered_grants(allowed, ids)),
    ensures
        forall|x: Permission|
            #[trigger] out.contains(x) ==> exists|i: int|
                0 <= i < allowed.len() && ids.contains(allowed[i].plugin_function_id@)
                    && #[trigger] allowed[i].permissions.permissions@.contains(x),
{
    let g = gathered_grants(allowed, ids);
    assert forall|x: Permission| #[trigger] out.contains(x) implies exists|i: int|
        0 <= i < allowed.len() && ids.contains(allowed[i].plugin_function_id@)
            && #[trigger] allowed[i].permissions.permissions@.contains(x) by {
        let q = choose|q: int| 0 <= q < out.len() && out[q] == x;
        lemma_merge_member_is_input(g, out, q);
        lemma_gathered_from(allowed, ids, x);
    }
}

} // verus!
