//! Lexical path coverage: does one path cover another by ancestry?
//!
//! Paths are read the way `std::path` reads them on Unix: a leading `/`
//! makes a path absolute, `/`-separated segments are its components, empty
//! segments and `.` are dropped, and `..` removes the component before it
//! (a `..` with nothing before it is dropped).
use vstd::prelude::*;
use crate::text::{chars_of, chars_equal, lemma_split_on_nonempty, split_on, str_views};

verus! {

/// The effect of one segment on the components resolved so far.
pub open spec fn resolve_step(names: Seq<Seq<char>>, seg: Seq<char>) -> Seq<Seq<char>> {
    if seg.len() == 0 || seg == seq!['.'] {
        names
    } else if seg == seq!['.', '.'] {
        if names.len() > 0 { names.drop_last() } else { names }
    } else {
        names.push(seg)
    }
}

/// Resolve `.`, `..` and empty segments, left to right.
pub open spec fn resolve(segs: Seq<Seq<char>>) -> Seq<Seq<char>>
    decreases segs.len(),
{
    if segs.len() == 0 {
        Seq::empty()
    } else {
        resolve_step(resolve(segs.drop_last()), segs.last())
    }
}

/// The character sequences held by a list of character vectors.
pub open spec fn char_rows(v: Seq<Vec<char>>) -> Seq<Seq<char>> {
    v.map_values(|c: Vec<char>| c@)
}

/// Whether the path starts at the root.
pub open spec fn is_absolute(s: Seq<char>) -> bool {
    s.len() > 0 && s[0] == '/'
}

/// The named components of the normalized path.
pub open spec fn normal_names(s: Seq<char>) -> Seq<Seq<char>> {
    resolve(split_on(s, '/'))
}

/// `ancestor` is `descendant` or one of its ancestors once both are
/// normalized: the component list of `ancestor` (the root counting as a
/// component) is a prefix of that of `descendant`.
pub open spec fn spec_is_ancestor_or_equal(ancestor: Seq<char>, descendant: Seq<char>) -> bool {
    &&& (is_absolute(ancestor) == is_absolute(descendant) || (!is_absolute(ancestor)
        && normal_names(ancestor).len() == 0))
    &&& normal_names(ancestor).is_prefix_of(normal_names(descendant))
}

/// Some path of `a` is an ancestor-or-equal of `p`.
pub open spec fn covered_by_some(a: Seq<Seq<char>>, p: Seq<char>) -> bool {
    exists|i: int| 0 <= i < a.len() && #[trigger] spec_is_ancestor_or_equal(a[i], p)
}

/// Every path of `b` is covered by some path of `a`.
pub open spec fn spec_paths_cover(a: Seq<Seq<char>>, b: Seq<Seq<char>>) -> bool {
    forall|j: int| 0 <= j < b.len() ==> #[trigger] covered_by_some(a, b[j])
}

/// Apply one segment to the resolved components.
fn resolve_segment(names: &mut Vec<Vec<char>>, seg: Vec<char>)
    ensures
        char_rows(final(names)@) == resolve_step(char_rows(old(names)@), seg@),
{
    let ghost old_names = char_rows(names@);
    let n = seg.len();
    if n == 0 {
        return;
    }
    if n == 1 && seg[0] == '.' {
        assert(seg@ =~= seq!['.']);
        return;
    }
    if n == 1 {
        assert(seg@ != seq!['.']) by {
            if seg@ == seq!['.'] {
                assert(seg@[0] == '.');
            }
        }
    }
    if n == 2 && seg[0] == '.' && seg[1] == '.' {
        assert(seg@ =~= seq!['.', '.']);
        if names.len() > 0 {
            names.pop();
            assert(char_rows(names@) =~= old_names.drop_last());
        }
        return;
    }
    if n == 2 {
        assert(seg@ != seq!['.', '.']) by {
            if seg@ == seq!['.', '.'] {
                assert(seg@[0] == '.' && seg@[1] == '.');
            }
        }
    }
    assert(seg@ != seq!['.']) by {
        if seg@ == seq!['.'] {
            assert(seg@.len() == 1);
        }
    }
    assert(seg@ != seq!['.', '.']) by {
        if seg@ == seq!['.', '.'] {
            assert(seg@.len() == 2);
        }
    }
    let ghost seg_view = seg@;
    names.push(seg);
    assert(char_rows(names@) =~= old_names.push(seg_view));
}

/// Lexically normalize a path: whether it is absolute, and its components.
fn normalize(p: &str) -> (r: (bool, Vec<Vec<char>>))
    ensures
        r.0 == is_absolute(p@),
        char_rows(r.1@) == normal_names(p@),
{
    let chars = chars_of(p);
    let absolute = chars.len() > 0 && chars[0] == '/';
    let mut names: Vec<Vec<char>> = Vec::new();
    let mut cur: Vec<char> = Vec::new();
    let mut i: usize = 0;
    proof {
        assert(chars@.take(0) =~= Seq::<char>::empty());
        assert(char_rows(names@) =~= Seq::<Seq<char>>::empty());
    }
    while i < chars.len()
        invariant
            0 <= i <= chars@.len(),
            split_on(chars@.take(i as int), '/').len() >= 1,
            split_on(chars@.take(i as int), '/').last() == cur@,
            char_rows(names@) == resolve(split_on(chars@.take(i as int), '/').drop_last()),
        decreases chars@.len() - i,
    {
        let ghost prefix = chars@.take(i as int);
        let ghost next = chars@.take(i + 1);
        proof {
            assert(next.drop_last() =~= prefix);
            assert(next.last() == chars@[i as int]);
        }
        let c = chars[i];
        if c == '/' {
            let ghost segs = split_on(prefix, '/');
            proof {
                assert(split_on(next, '/') == segs.push(Seq::<char>::empty()));
                assert(split_on(next, '/').drop_last() =~= segs);
                assert(segs =~= segs.drop_last().push(segs.last()));
            }
            let finished = cur;
            cur = Vec::new();
            resolve_segment(&mut names, finished);
            proof {
                assert(resolve(segs) == resolve_step(resolve(segs.drop_last()), segs.last()));
                assert(cur@ =~= Seq::<char>::empty());
            }
        } else {
            let ghost segs = split_on(prefix, '/');
            cur.push(c);
            proof {
                assert(split_on(next, '/') == segs.update(segs.len() - 1, segs.last().push(c)));
                assert(split_on(next, '/').drop_last() =~= segs.drop_last());
            }
        }
        i += 1;
    }
    proof {
        assert(chars@.take(i as int) =~= chars@);
        lemma_split_on_nonempty(chars@, '/');
    }
    let ghost segs = split_on(chars@, '/');
    resolve_segment(&mut names, cur);
    proof {
        assert(resolve(segs) == resolve_step(resolve(segs.drop_last()), segs.last()));
    }
    (absolute, names)
}

/// Whether the components of `a` are a prefix of those of `d`.
fn names_prefix(a: &Vec<Vec<char>>, d: &Vec<Vec<char>>) -> (r: bool)
    ensures
        r == char_rows(a@).is_prefix_of(char_rows(d@)),
{
    if a.len() > d.len() {
        return false;
    }
    let mut i: usize = 0;
    while i < a.len()
        invariant
            a@.len() <= d@.len(),
            0 <= i <= a@.len(),
            forall|k: int| 0 <= k < i ==> char_rows(a@)[k] == char_rows(d@)[k],
        decreases a@.len() - i,
    {
        if !chars_equal(&a[i], &d[i]) {
            assert(char_rows(a@)[i as int] != char_rows(d@)[i as int]);
            return false;
        }
        i += 1;
    }
    assert(char_rows(a@) =~= char_rows(d@).subrange(0, a@.len() as int));
    true
}

/// Whether `ancestor` is `descendant` or an ancestor of it, after both are
/// lexically normalized. Paths are read with Unix rules on every platform.
pub fn is_ancestor_or_equal(ancestor: &str, descendant: &str) -> (r: bool)
    ensures
        r == spec_is_ancestor_or_equal(ancestor@, descendant@),
{
    let (a_abs, a_names) = normalize(ancestor);
    let (d_abs, d_names) = normalize(descendant);
    if !(a_abs == d_abs || (!a_abs && a_names.len() == 0)) {
        return false;
    }
    names_prefix(&a_names, &d_names)
}

/// Whether some path of `a` is an ancestor-or-equal of `d`.
fn any_ancestor(a: &[&str], d: &str) -> (r: bool)
    ensures
        r == covered_by_some(str_views(a@), d@),
{
    let ghost av = str_views(a@);
    let mut i: usize = 0;
    while i < a.len()
        invariant
            av == str_views(a@),
            0 <= i <= a@.len(),
            forall|k: int| 0 <= k < i ==> !#[trigger] spec_is_ancestor_or_equal(av[k], d@),
        decreases a@.len() - i,
    {
        if is_ancestor_or_equal(a[i], d) {
            assert(spec_is_ancestor_or_equal(av[i as int], d@));
            return true;
        }
        i += 1;
    }
    false
}

/// Returns `true` if every path in `b` is covered by at least one path in
/// `a` via the ancestor relationship (after lexical normalization).
///
/// Paths are read with Unix rules on every platform: only `/` separates
/// components, and `\\`, drive letters and UNC prefixes are ordinary
/// characters of a component (as `std::path` reads them on Unix, not as it
/// does on Windows).
///
/// An empty `b` is always covered; a non-empty `b` is never covered by an
/// empty `a`.
pub fn paths_cover_by_ancestor(a: &[&str], b: &[&str]) -> (r: bool)
    ensures
        r == spec_paths_cover(str_views(a@), str_views(b@)),
        b@.len() == 0 ==> r,
        a@.len() == 0 && b@.len() > 0 ==> !r,
{
    let ghost av = str_views(a@);
    let ghost bv = str_views(b@);
    if b.len() == 0 {
        return true;
    }
    if a.len() == 0 {
        assert(!covered_by_some(av, bv[0]));
        return false;
    }
    let mut j: usize = 0;
    while j < b.len()
        invariant
            av == str_views(a@),
            bv == str_views(b@),
            0 <= j <= b@.len(),
            forall|k: int| 0 <= k < j ==> #[trigger] covered_by_some(av, bv[k]),
        decreases b@.len() - j,
    {
        if !any_ancestor(a, b[j]) {
            assert(!covered_by_some(av, bv[j as int]));
            return false;
        }
        j += 1;
    }
    true
}

/// Returns `true` if `a` and `b` cover the same set of paths: every element
/// of each is covered by an ancestor-or-equal element of the other.
/// Paths are read with Unix rules on every platform, as in
/// [`paths_cover_by_ancestor`].
pub fn paths_cover_as_set(a: &[&str], b: &[&str]) -> (r: bool)
    ensures
        r == (spec_paths_cover(str_views(a@), str_views(b@)) && spec_paths_cover(
            str_views(b@),
            str_views(a@),
        )),
{
    paths_cover_by_ancestor(a, b) && paths_cover_by_ancestor(b, a)
}

/// Every path is an ancestor-or-equal of itself.
pub proof fn law_ancestor_reflexive(p: Seq<char>)
    ensures
        spec_is_ancestor_or_equal(p, p),
{
}

/// Ancestry is transitive: an ancestor of an ancestor is an ancestor.
pub proof fn law_ancestor_transitive(a: Seq<char>, b: Seq<char>, c: Seq<char>)
    requires
        spec_is_ancestor_or_equal(a, b),
        spec_is_ancestor_or_equal(b, c),
    ensures
        spec_is_ancestor_or_equal(a, c),
{
    let na = normal_names(a);
    let nb = normal_names(b);
    let nc = normal_names(c);
    assert forall|k: int| 0 <= k < na.len() implies na[k] == nc[k] by {
        assert(na[k] == nb[k]);
    }
}

/// Every list of paths covers itself.
pub proof fn law_paths_cover_reflexive(a: Seq<Seq<char>>)
    ensures
        spec_paths_cover(a, a),
{
    assert forall|j: int| 0 <= j < a.len() implies #[trigger] covered_by_some(a, a[j]) by {
        law_ancestor_reflexive(a[j]);
        assert(spec_is_ancestor_or_equal(a[j], a[j]));
    }
}

/// Coverage is transitive: if `a` covers `b` and `b` covers `c`, then `a`
/// covers `c`.
pub proof fn law_paths_cover_transitive(a: Seq<Seq<char>>, b: Seq<Seq<char>>, c: Seq<Seq<char>>)
    requires
        spec_paths_cover(a, b),
        spec_paths_cover(b, c),
    ensures
        spec_paths_cover(a, c),
{
    assert forall|j: int| 0 <= j < c.len() implies #[trigger] covered_by_some(a, c[j]) by {
        assert(covered_by_some(b, c[j]));
        let m = choose|m: int| 0 <= m < b.len() && #[trigger] spec_is_ancestor_or_equal(b[m], c[j]);
        assert(covered_by_some(a, b[m]));
        let i = choose|i: int| 0 <= i < a.len() && #[trigger] spec_is_ancestor_or_equal(a[i], b[m]);
        law_ancestor_transitive(a[i], b[m], c[j]);
    }
}

/// A measure that strict ancestry raises: two per component, one more for
/// the root.
pub open spec fn path_depth(p: Seq<char>) -> nat {
    2 * normal_names(p).len() + if is_absolute(p) { 1nat } else { 0nat }
}

/// An ancestor is never deeper than its descendant.
pub proof fn lemma_ancestor_not_deeper(a: Seq<char>, b: Seq<char>)
    requires
        spec_is_ancestor_or_equal(a, b),
    ensures
        path_depth(a) <= path_depth(b),
{
}

/// A strict ancestor (one that the descendant does not cover back) is
/// shallower.
pub proof fn lemma_strict_ancestor_shallower(a: Seq<char>, b: Seq<char>)
    requires
        spec_is_ancestor_or_equal(a, b),
        !spec_is_ancestor_or_equal(b, a),
    ensures
        path_depth(a) < path_depth(b),
{
    let na = normal_names(a);
    let nb = normal_names(b);
    if na.len() == nb.len() {
        assert(na =~= nb);
        assert(nb.is_prefix_of(na));
    }
}

/// Covering as a set is an equivalence: reflexive, symmetric and transitive.
pub proof fn law_paths_cover_as_set_equivalence(
    a: Seq<Seq<char>>,
    b: Seq<Seq<char>>,
    c: Seq<Seq<char>>,
)
    ensures
        spec_paths_cover(a, a),
        (spec_paths_cover(a, b) && spec_paths_cover(b, a)) == (spec_paths_cover(b, a)
            && spec_paths_cover(a, b)),
        (spec_paths_cover(a, b) && spec_paths_cover(b, a) && spec_paths_cover(b, c)
            && spec_paths_cover(c, b)) ==> (spec_paths_cover(a, c) && spec_paths_cover(c, a)),
{
    law_paths_cover_reflexive(a);
    if spec_paths_cover(a, b) && spec_paths_cover(b, a) && spec_paths_cover(b, c)
        && spec_paths_cover(c, b) {
        law_paths_cover_transitive(a, b, c);
        law_paths_cover_transitive(c, b, a);
    }
}

/// The path text of a normalized form: the components joined by `/`, with
/// a leading `/` when the path is absolute.
pub open spec fn render_path(absolute: bool, names: Seq<Seq<char>>) -> Seq<char>
    decreases names.len(),
{
    if names.len() == 0 {
        if absolute { seq!['/'] } else { Seq::empty() }
    } else if names.len() == 1 {
        (if absolute { seq!['/'] } else { Seq::<char>::empty() }) + names[0]
    } else {
        render_path(absolute, names.drop_last()) + seq!['/'] + names.last()
    }
}

/// A component of a normalized path: not empty, not `.` or `..`, and
/// without `/`.
pub open spec fn plain_component(c: Seq<char>) -> bool {
    c.len() > 0 && c != seq!['.'] && c != seq!['.', '.'] && !c.contains('/')
}

proof fn lemma_split_pieces_no_sep(s: Seq<char>, sep: char)
    ensures
        forall|i: int| 0 <= i < split_on(s, sep).len() ==> !(#[trigger] split_on(s, sep)[i]).contains(sep),
    decreases s.len(),
{
    if s.len() > 0 {
        lemma_split_pieces_no_sep(s.drop_last(), sep);
        lemma_split_on_nonempty(s.drop_last(), sep);
        let prev = split_on(s.drop_last(), sep);
        if s.last() != sep {
            let last = prev.last().push(s.last());
            assert(!prev.last().contains(sep));
            assert(!last.contains(sep)) by {
                if last.contains(sep) {
                    let k = choose|k: int| 0 <= k < last.len() && last[k] == sep;
                    assert(prev.last()[k] == sep);
                }
            }
            let cur = prev.update(prev.len() - 1, last);
            assert forall|i: int| 0 <= i < cur.len() implies !(#[trigger] cur[i]).contains(sep) by {
                if i < prev.len() - 1 {
                    assert(cur[i] == prev[i]);
                }
            }
        } else {
            let cur = prev.push(Seq::<char>::empty());
            assert forall|i: int| 0 <= i < cur.len() implies !(#[trigger] cur[i]).contains(sep) by {
                if i < prev.len() {
                    assert(cur[i] == prev[i]);
                }
            }
        }
    } else {
        assert(split_on(s, sep) =~= seq![Seq::<char>::empty()]);
    }
}

proof fn lemma_resolve_plain(segs: Seq<Seq<char>>)
    requires
        forall|i: int| 0 <= i < segs.len() ==> !(#[trigger] segs[i]).contains('/'),
    ensures
        forall|i: int| 0 <= i < resolve(segs).len() ==> plain_component(#[trigger] resolve(segs)[i]),
    decreases segs.len(),
{
    if segs.len() > 0 {
        let prev = segs.drop_last();
        assert forall|i: int| 0 <= i < prev.len() implies !(#[trigger] prev[i]).contains('/') by {
            assert(prev[i] == segs[i]);
        }
        lemma_resolve_plain(prev);
        let seg = segs.last();
        assert(!segs[segs.len() - 1].contains('/'));
        let r0 = resolve(prev);
        let r = resolve(segs);
        assert(r == resolve_step(r0, seg));
        assert forall|i: int| 0 <= i < r.len() implies plain_component(#[trigger] r[i]) by {
            if seg.len() == 0 || seg == seq!['.'] {
            } else if seg == seq!['.', '.'] {
                if r0.len() > 0 {
                    assert(r[i] == r0[i]);
                }
            } else {
                if i < r0.len() {
                    assert(r[i] == r0[i]);
                } else {
                    assert(r[i] == seg);
                }
            }
        }
    }
}

proof fn lemma_resolve_empty_pieces(n: int)
    requires
        0 <= n <= 2,
    ensures
        resolve(Seq::new(n as nat, |i: int| Seq::<char>::empty())) == Seq::<Seq<char>>::empty(),
    decreases n,
{
    let segs = Seq::new(n as nat, |i: int| Seq::<char>::empty());
    if n > 0 {
        lemma_resolve_empty_pieces(n - 1);
        assert(segs.drop_last() =~= Seq::new((n - 1) as nat, |i: int| Seq::<char>::empty()));
        assert(segs.last() =~= Seq::<char>::empty());
    }
}

proof fn lemma_split_no_sep(b: Seq<char>, sep: char)
    requires
        !b.contains(sep),
    ensures
        split_on(b, sep) == seq![b],
    decreases b.len(),
{
    if b.len() > 0 {
        assert(!b.drop_last().contains(sep)) by {
            if b.drop_last().contains(sep) {
                let k = choose|k: int| 0 <= k < b.drop_last().len() && b.drop_last()[k] == sep;
                assert(b[k] == sep);
            }
        }
        lemma_split_no_sep(b.drop_last(), sep);
        assert(b.last() != sep) by {
            assert(b[b.len() - 1] == b.last());
        }
        assert(b.drop_last().push(b.last()) =~= b);
        assert(split_on(b, sep) =~= seq![b]);
    } else {
        assert(b =~= Seq::<char>::empty());
    }
}

proof fn lemma_split_append(s: Seq<char>, b: Seq<char>, sep: char)
    requires
        !b.contains(sep),
    ensures
        split_on(s + b, sep) == split_on(s, sep).update(
            split_on(s, sep).len() - 1,
            split_on(s, sep).last() + b,
        ),
    decreases b.len(),
{
    lemma_split_on_nonempty(s, sep);
    if b.len() == 0 {
        assert(s + b =~= s);
        let sp = split_on(s, sep);
        assert(sp.last() + b =~= sp.last());
        assert(sp.update(sp.len() - 1, sp.last()) =~= sp);
    } else {
        let b0 = b.drop_last();
        assert(!b0.contains(sep)) by {
            if b0.contains(sep) {
                let k = choose|k: int| 0 <= k < b0.len() && b0[k] == sep;
                assert(b[k] == sep);
            }
        }
        lemma_split_append(s, b0, sep);
        let t = s + b;
        assert(t.drop_last() =~= s + b0);
        assert(t.last() == b[b.len() - 1]);
        assert(b.last() != sep);
        let sp = split_on(s, sep);
        let prev = split_on(s + b0, sep);
        assert(prev.last() == sp.last() + b0);
        assert(prev.last().push(b.last()) =~= sp.last() + b);
        assert(split_on(t, sep) =~= sp.update(sp.len() - 1, sp.last() + b));
    }
}

/// The split of a rendered path gives back its components, after an empty
/// piece for the root.
proof fn lemma_split_render(absolute: bool, names: Seq<Seq<char>>)
    requires
        names.len() > 0,
        forall|i: int| 0 <= i < names.len() ==> plain_component(#[trigger] names[i]),
    ensures
        split_on(render_path(absolute, names), '/') == (if absolute {
            seq![Seq::<char>::empty()]
        } else {
            Seq::<Seq<char>>::empty()
        }) + names,
        render_path(absolute, names).len() > 0,
        render_path(absolute, names)[0] == (if absolute { '/' } else { names[0][0] }),
    decreases names.len(),
{
    let pre = if absolute {
        seq![Seq::<char>::empty()]
    } else {
        Seq::<Seq<char>>::empty()
    };
    let n0 = names[0];
    assert(plain_component(n0));
    if names.len() == 1 {
        if absolute {
            let root = seq!['/'];
            assert(root.drop_last() =~= Seq::<char>::empty());
            assert(split_on(root.drop_last(), '/') =~= seq![Seq::<char>::empty()]);
            assert(split_on(root, '/') =~= seq![Seq::<char>::empty(), Seq::<char>::empty()]);
            lemma_split_append(root, n0, '/');
            assert(split_on(root + n0, '/') =~= pre + names);
            assert(render_path(absolute, names) =~= root + n0);
        } else {
            lemma_split_no_sep(n0, '/');
            assert(render_path(absolute, names) =~= n0);
            assert(pre + names =~= seq![n0]);
        }
    } else {
        let prev = names.drop_last();
        assert forall|i: int| 0 <= i < prev.len() implies plain_component(#[trigger] prev[i]) by {
            assert(prev[i] == names[i]);
        }
        lemma_split_render(absolute, prev);
        let r = render_path(absolute, prev);
        let rs = r + seq!['/'];
        assert(rs.drop_last() =~= r);
        assert(rs.last() == '/');
        assert(split_on(rs, '/') == split_on(r, '/').push(Seq::<char>::empty()));
        let last = names.last();
        assert(plain_component(names[names.len() - 1]));
        lemma_split_append(rs, last, '/');
        assert(split_on(rs + last, '/') =~= pre + names);
        assert(prev[0] == names[0]);
    }
}

proof fn lemma_resolve_plain_names(pre: Seq<Seq<char>>, names: Seq<Seq<char>>)
    requires
        pre == Seq::<Seq<char>>::empty() || pre == seq![Seq::<char>::empty()],
        forall|i: int| 0 <= i < names.len() ==> plain_component(#[trigger] names[i]),
    ensures
        resolve(pre + names) == names,
    decreases names.len(),
{
    if names.len() == 0 {
        assert(pre + names =~= pre);
        if pre.len() == 1 {
            lemma_resolve_empty_pieces(1);
            assert(pre =~= Seq::new(1, |i: int| Seq::<char>::empty()));
        } else {
            lemma_resolve_empty_pieces(0);
            assert(pre =~= Seq::new(0, |i: int| Seq::<char>::empty()));
        }
        assert(resolve(pre) =~= names);
    } else {
        let prev = names.drop_last();
        assert forall|i: int| 0 <= i < prev.len() implies plain_component(#[trigger] prev[i]) by {
            assert(prev[i] == names[i]);
        }
        lemma_resolve_plain_names(pre, prev);
        assert((pre + names).drop_last() =~= pre + prev);
        assert((pre + names).last() == names.last());
        assert(plain_component(names[names.len() - 1]));
        assert(prev.push(names.last()) =~= names);
    }
}

/// Normalizing is idempotent: the components of a normalized path are
/// plain (no empty, `.` or `..` component, no `/`), and writing the path
/// back out and normalizing it again gives the same absoluteness and the
/// same components.
pub proof fn law_normalize_idempotent(p: Seq<char>)
    ensures
        forall|i: int| 0 <= i < normal_names(p).len() ==> plain_component(#[trigger] normal_names(p)[i]),
        is_absolute(render_path(is_absolute(p), normal_names(p))) == is_absolute(p),
        normal_names(render_path(is_absolute(p), normal_names(p))) == normal_names(p),
{
    let names = normal_names(p);
    let abs = is_absolute(p);
    lemma_split_pieces_no_sep(p, '/');
    lemma_resolve_plain(split_on(p, '/'));
    if names.len() == 0 {
        if abs {
            let root = seq!['/'];
            assert(root.drop_last() =~= Seq::<char>::empty());
            assert(split_on(root.drop_last(), '/') =~= seq![Seq::<char>::empty()]);
            assert(split_on(root, '/') =~= seq![Seq::<char>::empty(), Seq::<char>::empty()]);
            let sp = split_on(root, '/');
            lemma_resolve_empty_pieces(2);
            assert(sp =~= Seq::new(2, |i: int| Seq::<char>::empty()));
            assert(render_path(abs, names) == root);
        } else {
            assert(split_on(Seq::<char>::empty(), '/') =~= seq![Seq::<char>::empty()]);
            lemma_resolve_empty_pieces(1);
            assert(seq![Seq::<char>::empty()] =~= Seq::new(1, |i: int| Seq::<char>::empty()));
            assert(render_path(abs, names) == Seq::<char>::empty());
        }
    } else {
        lemma_split_render(abs, names);
        let pre = if abs {
            seq![Seq::<char>::empty()]
        } else {
            Seq::<Seq<char>>::empty()
        };
        lemma_resolve_plain_names(pre, names);
        assert(plain_component(names[0]));
        if !abs {
            assert(names[0][0] != '/') by {
                assert(names[0].contains(names[0][0]));
            }
        }
    }
}

} // verus!
