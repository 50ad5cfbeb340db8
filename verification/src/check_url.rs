//! URL coverage: same origin (scheme, host, port) and a path prefix that
//! ends on a segment boundary.
use vstd::prelude::*;
use crate::text::{chars_of, same_text, str_views};

verus! {

/// The parts of a parsed absolute URL that coverage compares.
pub struct UrlParts {
    /// The lower-cased scheme, without the `:`.
    pub scheme: String,
    /// The host, if the URL has one.
    pub host: Option<String>,
    /// The explicit port, or the scheme's well-known default.
    pub port: Option<u16>,
    /// The path, without query or fragment.
    pub path: String,
}

/// The mathematical value of [`UrlParts`].
pub struct UrlPartsView {
    pub scheme: Seq<char>,
    pub host: Option<Seq<char>>,
    pub port: Option<u16>,
    pub path: Seq<char>,
}

impl View for UrlParts {
    type V = UrlPartsView;

    open spec fn view(&self) -> UrlPartsView {
        UrlPartsView {
            scheme: self.scheme@,
            host: match self.host {
                Some(h) => Some(h@),
                None => None,
            },
            port: self.port,
            path: self.path@,
        }
    }
}

/// The view of an optional [`UrlParts`].
pub open spec fn opt_parts_view(p: Option<UrlParts>) -> Option<UrlPartsView> {
    match p {
        Some(x) => Some(x@),
        None => None,
    }
}

/// What `url::Url::parse` makes of `input`: `None` when it returns an error,
/// otherwise the URL's `scheme()`, `host_str()`, `port_or_known_default()`
/// and `path()`.
pub uninterp spec fn parsed_url(input: Seq<char>) -> Option<UrlPartsView>;

/// Parses `input` with `url::Url::parse` and reads back the parts that
/// coverage compares.
///
/// Trusted: the result is `parsed_url(input@)`, the named outcome of the
/// parse. Nothing is stated of which inputs parse or what the parts are.
#[verifier::external_body]
fn parse_url(input: &str) -> (r: Option<UrlParts>)
    ensures
        opt_parts_view(r) == parsed_url(input@),
{
    match url::Url::parse(input) {
        Ok(u) => Some(UrlParts {
            scheme: u.scheme().to_string(),
            host: u.host_str().map(str::to_string),
            port: u.port_or_known_default(),
            path: u.path().to_string(),
        }),
        Err(_) => None,
    }
}

/// `s` without its trailing `/` characters (as `trim_end_matches('/')`).
pub open spec fn trim_trailing_slashes(s: Seq<char>) -> Seq<char>
    decreases s.len(),
{
    if s.len() > 0 && s.last() == '/' {
        trim_trailing_slashes(s.drop_last())
    } else {
        s
    }
}

/// `prefix` is a prefix of `path` that stops at a segment boundary: it is
/// empty, the whole of `path`, or followed by `/` in `path`.
pub open spec fn path_prefix_on_boundary(prefix: Seq<char>, path: Seq<char>) -> bool {
    &&& prefix.is_prefix_of(path)
    &&& (prefix.len() == 0 || path.len() == prefix.len() || path[prefix.len() as int] == '/')
}

/// URL parts `a` cover URL parts `b`: same scheme, host and port, and the
/// path of `a` (trailing slashes trimmed) is a segment-aligned prefix of the
/// path of `b`.
pub open spec fn spec_parts_cover(a: UrlPartsView, b: UrlPartsView) -> bool {
    &&& a.scheme == b.scheme
    &&& a.host == b.host
    &&& a.port == b.port
    &&& path_prefix_on_boundary(trim_trailing_slashes(a.path), b.path)
}

/// URL `a` covers URL `b`: both parse, and the parts of `a` cover those of `b`.
pub open spec fn spec_url_covers(a: Seq<char>, b: Seq<char>) -> bool {
    match (parsed_url(a), parsed_url(b)) {
        (Some(pa), Some(pb)) => spec_parts_cover(pa, pb),
        _ => false,
    }
}

/// Some URL of `a` covers `u`.
pub open spec fn url_covered_by_some(a: Seq<Seq<char>>, u: Seq<char>) -> bool {
    exists|i: int| 0 <= i < a.len() && #[trigger] spec_url_covers(a[i], u)
}

/// Every URL of `b` is covered by some URL of `a`.
pub open spec fn spec_urls_cover(a: Seq<Seq<char>>, b: Seq<Seq<char>>) -> bool {
    forall|j: int| 0 <= j < b.len() ==> #[trigger] url_covered_by_some(a, b[j])
}

fn trim_slashes_len(s: &Vec<char>) -> (n: usize)
    ensures
        n <= s@.len(),
        trim_trailing_slashes(s@) == s@.take(n as int),
{
    let mut n = s.len();
    proof {
        assert(s@.take(n as int) =~= s@);
    }
    while n > 0 && s[n - 1] == '/'
        invariant
            n <= s@.len(),
            trim_trailing_slashes(s@) == trim_trailing_slashes(s@.take(n as int)),
        decreases n,
    {
        proof {
            assert(s@.take(n as int).drop_last() =~= s@.take(n - 1));
        }
        n -= 1;
    }
    n
}

fn same_opt_text(a: &Option<String>, b: &Option<String>) -> (r: bool)
    ensures
        r == (match a {
            Some(x) => Some(x@),
            None => None::<Seq<char>>,
        } == match b {
            Some(x) => Some(x@),
            None => None::<Seq<char>>,
        }),
{
    match (a, b) {
        (Some(x), Some(y)) => same_text(x.as_str(), y.as_str()),
        (None, None) => true,
        _ => false,
    }
}

/// Whether the URL parts `a` cover the URL parts `b`.
pub fn url_parts_cover(a: &UrlParts, b: &UrlParts) -> (r: bool)
    ensures
        r == spec_parts_cover(a@, b@),
{
    if !same_text(a.scheme.as_str(), b.scheme.as_str()) {
        return false;
    }
    if !same_opt_text(&a.host, &b.host) {
        return false;
    }
    if a.port != b.port {
        return false;
    }
    let a_path = chars_of(a.path.as_str());
    let b_path = chars_of(b.path.as_str());
    let n = trim_slashes_len(&a_path);
    let ghost prefix = a_path@.take(n as int);
    if n > b_path.len() {
        return false;
    }
    let mut i: usize = 0;
    while i < n
        invariant
            n <= a_path@.len(),
            n <= b_path@.len(),
            prefix == a_path@.take(n as int),
            a_path@ == a@.path,
            b_path@ == b@.path,
            trim_trailing_slashes(a@.path) == prefix,
            0 <= i <= n,
            forall|k: int| 0 <= k < i ==> a_path@[k] == b_path@[k],
        decreases n - i,
    {
        if a_path[i] != b_path[i] {
            assert(prefix[i as int] != b_path@[i as int]);
            assert(!prefix.is_prefix_of(b_path@)) by {
                if prefix.is_prefix_of(b_path@) {
                    assert(b_path@.subrange(0, n as int)[i as int] == b_path@[i as int]);
                }
            }
            return false;
        }
        i += 1;
    }
    assert(prefix.is_prefix_of(b_path@)) by {
        assert(prefix =~= b_path@.subrange(0, n as int));
    }
    n == 0 || b_path.len() == n || b_path[n] == '/'
}

/// Returns `true` if URL `a` covers URL `b`: both parse, with the same
/// scheme, host and port, and `a`'s path is a segment-aligned prefix of
/// `b`'s path.
pub fn url_covers(a: &str, b: &str) -> (r: bool)
    ensures
        r == spec_url_covers(a@, b@),
{
    let pa = parse_url(a);
    let pb = parse_url(b);
    match (pa, pb) {
        (Some(x), Some(y)) => url_parts_cover(&x, &y),
        _ => false,
    }
}

fn any_url_covers(a: &[&str], u: &str) -> (r: bool)
    ensures
        r == url_covered_by_some(str_views(a@), u@),
{
    let ghost av = str_views(a@);
    let mut i: usize = 0;
    while i < a.len()
        invariant
            av == str_views(a@),
            0 <= i <= a@.len(),
            forall|k: int| 0 <= k < i ==> !#[trigger] spec_url_covers(av[k], u@),
        decreases a@.len() - i,
    {
        if url_covers(a[i], u) {
            assert(spec_url_covers(av[i as int], u@));
            return true;
        }
        i += 1;
    }
    false
}

/// Returns `true` if every URL in `b` is covered by at least one URL in `a`
/// via origin + path-prefix matching.
///
/// An empty `b` is always covered; a non-empty `b` is never covered by an
/// empty `a`; a URL of `b` that does not parse is never covered.
pub fn urls_cover_by_ancestor(a: &[&str], b: &[&str]) -> (r: bool)
    ensures
        r == spec_urls_cover(str_views(a@), str_views(b@)),
        b@.len() == 0 ==> r,
        a@.len() == 0 && b@.len() > 0 ==> !r,
{
    let ghost av = str_views(a@);
    let ghost bv = str_views(b@);
    if b.len() == 0 {
        return true;
    }
    if a.len() == 0 {
        assert(!url_covered_by_some(av, bv[0]));
        return false;
    }
    let mut j: usize = 0;
    while j < b.len()
        invariant
            av == str_views(a@),
            bv == str_views(b@),
            0 <= j <= b@.len(),
            forall|k: int| 0 <= k < j ==> #[trigger] url_covered_by_some(av, bv[k]),
        decreases b@.len() - j,
    {
        if !any_url_covers(a, b[j]) {
            assert(!url_covered_by_some(av, bv[j as int]));
            return false;
        }
        j += 1;
    }
    true
}

proof fn lemma_trim_is_prefix(s: Seq<char>)
    ensures
        trim_trailing_slashes(s).is_prefix_of(s),
        trim_trailing_slashes(s).len() == 0 || trim_trailing_slashes(s).last() != '/',
        forall|k: int|
            trim_trailing_slashes(s).len() <= k < s.len() ==> #[trigger] s[k] == '/',
    decreases s.len(),
{
    if s.len() > 0 && s.last() == '/' {
        lemma_trim_is_prefix(s.drop_last());
        let t = trim_trailing_slashes(s);
        assert forall|k: int| t.len() <= k < s.len() implies #[trigger] s[k] == '/' by {
            if k < s.len() - 1 {
                assert(s.drop_last()[k] == s[k]);
            }
        }
    }
}

/// A URL that does not parse is never covered, by any URL.
pub proof fn law_malformed_never_covered(a: Seq<char>, b: Seq<char>)
    requires
        parsed_url(b) is None,
    ensures
        !spec_url_covers(a, b),
{
}

/// Every URL that parses covers itself.
pub proof fn law_url_covers_reflexive(u: Seq<char>)
    requires
        parsed_url(u) is Some,
    ensures
        spec_url_covers(u, u),
{
    let p = parsed_url(u).unwrap();
    lemma_trim_is_prefix(p.path);
    let t = trim_trailing_slashes(p.path);
    if t.len() != 0 && t.len() != p.path.len() {
        assert(p.path[t.len() as int] == '/');
    }
}

/// URL coverage is transitive: if `a` covers `b` and `b` covers `c`, then
/// `a` covers `c`.
pub proof fn law_url_covers_transitive(a: Seq<char>, b: Seq<char>, c: Seq<char>)
    requires
        spec_url_covers(a, b),
        spec_url_covers(b, c),
    ensures
        spec_url_covers(a, c),
{
    let pa = parsed_url(a).unwrap();
    let pb = parsed_url(b).unwrap();
    let pc = parsed_url(c).unwrap();
    let ta = trim_trailing_slashes(pa.path);
    let tb = trim_trailing_slashes(pb.path);
    lemma_trim_is_prefix(pa.path);
    lemma_trim_is_prefix(pb.path);
    if ta.len() > 0 {
        // `ta` ends in a non-slash character, so trimming `pb.path` keeps all of it.
        assert(ta.len() <= tb.len()) by {
            if tb.len() < ta.len() {
                assert(pb.path[ta.len() - 1] == ta[ta.len() - 1]);
                assert(pb.path[ta.len() - 1] == '/');
            }
        }
        assert forall|k: int| 0 <= k < ta.len() implies ta[k] == pc.path[k] by {
            assert(ta[k] == pb.path[k]);
            assert(tb[k] == pb.path[k]);
            assert(tb[k] == pc.path[k]);
        }
        if pc.path.len() != ta.len() {
            if tb.len() == ta.len() {
                assert(pc.path.len() > tb.len());
                assert(pc.path[tb.len() as int] == '/');
            } else {
                assert(tb[ta.len() as int] == pb.path[ta.len() as int]);
                assert(pb.path[ta.len() as int] == '/');
                assert(tb[ta.len() as int] == pc.path[ta.len() as int]);
            }
        }
    }
}

/// A measure that strict URL coverage raises: the length of the trimmed
/// path.
pub open spec fn url_depth(u: Seq<char>) -> nat {
    match parsed_url(u) {
        Some(p) => trim_trailing_slashes(p.path).len(),
        None => 0,
    }
}

/// A URL that covers another never has a longer trimmed path.
pub proof fn lemma_cover_not_deeper(a: Seq<char>, b: Seq<char>)
    requires
        spec_url_covers(a, b),
    ensures
        url_depth(a) <= url_depth(b),
{
    let pa = parsed_url(a).unwrap();
    let pb = parsed_url(b).unwrap();
    let ta = trim_trailing_slashes(pa.path);
    let tb = trim_trailing_slashes(pb.path);
    lemma_trim_is_prefix(pa.path);
    lemma_trim_is_prefix(pb.path);
    if ta.len() > 0 && tb.len() < ta.len() {
        assert(pb.path[ta.len() - 1] == ta[ta.len() - 1]);
        assert(pb.path[ta.len() - 1] == '/');
    }
}

/// A URL that covers another without being covered back has a shorter
/// trimmed path.
pub proof fn lemma_strict_cover_shallower(a: Seq<char>, b: Seq<char>)
    requires
        spec_url_covers(a, b),
        !spec_url_covers(b, a),
    ensures
        url_depth(a) < url_depth(b),
{
    let pa = parsed_url(a).unwrap();
    let pb = parsed_url(b).unwrap();
    let ta = trim_trailing_slashes(pa.path);
    let tb = trim_trailing_slashes(pb.path);
    lemma_trim_is_prefix(pa.path);
    lemma_trim_is_prefix(pb.path);
    if ta.len() > 0 && tb.len() < ta.len() {
        assert(pb.path[ta.len() - 1] == ta[ta.len() - 1]);
        assert(pb.path[ta.len() - 1] == '/');
    }
    if ta.len() == tb.len() {
        assert forall|k: int| 0 <= k < ta.len() implies ta[k] == tb[k] by {
            assert(ta[k] == pb.path[k]);
            assert(tb[k] == pb.path[k]);
        }
        assert(ta =~= tb);
        if ta.len() != 0 && pa.path.len() != ta.len() {
            assert(pa.path[ta.len() as int] == '/');
        }
        assert(spec_parts_cover(pb, pa));
    }
}

/// Every list of URLs that all parse covers itself.
pub proof fn law_urls_cover_reflexive(a: Seq<Seq<char>>)
    requires
        forall|i: int| 0 <= i < a.len() ==> #[trigger] parsed_url(a[i]) is Some,
    ensures
        spec_urls_cover(a, a),
{
    assert forall|j: int| 0 <= j < a.len() implies #[trigger] url_covered_by_some(a, a[j]) by {
        law_url_covers_reflexive(a[j]);
        assert(spec_url_covers(a[j], a[j]));
    }
}

/// Coverage of URL lists is transitive.
pub proof fn law_urls_cover_transitive(a: Seq<Seq<char>>, b: Seq<Seq<char>>, c: Seq<Seq<char>>)
    requires
        spec_urls_cover(a, b),
        spec_urls_cover(b, c),
    ensures
        spec_urls_cover(a, c),
{
    assert forall|j: int| 0 <= j < c.len() implies #[trigger] url_covered_by_some(a, c[j]) by {
        assert(url_covered_by_some(b, c[j]));
        let m = choose|m: int| 0 <= m < b.len() && #[trigger] spec_url_covers(b[m], c[j]);
        assert(url_covered_by_some(a, b[m]));
        let i = choose|i: int| 0 <= i < a.len() && #[trigger] spec_url_covers(a[i], b[m]);
        law_url_covers_transitive(a[i], b[m], c[j]);
    }
}

} // verus!
