//! Character-level helpers shared by the path, URL, permission and
//! script-text code.
use vstd::prelude::*;

verus! {

/// The views of a sequence of string slices.
pub open spec fn str_views(s: Seq<&str>) -> Seq<Seq<char>> {
    s.map_values(|x: &str| x@)
}

/// The pieces of `s` between occurrences of `sep`, empty ones included
/// (as `str::split` with a character).
pub open spec fn split_on(s: Seq<char>, sep: char) -> Seq<Seq<char>>
    decreases s.len(),
{
    if s.len() == 0 {
        seq![Seq::<char>::empty()]
    } else {
        let prev = split_on(s.drop_last(), sep);
        if s.last() == sep {
            prev.push(Seq::<char>::empty())
        } else {
            prev.update(prev.len() - 1, prev.last().push(s.last()))
        }
    }
}

/// A split always has at least one piece.
pub proof fn lemma_split_on_nonempty(s: Seq<char>, sep: char)
    ensures
        split_on(s, sep).len() >= 1,
    decreases s.len(),
{
    if s.len() > 0 {
        lemma_split_on_nonempty(s.drop_last(), sep);
    }
}

/// The views of a sequence of strings.
pub open spec fn string_views(s: Seq<String>) -> Seq<Seq<char>> {
    s.map_values(|x: String| x@)
}

/// The characters of `s`, in order.
pub fn chars_of(s: &str) -> (r: Vec<char>)
    ensures
        r@ == s@,
{
    let mut r: Vec<char> = Vec::new();
    for c in it: s.chars()
        invariant
            r@ == it.seq().take(it.index()),
    {
        r.push(c);
    }
    r
}

/// Whether two character vectors hold the same characters.
pub fn chars_equal(a: &Vec<char>, b: &Vec<char>) -> (r: bool)
    ensures
        r == (a@ == b@),
{
    if a.len() != b.len() {
        return false;
    }
    let mut i: usize = 0;
    while i < a.len()
        invariant
            a.len() == b.len(),
            0 <= i <= a.len(),
            forall|k: int| 0 <= k < i ==> a@[k] == b@[k],
        decreases a.len() - i,
    {
        if a[i] != b[i] {
            return false;
        }
        i += 1;
    }
    assert(a@ =~= b@);
    true
}

/// Whether two strings hold the same characters.
pub fn same_text(a: &str, b: &str) -> (r: bool)
    ensures
        r == (a@ == b@),
{
    let ca = chars_of(a);
    let cb = chars_of(b);
    chars_equal(&ca, &cb)
}

/// Whether `needle` equals one of the strings in `haystack`.
pub fn contains_text(haystack: &[&str], needle: &str) -> (r: bool)
    ensures
        r == (exists|i: int| 0 <= i < haystack@.len() && #[trigger] haystack@[i]@ == needle@),
{
    let mut i: usize = 0;
    while i < haystack.len()
        invariant
            0 <= i <= haystack@.len(),
            forall|k: int| 0 <= k < i ==> #[trigger] haystack@[k]@ != needle@,
        decreases haystack@.len() - i,
    {
        if same_text(haystack[i], needle) {
            return true;
        }
        i += 1;
    }
    false
}

/// Whether `pat` occurs in `s` starting at position `at`.
pub open spec fn occurs_at(s: Seq<char>, pat: Seq<char>, at: int) -> bool {
    0 <= at && at + pat.len() <= s.len() && s.subrange(at, at + pat.len()) == pat
}

/// Whether `pat` occurs anywhere in `s`.
pub open spec fn contains_seq(s: Seq<char>, pat: Seq<char>) -> bool {
    exists|at: int| #[trigger] occurs_at(s, pat, at)
}

/// Whether `pat` occurs in `s` (as `str::contains` with a string pattern).
pub fn contains_chars(s: &Vec<char>, pat: &Vec<char>) -> (r: bool)
    ensures
        r == contains_seq(s@, pat@),
{
    if pat.len() == 0 {
        assert(s@.subrange(0, 0) =~= pat@);
        assert(occurs_at(s@, pat@, 0));
        return true;
    }
    if pat.len() > s.len() {
        assert forall|at: int| !occurs_at(s@, pat@, at) by {}
        return false;
    }
    let n = s.len();
    let last = n - pat.len();
    let mut at: usize = 0;
    while at <= last
        invariant
            n == s@.len(),
            last == s@.len() - pat@.len(),
            1 <= pat@.len() <= s@.len(),
            0 <= at <= last + 1,
            forall|k: int| 0 <= k < at ==> !#[trigger] occurs_at(s@, pat@, k),
        decreases last + 1 - at,
    {
        let mut j: usize = 0;
        let mut matched = true;
        while j < pat.len()
            invariant
                at <= last,
                n == s@.len(),
                last == s@.len() - pat@.len(),
                1 <= pat@.len() <= s@.len(),
                0 <= j <= pat@.len(),
                matched == (forall|k: int| 0 <= k < j ==> s@[at + k] == pat@[k]),
            decreases pat@.len() - j,
        {
            if s[at + j] != pat[j] {
                matched = false;
            }
            j += 1;
        }
        if matched {
            assert(s@.subrange(at as int, at + pat@.len()) =~= pat@);
            assert(occurs_at(s@, pat@, at as int));
            return true;
        }
        assert(!occurs_at(s@, pat@, at as int)) by {
            let k = choose|k: int| 0 <= k < pat@.len() && s@[at + k] != pat@[k];
            if s@.subrange(at as int, at + pat@.len()) == pat@ {
                assert(s@.subrange(at as int, at + pat@.len())[k] == s@[at + k]);
            }
        }
        at += 1;
    }
    assert forall|k: int| !occurs_at(s@, pat@, k) by {
        if 0 <= k && k + pat@.len() <= s@.len() {
            assert(k < at);
        }
    }
    false
}

/// The character of a decimal digit.
pub open spec fn digit_char(d: int) -> char {
    if d == 0 { '0' }
    else if d == 1 { '1' }
    else if d == 2 { '2' }
    else if d == 3 { '3' }
    else if d == 4 { '4' }
    else if d == 5 { '5' }
    else if d == 6 { '6' }
    else if d == 7 { '7' }
    else if d == 8 { '8' }
    else { '9' }
}

/// Decimal digits of a natural number, most significant first, no leading zeros.
pub open spec fn spec_digits(n: nat) -> Seq<char>
    decreases n,
{
    if n < 10 {
        seq![digit_char(n as int)]
    } else {
        spec_digits(n / 10).push(digit_char((n % 10) as int))
    }
}

/// The decimal rendering of an integer, as `Display` writes it: a `-` before
/// negative numbers, then the digits of the magnitude.
pub open spec fn spec_decimal(v: int) -> Seq<char> {
    if v < 0 {
        seq!['-'] + spec_digits((-v) as nat)
    } else {
        spec_digits(v as nat)
    }
}

fn digit_text(d: u64) -> (r: &'static str)
    requires
        d < 10,
    ensures
        r@ == seq![digit_char(d as int)],
{
    match d {
        0 => { proof { reveal_strlit("0"); } "0" },
        1 => { proof { reveal_strlit("1"); } "1" },
        2 => { proof { reveal_strlit("2"); } "2" },
        3 => { proof { reveal_strlit("3"); } "3" },
        4 => { proof { reveal_strlit("4"); } "4" },
        5 => { proof { reveal_strlit("5"); } "5" },
        6 => { proof { reveal_strlit("6"); } "6" },
        7 => { proof { reveal_strlit("7"); } "7" },
        8 => { proof { reveal_strlit("8"); } "8" },
        _ => { proof { reveal_strlit("9"); } "9" },
    }
}

fn append_digits(out: &mut String, n: u64)
    ensures
        final(out)@ == old(out)@ + spec_digits(n as nat),
    decreases n,
{
    if n < 10 {
        out.append(digit_text(n));
    } else {
        append_digits(out, n / 10);
        out.append(digit_text(n % 10));
    }
}

/// The decimal rendering of `v`.
pub fn decimal_i32(v: i32) -> (r: String)
    ensures
        r@ == spec_decimal(v as int),
{
    let mut out = String::new();
    if v < 0 {
        proof { reveal_strlit("-"); }
        out.append("-");
        let magnitude: u64 = (0i64 - (v as i64)) as u64;
        append_digits(&mut out, magnitude);
    } else {
        append_digits(&mut out, v as u64);
    }
    out
}

} // verus!
