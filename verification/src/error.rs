//! Errors of workflow execution and permission checks.
use vstd::prelude::*;
use crate::permission::Permissions;
use crate::proto::Permission;
use crate::text::{chars_of, decimal_i32, spec_decimal};

verus! {

/// The kinds of workflow runtime failure.
#[derive(Debug, Clone, Copy, PartialEq, Eq, Structural)]
pub enum WorkflowRuntimeErrorType {
    CorePluginPrepareError,
    CorePluginExecuteError,
    WorkflowScriptExecuteError,
}

/// A JavaScript execution failure. The JS error message and stack trace are
/// kept as plain text.
#[derive(Debug)]
pub struct WorkflowRuntimeError {
    pub message: String,
    pub error_type: WorkflowRuntimeErrorType,
    /// Full JS error message and stack trace.
    pub js_error_detail: String,
}

/// A permission check that failed: what was requested and what was granted.
#[derive(Debug)]
pub struct PermissionDeniedError {
    pub requested: Permissions,
    pub granted: Permissions,
}

/// Any Sapphillon error.
#[derive(Debug)]
pub enum Error {
    WorkflowRuntimeError(WorkflowRuntimeError),
    PermissionDeniedError(PermissionDeniedError),
}

/// Any Sapphillon error.
pub type SapphillonError = Error;

impl From<WorkflowRuntimeError> for Error {
    fn from(e: WorkflowRuntimeError) -> (r: Self) {
        Error::WorkflowRuntimeError(e)
    }
}

impl vstd::std_specs::convert::FromSpecImpl<WorkflowRuntimeError> for Error {
    open spec fn obeys_from_spec() -> bool {
        true
    }

    open spec fn from_spec(e: WorkflowRuntimeError) -> Self {
        Error::WorkflowRuntimeError(e)
    }
}

impl From<PermissionDeniedError> for Error {
    fn from(e: PermissionDeniedError) -> (r: Self) {
        Error::PermissionDeniedError(e)
    }
}

impl vstd::std_specs::convert::FromSpecImpl<PermissionDeniedError> for Error {
    open spec fn obeys_from_spec() -> bool {
        true
    }

    open spec fn from_spec(e: PermissionDeniedError) -> Self {
        Error::PermissionDeniedError(e)
    }
}

// ── Messages ──────────────────────────────────────────────────────────────

/// The hexadecimal digit of `d` (lower case).
pub open spec fn hex_digit(d: int) -> char {
    if d == 0 { '0' }
    else if d == 1 { '1' }
    else if d == 2 { '2' }
    else if d == 3 { '3' }
    else if d == 4 { '4' }
    else if d == 5 { '5' }
    else if d == 6 { '6' }
    else if d == 7 { '7' }
    else if d == 8 { '8' }
    else if d == 9 { '9' }
    else if d == 10 { 'a' }
    else if d == 11 { 'b' }
    else if d == 12 { 'c' }
    else if d == 13 { 'd' }
    else if d == 14 { 'e' }
    else { 'f' }
}

/// The hexadecimal digits of `n` < 256, without leading zeros.
pub open spec fn hex_byte(n: int) -> Seq<char> {
    if n < 16 {
        seq![hex_digit(n)]
    } else {
        seq![hex_digit(n / 16), hex_digit(n % 16)]
    }
}

/// What `char::escape_debug` yields for `c`.
pub uninterp spec fn debug_escaped(c: char) -> Seq<char>;

/// The escape that `char::escape_debug` writes for `c`.
///
/// Trusted: the result is `debug_escaped(c)`, the named outcome of the std
/// call. Nothing is stated of which characters it escapes or how.
#[verifier::external_body]
fn escape_debug_text(c: char) -> (r: String)
    ensures
        r@ == debug_escaped(c),
{
    c.escape_debug().to_string()
}

/// How `{:?}` writes `c` inside a string. In ASCII: quotes, backslashes
/// and the common control characters get a backslash escape, the other
/// control characters a `\u{..}` escape, and the printable characters
/// (the single quote among them) stand as they are. Beyond ASCII, the
/// escape is the one `char::escape_debug` writes (which escapes
/// non-printable and grapheme-extending characters as `\u{..}`).
pub open spec fn escaped_char(c: char) -> Seq<char> {
    if c == '"' {
        "\\\""@
    } else if c == '\\' {
        "\\\\"@
    } else if c == '\n' {
        "\\n"@
    } else if c == '\r' {
        "\\r"@
    } else if c == '\t' {
        "\\t"@
    } else if c == '\0' {
        "\\0"@
    } else if (c as int) < 0x20 || (c as int) == 0x7f {
        "\\u{"@ + hex_byte(c as int) + "}"@
    } else if (c as int) < 0x80 {
        seq![c]
    } else {
        debug_escaped(c)
    }
}

/// The characters of `s`, each escaped.
pub open spec fn escaped_text(s: Seq<char>) -> Seq<char>
    decreases s.len(),
{
    if s.len() == 0 {
        Seq::empty()
    } else {
        escaped_text(s.drop_last()) + escaped_char(s.last())
    }
}

/// A string as `{:?}` writes it: quoted, its characters escaped.
pub open spec fn quoted(s: Seq<char>) -> Seq<char> {
    "\""@ + escaped_text(s) + "\""@
}

/// A grant as `{:?}` writes it.
pub open spec fn permission_text(p: Permission) -> Seq<char> {
    "Permission { permission_type: "@ + spec_decimal(p.permission_type as int) + ", resource: "@
        + quoted(p.resource@) + " }"@
}

/// Grants as `{:?}` writes their list, without the brackets.
pub open spec fn permission_list_text(ps: Seq<Permission>) -> Seq<char>
    decreases ps.len(),
{
    if ps.len() == 0 {
        Seq::empty()
    } else if ps.len() == 1 {
        permission_text(ps[0])
    } else {
        permission_list_text(ps.drop_last()) + ", "@ + permission_text(ps.last())
    }
}

/// A permission set as `{:?}` writes it.
pub open spec fn permissions_text(ps: Seq<Permission>) -> Seq<char> {
    "Permissions { permissions: ["@ + permission_list_text(ps) + "] }"@
}

/// The name of an error kind.
pub open spec fn error_type_name(t: WorkflowRuntimeErrorType) -> Seq<char> {
    match t {
        WorkflowRuntimeErrorType::CorePluginPrepareError => "CorePluginPrepareError"@,
        WorkflowRuntimeErrorType::CorePluginExecuteError => "CorePluginExecuteError"@,
        WorkflowRuntimeErrorType::WorkflowScriptExecuteError => "WorkflowScriptExecuteError"@,
    }
}

/// The message of a runtime error: its kind, `: `, and its message.
pub open spec fn runtime_error_text(e: WorkflowRuntimeError) -> Seq<char> {
    error_type_name(e.error_type) + ": "@ + e.message@
}

/// The message of a denied permission check.
pub open spec fn denied_text(e: PermissionDeniedError) -> Seq<char> {
    "permission denied \u{2014} requested: "@ + permissions_text(e.requested.permissions@)
        + ", granted: "@ + permissions_text(e.granted.permissions@)
}

/// The message of an error.
pub open spec fn error_text(e: Error) -> Seq<char> {
    match e {
        Error::WorkflowRuntimeError(w) => "workflow runtime error: "@ + runtime_error_text(w),
        Error::PermissionDeniedError(p) => "permission denied: "@ + denied_text(p),
    }
}

fn hex_digit_text(d: u32) -> (r: &'static str)
    requires
        d < 16,
    ensures
        r@ == seq![hex_digit(d as int)],
{
    match d {
        0 => { proof { reveal_strlit("0"); } "0" },
        1 => { proof { reveal_strlit("1"); } "1" },
        2 => { proof { reveal_strlit("2"); } "2" },
        3 => { proof { reveal_strlit("3"); } "3" },
        4 => { proof { reveal_strlit("4"); } "4" },
        5 => { proof { reveal_strlit("5"); } "5" },
        6 => { proof { reveal_strlit("6"); } "6" },
        7 => { proof { reveal_strlit("7"); } "7" },
        8 => { proof { reveal_strlit("8"); } "8" },
        9 => { proof { reveal_strlit("9"); } "9" },
        10 => { proof { reveal_strlit("a"); } "a" },
        11 => { proof { reveal_strlit("b"); } "b" },
        12 => { proof { reveal_strlit("c"); } "c" },
        13 => { proof { reveal_strlit("d"); } "d" },
        14 => { proof { reveal_strlit("e"); } "e" },
        _ => { proof { reveal_strlit("f"); } "f" },
    }
}

fn append_escaped_char(out: &mut String, s: &str, i: usize, c: char)
    requires
        i < s@.len(),
        i < usize::MAX,
        s@[i as int] == c,
    ensures
        final(out)@ == old(out)@ + escaped_char(c),
{
    if c == '"' {
        out.append("\\\"");
    } else if c == '\\' {
        out.append("\\\\");
    } else if c == '\n' {
        out.append("\\n");
    } else if c == '\r' {
        out.append("\\r");
    } else if c == '\t' {
        out.append("\\t");
    } else if c == '\0' {
        out.append("\\0");
    } else if (c as u32) < 0x20 || (c as u32) == 0x7f {
        let v = c as u32;
        out.append("\\u{");
        if v >= 16 {
            out.append(hex_digit_text(v / 16));
        }
        out.append(hex_digit_text(v % 16));
        out.append("}");
        proof {
            assert(out@ =~= old(out)@ + escaped_char(c));
        }
    } else if (c as u32) < 0x80 {
        out.append(s.substring_char(i, i + 1));
        proof {
            assert(s@.subrange(i as int, i + 1) =~= seq![c]);
        }
    } else {
        let e = escape_debug_text(c);
        out.append(e.as_str());
    }
}

fn append_quoted(out: &mut String, s: &str)
    ensures
        final(out)@ == old(out)@ + quoted(s@),
{
    let chars = chars_of(s);
    out.append("\"");
    let ghost start = out@;
    let mut i: usize = 0;
    while i < chars.len()
        invariant
            chars@ == s@,
            0 <= i <= chars@.len(),
            out@ == start + escaped_text(s@.take(i as int)),
        decreases chars@.len() - i,
    {
        append_escaped_char(out, s, i, chars[i]);
        proof {
            assert(s@.take(i + 1).drop_last() =~= s@.take(i as int));
        }
        i += 1;
    }
    out.append("\"");
    proof {
        assert(s@.take(i as int) =~= s@);
    }
}

fn append_permission(out: &mut String, p: &Permission)
    ensures
        final(out)@ == old(out)@ + permission_text(*p),
{
    out.append("Permission { permission_type: ");
    let n = decimal_i32(p.permission_type);
    out.append(n.as_str());
    out.append(", resource: ");
    append_quoted(out, p.resource.as_str());
    out.append(" }");
}

fn append_permissions(out: &mut String, ps: &Permissions)
    ensures
        final(out)@ == old(out)@ + permissions_text(ps.permissions@),
{
    out.append("Permissions { permissions: [");
    let ghost start = out@;
    let v = &ps.permissions;
    let mut i: usize = 0;
    while i < v.len()
        invariant
            0 <= i <= v@.len(),
            out@ == start + permission_list_text(v@.take(i as int)),
        decreases v@.len() - i,
    {
        proof {
            assert(v@.take(i + 1).drop_last() =~= v@.take(i as int));
            assert(v@.take(i + 1).last() == v@[i as int]);
        }
        if i > 0 {
            out.append(", ");
        } else {
            proof {
                assert(v@.take(1)[0] == v@[0]);
            }
        }
        append_permission(out, &v[i]);
        i += 1;
    }
    out.append("] }");
    proof {
        assert(v@.take(i as int) =~= v@);
    }
}

impl WorkflowRuntimeErrorType {
    /// The name of this kind, as `{:?}` writes it.
    pub fn name(&self) -> (r: &'static str)
        ensures
            r@ == error_type_name(*self),
    {
        match self {
            WorkflowRuntimeErrorType::CorePluginPrepareError => "CorePluginPrepareError",
            WorkflowRuntimeErrorType::CorePluginExecuteError => "CorePluginExecuteError",
            WorkflowRuntimeErrorType::WorkflowScriptExecuteError => "WorkflowScriptExecuteError",
        }
    }
}

impl WorkflowRuntimeError {
    /// The error's message: its kind, `: `, and its message.
    pub fn to_message(&self) -> (r: String)
        ensures
            r@ == runtime_error_text(*self),
    {
        let mut out = String::new();
        out.append(self.error_type.name());
        out.append(": ");
        out.append(self.message.as_str());
        out
    }
}

impl PermissionDeniedError {
    /// The error's message, with the requested and the granted permissions.
    pub fn to_message(&self) -> (r: String)
        ensures
            r@ == denied_text(*self),
    {
        let mut out = String::new();
        out.append("permission denied \u{2014} requested: ");
        append_permissions(&mut out, &self.requested);
        out.append(", granted: ");
        append_permissions(&mut out, &self.granted);
        out
    }
}

impl Error {
    /// The error's message.
    pub fn to_message(&self) -> (r: String)
        ensures
            r@ == error_text(*self),
    {
        let mut out = String::new();
        match self {
            Error::WorkflowRuntimeError(w) => {
                out.append("workflow runtime error: ");
                let m = w.to_message();
                out.append(m.as_str());
            },
            Error::PermissionDeniedError(p) => {
                out.append("permission denied: ");
                let m = p.to_message();
                out.append(m.as_str());
            },
        }
        out
    }
}

} // verus!
