//! Workflow run state and the decisions of the script runtime: how the
//! engine's captured stdout is recorded, how an engine failure becomes an
//! error, and where a dispatched plugin call is routed.
use vstd::prelude::*;
use crate::error::{Error, WorkflowRuntimeError, WorkflowRuntimeErrorType};
use crate::permission::PluginFunctionPermissions;
use crate::plugin::CorePluginExternalPackage;
use crate::text::{chars_of, contains_text, lemma_split_on_nonempty, split_on, str_views, string_views};
use std::sync::Arc;

verus! {

/// One captured line of workflow output.
#[derive(Debug, Clone)]
pub enum WorkflowStdout {
    Stdout(String),
}

/// The text of a captured line.
pub open spec fn stdout_text(s: WorkflowStdout) -> Seq<char> {
    match s {
        WorkflowStdout::Stdout(t) => t@,
    }
}

/// The texts of captured lines, in order.
pub open spec fn stdout_texts(buf: Seq<WorkflowStdout>) -> Seq<Seq<char>> {
    buf.map_values(|s: WorkflowStdout| stdout_text(s))
}

/// The lines joined with `\n` between them.
pub open spec fn join_lines(lines: Seq<Seq<char>>) -> Seq<char>
    decreases lines.len(),
{
    if lines.len() == 0 {
        Seq::empty()
    } else if lines.len() == 1 {
        lines[0]
    } else {
        join_lines(lines.drop_last()) + seq!['\n'] + lines.last()
    }
}

/// The non-empty pieces, in order.
pub open spec fn nonempty_lines(pieces: Seq<Seq<char>>) -> Seq<Seq<char>>
    decreases pieces.len(),
{
    if pieces.len() == 0 {
        Seq::empty()
    } else {
        let prev = nonempty_lines(pieces.drop_last());
        if pieces.last().len() > 0 {
            prev.push(pieces.last())
        } else {
            prev
        }
    }
}

/// Shared workflow context. Consumers can inspect captured stdout and
/// metadata after a script run returns.
pub struct OpStateWorkflowData {
    workflow_id: String,
    capture_stdout: bool,
    stdout_buf: Vec<WorkflowStdout>,
    allowed_permissions: Option<Vec<PluginFunctionPermissions>>,
    required_permissions: Option<Vec<PluginFunctionPermissions>>,
    external_packages: Vec<Arc<CorePluginExternalPackage>>,
}

impl OpStateWorkflowData {
    /// The workflow's ID.
    pub closed spec fn spec_workflow_id(&self) -> Seq<char> {
        self.workflow_id@
    }

    /// Whether stdout is captured.
    pub closed spec fn spec_capture_stdout(&self) -> bool {
        self.capture_stdout
    }

    /// The captured lines.
    pub closed spec fn spec_stdout_buf(&self) -> Seq<WorkflowStdout> {
        self.stdout_buf@
    }

    /// The permissions granted per plugin function, if any.
    pub closed spec fn spec_allowed_permissions(&self) -> Option<Vec<PluginFunctionPermissions>> {
        self.allowed_permissions
    }

    /// The permissions required per plugin function, if any.
    pub closed spec fn spec_required_permissions(&self) -> Option<Vec<PluginFunctionPermissions>> {
        self.required_permissions
    }

    /// The external packages the workflow may call.
    pub closed spec fn spec_external_packages(&self) -> Seq<Arc<CorePluginExternalPackage>> {
        self.external_packages@
    }

    /// Fresh workflow data with no captured output.
    pub fn new(
        workflow_id: &str,
        capture_stdout: bool,
        allowed_permissions: Option<Vec<PluginFunctionPermissions>>,
        required_permissions: Option<Vec<PluginFunctionPermissions>>,
        external_packages: Vec<Arc<CorePluginExternalPackage>>,
    ) -> (r: Self)
        ensures
            r.spec_workflow_id() == workflow_id@,
            r.spec_capture_stdout() == capture_stdout,
            r.spec_stdout_buf().len() == 0,
            r.spec_allowed_permissions() == allowed_permissions,
            r.spec_required_permissions() == required_permissions,
            r.spec_external_packages() == external_packages@,
    {
        OpStateWorkflowData {
            workflow_id: workflow_id.to_owned(),
            capture_stdout,
            stdout_buf: Vec::new(),
            allowed_permissions,
            required_permissions,
            external_packages,
        }
    }

    /// The permissions granted per plugin function, if any.
    pub fn get_allowed_permissions(&self) -> (r: &Option<Vec<PluginFunctionPermissions>>)
        ensures
            *r == self.spec_allowed_permissions(),
    {
        &self.allowed_permissions
    }

    /// The permissions required per plugin function, if any.
    pub fn get_required_permissions(&self) -> (r: &Option<Vec<PluginFunctionPermissions>>)
        ensures
            *r == self.spec_required_permissions(),
    {
        &self.required_permissions
    }

    /// The external packages the workflow may call.
    pub fn get_external_packages(&self) -> (r: &Vec<Arc<CorePluginExternalPackage>>)
        ensures
            r@ == self.spec_external_packages(),
    {
        &self.external_packages
    }

    /// Sets whether stdout is captured.
    pub fn set_capture_stdout(&mut self, v: bool)
        ensures
            final(self).spec_workflow_id() == old(self).spec_workflow_id(),
            final(self).spec_capture_stdout() == v,
            final(self).spec_stdout_buf() == old(self).spec_stdout_buf(),
            final(self).spec_allowed_permissions() == old(self).spec_allowed_permissions(),
            final(self).spec_required_permissions() == old(self).spec_required_permissions(),
            final(self).spec_external_packages() == old(self).spec_external_packages(),
    {
        self.capture_stdout = v;
    }

    /// Replaces the captured lines.
    pub fn set_stdout_buf(&mut self, v: Vec<WorkflowStdout>)
        ensures
            final(self).spec_workflow_id() == old(self).spec_workflow_id(),
            final(self).spec_capture_stdout() == old(self).spec_capture_stdout(),
            final(self).spec_stdout_buf() == v@,
            final(self).spec_allowed_permissions() == old(self).spec_allowed_permissions(),
            final(self).spec_required_permissions() == old(self).spec_required_permissions(),
            final(self).spec_external_packages() == old(self).spec_external_packages(),
    {
        self.stdout_buf = v;
    }

    /// Replaces the permissions granted per plugin function.
    pub fn set_allowed_permissions(&mut self, v: Option<Vec<PluginFunctionPermissions>>)
        ensures
            final(self).spec_workflow_id() == old(self).spec_workflow_id(),
            final(self).spec_capture_stdout() == old(self).spec_capture_stdout(),
            final(self).spec_stdout_buf() == old(self).spec_stdout_buf(),
            final(self).spec_allowed_permissions() == v,
            final(self).spec_required_permissions() == old(self).spec_required_permissions(),
            final(self).spec_external_packages() == old(self).spec_external_packages(),
    {
        self.allowed_permissions = v;
    }

    /// Replaces the permissions required per plugin function.
    pub fn set_required_permissions(&mut self, v: Option<Vec<PluginFunctionPermissions>>)
        ensures
            final(self).spec_workflow_id() == old(self).spec_workflow_id(),
            final(self).spec_capture_stdout() == old(self).spec_capture_stdout(),
            final(self).spec_stdout_buf() == old(self).spec_stdout_buf(),
            final(self).spec_allowed_permissions() == old(self).spec_allowed_permissions(),
            final(self).spec_required_permissions() == v,
            final(self).spec_external_packages() == old(self).spec_external_packages(),
    {
        self.required_permissions = v;
    }

    /// Replaces the external packages the workflow may call.
    pub fn set_external_packages(&mut self, v: Vec<Arc<CorePluginExternalPackage>>)
        ensures
            final(self).spec_workflow_id() == old(self).spec_workflow_id(),
            final(self).spec_capture_stdout() == old(self).spec_capture_stdout(),
            final(self).spec_stdout_buf() == old(self).spec_stdout_buf(),
            final(self).spec_allowed_permissions() == old(self).spec_allowed_permissions(),
            final(self).spec_required_permissions() == old(self).spec_required_permissions(),
            final(self).spec_external_packages() == v@,
    {
        self.external_packages = v;
    }

    /// The workflow's ID.
    pub fn get_workflow_id(&self) -> (r: &str)
        ensures
            r@ == self.spec_workflow_id(),
    {
        self.workflow_id.as_str()
    }

    /// Append one captured line.
    pub fn add_result(&mut self, s: WorkflowStdout)
        ensures
            final(self).spec_stdout_buf() == old(self).spec_stdout_buf().push(s),
            final(self).spec_workflow_id() == old(self).spec_workflow_id(),
            final(self).spec_capture_stdout() == old(self).spec_capture_stdout(),
            final(self).spec_allowed_permissions() == old(self).spec_allowed_permissions(),
            final(self).spec_required_permissions() == old(self).spec_required_permissions(),
            final(self).spec_external_packages() == old(self).spec_external_packages(),
    {
        self.stdout_buf.push(s);
    }

    /// The captured lines, in order.
    pub fn get_results(&self) -> (r: &Vec<WorkflowStdout>)
        ensures
            r@ == self.spec_stdout_buf(),
    {
        &self.stdout_buf
    }

    /// Whether stdout is captured.
    pub fn is_capture_stdout(&self) -> (r: bool)
        ensures
            r == self.spec_capture_stdout(),
    {
        self.capture_stdout
    }

    /// The captured lines joined with `\n`.
    pub fn stdout_to_string(&self) -> (r: String)
        ensures
            r@ == join_lines(stdout_texts(self.spec_stdout_buf())),
    {
        let ghost texts = stdout_texts(self.spec_stdout_buf());
        let mut out = String::new();
        let mut i: usize = 0;
        proof {
            assert(texts.take(0) =~= Seq::<Seq<char>>::empty());
        }
        while i < self.stdout_buf.len()
            invariant
                texts == stdout_texts(self.spec_stdout_buf()),
                0 <= i <= self.spec_stdout_buf().len(),
                out@ == join_lines(texts.take(i as int)),
            decreases self.spec_stdout_buf().len() - i,
        {
            proof {
                assert(texts.take(i + 1).drop_last() =~= texts.take(i as int));
                assert(texts.take(i + 1).last() == texts[i as int]);
            }
            if i > 0 {
                proof {
                    reveal_strlit("\n");
                }
                out.append("\n");
            }
            match &self.stdout_buf[i] {
                WorkflowStdout::Stdout(t) => {
                    out.append(t.as_str());
                },
            }
            proof {
                if i == 0 {
                    assert(out@ =~= texts.take(1)[0]);
                } else {
                    assert(out@ =~= join_lines(texts.take(i as int)) + seq!['\n'] + texts[i as int]);
                }
            }
            i += 1;
        }
        proof {
            assert(texts.take(i as int) =~= texts);
        }
        out
    }

    /// Record the engine's captured stdout: each non-empty `\n`-separated
    /// line becomes one captured line, in order.
    pub fn ingest_stdout(&mut self, stdout: &str)
        ensures
            stdout_texts(final(self).spec_stdout_buf()) == stdout_texts(old(self).spec_stdout_buf())
                + nonempty_lines(split_on(stdout@, '\n')),
            final(self).spec_workflow_id() == old(self).spec_workflow_id(),
            final(self).spec_capture_stdout() == old(self).spec_capture_stdout(),
            final(self).spec_allowed_permissions() == old(self).spec_allowed_permissions(),
            final(self).spec_required_permissions() == old(self).spec_required_permissions(),
            final(self).spec_external_packages() == old(self).spec_external_packages(),
    {
        let chars = chars_of(stdout);
        let ghost before = stdout_texts(self.spec_stdout_buf());
        let mut start: usize = 0;
        let mut i: usize = 0;
        proof {
            assert(chars@.take(0) =~= Seq::<char>::empty());
            assert(chars@.subrange(0, 0) =~= Seq::<char>::empty());
            assert(nonempty_lines(split_on(chars@.take(0), '\n').drop_last()) =~= Seq::<
                Seq<char>,
            >::empty());
            assert(stdout_texts(self.spec_stdout_buf()) =~= before + Seq::<Seq<char>>::empty());
        }
        while i < chars.len()
            invariant
                chars@ == stdout@,
                0 <= start <= i <= chars@.len(),
                split_on(chars@.take(i as int), '\n').len() >= 1,
                split_on(chars@.take(i as int), '\n').last() == chars@.subrange(
                    start as int,
                    i as int,
                ),
                stdout_texts(self.spec_stdout_buf()) == before + nonempty_lines(
                    split_on(chars@.take(i as int), '\n').drop_last(),
                ),
                self.spec_workflow_id() == old(self).spec_workflow_id(),
                self.spec_capture_stdout() == old(self).spec_capture_stdout(),
                self.spec_allowed_permissions() == old(self).spec_allowed_permissions(),
                self.spec_required_permissions() == old(self).spec_required_permissions(),
                self.spec_external_packages() == old(self).spec_external_packages(),
            decreases chars@.len() - i,
        {
            let ghost prefix = chars@.take(i as int);
            let ghost next = chars@.take(i + 1);
            let ghost pieces = split_on(prefix, '\n');
            proof {
                assert(next.drop_last() =~= prefix);
                assert(next.last() == chars@[i as int]);
            }
            if chars[i] == '\n' {
                let ghost old_buf = self.spec_stdout_buf();
                proof {
                    assert(split_on(next, '\n') == pieces.push(Seq::<char>::empty()));
                    assert(split_on(next, '\n').drop_last() =~= pieces);
                    assert(pieces =~= pieces.drop_last().push(pieces.last()));
                }
                if start < i {
                    let line = stdout.substring_char(start, i);
                    self.add_result(WorkflowStdout::Stdout(line.to_owned()));
                    proof {
                        assert(stdout_texts(self.spec_stdout_buf()) =~= stdout_texts(old_buf).push(
                            line@,
                        ));
                    }
                }
                start = i + 1;
                proof {
                    assert(chars@.subrange(start as int, i + 1) =~= Seq::<char>::empty());
                }
            } else {
                proof {
                    assert(split_on(next, '\n') == pieces.update(
                        pieces.len() - 1,
                        pieces.last().push(chars@[i as int]),
                    ));
                    assert(split_on(next, '\n').drop_last() =~= pieces.drop_last());
                    assert(chars@.subrange(start as int, i + 1) =~= chars@.subrange(
                        start as int,
                        i as int,
                    ).push(chars@[i as int]));
                }
            }
            i += 1;
        }
        proof {
            assert(chars@.take(i as int) =~= chars@);
            lemma_split_on_nonempty(chars@, '\n');
        }
        let ghost pieces = split_on(chars@, '\n');
        let ghost old_buf = self.spec_stdout_buf();
        if start < i {
            let line = stdout.substring_char(start, i);
            self.add_result(WorkflowStdout::Stdout(line.to_owned()));
            proof {
                assert(stdout_texts(self.spec_stdout_buf()) =~= stdout_texts(old_buf).push(line@));
            }
        }
        proof {
            assert(pieces =~= pieces.drop_last().push(pieces.last()));
        }
    }
}

/// `line` without one trailing carriage return.
pub open spec fn strip_cr(line: Seq<char>) -> Seq<char> {
    if line.len() > 0 && line.last() == '\r' {
        line.drop_last()
    } else {
        line
    }
}

/// The first line of `s`, as `str::lines` yields it (`""` for `""`).
pub open spec fn first_line(s: Seq<char>) -> Seq<char> {
    if split_on(s, '\n').len() > 1 {
        strip_cr(split_on(s, '\n')[0])
    } else {
        s
    }
}

proof fn lemma_split_without_sep(s: Seq<char>, sep: char)
    requires
        forall|k: int| 0 <= k < s.len() ==> s[k] != sep,
    ensures
        split_on(s, sep) == seq![s],
    decreases s.len(),
{
    if s.len() > 0 {
        let t = s.drop_last();
        assert forall|k: int| 0 <= k < t.len() implies t[k] != sep by {
            assert(t[k] == s[k]);
        }
        lemma_split_without_sep(t, sep);
        assert(s.last() != sep);
        assert(t.push(s.last()) =~= s);
        assert(split_on(s, sep) =~= seq![s]);
    } else {
        assert(s =~= Seq::<char>::empty());
        assert(split_on(s, sep) =~= seq![s]);
    }
}

proof fn lemma_split_first_piece(s: Seq<char>, sep: char, k: int)
    requires
        0 <= k < s.len(),
        s[k] == sep,
        forall|j: int| 0 <= j < k ==> s[j] != sep,
    ensures
        split_on(s, sep).len() >= 2,
        split_on(s, sep)[0] == s.take(k),
    decreases s.len(),
{
    let t = s.drop_last();
    if s.len() == k + 1 {
        assert(t =~= s.take(k));
        assert forall|j: int| 0 <= j < t.len() implies t[j] != sep by {
            assert(t[j] == s[j]);
        }
        lemma_split_without_sep(t, sep);
    } else {
        assert(t[k] == sep);
        assert forall|j: int| 0 <= j < k implies t[j] != sep by {
            assert(t[j] == s[j]);
        }
        lemma_split_first_piece(t, sep, k);
        assert(t.take(k) =~= s.take(k));
    }
}

/// The error for a failed script run: its message is the first line of the
/// engine's error text, its detail the whole text.
pub fn script_failure(msg: String) -> (r: Error)
    ensures
        r matches Error::WorkflowRuntimeError(e) && e.message@ == first_line(msg@)
            && e.error_type == WorkflowRuntimeErrorType::WorkflowScriptExecuteError
            && e.js_error_detail@ == msg@,
{
    let chars = chars_of(msg.as_str());
    let mut k: usize = 0;
    while k < chars.len() && chars[k] != '\n'
        invariant
            chars@ == msg@,
            0 <= k <= chars@.len(),
            forall|j: int| 0 <= j < k ==> chars@[j] != '\n',
        decreases chars@.len() - k,
    {
        k += 1;
    }
    let message: String;
    if k == chars.len() {
        proof {
            lemma_split_without_sep(msg@, '\n');
        }
        message = msg.clone();
    } else {
        proof {
            lemma_split_first_piece(msg@, '\n', k as int);
        }
        let end = if k > 0 && chars[k - 1] == '\r' { k - 1 } else { k };
        let line = msg.as_str().substring_char(0, end);
        proof {
            assert(line@ =~= strip_cr(msg@.take(k as int)));
        }
        message = line.to_owned();
    }
    Error::WorkflowRuntimeError(
        WorkflowRuntimeError {
            message,
            error_type: WorkflowRuntimeErrorType::WorkflowScriptExecuteError,
            js_error_detail: msg,
        },
    )
}

/// The texts of the shims that are present, in order.
pub open spec fn present_shims(shims: Seq<Option<String>>) -> Seq<Seq<char>>
    decreases shims.len(),
{
    if shims.len() == 0 {
        Seq::empty()
    } else {
        let prev = present_shims(shims.drop_last());
        match shims.last() {
            Some(js) => prev.push(js@),
            None => prev,
        }
    }
}

/// The scripts run before a workflow: the given pre-scripts (none if
/// absent), then every plugin shim that is present, in order.
pub open spec fn pre_scripts_of(given: Option<Vec<String>>, shims: Seq<Option<String>>) -> Seq<
    Seq<char>,
> {
    match given {
        Some(v) => string_views(v@) + present_shims(shims),
        None => present_shims(shims),
    }
}

/// Collect the scripts to run before a workflow: the given pre-scripts,
/// then the plugin shims that are present, in plugin order.
pub fn collect_pre_scripts(given: Option<Vec<String>>, shims: Vec<Option<String>>) -> (r: Vec<String>)
    ensures
        string_views(r@) == pre_scripts_of(given, shims@),
{
    let ghost g = given;
    let mut out: Vec<String> = match given {
        Some(v) => v,
        None => Vec::new(),
    };
    let ghost start = string_views(out@);
    proof {
        assert(present_shims(shims@.take(0)) =~= Seq::<Seq<char>>::empty());
        assert(start =~= start + present_shims(shims@.take(0)));
    }
    let mut i: usize = 0;
    while i < shims.len()
        invariant
            0 <= i <= shims@.len(),
            string_views(out@) == start + present_shims(shims@.take(i as int)),
        decreases shims@.len() - i,
    {
        proof {
            assert(shims@.take(i + 1).drop_last() =~= shims@.take(i as int));
            assert(shims@.take(i + 1).last() == shims@[i as int]);
        }
        let ghost old_out = out@;
        match &shims[i] {
            Some(js) => {
                out.push(js.clone());
                proof {
                    assert(string_views(out@) =~= string_views(old_out).push(js@));
                }
            },
            None => {},
        }
        i += 1;
    }
    proof {
        assert(shims@.take(i as int) =~= shims@);
        match g {
            Some(v) => {},
            None => {
                assert(start =~= Seq::<Seq<char>>::empty());
            },
        }
    }
    out
}

/// `"::"` starts at position `k` of `s`.
pub open spec fn double_colon_at(s: Seq<char>, k: int) -> bool {
    0 <= k && k + 1 < s.len() && s[k] == ':' && s[k + 1] == ':'
}

/// `k` is the first position where `"::"` starts.
pub open spec fn first_double_colon_at(s: Seq<char>, k: int) -> bool {
    double_colon_at(s, k) && forall|j: int| 0 <= j < k ==> !#[trigger] double_colon_at(s, j)
}

/// `s` split at its first `"::"` (as `str::split_once("::")`).
pub open spec fn split_op_key(s: Seq<char>) -> Option<(Seq<char>, Seq<char>)> {
    if exists|k: int| #[trigger] double_colon_at(s, k) {
        let k = choose|k: int| first_double_colon_at(s, k);
        Some((s.take(k), s.skip(k + 2)))
    } else {
        None
    }
}

/// Where a dispatched call goes.
#[derive(Debug)]
pub enum OpRoute {
    /// To the internal plugin function registered under the op key.
    Internal,
    /// To the function `function_name` of the external package at
    /// `package_index`.
    External { package_index: usize, function_name: String },
    /// Nowhere: the op key is unknown.
    Unknown,
}

/// The route of a call under `key`: internal functions first (by function
/// ID), then the first external package whose ID is the key's part before
/// `"::"`, with the function named by the part after it.
pub open spec fn spec_route(
    key: Seq<char>,
    internal_ids: Seq<Seq<char>>,
    external_ids: Seq<Seq<char>>,
    r: OpRoute,
) -> bool {
    if internal_ids.contains(key) {
        r is Internal
    } else {
        match split_op_key(key) {
            None => r is Unknown,
            Some((pkg, func)) => if external_ids.contains(pkg) {
                r matches OpRoute::External { package_index, function_name } && 0 <= package_index
                    < external_ids.len() && external_ids[package_index as int] == pkg && (forall|j: int|
                    0 <= j < package_index ==> external_ids[j] != pkg) && function_name@ == func
            } else {
                r is Unknown
            },
        }
    }
}

/// The first position where `"::"` starts in `chars`, if any.
fn first_double_colon(chars: &Vec<char>) -> (r: Option<usize>)
    ensures
        r matches Some(k) ==> first_double_colon_at(chars@, k as int),
        r is None ==> forall|j: int| !#[trigger] double_colon_at(chars@, j),
{
    let mut k: usize = 0;
    while k < chars.len()
        invariant
            0 <= k <= chars@.len(),
            forall|j: int| 0 <= j < k ==> !#[trigger] double_colon_at(chars@, j),
        decreases chars@.len() - k,
    {
        if k + 1 < chars.len() && chars[k] == ':' && chars[k + 1] == ':' {
            return Some(k);
        }
        k += 1;
    }
    proof {
        assert forall|j: int| !#[trigger] double_colon_at(chars@, j) by {
            if double_colon_at(chars@, j) {
                assert(j < k);
            }
        }
    }
    None
}

/// Decide where a dispatched call under `op_key` goes, given the IDs of the
/// internal plugin functions and of the external packages.
pub fn route_op(op_key: &str, internal_ids: &[&str], external_package_ids: &[&str]) -> (r: OpRoute)
    ensures
        spec_route(op_key@, str_views(internal_ids@), str_views(external_package_ids@), r),
{
    let ghost iv = str_views(internal_ids@);
    let ghost ev = str_views(external_package_ids@);
    if contains_text(internal_ids, op_key) {
        proof {
            let i = choose|i: int| 0 <= i < internal_ids@.len() && #[trigger] internal_ids@[i]@ == op_key@;
            assert(iv[i] == op_key@);
        }
        return OpRoute::Internal;
    }
    proof {
        if iv.contains(op_key@) {
            let i = choose|i: int| 0 <= i < iv.len() && iv[i] == op_key@;
            assert(internal_ids@[i]@ == op_key@);
        }
    }
    let chars = chars_of(op_key);
    let k = match first_double_colon(&chars) {
        Some(k) => k,
        None => {
            return OpRoute::Unknown;
        },
    };
    let ghost key = op_key@;
    proof {
        assert(double_colon_at(key, k as int));
        assert(first_double_colon_at(key, k as int));
        let c = choose|c: int| first_double_colon_at(key, c);
        if c < k {
            assert(!double_colon_at(key, c));
        } else if c > k {
            assert(!double_colon_at(key, k as int));
        }
        assert(c == k);
    }
    let pkg = op_key.substring_char(0, k);
    let n = chars.len();
    let func = op_key.substring_char(k + 2, n);
    proof {
        assert(pkg@ =~= key.take(k as int));
        assert(func@ =~= key.skip(k + 2));
        assert(split_op_key(op_key@) == Some((pkg@, func@)));
    }
    let mut i: usize = 0;
    while i < external_package_ids.len()
        invariant
            ev == str_views(external_package_ids@),
            iv == str_views(internal_ids@),
            !iv.contains(op_key@),
            split_op_key(op_key@) == Some((pkg@, func@)),
            0 <= i <= external_package_ids@.len(),
            forall|j: int| 0 <= j < i ==> ev[j] != pkg@,
        decreases external_package_ids@.len() - i,
    {
        if crate::text::same_text(external_package_ids[i], pkg) {
            assert(ev.contains(pkg@)) by {
                assert(ev[i as int] == pkg@);
            }
            return OpRoute::External { package_index: i, function_name: func.to_owned() };
        }
        i += 1;
    }
    proof {
        assert(!ev.contains(pkg@));
    }
    OpRoute::Unknown
}

proof fn lemma_join_split(s: Seq<char>)
    ensures
        join_lines(split_on(s, '\n')) == s,
    decreases s.len(),
{
    if s.len() > 0 {
        let t = s.drop_last();
        let prev = split_on(t, '\n');
        lemma_join_split(t);
        lemma_split_on_nonempty(t, '\n');
        assert(t.push(s.last()) =~= s);
        if s.last() == '\n' {
            let cur = prev.push(Seq::<char>::empty());
            assert(cur.drop_last() =~= prev);
            assert(join_lines(cur) =~= s);
        } else {
            let cur = prev.update(prev.len() - 1, prev.last().push(s.last()));
            if prev.len() == 1 {
                assert(join_lines(cur) =~= s);
            } else {
                assert(cur.drop_last() =~= prev.drop_last());
                assert(join_lines(cur) =~= join_lines(prev.drop_last()) + seq!['\n'] + prev.last().push(s.last()));
                assert(join_lines(cur) =~= s);
            }
        }
    } else {
        assert(split_on(s, '\n') =~= seq![Seq::<char>::empty()]);
    }
}

proof fn lemma_nonempty_keeps_all(pieces: Seq<Seq<char>>)
    requires
        forall|k: int| 0 <= k < pieces.len() ==> (#[trigger] pieces[k]).len() > 0,
    ensures
        nonempty_lines(pieces) == pieces,
    decreases pieces.len(),
{
    if pieces.len() > 0 {
        let prev = pieces.drop_last();
        assert forall|k: int| 0 <= k < prev.len() implies (#[trigger] prev[k]).len() > 0 by {
            assert(prev[k] == pieces[k]);
        }
        lemma_nonempty_keeps_all(prev);
        assert(pieces[pieces.len() - 1].len() > 0);
        assert(prev.push(pieces.last()) =~= pieces);
    } else {
        assert(pieces =~= Seq::<Seq<char>>::empty());
    }
}

/// Output without empty lines survives capture: when no `\n`-separated
/// line of `stdout` is empty, joining the captured lines with `\n` gives
/// `stdout` back.
pub proof fn law_captured_stdout_roundtrip(stdout: Seq<char>)
    requires
        forall|k: int|
            0 <= k < split_on(stdout, '\n').len() ==> (#[trigger] split_on(stdout, '\n')[k]).len()
                > 0,
    ensures
        join_lines(nonempty_lines(split_on(stdout, '\n'))) == stdout,
{
    lemma_nonempty_keeps_all(split_on(stdout, '\n'));
    lemma_join_split(stdout);
}

/// `key` starts with the package ID `id` followed by the key's first `"::"`.
pub open spec fn names_package(key: Seq<char>, id: Seq<char>) -> bool {
    &&& id.len() + 2 <= key.len()
    &&& key.subrange(0, id.len() as int) == id
    &&& key[id.len() as int] == ':' && key[id.len() as int + 1] == ':'
    &&& forall|j: int| 0 <= j < id.len() ==> !(key[j] == ':' && #[trigger] key[j + 1] == ':')
}

proof fn lemma_first_double_colon_exists(s: Seq<char>, k: int)
    requires
        double_colon_at(s, k),
    ensures
        exists|c: int| first_double_colon_at(s, c),
    decreases k,
{
    if exists|j: int| 0 <= j < k && #[trigger] double_colon_at(s, j) {
        let j = choose|j: int| 0 <= j < k && #[trigger] double_colon_at(s, j);
        lemma_first_double_colon_exists(s, j);
    } else {
        assert(first_double_colon_at(s, k));
    }
}

proof fn lemma_split_names_package(key: Seq<char>)
    ensures
        forall|id: Seq<char>|
            #[trigger] names_package(key, id) ==> split_op_key(key) == Some(
                (id, key.skip(id.len() as int + 2)),
            ),
        split_op_key(key) matches Some((pkg, func)) ==> names_package(key, pkg) && func == key.skip(
            pkg.len() as int + 2,
        ),
{
    if exists|k: int| #[trigger] double_colon_at(key, k) {
        let k0 = choose|k: int| #[trigger] double_colon_at(key, k);
        lemma_first_double_colon_exists(key, k0);
        let k = choose|k: int| first_double_colon_at(key, k);
        assert(first_double_colon_at(key, k));
        let pkg = key.take(k);
        assert(pkg.len() == k);
        assert(key.subrange(0, k) =~= pkg);
        assert forall|j: int| 0 <= j < pkg.len() implies !(key[j] == ':' && #[trigger] key[j + 1]
            == ':') by {
            assert(!double_colon_at(key, j));
        }
        assert(names_package(key, pkg));
        assert forall|id: Seq<char>| #[trigger] names_package(key, id) implies split_op_key(key)
            == Some((id, key.skip(id.len() as int + 2))) by {
            let n = id.len() as int;
            assert(double_colon_at(key, n));
            if n < k {
                assert(!double_colon_at(key, n));
            } else if n > k {
                assert(!(key[k] == ':' && key[k + 1] == ':'));
            }
            assert(n == k);
            assert(id =~= key.subrange(0, n));
            assert(id =~= pkg);
        }
    } else {
        assert forall|id: Seq<char>| #[trigger] names_package(key, id) implies split_op_key(key)
            == Some((id, key.skip(id.len() as int + 2))) by {
            assert(double_colon_at(key, id.len() as int));
        }
    }
}

/// What routing decides: a key registered as an internal function goes
/// there; otherwise the call goes to the first external package whose ID is
/// exactly the key's part before its first `"::"`, and to the function named
/// by the rest of the key; a key that names no such package goes nowhere.
pub proof fn law_route_meaning(
    key: Seq<char>,
    internal_ids: Seq<Seq<char>>,
    external_ids: Seq<Seq<char>>,
    r: OpRoute,
)
    requires
        spec_route(key, internal_ids, external_ids, r),
    ensures
        (r is Internal) == internal_ids.contains(key),
        r matches OpRoute::External { package_index, function_name } ==> {
            &&& !internal_ids.contains(key)
            &&& 0 <= package_index < external_ids.len()
            &&& names_package(key, external_ids[package_index as int])
            &&& key == external_ids[package_index as int] + seq![':', ':'] + function_name@
            &&& forall|j: int| 0 <= j < package_index ==> #[trigger] external_ids[j] != external_ids[package_index as int]
        },
        r is Unknown ==> !internal_ids.contains(key) && forall|i: int|
            0 <= i < external_ids.len() ==> !names_package(key, #[trigger] external_ids[i]),
{
    lemma_split_names_package(key);
    if let OpRoute::External { package_index, function_name } = r {
        let id = external_ids[package_index as int];
        let tail = key.skip(id.len() as int + 2);
        assert(key =~= id + seq![':', ':'] + tail);
    }
    if r is Unknown && !internal_ids.contains(key) {
        assert forall|i: int| 0 <= i < external_ids.len() implies !names_package(
            key,
            #[trigger] external_ids[i],
        ) by {
            if names_package(key, external_ids[i]) {
                assert(external_ids.contains(external_ids[i]));
            }
        }
    }
}

} // verus!
