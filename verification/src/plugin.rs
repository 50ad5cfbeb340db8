//! Plugin metadata: identifiers, WASM-backed external packages, the JS shim
//! that routes a plugin call through the dispatcher, and the search for the
//! plugin functions that a workflow's code uses.
use vstd::prelude::*;
use crate::text::{chars_of, contains_chars, contains_seq};

verus! {

/// Names a plugin function: its package and its function name.
#[derive(Debug, Clone, PartialEq, Eq)]
pub struct PluginIdentifier {
    pub package_id: String,
    pub function_name: String,
}

/// A single function in a WASM-backed external package.
///
/// Permissions are not checked here: the WASM sandbox enforces them when the
/// function is called.
#[derive(Debug, Clone)]
pub struct CorePluginExternalFunction {
    pub id: String,
    pub name: String,
    pub description: String,
    pub author_id: String,
    /// Parent package ID, the routing key `"<package_id>::<name>"`.
    pub package_id: String,
}

/// A WASM-backed external plugin package.
#[derive(Debug, Clone)]
pub struct CorePluginExternalPackage {
    pub id: String,
    pub name: String,
    pub functions: Vec<CorePluginExternalFunction>,
    /// Filesystem path to the `.wasm` file.
    pub wasm_path: String,
}

/// The key under which grants for the function `name` of a package with
/// `functions` are recorded: the ID of its first function of that name, or
/// the name itself when it has none.
pub open spec fn grant_key(functions: Seq<CorePluginExternalFunction>, name: Seq<char>) -> Seq<char>
    decreases functions.len(),
{
    if functions.len() == 0 {
        name
    } else if functions[0].name@ == name {
        functions[0].id@
    } else {
        grant_key(functions.drop_first(), name)
    }
}

impl CorePluginExternalPackage {
    /// The key under which grants for the function `name` are recorded:
    /// the function's ID, or `name` when the package has no such function.
    pub fn grant_key<'a>(&'a self, name: &'a str) -> (r: &'a str)
        ensures
            r@ == grant_key(self.functions@, name@),
    {
        let fs = &self.functions;
        let mut i: usize = 0;
        proof {
            assert(fs@.skip(0) =~= fs@);
        }
        while i < fs.len()
            invariant
                fs@ == self.functions@,
                0 <= i <= fs@.len(),
                grant_key(fs@, name@) == grant_key(fs@.skip(i as int), name@),
            decreases fs@.len() - i,
        {
            let ghost rest = fs@.skip(i as int);
            proof {
                assert(rest[0] == fs@[i as int]);
                assert(rest.drop_first() =~= fs@.skip(i + 1));
            }
            if crate::text::same_text(fs[i].name.as_str(), name) {
                assert(rest.len() > 0);
                assert(grant_key(rest, name@) == fs@[i as int].id@);
                return fs[i].id.as_str();
            }
            i += 1;
        }
        proof {
            assert(fs@.skip(i as int) =~= Seq::<CorePluginExternalFunction>::empty());
        }
        name
    }

    /// A package with the given metadata and functions.
    pub fn new(
        id: &str,
        name: &str,
        functions: Vec<CorePluginExternalFunction>,
        wasm_path: &str,
    ) -> (r: Self)
        ensures
            r.id@ == id@,
            r.name@ == name@,
            r.functions@ == functions@,
            r.wasm_path@ == wasm_path@,
    {
        CorePluginExternalPackage {
            id: id.to_owned(),
            name: name.to_owned(),
            functions,
            wasm_path: wasm_path.to_owned(),
        }
    }
}

/// The dispatcher key of a plugin function: `"<package_id>::<function_name>"`.
pub open spec fn op_key(package_id: Seq<char>, function_name: Seq<char>) -> Seq<char> {
    package_id + "::"@ + function_name
}

/// The JavaScript that installs `Sapphillon["<pkg>"]["<func>"]`, a function
/// that sends its JSON-encoded argument to `__sapphillon_dispatch` under the
/// function's op key and returns the parsed JSON reply.
pub open spec fn external_shim(pkg: Seq<char>, func: Seq<char>) -> Seq<char> {
    "\nglobalThis.Sapphillon = globalThis.Sapphillon ?? {};\nglobalThis.Sapphillon[\""@ + pkg
        + "\"] = globalThis.Sapphillon[\""@ + pkg + "\"] ?? {};\nglobalThis.Sapphillon[\""@ + pkg
        + "\"][\""@ + func
        + "\"] = function(args) {\n    const raw = __sapphillon_dispatch(\n        \""@
        + op_key(pkg, func)
        + "\",\n        JSON.stringify(args ?? {})\n    );\n    return JSON.parse(raw);\n};\n"@
}

/// The JS shim for the function `func` of the external package `pkg`.
pub fn external_shim_js(pkg: &str, func: &str) -> (r: String)
    ensures
        r@ == external_shim(pkg@, func@),
{
    let mut out = String::new();
    out.append("\nglobalThis.Sapphillon = globalThis.Sapphillon ?? {};\nglobalThis.Sapphillon[\"");
    out.append(pkg);
    out.append("\"] = globalThis.Sapphillon[\"");
    out.append(pkg);
    out.append("\"] ?? {};\nglobalThis.Sapphillon[\"");
    out.append(pkg);
    out.append("\"][\"");
    out.append(func);
    out.append("\"] = function(args) {\n    const raw = __sapphillon_dispatch(\n        \"");
    out.append(pkg);
    out.append("::");
    out.append(func);
    out.append("\",\n        JSON.stringify(args ?? {})\n    );\n    return JSON.parse(raw);\n};\n");
    proof {
        assert(out@ =~= external_shim(pkg@, func@));
    }
    out
}

impl CorePluginExternalFunction {
    /// The JS shim that routes calls of this function through
    /// `__sapphillon_dispatch`, under the key `"<package_id>::<name>"`.
    pub fn get_pre_run_js(&self) -> (r: Option<String>)
        ensures
            r matches Some(js) && js@ == external_shim(self.package_id@, self.name@),
    {
        Some(external_shim_js(self.package_id.as_str(), self.name.as_str()))
    }
}

/// The package and function names that the used-plugin search reads.
#[derive(Debug, Clone)]
pub struct PackageFunctionNames {
    pub package_id: String,
    pub package_name: String,
    pub function_names: Vec<String>,
}

/// `Sapphillon.<package>.<function>`
pub open spec fn dot_reference(package_name: Seq<char>, function_name: Seq<char>) -> Seq<char> {
    "Sapphillon."@ + package_name + "."@ + function_name
}

/// `Sapphillon["<package>"]["<function>"]`
pub open spec fn bracket_reference(package_name: Seq<char>, function_name: Seq<char>) -> Seq<
    char,
> {
    "Sapphillon[\""@ + package_name + "\"][\""@ + function_name + "\"]"@
}

/// The code refers to the function, in dot or in bracket form.
pub open spec fn refers_to(code: Seq<char>, package_name: Seq<char>, function_name: Seq<char>) -> bool {
    contains_seq(code, dot_reference(package_name, function_name)) || contains_seq(
        code,
        bracket_reference(package_name, function_name),
    )
}

/// The (package id, function name) pairs of the functions among `names`
/// that `code` refers to, in order.
pub open spec fn used_in_package(
    code: Seq<char>,
    package_id: Seq<char>,
    package_name: Seq<char>,
    names: Seq<String>,
) -> Seq<(Seq<char>, Seq<char>)>
    decreases names.len(),
{
    if names.len() == 0 {
        Seq::empty()
    } else {
        let prev = used_in_package(code, package_id, package_name, names.drop_last());
        if refers_to(code, package_name, names.last()@) {
            prev.push((package_id, names.last()@))
        } else {
            prev
        }
    }
}

/// The (package id, function name) pairs of all used functions, package by
/// package.
pub open spec fn used_plugins(code: Seq<char>, packages: Seq<PackageFunctionNames>) -> Seq<
    (Seq<char>, Seq<char>),
>
    decreases packages.len(),
{
    if packages.len() == 0 {
        Seq::empty()
    } else {
        used_plugins(code, packages.drop_last()) + used_in_package(
            code,
            packages.last().package_id@,
            packages.last().package_name@,
            packages.last().function_names@,
        )
    }
}

/// The views of a list of plugin identifiers.
pub open spec fn identifier_views(ids: Seq<PluginIdentifier>) -> Seq<(Seq<char>, Seq<char>)> {
    ids.map_values(|i: PluginIdentifier| (i.package_id@, i.function_name@))
}

fn reference_chars(prefix: &str, package_name: &str, middle: &str, function_name: &str, suffix: &str) -> (r: Vec<char>)
    ensures
        r@ == prefix@ + package_name@ + middle@ + function_name@ + suffix@,
{
    let mut s = String::new();
    s.append(prefix);
    s.append(package_name);
    s.append(middle);
    s.append(function_name);
    s.append(suffix);
    chars_of(s.as_str())
}

/// The functions of `available` that `code` calls, as `Sapphillon.<pkg>.<fn>`
/// or `Sapphillon["<pkg>"]["<fn>"]` (matched by package name), identified by
/// package ID and function name, package by package.
pub fn extract_used_plugins(code: &str, available: &[PackageFunctionNames]) -> (r: Vec<PluginIdentifier>)
    ensures
        identifier_views(r@) == used_plugins(code@, available@),
{
    let code_chars = chars_of(code);
    let mut found: Vec<PluginIdentifier> = Vec::new();
    let mut p: usize = 0;
    while p < available.len()
        invariant
            code_chars@ == code@,
            0 <= p <= available@.len(),
            identifier_views(found@) == used_plugins(code@, available@.take(p as int)),
        decreases available@.len() - p,
    {
        let pkg = &available[p];
        proof {
            assert(available@.take(p + 1).drop_last() =~= available@.take(p as int));
        }
        let ghost before = identifier_views(found@);
        let mut f: usize = 0;
        while f < pkg.function_names.len()
            invariant
                code_chars@ == code@,
                0 <= f <= pkg.function_names@.len(),
                identifier_views(found@) == before + used_in_package(
                    code@,
                    pkg.package_id@,
                    pkg.package_name@,
                    pkg.function_names@.take(f as int),
                ),
            decreases pkg.function_names@.len() - f,
        {
            let func = &pkg.function_names[f];
            proof {
                assert(pkg.function_names@.take(f + 1).drop_last() =~= pkg.function_names@.take(
                    f as int,
                ));
                reveal_strlit("Sapphillon.");
                reveal_strlit(".");
                reveal_strlit("");
                reveal_strlit("Sapphillon[\"");
                reveal_strlit("\"][\"");
                reveal_strlit("\"]");
            }
            let dot = reference_chars("Sapphillon.", pkg.package_name.as_str(), ".", func.as_str(), "");
            let bracket = reference_chars(
                "Sapphillon[\"",
                pkg.package_name.as_str(),
                "\"][\"",
                func.as_str(),
                "\"]",
            );
            proof {
                assert(dot@ =~= dot_reference(pkg.package_name@, func@));
                assert(bracket@ =~= bracket_reference(pkg.package_name@, func@));
            }
            if contains_chars(&code_chars, &dot) || contains_chars(&code_chars, &bracket) {
                let ghost old_found = found@;
                let id = PluginIdentifier {
                    package_id: pkg.package_id.clone(),
                    function_name: func.clone(),
                };
                found.push(id);
                proof {
                    assert(identifier_views(found@) =~= identifier_views(old_found).push(
                        (pkg.package_id@, func@),
                    ));
                }
            }
            f += 1;
        }
        proof {
            assert(pkg.function_names@.take(f as int) =~= pkg.function_names@);
        }
        p += 1;
    }
    proof {
        assert(available@.take(p as int) =~= available@);
    }
    found
}

/// `code` contains `Sapphillon.<package>.<function>` or
/// `Sapphillon["<package>"]["<function>"]`.
pub open spec fn mentions(code: Seq<char>, package_name: Seq<char>, function_name: Seq<char>) -> bool {
    contains_seq(code, "Sapphillon."@ + package_name + "."@ + function_name) || contains_seq(
        code,
        "Sapphillon[\""@ + package_name + "\"][\""@ + function_name + "\"]"@,
    )
}

proof fn lemma_push_has<A>(s: Seq<A>, a: A, x: A)
    ensures
        s.push(a).contains(x) <==> (s.contains(x) || x == a),
{
    if s.contains(x) {
        let i = choose|i: int| 0 <= i < s.len() && s[i] == x;
        assert(s.push(a)[i] == x);
    }
    if x == a {
        assert(s.push(a)[s.len() as int] == x);
    }
    if s.push(a).contains(x) {
        let i = choose|i: int| 0 <= i < s.len() + 1 && s.push(a)[i] == x;
        if i < s.len() {
            assert(s[i] == x);
        }
    }
}

proof fn lemma_concat_has<A>(a: Seq<A>, b: Seq<A>, x: A)
    ensures
        (a + b).contains(x) <==> (a.contains(x) || b.contains(x)),
{
    if (a + b).contains(x) {
        let i = choose|i: int| 0 <= i < (a + b).len() && (a + b)[i] == x;
        if i < a.len() {
            assert(a[i] == x);
        } else {
            assert(b[i - a.len()] == x);
        }
    }
    if a.contains(x) {
        let i = choose|i: int| 0 <= i < a.len() && a[i] == x;
        assert((a + b)[i] == x);
    }
    if b.contains(x) {
        let i = choose|i: int| 0 <= i < b.len() && b[i] == x;
        assert((a + b)[a.len() + i] == x);
    }
}

proof fn lemma_used_in_package_members(
    code: Seq<char>,
    package_id: Seq<char>,
    package_name: Seq<char>,
    names: Seq<String>,
)
    ensures
        forall|x: (Seq<char>, Seq<char>)|
            #[trigger] used_in_package(code, package_id, package_name, names).contains(x) <==> exists|j: int|
                0 <= j < names.len() && x == (package_id, #[trigger] names[j]@) && mentions(
                    code,
                    package_name,
                    names[j]@,
                ),
    decreases names.len(),
{
    if names.len() > 0 {
        let prev = names.drop_last();
        lemma_used_in_package_members(code, package_id, package_name, prev);
        let u0 = used_in_package(code, package_id, package_name, prev);
        assert forall|x: (Seq<char>, Seq<char>)|
            #[trigger] used_in_package(code, package_id, package_name, names).contains(x) <==> exists|j: int|
                0 <= j < names.len() && x == (package_id, #[trigger] names[j]@) && mentions(
                    code,
                    package_name,
                    names[j]@,
                ) by {
            lemma_push_has(u0, (package_id, names.last()@), x);
            if used_in_package(code, package_id, package_name, names).contains(x) {
                if u0.contains(x) {
                    let j = choose|j: int|
                        0 <= j < prev.len() && x == (package_id, #[trigger] prev[j]@) && mentions(
                            code,
                            package_name,
                            prev[j]@,
                        );
                    assert(names[j] == prev[j]);
                } else {
                    assert(names[names.len() - 1] == names.last());
                }
            }
            if exists|j: int|
                0 <= j < names.len() && x == (package_id, #[trigger] names[j]@) && mentions(
                    code,
                    package_name,
                    names[j]@,
                ) {
                let j = choose|j: int|
                    0 <= j < names.len() && x == (package_id, #[trigger] names[j]@) && mentions(
                        code,
                        package_name,
                        names[j]@,
                    );
                if j < prev.len() {
                    assert(prev[j] == names[j]);
                } else {
                    assert(names[j] == names.last());
                }
            }
        }
    }
}

/// What the used-plugin search finds: the pair (package ID, function name)
/// of a function of an available package is found whenever the code
/// mentions it as `Sapphillon.<package>.<function>` or
/// `Sapphillon["<package>"]["<function>"]`, whatever the package's other
/// functions; and every pair found is such a mentioned function.
pub proof fn law_used_plugins_meaning(code: Seq<char>, packages: Seq<PackageFunctionNames>)
    ensures
        forall|i: int, j: int|
            0 <= i < packages.len() && 0 <= j < packages[i].function_names@.len() && mentions(
                code,
                packages[i].package_name@,
                #[trigger] packages[i].function_names@[j]@,
            ) ==> used_plugins(code, packages).contains(
                (packages[i].package_id@, packages[i].function_names@[j]@),
            ),
        forall|x: (Seq<char>, Seq<char>)|
            #[trigger] used_plugins(code, packages).contains(x) ==> exists|i: int, j: int|
                0 <= i < packages.len() && 0 <= j < packages[i].function_names@.len() && x == (
                    packages[i].package_id@,
                    #[trigger] packages[i].function_names@[j]@,
                ) && mentions(code, packages[i].package_name@, packages[i].function_names@[j]@),
    decreases packages.len(),
{
    if packages.len() > 0 {
        let prev = packages.drop_last();
        let last = packages.last();
        law_used_plugins_meaning(code, prev);
        let u0 = used_plugins(code, prev);
        let u1 = used_in_package(code, last.package_id@, last.package_name@, last.function_names@);
        lemma_used_in_package_members(code, last.package_id@, last.package_name@, last.function_names@);
        assert forall|i: int, j: int|
            0 <= i < packages.len() && 0 <= j < packages[i].function_names@.len() && mentions(
                code,
                packages[i].package_name@,
                #[trigger] packages[i].function_names@[j]@,
            ) implies used_plugins(code, packages).contains(
                (packages[i].package_id@, packages[i].function_names@[j]@),
            ) by {
            let x = (packages[i].package_id@, packages[i].function_names@[j]@);
            lemma_concat_has(u0, u1, x);
            if i < prev.len() {
                assert(prev[i] == packages[i]);
                assert(u0.contains(x));
            } else {
                assert(packages[i] == last);
                assert(u1.contains(x));
            }
        }
        assert forall|x: (Seq<char>, Seq<char>)|
            #[trigger] used_plugins(code, packages).contains(x) implies exists|i: int, j: int|
                0 <= i < packages.len() && 0 <= j < packages[i].function_names@.len() && x == (
                    packages[i].package_id@,
                    #[trigger] packages[i].function_names@[j]@,
                ) && mentions(code, packages[i].package_name@, packages[i].function_names@[j]@) by {
            lemma_concat_has(u0, u1, x);
            if u0.contains(x) {
                let (i, j) = choose|i: int, j: int|
                    0 <= i < prev.len() && 0 <= j < prev[i].function_names@.len() && x == (
                        prev[i].package_id@,
                        #[trigger] prev[i].function_names@[j]@,
                    ) && mentions(code, prev[i].package_name@, prev[i].function_names@[j]@);
                assert(packages[i] == prev[i]);
            } else {
                let j = choose|j: int|
                    0 <= j < last.function_names@.len() && x == (
                        last.package_id@,
                        #[trigger] last.function_names@[j]@,
                    ) && mentions(code, last.package_name@, last.function_names@[j]@);
                let i = packages.len() - 1;
                assert(packages[i] == last);
                assert(packages[i].function_names@[j]@ == last.function_names@[j]@);
            }
        }
    }
}

/// The views of identifiers list each identifier's package ID and function
/// name, one for each identifier, in order.
pub proof fn law_identifier_views(ids: Seq<PluginIdentifier>)
    ensures
        identifier_views(ids).len() == ids.len(),
        forall|i: int|
            0 <= i < ids.len() ==> #[trigger] identifier_views(ids)[i] == (
                ids[i].package_id@,
                ids[i].function_name@,
            ),
{
}

} // verus!
