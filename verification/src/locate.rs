use vstd::prelude::*;
use crate::paths::{PathView, ProtoPath, join_path, path_components, render_path};
use crate::text::{chars_of, push_char, str_eq, substring};
use crate::captures::{CaptureSpan, regex_captures, regex_captures_of, spans_in_order, spans_view};
use crate::config::{group_text, name_group};
use crate::bins::{VersionKey, VersionKeyView};

verus! {

/// A path text with every `\\` made `/` (its native form off Windows).
pub open spec fn normalized(s: Seq<char>) -> Seq<char> {
    s.map_values(|c: char| if c == '\\' { '/' } else { c })
}

/// A path text with every `/` made `\\` (its native form on Windows).
pub open spec fn backslashed(s: Seq<char>) -> Seq<char> {
    s.map_values(|c: char| if c == '/' { '\\' } else { c })
}

/// A path text with its separators made native, as this build of
/// `starbase_utils::path::normalize_separators` does.
pub uninterp spec fn native_separators(path: Seq<char>) -> Seq<char>;

/// `starbase_utils::path::normalize_separators`: every `\\` becomes `/` on
/// a build for anything but Windows, and every `/` becomes `\\` on Windows
/// (its source replaces them with `str::replace`). Claimed: for a given
/// build, the result depends on the text alone.
#[verifier::external_body]
pub(crate) fn normalize_separators(path: &str) -> (r: String)
    ensures
        r@ == native_separators(path@),
        r@ == normalized(path@) || r@ == backslashed(path@),
{
    starbase_utils::path::normalize_separators(path)
}

/// Every character of a value kept, dropped or replaced for use in a path
/// component: `@`, `*` and U+FFFD are dropped, `/` and `:` become `-`.
pub open spec fn component_chars(s: Seq<char>) -> Seq<char>
    decreases s.len(),
{
    if s.len() == 0 {
        seq![]
    } else {
        let r = component_chars(s.drop_last());
        let c = s.last();
        if c == '@' || c == '*' || c == '\u{FFFD}' {
            r
        } else if c == '/' || c == ':' {
            r.push('-')
        } else {
            r.push(c)
        }
    }
}

pub open spec fn is_dash_or_dot(c: char) -> bool {
    c == '-' || c == '.'
}

pub open spec fn trim_start_dash_dot(s: Seq<char>) -> Seq<char>
    decreases s.len(),
{
    if s.len() > 0 && is_dash_or_dot(s[0]) {
        trim_start_dash_dot(s.drop_first())
    } else {
        s
    }
}

pub open spec fn trim_end_dash_dot(s: Seq<char>) -> Seq<char>
    decreases s.len(),
{
    if s.len() > 0 && is_dash_or_dot(s.last()) {
        trim_end_dash_dot(s.drop_last())
    } else {
        s
    }
}

/// A value encoded for use within a path component.
pub open spec fn encoded_component(s: Seq<char>) -> Seq<char> {
    trim_end_dash_dot(trim_start_dash_dot(component_chars(s)))
}

/// `starbase_utils::path::encode_component`: drops `@`, `*` and U+FFFD,
/// turns `/` and `:` into `-`, then trims `-` and `.` from both ends (as
/// its source does with `str::trim_matches`).
#[verifier::external_body]
pub(crate) fn encode_component(value: &str) -> (r: String)
    ensures
        r@ == encoded_component(value@),
{
    starbase_utils::path::encode_component(value)
}

/// The extension of a Windows executable.
pub open spec fn exe_suffix() -> Seq<char> {
    seq!['.', 'e', 'x', 'e']
}

/// A name as it is, or with `.exe` appended when it does not end with it.
pub open spec fn as_is_or_exe(name: Seq<char>, r: Seq<char>) -> bool {
    r == name || (!(name.len() >= 4 && name.subrange(name.len() - 4, name.len() as int) == exe_suffix()) && r == name
        + exe_suffix())
}

/// The executable file name that this build of
/// `starbase_utils::path::exe_name` gives a name.
pub uninterp spec fn exe_file_name(name: Seq<char>) -> Seq<char>;

/// The executable file name that this build of
/// `proto_shim::get_exe_file_name` gives a name.
pub uninterp spec fn bin_file_name(name: Seq<char>) -> Seq<char>;

/// The shim file name that this build of `proto_shim::get_shim_file_name`
/// gives a name.
pub uninterp spec fn shim_file_name(name: Seq<char>) -> Seq<char>;

/// `starbase_utils::path::exe_name`: the name as it is on a build for
/// anything but Windows; on Windows, with `.exe` appended unless it ends
/// with it. Claimed: for a given build, the result depends on the name
/// alone.
#[verifier::external_body]
pub(crate) fn exe_name(name: &str) -> (r: String)
    ensures
        r@ == exe_file_name(name@),
        as_is_or_exe(name@, r@),
{
    starbase_utils::path::exe_name(name)
}

/// `proto_shim::get_exe_file_name`: the name as it is off Windows; on
/// Windows, with `.exe` appended unless it ends with it. Claimed: for a
/// given build, the result depends on the name alone.
#[verifier::external_body]
pub(crate) fn get_exe_file_name(name: &str) -> (r: String)
    ensures
        r@ == bin_file_name(name@),
        as_is_or_exe(name@, r@),
{
    proto_shim::get_exe_file_name(name)
}

/// `proto_shim::get_shim_file_name`: the name as it is off Windows; on
/// Windows, with `.exe` appended unless it ends with it. Claimed: for a
/// given build, the result depends on the name alone.
#[verifier::external_body]
pub(crate) fn get_shim_file_name(name: &str) -> (r: String)
    ensures
        r@ == shim_file_name(name@),
        as_is_or_exe(name@, r@),
{
    proto_shim::get_shim_file_name(name)
}

/// The pattern of an environment variable reference: `$NAME`, with a name
/// of capital letters, digits and underscores.
pub open spec fn env_ref_pattern() -> Seq<char> {
    seq!['\\', '$', '(', '?', '<', 'n', 'a', 'm', 'e', '>', '[', 'A', '-', 'Z', '0', '-', '9', '_', ']', '+', ')']
}

/// The non-empty matches among spans, each as the whole match and its
/// `name` group, in order.
pub open spec fn refs_at(text: Seq<char>, caps: Seq<CaptureSpan>) -> Seq<(Seq<char>, Seq<char>)>
    decreases caps.len(),
{
    if caps.len() == 0 {
        seq![]
    } else {
        let rest = refs_at(text, caps.drop_last());
        let c = caps.last();
        if c.0 < c.1 {
            rest.push((text.subrange(c.0 as int, c.1 as int), group_text(text, c.2)))
        } else {
            rest
        }
    }
}

/// The environment variable references of a text, in order: each as the
/// whole match and the name (none, when the pattern does not compile).
pub open spec fn env_refs_of(text: Seq<char>) -> Seq<(Seq<char>, Seq<char>)> {
    match regex_captures_of(env_ref_pattern(), name_group(), text) {
        Some(caps) => refs_at(text, caps),
        None => seq![],
    }
}

/// The environment variable references of a text.
pub(crate) fn env_var_references(text: &str) -> (r: Vec<(String, String)>)
    ensures
        r@.map_values(|e: (String, String)| (e.0@, e.1@)) == env_refs_of(text@),
        forall|i: int| 0 <= i < r@.len() ==> (#[trigger] r@[i]).0@.len() > 0,
{
    let pattern = "\\$(?<name>[A-Z0-9_]+)";
    let group = "name";
    proof {
        reveal_strlit("\\$(?<name>[A-Z0-9_]+)");
        reveal_strlit("name");
        assert(pattern@ =~= env_ref_pattern());
        assert(group@ =~= name_group());
    }
    let cs = chars_of(text);
    let mut refs: Vec<(String, String)> = Vec::new();
    match regex_captures(pattern, group, text) {
        None => {
            assert(refs@.map_values(|e: (String, String)| (e.0@, e.1@)) =~= seq![]);
        },
        Some(caps) => {
            let ghost cv = spans_view(caps@);
            let mut i: usize = 0;
            assert(refs@.map_values(|e: (String, String)| (e.0@, e.1@)) =~= refs_at(text@, cv.subrange(0, 0)));
            while i < caps.len()
                invariant
                    i <= caps@.len(),
                    cs@ == text@,
                    cv == spans_view(caps@),
                    spans_in_order(text@.len(), cv),
                    refs@.map_values(|e: (String, String)| (e.0@, e.1@)) == refs_at(text@, cv.subrange(0, i as int)),
                    forall|k: int| 0 <= k < refs@.len() ==> (#[trigger] refs@[k]).0@.len() > 0,
                decreases caps@.len() - i,
            {
                let (s, e, g) = caps[i];
                proof {
                    assert(cv[i as int].0 == s && cv[i as int].1 == e);
                    assert(cv.subrange(0, i + 1).drop_last() =~= cv.subrange(0, i as int));
                    assert(cv.subrange(0, i + 1).last() == cv[i as int]);
                }
                if s < e {
                    let whole = substring(&cs, s, e);
                    let name = match g {
                        Some((a, b)) => substring(&cs, a, b),
                        None => String::new(),
                    };
                    let ghost before = refs@.map_values(|e: (String, String)| (e.0@, e.1@));
                    proof {
                        assert(group_text(text@, cv[i as int].2) == name@);
                    }
                    refs.push((whole, name));
                    assert(refs@.map_values(|e: (String, String)| (e.0@, e.1@)) =~= before.push(
                        (text@.subrange(s as int, e as int), group_text(text@, cv[i as int].2)),
                    ));
                }
                i = i + 1;
            }
            assert(cv.subrange(0, cv.len() as int) =~= cv);
        },
    }
    refs
}

/// `rep` before each character of a text and after the last.
pub open spec fn interleave(s: Seq<char>, rep: Seq<char>) -> Seq<char>
    decreases s.len(),
{
    if s.len() == 0 {
        rep
    } else {
        rep + seq![s[0]] + interleave(s.drop_first(), rep)
    }
}

/// Every occurrence of `pat` replaced with `rep`, from left to right, as
/// `str::replace` does; an empty pattern occurs before each character and
/// at the end.
pub open spec fn replace_all(s: Seq<char>, pat: Seq<char>, rep: Seq<char>) -> Seq<char>
    decreases s.len(),
{
    if pat.len() == 0 {
        interleave(s, rep)
    } else if s.len() < pat.len() {
        s
    } else if s.subrange(0, pat.len() as int) == pat {
        rep + replace_all(s.subrange(pat.len() as int, s.len() as int), pat, rep)
    } else {
        seq![s[0]] + replace_all(s.drop_first(), pat, rep)
    }
}

fn matches_at(cs: &Vec<char>, i: usize, pat: &Vec<char>) -> (r: bool)
    requires
        i + pat@.len() <= cs@.len(),
    ensures
        r == (cs@.subrange(i as int, i + pat@.len()) == pat@),
{
    let mut k: usize = 0;
    assert(cs@.len() == cs.len());
    while k < pat.len()
        invariant
            i + pat@.len() <= cs@.len(),
            cs@.len() <= usize::MAX,
            k <= pat@.len(),
            forall|j: int| 0 <= j < k ==> cs@[i + j] == pat@[j],
        decreases pat@.len() - k,
    {
        if cs[i + k] != pat[k] {
            assert(cs@.subrange(i as int, i + pat@.len())[k as int] != pat@[k as int]);
            return false;
        }
        k = k + 1;
    }
    assert(cs@.subrange(i as int, i + pat@.len()) =~= pat@);
    true
}

fn interleave_text(cs: &Vec<char>, rep: &str) -> (r: String)
    ensures
        r@ == interleave(cs@, rep@),
{
    let n = cs.len();
    let mut out = String::new();
    let mut i: usize = 0;
    assert(cs@.subrange(0, n as int) =~= cs@);
    while i < n
        invariant
            n == cs@.len(),
            i <= n,
            interleave(cs@, rep@) == out@ + interleave(cs@.subrange(i as int, n as int), rep@),
        decreases n - i,
    {
        let ghost rest = cs@.subrange(i as int, n as int);
        assert(rest.drop_first() =~= cs@.subrange(i + 1, n as int));
        assert(rest[0] == cs@[i as int]);
        let ghost before = out@;
        crate::text::push_str(&mut out, rep);
        push_char(&mut out, cs[i]);
        assert(out@ + interleave(cs@.subrange(i + 1, n as int), rep@) =~= before + interleave(rest, rep@));
        i = i + 1;
    }
    let ghost before = out@;
    crate::text::push_str(&mut out, rep);
    assert(cs@.subrange(n as int, n as int) =~= Seq::<char>::empty());
    assert(out@ =~= before + interleave(cs@.subrange(n as int, n as int), rep@));
    out
}

/// Replace every occurrence of a pattern (see `replace_all`).
pub fn replace_text(s: &str, pat: &str, rep: &str) -> (r: String)
    ensures
        r@ == replace_all(s@, pat@, rep@),
{
    let cs = chars_of(s);
    let ps = chars_of(pat);
    if ps.len() == 0 {
        return interleave_text(&cs, rep);
    }
    let rs = chars_of(rep);
    let n = cs.len();
    let mut out = String::new();
    let mut i: usize = 0;
    assert(cs@.subrange(0, n as int) =~= cs@);
    while i < n
        invariant
            cs@ == s@,
            ps@ == pat@,
            rs@ == rep@,
            n == cs@.len(),
            ps@.len() > 0,
            i <= n,
            replace_all(s@, pat@, rep@) == out@ + replace_all(cs@.subrange(i as int, n as int), pat@, rep@),
        decreases n - i,
    {
        let ghost rest = cs@.subrange(i as int, n as int);
        if ps.len() <= n - i && matches_at(&cs, i, &ps) {
            assert(rest.subrange(0, ps@.len() as int) =~= cs@.subrange(i as int, i + ps@.len()));
            assert(rest.subrange(ps@.len() as int, rest.len() as int) =~= cs@.subrange(i + ps@.len(), n as int));
            let ghost before = out@;
            let mut k: usize = 0;
            while k < rs.len()
                invariant
                    k <= rs@.len(),
                    out@ == before + rs@.subrange(0, k as int),
                decreases rs@.len() - k,
            {
                push_char(&mut out, rs[k]);
                k = k + 1;
                assert(out@ =~= before + rs@.subrange(0, k as int));
            }
            assert(rs@.subrange(0, rs@.len() as int) =~= rs@);
            assert(before + (rep@ + replace_all(cs@.subrange(i + ps@.len(), n as int), pat@, rep@)) =~= out@ + replace_all(cs@.subrange(i + ps@.len(), n as int), pat@, rep@));
            i = i + ps.len();
        } else {
            proof {
                if i + ps@.len() <= n {
                    assert(rest.subrange(0, ps@.len() as int) =~= cs@.subrange(i as int, i + ps@.len()));
                }
                assert(rest.drop_first() =~= cs@.subrange(i + 1, n as int));
            }
            let ghost before = out@;
            push_char(&mut out, cs[i]);
            assert(before + (seq![cs@[i as int]] + replace_all(cs@.subrange(i + 1, n as int), pat@, rep@)) =~= out@ + replace_all(cs@.subrange(i + 1, n as int), pat@, rep@));
            i = i + 1;
        }
    }
    assert(out@ + replace_all(cs@.subrange(n as int, n as int), pat@, rep@) =~= out@);
    out
}

/// The abstract form of the environment that globals lookups expand in.
pub struct LocateEnvView {
    pub working_dir: Option<Seq<char>>,
    pub home_dir: Option<Seq<char>>,
    pub home: PathView,
    pub proto_home: Option<Seq<char>>,
    pub vars: Seq<(Seq<char>, Option<Seq<char>>)>,
}

/// What globals lookups expand in: the working, home and proto home
/// directories as text (`None` when not valid UTF-8), the home directory as
/// a path, and the process's environment variables (a value that is not
/// valid UTF-8 as `None`).
pub struct LocateEnv {
    pub working_dir: Option<String>,
    pub home_dir: Option<String>,
    pub home: ProtoPath,
    pub proto_home: Option<String>,
    pub vars: Vec<(String, Option<String>)>,
}

pub open spec fn opt_text(o: Option<String>) -> Option<Seq<char>> {
    match o {
        Some(s) => Some(s@),
        None => None,
    }
}

pub open spec fn vars_view(v: Seq<(String, Option<String>)>) -> Seq<(Seq<char>, Option<Seq<char>>)> {
    v.map_values(|e: (String, Option<String>)| (e.0@, opt_text(e.1)))
}

impl View for LocateEnv {
    type V = LocateEnvView;

    open spec fn view(&self) -> LocateEnvView {
        LocateEnvView {
            working_dir: opt_text(self.working_dir),
            home_dir: opt_text(self.home_dir),
            home: self.home@,
            proto_home: opt_text(self.proto_home),
            vars: vars_view(self.vars@),
        }
    }
}

/// The value of an environment variable: `None` when it is not set or not
/// valid UTF-8.
pub open spec fn env_value(vars: Seq<(Seq<char>, Option<Seq<char>>)>, name: Seq<char>) -> Option<Seq<char>>
    decreases vars.len(),
{
    if vars.len() == 0 {
        None
    } else if vars[0].0 == name {
        vars[0].1
    } else {
        env_value(vars.drop_first(), name)
    }
}

pub open spec fn lit_cwd() -> Seq<char> { seq!['$', 'C', 'W', 'D'] }
pub open spec fn lit_pwd() -> Seq<char> { seq!['$', 'P', 'W', 'D'] }
pub open spec fn lit_home() -> Seq<char> { seq!['$', 'H', 'O', 'M', 'E'] }
pub open spec fn lit_userhome() -> Seq<char> { seq!['$', 'U', 'S', 'E', 'R', 'H', 'O', 'M', 'E'] }
pub open spec fn lit_userprofile() -> Seq<char> {
    seq!['$', 'U', 'S', 'E', 'R', 'P', 'R', 'O', 'F', 'I', 'L', 'E']
}
pub open spec fn lit_proto_home() -> Seq<char> {
    seq!['$', 'P', 'R', 'O', 'T', 'O', '_', 'H', 'O', 'M', 'E']
}
pub open spec fn lit_proto_root() -> Seq<char> {
    seq!['$', 'P', 'R', 'O', 'T', 'O', '_', 'R', 'O', 'O', 'T']
}
pub open spec fn lit_tool_dir() -> Seq<char> { seq!['$', 'T', 'O', 'O', 'L', '_', 'D', 'I', 'R'] }

/// What a variable reference in a lookup is replaced with: the working
/// directory for `$CWD`/`$PWD`, the home directory for `$HOME`,
/// `$USERHOME` and `$USERPROFILE`, proto's home for `$PROTO_HOME` and
/// `$PROTO_ROOT`, the tool's directory for `$TOOL_DIR`, else the variable's
/// value. `None` skips the lookup.
pub open spec fn replacement_for(m: Seq<char>, name: Seq<char>, env: LocateEnvView, tool_dir: Seq<char>) -> Option<Seq<char>> {
    if m == lit_cwd() || m == lit_pwd() {
        env.working_dir
    } else if m == lit_home() || m == lit_userhome() || m == lit_userprofile() {
        env.home_dir
    } else if m == lit_proto_home() || m == lit_proto_root() {
        env.proto_home
    } else if m == lit_tool_dir() {
        Some(tool_dir)
    } else {
        env_value(env.vars, name)
    }
}

/// A lookup with its references replaced in turn; `None` when one of them
/// has no replacement.
pub open spec fn expand_refs(
    dir: Seq<char>,
    refs: Seq<(Seq<char>, Seq<char>)>,
    env: LocateEnvView,
    tool_dir: Seq<char>,
) -> Option<Seq<char>>
    decreases refs.len(),
{
    if refs.len() == 0 {
        Some(dir)
    } else {
        match replacement_for(refs[0].0, refs[0].1, env, tool_dir) {
            None => None,
            Some(r) => expand_refs(replace_all(dir, refs[0].0, r), refs.drop_first(), env, tool_dir),
        }
    }
}

/// The directory a globals lookup names: after expansion, a leading `~`
/// stands for the home directory.
pub open spec fn lookup_dir(lookup: Seq<char>, env: LocateEnvView, tool_dir: Seq<char>) -> Option<PathView> {
    match expand_refs(lookup, env_refs_of(lookup), env, tool_dir) {
        None => None,
        Some(d) => Some(
            if d.len() > 0 && d[0] == '~' {
                join_path(env.home, native_separators(d.drop_first()))
            } else {
                path_components(native_separators(d))
            },
        ),
    }
}

/// The directories that globals lookups name, each once, in order.
pub open spec fn globals_dirs_of(lookups: Seq<Seq<char>>, env: LocateEnvView, tool_dir: Seq<char>) -> Seq<PathView>
    decreases lookups.len(),
{
    if lookups.len() == 0 {
        seq![]
    } else {
        let acc = globals_dirs_of(lookups.drop_last(), env, tool_dir);
        match lookup_dir(lookups.last(), env, tool_dir) {
            None => acc,
            Some(p) => if acc.contains(p) {
                acc
            } else {
                acc.push(p)
            },
        }
    }
}

fn lookup_env(vars: &Vec<(String, Option<String>)>, name: &str) -> (r: Option<String>)
    ensures
        opt_text(r) == env_value(vars_view(vars@), name@),
{
    let ghost vv = vars_view(vars@);
    let mut i: usize = 0;
    assert(vv.subrange(0, vv.len() as int) =~= vv);
    while i < vars.len()
        invariant
            i <= vars@.len(),
            vv == vars_view(vars@),
            env_value(vv, name@) == env_value(vv.subrange(i as int, vv.len() as int), name@),
        decreases vars@.len() - i,
    {
        let ghost rest = vv.subrange(i as int, vv.len() as int);
        assert(rest[0] == vv[i as int]);
        assert(rest.drop_first() =~= vv.subrange(i + 1, vv.len() as int));
        if str_eq(vars[i].0.as_str(), name) {
            return match &vars[i].1 {
                Some(v) => Some(v.clone()),
                None => None,
            };
        }
        i = i + 1;
    }
    None
}

fn replacement(m: &str, name: &str, env: &LocateEnv, tool_dir: &String) -> (r: Option<String>)
    ensures
        opt_text(r) == replacement_for(m@, name@, env@, tool_dir@),
{
    proof {
        reveal_strlit("$CWD");
        reveal_strlit("$PWD");
        reveal_strlit("$HOME");
        reveal_strlit("$USERHOME");
        reveal_strlit("$USERPROFILE");
        reveal_strlit("$PROTO_HOME");
        reveal_strlit("$PROTO_ROOT");
        reveal_strlit("$TOOL_DIR");
        assert("$CWD"@ =~= lit_cwd());
        assert("$PWD"@ =~= lit_pwd());
        assert("$HOME"@ =~= lit_home());
        assert("$USERHOME"@ =~= lit_userhome());
        assert("$USERPROFILE"@ =~= lit_userprofile());
        assert("$PROTO_HOME"@ =~= lit_proto_home());
        assert("$PROTO_ROOT"@ =~= lit_proto_root());
        assert("$TOOL_DIR"@ =~= lit_tool_dir());
    }
    let copy = |o: &Option<String>| -> (c: Option<String>)
        ensures
            opt_text(c) == opt_text(*o),
    {
        match o {
            Some(v) => Some(v.clone()),
            None => None,
        }
    };
    if str_eq(m, "$CWD") || str_eq(m, "$PWD") {
        copy(&env.working_dir)
    } else if str_eq(m, "$HOME") || str_eq(m, "$USERHOME") || str_eq(m, "$USERPROFILE") {
        copy(&env.home_dir)
    } else if str_eq(m, "$PROTO_HOME") || str_eq(m, "$PROTO_ROOT") {
        copy(&env.proto_home)
    } else if str_eq(m, "$TOOL_DIR") {
        Some(tool_dir.clone())
    } else {
        lookup_env(&env.vars, name)
    }
}

/// Expand the references of a globals lookup.
fn expand_lookup(lookup: &str, env: &LocateEnv, tool_dir: &String) -> (r: Option<String>)
    ensures
        opt_text(r) == expand_refs(lookup@, env_refs_of(lookup@), env@, tool_dir@),
{
    let refs = env_var_references(lookup);
    let ghost rv = refs@.map_values(|e: (String, String)| (e.0@, e.1@));
    let mut dir = lookup.to_owned();
    let mut i: usize = 0;
    assert(rv.subrange(0, rv.len() as int) =~= rv);
    while i < refs.len()
        invariant
            i <= refs@.len(),
            rv == refs@.map_values(|e: (String, String)| (e.0@, e.1@)),
            rv == env_refs_of(lookup@),
            forall|k: int| 0 <= k < refs@.len() ==> (#[trigger] refs@[k]).0@.len() > 0,
            expand_refs(lookup@, rv, env@, tool_dir@) == expand_refs(dir@, rv.subrange(i as int, rv.len() as int), env@, tool_dir@),
        decreases refs@.len() - i,
    {
        let ghost rest = rv.subrange(i as int, rv.len() as int);
        assert(rest[0] == rv[i as int]);
        assert(rv[i as int] == (refs@[i as int].0@, refs@[i as int].1@));
        assert(rest.drop_first() =~= rv.subrange(i + 1, rv.len() as int));
        let m = refs[i].0.as_str();
        match replacement(m, refs[i].1.as_str(), env, tool_dir) {
            None => {
                return None;
            },
            Some(r) => {
                assert(refs@[i as int].0@.len() > 0);
                dir = replace_text(dir.as_str(), m, r.as_str());
            },
        }
        i = i + 1;
    }
    Some(dir)
}

/// Arguments given either as one shell-quoted text or as a list.
pub enum ArgsSpec {
    Text(String),
    List(Vec<String>),
}

/// The abstract form of shim arguments.
pub enum ArgsSpecView {
    Text(Seq<char>),
    List(Seq<Seq<char>>),
}

impl View for ArgsSpec {
    type V = ArgsSpecView;

    open spec fn view(&self) -> ArgsSpecView {
        match self {
            ArgsSpec::Text(t) => ArgsSpecView::Text(t@),
            ArgsSpec::List(v) => ArgsSpecView::List(texts(v@)),
        }
    }
}

pub open spec fn opt_args(o: Option<ArgsSpec>) -> Option<ArgsSpecView> {
    match o {
        Some(a) => Some(a@),
        None => None,
    }
}

pub open spec fn pairs_text(v: Seq<(String, String)>) -> Seq<(Seq<char>, Seq<char>)> {
    v.map_values(|p: (String, String)| (p.0@, p.1@))
}

pub open spec fn opt_pairs(o: Option<Vec<(String, String)>>) -> Option<Seq<(Seq<char>, Seq<char>)>> {
    match o {
        Some(v) => Some(pairs_text(v@)),
        None => None,
    }
}

/// How a plugin configures one executable of a tool.
pub struct ExecutableConfig {
    pub exe_path: Option<String>,
    pub exe_link_path: Option<String>,
    pub no_bin: bool,
    pub no_shim: bool,
    pub primary: bool,
    pub update_perms: bool,
    pub shim_before_args: Option<ArgsSpec>,
    pub shim_after_args: Option<ArgsSpec>,
    pub shim_env_vars: Option<Vec<(String, String)>>,
}

/// What a plugin reports of where a tool's executables and globals live.
pub struct LocateExecutablesOutput {
    pub exes: Vec<(String, ExecutableConfig)>,
    pub exes_dir: Option<String>,
    pub exes_dirs: Vec<String>,
    pub globals_lookup_dirs: Vec<String>,
    pub globals_prefix: Option<String>,
}

pub open spec fn texts(v: Seq<String>) -> Seq<Seq<char>> {
    v.map_values(|s: String| s@)
}

pub open spec fn paths_view(v: Seq<ProtoPath>) -> Seq<PathView> {
    v.map_values(|p: ProtoPath| p@)
}

/// The directories that a tool's executables are installed to: the single
/// directory when the plugin names one, else each listed directory (`.`
/// being the tool's directory itself).
pub open spec fn exes_dirs_of(product: PathView, exes_dir: Option<Seq<char>>, exes_dirs: Seq<Seq<char>>) -> Seq<PathView> {
    match exes_dir {
        Some(d) => seq![join_path(product, native_separators(d))],
        None => exes_dirs.map_values(
            |d: Seq<char>|
                if d == seq!['.'] {
                    product
                } else {
                    join_path(product, native_separators(d))
                },
        ),
    }
}

/// Everything located for a tool: its primary executable, the
/// directories of its executables, and where its globals live.
pub struct LocatorResponse {
    pub exe_file: ProtoPath,
    pub exes_dirs: Vec<ProtoPath>,
    pub globals_dir: Option<ProtoPath>,
    pub globals_dirs: Vec<ProtoPath>,
    pub globals_prefix: Option<String>,
}

/// The abstract form of a locator.
pub struct LocatorView {
    pub product_dir: PathView,
    pub exe_file: Option<PathView>,
    pub exes_dirs: Seq<PathView>,
    pub globals_dir: Option<PathView>,
    pub globals_dirs: Seq<PathView>,
    pub globals_prefix: Option<Seq<char>>,
}

/// Where a tool located in its install directory (`product_dir`) keeps its
/// executables and globals, remembered once located.
pub struct Locator {
    exe_file: Option<ProtoPath>,
    exes_dirs: Vec<ProtoPath>,
    globals_dir: Option<ProtoPath>,
    globals_dirs: Vec<ProtoPath>,
    globals_prefix: Option<String>,
    pub product_dir: ProtoPath,
}

pub open spec fn opt_path(o: Option<ProtoPath>) -> Option<PathView> {
    match o {
        Some(p) => Some(p@),
        None => None,
    }
}

impl View for Locator {
    type V = LocatorView;

    closed spec fn view(&self) -> LocatorView {
        LocatorView {
            product_dir: self.product_dir@,
            exe_file: opt_path(self.exe_file),
            exes_dirs: paths_view(self.exes_dirs@),
            globals_dir: opt_path(self.globals_dir),
            globals_dirs: paths_view(self.globals_dirs@),
            globals_prefix: opt_text(self.globals_prefix),
        }
    }
}

fn copy_paths(v: &Vec<ProtoPath>) -> (r: Vec<ProtoPath>)
    ensures
        paths_view(r@) == paths_view(v@),
{
    let mut r: Vec<ProtoPath> = Vec::new();
    let mut i: usize = 0;
    while i < v.len()
        invariant
            i <= v@.len(),
            paths_view(r@) == paths_view(v@).subrange(0, i as int),
        decreases v@.len() - i,
    {
        let ghost before = r@;
        r.push(v[i].copy());
        assert(paths_view(r@) =~= paths_view(before).push(v@[i as int]@));
        assert(paths_view(v@).subrange(0, i + 1) =~= paths_view(v@).subrange(0, i as int).push(v@[i as int]@));
        i = i + 1;
    }
    assert(paths_view(v@).subrange(0, v@.len() as int) =~= paths_view(v@));
    r
}

fn copy_opt_text(o: &Option<String>) -> (r: Option<String>)
    ensures
        opt_text(r) == opt_text(*o),
{
    match o {
        Some(v) => Some(v.clone()),
        None => None,
    }
}

/// The directory a plugin's relative path names within the tool's
/// directory.
fn within(product: &ProtoPath, dir: &str) -> (r: ProtoPath)
    ensures
        r@ == join_path(product@, native_separators(dir@)),
{
    product.join_text(normalize_separators(dir).as_str())
}

impl Locator {
    /// A locator for a tool installed in `product_dir`, with nothing
    /// located yet.
    pub fn new(product_dir: ProtoPath) -> (r: Locator)
        ensures
            r@ == (LocatorView {
                product_dir: product_dir@,
                exe_file: None,
                exes_dirs: seq![],
                globals_dir: None,
                globals_dirs: seq![],
                globals_prefix: None,
            }),
    {
        let r = Locator {
            product_dir,
            exe_file: None,
            exes_dirs: Vec::new(),
            globals_dir: None,
            globals_dirs: Vec::new(),
            globals_prefix: None,
        };
        assert(paths_view(r.exes_dirs@) =~= Seq::<PathView>::empty());
        assert(paths_view(r.globals_dirs@) =~= Seq::<PathView>::empty());
        r
    }

    /// The primary executable, once located.
    pub fn get_exe_file(&self) -> (r: Option<&ProtoPath>)
        ensures
            match r {
                Some(p) => self@.exe_file == Some(p@),
                None => self@.exe_file is None,
            },
    {
        self.exe_file.as_ref()
    }

    /// The first executables directory, once located.
    pub fn get_exes_dir(&self) -> (r: Option<&ProtoPath>)
        ensures
            match r {
                Some(p) => self@.exes_dirs.len() > 0 && self@.exes_dirs[0] == p@,
                None => self@.exes_dirs.len() == 0,
            },
    {
        if self.exes_dirs.len() == 0 {
            None
        } else {
            Some(&self.exes_dirs[0])
        }
    }

    /// All executables directories, once located.
    pub fn get_exes_dirs(&self) -> (r: &Vec<ProtoPath>)
        ensures
            paths_view(r@) == self@.exes_dirs,
    {
        &self.exes_dirs
    }

    /// The globals directory, once located.
    pub fn get_globals_dir(&self) -> (r: Option<&ProtoPath>)
        ensures
            match r {
                Some(p) => self@.globals_dir == Some(p@),
                None => self@.globals_dir is None,
            },
    {
        self.globals_dir.as_ref()
    }

    /// All globals directories, once located.
    pub fn get_globals_dirs(&self) -> (r: &Vec<ProtoPath>)
        ensures
            paths_view(r@) == self@.globals_dirs,
    {
        &self.globals_dirs
    }

    /// The prefix of globals, once located.
    pub fn get_globals_prefix(&self) -> (r: Option<&String>)
        ensures
            match r {
                Some(p) => self@.globals_prefix == Some(p@),
                None => self@.globals_prefix is None,
            },
    {
        self.globals_prefix.as_ref()
    }

    /// Locate the directories that the tool's executables are installed
    /// to. `output` is the plugin's report, `None` when the plugin cannot
    /// locate executables. Once located, they are remembered.
    pub fn locate_exes_dirs(&mut self, output: Option<&LocateExecutablesOutput>) -> (r: Vec<ProtoPath>)
        ensures
            old(self)@.exes_dirs.len() > 0 ==> paths_view(r@) == old(self)@.exes_dirs && final(self)@ == old(self)@,
            old(self)@.exes_dirs.len() == 0 ==> paths_view(r@) == match output {
                Some(o) => exes_dirs_of(old(self)@.product_dir, opt_text(o.exes_dir), texts(o.exes_dirs@)),
                None => seq![],
            } && final(self)@ == (LocatorView { exes_dirs: paths_view(r@), ..old(self)@ }),
    {
        if self.exes_dirs.len() > 0 {
            return copy_paths(&self.exes_dirs);
        }
        let mut dirs: Vec<ProtoPath> = Vec::new();
        if let Some(o) = output {
            match &o.exes_dir {
                Some(d) => {
                    dirs.push(within(&self.product_dir, d.as_str()));
                    assert(paths_view(dirs@) =~= exes_dirs_of(self@.product_dir, opt_text(o.exes_dir), texts(o.exes_dirs@)));
                },
                None => {
                    let ghost want = exes_dirs_of(self@.product_dir, None, texts(o.exes_dirs@));
                    let mut i: usize = 0;
                    while i < o.exes_dirs.len()
                        invariant
                            i <= o.exes_dirs@.len(),
                            o.exes_dir is None,
                            want == exes_dirs_of(self@.product_dir, None, texts(o.exes_dirs@)),
                            want.len() == o.exes_dirs@.len(),
                            paths_view(dirs@) == want.subrange(0, i as int),
                            dirs@.len() == i,
                        decreases o.exes_dirs@.len() - i,
                    {
                        let cs = chars_of(o.exes_dirs[i].as_str());
                        let dot = cs.len() == 1 && cs[0] == '.';
                        assert(dot == (o.exes_dirs@[i as int]@ == seq!['.'])) by {
                            if o.exes_dirs@[i as int]@ == seq!['.'] {
                                assert(cs@.len() == 1 && cs@[0] == '.');
                            }
                            if dot {
                                assert(cs@ =~= seq!['.']);
                            }
                        }
                        let ghost before = dirs@;
                        if dot {
                            dirs.push(self.product_dir.copy());
                        } else {
                            dirs.push(within(&self.product_dir, o.exes_dirs[i].as_str()));
                        }
                        assert(texts(o.exes_dirs@)[i as int] == o.exes_dirs@[i as int]@);
                        assert(want[i as int] == dirs@[i as int]@);
                        assert(paths_view(dirs@) =~= want.subrange(0, i + 1));
                        i = i + 1;
                    }
                    assert(want.subrange(0, want.len() as int) =~= want);
                },
            }
        } else {
            assert(paths_view(dirs@) =~= Seq::<PathView>::empty());
        }
        self.exes_dirs = copy_paths(&dirs);
        dirs
    }

    /// Locate the prefix that global packages are named with. `output` is
    /// the plugin's report, `None` when the plugin cannot locate
    /// executables. Once located, it is remembered.
    pub fn locate_globals_prefix(&mut self, output: Option<&LocateExecutablesOutput>) -> (r: Option<String>)
        ensures
            old(self)@.globals_prefix is Some ==> opt_text(r) == old(self)@.globals_prefix && final(self)@ == old(self)@,
            old(self)@.globals_prefix is None ==> match output {
                None => r is None && final(self)@ == old(self)@,
                Some(o) => opt_text(r) == opt_text(o.globals_prefix) && final(self)@ == (LocatorView {
                    globals_prefix: opt_text(o.globals_prefix),
                    ..old(self)@
                }),
            },
    {
        if self.globals_prefix.is_some() {
            return copy_opt_text(&self.globals_prefix);
        }
        match output {
            None => None,
            Some(o) => {
                self.globals_prefix = copy_opt_text(&o.globals_prefix);
                copy_opt_text(&o.globals_prefix)
            },
        }
    }
}

/// Whether a path is among the paths.
fn contains_path(v: &Vec<ProtoPath>, p: &ProtoPath) -> (r: bool)
    ensures
        r == paths_view(v@).contains(p@),
{
    let mut i: usize = 0;
    while i < v.len()
        invariant
            i <= v@.len(),
            forall|j: int| 0 <= j < i ==> v@[j]@ != p@,
        decreases v@.len() - i,
    {
        if v[i].equals(p) {
            assert(paths_view(v@)[i as int] == p@);
            return true;
        }
        i = i + 1;
    }
    proof {
        if paths_view(v@).contains(p@) {
            let k = choose|k: int| 0 <= k < paths_view(v@).len() && paths_view(v@)[k] == p@;
            assert(v@[k]@ == p@);
        }
    }
    false
}

impl Locator {
    /// Locate the directories that global packages are installed to: each
    /// lookup of the plugin with its variable references expanded (skipped
    /// when one cannot be), each directory once, in order. `output` is the
    /// plugin's report, `None` when the plugin cannot locate executables.
    /// Reading the report also remembers its globals prefix; once located,
    /// the directories are remembered.
    pub fn locate_globals_dirs(&mut self, output: Option<&LocateExecutablesOutput>, env: &LocateEnv) -> (r: Vec<ProtoPath>)
        ensures
            old(self)@.globals_dirs.len() > 0 ==> paths_view(r@) == old(self)@.globals_dirs && final(self)@ == old(self)@,
            old(self)@.globals_dirs.len() == 0 ==> match output {
                None => r@.len() == 0 && final(self)@ == old(self)@,
                Some(o) => paths_view(r@) == globals_dirs_of(
                    texts(o.globals_lookup_dirs@),
                    env@,
                    render_path(old(self)@.product_dir),
                ) && final(self)@ == (LocatorView {
                    globals_dirs: paths_view(r@),
                    globals_prefix: opt_text(o.globals_prefix),
                    ..old(self)@
                }),
            },
    {
        if self.globals_dirs.len() > 0 {
            return copy_paths(&self.globals_dirs);
        }
        let o = match output {
            None => {
                return Vec::new();
            },
            Some(o) => o,
        };
        self.globals_prefix = copy_opt_text(&o.globals_prefix);
        let tool_dir = self.product_dir.render();
        let ghost lv = texts(o.globals_lookup_dirs@);
        let mut resolved: Vec<ProtoPath> = Vec::new();
        let mut i: usize = 0;
        assert(lv.subrange(0, 0) =~= Seq::<Seq<char>>::empty());
        assert(paths_view(resolved@) =~= Seq::<PathView>::empty());
        while i < o.globals_lookup_dirs.len()
            invariant
                i <= o.globals_lookup_dirs@.len(),
                lv == texts(o.globals_lookup_dirs@),
                tool_dir@ == render_path(self.product_dir@),
                paths_view(resolved@) == globals_dirs_of(lv.subrange(0, i as int), env@, tool_dir@),
            decreases o.globals_lookup_dirs@.len() - i,
        {
            assert(lv.subrange(0, i + 1).drop_last() =~= lv.subrange(0, i as int));
            assert(lv.subrange(0, i + 1).last() == o.globals_lookup_dirs@[i as int]@);
            match expand_lookup(o.globals_lookup_dirs[i].as_str(), env, &tool_dir) {
                None => {},
                Some(d) => {
                    let cs = chars_of(d.as_str());
                    let dir = if cs.len() > 0 && cs[0] == '~' {
                        let rest = substring(&cs, 1, cs.len());
                        assert(rest@ =~= d@.drop_first());
                        env.home.join_text(normalize_separators(rest.as_str()).as_str())
                    } else {
                        ProtoPath::parse(normalize_separators(d.as_str()).as_str())
                    };
                    if !contains_path(&resolved, &dir) {
                        let ghost before = resolved@;
                        resolved.push(dir);
                        assert(paths_view(resolved@) =~= paths_view(before).push(resolved@[resolved@.len() - 1]@));
                    }
                },
            }
            i = i + 1;
        }
        assert(lv.subrange(0, lv.len() as int) =~= lv);
        self.globals_dirs = copy_paths(&resolved);
        resolved
    }

    /// Settle the globals directory among the located ones: the first that
    /// exists and holds files (`has_files`, by position), else the last.
    /// Once settled, it is remembered.
    pub fn locate_globals_dir(&mut self, has_files: &Vec<bool>) -> (r: Option<ProtoPath>)
        ensures
            old(self)@.globals_dir is Some ==> opt_path(r) == old(self)@.globals_dir && final(self)@ == old(self)@,
            old(self)@.globals_dir is None ==> final(self)@ == (LocatorView { globals_dir: opt_path(r), ..old(self)@ })
                && opt_path(r) == chosen_globals_dir(old(self)@.globals_dirs, has_files@),
    {
        if let Some(d) = &self.globals_dir {
            return Some(d.copy());
        }
        let ghost dirs = self@.globals_dirs;
        let mut i: usize = 0;
        while i < self.globals_dirs.len()
            invariant
                i <= self.globals_dirs@.len(),
                dirs == paths_view(self.globals_dirs@),
                self@ == old(self)@,
                self.globals_dir is None,
                dirs == old(self)@.globals_dirs,
                forall|j: int| 0 <= j < i ==> !(j < has_files@.len() && #[trigger] has_files@[j]),
            decreases self.globals_dirs@.len() - i,
        {
            if i < has_files.len() && has_files[i] {
                proof {
                    lemma_first_with_files(dirs, has_files@, i as int);
                }
                let found = self.globals_dirs[i].copy();
                assert(found@ == dirs[i as int]);
                self.globals_dir = Some(found.copy());
                return Some(found);
            }
            i = i + 1;
        }
        proof {
            lemma_first_with_files(dirs, has_files@, dirs.len() as int);
        }
        if self.globals_dirs.len() > 0 {
            let last = self.globals_dirs[self.globals_dirs.len() - 1].copy();
            assert(last@ == dirs.last());
            self.globals_dir = Some(last.copy());
            Some(last)
        } else {
            None
        }
    }
}

/// The first position of the directories that holds files.
pub open spec fn first_with_files(n: int, has_files: Seq<bool>) -> Option<int>
    decreases n,
{
    if n <= 0 {
        None
    } else {
        match first_with_files(n - 1, has_files) {
            Some(i) => Some(i),
            None => if n - 1 < has_files.len() && has_files[n - 1] {
                Some(n - 1)
            } else {
                None
            },
        }
    }
}

/// The globals directory: the first that holds files, else the last.
pub open spec fn chosen_globals_dir(dirs: Seq<PathView>, has_files: Seq<bool>) -> Option<PathView> {
    match first_with_files(dirs.len() as int, has_files) {
        Some(i) => Some(dirs[i]),
        None => if dirs.len() > 0 {
            Some(dirs.last())
        } else {
            None
        },
    }
}

proof fn lemma_first_with_files(dirs: Seq<PathView>, has_files: Seq<bool>, i: int)
    requires
        0 <= i <= dirs.len(),
        forall|j: int| 0 <= j < i ==> !(j < has_files.len() && #[trigger] has_files[j]),
        i < dirs.len() ==> i < has_files.len() && has_files[i],
    ensures
        first_with_files(dirs.len() as int, has_files) == if i < dirs.len() {
            Some(i)
        } else {
            None::<int>
        },
{
    lemma_first_with_files_n(dirs.len() as int, has_files, i);
}

proof fn lemma_first_with_files_n(n: int, has_files: Seq<bool>, i: int)
    requires
        0 <= i <= n,
        forall|j: int| 0 <= j < i ==> !(j < has_files.len() && #[trigger] has_files[j]),
        i < n ==> i < has_files.len() && has_files[i],
    ensures
        first_with_files(n, has_files) == if i < n {
            Some(i)
        } else {
            None::<int>
        },
    decreases n,
{
    if n > 0 {
        if i < n - 1 {
            lemma_first_with_files_n(n - 1, has_files, i);
        } else {
            lemma_first_with_files_n(n - 1, has_files, n - 1);
            if i == n {
                assert(!(n - 1 < has_files.len() && has_files[n - 1]));
            }
        }
    }
}

/// The abstract form of an executable's configuration.
pub struct ExecutableConfigView {
    pub exe_path: Option<Seq<char>>,
    pub exe_link_path: Option<Seq<char>>,
    pub no_bin: bool,
    pub no_shim: bool,
    pub primary: bool,
    pub update_perms: bool,
    pub shim_before_args: Option<ArgsSpecView>,
    pub shim_after_args: Option<ArgsSpecView>,
    pub shim_env_vars: Option<Seq<(Seq<char>, Seq<char>)>>,
}

impl View for ExecutableConfig {
    type V = ExecutableConfigView;

    open spec fn view(&self) -> ExecutableConfigView {
        ExecutableConfigView {
            exe_path: opt_text(self.exe_path),
            exe_link_path: opt_text(self.exe_link_path),
            no_bin: self.no_bin,
            no_shim: self.no_shim,
            primary: self.primary,
            update_perms: self.update_perms,
            shim_before_args: opt_args(self.shim_before_args),
            shim_after_args: opt_args(self.shim_after_args),
            shim_env_vars: opt_pairs(self.shim_env_vars),
        }
    }
}

fn copy_texts(v: &Vec<String>) -> (r: Vec<String>)
    ensures
        texts(r@) == texts(v@),
{
    let mut r: Vec<String> = Vec::new();
    let mut i: usize = 0;
    while i < v.len()
        invariant
            i <= v@.len(),
            texts(r@) == texts(v@).subrange(0, i as int),
        decreases v@.len() - i,
    {
        let ghost before = r@;
        r.push(v[i].clone());
        assert(texts(r@) =~= texts(before).push(v@[i as int]@));
        assert(texts(v@).subrange(0, i + 1) =~= texts(v@).subrange(0, i as int).push(v@[i as int]@));
        i = i + 1;
    }
    assert(texts(v@).subrange(0, v@.len() as int) =~= texts(v@));
    r
}

pub fn copy_pairs(v: &Vec<(String, String)>) -> (r: Vec<(String, String)>)
    ensures
        pairs_text(r@) == pairs_text(v@),
{
    let mut r: Vec<(String, String)> = Vec::new();
    let mut i: usize = 0;
    while i < v.len()
        invariant
            i <= v@.len(),
            pairs_text(r@) == pairs_text(v@).subrange(0, i as int),
        decreases v@.len() - i,
    {
        let ghost before = r@;
        r.push((v[i].0.clone(), v[i].1.clone()));
        assert(pairs_text(r@) =~= pairs_text(before).push((v@[i as int].0@, v@[i as int].1@)));
        assert(pairs_text(v@).subrange(0, i + 1) =~= pairs_text(v@).subrange(0, i as int).push((v@[i as int].0@, v@[i as int].1@)));
        i = i + 1;
    }
    assert(pairs_text(v@).subrange(0, v@.len() as int) =~= pairs_text(v@));
    r
}

impl ArgsSpec {
    /// A copy of the arguments.
    pub fn copy(&self) -> (r: ArgsSpec)
        ensures
            r@ == self@,
    {
        match self {
            ArgsSpec::Text(t) => ArgsSpec::Text(t.clone()),
            ArgsSpec::List(v) => ArgsSpec::List(copy_texts(v)),
        }
    }
}

impl ExecutableConfig {
    /// A copy of the configuration.
    pub fn copy(&self) -> (r: ExecutableConfig)
        ensures
            r@ == self@,
    {
        ExecutableConfig {
            exe_path: copy_opt_text(&self.exe_path),
            exe_link_path: copy_opt_text(&self.exe_link_path),
            no_bin: self.no_bin,
            no_shim: self.no_shim,
            primary: self.primary,
            update_perms: self.update_perms,
            shim_before_args: match &self.shim_before_args {
                Some(a) => Some(a.copy()),
                None => None,
            },
            shim_after_args: match &self.shim_after_args {
                Some(a) => Some(a.copy()),
                None => None,
            },
            shim_env_vars: match &self.shim_env_vars {
                Some(v) => Some(copy_pairs(v)),
                None => None,
            },
        }
    }
}

/// The abstract form of an executable's location.
pub struct LocationView {
    pub config: ExecutableConfigView,
    pub name: Seq<char>,
    pub path: PathView,
    pub version: Option<VersionKeyView>,
}

/// An executable of a tool: its configuration, name and absolute path, and
/// for a binary, the version it runs.
pub struct ExecutableLocation {
    pub config: ExecutableConfig,
    pub name: String,
    pub path: ProtoPath,
    pub version: Option<VersionKey>,
}

impl View for ExecutableLocation {
    type V = LocationView;

    open spec fn view(&self) -> LocationView {
        LocationView {
            config: self.config@,
            name: self.name@,
            path: self.path@,
            version: match self.version {
                Some(v) => Some(v@),
                None => None,
            },
        }
    }
}

pub open spec fn exes_view(v: Seq<(String, ExecutableConfig)>) -> Seq<(Seq<char>, ExecutableConfigView)> {
    v.map_values(|e: (String, ExecutableConfig)| (e.0@, e.1@))
}

pub open spec fn locations_view(v: Seq<ExecutableLocation>) -> Seq<LocationView> {
    v.map_values(|l: ExecutableLocation| l@)
}

/// The location of an executable within the tool's directory.
pub open spec fn location_in(product: PathView, name: Seq<char>, config: ExecutableConfigView) -> LocationView {
    LocationView { config, name, path: join_path(product, native_separators(config.exe_path->0)), version: None }
}

/// The primary executable: the last one marked primary that has a path.
pub open spec fn primary_of(product: PathView, exes: Seq<(Seq<char>, ExecutableConfigView)>) -> Option<LocationView>
    decreases exes.len(),
{
    if exes.len() == 0 {
        None
    } else if exes.last().1.exe_path is Some && exes.last().1.primary {
        Some(location_in(product, exes.last().0, exes.last().1))
    } else {
        primary_of(product, exes.drop_last())
    }
}

/// The secondary executables: those not marked primary that have a path.
pub open spec fn secondaries_of(product: PathView, exes: Seq<(Seq<char>, ExecutableConfigView)>) -> Seq<LocationView>
    decreases exes.len(),
{
    if exes.len() == 0 {
        seq![]
    } else if !exes.last().1.primary && exes.last().1.exe_path is Some {
        secondaries_of(product, exes.drop_last()).push(location_in(product, exes.last().0, exes.last().1))
    } else {
        secondaries_of(product, exes.drop_last())
    }
}

/// The shims to create: one in the shims directory for each executable
/// that does not opt out.
pub open spec fn shims_of(shims_dir: PathView, exes: Seq<(Seq<char>, ExecutableConfigView)>) -> Seq<LocationView>
    decreases exes.len(),
{
    if exes.len() == 0 {
        seq![]
    } else if !exes.last().1.no_shim {
        shims_of(shims_dir, exes.drop_last()).push(
            LocationView {
                config: exes.last().1,
                name: exes.last().0,
                path: join_path(shims_dir, shim_file_name(exes.last().0)),
                version: None,
            },
        )
    } else {
        shims_of(shims_dir, exes.drop_last())
    }
}

/// Every executable that does not opt out of a shim, primary or
/// secondary, gets one in the shims directory, named after it; and every
/// shim is that of such an executable.
pub proof fn lemma_every_executable_gets_a_shim(shims_dir: PathView, exes: Seq<(Seq<char>, ExecutableConfigView)>)
    ensures
        forall|j: int|
            0 <= j < exes.len() && !(#[trigger] exes[j]).1.no_shim ==> exists|k: int|
                0 <= k < shims_of(shims_dir, exes).len() && shims_of(shims_dir, exes)[k] == (LocationView {
                    config: exes[j].1,
                    name: exes[j].0,
                    path: join_path(shims_dir, shim_file_name(exes[j].0)),
                    version: None,
                }),
        forall|k: int|
            0 <= k < shims_of(shims_dir, exes).len() ==> exists|j: int|
                0 <= j < exes.len() && !exes[j].1.no_shim && #[trigger] shims_of(shims_dir, exes)[k] == (LocationView {
                    config: exes[j].1,
                    name: exes[j].0,
                    path: join_path(shims_dir, shim_file_name(exes[j].0)),
                    version: None,
                }),
    decreases exes.len(),
{
    if exes.len() > 0 {
        let prev = exes.drop_last();
        let n = exes.len() - 1;
        lemma_every_executable_gets_a_shim(shims_dir, prev);
        let sp = shims_of(shims_dir, prev);
        let s = shims_of(shims_dir, exes);
        let loc = LocationView {
            config: exes[n].1,
            name: exes[n].0,
            path: join_path(shims_dir, shim_file_name(exes[n].0)),
            version: None,
        };
        if !exes[n].1.no_shim {
            assert(s == sp.push(loc));
        } else {
            assert(s == sp);
        }
        assert forall|j: int|
            0 <= j < exes.len() && !(#[trigger] exes[j]).1.no_shim implies exists|k: int|
                0 <= k < s.len() && s[k] == (LocationView {
                    config: exes[j].1,
                    name: exes[j].0,
                    path: join_path(shims_dir, shim_file_name(exes[j].0)),
                    version: None,
                }) by {
            if j < n {
                assert(prev[j] == exes[j]);
                let k = choose|k: int|
                    0 <= k < sp.len() && sp[k] == (LocationView {
                        config: prev[j].1,
                        name: prev[j].0,
                        path: join_path(shims_dir, shim_file_name(prev[j].0)),
                        version: None,
                    });
                assert(s[k] == sp[k]);
            } else {
                assert(s[sp.len() as int] == loc);
            }
        }
        assert forall|k: int| 0 <= k < s.len() implies exists|j: int|
            0 <= j < exes.len() && !exes[j].1.no_shim && #[trigger] s[k] == (LocationView {
                config: exes[j].1,
                name: exes[j].0,
                path: join_path(shims_dir, shim_file_name(exes[j].0)),
                version: None,
            }) by {
            if k < sp.len() {
                assert(s[k] == sp[k]);
                let j = choose|j: int|
                    0 <= j < prev.len() && !prev[j].1.no_shim && #[trigger] sp[k] == (LocationView {
                        config: prev[j].1,
                        name: prev[j].0,
                        path: join_path(shims_dir, shim_file_name(prev[j].0)),
                        version: None,
                    });
                assert(prev[j] == exes[j]);
            } else {
                assert(s[k] == loc);
            }
        }
    }
}

/// The executables whose permissions are updated once installed: those
/// with a path that ask for it, in the tool's directory.
pub open spec fn perms_of(product: PathView, exes: Seq<(Seq<char>, ExecutableConfigView)>) -> Seq<PathView>
    decreases exes.len(),
{
    if exes.len() == 0 {
        seq![]
    } else if exes.last().1.exe_path is Some && exes.last().1.update_perms {
        perms_of(product, exes.drop_last()).push(join_path(product, native_separators(exes.last().1.exe_path->0)))
    } else {
        perms_of(product, exes.drop_last())
    }
}

/// Why an executable could not be located.
#[derive(Debug)]
pub enum ProtoLocateError {
    MissingToolExecutable { tool: String, path: ProtoPath },
}

impl Locator {
    fn location(&self, name: &String, config: &ExecutableConfig) -> (r: ExecutableLocation)
        requires
            config.exe_path is Some,
        ensures
            r@ == location_in(self@.product_dir, name@, config@),
    {
        let exe_path = match &config.exe_path {
            Some(p) => p,
            None => {
                return ExecutableLocation {
                    config: config.copy(),
                    name: name.clone(),
                    path: self.product_dir.copy(),
                    version: None,
                };
            },
        };
        ExecutableLocation {
            config: config.copy(),
            name: name.clone(),
            path: within(&self.product_dir, exe_path.as_str()),
            version: None,
        }
    }

    /// The primary executable within the tool's directory, from the
    /// plugin's report.
    pub fn locate_primary_exe(&self, output: &LocateExecutablesOutput) -> (r: Option<ExecutableLocation>)
        ensures
            match (r, primary_of(self@.product_dir, exes_view(output.exes@))) {
                (Some(l), Some(v)) => l@ == v,
                (None, None) => true,
                _ => false,
            },
    {
        let ghost ev = exes_view(output.exes@);
        let mut k: usize = output.exes.len();
        assert(ev.subrange(0, k as int) =~= ev);
        while k > 0
            invariant
                k <= output.exes@.len(),
                ev == exes_view(output.exes@),
                primary_of(self@.product_dir, ev) == primary_of(self@.product_dir, ev.subrange(0, k as int)),
            decreases k,
        {
            assert(ev.subrange(0, k as int).drop_last() =~= ev.subrange(0, k - 1));
            assert(ev.subrange(0, k as int).last() == ev[k - 1]);
            let (name, config) = (&output.exes[k - 1].0, &output.exes[k - 1].1);
            if config.exe_path.is_some() && config.primary {
                return Some(self.location(name, config));
            }
            k = k - 1;
        }
        None
    }

    /// The secondary executables within the tool's directory, from the
    /// plugin's report.
    pub fn locate_secondary_exes(&self, output: &LocateExecutablesOutput) -> (r: Vec<ExecutableLocation>)
        ensures
            locations_view(r@) == secondaries_of(self@.product_dir, exes_view(output.exes@)),
    {
        let ghost ev = exes_view(output.exes@);
        let mut out: Vec<ExecutableLocation> = Vec::new();
        let mut i: usize = 0;
        assert(locations_view(out@) =~= secondaries_of(self@.product_dir, ev.subrange(0, 0)));
        while i < output.exes.len()
            invariant
                i <= output.exes@.len(),
                ev == exes_view(output.exes@),
                locations_view(out@) == secondaries_of(self@.product_dir, ev.subrange(0, i as int)),
            decreases output.exes@.len() - i,
        {
            assert(ev.subrange(0, i + 1).drop_last() =~= ev.subrange(0, i as int));
            assert(ev.subrange(0, i + 1).last() == ev[i as int]);
            let config = &output.exes[i].1;
            if !config.primary && config.exe_path.is_some() {
                let ghost before = out@;
                out.push(self.location(&output.exes[i].0, config));
                assert(locations_view(out@) =~= locations_view(before).push(out@[before.len() as int]@));
            }
            i = i + 1;
        }
        assert(ev.subrange(0, ev.len() as int) =~= ev);
        out
    }

    /// The shims that get created in the shims directory, from the plugin's
    /// report.
    pub fn locate_shims(&self, output: &LocateExecutablesOutput, shims_dir: &ProtoPath) -> (r: Vec<ExecutableLocation>)
        ensures
            locations_view(r@) == shims_of(shims_dir@, exes_view(output.exes@)),
    {
        let ghost ev = exes_view(output.exes@);
        let mut out: Vec<ExecutableLocation> = Vec::new();
        let mut i: usize = 0;
        assert(locations_view(out@) =~= shims_of(shims_dir@, ev.subrange(0, 0)));
        while i < output.exes.len()
            invariant
                i <= output.exes@.len(),
                ev == exes_view(output.exes@),
                locations_view(out@) == shims_of(shims_dir@, ev.subrange(0, i as int)),
            decreases output.exes@.len() - i,
        {
            assert(ev.subrange(0, i + 1).drop_last() =~= ev.subrange(0, i as int));
            assert(ev.subrange(0, i + 1).last() == ev[i as int]);
            let name = &output.exes[i].0;
            let config = &output.exes[i].1;
            if !config.no_shim {
                let file = get_shim_file_name(name.as_str());
                let loc = ExecutableLocation {
                    config: config.copy(),
                    name: name.clone(),
                    path: shims_dir.join_text(file.as_str()),
                    version: None,
                };
                let ghost before = out@;
                out.push(loc);
                assert(locations_view(out@) =~= locations_view(before).push(out@[before.len() as int]@));
            }
            i = i + 1;
        }
        assert(ev.subrange(0, ev.len() as int) =~= ev);
        out
    }

    /// The executables whose permissions must be updated, within the tool's
    /// directory, from the plugin's report.
    pub fn exes_to_update_perms(&self, output: &LocateExecutablesOutput) -> (r: Vec<ProtoPath>)
        ensures
            paths_view(r@) == perms_of(self@.product_dir, exes_view(output.exes@)),
    {
        let ghost ev = exes_view(output.exes@);
        let mut out: Vec<ProtoPath> = Vec::new();
        let mut i: usize = 0;
        assert(paths_view(out@) =~= perms_of(self@.product_dir, ev.subrange(0, 0)));
        while i < output.exes.len()
            invariant
                i <= output.exes@.len(),
                ev == exes_view(output.exes@),
                paths_view(out@) == perms_of(self@.product_dir, ev.subrange(0, i as int)),
            decreases output.exes@.len() - i,
        {
            assert(ev.subrange(0, i + 1).drop_last() =~= ev.subrange(0, i as int));
            assert(ev.subrange(0, i + 1).last() == ev[i as int]);
            let config = &output.exes[i].1;
            if config.update_perms {
                if let Some(p) = &config.exe_path {
                    let ghost before = out@;
                    out.push(within(&self.product_dir, p.as_str()));
                    assert(paths_view(out@) =~= paths_view(before).push(out@[before.len() as int]@));
                }
            }
            i = i + 1;
        }
        assert(ev.subrange(0, ev.len() as int) =~= ev);
        out
    }

    /// Where the primary executable is expected: the primary executable
    /// the plugin reports, else the tool's encoded file name within its
    /// directory.
    pub fn exe_file_candidate(&self, primary: Option<&ExecutableLocation>, file_name: &str) -> (r: ProtoPath)
        ensures
            r@ == match primary {
                Some(l) => l@.path,
                None => join_path(self@.product_dir, exe_file_name(encoded_component(file_name@))),
            },
    {
        match primary {
            Some(l) => l.path.copy(),
            None => {
                let encoded = encode_component(file_name);
                let name = exe_name(encoded.as_str());
                self.product_dir.join_text(name.as_str())
            },
        }
    }

    /// Settle the primary executable: the one already located, else the
    /// candidate when it exists (and it is remembered), else the tool's
    /// executable is missing.
    pub fn locate_exe_file(&mut self, candidate: ProtoPath, exists: bool, tool_name: &str) -> (r: Result<ProtoPath, ProtoLocateError>)
        ensures
            old(self)@.exe_file matches Some(p) ==> (r matches Ok(q) && q@ == p) && final(self)@ == old(self)@,
            old(self)@.exe_file is None && exists ==> (r matches Ok(q) && q@ == candidate@) && final(self)@ == (LocatorView {
                exe_file: Some(candidate@),
                ..old(self)@
            }),
            old(self)@.exe_file is None && !exists ==> (r matches Err(ProtoLocateError::MissingToolExecutable { tool, path }) && tool@
                == tool_name@ && path@ == candidate@) && final(self)@ == old(self)@,
    {
        if let Some(p) = &self.exe_file {
            return Ok(p.copy());
        }
        if exists {
            self.exe_file = Some(candidate.copy());
            return Ok(candidate);
        }
        Err(ProtoLocateError::MissingToolExecutable { tool: tool_name.to_owned(), path: candidate })
    }
}

/// Lexicographic order of texts by character (which is the byte order of
/// their UTF-8 forms, as strings are ordered).
pub open spec fn text_lt(a: Seq<char>, b: Seq<char>) -> bool
    decreases a.len(),
{
    if a.len() == 0 {
        b.len() > 0
    } else if b.len() == 0 {
        false
    } else if a[0] != b[0] {
        a[0] < b[0]
    } else {
        text_lt(a.drop_first(), b.drop_first())
    }
}

/// Whether one text orders before another.
pub fn text_less(a: &str, b: &str) -> (r: bool)
    ensures
        r == text_lt(a@, b@),
{
    let ca = chars_of(a);
    let cb = chars_of(b);
    let mut i: usize = 0;
    assert(a@.subrange(0, a@.len() as int) =~= a@);
    assert(b@.subrange(0, b@.len() as int) =~= b@);
    while i < ca.len() && i < cb.len() && ca[i] == cb[i]
        invariant
            i <= ca@.len(),
            i <= cb@.len(),
            ca@ == a@,
            cb@ == b@,
            text_lt(a@, b@) == text_lt(a@.subrange(i as int, a@.len() as int), b@.subrange(i as int, b@.len() as int)),
        decreases ca@.len() - i,
    {
        let ghost sa = a@.subrange(i as int, a@.len() as int);
        let ghost sb = b@.subrange(i as int, b@.len() as int);
        assert(sa.drop_first() =~= a@.subrange(i + 1, a@.len() as int));
        assert(sb.drop_first() =~= b@.subrange(i + 1, b@.len() as int));
        assert(sa[0] == ca@[i as int] && sb[0] == cb@[i as int]);
        i = i + 1;
    }
    let ghost sa = a@.subrange(i as int, a@.len() as int);
    let ghost sb = b@.subrange(i as int, b@.len() as int);
    if i == ca.len() {
        i < cb.len()
    } else if i == cb.len() {
        false
    } else {
        assert(sa[0] == ca@[i as int] && sb[0] == cb@[i as int]);
        ca[i] < cb[i]
    }
}

/// The locations with `x` inserted after every location whose name does
/// not order after its own.
pub open spec fn insert_by_name(sorted: Seq<LocationView>, x: LocationView) -> Seq<LocationView>
    decreases sorted.len(),
{
    if sorted.len() == 0 {
        seq![x]
    } else if text_lt(x.name, sorted.last().name) {
        insert_by_name(sorted.drop_last(), x).push(sorted.last())
    } else {
        sorted.push(x)
    }
}

/// The locations stably sorted by name.
pub open spec fn sorted_by_name(s: Seq<LocationView>) -> Seq<LocationView>
    decreases s.len(),
{
    if s.len() == 0 {
        seq![]
    } else {
        insert_by_name(sorted_by_name(s.drop_last()), s.last())
    }
}

proof fn lemma_insert_by_name(sorted: Seq<LocationView>, x: LocationView, k: int)
    requires
        0 <= k <= sorted.len(),
        forall|j: int| k <= j < sorted.len() ==> text_lt(x.name, #[trigger] sorted[j].name),
        k > 0 ==> !text_lt(x.name, sorted[k - 1].name),
    ensures
        insert_by_name(sorted, x) == sorted.insert(k, x),
    decreases sorted.len() - k,
{
    if k < sorted.len() {
        let init = sorted.drop_last();
        assert forall|j: int| k <= j < init.len() implies text_lt(x.name, #[trigger] init[j].name) by {
            assert(init[j] == sorted[j]);
        }
        if k > 0 {
            assert(init[k - 1] == sorted[k - 1]);
        }
        assert(text_lt(x.name, sorted[sorted.len() - 1].name));
        lemma_insert_by_name(init, x, k);
        assert(init.insert(k, x).push(sorted.last()) =~= sorted.insert(k, x));
    } else {
        if sorted.len() > 0 {
            assert(!text_lt(x.name, sorted.last().name));
        }
        assert(sorted.push(x) =~= sorted.insert(k, x));
    }
}

/// The binary name of an executable in a bucket: the bare name in the `*`
/// bucket, else the name with the bucket appended after a `-`.
pub open spec fn versioned_name(name: Seq<char>, bucket: Seq<char>) -> Seq<char> {
    if bucket == seq!['*'] {
        name
    } else {
        name + seq!['-'] + bucket
    }
}

/// The binaries of the executables that the plugin reports for one bucket.
pub open spec fn bucket_bins(
    bin_dir: PathView,
    bucket: Seq<char>,
    version: VersionKeyView,
    exes: Seq<(Seq<char>, ExecutableConfigView)>,
) -> Seq<LocationView>
    decreases exes.len(),
{
    if exes.len() == 0 {
        seq![]
    } else {
        let acc = bucket_bins(bin_dir, bucket, version, exes.drop_last());
        let (name, config) = exes.last();
        if !config.no_bin && (config.exe_link_path is Some || config.exe_path is Some) {
            let n = versioned_name(name, bucket);
            acc.push(LocationView { config, name: n, path: join_path(bin_dir, bin_file_name(n)), version: Some(version) })
        } else {
            acc
        }
    }
}

/// The binaries of all buckets, in the order of the buckets.
pub open spec fn all_bucket_bins(
    bin_dir: PathView,
    buckets: Seq<(Seq<char>, VersionKeyView)>,
    outputs: Seq<Seq<(Seq<char>, ExecutableConfigView)>>,
) -> Seq<LocationView>
    decreases buckets.len(),
{
    if buckets.len() == 0 {
        seq![]
    } else {
        let i = buckets.len() - 1;
        all_bucket_bins(bin_dir, buckets.drop_last(), outputs) + if i < outputs.len() {
            bucket_bins(bin_dir, buckets[i].0, buckets[i].1, outputs[i])
        } else {
            seq![]
        }
    }
}

pub open spec fn outputs_view(v: Seq<LocateExecutablesOutput>) -> Seq<Seq<(Seq<char>, ExecutableConfigView)>> {
    v.map_values(|o: LocateExecutablesOutput| exes_view(o.exes@))
}

fn insert_location(out: &mut Vec<ExecutableLocation>, x: ExecutableLocation)
    ensures
        locations_view(final(out)@) == insert_by_name(locations_view(old(out)@), x@),
{
    let ghost lv = locations_view(out@);
    let mut k: usize = out.len();
    while k > 0 && text_less(x.name.as_str(), out[k - 1].name.as_str())
        invariant
            k <= out@.len(),
            lv == locations_view(out@),
            forall|j: int| k <= j < lv.len() ==> text_lt(x@.name, #[trigger] lv[j].name),
        decreases k,
    {
        assert(lv[k - 1].name == out@[k - 1]@.name);
        k = k - 1;
    }
    proof {
        if k > 0 {
            assert(lv[k - 1].name == out@[k - 1]@.name);
        }
        lemma_insert_by_name(lv, x@, k as int);
    }
    let ghost xv = x@;
    out.insert(k, x);
    assert(locations_view(out@) =~= lv.insert(k as int, xv));
}

impl Locator {
    /// The binaries that get created in the bin directory for the buckets
    /// (each a bucket name and the version it resolves to) and the plugin's
    /// report for each bucket's version, by position: named after the
    /// bucket, sorted by name.
    pub fn locate_bins_with_manager(
        buckets: &Vec<(String, VersionKey)>,
        outputs: &Vec<LocateExecutablesOutput>,
        bin_dir: &ProtoPath,
    ) -> (r: Vec<ExecutableLocation>)
        ensures
            locations_view(r@) == sorted_by_name(
                all_bucket_bins(bin_dir@, crate::bins::buckets_view(buckets@), outputs_view(outputs@)),
            ),
    {
        let ghost bv = crate::bins::buckets_view(buckets@);
        let ghost ov = outputs_view(outputs@);
        let ghost mut all: Seq<LocationView> = seq![];
        let mut out: Vec<ExecutableLocation> = Vec::new();
        let star = "*";
        proof {
            reveal_strlit("*");
        }
        let mut i: usize = 0;
        assert(bv.subrange(0, 0) =~= Seq::<(Seq<char>, VersionKeyView)>::empty());
        while i < buckets.len()
            invariant
                i <= buckets@.len(),
                bv == crate::bins::buckets_view(buckets@),
                ov == outputs_view(outputs@),
                star@ == seq!['*'],
                all == all_bucket_bins(bin_dir@, bv.subrange(0, i as int), ov),
                locations_view(out@) == sorted_by_name(all),
            decreases buckets@.len() - i,
        {
            assert(bv.subrange(0, i + 1).drop_last() =~= bv.subrange(0, i as int));
            assert(bv.subrange(0, i + 1)[i as int] == bv[i as int]);
            if i < outputs.len() {
                let bucket = &buckets[i].0;
                let version = &buckets[i].1;
                let exes = &outputs[i].exes;
                let ghost ev = exes_view(exes@);
                assert(ov[i as int] == ev);
                let ghost base = all;
                let mut j: usize = 0;
                assert(ev.subrange(0, 0) =~= Seq::<(Seq<char>, ExecutableConfigView)>::empty());
                assert(base + bucket_bins(bin_dir@, bucket@, version@, ev.subrange(0, 0)) =~= base);
                while j < exes.len()
                    invariant
                        j <= exes@.len(),
                        ev == exes_view(exes@),
                        star@ == seq!['*'],
                        all == base + bucket_bins(bin_dir@, bucket@, version@, ev.subrange(0, j as int)),
                        locations_view(out@) == sorted_by_name(all),
                    decreases exes@.len() - j,
                {
                    assert(ev.subrange(0, j + 1).drop_last() =~= ev.subrange(0, j as int));
                    assert(ev.subrange(0, j + 1).last() == ev[j as int]);
                    let name = &exes[j].0;
                    let config = &exes[j].1;
                    if !config.no_bin && (config.exe_link_path.is_some() || config.exe_path.is_some()) {
                        let mut n = name.clone();
                        if !crate::text::str_eq(bucket.as_str(), star) {
                            crate::text::push_char(&mut n, '-');
                            crate::text::push_str(&mut n, bucket.as_str());
                        }
                        assert(n@ == versioned_name(name@, bucket@));
                        let file = get_exe_file_name(n.as_str());
                        let loc = ExecutableLocation {
                            config: config.copy(),
                            path: bin_dir.join_text(file.as_str()),
                            name: n,
                            version: Some(version.copy()),
                        };
                        proof {
                            let nb = base + bucket_bins(bin_dir@, bucket@, version@, ev.subrange(0, j + 1));
                            assert(nb =~= all.push(loc@));
                            assert(nb.drop_last() =~= all);
                            all = nb;
                        }
                        insert_location(&mut out, loc);
                    } else {
                        proof {
                            all = base + bucket_bins(bin_dir@, bucket@, version@, ev.subrange(0, j + 1));
                        }
                    }
                    j = j + 1;
                }
                assert(ev.subrange(0, ev.len() as int) =~= ev);
            } else {
                assert(all_bucket_bins(bin_dir@, bv.subrange(0, i + 1), ov) =~= all);
            }
            i = i + 1;
        }
        assert(bv.subrange(0, bv.len() as int) =~= bv);
        out
    }
}

} // verus!
