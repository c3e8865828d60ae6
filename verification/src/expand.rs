use vstd::prelude::*;
use crate::bins::{decimal, digit_char, digit_of};
use crate::config::{regex_replace_all, regex_replaced};
use crate::detect::{contains_text, holds_text};
use crate::gpg::{find_from, find_in, lemma_find_from};
use crate::human::{digit_runs_fit, human_order, human_order_of};
use crate::locate::{replace_all, replace_text};
use crate::text::{chars_of, push_char, push_str, substring, trim, trim_spec};

verus! {

#[verifier::external_type_specification]
#[verifier::external_body]
pub struct ExVersionReq(semver::VersionReq);

#[verifier::external_type_specification]
#[verifier::external_body]
pub struct ExSemverVersion(semver::Version);

/// Whether a character may stand at a position of an alias name: a letter
/// first, then letters, digits, `-`, `_`, `/`, `.` or `*`.
pub open spec fn is_alias_char(c: char, first: bool) -> bool {
    if first {
        ('a' <= c && c <= 'z') || ('A' <= c && c <= 'Z')
    } else {
        ('a' <= c && c <= 'z') || ('A' <= c && c <= 'Z') || ('0' <= c && c <= '9') || c == '-' || c == '_'
            || c == '/' || c == '.' || c == '*'
    }
}

/// Whether a version names an alias (such as `latest` or `stable`) rather
/// than a version or requirement.
pub open spec fn is_alias_name(s: Seq<char>) -> bool {
    forall|i: int| 0 <= i < s.len() ==> is_alias_char(#[trigger] s[i], i == 0)
}

fn alias_name(s: &str) -> (r: bool)
    ensures
        r == is_alias_name(s@),
{
    let cs = chars_of(s);
    let mut i: usize = 0;
    while i < cs.len()
        invariant
            i <= cs@.len(),
            cs@ == s@,
            forall|k: int| 0 <= k < i ==> is_alias_char(#[trigger] cs@[k], k == 0),
        decreases cs@.len() - i,
    {
        let c = cs[i];
        let ok = if i == 0 {
            ('a' <= c && c <= 'z') || ('A' <= c && c <= 'Z')
        } else {
            ('a' <= c && c <= 'z') || ('A' <= c && c <= 'Z') || ('0' <= c && c <= '9') || c == '-' || c == '_'
                || c == '/' || c == '.' || c == '*'
        };
        if !ok {
            assert(!is_alias_char(cs@[i as int], i == 0));
            return false;
        }
        i = i + 1;
    }
    true
}

/// A version without a leading `v` or `V`.
pub open spec fn without_v(s: Seq<char>) -> Seq<char> {
    if s.len() > 0 && (s[0] == 'v' || s[0] == 'V') {
        s.drop_first()
    } else {
        s
    }
}

/// The pattern of white space between a comparison and a number.
pub open spec fn gtlt_space_pattern() -> Seq<char> {
    seq!['(', '[', '>', '<', ']', '=', '?', ')', '\\', 's', '+', '(', '\\', 'd', ')']
}

pub open spec fn gtlt_replacement() -> Seq<char> {
    seq!['$', '1', '$', '2']
}

/// A detected version made ready to read: without `.*`, without a leading
/// `v`, and without white space between a comparison and its number.
pub open spec fn normalized_version(s: Seq<char>) -> Seq<char> {
    let a = without_v(replace_all(s, seq!['.', '*'], seq![]));
    match regex_replaced(gtlt_space_pattern(), a, gtlt_replacement()) {
        Some(t) => t,
        None => a,
    }
}

fn normalize_version(s: &str) -> (r: String)
    ensures
        r@ == normalized_version(s@),
{
    let dot_star = ".*";
    proof {
        reveal_strlit(".*");
        assert(dot_star@ =~= seq!['.', '*']);
    }
    let a = replace_text(s, dot_star, "");
    proof {
        reveal_strlit("");
        assert(""@ =~= Seq::<char>::empty());
    }
    let ca = chars_of(a.as_str());
    let b = if ca.len() > 0 && (ca[0] == 'v' || ca[0] == 'V') {
        substring(&ca, 1, ca.len())
    } else {
        a
    };
    proof {
        assert(b@ == without_v(replace_all(s@, seq!['.', '*'], seq![]))) by {
            if ca@.len() > 0 && (ca@[0] == 'v' || ca@[0] == 'V') {
                assert(ca@.subrange(1, ca@.len() as int) =~= ca@.drop_first());
            }
        }
    }
    let pattern = "([><]=?)\\s+(\\d)";
    let replacement = "$1$2";
    proof {
        reveal_strlit("([><]=?)\\s+(\\d)");
        reveal_strlit("$1$2");
        assert(pattern@ =~= gtlt_space_pattern());
        assert(replacement@ =~= gtlt_replacement());
    }
    match regex_replace_all(pattern, b.as_str(), replacement) {
        Some(t) => t,
        None => b,
    }
}

/// A version requirement read by `semver`, with its text.
pub struct VersionRequirement {
    req: semver::VersionReq,
    text: String,
}

impl VersionRequirement {
    pub closed spec fn text(&self) -> Seq<char> {
        self.text@
    }
}

/// A version read by `semver`, with its text.
pub struct SemanticVersion {
    version: semver::Version,
    text: String,
}

impl SemanticVersion {
    pub closed spec fn text(&self) -> Seq<char> {
        self.text@
    }
}

/// Whether `semver::VersionReq::parse` reads the text.
pub uninterp spec fn requirement_parses(text: Seq<char>) -> bool;

/// Whether `semver::Version::parse` reads the text.
pub uninterp spec fn semver_parses(text: Seq<char>) -> bool;

/// Whether `semver::VersionReq::matches` accepts the version read from
/// `version` for the requirement read from `req`.
pub uninterp spec fn requirement_matches(req: Seq<char>, version: Seq<char>) -> bool;

/// What `lenient_semver::parse` reads from a text: the major, minor and
/// patch numbers, or the error's message.
pub uninterp spec fn lenient_parse(text: Seq<char>) -> Result<(u64, u64, u64), Seq<char>>;

/// `semver::VersionReq::parse`, the requirement kept with its text.
/// Claimed: whether it reads depends on the text alone.
#[verifier::external_body]
fn parse_requirement(text: &str) -> (r: Option<VersionRequirement>)
    ensures
        match r {
            Some(q) => requirement_parses(text@) && q.text() == text@,
            None => !requirement_parses(text@),
        },
{
    semver::VersionReq::parse(text).ok().map(|req| VersionRequirement { req, text: text.to_owned() })
}

/// `semver::Version::parse`, the version kept with its text. Claimed:
/// whether it reads depends on the text alone.
#[verifier::external_body]
fn parse_semver(text: &str) -> (r: Option<SemanticVersion>)
    ensures
        match r {
            Some(v) => semver_parses(text@) && v.text() == text@,
            None => !semver_parses(text@),
        },
{
    semver::Version::parse(text).ok().map(|version| SemanticVersion { version, text: text.to_owned() })
}

/// `semver::VersionReq::matches`. Claimed: the result depends on the two
/// texts alone.
#[verifier::external_body]
fn matches_requirement(req: &VersionRequirement, version: &SemanticVersion) -> (r: bool)
    ensures
        r == requirement_matches(req.text(), version.text()),
{
    req.req.matches(&version.version)
}

/// `lenient_semver::parse`: the version's major, minor and patch numbers,
/// or the error's message. Claimed: the result depends on the text alone.
#[verifier::external_body]
fn lenient_version(text: &str) -> (r: Result<(u64, u64, u64), String>)
    ensures
        match r {
            Ok(p) => lenient_parse(text@) == Ok::<(u64, u64, u64), Seq<char>>(p),
            Err(m) => lenient_parse(text@) == Err::<(u64, u64, u64), Seq<char>>(m@),
        },
{
    match lenient_semver::parse(text) {
        Ok(v) => Ok((v.major, v.minor, v.patch)),
        Err(e) => Err(e.to_string()),
    }
}

/// A version inserted into versions sorted from the highest down, after
/// those that it does not come after in human order.
pub open spec fn insert_desc(s: Seq<Seq<char>>, x: Seq<char>) -> Seq<Seq<char>>
    decreases s.len(),
{
    if s.len() == 0 {
        seq![x]
    } else if human_order_of(x, s.last()) > 0 {
        insert_desc(s.drop_last(), x).push(s.last())
    } else {
        s.push(x)
    }
}

/// Versions sorted from the highest down in human order (`v20` before
/// `v2`), stably.
pub open spec fn sorted_desc(vs: Seq<Seq<char>>) -> Seq<Seq<char>>
    decreases vs.len(),
{
    if vs.len() == 0 {
        seq![]
    } else {
        insert_desc(sorted_desc(vs.drop_last()), vs.last())
    }
}

pub open spec fn texts(v: Seq<String>) -> Seq<Seq<char>> {
    v.map_values(|s: String| s@)
}

/// Whether every run of ASCII digits in each of the versions fits in a
/// `u32`.
pub open spec fn all_runs_fit(vs: Seq<Seq<char>>) -> bool {
    forall|i: int| 0 <= i < vs.len() ==> digit_runs_fit(#[trigger] vs[i])
}

fn insert_desc_exec(s: &mut Vec<String>, x: String)
    requires
        all_runs_fit(texts(old(s)@)),
        digit_runs_fit(x@),
    ensures
        texts(final(s)@) == insert_desc(texts(old(s)@), x@),
        all_runs_fit(texts(final(s)@)),
    decreases old(s)@.len(),
{
    let ghost before = texts(s@);
    if s.len() == 0 {
        s.push(x);
        assert(texts(s@) =~= seq![x@]);
        return;
    }
    let n = s.len();
    assert(texts(s@)[n - 1] == s@[n - 1]@);
    if human_order(x.as_str(), s[n - 1].as_str()) > 0 {
        let last = s.pop().unwrap();
        assert(texts(s@) =~= before.drop_last());
        insert_desc_exec(s, x);
        let ghost mid = texts(s@);
        s.push(last);
        assert(texts(s@) =~= mid.push(last@));
    } else {
        s.push(x);
        assert(texts(s@) =~= before.push(x@));
    }
}

/// The versions sorted from the highest down in human order.
pub fn sort_versions_desc(vs: &Vec<String>) -> (r: Vec<String>)
    requires
        all_runs_fit(texts(vs@)),
    ensures
        texts(r@) == sorted_desc(texts(vs@)),
{
    let ghost tv = texts(vs@);
    let mut out: Vec<String> = Vec::new();
    let mut i: usize = 0;
    assert(texts(out@) =~= sorted_desc(tv.subrange(0, 0)));
    while i < vs.len()
        invariant
            i <= vs@.len(),
            tv == texts(vs@),
            all_runs_fit(tv),
            all_runs_fit(texts(out@)),
            texts(out@) == sorted_desc(tv.subrange(0, i as int)),
        decreases vs@.len() - i,
    {
        proof {
            assert(tv.subrange(0, i + 1).drop_last() =~= tv.subrange(0, i as int));
            assert(tv.subrange(0, i + 1).last() == vs@[i as int]@);
        }
        insert_desc_exec(&mut out, vs[i].clone());
        i = i + 1;
    }
    assert(tv.subrange(0, tv.len() as int) =~= tv);
    out
}

/// The first of the versions, from position `i` on, that the requirement
/// matches; the text of the first version that does not read, if one comes
/// before.
pub open spec fn first_match(req: Seq<char>, vs: Seq<Seq<char>>, i: int) -> Result<Option<Seq<char>>, Seq<char>>
    decreases vs.len() - i,
{
    if i < 0 || i >= vs.len() {
        Ok(None)
    } else if !semver_parses(vs[i]) {
        Err(vs[i])
    } else if requirement_matches(req, vs[i]) {
        Ok(Some(vs[i]))
    } else {
        first_match(req, vs, i + 1)
    }
}

/// The first installed version (in the given order) that a requirement
/// matches; the text that does not read, when the requirement or a version
/// before the match does not.
pub open spec fn check_installed(req: Seq<char>, vs: Seq<Seq<char>>) -> Result<Option<Seq<char>>, Seq<char>> {
    if !requirement_parses(req) {
        Err(req)
    } else {
        first_match(req, vs, 0)
    }
}

fn check_installed_exec(req: &str, sorted: &Vec<String>) -> (r: Result<Option<String>, String>)
    ensures
        match (r, check_installed(req@, texts(sorted@))) {
            (Ok(Some(a)), Ok(Some(b))) => a@ == b,
            (Ok(None), Ok(None)) => true,
            (Err(a), Err(b)) => a@ == b,
            _ => false,
        },
{
    let ghost sv = texts(sorted@);
    let q = match parse_requirement(req) {
        None => {
            return Err(req.to_owned());
        },
        Some(q) => q,
    };
    let mut i: usize = 0;
    while i < sorted.len()
        invariant
            i <= sorted@.len(),
            sv == texts(sorted@),
            q.text() == req@,
            requirement_parses(req@),
            first_match(req@, sv, 0) == first_match(req@, sv, i as int),
        decreases sorted@.len() - i,
    {
        match parse_semver(sorted[i].as_str()) {
            None => {
                return Err(sorted[i].clone());
            },
            Some(v) => {
                if matches_requirement(&q, &v) {
                    return Ok(Some(sorted[i].clone()));
                }
            },
        }
        i = i + 1;
    }
    Ok(None)
}

/// Why a detected version could not be expanded.
#[derive(Debug)]
pub enum ExpandError {
    /// A requirement or an installed version is not valid semver.
    Semver { version: String },
    /// The matched version could not be read.
    Message(String),
}

pub enum ExpandErrorView {
    Semver(Seq<char>),
    Message(Seq<char>),
}

pub open spec fn error_view(e: ExpandError) -> ExpandErrorView {
    match e {
        ExpandError::Semver { version } => ExpandErrorView::Semver(version@),
        ExpandError::Message(m) => ExpandErrorView::Message(m@),
    }
}

pub open spec fn outcome_view(r: Result<Option<String>, ExpandError>) -> Result<Option<Seq<char>>, ExpandErrorView> {
    match r {
        Ok(Some(s)) => Ok(Some(s@)),
        Ok(None) => Ok(None),
        Err(e) => Err(error_view(e)),
    }
}

/// What a check of the installed versions leaves: the matched version
/// (fully qualified), else `otherwise`.
pub open spec fn found(r: Result<Option<Seq<char>>, Seq<char>>, otherwise: Seq<char>) -> Result<
    (Seq<char>, bool),
    ExpandErrorView,
> {
    match r {
        Err(t) => Err(ExpandErrorView::Semver(t)),
        Ok(Some(m)) => Ok((m, true)),
        Ok(None) => Ok((otherwise, false)),
    }
}

/// The number of dots in a text.
pub open spec fn count_dots(s: Seq<char>) -> nat
    decreases s.len(),
{
    if s.len() == 0 {
        0
    } else {
        count_dots(s.drop_last()) + if s.last() == '.' { 1nat } else { 0nat }
    }
}

/// The version that a single requirement (no `||`) settles on, and
/// whether it was matched against an installed version.
pub open spec fn single_step(v: Seq<char>, sorted: Seq<Seq<char>>) -> Result<(Seq<char>, bool), ExpandErrorView> {
    if holds_text(v, seq![',', ' ']) {
        found(check_installed(v, sorted), seq![])
    } else if holds_text(v, seq![' ']) {
        found(check_installed(replace_all(v, seq![' '], seq![',', ' ']), sorted), seq![])
    } else {
        let c = v[0];
        if c == '^' || c == '~' || c == '>' || c == '<' || c == '*' {
            found(check_installed(v, sorted), seq![])
        } else if c == '=' {
            Ok((v.drop_first(), false))
        } else if count_dots(v) == 2 {
            Ok((v, false))
        } else {
            found(check_installed(seq!['^'] + v, sorted), v)
        }
    }
}

/// A version given as many parts as the detected one has (or all three,
/// when it was matched against an installed version).
pub open spec fn rendered(v: Seq<char>, p: (u64, u64, u64), full: bool) -> Seq<char> {
    let d = count_dots(v);
    decimal(p.0 as nat) + if d >= 1 || full {
        seq!['.'] + decimal(p.1 as nat) + if d >= 2 || full {
            seq!['.'] + decimal(p.2 as nat)
        } else {
            seq![]
        }
    } else {
        seq![]
    }
}

/// The expanded version, from the version settled on: none when none was
/// (but `latest` for `*`).
pub open spec fn finish(v: Seq<char>, maybe: Seq<char>, full: bool) -> Result<Option<Seq<char>>, ExpandErrorView> {
    if maybe.len() == 0 {
        if v == seq!['*'] {
            Ok(Some(seq!['l', 'a', 't', 'e', 's', 't']))
        } else {
            Ok(None)
        }
    } else {
        match lenient_parse(maybe) {
            Err(m) => Err(ExpandErrorView::Message(m)),
            Ok(p) => Ok(Some(rendered(v, p, full))),
        }
    }
}

/// The pieces of a text between the separators, from position `pos` on
/// (as `str::split` gives them).
pub open spec fn split_from(s: Seq<char>, sep: Seq<char>, pos: int) -> Seq<Seq<char>>
    decreases s.len() + 1 - pos,
{
    if pos < 0 || pos > s.len() || sep.len() == 0 {
        seq![]
    } else {
        match find_from(s, sep, pos) {
            None => seq![s.subrange(pos, s.len() as int)],
            Some(i) => if i < pos || i + sep.len() > s.len() {
                seq![]
            } else {
                seq![s.subrange(pos, i)] + split_from(s, sep, i + sep.len())
            },
        }
    }
}

pub open spec fn bars() -> Seq<char> {
    seq!['|', '|']
}

/// A detected version expanded against the installed versions (sorted
/// from the highest down): an alias as it is; for alternatives (`||`), the
/// first alternative that expands; else the version that the requirement
/// settles on, given as many parts as the detected version has. `fuel`
/// bounds the nesting of alternatives.
pub open spec fn expand_spec(version: Seq<char>, sorted: Seq<Seq<char>>, fuel: nat) -> Result<
    Option<Seq<char>>,
    ExpandErrorView,
>
    decreases fuel, 1int, 0int,
{
    if is_alias_name(version) {
        Ok(Some(version))
    } else {
        let v = normalized_version(version);
        if holds_text(v, bars()) {
            match or_parts(split_from(v, bars(), 0), 0, sorted, fuel) {
                Err(e) => Err(e),
                Ok(Some(x)) => Ok(Some(x)),
                Ok(None) => finish(v, seq![], false),
            }
        } else {
            match single_step(v, sorted) {
                Err(e) => Err(e),
                Ok((m, full)) => finish(v, m, full),
            }
        }
    }
}

/// The first of the alternatives, from position `i` on, that expands.
pub open spec fn or_parts(parts: Seq<Seq<char>>, i: int, sorted: Seq<Seq<char>>, fuel: nat) -> Result<
    Option<Seq<char>>,
    ExpandErrorView,
>
    decreases fuel, 0int, parts.len() - i,
{
    if fuel == 0 || i < 0 || i >= parts.len() {
        Ok(None)
    } else {
        match expand_spec(trim_spec(parts[i]), sorted, (fuel - 1) as nat) {
            Err(e) => Err(e),
            Ok(Some(x)) => Ok(Some(x)),
            Ok(None) => or_parts(parts, i + 1, sorted, fuel),
        }
    }
}

/// Whether expanding a version never reads the first character of an
/// empty version, or a first character that is not ASCII.
pub open spec fn expand_defined(version: Seq<char>, fuel: nat) -> bool
    decreases fuel,
{
    is_alias_name(version) || {
        let v = normalized_version(version);
        if holds_text(v, bars()) {
            fuel > 0 ==> forall|i: int|
                0 <= i < split_from(v, bars(), 0).len() ==> expand_defined(
                    trim_spec(#[trigger] split_from(v, bars(), 0)[i]),
                    (fuel - 1) as nat,
                )
        } else {
            v.len() > 0 && v[0] <= '\u{7f}'
        }
    }
}

fn decimal_u64(n: u64) -> (r: String)
    ensures
        r@ == decimal(n as nat),
    decreases n,
{
    if n >= 10 {
        let mut s = decimal_u64(n / 10);
        push_char(&mut s, digit_of((n % 10) as u32));
        s
    } else {
        let mut s = String::new();
        push_char(&mut s, digit_of(n as u32));
        assert(s@ =~= decimal(n as nat));
        s
    }
}

fn dots_in(cs: &Vec<char>) -> (r: usize)
    ensures
        r == count_dots(cs@),
{
    let mut n: usize = 0;
    let mut i: usize = 0;
    while i < cs.len()
        invariant
            i <= cs@.len(),
            n == count_dots(cs@.subrange(0, i as int)),
            n <= i,
        decreases cs@.len() - i,
    {
        assert(cs@.subrange(0, i + 1).drop_last() =~= cs@.subrange(0, i as int));
        if cs[i] == '.' {
            n = n + 1;
        }
        i = i + 1;
    }
    assert(cs@.subrange(0, cs@.len() as int) =~= cs@);
    n
}

fn found_exec(r: Result<Option<String>, String>, otherwise: String) -> (o: Result<(String, bool), ExpandError>)
    ensures
        match (o, found(match r {
            Ok(Some(m)) => Ok(Some(m@)),
            Ok(None) => Ok(None),
            Err(t) => Err(t@),
        }, otherwise@)) {
            (Ok((a, f)), Ok((b, g))) => a@ == b && f == g,
            (Err(e), Err(x)) => error_view(e) == x,
            _ => false,
        },
{
    match r {
        Err(t) => Err(ExpandError::Semver { version: t }),
        Ok(Some(m)) => Ok((m, true)),
        Ok(None) => Ok((otherwise, false)),
    }
}

fn single_step_exec(v: &str, sorted: &Vec<String>) -> (o: Result<(String, bool), ExpandError>)
    requires
        !holds_text(v@, seq![',', ' ']) && !holds_text(v@, seq![' ']) ==> (v@.len() > 0 && v@[0] <= '\u{7f}'),
    ensures
        match (o, single_step(v@, texts(sorted@))) {
            (Ok((a, f)), Ok((b, g))) => a@ == b && f == g,
            (Err(e), Err(x)) => error_view(e) == x,
            _ => false,
        },
{
    let comma = ", ";
    let space = " ";
    proof {
        reveal_strlit(", ");
        reveal_strlit(" ");
        assert(comma@ =~= seq![',', ' ']);
        assert(space@ =~= seq![' ']);
    }
    if contains_text(v, comma) {
        return found_exec(check_installed_exec(v, sorted), String::new());
    }
    if contains_text(v, space) {
        let spaced = replace_text(v, space, comma);
        return found_exec(check_installed_exec(spaced.as_str(), sorted), String::new());
    }
    let cs = chars_of(v);
    let c = cs[0];
    if c == '^' || c == '~' || c == '>' || c == '<' || c == '*' {
        return found_exec(check_installed_exec(v, sorted), String::new());
    }
    if c == '=' {
        let rest = substring(&cs, 1, cs.len());
        assert(rest@ =~= v@.drop_first());
        return Ok((rest, false));
    }
    if dots_in(&cs) == 2 {
        return Ok((v.to_owned(), false));
    }
    let mut caret = String::new();
    push_char(&mut caret, '^');
    push_str(&mut caret, v);
    assert(caret@ =~= seq!['^'] + v@);
    found_exec(check_installed_exec(caret.as_str(), sorted), v.to_owned())
}

fn finish_exec(v: &str, maybe: String, full: bool) -> (r: Result<Option<String>, ExpandError>)
    ensures
        outcome_view(r) == finish(v@, maybe@, full),
{
    let cm = chars_of(maybe.as_str());
    if cm.len() == 0 {
        let star = "*";
        proof {
            reveal_strlit("*");
            assert(star@ =~= seq!['*']);
        }
        if crate::text::str_eq(v, star) {
            let latest = "latest";
            proof {
                reveal_strlit("latest");
                assert(latest@ =~= seq!['l', 'a', 't', 'e', 's', 't']);
            }
            return Ok(Some(latest.to_owned()));
        }
        return Ok(None);
    }
    match lenient_version(maybe.as_str()) {
        Err(m) => Err(ExpandError::Message(m)),
        Ok((major, minor, patch)) => {
            let cv = chars_of(v);
            let d = dots_in(&cv);
            let mut out = decimal_u64(major);
            let ghost head = out@;
            if d >= 1 || full {
                push_char(&mut out, '.');
                push_str(&mut out, decimal_u64(minor).as_str());
                if d >= 2 || full {
                    push_char(&mut out, '.');
                    push_str(&mut out, decimal_u64(patch).as_str());
                }
            }
            proof {
                let p = (major, minor, patch);
                if d >= 1 || full {
                    if d >= 2 || full {
                        assert(out@ =~= rendered(v@, p, full));
                    } else {
                        assert(out@ =~= rendered(v@, p, full));
                    }
                } else {
                    assert(out@ =~= rendered(v@, p, full));
                }
            }
            Ok(Some(out))
        },
    }
}

fn split_bars(v: &str) -> (r: Vec<String>)
    ensures
        texts(r@) == split_from(v@, bars(), 0),
{
    let cs = chars_of(v);
    let mut sep: Vec<char> = Vec::new();
    sep.push('|');
    sep.push('|');
    assert(sep@ =~= bars());
    let mut out: Vec<String> = Vec::new();
    let mut pos: usize = 0;
    assert(texts(out@) =~= seq![]);
    loop
        invariant
            pos <= cs@.len(),
            cs@ == v@,
            sep@ == bars(),
            split_from(cs@, bars(), 0) == texts(out@) + split_from(cs@, bars(), pos as int),
        decreases cs@.len() - pos,
    {
        proof {
            lemma_find_from(cs@, bars(), pos as int);
        }
        match find_in(&cs, &sep, pos) {
            None => {
                let last = substring(&cs, pos, cs.len());
                let ghost before = texts(out@);
                out.push(last);
                assert(texts(out@) =~= before.push(last@));
                assert(split_from(cs@, bars(), pos as int) =~= seq![last@]);
                assert(before + seq![last@] =~= before.push(last@));
                return out;
            },
            Some(i) => {
                assert(pos <= i && i + 2 <= cs@.len());
                assert(cs@.len() == cs.len());
                let piece = substring(&cs, pos, i);
                let ghost before = texts(out@);
                out.push(piece);
                assert(texts(out@) =~= before.push(piece@));
                assert(before + (seq![piece@] + split_from(cs@, bars(), i + 2)) =~= texts(out@) + split_from(
                    cs@,
                    bars(),
                    i + 2,
                ));
                pos = i + 2;
            },
        }
    }
}

fn expand_rec(version: &str, sorted: &Vec<String>, fuel: usize) -> (r: Result<Option<String>, ExpandError>)
    requires
        expand_defined(version@, fuel as nat),
    ensures
        outcome_view(r) == expand_spec(version@, texts(sorted@), fuel as nat),
    decreases fuel,
{
    if alias_name(version) {
        return Ok(Some(version.to_owned()));
    }
    let v = normalize_version(version);
    let bar = "||";
    proof {
        reveal_strlit("||");
        assert(bar@ =~= bars());
    }
    if contains_text(v.as_str(), bar) {
        let parts = split_bars(v.as_str());
        let ghost pv = texts(parts@);
        if fuel > 0 {
            let mut i: usize = 0;
            while i < parts.len()
                invariant
                    fuel > 0,
                    i <= parts@.len(),
                    pv == texts(parts@),
                    pv == split_from(v@, bars(), 0),
                    v@ == normalized_version(version@),
                    !is_alias_name(version@),
                    holds_text(v@, bars()),
                    forall|k: int| 0 <= k < pv.len() ==> expand_defined(trim_spec(#[trigger] pv[k]), (fuel - 1) as nat),
                    or_parts(pv, 0, texts(sorted@), fuel as nat) == or_parts(pv, i as int, texts(sorted@), fuel as nat),
                decreases parts@.len() - i,
            {
                let part = trim(parts[i].as_str());
                assert(part@ == trim_spec(pv[i as int]));
                match expand_rec(part.as_str(), sorted, fuel - 1) {
                    Err(e) => {
                        return Err(e);
                    },
                    Ok(Some(x)) => {
                        return Ok(Some(x));
                    },
                    Ok(None) => {},
                }
                i = i + 1;
            }
        }
        return finish_exec(v.as_str(), String::new(), false);
    }
    match single_step_exec(v.as_str(), sorted) {
        Err(e) => Err(e),
        Ok((m, full)) => finish_exec(v.as_str(), m, full),
    }
}

fn defined_rec(version: &str, fuel: usize) -> (r: bool)
    ensures
        r == expand_defined(version@, fuel as nat),
    decreases fuel,
{
    if alias_name(version) {
        return true;
    }
    let v = normalize_version(version);
    let bar = "||";
    proof {
        reveal_strlit("||");
        assert(bar@ =~= bars());
    }
    if contains_text(v.as_str(), bar) {
        if fuel == 0 {
            return true;
        }
        let parts = split_bars(v.as_str());
        let ghost pv = texts(parts@);
        let mut i: usize = 0;
        while i < parts.len()
            invariant
                fuel > 0,
                i <= parts@.len(),
                pv == texts(parts@),
                pv == split_from(v@, bars(), 0),
                v@ == normalized_version(version@),
                !is_alias_name(version@),
                holds_text(v@, bars()),
                forall|k: int| 0 <= k < i ==> expand_defined(trim_spec(#[trigger] pv[k]), (fuel - 1) as nat),
            decreases parts@.len() - i,
        {
            let part = trim(parts[i].as_str());
            assert(part@ == trim_spec(pv[i as int]));
            if !defined_rec(part.as_str(), fuel - 1) {
                assert(!expand_defined(trim_spec(pv[i as int]), (fuel - 1) as nat));
                return false;
            }
            i = i + 1;
        }
        return true;
    }
    let cs = chars_of(v.as_str());
    cs.len() > 0 && cs[0] <= '\u{7f}'
}

/// Whether a detected version can be expanded (see `expand_defined`).
pub fn expansion_defined(version: &str) -> (r: bool)
    ensures
        r == expand_defined(version@, version@.len()),
{
    let n = chars_of(version).len();
    defined_rec(version, n)
}

/// Expand a detected version against the installed versions: an alias is
/// kept as it is; a requirement is matched against the installed versions
/// from the highest down; the result is given as many parts as the
/// detected version has (all three when it was matched against an
/// installed version). Alternatives nest at most as deep as the version is
/// long.
pub fn expand_detected_version(version: &str, installed_versions: &Vec<String>) -> (r: Result<Option<String>, ExpandError>)
    requires
        expand_defined(version@, version@.len()),
        all_runs_fit(texts(installed_versions@)),
    ensures
        outcome_view(r) == expand_spec(version@, sorted_desc(texts(installed_versions@)), version@.len()),
{
    let sorted = sort_versions_desc(installed_versions);
    let n = chars_of(version).len();
    expand_rec(version, &sorted, n)
}

} // verus!
