use vstd::prelude::*;
use crate::text::str_eq;
use crate::bins::{VersionKey, VersionKeyView, VersionKind, VersionKindView};

verus! {

#[verifier::external_type_specification]
#[verifier::external_body]
pub struct ExVersionSpec(version_spec::VersionSpec);

/// Whether a text reads as a resolved version (canary, an alias, or a
/// version), as `version_spec::VersionSpec::parse` reads it.
pub uninterp spec fn resolves(text: Seq<char>) -> bool;

/// How `version_spec` orders the resolved versions that two texts read
/// as: -1, 0 or 1 as the first comes before, with, or after the second
/// (canary first, then aliases by name, then versions by scope and
/// precedence).
pub uninterp spec fn resolved_order_of(a: Seq<char>, b: Seq<char>) -> int;

/// A resolved version, kept with the text it was read from.
pub struct ResolvedVersion {
    spec: version_spec::VersionSpec,
    text: String,
}

impl ResolvedVersion {
    /// The text the version was read from.
    pub closed spec fn text(&self) -> Seq<char> {
        self.text@
    }
}

/// `version_spec::VersionSpec::parse`, the version kept with its text.
/// Claimed: whether it reads depends on the text alone.
#[verifier::external_body]
fn parse_resolved(text: &str) -> (r: Option<ResolvedVersion>)
    ensures
        match r {
            Some(v) => resolves(text@) && v.text() == text@,
            None => !resolves(text@),
        },
{
    version_spec::VersionSpec::parse(text).ok().map(|spec| ResolvedVersion { spec, text: text.to_owned() })
}

/// The order `version_spec::VersionSpec` derives (`Ord`), its three
/// outcomes given as -1, 0 and 1. Claimed: the outcome depends on the two
/// texts alone.
#[verifier::external_body]
fn compare_resolved(a: &ResolvedVersion, b: &ResolvedVersion) -> (r: i8)
    ensures
        r == resolved_order_of(a.text(), b.text()),
{
    match a.spec.cmp(&b.spec) {
        std::cmp::Ordering::Less => -1,
        std::cmp::Ordering::Equal => 0,
        std::cmp::Ordering::Greater => 1,
    }
}

/// How many of the versions come strictly before a version.
pub open spec fn count_before(vs: Seq<Seq<char>>, x: Seq<char>) -> nat
    decreases vs.len(),
{
    if vs.len() == 0 {
        0
    } else {
        count_before(vs.drop_last(), x) + if resolved_order_of(vs.last(), x) < 0 {
            1nat
        } else {
            0nat
        }
    }
}

pub open spec fn texts_of(v: Seq<String>) -> Seq<Seq<char>> {
    v.map_values(|s: String| s@)
}

/// The rank of each version among the given ones, in the order of
/// resolved versions: how many of them come strictly before it. `None`
/// when a text does not read as a resolved version. A bin bucket keeps the
/// version of the highest rank.
pub fn version_ranks(texts: &Vec<String>) -> (r: Option<Vec<u64>>)
    ensures
        match r {
            None => exists|i: int| 0 <= i < texts@.len() && !resolves(#[trigger] texts@[i]@),
            Some(ranks) => {
                &&& forall|i: int| 0 <= i < texts@.len() ==> resolves(#[trigger] texts@[i]@)
                &&& ranks@.len() == texts@.len()
                &&& forall|i: int|
                    0 <= i < texts@.len() ==> #[trigger] ranks@[i] == count_before(texts_of(texts@), texts@[i]@)
            },
        },
{
    let ghost tv = texts_of(texts@);
    let mut parsed: Vec<ResolvedVersion> = Vec::new();
    let mut i: usize = 0;
    while i < texts.len()
        invariant
            i <= texts@.len(),
            parsed@.len() == i,
            forall|k: int| 0 <= k < i ==> (#[trigger] parsed@[k]).text() == texts@[k]@,
            forall|k: int| 0 <= k < i ==> resolves(#[trigger] texts@[k]@),
        decreases texts@.len() - i,
    {
        match parse_resolved(texts[i].as_str()) {
            Some(v) => parsed.push(v),
            None => {
                return None;
            },
        }
        i = i + 1;
    }
    let mut ranks: Vec<u64> = Vec::new();
    let n = parsed.len();
    let mut a: usize = 0;
    while a < n
        invariant
            n == parsed@.len(),
            n == texts@.len(),
            tv == texts_of(texts@),
            a <= n,
            ranks@.len() == a,
            forall|k: int| 0 <= k < n ==> (#[trigger] parsed@[k]).text() == texts@[k]@,
            forall|k: int| 0 <= k < a ==> #[trigger] ranks@[k] == count_before(tv, texts@[k]@),
        decreases n - a,
    {
        let mut c: u64 = 0;
        let mut b: usize = 0;
        while b < n
            invariant
                n == parsed@.len(),
                n == texts@.len(),
                tv == texts_of(texts@),
                a < n,
                b <= n,
                c <= b,
                forall|k: int| 0 <= k < n ==> (#[trigger] parsed@[k]).text() == texts@[k]@,
                c == count_before(tv.subrange(0, b as int), texts@[a as int]@),
            decreases n - b,
        {
            assert(tv.subrange(0, b + 1).drop_last() =~= tv.subrange(0, b as int));
            assert(tv.subrange(0, b + 1).last() == texts@[b as int]@);
            if compare_resolved(&parsed[b], &parsed[a]) < 0 {
                c = c + 1;
            }
            b = b + 1;
        }
        assert(tv.subrange(0, n as int) =~= tv);
        ranks.push(c);
        a = a + 1;
    }
    Some(ranks)
}

/// What a resolved version is, read from its text by `version_spec`: the
/// canary target, an alias (its name), or a version (its major and minor
/// numbers).
pub uninterp spec fn resolved_kind_of(text: Seq<char>) -> VersionKindView;

/// The variant of a `version_spec::VersionSpec`, with the alias's name or
/// the version's major and minor numbers. Claimed: the result depends on
/// the text alone, and `canary` is the canary target (its source checks
/// for it first).
#[verifier::external_body]
fn resolved_kind(v: &ResolvedVersion) -> (r: VersionKind)
    ensures
        r@ == resolved_kind_of(v.text()),
        v.text() == "canary"@ ==> r@ is Canary,
{
    match &v.spec {
        version_spec::VersionSpec::Canary => VersionKind::Canary,
        version_spec::VersionSpec::Alias(alias) => VersionKind::Alias(alias.to_string()),
        version_spec::VersionSpec::Version(version) => VersionKind::Version { major: version.major, minor: version.minor },
    }
}

/// The version keys of resolved versions, as the bin manager holds them:
/// each with its rank among the versions, its kind and its text. `None`
/// when a text does not read as a resolved version.
pub fn version_keys(texts: &Vec<String>) -> (r: Option<Vec<VersionKey>>)
    ensures
        match r {
            None => exists|i: int| 0 <= i < texts@.len() && !resolves(#[trigger] texts@[i]@),
            Some(keys) => {
                &&& keys@.len() == texts@.len()
                &&& forall|i: int|
                    0 <= i < texts@.len() ==> (#[trigger] keys@[i])@ == (VersionKeyView {
                        order: count_before(texts_of(texts@), texts@[i]@) as u64,
                        kind: resolved_kind_of(texts@[i]@),
                        text: texts@[i]@,
                    })
            },
        },
{
    let ranks = match version_ranks(texts) {
        Some(r) => r,
        None => {
            return None;
        },
    };
    let mut keys: Vec<VersionKey> = Vec::new();
    let mut i: usize = 0;
    while i < texts.len()
        invariant
            i <= texts@.len(),
            ranks@.len() == texts@.len(),
            forall|k: int| 0 <= k < texts@.len() ==> resolves(#[trigger] texts@[k]@),
            forall|k: int|
                0 <= k < texts@.len() ==> #[trigger] ranks@[k] == count_before(texts_of(texts@), texts@[k]@),
            keys@.len() == i,
            forall|k: int|
                0 <= k < i ==> (#[trigger] keys@[k])@ == (VersionKeyView {
                    order: count_before(texts_of(texts@), texts@[k]@) as u64,
                    kind: resolved_kind_of(texts@[k]@),
                    text: texts@[k]@,
                }),
        decreases texts@.len() - i,
    {
        let v = match parse_resolved(texts[i].as_str()) {
            Some(v) => v,
            None => {
                assert(resolves(texts@[i as int]@));
                return None;
            },
        };
        let kind = resolved_kind(&v);
        let text = texts[i].clone();
        keys.push(VersionKey { order: ranks[i], kind, text });
        i = i + 1;
    }
    Some(keys)
}

#[verifier::external_type_specification]
#[verifier::external_body]
pub struct ExUnresolvedVersionSpec(version_spec::UnresolvedVersionSpec);

/// Whether a text reads as a version specification to resolve, as
/// `version_spec::UnresolvedVersionSpec::parse` reads it.
pub uninterp spec fn candidate_parses(text: Seq<char>) -> bool;

/// Whether the specification a text reads as is a fully qualified version
/// (`version_spec::UnresolvedVersionSpec::is_fully_qualified`).
pub uninterp spec fn fully_qualified_of(text: Seq<char>) -> bool;

/// A version specification to resolve, kept with its text.
pub struct Candidate {
    spec: version_spec::UnresolvedVersionSpec,
    text: String,
}

impl Candidate {
    /// The text the specification was read from.
    pub closed spec fn text(&self) -> Seq<char> {
        self.text@
    }
}

/// `version_spec::UnresolvedVersionSpec::parse`, the specification kept
/// with its text. Claimed: whether it reads depends on the text alone, and
/// `canary` reads (as the canary target, which its source checks first).
#[verifier::external_body]
fn parse_candidate(text: &str) -> (r: Option<Candidate>)
    ensures
        match r {
            Some(c) => candidate_parses(text@) && c.text() == text@,
            None => !candidate_parses(text@),
        },
        text@ == "canary"@ ==> r is Some,
{
    version_spec::UnresolvedVersionSpec::parse(text).ok().map(|spec| Candidate { spec, text: text.to_owned() })
}

/// `version_spec::UnresolvedVersionSpec::is_fully_qualified`: whether the
/// specification is a version. Claimed: the answer depends on the text
/// alone, and the canary target is no version.
#[verifier::external_body]
fn candidate_fully_qualified(c: &Candidate) -> (r: bool)
    ensures
        r == fully_qualified_of(c.text()),
        c.text() == "canary"@ ==> !r,
{
    c.spec.is_fully_qualified()
}

/// How resolving a version specification starts.
#[derive(Clone, Copy, PartialEq, Eq, Structural, Debug)]
pub enum ResolveStart {
    /// Use the specification as the resolved version, without validation.
    UseAsIs,
    /// Resolve it through the plugin and the available versions.
    Resolve,
}

/// Decide how resolving a specification starts: a fully qualified version
/// (when short-circuiting is asked for) and the canary target are used as
/// they are; anything else is resolved. `None` when the text does not read
/// as a specification.
pub fn resolve_start(candidate: &str, short_circuit: bool) -> (r: Option<ResolveStart>)
    ensures
        r is None <==> !candidate_parses(candidate@),
        r matches Some(s) ==> (s == ResolveStart::UseAsIs <==> ((short_circuit && fully_qualified_of(candidate@))
            || candidate@ == "canary"@)),
{
    let c = match parse_candidate(candidate) {
        Some(c) => c,
        None => {
            return None;
        },
    };
    let canary = str_eq(candidate, "canary");
    if canary || (short_circuit && candidate_fully_qualified(&c)) {
        Some(ResolveStart::UseAsIs)
    } else {
        Some(ResolveStart::Resolve)
    }
}

} // verus!
