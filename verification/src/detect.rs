use vstd::prelude::*;
use crate::text::{chars_of, push_str, trim, trim_spec};

verus! {

/// In which order versions are looked for across config files.
#[derive(PartialEq, Eq, Structural, Clone, Copy, Debug)]
pub enum DetectStrategy {
    /// Each directory's `.prototools`, then its ecosystem files, from the
    /// closest directory outwards.
    FirstAvailable,
    /// Every `.prototools` first, then every directory's ecosystem files.
    PreferPrototools,
    /// Only `.prototools` files.
    OnlyPrototools,
}

/// Where a version is looked for in one directory.
#[derive(PartialEq, Eq, Structural, Clone, Copy, Debug)]
pub enum DetectSource {
    /// The directory's `.prototools` file.
    ProtoConfig,
    /// The tool's ecosystem files in the directory.
    Ecosystem,
}

/// The places to look for a version, in order, across `n` config files
/// (closest first); the first that yields a version wins.
pub open spec fn detect_order_spec(strategy: DetectStrategy, n: nat) -> Seq<(int, DetectSource)> {
    match strategy {
        DetectStrategy::FirstAvailable => Seq::new(
            2 * n,
            |k: int| (k / 2, if k % 2 == 0 { DetectSource::ProtoConfig } else { DetectSource::Ecosystem }),
        ),
        DetectStrategy::PreferPrototools => Seq::new(
            2 * n,
            |k: int| if k < n { (k, DetectSource::ProtoConfig) } else { (k - n, DetectSource::Ecosystem) },
        ),
        DetectStrategy::OnlyPrototools => Seq::new(n, |k: int| (k, DetectSource::ProtoConfig)),
    }
}

pub open spec fn steps_view(v: Seq<(usize, DetectSource)>) -> Seq<(int, DetectSource)> {
    v.map_values(|e: (usize, DetectSource)| (e.0 as int, e.1))
}

/// The places to look for a version, in order, across `n` config files.
pub fn detect_order(strategy: DetectStrategy, n: usize) -> (r: Vec<(usize, DetectSource)>)
    requires
        n <= usize::MAX / 2,
    ensures
        steps_view(r@) == detect_order_spec(strategy, n as nat),
{
    let mut out: Vec<(usize, DetectSource)> = Vec::new();
    let ghost want = detect_order_spec(strategy, n as nat);
    match strategy {
        DetectStrategy::FirstAvailable => {
            let mut i: usize = 0;
            while i < n
                invariant
                    i <= n,
                    n <= usize::MAX / 2,
                    want == detect_order_spec(strategy, n as nat),
                    strategy == DetectStrategy::FirstAvailable,
                    out@.len() == 2 * i,
                    forall|k: int| 0 <= k < out@.len() ==> steps_view(out@)[k] == want[k],
                decreases n - i,
            {
                out.push((i, DetectSource::ProtoConfig));
                out.push((i, DetectSource::Ecosystem));
                assert(want[2 * i] == (i as int, DetectSource::ProtoConfig));
                assert(want[2 * i + 1] == (i as int, DetectSource::Ecosystem));
                i = i + 1;
            }
        },
        DetectStrategy::PreferPrototools => {
            let mut i: usize = 0;
            while i < n
                invariant
                    i <= n,
                    want == detect_order_spec(strategy, n as nat),
                    strategy == DetectStrategy::PreferPrototools,
                    out@.len() == i,
                    forall|k: int| 0 <= k < out@.len() ==> steps_view(out@)[k] == want[k],
                decreases n - i,
            {
                out.push((i, DetectSource::ProtoConfig));
                i = i + 1;
            }
            let mut j: usize = 0;
            while j < n
                invariant
                    j <= n,
                    n <= usize::MAX / 2,
                    want == detect_order_spec(strategy, n as nat),
                    strategy == DetectStrategy::PreferPrototools,
                    out@.len() == n + j,
                    forall|k: int| 0 <= k < out@.len() ==> steps_view(out@)[k] == want[k],
                decreases n - j,
            {
                out.push((j, DetectSource::Ecosystem));
                assert(want[n + j] == (j as int, DetectSource::Ecosystem));
                j = j + 1;
            }
        },
        DetectStrategy::OnlyPrototools => {
            let mut i: usize = 0;
            while i < n
                invariant
                    i <= n,
                    want == detect_order_spec(strategy, n as nat),
                    strategy == DetectStrategy::OnlyPrototools,
                    out@.len() == i,
                    forall|k: int| 0 <= k < out@.len() ==> steps_view(out@)[k] == want[k],
                decreases n - i,
            {
                out.push((i, DetectSource::ProtoConfig));
                i = i + 1;
            }
        },
    }
    assert(steps_view(out@) =~= want);
    out
}

/// Whether `s` holds `p` somewhere.
pub open spec fn holds_text(s: Seq<char>, p: Seq<char>) -> bool {
    exists|i: int| 0 <= i && i + p.len() <= s.len() && #[trigger] s.subrange(i, i + p.len()) == p
}

/// Whether `s` holds `p` somewhere (`str::contains`).
pub fn contains_text(s: &str, p: &str) -> (r: bool)
    ensures
        r == holds_text(s@, p@),
{
    let cs = chars_of(s);
    let ps = chars_of(p);
    if ps.len() > cs.len() {
        return false;
    }
    let mut i: usize = 0;
    assert(cs@.len() == cs.len());
    let last = cs.len() - ps.len();
    while i <= last
        invariant
            ps@.len() <= cs@.len(),
            last == cs@.len() - ps@.len(),
            cs@.len() <= usize::MAX,
            cs@ == s@,
            ps@ == p@,
            forall|j: int| 0 <= j < i ==> #[trigger] s@.subrange(j, j + p@.len()) != p@,
        ensures
            forall|j: int| 0 <= j <= last ==> #[trigger] s@.subrange(j, j + p@.len()) != p@,
        decreases cs@.len() - i,
    {
        let mut k: usize = 0;
        let mut same = true;
        while k < ps.len()
            invariant
                i + ps@.len() <= cs@.len(),
                cs@.len() <= usize::MAX,
                k <= ps@.len(),
                same == forall|m: int| 0 <= m < k ==> cs@[i + m] == ps@[m],
            decreases ps@.len() - k,
        {
            if cs[i + k] != ps[k] {
                same = false;
            }
            k = k + 1;
        }
        if same {
            assert(s@.subrange(i as int, i + p@.len()) =~= p@);
            return true;
        }
        assert(s@.subrange(i as int, i + p@.len()) != p@) by {
            let m = choose|m: int| 0 <= m < ps@.len() && cs@[i + m] != ps@[m];
            assert(s@.subrange(i as int, i + p@.len())[m] != p@[m]);
        }
        if i == last {
            break;
        }
        i = i + 1;
    }
    assert(forall|j: int| 0 <= j && j + p@.len() <= s@.len() ==> #[trigger] s@.subrange(j, j + p@.len()) != p@);
    false
}

/// Whether a directory is among those the plugin ignores: its path holds
/// one of the ignored texts.
pub open spec fn is_ignored_dir(dir: Seq<char>, ignore: Seq<Seq<char>>) -> bool {
    exists|i: int| 0 <= i < ignore.len() && holds_text(dir, #[trigger] ignore[i])
}

/// Whether a directory is among those the plugin ignores.
pub fn ignored_dir(dir: &str, ignore: &Vec<String>) -> (r: bool)
    ensures
        r == is_ignored_dir(dir@, ignore@.map_values(|s: String| s@)),
{
    let ghost iv = ignore@.map_values(|s: String| s@);
    let mut i: usize = 0;
    while i < ignore.len()
        invariant
            i <= ignore@.len(),
            iv == ignore@.map_values(|s: String| s@),
            forall|j: int| 0 <= j < i ==> !holds_text(dir@, #[trigger] iv[j]),
        decreases ignore@.len() - i,
    {
        assert(iv[i as int] == ignore@[i as int]@);
        if contains_text(dir, ignore[i].as_str()) {
            return true;
        }
        i = i + 1;
    }
    false
}

/// The version a version file holds: its trimmed content, unless empty.
pub fn version_file_content(content: &str) -> (r: Option<String>)
    ensures
        match r {
            Some(v) => v@ == trim_spec(content@) && v@.len() > 0,
            None => trim_spec(content@).len() == 0,
        },
{
    let t = trim(content);
    if chars_of(t.as_str()).len() == 0 {
        None
    } else {
        Some(t)
    }
}

/// The environment variable that pins a tool's version: the tool's
/// variable prefix followed by `_VERSION`.
pub fn version_env_var(prefix: &str) -> (r: String)
    ensures
        r@ == prefix@ + seq!['_', 'V', 'E', 'R', 'S', 'I', 'O', 'N'],
{
    let mut out = prefix.to_owned();
    let suffix = "_VERSION";
    proof {
        reveal_strlit("_VERSION");
    }
    push_str(&mut out, suffix);
    out
}

/// The version an environment variable pins, when it is set and not empty.
pub fn session_version(value: Option<String>) -> (r: Option<String>)
    ensures
        match value {
            Some(v) => if v@.len() > 0 {
                r matches Some(x) && x@ == v@
            } else {
                r is None
            },
            None => r is None,
        },
{
    match value {
        Some(v) => {
            if chars_of(v.as_str()).len() > 0 {
                Some(v)
            } else {
                None
            }
        },
        None => None,
    }
}

/// Where a search of a directory's version files stands: the position of
/// the file at hand among the files the plugin names, how many it names,
/// and whether the plugin parses version files itself.
#[derive(Clone, Copy, PartialEq, Eq, Structural, Debug)]
pub struct VersionFileSearch {
    pub index: usize,
    pub count: usize,
    pub has_parser: bool,
}

/// What happened since the last step of the search.
pub enum VersionFileEvent {
    /// The search begins.
    Start,
    /// The file at hand was read: its contents, or `None` when it does not
    /// exist.
    Read(Option<String>),
    /// The plugin parsed the file at hand: the version, if it found one.
    Parsed(Option<String>),
}

/// What the search does next.
pub enum VersionFileAction {
    /// Read the file at this position.
    Read(usize),
    /// Have the plugin parse the file at this position, with its trimmed
    /// contents.
    Parse(usize, String),
    /// The version is found in the file at this position (as the trimmed
    /// contents, or as the plugin parsed it).
    Found(usize, String),
    /// No file holds a version.
    NotFound,
}

/// The abstract form of an action.
pub enum VersionFileActionView {
    Read(nat),
    Parse(nat, Seq<char>),
    Found(nat, Seq<char>),
    NotFound,
}

pub open spec fn action_view(a: VersionFileAction) -> VersionFileActionView {
    match a {
        VersionFileAction::Read(i) => VersionFileActionView::Read(i as nat),
        VersionFileAction::Parse(i, c) => VersionFileActionView::Parse(i as nat, c@),
        VersionFileAction::Found(i, v) => VersionFileActionView::Found(i as nat, v@),
        VersionFileAction::NotFound => VersionFileActionView::NotFound,
    }
}

/// The search moved on to the file after the one at hand.
pub open spec fn next_file(s: VersionFileSearch) -> (VersionFileSearch, VersionFileActionView) {
    if s.index + 1 < s.count {
        (VersionFileSearch { index: (s.index + 1) as usize, ..s }, VersionFileActionView::Read((s.index + 1) as nat))
    } else {
        (s, VersionFileActionView::NotFound)
    }
}

/// One step of the search for a version in a directory's version files:
/// the files are looked at in the plugin's order; a missing file, an empty
/// one (once trimmed), or one in which the plugin's parser finds no version
/// is passed over; the first other one gives the version.
pub open spec fn search_step(s: VersionFileSearch, event: VersionFileEventView) -> (VersionFileSearch, VersionFileActionView) {
    match event {
        VersionFileEventView::Start => if s.count == 0 {
            (s, VersionFileActionView::NotFound)
        } else {
            (VersionFileSearch { index: 0, ..s }, VersionFileActionView::Read(0))
        },
        VersionFileEventView::Read(None) => next_file(s),
        VersionFileEventView::Read(Some(c)) => {
            let t = trim_spec(c);
            if t.len() == 0 {
                next_file(s)
            } else if s.has_parser {
                (s, VersionFileActionView::Parse(s.index as nat, t))
            } else {
                (s, VersionFileActionView::Found(s.index as nat, t))
            }
        },
        VersionFileEventView::Parsed(None) => next_file(s),
        VersionFileEventView::Parsed(Some(v)) => (s, VersionFileActionView::Found(s.index as nat, v)),
    }
}

pub enum VersionFileEventView {
    Start,
    Read(Option<Seq<char>>),
    Parsed(Option<Seq<char>>),
}

pub open spec fn event_view(e: VersionFileEvent) -> VersionFileEventView {
    match e {
        VersionFileEvent::Start => VersionFileEventView::Start,
        VersionFileEvent::Read(Some(c)) => VersionFileEventView::Read(Some(c@)),
        VersionFileEvent::Read(None) => VersionFileEventView::Read(None),
        VersionFileEvent::Parsed(Some(v)) => VersionFileEventView::Parsed(Some(v@)),
        VersionFileEvent::Parsed(None) => VersionFileEventView::Parsed(None),
    }
}

fn move_on(s: VersionFileSearch) -> (r: (VersionFileSearch, VersionFileAction))
    ensures
        (r.0, action_view(r.1)) == next_file(s),
{
    if s.count > 0 && s.index < s.count - 1 {
        (VersionFileSearch { index: s.index + 1, ..s }, VersionFileAction::Read(s.index + 1))
    } else {
        (s, VersionFileAction::NotFound)
    }
}

/// Take one step of the search for a version in a directory's version
/// files (see `search_step`).
pub fn version_file_step(s: VersionFileSearch, event: VersionFileEvent) -> (r: (VersionFileSearch, VersionFileAction))
    ensures
        (r.0, action_view(r.1)) == search_step(s, event_view(event)),
{
    match event {
        VersionFileEvent::Start => {
            if s.count == 0 {
                (s, VersionFileAction::NotFound)
            } else {
                (VersionFileSearch { index: 0, ..s }, VersionFileAction::Read(0))
            }
        },
        VersionFileEvent::Read(None) => move_on(s),
        VersionFileEvent::Read(Some(c)) => {
            let t = trim(c.as_str());
            if chars_of(t.as_str()).len() == 0 {
                move_on(s)
            } else if s.has_parser {
                (s, VersionFileAction::Parse(s.index, t))
            } else {
                (s, VersionFileAction::Found(s.index, t))
            }
        },
        VersionFileEvent::Parsed(None) => move_on(s),
        VersionFileEvent::Parsed(Some(v)) => (s, VersionFileAction::Found(s.index, v)),
    }
}

/// Where a detection of a tool's version stands: what it waits for.
#[derive(Clone, Copy, PartialEq, Eq, Structural, Debug)]
pub enum DetectStage {
    /// Nothing happened yet.
    Start,
    /// The session variable (`PROTO_<ID>_VERSION`) is being read.
    Session,
    /// A directory is being entered: the working directory, then each parent.
    Directory,
    /// The `.prototools` of the directory at hand is being read.
    Pin,
    /// The tool is looking at the directory at hand.
    Ecosystem,
    /// The version the ecosystem gave is being expanded.
    Expanding,
    /// The manifest's default version is being read.
    Default,
    /// A version was detected, or none could be.
    Done,
}

/// What happened since the last step of a detection.
pub enum DetectEvent {
    /// Detection begins, with the version forced on the command line, if any.
    Begin(Option<String>),
    /// The session variable was read: its value, if it is set.
    SessionRead(Option<String>),
    /// The directory to enter: `false` when there is none (no working
    /// directory, or no parent).
    Entered(bool),
    /// The `.prototools` of the directory was read: the tool's pin, if any.
    PinRead(Option<String>),
    /// The tool looked at the directory: the version its ecosystem holds, if any.
    EcosystemRead(Option<String>),
    /// The ecosystem's version was expanded against the installed versions.
    Expanded(Option<String>),
    /// The manifest was read: its default version, if any.
    DefaultRead(Option<String>),
}

pub enum DetectEventView {
    Begin(Option<Seq<char>>),
    SessionRead(Option<Seq<char>>),
    Entered(bool),
    PinRead(Option<Seq<char>>),
    EcosystemRead(Option<Seq<char>>),
    Expanded(Option<Seq<char>>),
    DefaultRead(Option<Seq<char>>),
}

pub open spec fn opt_seq(o: Option<String>) -> Option<Seq<char>> {
    match o {
        Some(v) => Some(v@),
        None => None,
    }
}

impl View for DetectEvent {
    type V = DetectEventView;

    open spec fn view(&self) -> DetectEventView {
        match self {
            DetectEvent::Begin(o) => DetectEventView::Begin(opt_seq(*o)),
            DetectEvent::SessionRead(o) => DetectEventView::SessionRead(opt_seq(*o)),
            DetectEvent::Entered(b) => DetectEventView::Entered(*b),
            DetectEvent::PinRead(o) => DetectEventView::PinRead(opt_seq(*o)),
            DetectEvent::EcosystemRead(o) => DetectEventView::EcosystemRead(opt_seq(*o)),
            DetectEvent::Expanded(o) => DetectEventView::Expanded(opt_seq(*o)),
            DetectEvent::DefaultRead(o) => DetectEventView::DefaultRead(opt_seq(*o)),
        }
    }
}

/// What a detection does next.
pub enum DetectAction {
    /// Read the session variable `PROTO_<ID>_VERSION`.
    ReadSession,
    /// Enter the working directory.
    EnterWorkingDir,
    /// Enter the parent of the directory at hand.
    EnterParent,
    /// Read the tool's pin from the `.prototools` of the directory at hand.
    ReadPin,
    /// Have the tool detect a version from the directory at hand.
    DetectEcosystem,
    /// Expand this version against the installed versions.
    Expand(String),
    /// Read the manifest's default version.
    ReadDefault,
    /// The version is detected.
    Detected(String),
    /// No version could be detected: the tool's detection failed.
    Failed,
    /// The event does not answer what the detection waits for; nothing changes.
    Ignored,
}

pub enum DetectActionView {
    ReadSession,
    EnterWorkingDir,
    EnterParent,
    ReadPin,
    DetectEcosystem,
    Expand(Seq<char>),
    ReadDefault,
    Detected(Seq<char>),
    Failed,
    Ignored,
}

impl View for DetectAction {
    type V = DetectActionView;

    open spec fn view(&self) -> DetectActionView {
        match self {
            DetectAction::ReadSession => DetectActionView::ReadSession,
            DetectAction::EnterWorkingDir => DetectActionView::EnterWorkingDir,
            DetectAction::EnterParent => DetectActionView::EnterParent,
            DetectAction::ReadPin => DetectActionView::ReadPin,
            DetectAction::DetectEcosystem => DetectActionView::DetectEcosystem,
            DetectAction::Expand(v) => DetectActionView::Expand(v@),
            DetectAction::ReadDefault => DetectActionView::ReadDefault,
            DetectAction::Detected(v) => DetectActionView::Detected(v@),
            DetectAction::Failed => DetectActionView::Failed,
            DetectAction::Ignored => DetectActionView::Ignored,
        }
    }
}

/// One step of detecting a tool's version, in order of precedence: a
/// version forced on the command line; else the session variable, when it
/// is set; else, from the working directory up through each parent, the
/// tool's pin in the directory's `.prototools`, then the version the tool's
/// ecosystem holds there once it expands to one; else the manifest's
/// default version; else detection fails.
pub open spec fn detect_transition(stage: DetectStage, event: DetectEventView) -> (DetectStage, DetectActionView) {
    match (stage, event) {
        (DetectStage::Start, DetectEventView::Begin(Some(v))) => (DetectStage::Done, DetectActionView::Detected(v)),
        (DetectStage::Start, DetectEventView::Begin(None)) => (DetectStage::Session, DetectActionView::ReadSession),
        (DetectStage::Session, DetectEventView::SessionRead(Some(v))) => (
            DetectStage::Done,
            DetectActionView::Detected(v),
        ),
        (DetectStage::Session, DetectEventView::SessionRead(None)) => (
            DetectStage::Directory,
            DetectActionView::EnterWorkingDir,
        ),
        (DetectStage::Directory, DetectEventView::Entered(true)) => (DetectStage::Pin, DetectActionView::ReadPin),
        (DetectStage::Directory, DetectEventView::Entered(false)) => (
            DetectStage::Default,
            DetectActionView::ReadDefault,
        ),
        (DetectStage::Pin, DetectEventView::PinRead(Some(v))) => (DetectStage::Done, DetectActionView::Detected(v)),
        (DetectStage::Pin, DetectEventView::PinRead(None)) => (
            DetectStage::Ecosystem,
            DetectActionView::DetectEcosystem,
        ),
        (DetectStage::Ecosystem, DetectEventView::EcosystemRead(Some(v))) => (
            DetectStage::Expanding,
            DetectActionView::Expand(v),
        ),
        (DetectStage::Ecosystem, DetectEventView::EcosystemRead(None)) => (
            DetectStage::Directory,
            DetectActionView::EnterParent,
        ),
        (DetectStage::Expanding, DetectEventView::Expanded(Some(v))) => (
            DetectStage::Done,
            DetectActionView::Detected(v),
        ),
        (DetectStage::Expanding, DetectEventView::Expanded(None)) => (
            DetectStage::Directory,
            DetectActionView::EnterParent,
        ),
        (DetectStage::Default, DetectEventView::DefaultRead(Some(v))) => (
            DetectStage::Done,
            DetectActionView::Detected(v),
        ),
        (DetectStage::Default, DetectEventView::DefaultRead(None)) => (DetectStage::Done, DetectActionView::Failed),
        _ => (stage, DetectActionView::Ignored),
    }
}

fn found(v: String) -> (r: (DetectStage, DetectAction))
    ensures
        r.0 == DetectStage::Done,
        r.1@ == DetectActionView::Detected(v@),
{
    (DetectStage::Done, DetectAction::Detected(v))
}

/// Take one step of detecting a tool's version (see `detect_transition`).
pub fn detect_step(stage: DetectStage, event: DetectEvent) -> (r: (DetectStage, DetectAction))
    ensures
        (r.0, r.1@) == detect_transition(stage, event@),
{
    match (stage, event) {
        (DetectStage::Start, DetectEvent::Begin(Some(v))) => found(v),
        (DetectStage::Start, DetectEvent::Begin(None)) => (DetectStage::Session, DetectAction::ReadSession),
        (DetectStage::Session, DetectEvent::SessionRead(Some(v))) => found(v),
        (DetectStage::Session, DetectEvent::SessionRead(None)) => (DetectStage::Directory, DetectAction::EnterWorkingDir),
        (DetectStage::Directory, DetectEvent::Entered(true)) => (DetectStage::Pin, DetectAction::ReadPin),
        (DetectStage::Directory, DetectEvent::Entered(false)) => (DetectStage::Default, DetectAction::ReadDefault),
        (DetectStage::Pin, DetectEvent::PinRead(Some(v))) => found(v),
        (DetectStage::Pin, DetectEvent::PinRead(None)) => (DetectStage::Ecosystem, DetectAction::DetectEcosystem),
        (DetectStage::Ecosystem, DetectEvent::EcosystemRead(Some(v))) => (DetectStage::Expanding, DetectAction::Expand(v)),
        (DetectStage::Ecosystem, DetectEvent::EcosystemRead(None)) => (DetectStage::Directory, DetectAction::EnterParent),
        (DetectStage::Expanding, DetectEvent::Expanded(Some(v))) => found(v),
        (DetectStage::Expanding, DetectEvent::Expanded(None)) => (DetectStage::Directory, DetectAction::EnterParent),
        (DetectStage::Default, DetectEvent::DefaultRead(Some(v))) => found(v),
        (DetectStage::Default, DetectEvent::DefaultRead(None)) => (DetectStage::Done, DetectAction::Failed),
        (st, _) => (st, DetectAction::Ignored),
    }
}

/// What detection meets in one directory: the tool's pin there; failing
/// that, the version the tool's ecosystem holds there and what it expands
/// to.
pub struct DirFindings {
    pub pin: Option<Seq<char>>,
    pub ecosystem: Option<Seq<char>>,
    pub expanded: Option<Seq<char>>,
}

/// The events a directory reports, in order.
pub open spec fn dir_events(d: DirFindings) -> Seq<DetectEventView> {
    match d.pin {
        Some(v) => seq![DetectEventView::Entered(true), DetectEventView::PinRead(Some(v))],
        None => match d.ecosystem {
            Some(e) => seq![
                DetectEventView::Entered(true),
                DetectEventView::PinRead(None),
                DetectEventView::EcosystemRead(Some(e)),
                DetectEventView::Expanded(d.expanded)
            ],
            None => seq![
                DetectEventView::Entered(true),
                DetectEventView::PinRead(None),
                DetectEventView::EcosystemRead(None)
            ],
        },
    }
}

pub open spec fn dirs_events(dirs: Seq<DirFindings>) -> Seq<DetectEventView>
    decreases dirs.len(),
{
    if dirs.len() == 0 {
        seq![]
    } else {
        dir_events(dirs[0]) + dirs_events(dirs.drop_first())
    }
}

/// The events of a whole detection: the forced version, the session
/// variable, each directory from the working directory up, the end of the
/// directories, and the manifest's default version.
pub open spec fn detection_events(
    forced: Option<Seq<char>>,
    session: Option<Seq<char>>,
    dirs: Seq<DirFindings>,
    default: Option<Seq<char>>,
) -> Seq<DetectEventView> {
    seq![DetectEventView::Begin(forced), DetectEventView::SessionRead(session)] + dirs_events(dirs) + seq![
        DetectEventView::Entered(false),
        DetectEventView::DefaultRead(default)
    ]
}

/// The version a directory gives: its pin, else its ecosystem's version
/// once expanded.
pub open spec fn dir_finding(d: DirFindings) -> Option<Seq<char>> {
    match d.pin {
        Some(v) => Some(v),
        None => match d.ecosystem {
            Some(_) => d.expanded,
            None => None,
        },
    }
}

/// The version of the closest directory that gives one.
pub open spec fn first_found(dirs: Seq<DirFindings>) -> Option<Seq<char>>
    decreases dirs.len(),
{
    if dirs.len() == 0 {
        None
    } else {
        match dir_finding(dirs[0]) {
            Some(v) => Some(v),
            None => first_found(dirs.drop_first()),
        }
    }
}

/// The precedence of detection: the forced version, the session variable,
/// the closest directory, the manifest's default; else failure.
pub open spec fn precedence(
    forced: Option<Seq<char>>,
    session: Option<Seq<char>>,
    dirs: Seq<DirFindings>,
    default: Option<Seq<char>>,
) -> DetectActionView {
    match forced {
        Some(v) => DetectActionView::Detected(v),
        None => match session {
            Some(v) => DetectActionView::Detected(v),
            None => match first_found(dirs) {
                Some(v) => DetectActionView::Detected(v),
                None => match default {
                    Some(v) => DetectActionView::Detected(v),
                    None => DetectActionView::Failed,
                },
            },
        },
    }
}

pub open spec fn is_decisive(a: DetectActionView) -> bool {
    a is Detected || a is Failed
}

/// The first decisive action (a detected version, or failure) that the
/// events lead to from a stage.
pub open spec fn outcome(stage: DetectStage, events: Seq<DetectEventView>) -> Option<DetectActionView>
    decreases events.len(),
{
    if events.len() == 0 {
        None
    } else {
        let (s, a) = detect_transition(stage, events[0]);
        if is_decisive(a) {
            Some(a)
        } else {
            outcome(s, events.drop_first())
        }
    }
}

proof fn lemma_outcome_prepend(stage: DetectStage, e: DetectEventView, rest: Seq<DetectEventView>)
    ensures
        outcome(stage, seq![e] + rest) == ({
            let (s, a) = detect_transition(stage, e);
            if is_decisive(a) {
                Some(a)
            } else {
                outcome(s, rest)
            }
        }),
{
    let ev = seq![e] + rest;
    assert(ev[0] == e);
    assert(ev.drop_first() =~= rest);
}

proof fn lemma_dirs_outcome(dirs: Seq<DirFindings>, tail: Seq<DetectEventView>)
    ensures
        outcome(DetectStage::Directory, dirs_events(dirs) + tail) == match first_found(dirs) {
            Some(v) => Some(DetectActionView::Detected(v)),
            None => outcome(DetectStage::Directory, tail),
        },
    decreases dirs.len(),
{
    if dirs.len() == 0 {
        assert(dirs_events(dirs) + tail =~= tail);
    } else {
        let d = dirs[0];
        let rest = dirs.drop_first();
        let after = dirs_events(rest) + tail;
        lemma_dirs_outcome(rest, tail);
        assert(dirs_events(dirs) + tail =~= dir_events(d) + after);
        match d.pin {
            Some(v) => {
                assert(dir_events(d) + after =~= seq![DetectEventView::Entered(true)] + (seq![
                    DetectEventView::PinRead(Some(v)),
                ] + after));
                lemma_outcome_prepend(DetectStage::Directory, DetectEventView::Entered(true), seq![
                    DetectEventView::PinRead(Some(v)),
                ] + after);
                lemma_outcome_prepend(DetectStage::Pin, DetectEventView::PinRead(Some(v)), after);
            },
            None => {
                let t1 = seq![DetectEventView::PinRead(None)];
                match d.ecosystem {
                    Some(e) => {
                        let r3 = seq![DetectEventView::Expanded(d.expanded)] + after;
                        let r2 = seq![DetectEventView::EcosystemRead(Some(e))] + r3;
                        let r1 = t1 + r2;
                        assert(dir_events(d) + after =~= seq![DetectEventView::Entered(true)] + r1);
                        lemma_outcome_prepend(DetectStage::Directory, DetectEventView::Entered(true), r1);
                        lemma_outcome_prepend(DetectStage::Pin, DetectEventView::PinRead(None), r2);
                        lemma_outcome_prepend(
                            DetectStage::Ecosystem,
                            DetectEventView::EcosystemRead(Some(e)),
                            r3,
                        );
                        lemma_outcome_prepend(DetectStage::Expanding, DetectEventView::Expanded(d.expanded), after);
                    },
                    None => {
                        let r2 = seq![DetectEventView::EcosystemRead(None)] + after;
                        let r1 = t1 + r2;
                        assert(dir_events(d) + after =~= seq![DetectEventView::Entered(true)] + r1);
                        lemma_outcome_prepend(DetectStage::Directory, DetectEventView::Entered(true), r1);
                        lemma_outcome_prepend(DetectStage::Pin, DetectEventView::PinRead(None), r2);
                        lemma_outcome_prepend(DetectStage::Ecosystem, DetectEventView::EcosystemRead(None), after);
                    },
                }
            },
        }
    }
}

/// Detection honours its precedence: stepping through the events of a
/// whole detection, the first version detected (or the failure) is the
/// forced version, else the session variable's, else that of the closest
/// directory (its pin before its ecosystem's expanded version), else the
/// manifest's default.
pub proof fn lemma_detection_precedence(
    forced: Option<Seq<char>>,
    session: Option<Seq<char>>,
    dirs: Seq<DirFindings>,
    default: Option<Seq<char>>,
)
    ensures
        outcome(DetectStage::Start, detection_events(forced, session, dirs, default)) == Some(
            precedence(forced, session, dirs, default),
        ),
{
    let tail = seq![DetectEventView::Entered(false), DetectEventView::DefaultRead(default)];
    let dirs_and_tail = dirs_events(dirs) + tail;
    let after_session = seq![DetectEventView::SessionRead(session)] + dirs_and_tail;
    assert(detection_events(forced, session, dirs, default) =~= seq![DetectEventView::Begin(forced)]
        + after_session);
    lemma_outcome_prepend(DetectStage::Start, DetectEventView::Begin(forced), after_session);
    lemma_outcome_prepend(DetectStage::Session, DetectEventView::SessionRead(session), dirs_and_tail);
    lemma_dirs_outcome(dirs, tail);
    let last = seq![DetectEventView::DefaultRead(default)];
    assert(tail =~= seq![DetectEventView::Entered(false)] + last);
    lemma_outcome_prepend(DetectStage::Directory, DetectEventView::Entered(false), last);
    assert(last =~= seq![DetectEventView::DefaultRead(default)] + Seq::<DetectEventView>::empty());
    lemma_outcome_prepend(DetectStage::Default, DetectEventView::DefaultRead(default), Seq::empty());
}

} // verus!
