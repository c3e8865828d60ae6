use vstd::prelude::*;
use crate::assoc::{assoc_map, keys_distinct, lemma_assoc_dom, lemma_assoc_index, lemma_assoc_push, lemma_assoc_update};
use crate::shims::strings_view;
use crate::text::{push_char, str_eq};

verus! {

/// The abstract form of a version's kind.
pub enum VersionKindView {
    Canary,
    Alias(Seq<char>),
    Version { major: u32, minor: u32 },
}

/// What the bin manager reads of a resolved version: whether it is the
/// canary target, an alias, or a concrete version with its major and minor
/// numbers.
pub enum VersionKind {
    Canary,
    Alias(String),
    Version { major: u32, minor: u32 },
}

/// The abstract form of a version key.
pub struct VersionKeyView {
    pub order: u64,
    pub kind: VersionKindView,
    pub text: Seq<char>,
}

/// A resolved version as the bin manager holds it. `order` is the version's
/// position in the order of resolved versions (canary, then aliases, then
/// concrete versions by precedence, as `order::version_ranks` computes it),
/// by which a bucket keeps the highest version.
pub struct VersionKey {
    pub order: u64,
    pub kind: VersionKind,
    /// The version's textual form (`1.2.3`, `canary`, an alias name).
    pub text: String,
}

impl View for VersionKind {
    type V = VersionKindView;

    open spec fn view(&self) -> VersionKindView {
        match self {
            VersionKind::Canary => VersionKindView::Canary,
            VersionKind::Alias(a) => VersionKindView::Alias(a@),
            VersionKind::Version { major, minor } => VersionKindView::Version {
                major: *major,
                minor: *minor,
            },
        }
    }
}

impl View for VersionKey {
    type V = VersionKeyView;

    open spec fn view(&self) -> VersionKeyView {
        VersionKeyView { order: self.order, kind: self.kind@, text: self.text@ }
    }
}

impl VersionKey {
    /// Whether two keys stand for the same version.
    pub fn equals(&self, other: &VersionKey) -> (r: bool)
        ensures
            r == (self@ == other@),
    {
        if self.order != other.order || !str_eq(self.text.as_str(), other.text.as_str()) {
            return false;
        }
        match (&self.kind, &other.kind) {
            (VersionKind::Canary, VersionKind::Canary) => true,
            (VersionKind::Alias(a), VersionKind::Alias(b)) => str_eq(a.as_str(), b.as_str()),
            (
                VersionKind::Version { major: a1, minor: a2 },
                VersionKind::Version { major: b1, minor: b2 },
            ) => *a1 == *b1 && *a2 == *b2,
            _ => false,
        }
    }

    /// A copy of the key.
    pub fn copy(&self) -> (r: VersionKey)
        ensures
            r@ == self@,
    {
        let kind = match &self.kind {
            VersionKind::Canary => VersionKind::Canary,
            VersionKind::Alias(a) => VersionKind::Alias(a.as_str().to_owned()),
            VersionKind::Version { major, minor } => VersionKind::Version {
                major: *major,
                minor: *minor,
            },
        };
        VersionKey { order: self.order, kind, text: self.text.clone() }
    }

    /// Whether this is the canary target (or the `canary` alias).
    pub fn is_canary(&self) -> (r: bool)
        ensures
            r == is_canary_kind(self@.kind),
    {
        match &self.kind {
            VersionKind::Canary => true,
            VersionKind::Alias(a) => {
                let c = "canary";
                proof {
                    reveal_strlit("canary");
                    assert(c@ =~= canary_bucket());
                }
                str_eq(a.as_str(), c)
            },
            _ => false,
        }
    }
}

pub open spec fn digit_char(d: nat) -> char {
    seq!['0', '1', '2', '3', '4', '5', '6', '7', '8', '9'][d as int]
}

/// The decimal form of a number.
pub open spec fn decimal(n: nat) -> Seq<char>
    decreases n,
{
    if n < 10 {
        seq![digit_char(n)]
    } else {
        decimal(n / 10).push(digit_char(n % 10))
    }
}

/// The bucket of the highest version across all majors.
pub open spec fn latest_bucket() -> Seq<char> {
    seq!['*']
}

/// The bucket of canary versions.
pub open spec fn canary_bucket() -> Seq<char> {
    seq!['c', 'a', 'n', 'a', 'r', 'y']
}

pub open spec fn is_canary_kind(k: VersionKindView) -> bool {
    match k {
        VersionKindView::Canary => true,
        VersionKindView::Alias(a) => a == canary_bucket(),
        _ => false,
    }
}

/// The buckets a version belongs to: canary versions only to the canary
/// bucket, aliases to none, and concrete versions to the latest, major and
/// `major.minor` buckets.
pub open spec fn bucket_keys(k: VersionKindView) -> Seq<Seq<char>> {
    if is_canary_kind(k) {
        seq![canary_bucket()]
    } else {
        match k {
            VersionKindView::Version { major, minor } => seq![
                latest_bucket(),
                decimal(major as nat),
                decimal(major as nat) + seq!['.'] + decimal(minor as nat),
            ],
            _ => seq![],
        }
    }
}

pub open spec fn belongs(v: VersionKeyView, bucket: Seq<char>) -> bool {
    bucket_keys(v.kind).contains(bucket)
}

/// The bucket after offering it a version: it takes the version when it is
/// empty or the version is higher than its occupant.
pub open spec fn keep_higher(
    m: Map<Seq<char>, VersionKeyView>,
    bucket: Seq<char>,
    v: VersionKeyView,
) -> Map<Seq<char>, VersionKeyView> {
    if m.dom().contains(bucket) && !(v.order > m[bucket].order) {
        m
    } else {
        m.insert(bucket, v)
    }
}

pub open spec fn offer_to(
    m: Map<Seq<char>, VersionKeyView>,
    keys: Seq<Seq<char>>,
    v: VersionKeyView,
) -> Map<Seq<char>, VersionKeyView>
    decreases keys.len(),
{
    if keys.len() == 0 {
        m
    } else {
        keep_higher(offer_to(m, keys.drop_last(), v), keys.last(), v)
    }
}

/// The buckets after registering a version; aliases are ignored.
pub open spec fn add_to_buckets(m: Map<Seq<char>, VersionKeyView>, v: VersionKeyView) -> Map<
    Seq<char>,
    VersionKeyView,
> {
    if v.kind is Alias {
        m
    } else {
        offer_to(m, bucket_keys(v.kind), v)
    }
}

/// The buckets computed from scratch out of the versions, in order.
pub open spec fn buckets_of(versions: Seq<VersionKeyView>) -> Map<Seq<char>, VersionKeyView>
    decreases versions.len(),
{
    if versions.len() == 0 {
        Map::empty()
    } else {
        add_to_buckets(buckets_of(versions.drop_last()), versions.last())
    }
}

/// The versions without any that equals `v`.
pub open spec fn without(versions: Seq<VersionKeyView>, v: VersionKeyView) -> Seq<VersionKeyView>
    decreases versions.len(),
{
    if versions.len() == 0 {
        seq![]
    } else if versions.last() == v {
        without(versions.drop_last(), v)
    } else {
        without(versions.drop_last(), v).push(versions.last())
    }
}

/// Every bucket resolves to the highest known version that belongs to it,
/// and every bucket of a known version exists.
pub open spec fn resolves_highest(
    buckets: Map<Seq<char>, VersionKeyView>,
    versions: Set<VersionKeyView>,
) -> bool {
    &&& forall|b: Seq<char>| #[trigger]
        buckets.dom().contains(b) ==> versions.contains(buckets[b]) && belongs(buckets[b], b)
    &&& forall|b: Seq<char>, w: VersionKeyView|
        buckets.dom().contains(b) && versions.contains(w) && #[trigger] belongs(w, b) ==> w.order
            <= buckets[b].order
    &&& forall|b: Seq<char>, w: VersionKeyView|
        versions.contains(w) && #[trigger] belongs(w, b) ==> buckets.dom().contains(b)
}

pub proof fn lemma_offer_to(
    m: Map<Seq<char>, VersionKeyView>,
    keys: Seq<Seq<char>>,
    v: VersionKeyView,
    b: Seq<char>,
)
    ensures
        offer_to(m, keys, v).dom().contains(b) == (m.dom().contains(b) || keys.contains(b)),
        offer_to(m, keys, v).dom().contains(b) ==> offer_to(m, keys, v)[b] == if keys.contains(b) {
            if m.dom().contains(b) && !(v.order > m[b].order) {
                m[b]
            } else {
                v
            }
        } else {
            m[b]
        },
    decreases keys.len(),
{
    if keys.len() > 0 {
        let init = keys.drop_last();
        lemma_offer_to(m, init, v, b);
        assert(keys.contains(b) == (init.contains(b) || keys.last() == b)) by {
            if keys.contains(b) {
                let i = choose|i: int| 0 <= i < keys.len() && keys[i] == b;
                if i < keys.len() - 1 {
                    assert(init[i] == b);
                }
            }
            if init.contains(b) {
                let i = choose|i: int| 0 <= i < init.len() && init[i] == b;
                assert(keys[i] == b);
            }
            if keys.last() == b {
                assert(keys[keys.len() - 1] == b);
            }
        }
    }
}

/// Registering a version keeps every bucket resolving to its highest
/// version.
pub proof fn lemma_add_keeps_highest(
    m: Map<Seq<char>, VersionKeyView>,
    versions: Set<VersionKeyView>,
    v: VersionKeyView,
)
    requires
        resolves_highest(m, versions),
        !(v.kind is Alias),
    ensures
        resolves_highest(add_to_buckets(m, v), versions.insert(v)),
{
    let n = add_to_buckets(m, v);
    let s = versions.insert(v);
    assert forall|b: Seq<char>| #[trigger] n.dom().contains(b) implies s.contains(n[b]) && belongs(
        n[b],
        b,
    ) by {
        lemma_offer_to(m, bucket_keys(v.kind), v, b);
    }
    assert forall|b: Seq<char>, w: VersionKeyView|
        n.dom().contains(b) && s.contains(w) && #[trigger] belongs(w, b) implies w.order
        <= n[b].order by {
        lemma_offer_to(m, bucket_keys(v.kind), v, b);
    }
    assert forall|b: Seq<char>, w: VersionKeyView|
        s.contains(w) && #[trigger] belongs(w, b) implies n.dom().contains(b) by {
        lemma_offer_to(m, bucket_keys(v.kind), v, b);
    }
}

/// Buckets computed from scratch resolve to the highest version of each.
pub proof fn lemma_buckets_of_resolve_highest(versions: Seq<VersionKeyView>)
    requires
        forall|i: int| 0 <= i < versions.len() ==> !(#[trigger] versions[i].kind is Alias),
    ensures
        resolves_highest(buckets_of(versions), versions.to_set()),
    decreases versions.len(),
{
    if versions.len() == 0 {
        assert(versions.to_set() =~= Set::empty());
    } else {
        let init = versions.drop_last();
        assert forall|i: int| 0 <= i < init.len() implies !(#[trigger] init[i].kind is Alias) by {
            assert(init[i] == versions[i]);
        }
        lemma_buckets_of_resolve_highest(init);
        assert(!(versions[versions.len() - 1].kind is Alias));
        lemma_add_keeps_highest(buckets_of(init), init.to_set(), versions.last());
        assert(versions.to_set() =~= init.to_set().insert(versions.last())) by {
            assert forall|x: VersionKeyView| versions.to_set().contains(x) implies init.to_set().insert(
                versions.last(),
            ).contains(x) by {
                let i = choose|i: int| 0 <= i < versions.len() && versions[i] == x;
                if i < versions.len() - 1 {
                    assert(init[i] == x);
                }
            }
            assert forall|x: VersionKeyView| init.to_set().insert(versions.last()).contains(
                x,
            ) implies versions.to_set().contains(x) by {
                if x != versions.last() {
                    let i = choose|i: int| 0 <= i < init.len() && init[i] == x;
                    assert(versions[i] == x);
                } else {
                    assert(versions[versions.len() - 1] == x);
                }
            }
        }
    }
}

pub(crate) fn digit_of(d: u32) -> (c: char)
    requires
        d < 10,
    ensures
        c == digit_char(d as nat),
{
    match d {
        0 => '0',
        1 => '1',
        2 => '2',
        3 => '3',
        4 => '4',
        5 => '5',
        6 => '6',
        7 => '7',
        8 => '8',
        _ => '9',
    }
}

/// Append the decimal form of `n`.
fn push_decimal(s: &mut String, n: u32)
    ensures
        final(s)@ == old(s)@ + decimal(n as nat),
    decreases n,
{
    if n >= 10 {
        push_decimal(s, n / 10);
    }
    push_char(s, digit_of(n % 10));
    proof {
        if n < 10 {
            assert(n % 10 == n);
        }
        assert(old(s)@ + decimal(n as nat) =~= if n >= 10 {
            (old(s)@ + decimal((n / 10) as nat)).push(digit_char((n % 10) as nat))
        } else {
            old(s)@.push(digit_char((n % 10) as nat))
        });
    }
}

/// The decimal form of a number.
pub fn decimal_string(n: u32) -> (r: String)
    ensures
        r@ == decimal(n as nat),
{
    let mut s = String::new();
    push_decimal(&mut s, n);
    assert(s@ =~= decimal(n as nat));
    s
}

pub open spec fn buckets_view(v: Seq<(String, VersionKey)>) -> Seq<(Seq<char>, VersionKeyView)> {
    v.map_values(|e: (String, VersionKey)| (e.0@, e.1@))
}

pub open spec fn versions_view(v: Seq<VersionKey>) -> Seq<VersionKeyView> {
    v.map_values(|k: VersionKey| k@)
}

/// The abstract form of a bin manager: each bucket with the version it
/// resolves to, and the known versions in the order they were registered.
pub struct BinManagerView {
    pub buckets: Map<Seq<char>, VersionKeyView>,
    pub versions: Seq<VersionKeyView>,
}

/// The manager after registering a version: aliases are ignored; any other
/// version is offered to its buckets and remembered once.
pub open spec fn add_spec(m: BinManagerView, v: VersionKeyView) -> BinManagerView {
    if v.kind is Alias {
        m
    } else {
        BinManagerView {
            buckets: add_to_buckets(m.buckets, v),
            versions: if m.versions.contains(v) {
                m.versions
            } else {
                m.versions.push(v)
            },
        }
    }
}

/// The manager after registering each version in turn.
pub open spec fn add_all(m: BinManagerView, versions: Seq<VersionKeyView>) -> BinManagerView
    decreases versions.len(),
{
    if versions.len() == 0 {
        m
    } else {
        add_spec(add_all(m, versions.drop_last()), versions.last())
    }
}

/// The manager after removing a version: it is forgotten, and when it
/// occupied a bucket, the buckets are computed anew from what remains.
pub open spec fn remove_spec(m: BinManagerView, v: VersionKeyView) -> (BinManagerView, bool) {
    let occupied = exists|i: int|
        0 <= i < bucket_keys(v.kind).len() && m.buckets.dom().contains(
            #[trigger] bucket_keys(v.kind)[i],
        ) && m.buckets[bucket_keys(v.kind)[i]] == v;
    let rest = without(m.versions, v);
    (
        BinManagerView {
            buckets: if occupied {
                buckets_of(rest)
            } else {
                m.buckets
            },
            versions: rest,
        },
        occupied,
    )
}

/// The versioned binaries of one tool: each installed version is sorted
/// into buckets keyed by a partial version (`*`, `<major>`,
/// `<major>.<minor>` or `canary`), and every bucket resolves to the highest
/// installed version that satisfies it.
pub struct BinManager {
    buckets: Vec<(String, VersionKey)>,
    versions: Vec<VersionKey>,
}

impl View for BinManager {
    type V = BinManagerView;

    closed spec fn view(&self) -> BinManagerView {
        BinManagerView {
            buckets: assoc_map(buckets_view(self.buckets@)),
            versions: versions_view(self.versions@),
        }
    }
}

impl BinManager {
    /// Bucket names occur once, versions occur once and are no aliases, and
    /// every bucket resolves to its highest version.
    pub closed spec fn wf(&self) -> bool {
        &&& self.shape()
        &&& resolves_highest(self@.buckets, self@.versions.to_set())
    }

    closed spec fn shape(&self) -> bool {
        &&& keys_distinct(buckets_view(self.buckets@))
        &&& forall|i: int, j: int|
            0 <= i < self.versions@.len() && 0 <= j < self.versions@.len() && i != j
                ==> #[trigger] self.versions@[i]@ != #[trigger] self.versions@[j]@
        &&& forall|i: int|
            0 <= i < self.versions@.len() ==> !(#[trigger] self.versions@[i]@.kind is Alias)
    }

    /// The buckets as held, with distinct names.
    pub closed spec fn bucket_entries(&self) -> Seq<(Seq<char>, VersionKeyView)> {
        buckets_view(self.buckets@)
    }

    /// A manager with no versions.
    pub fn new() -> (r: BinManager)
        ensures
            r.wf(),
            r@.buckets == Map::<Seq<char>, VersionKeyView>::empty(),
            r@.versions == Seq::<VersionKeyView>::empty(),
    {
        let r = BinManager { buckets: Vec::new(), versions: Vec::new() };
        assert(buckets_view(r.buckets@) =~= Seq::<(Seq<char>, VersionKeyView)>::empty());
        assert(versions_view(r.versions@) =~= Seq::<VersionKeyView>::empty());
        assert(r@.versions.to_set() =~= Set::empty());
        r
    }

    /// The buckets that a version belongs to.
    pub fn get_keys(spec: &VersionKey) -> (r: Vec<String>)
        ensures
            strings_view(r@) == bucket_keys(spec@.kind),
    {
        let mut keys: Vec<String> = Vec::new();
        if spec.is_canary() {
            let c = "canary";
            proof {
                reveal_strlit("canary");
                assert(c@ =~= canary_bucket());
            }
            keys.push(c.to_owned());
            assert(strings_view(keys@) =~= seq![canary_bucket()]);
        } else {
            match &spec.kind {
                VersionKind::Version { major, minor } => {
                    let l = "*";
                    proof {
                        reveal_strlit("*");
                        assert(l@ =~= latest_bucket());
                    }
                    keys.push(l.to_owned());
                    keys.push(decimal_string(*major));
                    let mut mm = decimal_string(*major);
                    push_char(&mut mm, '.');
                    let mi = decimal_string(*minor);
                    let mut i: usize = 0;
                    let ghost base = mm@;
                    let chars = crate::text::chars_of(mi.as_str());
                    while i < chars.len()
                        invariant
                            i <= chars@.len(),
                            chars@ == mi@,
                            mm@ == base + chars@.subrange(0, i as int),
                        decreases chars@.len() - i,
                    {
                        push_char(&mut mm, chars[i]);
                        i = i + 1;
                        assert(mm@ =~= base + chars@.subrange(0, i as int));
                    }
                    assert(chars@.subrange(0, chars@.len() as int) =~= chars@);
                    assert(base =~= decimal(*major as nat) + seq!['.']);
                    assert(mm@ =~= decimal(*major as nat) + seq!['.'] + decimal(*minor as nat));
                    keys.push(mm);
                    assert(keys@.len() == 3);
                    assert(strings_view(keys@) =~= seq![
                        latest_bucket(),
                        decimal(*major as nat),
                        decimal(*major as nat) + seq!['.'] + decimal(*minor as nat),
                    ]);
                },
                _ => {
                    assert(strings_view(keys@) =~= Seq::<Seq<char>>::empty());
                },
            }
        }
        keys
    }
}



/// The position of the bucket named `key`.
fn find_bucket(buckets: &Vec<(String, VersionKey)>, key: &str) -> (r: Option<usize>)
    ensures
        match r {
            Some(i) => i < buckets@.len() && buckets@[i as int].0@ == key@,
            None => !assoc_map(buckets_view(buckets@)).dom().contains(key@),
        },
{
    let ghost e = buckets_view(buckets@);
    let mut i: usize = 0;
    while i < buckets.len()
        invariant
            i <= buckets@.len(),
            e == buckets_view(buckets@),
            forall|j: int| 0 <= j < i ==> e[j].0 != key@,
        decreases buckets@.len() - i,
    {
        if str_eq(buckets[i].0.as_str(), key) {
            return Some(i);
        }
        i = i + 1;
    }
    proof {
        lemma_assoc_dom(e, key@);
    }
    None
}

/// Offer a version to the bucket named `key`.
fn offer_one(buckets: &mut Vec<(String, VersionKey)>, key: String, v: &VersionKey)
    requires
        keys_distinct(buckets_view(old(buckets)@)),
    ensures
        keys_distinct(buckets_view(final(buckets)@)),
        assoc_map(buckets_view(final(buckets)@)) == keep_higher(
            assoc_map(buckets_view(old(buckets)@)),
            key@,
            v@,
        ),
{
    let ghost old_e = buckets_view(buckets@);
    match find_bucket(buckets, key.as_str()) {
        Some(i) => {
            proof {
                lemma_assoc_index(old_e, i as int);
            }
            if v.order > buckets[i].1.order {
                proof {
                    lemma_assoc_update(old_e, i as int, v@);
                }
                buckets.set(i, (key, v.copy()));
                assert(buckets_view(buckets@) =~= old_e.update(i as int, (old_e[i as int].0, v@)));
            }
        },
        None => {
            proof {
                lemma_assoc_push(old_e, key@, v@);
            }
            let ghost k = key@;
            buckets.push((key, v.copy()));
            assert(buckets_view(buckets@) =~= old_e.push((k, v@)));
        },
    }
}

/// Offer a version to each of its buckets; aliases are ignored.
fn offer_all(buckets: &mut Vec<(String, VersionKey)>, v: &VersionKey)
    requires
        keys_distinct(buckets_view(old(buckets)@)),
    ensures
        keys_distinct(buckets_view(final(buckets)@)),
        assoc_map(buckets_view(final(buckets)@)) == add_to_buckets(
            assoc_map(buckets_view(old(buckets)@)),
            v@,
        ),
{
    if let VersionKind::Alias(_) = &v.kind {
        return ;
    }
    let keys = BinManager::get_keys(v);
    let ghost start = assoc_map(buckets_view(buckets@));
    let ghost ks = strings_view(keys@);
    let mut i: usize = 0;
    while i < keys.len()
        invariant
            i <= keys@.len(),
            ks == strings_view(keys@),
            ks == bucket_keys(v@.kind),
            keys_distinct(buckets_view(buckets@)),
            assoc_map(buckets_view(buckets@)) == offer_to(start, ks.subrange(0, i as int), v@),
        decreases keys@.len() - i,
    {
        let k = keys[i].as_str().to_owned();
        offer_one(buckets, k, v);
        proof {
            assert(ks.subrange(0, i + 1).drop_last() =~= ks.subrange(0, i as int));
            assert(ks.subrange(0, i + 1).last() == ks[i as int]);
        }
        i = i + 1;
    }
    assert(ks.subrange(0, ks.len() as int) =~= ks);
}

pub proof fn lemma_push_to_set<A>(s: Seq<A>, x: A)
    ensures
        s.push(x).to_set() == s.to_set().insert(x),
{
    assert forall|y: A| s.push(x).to_set().contains(y) implies s.to_set().insert(x).contains(y) by {
        let i = choose|i: int| 0 <= i < s.push(x).len() && s.push(x)[i] == y;
        if i < s.len() {
            assert(s[i] == y);
        }
    }
    assert forall|y: A| s.to_set().insert(x).contains(y) implies s.push(x).to_set().contains(y) by {
        if y == x {
            assert(s.push(x)[s.len() as int] == y);
        } else {
            let i = choose|i: int| 0 <= i < s.len() && s[i] == y;
            assert(s.push(x)[i] == y);
        }
    }
    assert(s.push(x).to_set() =~= s.to_set().insert(x));
}

proof fn lemma_without(s: Seq<VersionKeyView>, v: VersionKeyView)
    ensures
        without(s, v).to_set() == s.to_set().remove(v),
        forall|i: int| 0 <= i < without(s, v).len() ==> s.contains(#[trigger] without(s, v)[i]),
        (forall|i: int, j: int|
            0 <= i < s.len() && 0 <= j < s.len() && i != j ==> #[trigger] s[i] != #[trigger] s[j])
            ==> (forall|i: int, j: int|
            0 <= i < without(s, v).len() && 0 <= j < without(s, v).len() && i != j
                ==> #[trigger] without(s, v)[i] != #[trigger] without(s, v)[j]),
    decreases s.len(),
{
    if s.len() == 0 {
        assert(without(s, v).to_set() =~= s.to_set().remove(v));
    } else {
        let init = s.drop_last();
        lemma_without(init, v);
        let w = without(init, v);
        assert forall|i: int| 0 <= i < w.len() implies s.contains(#[trigger] w[i]) by {
            let k = choose|k: int| 0 <= k < init.len() && init[k] == w[i];
            assert(s[k] == w[i]);
        }
        assert(s.to_set() =~= init.to_set().insert(s.last())) by {
            lemma_push_to_set(init, s.last());
            assert(init.push(s.last()) =~= s);
        }
        if s.last() == v {
            assert(without(s, v).to_set() =~= s.to_set().remove(v));
        } else {
            lemma_push_to_set(w, s.last());
            assert(without(s, v).to_set() =~= s.to_set().remove(v));
            assert forall|i: int| 0 <= i < w.push(s.last()).len() implies s.contains(
                #[trigger] w.push(s.last())[i],
            ) by {
                if i < w.len() {
                    assert(w.push(s.last())[i] == w[i]);
                } else {
                    assert(s[s.len() - 1] == s.last());
                }
            }
            if forall|i: int, j: int|
                0 <= i < s.len() && 0 <= j < s.len() && i != j ==> #[trigger] s[i] != #[trigger] s[j] {
                assert forall|i: int, j: int|
                    0 <= i < init.len() && 0 <= j < init.len() && i != j implies #[trigger] init[i]
                    != #[trigger] init[j] by {
                    assert(init[i] == s[i] && init[j] == s[j]);
                }
                let ws = w.push(s.last());
                assert forall|i: int, j: int|
                    0 <= i < ws.len() && 0 <= j < ws.len() && i != j implies #[trigger] ws[i]
                    != #[trigger] ws[j] by {
                    if i < w.len() && j < w.len() {
                        assert(ws[i] == w[i] && ws[j] == w[j]);
                    } else if i < w.len() {
                        let k = choose|k: int| 0 <= k < init.len() && init[k] == w[i];
                        assert(s[k] == ws[i]);
                        assert(s[s.len() - 1] == ws[j]);
                    } else if j < w.len() {
                        let k = choose|k: int| 0 <= k < init.len() && init[k] == w[j];
                        assert(s[k] == ws[j]);
                        assert(s[s.len() - 1] == ws[i]);
                    }
                }
            }
        }
    }
}

pub proof fn lemma_offer_to_idempotent(
    m: Map<Seq<char>, VersionKeyView>,
    keys: Seq<Seq<char>>,
    v: VersionKeyView,
)
    ensures
        offer_to(offer_to(m, keys, v), keys, v) == offer_to(m, keys, v),
{
    let once = offer_to(m, keys, v);
    assert forall|b: Seq<char>| #[trigger] offer_to(once, keys, v).dom().contains(b) == once.dom().contains(b)
        && (once.dom().contains(b) ==> offer_to(once, keys, v)[b] == once[b]) by {
        lemma_offer_to(m, keys, v, b);
        lemma_offer_to(once, keys, v, b);
    }
    assert(offer_to(once, keys, v) =~= once);
}

/// Registering the same version twice leaves the manager as registering it
/// once does.
pub proof fn lemma_add_version_idempotent(m: BinManagerView, v: VersionKeyView)
    ensures
        add_spec(add_spec(m, v), v) == add_spec(m, v),
{
    if !(v.kind is Alias) {
        lemma_offer_to_idempotent(m.buckets, bucket_keys(v.kind), v);
        if !m.versions.contains(v) {
            assert(m.versions.push(v)[m.versions.len() as int] == v);
        }
    }
}

impl BinManager {
    /// Every bucket resolves to the highest registered version that belongs
    /// to it, and every bucket of a registered version exists.
    pub proof fn lemma_buckets_resolve_highest(&self)
        requires
            self.wf(),
        ensures
            resolves_highest(self@.buckets, self@.versions.to_set()),
            forall|i: int| 0 <= i < self@.versions.len() ==> !(#[trigger] self@.versions[i].kind is Alias),
    {
        assert forall|i: int| 0 <= i < self@.versions.len() implies !(#[trigger] self@.versions[i].kind is Alias) by {
            assert(self@.versions[i] == self.versions@[i]@);
        }
    }

    /// Whether the version is registered.
    fn knows(&self, spec: &VersionKey) -> (r: bool)
        ensures
            r == self@.versions.contains(spec@),
    {
        let ghost vs = versions_view(self.versions@);
        let mut i: usize = 0;
        while i < self.versions.len()
            invariant
                i <= self.versions@.len(),
                vs == versions_view(self.versions@),
                forall|j: int| 0 <= j < i ==> vs[j] != spec@,
            decreases self.versions@.len() - i,
        {
            if self.versions[i].equals(spec) {
                assert(vs[i as int] == spec@);
                return true;
            }
            i = i + 1;
        }
        false
    }

    /// Register a version, pointing each bucket it belongs to at it when it
    /// is higher than the bucket's occupant. Aliases are ignored, as they
    /// point to other versions rather than being installs.
    pub fn add_version(&mut self, spec: &VersionKey)
        requires
            old(self).wf(),
        ensures
            final(self).wf(),
            final(self)@ == add_spec(old(self)@, spec@),
    {
        if let VersionKind::Alias(_) = &spec.kind {
            return ;
        }
        let ghost old_view = self@;
        offer_all(&mut self.buckets, spec);
        let known = self.knows(spec);
        if !known {
            let ghost vs = self.versions@;
            self.versions.push(spec.copy());
            proof {
                assert(versions_view(self.versions@) =~= versions_view(vs).push(spec@));
                assert forall|i: int, j: int|
                    0 <= i < self.versions@.len() && 0 <= j < self.versions@.len() && i != j implies #[trigger] self.versions@[i]@
                    != #[trigger] self.versions@[j]@ by {
                    if i < vs.len() && j < vs.len() {
                    } else if i < vs.len() {
                        assert(versions_view(vs)[i] == self.versions@[i]@);
                    } else {
                        assert(versions_view(vs)[j] == self.versions@[j]@);
                    }
                }
                lemma_push_to_set(old_view.versions, spec@);
            }
        } else {
            assert(old_view.versions.to_set().insert(spec@) =~= old_view.versions.to_set());
        }
        proof {
            lemma_add_keeps_highest(old_view.buckets, old_view.versions.to_set(), spec@);
        }
    }

    /// Compute every bucket anew from the registered versions.
    pub fn rebuild_buckets(&mut self)
        requires
            old(self).wf(),
        ensures
            final(self).wf(),
            final(self)@.versions == old(self)@.versions,
            final(self)@.buckets == buckets_of(old(self)@.versions),
    {
        self.rebuild();
    }

    fn rebuild(&mut self)
        requires
            old(self).shape(),
        ensures
            final(self).wf(),
            final(self)@.versions == old(self)@.versions,
            final(self)@.buckets == buckets_of(old(self)@.versions),
    {
        self.buckets = Vec::new();
        assert(buckets_view(self.buckets@) =~= Seq::<(Seq<char>, VersionKeyView)>::empty());
        let ghost vs = versions_view(self.versions@);
        let mut i: usize = 0;
        while i < self.versions.len()
            invariant
                self.shape(),
                i <= self.versions@.len(),
                vs == versions_view(self.versions@),
                self@.versions == vs,
                assoc_map(buckets_view(self.buckets@)) == buckets_of(vs.subrange(0, i as int)),
            decreases self.versions@.len() - i,
        {
            offer_all(&mut self.buckets, &self.versions[i]);
            proof {
                assert(vs.subrange(0, i + 1).drop_last() =~= vs.subrange(0, i as int));
                assert(vs.subrange(0, i + 1).last() == vs[i as int]);
            }
            i = i + 1;
        }
        proof {
            assert(vs.subrange(0, vs.len() as int) =~= vs);
            assert forall|i: int| 0 <= i < vs.len() implies !(#[trigger] vs[i].kind is Alias) by {
                assert(vs[i] == self.versions@[i]@);
            }
            lemma_buckets_of_resolve_highest(vs);
        }
    }

    /// Forget a version. Returns whether it occupied one or more buckets,
    /// in which case the buckets are computed anew, so that they resolve to
    /// the next highest versions.
    pub fn remove_version(&mut self, spec: &VersionKey) -> (r: bool)
        requires
            old(self).wf(),
        ensures
            final(self).wf(),
            (final(self)@, r) == remove_spec(old(self)@, spec@),
    {
        let ghost old_view = self@;
        let keys = BinManager::get_keys(spec);
        let ghost ks = strings_view(keys@);
        let ghost m = self@.buckets;
        let mut occupied = false;
        let mut i: usize = 0;
        while i < keys.len()
            invariant
                self@ == old_view,
                self.wf(),
                m == self@.buckets,
                i <= keys@.len(),
                ks == strings_view(keys@),
                ks == bucket_keys(spec@.kind),
                occupied == exists|j: int|
                    0 <= j < i && m.dom().contains(#[trigger] ks[j]) && m[ks[j]] == spec@,
            decreases keys@.len() - i,
        {
            match find_bucket(&self.buckets, keys[i].as_str()) {
                Some(p) => {
                    proof {
                        lemma_assoc_index(buckets_view(self.buckets@), p as int);
                    }
                    if self.buckets[p].1.equals(spec) {
                        occupied = true;
                        assert(m.dom().contains(ks[i as int]) && m[ks[i as int]] == spec@);
                    }
                },
                None => {},
            }
            i = i + 1;
        }
        let mut rest: Vec<VersionKey> = Vec::new();
        let ghost vs = versions_view(self.versions@);
        let mut j: usize = 0;
        while j < self.versions.len()
            invariant
                j <= self.versions@.len(),
                vs == versions_view(self.versions@),
                versions_view(rest@) == without(vs.subrange(0, j as int), spec@),
            decreases self.versions@.len() - j,
        {
            if !self.versions[j].equals(spec) {
                rest.push(self.versions[j].copy());
            }
            proof {
                assert(vs.subrange(0, j + 1).drop_last() =~= vs.subrange(0, j as int));
                assert(vs.subrange(0, j + 1).last() == vs[j as int]);
                assert(versions_view(rest@) =~= without(vs.subrange(0, j + 1), spec@));
            }
            j = j + 1;
        }
        assert(vs.subrange(0, vs.len() as int) =~= vs);
        self.versions = rest;
        proof {
            lemma_without(vs, spec@);
            let w = without(vs, spec@);
            assert forall|a: int| 0 <= a < self.versions@.len() implies !(
            #[trigger] self.versions@[a]@.kind is Alias) by {
                assert(w[a] == self.versions@[a]@);
                let k = choose|k: int| 0 <= k < vs.len() && vs[k] == w[a];
                assert(vs[k] == old_view.versions[k]);
                assert(!(old_view.versions[k].kind is Alias)) by {
                    assert(old_view.versions[k] == versions_view(self.versions@)[a]);
                }
            }
            assert forall|a: int, b: int|
                0 <= a < self.versions@.len() && 0 <= b < self.versions@.len() && a != b implies #[trigger] self.versions@[a]@
                != #[trigger] self.versions@[b]@ by {
                assert(w[a] == self.versions@[a]@ && w[b] == self.versions@[b]@);
            }
        }
        if occupied {
            self.rebuild();
        } else {
            proof {
                let sv = vs.to_set().remove(spec@);
                assert forall|b: Seq<char>| #[trigger] m.dom().contains(b) implies sv.contains(m[b]) && belongs(m[b], b) by {
                    if m[b] == spec@ {
                        let k = choose|k: int| 0 <= k < ks.len() && ks[k] == b;
                        assert(m.dom().contains(ks[k]) && m[ks[k]] == spec@);
                    }
                }
            }
        }
        occupied
    }

    /// Every bucket with the version it resolves to; names occur once.
    pub fn get_buckets(&self) -> (r: &Vec<(String, VersionKey)>)
        requires
            self.wf(),
        ensures
            keys_distinct(buckets_view(r@)),
            assoc_map(buckets_view(r@)) == self@.buckets,
    {
        &self.buckets
    }

    /// Only the buckets that the version belongs to, with the versions they
    /// resolve to.
    pub fn get_buckets_focused_to_version(&self, spec: &VersionKey) -> (r: Vec<(String, VersionKey)>)
        requires
            self.wf(),
        ensures
            keys_distinct(buckets_view(r@)),
            assoc_map(buckets_view(r@)) == self@.buckets.restrict(bucket_keys(spec@.kind).to_set()),
    {
        let keys = BinManager::get_keys(spec);
        let ghost ks = strings_view(keys@);
        let ghost e = buckets_view(self.buckets@);
        let mut r: Vec<(String, VersionKey)> = Vec::new();
        let mut i: usize = 0;
        while i < self.buckets.len()
            invariant
                self.wf(),
                i <= self.buckets@.len(),
                e == buckets_view(self.buckets@),
                ks == strings_view(keys@),
                ks == bucket_keys(spec@.kind),
                keys_distinct(buckets_view(r@)),
                forall|a: int|
                    0 <= a < r@.len() ==> exists|b: int|
                        0 <= b < i && #[trigger] buckets_view(r@)[a].0 == e[b].0,
                assoc_map(buckets_view(r@)) == assoc_map(e.subrange(0, i as int)).restrict(ks.to_set()),
            decreases self.buckets@.len() - i,
        {
            let mut wanted = false;
            let mut k: usize = 0;
            while k < keys.len()
                invariant
                    k <= keys@.len(),
                    i < self.buckets@.len(),
                    e == buckets_view(self.buckets@),
                    ks == strings_view(keys@),
                    wanted == exists|x: int| 0 <= x < k && #[trigger] ks[x] == e[i as int].0,
                decreases keys@.len() - k,
            {
                let same = str_eq(keys[k].as_str(), self.buckets[i].0.as_str());
                assert(ks[k as int] == keys@[k as int]@);
                assert(e[i as int].0 == self.buckets@[i as int].0@);
                if same {
                    wanted = true;
                }
                k = k + 1;
            }
            let ghost old_r = buckets_view(r@);
            let ghost pre = e.subrange(0, i as int);
            assert(e.subrange(0, i + 1) =~= pre.push(e[i as int]));
            assert(pre.push(e[i as int]).drop_last() =~= pre);
            assert(wanted == ks.to_set().contains(e[i as int].0));
            if wanted {
                let name = self.buckets[i].0.as_str().to_owned();
                let key = self.buckets[i].1.copy();
                r.push((name, key));
                proof {
                    assert(buckets_view(r@) =~= old_r.push(e[i as int]));
                    assert(old_r.push(e[i as int]).drop_last() =~= old_r);
                    assert forall|a: int, b: int|
                        0 <= a < buckets_view(r@).len() && 0 <= b < buckets_view(r@).len() && a != b implies #[trigger] buckets_view(r@)[a].0
                        != #[trigger] buckets_view(r@)[b].0 by {
                        if a < old_r.len() && b < old_r.len() {
                            assert(buckets_view(r@)[a] == old_r[a] && buckets_view(r@)[b] == old_r[b]);
                        } else if a < old_r.len() {
                            assert(buckets_view(r@)[a] == old_r[a]);
                            let c = choose|c: int| 0 <= c < i && #[trigger] old_r[a].0 == e[c].0;
                            assert(e[c].0 != e[i as int].0);
                        } else if b < old_r.len() {
                            assert(buckets_view(r@)[b] == old_r[b]);
                            let c = choose|c: int| 0 <= c < i && #[trigger] old_r[b].0 == e[c].0;
                            assert(e[c].0 != e[i as int].0);
                        }
                    }
                    assert forall|a: int| 0 <= a < r@.len() implies exists|b: int|
                        0 <= b < i + 1 && #[trigger] buckets_view(r@)[a].0 == e[b].0 by {
                        if a < old_r.len() {
                            assert(buckets_view(r@)[a] == old_r[a]);
                            let c = choose|c: int| 0 <= c < i && #[trigger] old_r[a].0 == e[c].0;
                            assert(buckets_view(r@)[a].0 == e[c].0);
                        } else {
                            assert(buckets_view(r@)[a].0 == e[i as int].0);
                        }
                    }
                    assert(ks.to_set().contains(e[i as int].0));
                    assert(assoc_map(pre.push(e[i as int])).restrict(ks.to_set()) =~= assoc_map(
                        pre,
                    ).restrict(ks.to_set()).insert(e[i as int].0, e[i as int].1));
                }
            } else {
                proof {
                    assert(!ks.to_set().contains(e[i as int].0));
                    assert(assoc_map(pre.push(e[i as int])).restrict(ks.to_set()) =~= assoc_map(
                        pre,
                    ).restrict(ks.to_set()));
                    assert forall|a: int| 0 <= a < r@.len() implies exists|b: int|
                        0 <= b < i + 1 && #[trigger] buckets_view(r@)[a].0 == e[b].0 by {
                        let c = choose|c: int| 0 <= c < i && #[trigger] buckets_view(r@)[a].0 == e[c].0;
                        assert(buckets_view(r@)[a].0 == e[c].0);
                    }
                }
            }
            i = i + 1;
        }
        assert(e.subrange(0, e.len() as int) =~= e);
        r
    }

    /// A manager seeded with every installed version, in order.
    pub fn from_manifest(installed_versions: &Vec<VersionKey>) -> (r: BinManager)
        ensures
            r.wf(),
            r@ == add_all(
                BinManagerView { buckets: Map::empty(), versions: Seq::empty() },
                versions_view(installed_versions@),
            ),
    {
        let mut manager = BinManager::new();
        let ghost all = versions_view(installed_versions@);
        let ghost start = manager@;
        let mut i: usize = 0;
        while i < installed_versions.len()
            invariant
                i <= installed_versions@.len(),
                all == versions_view(installed_versions@),
                start == (BinManagerView { buckets: Map::empty(), versions: Seq::empty() }),
                manager.wf(),
                manager@ == add_all(start, all.subrange(0, i as int)),
            decreases installed_versions@.len() - i,
        {
            manager.add_version(&installed_versions[i]);
            proof {
                assert(all.subrange(0, i + 1).drop_last() =~= all.subrange(0, i as int));
                assert(all.subrange(0, i + 1).last() == all[i as int]);
            }
            i = i + 1;
        }
        assert(all.subrange(0, all.len() as int) =~= all);
        manager
    }
}

} // verus!
