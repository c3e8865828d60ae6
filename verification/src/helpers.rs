use vstd::prelude::*;
use crate::text::{chars_of, str_eq, substring, trim, trim_spec};

verus! {

#[verifier::external_type_specification]
#[verifier::external_body]
pub struct ExSystemTime(std::time::SystemTime);

/// `SystemTime::now`: the clock's reading. Nothing is stated of it.
#[verifier::external_body]
fn clock_now() -> (r: std::time::SystemTime) {
    std::time::SystemTime::now()
}

/// `SystemTime::duration_since` the Unix epoch: `None` when the time is
/// before it. It depends on the clock's reading, so nothing is stated of
/// it.
#[verifier::external_body]
fn since_epoch(t: &std::time::SystemTime) -> (r: Option<core::time::Duration>) {
    t.duration_since(std::time::UNIX_EPOCH).ok()
}

/// `Duration::as_millis`: the whole milliseconds of a duration. Nothing is
/// stated of it, as a duration is opaque here.
#[verifier::external_body]
fn duration_millis(d: &core::time::Duration) -> (r: u128) {
    d.as_millis()
}

/// The milliseconds since the Unix epoch, given how long ago it was (`None`
/// when the clock is before it): 0 then.
pub fn millis_since_epoch(elapsed_ms: Option<u128>) -> (r: u128)
    ensures
        r == match elapsed_ms {
            Some(m) => m,
            None => 0,
        },
{
    match elapsed_ms {
        Some(m) => m,
        None => 0,
    }
}

/// The time in milliseconds since the Unix epoch, or 0 when the clock is
/// before it (see `millis_since_epoch`). It reads the clock, so nothing is
/// stated of the result.
pub fn now() -> u128 {
    let elapsed = match since_epoch(&clock_now()) {
        Some(d) => Some(duration_millis(&d)),
        None => None,
    };
    millis_since_epoch(elapsed)
}

/// A copy of the entries of a map, as a list of key and value pairs.
pub fn fast_map_clone<K: Clone, V: Clone>(items: &Vec<(K, V)>) -> (r: Vec<(K, V)>)
    ensures
        r@.len() == items@.len(),
        forall|i: int| 0 <= i < r@.len() ==> cloned(items@[i].0, #[trigger] r@[i].0) && cloned(items@[i].1, r@[i].1),
{
    let mut r: Vec<(K, V)> = Vec::new();
    let mut i: usize = 0;
    while i < items.len()
        invariant
            i <= items@.len(),
            r@.len() == i,
            forall|j: int| 0 <= j < i ==> cloned(items@[j].0, #[trigger] r@[j].0) && cloned(items@[j].1, r@[j].1),
        decreases items@.len() - i,
    {
        let k = items[i].0.clone();
        let v = items[i].1.clone();
        r.push((k, v));
        i = i + 1;
    }
    r
}

/// A copy of the items of a list.
pub fn fast_list_clone<V: Clone>(items: &Vec<V>) -> (r: Vec<V>)
    ensures
        r@.len() == items@.len(),
        forall|i: int| 0 <= i < r@.len() ==> cloned(items@[i], #[trigger] r@[i]),
{
    let mut r: Vec<V> = Vec::new();
    let mut i: usize = 0;
    while i < items.len()
        invariant
            i <= items@.len(),
            r@.len() == i,
            forall|j: int| 0 <= j < i ==> cloned(items@[j], #[trigger] r@[j]),
        decreases items@.len() - i,
    {
        r.push(items[i].clone());
        i = i + 1;
    }
    r
}

/// The file name of a binary on a build for the given system: the name
/// with `.exe` appended on Windows, the name itself elsewhere. The caller
/// says which system the build targets.
pub fn get_bin_name(name: &str, on_windows: bool) -> (r: String)
    ensures
        r@ == if on_windows { name@ + crate::locate::exe_suffix() } else { name@ },
{
    let mut r = name.to_owned();
    if on_windows {
        let ext = ".exe";
        proof {
            reveal_strlit(".exe");
            assert(ext@ =~= crate::locate::exe_suffix());
        }
        crate::text::push_str(&mut r, ext);
    }
    r
}

pub open spec fn text_zero() -> Seq<char> { seq!['0'] }
pub open spec fn text_one() -> Seq<char> { seq!['1'] }
pub open spec fn text_false() -> Seq<char> { seq!['f', 'a', 'l', 's', 'e'] }
pub open spec fn text_true() -> Seq<char> { seq!['t', 'r', 'u', 'e'] }
pub open spec fn text_no() -> Seq<char> { seq!['n', 'o'] }
pub open spec fn text_off() -> Seq<char> { seq!['o', 'f', 'f'] }
pub open spec fn text_four() -> Seq<char> { seq!['4'] }
pub open spec fn text_six() -> Seq<char> { seq!['6'] }

/// Whether caching is enabled by `PROTO_CACHE` (`None` when unset): any
/// value but `0`, `false`, `no` and `off` enables it.
pub fn is_cache_enabled(value: Option<&str>) -> (r: bool)
    ensures
        r == match value {
            None => true,
            Some(v) => v@ != text_zero() && v@ != text_false() && v@ != text_no() && v@ != text_off(),
        },
{
    proof {
        reveal_strlit("0");
        reveal_strlit("false");
        reveal_strlit("no");
        reveal_strlit("off");
        assert("0"@ =~= text_zero());
        assert("false"@ =~= text_false());
        assert("no"@ =~= text_no());
        assert("off"@ =~= text_off());
    }
    match value {
        None => true,
        Some(v) => !str_eq(v, "0") && !str_eq(v, "false") && !str_eq(v, "no") && !str_eq(v, "off"),
    }
}

/// What `PROTO_OFFLINE` (`None` when unset) says of being offline: `1` and
/// `true` say so, `0` and `false` say not; any other value leaves it to the
/// other checks.
pub fn offline_override(value: Option<&str>) -> (r: Option<bool>)
    ensures
        r == match value {
            None => None,
            Some(v) => if v@ == text_one() || v@ == text_true() {
                Some(true)
            } else if v@ == text_zero() || v@ == text_false() {
                Some(false)
            } else {
                None
            },
        },
{
    proof {
        reveal_strlit("0");
        reveal_strlit("1");
        reveal_strlit("false");
        reveal_strlit("true");
        assert("0"@ =~= text_zero());
        assert("1"@ =~= text_one());
        assert("false"@ =~= text_false());
        assert("true"@ =~= text_true());
    }
    match value {
        None => None,
        Some(v) => {
            if str_eq(v, "1") || str_eq(v, "true") {
                Some(true)
            } else if str_eq(v, "0") || str_eq(v, "false") {
                Some(false)
            } else {
                None
            }
        },
    }
}

/// Which networks the offline check probes, by `PROTO_OFFLINE_IP_VERSION`:
/// both when it is empty, else only version 4 or 6 as it names.
pub fn offline_ip_versions(ip_version: &str) -> (r: (bool, bool))
    ensures
        r.0 == (ip_version@.len() == 0 || ip_version@ == text_four()),
        r.1 == (ip_version@.len() == 0 || ip_version@ == text_six()),
{
    proof {
        reveal_strlit("4");
        reveal_strlit("6");
        assert("4"@ =~= text_four());
        assert("6"@ =~= text_six());
    }
    let empty = chars_of(ip_version).len() == 0;
    (empty || str_eq(ip_version, "4"), empty || str_eq(ip_version, "6"))
}

/// The pieces of a text between its separators (`a` or `b`), always at
/// least one.
pub open spec fn split_pieces(s: Seq<char>, a: char, b: char) -> Seq<Seq<char>>
    decreases s.len(),
{
    if s.len() == 0 {
        seq![seq![]]
    } else {
        let r = split_pieces(s.drop_last(), a, b);
        if s.last() == a || s.last() == b {
            r.push(seq![])
        } else {
            r.update(r.len() - 1, r.last().push(s.last()))
        }
    }
}

proof fn lemma_split_pieces_nonempty(s: Seq<char>, a: char, b: char)
    ensures
        split_pieces(s, a, b).len() >= 1,
    decreases s.len(),
{
    if s.len() > 0 {
        lemma_split_pieces_nonempty(s.drop_last(), a, b);
    }
}

pub open spec fn texts_view(v: Seq<String>) -> Seq<Seq<char>> {
    v.map_values(|h: String| h@)
}

/// Split a text at each of its separators (`a` or `b`).
pub fn split_on(value: &str, a: char, b: char) -> (r: Vec<String>)
    ensures
        texts_view(r@) == split_pieces(value@, a, b),
{
    let cs = chars_of(value);
    let n = cs.len();
    let mut pieces: Vec<String> = Vec::new();
    let mut start: usize = 0;
    let mut i: usize = 0;
    proof {
        lemma_split_pieces_nonempty(cs@.subrange(0, 0), a, b);
        assert(cs@.subrange(0, 0) =~= Seq::<char>::empty());
    }
    while i < n
        invariant
            n == cs@.len(),
            cs@ == value@,
            start <= i <= n,
            pieces@.len() + 1 == split_pieces(cs@.subrange(0, i as int), a, b).len(),
            forall|k: int| 0 <= k < pieces@.len() ==> #[trigger] pieces@[k]@ == split_pieces(cs@.subrange(0, i as int), a, b)[k],
            split_pieces(cs@.subrange(0, i as int), a, b).last() == cs@.subrange(start as int, i as int),
        decreases n - i,
    {
        let ghost pre = cs@.subrange(0, i as int);
        let ghost next = cs@.subrange(0, i + 1);
        proof {
            assert(next.drop_last() =~= pre);
            assert(next.last() == cs@[i as int]);
            lemma_split_pieces_nonempty(pre, a, b);
        }
        if cs[i] == a || cs[i] == b {
            let piece = substring(&cs, start, i);
            pieces.push(piece);
            start = i + 1;
            proof {
                assert(split_pieces(next, a, b) == split_pieces(pre, a, b).push(seq![]));
                assert(cs@.subrange(start as int, i + 1) =~= Seq::<char>::empty());
                assert forall|k: int| 0 <= k < pieces@.len() implies #[trigger] pieces@[k]@ == split_pieces(next, a, b)[k] by {
                    if k < pieces@.len() - 1 {
                        assert(split_pieces(next, a, b)[k] == split_pieces(pre, a, b)[k]);
                    } else {
                        assert(split_pieces(next, a, b)[k] == split_pieces(pre, a, b).last());
                    }
                }
            }
        } else {
            proof {
                let r = split_pieces(pre, a, b);
                assert(split_pieces(next, a, b) == r.update(r.len() - 1, r.last().push(cs@[i as int])));
                assert(cs@.subrange(start as int, i + 1) =~= cs@.subrange(start as int, i as int).push(cs@[i as int]));
                assert forall|k: int| 0 <= k < pieces@.len() implies #[trigger] pieces@[k]@ == split_pieces(next, a, b)[k] by {
                    assert(split_pieces(next, a, b)[k] == r[k]);
                }
            }
        }
        i = i + 1;
    }
    let ghost all = split_pieces(cs@.subrange(0, n as int), a, b);
    let last = substring(&cs, start, n);
    pieces.push(last);
    proof {
        assert(cs@.subrange(0, n as int) =~= cs@);
        assert(texts_view(pieces@) =~= split_pieces(value@, a, b)) by {
            assert forall|k: int| 0 <= k < pieces@.len() implies texts_view(pieces@)[k] == split_pieces(value@, a, b)[k] by {
                if k < pieces@.len() - 1 {
                } else {
                    assert(all.last() == all[all.len() - 1]);
                }
            }
        }
    }
    pieces
}

/// The hosts that `PROTO_OFFLINE_HOSTS` lists: its comma separated
/// entries, trimmed.
pub open spec fn offline_hosts_of(value: Seq<char>) -> Seq<Seq<char>> {
    trimmed_all(split_pieces(value, ',', ','))
}

/// Each text trimmed.
pub open spec fn trimmed_all(v: Seq<Seq<char>>) -> Seq<Seq<char>> {
    v.map_values(|p: Seq<char>| trim_spec(p))
}

/// The hosts that `PROTO_OFFLINE_HOSTS` lists.
pub fn offline_hosts(value: &str) -> (r: Vec<String>)
    ensures
        texts_view(r@) == offline_hosts_of(value@),
{
    let pieces = split_on(value, ',', ',');
    let ghost pv = texts_view(pieces@);
    let mut out: Vec<String> = Vec::new();
    let mut i: usize = 0;
    while i < pieces.len()
        invariant
            i <= pieces@.len(),
            pv == texts_view(pieces@),
            pv == split_pieces(value@, ',', ','),
            texts_view(out@) == trimmed_all(pv.subrange(0, i as int)),
        decreases pieces@.len() - i,
    {
        let ghost before = texts_view(out@);
        let t = trim(pieces[i].as_str());
        out.push(t);
        proof {
            assert(texts_view(out@) =~= before.push(t@));
            assert(t@ == trim_spec(pv[i as int]));
            assert(trimmed_all(pv.subrange(0, i + 1)) =~= trimmed_all(pv.subrange(0, i as int)).push(trim_spec(pv[i as int])));
        }
        i = i + 1;
    }
    assert(pv.subrange(0, pv.len() as int) =~= pv);
    out
}

/// The directories a plugin adds to `PATH`: its value split at `:` and at
/// `;` (a plugin cannot know which of the two the host uses).
pub fn plugin_path_entries(value: &str) -> (r: Vec<String>)
    ensures
        texts_view(r@) == split_pieces(value@, ':', ';'),
{
    split_on(value, ':', ';')
}

} // verus!
