use vstd::prelude::*;
use crate::locate::{text_less, text_lt};
use crate::text::{push_char, push_str, str_eq};

verus! {

/// A JSON value, as the trust check reads the security-sensitive part of a
/// config.
pub enum Json {
    Null,
    Bool(bool),
    /// A number, in its textual form.
    Number(String),
    Text(String),
    Array(Vec<Json>),
    Object(Vec<(String, Json)>),
}

/// The abstract form of a JSON value.
pub enum JsonView {
    Null,
    Bool(bool),
    Number(Seq<char>),
    Text(Seq<char>),
    Array(Seq<JsonView>),
    Object(Seq<(Seq<char>, JsonView)>),
}

/// The abstract form of a JSON value.
pub open spec fn json_view(j: Json) -> JsonView
    decreases j,
{
    match j {
        Json::Null => JsonView::Null,
        Json::Bool(b) => JsonView::Bool(b),
        Json::Number(n) => JsonView::Number(n@),
        Json::Text(t) => JsonView::Text(t@),
        Json::Array(items) => JsonView::Array(
            Seq::new(
                items.len() as nat,
                |i: int|
                    if 0 <= i < items.len() {
                        json_view(items[i])
                    } else {
                        JsonView::Null
                    },
            ),
        ),
        Json::Object(entries) => JsonView::Object(
            Seq::new(
                entries.len() as nat,
                |i: int|
                    if 0 <= i < entries.len() {
                        (entries[i].0@, json_view(entries[i].1))
                    } else {
                        (Seq::<char>::empty(), JsonView::Null)
                    },
            ),
        ),
    }
}

/// A value without its nulls and empty objects (settings that were not
/// configured), within objects at any depth: `None` when nothing remains.
pub open spec fn pruned(v: JsonView) -> Option<JsonView>
    decreases v, 1int,
{
    match v {
        JsonView::Null => None,
        JsonView::Object(entries) => {
            let kept = pruned_entries(entries);
            if kept.len() == 0 {
                None
            } else {
                Some(JsonView::Object(kept))
            }
        },
        _ => Some(v),
    }
}

/// The entries of an object that remain once pruned, in order.
pub open spec fn pruned_entries(entries: Seq<(Seq<char>, JsonView)>) -> Seq<(Seq<char>, JsonView)>
    decreases entries, 0int,
{
    if entries.len() == 0 {
        seq![]
    } else {
        let rest = pruned_entries(entries.drop_last());
        match pruned(entries.last().1) {
            Some(p) => rest.push((entries.last().0, p)),
            None => rest,
        }
    }
}

/// A copy of a value.
pub fn copy_json(j: &Json) -> (r: Json)
    ensures
        json_view(r) == json_view(*j),
    decreases j,
{
    match j {
        Json::Null => Json::Null,
        Json::Bool(b) => Json::Bool(*b),
        Json::Number(n) => Json::Number(n.clone()),
        Json::Text(t) => Json::Text(t.clone()),
        Json::Array(items) => {
            let mut out: Vec<Json> = Vec::new();
            let mut i: usize = 0;
            while i < items.len()
                invariant
                    *j == Json::Array(*items),
                    i <= items@.len(),
                    out@.len() == i,
                    forall|k: int| 0 <= k < i ==> #[trigger] json_view(out@[k]) == json_view(items@[k]),
                decreases items@.len() - i,
            {
                proof {
                    assert(*j == Json::Array(*items));
                    assert(decreases_to!(*j => (*j)->Array_0));
                    vstd::std_specs::vec::axiom_vec_index_decreases(*items, i as int);
                    assert(decreases_to!(*items => items[i as int]));
                }
                let c = copy_json(&items[i]);
                out.push(c);
                i = i + 1;
            }
            let ghost outv = out@;
            let r = Json::Array(out);
            proof {
                let va = json_view(r)->Array_0;
                let vb = json_view(*j)->Array_0;
                assert(va.len() == vb.len());
                assert forall|k: int| 0 <= k < va.len() implies va[k] == vb[k] by {
                    assert(va[k] == json_view(outv[k]));
                    assert(vb[k] == json_view(items@[k]));
                }
                assert(va =~= vb);
            }
            r
        },
        Json::Object(entries) => {
            let mut out: Vec<(String, Json)> = Vec::new();
            let mut i: usize = 0;
            while i < entries.len()
                invariant
                    *j == Json::Object(*entries),
                    i <= entries@.len(),
                    out@.len() == i,
                    forall|k: int| 0 <= k < i ==> #[trigger] out@[k].0@ == entries@[k].0@ && json_view(out@[k].1)
                        == json_view(entries@[k].1),
                decreases entries@.len() - i,
            {
                proof {
                    assert(*j == Json::Object(*entries));
                    assert(decreases_to!(*j => (*j)->Object_0));
                    vstd::std_specs::vec::axiom_vec_index_decreases(*entries, i as int);
                    assert(decreases_to!(*entries => entries[i as int]));
                    assert(decreases_to!(entries[i as int] => entries[i as int].1));
                }
                let c = copy_json(&entries[i].1);
                out.push((entries[i].0.clone(), c));
                i = i + 1;
            }
            let ghost outv = out@;
            let r = Json::Object(out);
            proof {
                let va = json_view(r)->Object_0;
                let vb = json_view(*j)->Object_0;
                assert(va.len() == vb.len());
                assert forall|k: int| 0 <= k < va.len() implies va[k] == vb[k] by {
                    assert(va[k] == (outv[k].0@, json_view(outv[k].1)));
                    assert(vb[k] == (entries@[k].0@, json_view(entries@[k].1)));
                }
                assert(va =~= vb);
            }
            r
        },
    }
}

pub open spec fn entries_view(v: Seq<(String, Json)>) -> Seq<(Seq<char>, JsonView)> {
    v.map_values(|e: (String, Json)| (e.0@, json_view(e.1)))
}

proof fn lemma_object_view(entries: Vec<(String, Json)>)
    ensures
        json_view(Json::Object(entries)) == JsonView::Object(entries_view(entries@)),
{
    let va = json_view(Json::Object(entries))->Object_0;
    assert(va =~= entries_view(entries@)) by {
        assert forall|k: int| 0 <= k < va.len() implies va[k] == entries_view(entries@)[k] by {
            assert(va[k] == (entries@[k].0@, json_view(entries@[k].1)));
        }
    }
}

/// A value without its nulls and empty objects (settings that were not
/// configured); `None` when nothing remains.
pub fn prune_json(value: &Json) -> (r: Option<Json>)
    ensures
        match (r, pruned(json_view(*value))) {
            (Some(a), Some(b)) => json_view(a) == b,
            (None, None) => true,
            _ => false,
        },
    decreases value,
{
    match value {
        Json::Null => None,
        Json::Object(entries) => {
            proof {
                lemma_object_view(*entries);
            }
            let ghost ev = entries_view(entries@);
            let mut kept: Vec<(String, Json)> = Vec::new();
            let mut i: usize = 0;
            while i < entries.len()
                invariant
                    *value == Json::Object(*entries),
                    ev == entries_view(entries@),
                    i <= entries@.len(),
                    entries_view(kept@) == pruned_entries(ev.subrange(0, i as int)),
                decreases entries@.len() - i,
            {
                proof {
                    assert(decreases_to!(*value => (*value)->Object_0));
                    vstd::std_specs::vec::axiom_vec_index_decreases(*entries, i as int);
                    assert(decreases_to!(*entries => entries[i as int]));
                    assert(decreases_to!(entries[i as int] => entries[i as int].1));
                    assert(ev.subrange(0, i + 1).drop_last() =~= ev.subrange(0, i as int));
                    assert(ev.subrange(0, i + 1).last() == (entries@[i as int].0@, json_view(entries@[i as int].1)));
                }
                let ghost before = entries_view(kept@);
                match prune_json(&entries[i].1) {
                    Some(p) => {
                        kept.push((entries[i].0.clone(), p));
                        assert(entries_view(kept@) =~= before.push((entries@[i as int].0@, json_view(p))));
                    },
                    None => {},
                }
                i = i + 1;
            }
            assert(ev.subrange(0, ev.len() as int) =~= ev);
            if kept.len() == 0 {
                None
            } else {
                proof {
                    lemma_object_view(kept);
                }
                Some(Json::Object(kept))
            }
        },
        _ => Some(copy_json(value)),
    }
}

/// `key.inner` for each key of an inner table, in order.
pub open spec fn dotted(key: Seq<char>, inner: Seq<(Seq<char>, JsonView)>) -> Seq<Seq<char>>
    decreases inner.len(),
{
    if inner.len() == 0 {
        seq![]
    } else {
        dotted(key, inner.drop_last()).push(key + seq!['.'] + inner.last().0)
    }
}

/// The paths that one setting of the config contributes: `key.inner` for
/// each entry of a table (but for `env`, whose variables are reported as
/// a whole), else the key.
pub open spec fn entry_fields(key: Seq<char>, value: JsonView) -> Seq<Seq<char>> {
    match value {
        JsonView::Object(inner) => if key != "env"@ {
            dotted(key, inner)
        } else {
            seq![key]
        },
        _ => seq![key],
    }
}

/// The paths of the settings of a config, two levels deep for tables, in
/// the order of the settings.
pub open spec fn object_fields(entries: Seq<(Seq<char>, JsonView)>) -> Seq<Seq<char>>
    decreases entries.len(),
{
    if entries.len() == 0 {
        seq![]
    } else {
        object_fields(entries.drop_last()) + entry_fields(entries.last().0, entries.last().1)
    }
}

pub open spec fn fields_of(v: JsonView) -> Seq<Seq<char>> {
    match v {
        JsonView::Object(entries) => object_fields(entries),
        _ => seq![],
    }
}

/// The texts with `x` inserted after every text that does not order after
/// it.
pub open spec fn insert_text(sorted: Seq<Seq<char>>, x: Seq<char>) -> Seq<Seq<char>>
    decreases sorted.len(),
{
    if sorted.len() == 0 {
        seq![x]
    } else if text_lt(x, sorted.last()) {
        insert_text(sorted.drop_last(), x).push(sorted.last())
    } else {
        sorted.push(x)
    }
}

/// The texts in order.
pub open spec fn sorted_texts(s: Seq<Seq<char>>) -> Seq<Seq<char>>
    decreases s.len(),
{
    if s.len() == 0 {
        seq![]
    } else {
        insert_text(sorted_texts(s.drop_last()), s.last())
    }
}

/// The security-sensitive settings of a config (as the JSON value of its
/// security-sensitive part): the paths of those that are configured,
/// sorted.
pub open spec fn sensitive_fields_of(v: JsonView) -> Seq<Seq<char>> {
    match pruned(v) {
        Some(p) => sorted_texts(fields_of(p)),
        None => seq![],
    }
}

pub open spec fn texts(v: Seq<String>) -> Seq<Seq<char>> {
    v.map_values(|s: String| s@)
}

proof fn lemma_insert_text(sorted: Seq<Seq<char>>, x: Seq<char>, k: int)
    requires
        0 <= k <= sorted.len(),
        forall|j: int| k <= j < sorted.len() ==> text_lt(x, #[trigger] sorted[j]),
        k > 0 ==> !text_lt(x, sorted[k - 1]),
    ensures
        insert_text(sorted, x) == sorted.insert(k, x),
    decreases sorted.len() - k,
{
    if k < sorted.len() {
        let init = sorted.drop_last();
        assert forall|j: int| k <= j < init.len() implies text_lt(x, #[trigger] init[j]) by {
            assert(init[j] == sorted[j]);
        }
        if k > 0 {
            assert(init[k - 1] == sorted[k - 1]);
        }
        assert(text_lt(x, sorted[sorted.len() - 1]));
        lemma_insert_text(init, x, k);
        assert(init.insert(k, x).push(sorted.last()) =~= sorted.insert(k, x));
    } else {
        if sorted.len() > 0 {
            assert(!text_lt(x, sorted.last()));
        }
        assert(sorted.push(x) =~= sorted.insert(k, x));
    }
}

fn insert_sorted(out: &mut Vec<String>, x: String)
    ensures
        texts(final(out)@) == insert_text(texts(old(out)@), x@),
{
    let ghost lv = texts(out@);
    let mut k: usize = out.len();
    while k > 0 && text_less(x.as_str(), out[k - 1].as_str())
        invariant
            k <= out@.len(),
            lv == texts(out@),
            forall|j: int| k <= j < lv.len() ==> text_lt(x@, #[trigger] lv[j]),
        decreases k,
    {
        assert(lv[k - 1] == out@[k - 1]@);
        k = k - 1;
    }
    proof {
        if k > 0 {
            assert(lv[k - 1] == out@[k - 1]@);
        }
        lemma_insert_text(lv, x@, k as int);
    }
    let ghost xv = x@;
    out.insert(k, x);
    assert(texts(out@) =~= lv.insert(k as int, xv));
}

fn sort_texts(v: Vec<String>) -> (r: Vec<String>)
    ensures
        texts(r@) == sorted_texts(texts(v@)),
{
    let ghost tv = texts(v@);
    let mut out: Vec<String> = Vec::new();
    let mut i: usize = 0;
    while i < v.len()
        invariant
            i <= v@.len(),
            tv == texts(v@),
            texts(out@) == sorted_texts(tv.subrange(0, i as int)),
        decreases v@.len() - i,
    {
        proof {
            assert(tv.subrange(0, i + 1).drop_last() =~= tv.subrange(0, i as int));
            assert(tv.subrange(0, i + 1).last() == v@[i as int]@);
        }
        insert_sorted(&mut out, v[i].clone());
        i = i + 1;
    }
    assert(tv.subrange(0, tv.len() as int) =~= tv);
    out
}

fn dotted_name(key: &String, inner: &String) -> (r: String)
    ensures
        r@ == key@ + seq!['.'] + inner@,
{
    let mut out = key.clone();
    push_char(&mut out, '.');
    push_str(&mut out, inner.as_str());
    out
}

/// The paths of the settings of a config, sorted.
fn collect_fields(value: &Json) -> (r: Vec<String>)
    ensures
        texts(r@) == sorted_texts(fields_of(json_view(*value))),
{
    let mut fields: Vec<String> = Vec::new();
    match value {
        Json::Object(map) => {
            proof {
                lemma_object_view(*map);
            }
            let ghost ev = entries_view(map@);
            let mut i: usize = 0;
            while i < map.len()
                invariant
                    i <= map@.len(),
                    ev == entries_view(map@),
                    texts(fields@) == object_fields(ev.subrange(0, i as int)),
                decreases map@.len() - i,
            {
                proof {
                    assert(ev.subrange(0, i + 1).drop_last() =~= ev.subrange(0, i as int));
                    assert(ev.subrange(0, i + 1).last() == (map@[i as int].0@, json_view(map@[i as int].1)));
                }
                let key = &map[i].0;
                let ghost before = texts(fields@);
                match &map[i].1 {
                    Json::Object(inner) => {
                        if !str_eq(key.as_str(), "env") {
                            proof {
                                lemma_object_view(*inner);
                            }
                            let ghost iv = entries_view(inner@);
                            let mut k: usize = 0;
                            while k < inner.len()
                                invariant
                                    k <= inner@.len(),
                                    iv == entries_view(inner@),
                                    texts(fields@) == before + dotted(key@, iv.subrange(0, k as int)),
                                decreases inner@.len() - k,
                            {
                                let ghost mid = texts(fields@);
                                fields.push(dotted_name(key, &inner[k].0));
                                proof {
                                    assert(iv.subrange(0, k + 1).drop_last() =~= iv.subrange(0, k as int));
                                    assert(iv.subrange(0, k + 1).last().0 == inner@[k as int].0@);
                                    assert(texts(fields@) =~= mid.push(key@ + seq!['.'] + inner@[k as int].0@));
                                }
                                k = k + 1;
                            }
                            assert(iv.subrange(0, iv.len() as int) =~= iv);
                        } else {
                            fields.push(key.clone());
                            assert(texts(fields@) =~= before + seq![key@]);
                        }
                    },
                    _ => {
                        fields.push(key.clone());
                        assert(texts(fields@) =~= before + seq![key@]);
                    },
                }
                i = i + 1;
            }
            assert(ev.subrange(0, ev.len() as int) =~= ev);
        },
        _ => {
            assert(texts(fields@) =~= Seq::<Seq<char>>::empty());
        },
    }
    sort_texts(fields)
}

/// The configured settings of the security-sensitive part of a config
/// (`value`, in JSON form), for display.
pub fn sensitive_part_fields(value: &Json) -> (r: Vec<String>)
    ensures
        texts(r@) == sensitive_fields_of(json_view(*value)),
{
    match prune_json(value) {
        Some(p) => collect_fields(&p),
        None => Vec::new(),
    }
}

/// A value as pruning leaves it: not null, and an object only when it has
/// entries.
pub open spec fn configured(v: JsonView) -> bool {
    &&& !(v is Null)
    &&& (v matches JsonView::Object(e) ==> e.len() > 0)
}

proof fn lemma_pruned_configured(v: JsonView)
    ensures
        pruned(v) matches Some(p) ==> configured(p),
{
}

proof fn lemma_pruned_entries_configured(entries: Seq<(Seq<char>, JsonView)>)
    ensures
        forall|i: int| 0 <= i < pruned_entries(entries).len() ==> configured(#[trigger] pruned_entries(entries)[i].1),
    decreases entries.len(),
{
    if entries.len() > 0 {
        lemma_pruned_entries_configured(entries.drop_last());
        lemma_pruned_configured(entries.last().1);
        let rest = pruned_entries(entries.drop_last());
        match pruned(entries.last().1) {
            Some(p) => {
                let all = rest.push((entries.last().0, p));
                assert(pruned_entries(entries) == all);
                assert forall|i: int| 0 <= i < all.len() implies configured(#[trigger] all[i].1) by {
                    if i < rest.len() {
                        assert(all[i] == rest[i]);
                    }
                }
            },
            None => {
                assert(pruned_entries(entries) == rest);
            },
        }
    }
}

proof fn lemma_dotted_len(key: Seq<char>, inner: Seq<(Seq<char>, JsonView)>)
    ensures
        dotted(key, inner).len() == inner.len(),
    decreases inner.len(),
{
    if inner.len() > 0 {
        lemma_dotted_len(key, inner.drop_last());
    }
}

proof fn lemma_object_fields_len(entries: Seq<(Seq<char>, JsonView)>)
    requires
        forall|i: int| 0 <= i < entries.len() ==> configured(#[trigger] entries[i].1),
    ensures
        object_fields(entries).len() >= entries.len(),
    decreases entries.len(),
{
    if entries.len() > 0 {
        let init = entries.drop_last();
        assert forall|i: int| 0 <= i < init.len() implies configured(#[trigger] init[i].1) by {
            assert(init[i] == entries[i]);
        }
        lemma_object_fields_len(init);
        let (key, value) = entries.last();
        assert(configured(entries[entries.len() - 1].1));
        if let JsonView::Object(inner) = value {
            lemma_dotted_len(key, inner);
        }
    }
}

proof fn lemma_insert_text_len(sorted: Seq<Seq<char>>, x: Seq<char>)
    ensures
        insert_text(sorted, x).len() == sorted.len() + 1,
    decreases sorted.len(),
{
    if sorted.len() > 0 {
        lemma_insert_text_len(sorted.drop_last(), x);
    }
}

proof fn lemma_sorted_texts_len(s: Seq<Seq<char>>)
    ensures
        sorted_texts(s).len() == s.len(),
    decreases s.len(),
{
    if s.len() > 0 {
        lemma_sorted_texts_len(s.drop_last());
        lemma_insert_text_len(sorted_texts(s.drop_last()), s.last());
    }
}

/// A config needs no trust exactly when it configures no
/// security-sensitive setting: its sensitive fields are empty when, and
/// only when, nothing of its sensitive part remains once the settings that
/// are not configured are pruned.
pub proof fn lemma_no_fields_iff_nothing_configured(entries: Seq<(Seq<char>, JsonView)>)
    ensures
        sensitive_fields_of(JsonView::Object(entries)).len() == 0 <==> pruned(JsonView::Object(entries)) is None,
{
    let v = JsonView::Object(entries);
    match pruned(v) {
        Some(p) => {
            let kept = pruned_entries(entries);
            assert(p == JsonView::Object(kept));
            lemma_pruned_entries_configured(entries);
            lemma_object_fields_len(kept);
            lemma_sorted_texts_len(object_fields(kept));
        },
        None => {},
    }
}

/// The settings that are safe to apply from any config.
pub open spec fn is_safe_setting(k: Seq<char>) -> bool {
    k == "detect-strategy"@ || k == "lockfile"@ || k == "pin-latest"@ || k == "telemetry"@
}

/// The sections of a config other than its tools and settings, all of them
/// security-sensitive; a top-level key that is no section pins a version.
pub open spec fn is_sensitive_section(k: Seq<char>) -> bool {
    k == "backends"@ || k == "env"@ || k == "plugins"@ || k == "shell"@
}

/// Whether an entry of an object goes to the safe part: for a tool, its
/// configured aliases; for the settings, the safe ones.
pub open spec fn goes_safe(aliases: bool, k: Seq<char>, v: JsonView) -> bool {
    if aliases {
        k == "aliases"@ && !(v is Null)
    } else {
        is_safe_setting(k)
    }
}

/// The entries of an object split in two, each in order: those that go to
/// the safe part, and the others.
pub open spec fn partition_entries(fs: Seq<(Seq<char>, JsonView)>, aliases: bool) -> (
    Seq<(Seq<char>, JsonView)>,
    Seq<(Seq<char>, JsonView)>,
)
    decreases fs.len(),
{
    if fs.len() == 0 {
        (seq![], seq![])
    } else {
        let (safe, rest) = partition_entries(fs.drop_last(), aliases);
        let e = fs.last();
        if goes_safe(aliases, e.0, e.1) {
            (safe.push(e), rest)
        } else {
            (safe, rest.push(e))
        }
    }
}

/// The tools of a config split in two: the aliases of each tool that
/// configures some, and each tool with the rest of its configuration.
pub open spec fn split_tools(tools: Seq<(Seq<char>, JsonView)>) -> (
    Seq<(Seq<char>, JsonView)>,
    Seq<(Seq<char>, JsonView)>,
)
    decreases tools.len(),
{
    if tools.len() == 0 {
        (seq![], seq![])
    } else {
        let (safe, rest) = split_tools(tools.drop_last());
        let (t, tv) = tools.last();
        match tv {
            JsonView::Object(fs) => {
                let (a, others) = partition_entries(fs, true);
                (
                    if a.len() > 0 { safe.push((t, JsonView::Object(a))) } else { safe },
                    rest.push((t, JsonView::Object(others))),
                )
            },
            _ => (safe, rest.push((t, tv))),
        }
    }
}

/// The top-level entries of a config split into its safe part and its
/// security-sensitive part. Version pins are safe, but for the pin of
/// `proto` itself; so are the aliases of tools and the safe settings;
/// everything else (environment variables, shell aliases, plugins, tool and
/// backend configuration, and any setting not known to be safe) is
/// security-sensitive.
pub open spec fn split_entries(entries: Seq<(Seq<char>, JsonView)>) -> (
    Seq<(Seq<char>, JsonView)>,
    Seq<(Seq<char>, JsonView)>,
)
    decreases entries.len(),
{
    if entries.len() == 0 {
        (seq![], seq![])
    } else {
        let (safe, sens) = split_entries(entries.drop_last());
        let (k, v) = entries.last();
        if k == "tools"@ {
            match v {
                JsonView::Object(tools) => {
                    let (st, rt) = split_tools(tools);
                    (
                        if st.len() > 0 { safe.push((k, JsonView::Object(st))) } else { safe },
                        sens.push((k, JsonView::Object(rt))),
                    )
                },
                _ => (safe, sens.push((k, v))),
            }
        } else if k == "settings"@ {
            match v {
                JsonView::Object(fs) => {
                    let (a, others) = partition_entries(fs, false);
                    (safe.push((k, JsonView::Object(a))), sens.push((k, JsonView::Object(others))))
                },
                _ => (safe, sens.push((k, v))),
            }
        } else if is_sensitive_section(k) || k == "proto"@ {
            (safe, sens.push((k, v)))
        } else {
            (safe.push((k, v)), sens)
        }
    }
}

/// A config (in JSON form) split into its safe part and its
/// security-sensitive part.
pub open spec fn split_config_view(v: JsonView) -> (JsonView, JsonView) {
    match v {
        JsonView::Object(entries) => {
            let (safe, sens) = split_entries(entries);
            (JsonView::Object(safe), JsonView::Object(sens))
        },
        _ => (JsonView::Object(seq![]), v),
    }
}

fn push_entry(v: &mut Vec<(String, Json)>, k: String, j: Json)
    ensures
        entries_view(final(v)@) == entries_view(old(v)@).push((k@, json_view(j))),
{
    let ghost before = entries_view(v@);
    v.push((k, j));
    assert(entries_view(v@) =~= before.push((k@, json_view(j))));
}

fn partition_object(fs: &Vec<(String, Json)>, aliases: bool) -> (r: (Vec<(String, Json)>, Vec<(String, Json)>))
    ensures
        (entries_view(r.0@), entries_view(r.1@)) == partition_entries(entries_view(fs@), aliases),
{
    let ghost ev = entries_view(fs@);
    let mut safe: Vec<(String, Json)> = Vec::new();
    let mut rest: Vec<(String, Json)> = Vec::new();
    let mut i: usize = 0;
    assert(entries_view(safe@) =~= seq![]);
    assert(entries_view(rest@) =~= seq![]);
    while i < fs.len()
        invariant
            i <= fs@.len(),
            ev == entries_view(fs@),
            (entries_view(safe@), entries_view(rest@)) == partition_entries(ev.subrange(0, i as int), aliases),
        decreases fs@.len() - i,
    {
        proof {
            assert(ev.subrange(0, i + 1).drop_last() =~= ev.subrange(0, i as int));
            assert(ev.subrange(0, i + 1).last() == (fs@[i as int].0@, json_view(fs@[i as int].1)));
        }
        let k = &fs[i].0;
        let v = &fs[i].1;
        let safe_one = if aliases {
            str_eq(k.as_str(), "aliases") && !matches!(v, Json::Null)
        } else {
            str_eq(k.as_str(), "detect-strategy") || str_eq(k.as_str(), "lockfile") || str_eq(
                k.as_str(),
                "pin-latest",
            ) || str_eq(k.as_str(), "telemetry")
        };
        let c = copy_json(v);
        if safe_one {
            push_entry(&mut safe, k.clone(), c);
        } else {
            push_entry(&mut rest, k.clone(), c);
        }
        i = i + 1;
    }
    assert(ev.subrange(0, ev.len() as int) =~= ev);
    (safe, rest)
}

fn split_tool_entries(tools: &Vec<(String, Json)>) -> (r: (Vec<(String, Json)>, Vec<(String, Json)>))
    ensures
        (entries_view(r.0@), entries_view(r.1@)) == split_tools(entries_view(tools@)),
{
    let ghost tv = entries_view(tools@);
    let mut safe: Vec<(String, Json)> = Vec::new();
    let mut rest: Vec<(String, Json)> = Vec::new();
    let mut i: usize = 0;
    assert(entries_view(safe@) =~= seq![]);
    assert(entries_view(rest@) =~= seq![]);
    while i < tools.len()
        invariant
            i <= tools@.len(),
            tv == entries_view(tools@),
            (entries_view(safe@), entries_view(rest@)) == split_tools(tv.subrange(0, i as int)),
        decreases tools@.len() - i,
    {
        proof {
            assert(tv.subrange(0, i + 1).drop_last() =~= tv.subrange(0, i as int));
            assert(tv.subrange(0, i + 1).last() == (tools@[i as int].0@, json_view(tools@[i as int].1)));
        }
        let t = &tools[i].0;
        match &tools[i].1 {
            Json::Object(fs) => {
                proof {
                    lemma_object_view(*fs);
                }
                let (a, others) = partition_object(fs, true);
                if a.len() > 0 {
                    proof {
                        lemma_object_view(a);
                    }
                    push_entry(&mut safe, t.clone(), Json::Object(a));
                }
                proof {
                    lemma_object_view(others);
                }
                push_entry(&mut rest, t.clone(), Json::Object(others));
            },
            other => {
                let c = copy_json(other);
                push_entry(&mut rest, t.clone(), c);
            },
        }
        i = i + 1;
    }
    assert(tv.subrange(0, tv.len() as int) =~= tv);
    (safe, rest)
}

/// Split a config (in JSON form) into the settings that are safe to apply
/// from any config, and those that are security-sensitive and require
/// trust. The safe ones are an allowlist, so that a setting not known to
/// be safe is treated as sensitive.
pub fn split_config(config: &Json) -> (r: (Json, Json))
    ensures
        (json_view(r.0), json_view(r.1)) == split_config_view(json_view(*config)),
{
    match config {
        Json::Object(entries) => {
            proof {
                lemma_object_view(*entries);
            }
            let ghost ev = entries_view(entries@);
            let mut safe: Vec<(String, Json)> = Vec::new();
            let mut sens: Vec<(String, Json)> = Vec::new();
            let mut i: usize = 0;
            assert(entries_view(safe@) =~= seq![]);
            assert(entries_view(sens@) =~= seq![]);
            while i < entries.len()
                invariant
                    i <= entries@.len(),
                    ev == entries_view(entries@),
                    (entries_view(safe@), entries_view(sens@)) == split_entries(ev.subrange(0, i as int)),
                decreases entries@.len() - i,
            {
                proof {
                    assert(ev.subrange(0, i + 1).drop_last() =~= ev.subrange(0, i as int));
                    assert(ev.subrange(0, i + 1).last() == (entries@[i as int].0@, json_view(entries@[i as int].1)));
                }
                let k = &entries[i].0;
                let v = &entries[i].1;
                if str_eq(k.as_str(), "tools") {
                    match v {
                        Json::Object(tools) => {
                            proof {
                                lemma_object_view(*tools);
                            }
                            let (st, rt) = split_tool_entries(tools);
                            if st.len() > 0 {
                                proof {
                                    lemma_object_view(st);
                                }
                                push_entry(&mut safe, k.clone(), Json::Object(st));
                            }
                            proof {
                                lemma_object_view(rt);
                            }
                            push_entry(&mut sens, k.clone(), Json::Object(rt));
                        },
                        _ => {
                            let c = copy_json(v);
                            push_entry(&mut sens, k.clone(), c);
                        },
                    }
                } else if str_eq(k.as_str(), "settings") {
                    match v {
                        Json::Object(fs) => {
                            proof {
                                lemma_object_view(*fs);
                            }
                            let (a, others) = partition_object(fs, false);
                            proof {
                                lemma_object_view(a);
                                lemma_object_view(others);
                            }
                            push_entry(&mut safe, k.clone(), Json::Object(a));
                            push_entry(&mut sens, k.clone(), Json::Object(others));
                        },
                        _ => {
                            let c = copy_json(v);
                            push_entry(&mut sens, k.clone(), c);
                        },
                    }
                } else if str_eq(k.as_str(), "backends") || str_eq(k.as_str(), "env") || str_eq(
                    k.as_str(),
                    "plugins",
                ) || str_eq(k.as_str(), "shell") || str_eq(k.as_str(), "proto") {
                    let c = copy_json(v);
                    push_entry(&mut sens, k.clone(), c);
                } else {
                    let c = copy_json(v);
                    push_entry(&mut safe, k.clone(), c);
                }
                i = i + 1;
            }
            assert(ev.subrange(0, ev.len() as int) =~= ev);
            proof {
                lemma_object_view(safe);
                lemma_object_view(sens);
            }
            (Json::Object(safe), Json::Object(sens))
        },
        _ => {
            let empty: Vec<(String, Json)> = Vec::new();
            proof {
                lemma_object_view(empty);
                assert(entries_view(empty@) =~= seq![]);
            }
            (Json::Object(empty), copy_json(config))
        },
    }
}

/// Return the paths of the security-sensitive settings configured in a
/// config (in JSON form), for display purposes. Empty if the config has
/// none, in which case it does not need to be trusted.
pub fn get_sensitive_fields(config: &Json) -> (r: Vec<String>)
    ensures
        texts(r@) == sensitive_fields_of(split_config_view(json_view(*config)).1),
{
    let (_safe, sensitive) = split_config(config);
    sensitive_part_fields(&sensitive)
}

/// The keys of an object all pass a test.
pub open spec fn keys_all(fs: Seq<(Seq<char>, JsonView)>, aliases: bool) -> bool {
    forall|m: int|
        0 <= m < fs.len() ==> (if aliases {
            (#[trigger] fs[m]).0 == "aliases"@
        } else {
            is_safe_setting(fs[m].0)
        })
}

/// What the safe part of a config may hold at its top level: the tools
/// with their aliases alone, the safe settings alone, and version pins of
/// tools other than `proto`.
pub open spec fn allowlisted_entry(e: (Seq<char>, JsonView)) -> bool {
    if e.0 == "tools"@ {
        e.1 matches JsonView::Object(tools) && forall|j: int|
            0 <= j < tools.len() ==> ((#[trigger] tools[j]).1 matches JsonView::Object(fs) && keys_all(
                fs,
                true,
            ))
    } else if e.0 == "settings"@ {
        e.1 matches JsonView::Object(fs) && keys_all(fs, false)
    } else {
        !is_sensitive_section(e.0) && e.0 != "proto"@
    }
}

proof fn lemma_partition_safe_keys(fs: Seq<(Seq<char>, JsonView)>, aliases: bool)
    ensures
        keys_all(partition_entries(fs, aliases).0, aliases),
    decreases fs.len(),
{
    if fs.len() > 0 {
        lemma_partition_safe_keys(fs.drop_last(), aliases);
    }
}

proof fn lemma_split_tools_safe(tools: Seq<(Seq<char>, JsonView)>)
    ensures
        forall|j: int|
            0 <= j < split_tools(tools).0.len() ==> ((#[trigger] split_tools(tools).0[j]).1 matches JsonView::Object(
                fs,
            ) && keys_all(fs, true)),
    decreases tools.len(),
{
    if tools.len() > 0 {
        lemma_split_tools_safe(tools.drop_last());
        match tools.last().1 {
            JsonView::Object(fs) => {
                lemma_partition_safe_keys(fs, true);
            },
            _ => {},
        }
    }
}

/// The split is an allowlist: whatever a config holds, its safe part
/// holds nothing but version pins of tools other than `proto`, the aliases
/// of tools, and the settings known to be safe.
pub proof fn lemma_safe_part_is_allowlisted(entries: Seq<(Seq<char>, JsonView)>)
    ensures
        forall|i: int|
            0 <= i < split_entries(entries).0.len() ==> allowlisted_entry(
                #[trigger] split_entries(entries).0[i],
            ),
    decreases entries.len(),
{
    if entries.len() > 0 {
        lemma_safe_part_is_allowlisted(entries.drop_last());
        let prev = split_entries(entries.drop_last()).0;
        let res = split_entries(entries).0;
        let (k, v) = entries.last();
        match v {
            JsonView::Object(fs) => {
                lemma_split_tools_safe(fs);
                lemma_partition_safe_keys(fs, false);
            },
            _ => {},
        }
        assert(res == prev || (res.len() == prev.len() + 1 && res.drop_last() == prev && allowlisted_entry(
            res.last(),
        )));
        assert forall|i: int| 0 <= i < res.len() implies allowlisted_entry(#[trigger] res[i]) by {
            if i < prev.len() {
                if res != prev {
                    assert(res[i] == res.drop_last()[i]);
                }
            }
        }
    }
}

/// A top-level key that pins a version: neither a section nor the tools
/// or the settings.
pub open spec fn is_pin_key(k: Seq<char>) -> bool {
    !is_sensitive_section(k) && k != "tools"@ && k != "settings"@
}

pub open spec fn goes_safe_pred(aliases: bool) -> spec_fn((Seq<char>, JsonView)) -> bool {
    |e: (Seq<char>, JsonView)| goes_safe(aliases, e.0, e.1)
}

pub open spec fn stays_pred(aliases: bool) -> spec_fn((Seq<char>, JsonView)) -> bool {
    |e: (Seq<char>, JsonView)| !goes_safe(aliases, e.0, e.1)
}

pub open spec fn pin_pred() -> spec_fn((Seq<char>, JsonView)) -> bool {
    |e: (Seq<char>, JsonView)| is_pin_key(e.0)
}

pub open spec fn safe_pin_pred() -> spec_fn((Seq<char>, JsonView)) -> bool {
    |e: (Seq<char>, JsonView)| is_pin_key(e.0) && e.0 != "proto"@
}

pub open spec fn proto_pred() -> spec_fn((Seq<char>, JsonView)) -> bool {
    |e: (Seq<char>, JsonView)| e.0 == "proto"@
}

pub open spec fn section_pred() -> spec_fn((Seq<char>, JsonView)) -> bool {
    |e: (Seq<char>, JsonView)| is_sensitive_section(e.0)
}

proof fn lemma_filter_push(
    s: Seq<(Seq<char>, JsonView)>,
    x: (Seq<char>, JsonView),
    p: spec_fn((Seq<char>, JsonView)) -> bool,
)
    ensures
        s.push(x).filter(p) == if p(x) {
            s.filter(p).push(x)
        } else {
            s.filter(p)
        },
{
    reveal_with_fuel(Seq::<_>::filter, 1);
    assert(s.push(x).drop_last() =~= s);
}

proof fn lemma_filter_empty(p: spec_fn((Seq<char>, JsonView)) -> bool)
    ensures
        Seq::<(Seq<char>, JsonView)>::empty().filter(p) == Seq::<(Seq<char>, JsonView)>::empty(),
{
    reveal_with_fuel(Seq::<_>::filter, 1);
}

/// Each entry of a tool's configuration, or of the settings, goes to
/// exactly one part: the safe part holds, in order, those that go safe,
/// and the other part the rest.
pub proof fn lemma_partition_is_filter(fs: Seq<(Seq<char>, JsonView)>, aliases: bool)
    ensures
        partition_entries(fs, aliases).0 == fs.filter(goes_safe_pred(aliases)),
        partition_entries(fs, aliases).1 == fs.filter(stays_pred(aliases)),
    decreases fs.len(),
{
    if fs.len() == 0 {
        lemma_filter_empty(goes_safe_pred(aliases));
        lemma_filter_empty(stays_pred(aliases));
        assert(fs =~= Seq::<(Seq<char>, JsonView)>::empty());
    } else {
        lemma_partition_is_filter(fs.drop_last(), aliases);
        assert(fs.drop_last().push(fs.last()) =~= fs);
        lemma_filter_push(fs.drop_last(), fs.last(), goes_safe_pred(aliases));
        lemma_filter_push(fs.drop_last(), fs.last(), stays_pred(aliases));
    }
}

/// The split partitions a config's pins and sections: the safe part holds,
/// in order, every version pin but `proto`'s; the security-sensitive part
/// holds the pin of `proto` and every sensitive section, unchanged, in
/// order; and the safe part holds no sensitive section.
pub proof fn lemma_split_partitions(entries: Seq<(Seq<char>, JsonView)>)
    ensures
        split_entries(entries).0.filter(pin_pred()) == entries.filter(safe_pin_pred()),
        split_entries(entries).1.filter(pin_pred()) == entries.filter(proto_pred()),
        split_entries(entries).1.filter(section_pred()) == entries.filter(section_pred()),
        split_entries(entries).0.filter(section_pred()).len() == 0,
    decreases entries.len(),
{
    if entries.len() == 0 {
        lemma_filter_empty(pin_pred());
        lemma_filter_empty(safe_pin_pred());
        lemma_filter_empty(proto_pred());
        lemma_filter_empty(section_pred());
        assert(entries =~= Seq::<(Seq<char>, JsonView)>::empty());
    } else {
        let prev = entries.drop_last();
        lemma_split_partitions(prev);
        reveal_strlit("tools");
        reveal_strlit("settings");
        reveal_strlit("proto");
        reveal_strlit("backends");
        reveal_strlit("env");
        reveal_strlit("plugins");
        reveal_strlit("shell");
        assert("tools"@[0] == 't' && "proto"@[0] == 'p' && "shell"@[0] == 's');
        assert("backends"@[0] == 'b' && "settings"@[0] == 's');
        assert("tools"@ != "proto"@ && "tools"@ != "shell"@ && "proto"@ != "shell"@);
        assert("backends"@ != "settings"@);
        assert("env"@.len() == 3 && "plugins"@.len() == 7 && "backends"@.len() == 8 && "proto"@.len() == 5);
        assert("tools"@.len() == 5 && "settings"@.len() == 8 && "shell"@.len() == 5);
        assert("proto"@ != "env"@ && "proto"@ != "plugins"@ && "proto"@ != "backends"@);
        assert("tools"@ != "env"@ && "tools"@ != "plugins"@ && "tools"@ != "backends"@);
        assert("settings"@ != "env"@ && "settings"@ != "plugins"@ && "settings"@ != "shell"@);
        let (safe, sens) = split_entries(prev);
        let x = entries.last();
        assert(prev.push(x) =~= entries);
        lemma_filter_push(prev, x, safe_pin_pred());
        lemma_filter_push(prev, x, proto_pred());
        lemma_filter_push(prev, x, section_pred());
        let (k, v) = x;
        if k == "tools"@ {
            match v {
                JsonView::Object(tools) => {
                    let (st, rt) = split_tools(tools);
                    let y = (k, JsonView::Object(st));
                    let z = (k, JsonView::Object(rt));
                    lemma_filter_push(safe, y, pin_pred());
                    lemma_filter_push(safe, y, section_pred());
                    lemma_filter_push(sens, z, pin_pred());
                    lemma_filter_push(sens, z, section_pred());
                },
                _ => {
                    lemma_filter_push(sens, x, pin_pred());
                    lemma_filter_push(sens, x, section_pred());
                },
            }
        } else if k == "settings"@ {
            match v {
                JsonView::Object(fs) => {
                    let (a, others) = partition_entries(fs, false);
                    let y = (k, JsonView::Object(a));
                    let z = (k, JsonView::Object(others));
                    lemma_filter_push(safe, y, pin_pred());
                    lemma_filter_push(safe, y, section_pred());
                    lemma_filter_push(sens, z, pin_pred());
                    lemma_filter_push(sens, z, section_pred());
                },
                _ => {
                    lemma_filter_push(sens, x, pin_pred());
                    lemma_filter_push(sens, x, section_pred());
                },
            }
        } else if is_sensitive_section(k) || k == "proto"@ {
            lemma_filter_push(sens, x, pin_pred());
            lemma_filter_push(sens, x, section_pred());
            assert(k == "proto"@ ==> !is_sensitive_section(k));
            assert(pin_pred()(x) == proto_pred()(x));
        } else {
            lemma_filter_push(safe, x, pin_pred());
            lemma_filter_push(safe, x, section_pred());
        }
    }
}

/// A tool's configuration without its aliases.
pub open spec fn tool_rest(v: JsonView) -> JsonView {
    match v {
        JsonView::Object(fs) => JsonView::Object(fs.filter(stays_pred(true))),
        _ => v,
    }
}

/// The configured aliases of a tool's configuration.
pub open spec fn tool_aliases(v: JsonView) -> Seq<(Seq<char>, JsonView)> {
    match v {
        JsonView::Object(fs) => fs.filter(goes_safe_pred(true)),
        _ => seq![],
    }
}

pub open spec fn has_aliases_pred() -> spec_fn((Seq<char>, JsonView)) -> bool {
    |e: (Seq<char>, JsonView)| tool_aliases(e.1).len() > 0
}

pub open spec fn rest_entry() -> spec_fn((Seq<char>, JsonView)) -> (Seq<char>, JsonView) {
    |e: (Seq<char>, JsonView)| (e.0, tool_rest(e.1))
}

pub open spec fn aliases_entry() -> spec_fn((Seq<char>, JsonView)) -> (Seq<char>, JsonView) {
    |e: (Seq<char>, JsonView)| (e.0, JsonView::Object(tool_aliases(e.1)))
}

/// The split of the tools: the security-sensitive part keeps every tool,
/// in order, with its configuration but its aliases; the safe part holds,
/// in order, each tool that configures aliases, with those aliases alone.
pub proof fn lemma_split_tools(tools: Seq<(Seq<char>, JsonView)>)
    ensures
        split_tools(tools).1 == tools.map_values(rest_entry()),
        split_tools(tools).0 == tools.filter(has_aliases_pred()).map_values(aliases_entry()),
    decreases tools.len(),
{
    if tools.len() == 0 {
        lemma_filter_empty(has_aliases_pred());
        assert(tools =~= Seq::<(Seq<char>, JsonView)>::empty());
        assert(split_tools(tools).1 =~= tools.map_values(rest_entry()));
        assert(split_tools(tools).0 =~= tools.filter(has_aliases_pred()).map_values(aliases_entry()));
    } else {
        let prev = tools.drop_last();
        let x = tools.last();
        lemma_split_tools(prev);
        assert(prev.push(x) =~= tools);
        lemma_filter_push(prev, x, has_aliases_pred());
        match x.1 {
            JsonView::Object(fs) => {
                lemma_partition_is_filter(fs, true);
            },
            _ => {},
        }
        let (safe, rest) = split_tools(prev);
        assert(split_tools(tools).1 =~= rest.push(rest_entry()(x)));
        assert(tools.map_values(rest_entry()) =~= prev.map_values(rest_entry()).push(rest_entry()(x)));
        let f = prev.filter(has_aliases_pred());
        if has_aliases_pred()(x) {
            assert(f.push(x).map_values(aliases_entry()) =~= f.map_values(aliases_entry()).push(aliases_entry()(x)));
        }
    }
}

/// Texts in ascending order: none comes before one ahead of it.
pub open spec fn texts_ascending(s: Seq<Seq<char>>) -> bool {
    forall|i: int, j: int| 0 <= i < j < s.len() ==> !text_lt(#[trigger] s[j], #[trigger] s[i])
}

proof fn lemma_lt_irreflexive(a: Seq<char>)
    ensures
        !text_lt(a, a),
    decreases a.len(),
{
    if a.len() > 0 {
        lemma_lt_irreflexive(a.drop_first());
    }
}

proof fn lemma_lt_transitive(a: Seq<char>, b: Seq<char>, c: Seq<char>)
    requires
        text_lt(a, b),
        text_lt(b, c),
    ensures
        text_lt(a, c),
    decreases a.len(),
{
    if a.len() > 0 && b.len() > 0 && c.len() > 0 {
        if a[0] == b[0] && b[0] == c[0] {
            lemma_lt_transitive(a.drop_first(), b.drop_first(), c.drop_first());
        }
    }
}

proof fn lemma_lt_total(a: Seq<char>, b: Seq<char>)
    ensures
        a == b || text_lt(a, b) || text_lt(b, a),
    decreases a.len(),
{
    if a.len() > 0 && b.len() > 0 {
        if a[0] == b[0] {
            lemma_lt_total(a.drop_first(), b.drop_first());
            if a.drop_first() == b.drop_first() {
                assert(a =~= seq![a[0]] + a.drop_first());
                assert(b =~= seq![b[0]] + b.drop_first());
            }
        } else {
            assert(a[0] < b[0] || b[0] < a[0]);
        }
    } else if a.len() == 0 && b.len() == 0 {
        assert(a =~= b);
    }
}

/// Not before is transitive.
proof fn lemma_not_lt_transitive(a: Seq<char>, b: Seq<char>, c: Seq<char>)
    requires
        !text_lt(b, a),
        !text_lt(c, b),
    ensures
        !text_lt(c, a),
{
    lemma_lt_total(a, b);
    lemma_lt_total(b, c);
    if text_lt(c, a) {
        if text_lt(a, b) {
            lemma_lt_transitive(c, a, b);
        }
    }
}

proof fn lemma_insert_keeps_ascending(sorted: Seq<Seq<char>>, x: Seq<char>)
    requires
        texts_ascending(sorted),
    ensures
        texts_ascending(insert_text(sorted, x)),
        insert_text(sorted, x).len() == sorted.len() + 1,
        forall|i: int| 0 <= i < insert_text(sorted, x).len() ==> (#[trigger] insert_text(sorted, x)[i] == x
            || sorted.contains(insert_text(sorted, x)[i])),
    decreases sorted.len(),
{
    let r = insert_text(sorted, x);
    if sorted.len() == 0 {
    } else if text_lt(x, sorted.last()) {
        let init = sorted.drop_last();
        let last = sorted.last();
        assert(texts_ascending(init)) by {
            assert forall|i: int, j: int| 0 <= i < j < init.len() implies !text_lt(#[trigger] init[j], #[trigger] init[i]) by {
                assert(init[i] == sorted[i] && init[j] == sorted[j]);
            }
        }
        lemma_insert_keeps_ascending(init, x);
        let ri = insert_text(init, x);
        assert(r == ri.push(last));
        assert forall|i: int, j: int| 0 <= i < j < r.len() implies !text_lt(#[trigger] r[j], #[trigger] r[i]) by {
            if j == r.len() - 1 {
                assert(r[j] == last);
                assert(r[i] == ri[i]);
                if ri[i] == x {
                    lemma_lt_total(x, last);
                    if text_lt(last, x) {
                        lemma_lt_transitive(last, x, last);
                        lemma_lt_irreflexive(last);
                    }
                } else {
                    let k = choose|k: int| 0 <= k < init.len() && init[k] == ri[i];
                    assert(sorted[k] == init[k]);
                    assert(!text_lt(sorted[sorted.len() - 1], sorted[k]));
                }
            } else {
                assert(r[i] == ri[i] && r[j] == ri[j]);
            }
        }
        assert forall|i: int| 0 <= i < r.len() implies (#[trigger] r[i] == x || sorted.contains(r[i])) by {
            if i == r.len() - 1 {
                assert(sorted[sorted.len() - 1] == last);
            } else {
                assert(r[i] == ri[i]);
                if ri[i] != x {
                    let k = choose|k: int| 0 <= k < init.len() && init[k] == ri[i];
                    assert(sorted[k] == init[k]);
                }
            }
        }
    } else {
        assert(r == sorted.push(x));
        assert forall|i: int, j: int| 0 <= i < j < r.len() implies !text_lt(#[trigger] r[j], #[trigger] r[i]) by {
            if j == r.len() - 1 {
                assert(r[j] == x);
                assert(r[i] == sorted[i]);
                if i < sorted.len() - 1 {
                    lemma_not_lt_transitive(sorted[i], sorted[sorted.len() - 1], x);
                }
            } else {
                assert(r[i] == sorted[i] && r[j] == sorted[j]);
            }
        }
        assert forall|i: int| 0 <= i < r.len() implies (#[trigger] r[i] == x || sorted.contains(r[i])) by {
            if i < sorted.len() {
                assert(r[i] == sorted[i]);
            }
        }
    }
}

proof fn lemma_sorted_texts_ascending(s: Seq<Seq<char>>)
    ensures
        texts_ascending(sorted_texts(s)),
    decreases s.len(),
{
    if s.len() > 0 {
        lemma_sorted_texts_ascending(s.drop_last());
        lemma_insert_keeps_ascending(sorted_texts(s.drop_last()), s.last());
    }
}

/// The security-sensitive settings come out in ascending order, and there
/// are none exactly when nothing of the sensitive part of the config
/// remains once what is not configured is pruned.
pub proof fn lemma_sensitive_fields_sorted(config: JsonView)
    ensures
        texts_ascending(sensitive_fields_of(split_config_view(config).1)),
        config is Object ==> (sensitive_fields_of(split_config_view(config).1).len() == 0
            <==> pruned(split_config_view(config).1) is None),
{
    let sens = split_config_view(config).1;
    match pruned(sens) {
        Some(p) => {
            lemma_sorted_texts_ascending(fields_of(p));
        },
        None => {},
    }
    match config {
        JsonView::Object(entries) => {
            lemma_no_fields_iff_nothing_configured(split_entries(entries).1);
        },
        _ => {},
    }
}

} // verus!
