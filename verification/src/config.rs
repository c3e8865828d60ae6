use vstd::prelude::*;
use crate::context::{ContextView, ToolContext, context_text};
use crate::paths::{PathView, ProtoPath, join_path, path_components, render_path, spec_parent};
use crate::captures::{CaptureSpan, regex_captures, regex_captures_of, spans_in_order, spans_view};
use crate::text::{chars_of, push_str, str_eq, substring};

verus! {

/// A piece of a text split at its `${NAME}` references.
pub enum SubPiece {
    Text(String),
    Var(String),
}

/// The abstract form of a piece.
pub enum SubPieceView {
    Text(Seq<char>),
    Var(Seq<char>),
}

impl View for SubPiece {
    type V = SubPieceView;

    open spec fn view(&self) -> SubPieceView {
        match self {
            SubPiece::Text(t) => SubPieceView::Text(t@),
            SubPiece::Var(n) => SubPieceView::Var(n@),
        }
    }
}

/// The pattern of a variable reference: `${NAME}`, with a name of capital
/// letters, digits and underscores.
pub open spec fn var_ref_pattern() -> Seq<char> {
    seq!['\\', '$', '\\', '{', '(', '?', '<', 'n', 'a', 'm', 'e', '>', '[', 'A', '-', 'Z', '0', '-', '9', '_', ']', '+', ')', '\\', '}']
}

pub open spec fn name_group() -> Seq<char> {
    seq!['n', 'a', 'm', 'e']
}

/// The text of a group, empty when it takes no part in the match.
pub open spec fn group_text(text: Seq<char>, g: Option<(nat, nat)>) -> Seq<char> {
    match g {
        Some(g) => text.subrange(g.0 as int, g.1 as int),
        None => seq![],
    }
}

/// Where the text after the matches starts.
pub open spec fn after_last(caps: Seq<CaptureSpan>) -> nat {
    if caps.len() == 0 {
        0
    } else {
        caps.last().1
    }
}

/// The pieces before and at each match: the text since the previous
/// match, then the match's name.
pub open spec fn pieces_upto(text: Seq<char>, caps: Seq<CaptureSpan>) -> Seq<SubPieceView>
    decreases caps.len(),
{
    if caps.len() == 0 {
        seq![]
    } else {
        let prev = caps.drop_last();
        pieces_upto(text, prev) + seq![
            SubPieceView::Text(text.subrange(after_last(prev) as int, caps.last().0 as int)),
            SubPieceView::Var(group_text(text, caps.last().2)),
        ]
    }
}

/// A text cut at its matches: the text before each match and the match's
/// name, then the text after the last match.
pub open spec fn cut_at(text: Seq<char>, caps: Seq<CaptureSpan>) -> Seq<SubPieceView> {
    pieces_upto(text, caps) + seq![SubPieceView::Text(text.subrange(after_last(caps) as int, text.len() as int))]
}

/// A text split at its `${NAME}` references: the texts between them, and
/// the names (the whole text, when the pattern does not compile).
pub open spec fn sub_pieces_of(text: Seq<char>) -> Seq<SubPieceView> {
    match regex_captures_of(var_ref_pattern(), name_group(), text) {
        Some(caps) => cut_at(text, caps),
        None => seq![SubPieceView::Text(text)],
    }
}

/// Split a text at its `${NAME}` references.
fn env_sub_pieces(text: &str) -> (r: Vec<SubPiece>)
    ensures
        r@.map_values(|p: SubPiece| p@) == sub_pieces_of(text@),
{
    let pattern = "\\$\\{(?<name>[A-Z0-9_]+)\\}";
    let group = "name";
    proof {
        reveal_strlit("\\$\\{(?<name>[A-Z0-9_]+)\\}");
        reveal_strlit("name");
        assert(pattern@ =~= var_ref_pattern());
        assert(group@ =~= name_group());
    }
    let cs = chars_of(text);
    let mut pieces: Vec<SubPiece> = Vec::new();
    match regex_captures(pattern, group, text) {
        None => {
            pieces.push(SubPiece::Text(text.to_owned()));
            assert(pieces@.map_values(|p: SubPiece| p@) =~= seq![SubPieceView::Text(text@)]);
        },
        Some(caps) => {
            let ghost cv = spans_view(caps@);
            let mut last: usize = 0;
            let mut i: usize = 0;
            assert(pieces@.map_values(|p: SubPiece| p@) =~= pieces_upto(text@, cv.subrange(0, 0)));
            while i < caps.len()
                invariant
                    i <= caps@.len(),
                    cs@ == text@,
                    cv == spans_view(caps@),
                    spans_in_order(text@.len(), cv),
                    last == after_last(cv.subrange(0, i as int)),
                    last <= text@.len(),
                    i > 0 ==> last == cv[i - 1].1,
                    pieces@.map_values(|p: SubPiece| p@) == pieces_upto(text@, cv.subrange(0, i as int)),
                decreases caps@.len() - i,
            {
                let (s, e, g) = caps[i];
                proof {
                    assert(cv[i as int].0 == s && cv[i as int].1 == e);
                    assert(cv.subrange(0, i + 1).drop_last() =~= cv.subrange(0, i as int));
                    assert(cv.subrange(0, i + 1).last() == cv[i as int]);
                    if i > 0 {
                        assert(cv[i - 1].1 <= cv[i as int].0);
                    }
                }
                let ghost before = pieces@.map_values(|p: SubPiece| p@);
                pieces.push(SubPiece::Text(substring(&cs, last, s)));
                let name = match g {
                    Some((a, b)) => substring(&cs, a, b),
                    None => String::new(),
                };
                pieces.push(SubPiece::Var(name));
                proof {
                    assert(group_text(text@, cv[i as int].2) == name@);
                    assert(pieces@.map_values(|p: SubPiece| p@) =~= before + seq![
                        SubPieceView::Text(text@.subrange(last as int, s as int)),
                        SubPieceView::Var(name@),
                    ]);
                }
                last = e;
                i = i + 1;
            }
            assert(cv.subrange(0, cv.len() as int) =~= cv);
            let ghost before = pieces@.map_values(|p: SubPiece| p@);
            pieces.push(SubPiece::Text(substring(&cs, last, cs.len())));
            assert(pieces@.map_values(|p: SubPiece| p@) =~= before + seq![
                SubPieceView::Text(text@.subrange(last as int, text@.len() as int)),
            ]);
        },
    }
    pieces
}

pub open spec fn opt_text(o: Option<String>) -> Option<Seq<char>> {
    match o {
        Some(s) => Some(s@),
        None => None,
    }
}

/// Variables with their values, in order; `None` for a variable that is
/// set to nothing (or, in the process environment, not valid UTF-8).
pub open spec fn vars_of(v: Seq<(String, Option<String>)>) -> Seq<(Seq<char>, Option<Seq<char>>)> {
    v.map_values(|e: (String, Option<String>)| (e.0@, opt_text(e.1)))
}

/// The first entry of a variable, if any.
pub open spec fn lookup_var(vars: Seq<(Seq<char>, Option<Seq<char>>)>, name: Seq<char>) -> Option<Option<Seq<char>>>
    decreases vars.len(),
{
    if vars.len() == 0 {
        None
    } else if vars[0].0 == name {
        Some(vars[0].1)
    } else {
        lookup_var(vars.drop_first(), name)
    }
}

/// Whether an entry is the one of a variable.
pub open spec fn named(k: Seq<char>) -> spec_fn((Seq<char>, Option<Seq<char>>)) -> bool {
    |e: (Seq<char>, Option<Seq<char>>)| e.0 == k
}

/// The ordered map after inserting an entry: an existing variable takes the
/// new value in its place, a new one is appended.
pub open spec fn index_insert(
    m: Seq<(Seq<char>, Option<Seq<char>>)>,
    k: Seq<char>,
    v: Option<Seq<char>>,
) -> Seq<(Seq<char>, Option<Seq<char>>)> {
    match crate::lock::first_where(m, named(k)) {
        Some(i) => m.update(i, (k, v)),
        None => m.push((k, v)),
    }
}

/// The ordered map after inserting each entry in turn.
pub open spec fn index_extend(
    m: Seq<(Seq<char>, Option<Seq<char>>)>,
    items: Seq<(Seq<char>, Option<Seq<char>>)>,
) -> Seq<(Seq<char>, Option<Seq<char>>)>
    decreases items.len(),
{
    if items.len() == 0 {
        m
    } else {
        let acc = index_extend(m, items.drop_last());
        index_insert(acc, items.last().0, items.last().1)
    }
}

/// The value of a `${NAME}` reference: the process's variable when it is
/// set, else the value of an earlier variable, else nothing.
pub open spec fn sub_value(name: Seq<char>, process: Seq<(Seq<char>, Option<Seq<char>>)>, vars: Seq<(Seq<char>, Option<Seq<char>>)>) -> Seq<char> {
    match lookup_var(process, name) {
        Some(Some(v)) => v,
        _ => match lookup_var(vars, name) {
            Some(Some(v)) => v,
            _ => seq![],
        },
    }
}

/// The pieces joined, with each reference replaced by its value.
pub open spec fn interpolate_pieces(
    pieces: Seq<SubPieceView>,
    process: Seq<(Seq<char>, Option<Seq<char>>)>,
    vars: Seq<(Seq<char>, Option<Seq<char>>)>,
) -> Seq<char>
    decreases pieces.len(),
{
    if pieces.len() == 0 {
        seq![]
    } else {
        interpolate_pieces(pieces.drop_last(), process, vars) + match pieces.last() {
            SubPieceView::Text(t) => t,
            SubPieceView::Var(n) => sub_value(n, process, vars),
        }
    }
}

pub open spec fn file_key() -> Seq<char> {
    seq!['f', 'i', 'l', 'e']
}

/// Whether a variable is set in the process to something.
pub open spec fn set_in_process(process: Seq<(Seq<char>, Option<Seq<char>>)>, key: Seq<char>) -> bool {
    match lookup_var(process, key) {
        Some(Some(v)) => v.len() > 0,
        _ => false,
    }
}

/// The variables to set, in order: the `file` entry is not a variable; a
/// value does not override a variable the process already sets (when the
/// process is checked); and `${NAME}` references are interpolated.
pub open spec fn resolve_vars(
    base: Seq<(Seq<char>, Option<Seq<char>>)>,
    check_process: bool,
    process: Seq<(Seq<char>, Option<Seq<char>>)>,
) -> Seq<(Seq<char>, Option<Seq<char>>)>
    decreases base.len(),
{
    if base.len() == 0 {
        seq![]
    } else {
        let vars = resolve_vars(base.drop_last(), check_process, process);
        let (key, value) = base.last();
        if key == file_key() || (check_process && set_in_process(process, key) && value is Some) {
            vars
        } else {
            index_insert(
                vars,
                key,
                match value {
                    Some(v) => Some(interpolate_pieces(sub_pieces_of(v), process, vars)),
                    None => None,
                },
            )
        }
    }
}

fn copy_opt(o: &Option<String>) -> (r: Option<String>)
    ensures
        opt_text(r) == opt_text(*o),
{
    match o {
        Some(s) => Some(s.clone()),
        None => None,
    }
}

/// The first entry of a variable, if any.
pub fn lookup(vars: &Vec<(String, Option<String>)>, name: &str) -> (r: Option<Option<String>>)
    ensures
        match (r, lookup_var(vars_of(vars@), name@)) {
            (Some(a), Some(b)) => opt_text(a) == b,
            (None, None) => true,
            _ => false,
        },
{
    let ghost vv = vars_of(vars@);
    let mut i: usize = 0;
    assert(vv.subrange(0, vv.len() as int) =~= vv);
    while i < vars.len()
        invariant
            i <= vars@.len(),
            vv == vars_of(vars@),
            lookup_var(vv, name@) == lookup_var(vv.subrange(i as int, vv.len() as int), name@),
        decreases vars@.len() - i,
    {
        let ghost rest = vv.subrange(i as int, vv.len() as int);
        assert(rest[0] == vv[i as int]);
        assert(rest.drop_first() =~= vv.subrange(i + 1, vv.len() as int));
        if str_eq(vars[i].0.as_str(), name) {
            return Some(copy_opt(&vars[i].1));
        }
        i = i + 1;
    }
    None
}

/// Insert a variable into an ordered map: an existing one takes the new
/// value in its place, a new one is appended.
pub fn index_insert_exec(m: &mut Vec<(String, Option<String>)>, k: String, v: Option<String>)
    ensures
        vars_of(final(m)@) == index_insert(vars_of(old(m)@), k@, opt_text(v)),
{
    let ghost mv = vars_of(m@);
    let ghost p = named(k@);
    let mut i: usize = 0;
    while i < m.len()
        invariant
            i <= m@.len(),
            mv == vars_of(m@),
            m@ == old(m)@,
            p == named(k@),
            forall|j: int| 0 <= j < i ==> !p(#[trigger] mv[j]),
        decreases m@.len() - i,
    {
        if str_eq(m[i].0.as_str(), k.as_str()) {
            proof {
                crate::lock::lemma_first_where(mv, p, i as int);
            }
            let ghost kv = k@;
            let ghost vv = opt_text(v);
            m.set(i, (k, v));
            assert(vars_of(m@) =~= mv.update(i as int, (kv, vv)));
            assert(crate::lock::first_where(mv, named(kv)) == Some(i as int));
            assert(vars_of(m@) == index_insert(mv, kv, vv));
            return ;
        }
        assert(!p(mv[i as int]));
        i = i + 1;
    }
    proof {
        crate::lock::lemma_first_where(mv, p, mv.len() as int);
    }
    let ghost kv = k@;
    let ghost vv = opt_text(v);
    m.push((k, v));
    assert(vars_of(m@) =~= mv.push((kv, vv)));
}

/// Insert each variable in turn.
pub fn index_extend_exec(m: &mut Vec<(String, Option<String>)>, items: &Vec<(String, Option<String>)>)
    ensures
        vars_of(final(m)@) == index_extend(vars_of(old(m)@), vars_of(items@)),
{
    let ghost start = vars_of(m@);
    let ghost iv = vars_of(items@);
    let mut i: usize = 0;
    assert(iv.subrange(0, 0) =~= Seq::<(Seq<char>, Option<Seq<char>>)>::empty());
    while i < items.len()
        invariant
            i <= items@.len(),
            iv == vars_of(items@),
            vars_of(m@) == index_extend(start, iv.subrange(0, i as int)),
        decreases items@.len() - i,
    {
        assert(iv.subrange(0, i + 1).drop_last() =~= iv.subrange(0, i as int));
        assert(iv.subrange(0, i + 1).last() == iv[i as int]);
        index_insert_exec(m, items[i].0.clone(), copy_opt(&items[i].1));
        i = i + 1;
    }
    assert(iv.subrange(0, iv.len() as int) =~= iv);
}

/// A value with its `${NAME}` references replaced.
fn interpolate(value: &str, process: &Vec<(String, Option<String>)>, vars: &Vec<(String, Option<String>)>) -> (r: String)
    ensures
        r@ == interpolate_pieces(sub_pieces_of(value@), vars_of(process@), vars_of(vars@)),
{
    let pieces = env_sub_pieces(value);
    let ghost pv = pieces@.map_values(|p: SubPiece| p@);
    let mut out = String::new();
    let mut i: usize = 0;
    assert(pv.subrange(0, 0) =~= Seq::<SubPieceView>::empty());
    while i < pieces.len()
        invariant
            i <= pieces@.len(),
            pv == pieces@.map_values(|p: SubPiece| p@),
            out@ == interpolate_pieces(pv.subrange(0, i as int), vars_of(process@), vars_of(vars@)),
        decreases pieces@.len() - i,
    {
        assert(pv.subrange(0, i + 1).drop_last() =~= pv.subrange(0, i as int));
        assert(pv.subrange(0, i + 1).last() == pieces@[i as int]@);
        match &pieces[i] {
            SubPiece::Text(t) => {
                push_str(&mut out, t.as_str());
            },
            SubPiece::Var(n) => {
                let from_process = lookup(process, n.as_str());
                match from_process {
                    Some(Some(v)) => {
                        push_str(&mut out, v.as_str());
                    },
                    _ => {
                        match lookup(vars, n.as_str()) {
                            Some(Some(v)) => {
                                push_str(&mut out, v.as_str());
                            },
                            _ => {
                                assert(out@ =~= out@ + Seq::<char>::empty());
                            },
                        }
                    },
                }
            },
        }
        i = i + 1;
    }
    assert(pv.subrange(0, pv.len() as int) =~= pv);
    out
}

/// The variables to set from the merged entries, in order.
pub fn resolve_env_vars(
    base: &Vec<(String, Option<String>)>,
    check_process: bool,
    process: &Vec<(String, Option<String>)>,
) -> (r: Vec<(String, Option<String>)>)
    ensures
        vars_of(r@) == resolve_vars(vars_of(base@), check_process, vars_of(process@)),
{
    let ghost bv = vars_of(base@);
    let mut vars: Vec<(String, Option<String>)> = Vec::new();
    let file = "file";
    proof {
        reveal_strlit("file");
        assert(file@ =~= file_key());
    }
    let mut i: usize = 0;
    assert(bv.subrange(0, 0) =~= Seq::<(Seq<char>, Option<Seq<char>>)>::empty());
    assert(vars_of(vars@) =~= Seq::<(Seq<char>, Option<Seq<char>>)>::empty());
    while i < base.len()
        invariant
            i <= base@.len(),
            bv == vars_of(base@),
            file@ == file_key(),
            vars_of(vars@) == resolve_vars(bv.subrange(0, i as int), check_process, vars_of(process@)),
        decreases base@.len() - i,
    {
        assert(bv.subrange(0, i + 1).drop_last() =~= bv.subrange(0, i as int));
        assert(bv.subrange(0, i + 1).last() == bv[i as int]);
        let key = &base[i].0;
        let value = &base[i].1;
        let exists = check_process && match lookup(process, key.as_str()) {
            Some(Some(v)) => chars_of(v.as_str()).len() > 0,
            _ => false,
        };
        if !str_eq(key.as_str(), file) && !(exists && value.is_some()) {
            let resolved = match value {
                Some(v) => Some(interpolate(v.as_str(), process, &vars)),
                None => None,
            };
            index_insert_exec(&mut vars, key.clone(), resolved);
        }
        i = i + 1;
    }
    assert(bv.subrange(0, bv.len() as int) =~= bv);
    vars
}

/// An env file of a config, with the weight that orders it among the
/// env files of all configs.
pub struct EnvFile {
    pub path: ProtoPath,
    pub weight: usize,
}

/// The variables and env files that one table of a config declares.
pub struct EnvLayer {
    pub env: Vec<(String, Option<String>)>,
    pub env_files: Vec<EnvFile>,
}

/// What a merged config declares of environment variables: its own table,
/// and those of each backend and tool (keyed by id).
pub struct ProtoConfigEnv {
    pub env: Vec<(String, Option<String>)>,
    pub env_files: Vec<EnvFile>,
    pub backends: Vec<(String, EnvLayer)>,
    pub tools: Vec<(String, EnvLayer)>,
}

/// Which variables to gather: those of a tool (and its backend), those
/// shared by all tools, and whether variables the process already sets win.
pub struct ProtoConfigEnvOptions {
    pub context: Option<ToolContext>,
    pub check_process: bool,
    pub include_shared: bool,
}

pub open spec fn files_view(v: Seq<EnvFile>) -> Seq<(PathView, usize)> {
    v.map_values(|f: EnvFile| (f.path@, f.weight))
}

/// The abstract form of a table.
pub struct EnvLayerView {
    pub env: Seq<(Seq<char>, Option<Seq<char>>)>,
    pub files: Seq<(PathView, usize)>,
}

pub open spec fn layer_view(l: EnvLayer) -> EnvLayerView {
    EnvLayerView { env: vars_of(l.env@), files: files_view(l.env_files@) }
}

pub open spec fn layers_view(v: Seq<(String, EnvLayer)>) -> Seq<(Seq<char>, EnvLayerView)> {
    v.map_values(|e: (String, EnvLayer)| (e.0@, layer_view(e.1)))
}

/// The first table of a key.
pub open spec fn layer_at(layers: Seq<(Seq<char>, EnvLayerView)>, key: Seq<char>) -> Option<EnvLayerView>
    decreases layers.len(),
{
    if layers.len() == 0 {
        None
    } else if layers[0].0 == key {
        Some(layers[0].1)
    } else {
        layer_at(layers.drop_first(), key)
    }
}

/// The table of a tool's backend.
pub open spec fn backend_layer(backends: Seq<(Seq<char>, EnvLayerView)>, c: ContextView) -> Option<EnvLayerView> {
    match c.backend {
        Some(b) => layer_at(backends, b),
        None => None,
    }
}

/// The table of a tool: keyed by its full context (`backend:id`), or, for
/// a backend-managed tool, by its id alone as a fallback.
pub open spec fn tool_layer(tools: Seq<(Seq<char>, EnvLayerView)>, c: ContextView) -> Option<EnvLayerView> {
    match layer_at(tools, context_text(c)) {
        Some(l) => Some(l),
        None => if c.backend is Some {
            layer_at(tools, c.id)
        } else {
            None
        },
    }
}

fn find_layer<'a>(layers: &'a Vec<(String, EnvLayer)>, key: &str) -> (r: Option<&'a EnvLayer>)
    ensures
        match (r, layer_at(layers_view(layers@), key@)) {
            (Some(l), Some(v)) => layer_view(*l) == v,
            (None, None) => true,
            _ => false,
        },
{
    let ghost lv = layers_view(layers@);
    let mut i: usize = 0;
    assert(lv.subrange(0, lv.len() as int) =~= lv);
    while i < layers.len()
        invariant
            i <= layers@.len(),
            lv == layers_view(layers@),
            layer_at(lv, key@) == layer_at(lv.subrange(i as int, lv.len() as int), key@),
        decreases layers@.len() - i,
    {
        let ghost rest = lv.subrange(i as int, lv.len() as int);
        assert(rest[0] == lv[i as int]);
        assert(rest.drop_first() =~= lv.subrange(i + 1, lv.len() as int));
        if str_eq(layers[i].0.as_str(), key) {
            return Some(&layers[i].1);
        }
        i = i + 1;
    }
    None
}

/// The files with `x` inserted after every file that does not weigh more.
pub open spec fn insert_by_weight(sorted: Seq<(PathView, usize)>, x: (PathView, usize)) -> Seq<(PathView, usize)>
    decreases sorted.len(),
{
    if sorted.len() == 0 {
        seq![x]
    } else if x.1 < sorted.last().1 {
        insert_by_weight(sorted.drop_last(), x).push(sorted.last())
    } else {
        sorted.push(x)
    }
}

/// The files stably sorted by weight.
pub open spec fn sorted_by_weight(s: Seq<(PathView, usize)>) -> Seq<(PathView, usize)>
    decreases s.len(),
{
    if s.len() == 0 {
        seq![]
    } else {
        insert_by_weight(sorted_by_weight(s.drop_last()), s.last())
    }
}

proof fn lemma_insert_by_weight(sorted: Seq<(PathView, usize)>, x: (PathView, usize), k: int)
    requires
        0 <= k <= sorted.len(),
        forall|j: int| k <= j < sorted.len() ==> x.1 < #[trigger] sorted[j].1,
        k > 0 ==> !(x.1 < sorted[k - 1].1),
    ensures
        insert_by_weight(sorted, x) == sorted.insert(k, x),
    decreases sorted.len() - k,
{
    if k < sorted.len() {
        let init = sorted.drop_last();
        assert forall|j: int| k <= j < init.len() implies x.1 < #[trigger] init[j].1 by {
            assert(init[j] == sorted[j]);
        }
        if k > 0 {
            assert(init[k - 1] == sorted[k - 1]);
        }
        assert(x.1 < sorted[sorted.len() - 1].1);
        lemma_insert_by_weight(init, x, k);
        assert(init.insert(k, x).push(sorted.last()) =~= sorted.insert(k, x));
    } else {
        assert(sorted.push(x) =~= sorted.insert(k, x));
    }
}

fn insert_file(out: &mut Vec<(ProtoPath, usize)>, x: (ProtoPath, usize))
    ensures
        pairs_of(final(out)@) == insert_by_weight(pairs_of(old(out)@), (x.0@, x.1)),
{
    let ghost lv = pairs_of(out@);
    let mut k: usize = out.len();
    while k > 0 && x.1 < out[k - 1].1
        invariant
            k <= out@.len(),
            lv == pairs_of(out@),
            forall|j: int| k <= j < lv.len() ==> x.1 < #[trigger] lv[j].1,
        decreases k,
    {
        assert(lv[k - 1].1 == out@[k - 1].1);
        k = k - 1;
    }
    proof {
        if k > 0 {
            assert(lv[k - 1].1 == out@[k - 1].1);
        }
        lemma_insert_by_weight(lv, (x.0@, x.1), k as int);
    }
    let ghost xv = (x.0@, x.1);
    out.insert(k, x);
    assert(pairs_of(out@) =~= lv.insert(k as int, xv));
}

pub open spec fn pairs_of(v: Seq<(ProtoPath, usize)>) -> Seq<(PathView, usize)> {
    v.map_values(|e: (ProtoPath, usize)| (e.0@, e.1))
}

/// The env files that apply, before sorting: the shared ones (when
/// included), then those of the tool's backend and of the tool.
pub open spec fn env_files_of(
    shared: Seq<(PathView, usize)>,
    backends: Seq<(Seq<char>, EnvLayerView)>,
    tools: Seq<(Seq<char>, EnvLayerView)>,
    context: Option<ContextView>,
    include_shared: bool,
) -> Seq<(PathView, usize)> {
    (if include_shared {
        shared
    } else {
        seq![]
    }) + match context {
        Some(c) => (match backend_layer(backends, c) {
            Some(l) => l.files,
            None => seq![],
        }) + match tool_layer(tools, c) {
            Some(l) => l.files,
            None => seq![],
        },
        None => seq![],
    }
}

/// The variables declared in the tables that apply, merged in order: the
/// env files' variables, the shared table (when included), then the tables
/// of the tool's backend and of the tool.
pub open spec fn merged_vars(
    file_vars: Seq<(Seq<char>, Option<Seq<char>>)>,
    shared: Seq<(Seq<char>, Option<Seq<char>>)>,
    backends: Seq<(Seq<char>, EnvLayerView)>,
    tools: Seq<(Seq<char>, EnvLayerView)>,
    context: Option<ContextView>,
    include_shared: bool,
) -> Seq<(Seq<char>, Option<Seq<char>>)> {
    let a = index_extend(seq![], file_vars);
    let b = if include_shared {
        index_extend(a, shared)
    } else {
        a
    };
    match context {
        Some(c) => {
            let d = match backend_layer(backends, c) {
                Some(l) => index_extend(b, l.env),
                None => b,
            };
            match tool_layer(tools, c) {
                Some(l) => index_extend(d, l.env),
                None => d,
            }
        },
        None => b,
    }
}

pub open spec fn opt_context(o: Option<ToolContext>) -> Option<ContextView> {
    match o {
        Some(c) => Some(c@),
        None => None,
    }
}

fn append_files(out: &mut Vec<(ProtoPath, usize)>, files: &Vec<EnvFile>)
    ensures
        pairs_of(final(out)@) == pairs_of(old(out)@) + files_view(files@),
{
    let ghost start = pairs_of(out@);
    let mut i: usize = 0;
    while i < files.len()
        invariant
            i <= files@.len(),
            pairs_of(out@) == start + files_view(files@).subrange(0, i as int),
        decreases files@.len() - i,
    {
        let ghost before = pairs_of(out@);
        out.push((files[i].path.copy(), files[i].weight));
        assert(pairs_of(out@) =~= before.push((files@[i as int].path@, files@[i as int].weight)));
        assert(files_view(files@).subrange(0, i + 1) =~= files_view(files@).subrange(0, i as int).push(
            (files@[i as int].path@, files@[i as int].weight),
        ));
        i = i + 1;
    }
    assert(files_view(files@).subrange(0, files@.len() as int) =~= files_view(files@));
}

fn paths_only(sorted: &Vec<(ProtoPath, usize)>) -> (r: Vec<ProtoPath>)
    ensures
        r@.map_values(|p: ProtoPath| p@) == pairs_of(sorted@).map_values(|e: (PathView, usize)| e.0),
{
    let mut out: Vec<ProtoPath> = Vec::new();
    let mut j: usize = 0;
    while j < sorted.len()
        invariant
            j <= sorted@.len(),
            out@.len() == j,
            forall|k: int| 0 <= k < j ==> #[trigger] out@[k]@ == sorted@[k].0@,
        decreases sorted@.len() - j,
    {
        out.push(sorted[j].0.copy());
        j = j + 1;
    }
    assert(out@.map_values(|p: ProtoPath| p@) =~= pairs_of(sorted@).map_values(|e: (PathView, usize)| e.0));
    out
}

impl ProtoConfigEnv {
    /// The table of a tool's backend.
    pub fn get_backend_config(&self, context: &ToolContext) -> (r: Option<&EnvLayer>)
        ensures
            match (r, backend_layer(layers_view(self.backends@), context@)) {
                (Some(l), Some(v)) => layer_view(*l) == v,
                (None, None) => true,
                _ => false,
            },
    {
        match &context.backend {
            Some(b) => find_layer(&self.backends, b.as_str()),
            None => None,
        }
    }

    /// The table of a tool.
    pub fn get_tool_config(&self, context: &ToolContext) -> (r: Option<&EnvLayer>)
        ensures
            match (r, tool_layer(layers_view(self.tools@), context@)) {
                (Some(l), Some(v)) => layer_view(*l) == v,
                (None, None) => true,
                _ => false,
            },
    {
        let full = context.as_text();
        match find_layer(&self.tools, full.as_str()) {
            Some(l) => Some(l),
            None => {
                if context.backend.is_some() {
                    find_layer(&self.tools, context.id.as_str())
                } else {
                    None
                }
            },
        }
    }

    /// The env files that apply, in the order of their weights (files of
    /// equal weight keep their order).
    pub fn get_env_files(&self, options: &ProtoConfigEnvOptions) -> (r: Vec<ProtoPath>)
        ensures
            r@.map_values(|p: ProtoPath| p@) == sorted_by_weight(
                env_files_of(
                    files_view(self.env_files@),
                    layers_view(self.backends@),
                    layers_view(self.tools@),
                    opt_context(options.context),
                    options.include_shared,
                ),
            ).map_values(|e: (PathView, usize)| e.0),
    {
        let mut all: Vec<(ProtoPath, usize)> = Vec::new();
        if options.include_shared {
            append_files(&mut all, &self.env_files);
        }
        if let Some(c) = &options.context {
            if let Some(l) = self.get_backend_config(c) {
                append_files(&mut all, &l.env_files);
            }
            if let Some(l) = self.get_tool_config(c) {
                append_files(&mut all, &l.env_files);
            }
        }
        let ghost want = env_files_of(
            files_view(self.env_files@),
            layers_view(self.backends@),
            layers_view(self.tools@),
            opt_context(options.context),
            options.include_shared,
        );
        assert(pairs_of(all@) =~= want);
        let mut sorted: Vec<(ProtoPath, usize)> = Vec::new();
        let mut i: usize = 0;
        assert(want.subrange(0, 0) =~= Seq::<(PathView, usize)>::empty());
        while i < all.len()
            invariant
                i <= all@.len(),
                pairs_of(all@) == want,
                pairs_of(sorted@) == sorted_by_weight(want.subrange(0, i as int)),
            decreases all@.len() - i,
        {
            assert(want.subrange(0, i + 1).drop_last() =~= want.subrange(0, i as int));
            assert(want.subrange(0, i + 1).last() == want[i as int]);
            insert_file(&mut sorted, (all[i].0.copy(), all[i].1));
            i = i + 1;
        }
        assert(want.subrange(0, want.len() as int) =~= want);
        paths_only(&sorted)
    }

    /// The variables to set for the options, in order. `file_vars` are the
    /// variables read from the env files that apply, in order, and
    /// `process` the process's variables.
    pub fn get_env_vars(
        &self,
        options: &ProtoConfigEnvOptions,
        file_vars: &Vec<(String, Option<String>)>,
        process: &Vec<(String, Option<String>)>,
    ) -> (r: Vec<(String, Option<String>)>)
        ensures
            vars_of(r@) == resolve_vars(
                merged_vars(
                    vars_of(file_vars@),
                    vars_of(self.env@),
                    layers_view(self.backends@),
                    layers_view(self.tools@),
                    opt_context(options.context),
                    options.include_shared,
                ),
                options.check_process,
                vars_of(process@),
            ),
    {
        let mut base: Vec<(String, Option<String>)> = Vec::new();
        assert(vars_of(base@) =~= Seq::<(Seq<char>, Option<Seq<char>>)>::empty());
        index_extend_exec(&mut base, file_vars);
        if options.include_shared {
            index_extend_exec(&mut base, &self.env);
        }
        if let Some(c) = &options.context {
            if let Some(l) = self.get_backend_config(c) {
                index_extend_exec(&mut base, &l.env);
            }
            if let Some(l) = self.get_tool_config(c) {
                index_extend_exec(&mut base, &l.env);
            }
        }
        resolve_env_vars(&base, options.check_process, process)
    }
}

/// Which builtin plugins a config allows: all or none, or those listed.
pub enum BuiltinPlugins {
    Enabled(bool),
    Allowed(Vec<String>),
}

/// Whether the builtin plugin of an id is allowed.
pub open spec fn builtin_allowed(enabled: Option<bool>, allowed: Seq<Seq<char>>, id: Seq<char>) -> bool {
    match enabled {
        Some(state) => state,
        None => allowed.contains(id),
    }
}

impl BuiltinPlugins {
    pub open spec fn enabled_view(&self) -> Option<bool> {
        match self {
            BuiltinPlugins::Enabled(b) => Some(*b),
            BuiltinPlugins::Allowed(_) => None,
        }
    }

    pub open spec fn allowed_view(&self) -> Seq<Seq<char>> {
        match self {
            BuiltinPlugins::Enabled(_) => seq![],
            BuiltinPlugins::Allowed(v) => v@.map_values(|s: String| s@),
        }
    }

    /// Whether the builtin plugin of an id is allowed.
    pub fn is_allowed(&self, id: &str) -> (r: bool)
        ensures
            r == builtin_allowed(self.enabled_view(), self.allowed_view(), id@),
    {
        match self {
            BuiltinPlugins::Enabled(state) => *state,
            BuiltinPlugins::Allowed(list) => {
                let ghost lv = list@.map_values(|s: String| s@);
                let mut i: usize = 0;
                while i < list.len()
                    invariant
                        i <= list@.len(),
                        lv == list@.map_values(|s: String| s@),
                        lv == self.allowed_view(),
                        self.enabled_view() is None,
                        forall|j: int| 0 <= j < i ==> lv[j] != id@,
                    decreases list@.len() - i,
                {
                    if str_eq(list[i].as_str(), id) {
                        assert(lv[i as int] == id@);
                        assert(lv.contains(id@));
                        return true;
                    }
                    i = i + 1;
                }
                assert(!lv.contains(id@)) by {
                    if lv.contains(id@) {
                        let k = choose|k: int| 0 <= k < lv.len() && lv[k] == id@;
                        assert(lv[k] != id@);
                    }
                }
                false
            },
        }
    }
}

/// A builtin plugin: the id it is registered under (as a backend or a
/// tool), the plugin and version it is fetched as, and whether the config
/// must allow it.
pub struct Builtin {
    pub backend: bool,
    pub id: String,
    pub plugin: String,
    pub version: String,
    pub gated: bool,
}

/// The abstract form of a builtin plugin.
#[verifier::ext_equal]
pub struct BuiltinView {
    pub backend: bool,
    pub id: Seq<char>,
    pub plugin: Seq<char>,
    pub version: Seq<char>,
    pub gated: bool,
}

impl View for Builtin {
    type V = BuiltinView;

    open spec fn view(&self) -> BuiltinView {
        BuiltinView { backend: self.backend, id: self.id@, plugin: self.plugin@, version: self.version@, gated: self.gated }
    }
}

/// The builtin plugins, in the order they are inherited.
pub open spec fn builtin_table() -> Seq<BuiltinView> {
    seq![
        BuiltinView { backend: true, id: seq!['a', 's', 'd', 'f'], plugin: seq!['a', 's', 'd', 'f', '_', 'b', 'a', 'c', 'k', 'e', 'n', 'd'], version: seq!['0', '.', '3', '.', '2'], gated: true },
        BuiltinView { backend: false, id: seq!['b', 'u', 'n'], plugin: seq!['b', 'u', 'n', '_', 't', 'o', 'o', 'l'], version: seq!['0', '.', '1', '6', '.', '4'], gated: true },
        BuiltinView { backend: false, id: seq!['d', 'e', 'n', 'o'], plugin: seq!['d', 'e', 'n', 'o', '_', 't', 'o', 'o', 'l'], version: seq!['0', '.', '1', '5', '.', '7'], gated: true },
        BuiltinView { backend: false, id: seq!['g', 'o'], plugin: seq!['g', 'o', '_', 't', 'o', 'o', 'l'], version: seq!['0', '.', '1', '6', '.', '5'], gated: true },
        BuiltinView { backend: false, id: seq!['m', 'o', 'o', 'n'], plugin: seq!['m', 'o', 'o', 'n', '_', 't', 'o', 'o', 'l'], version: seq!['0', '.', '4', '.', '0'], gated: true },
        BuiltinView { backend: false, id: seq!['n', 'o', 'd', 'e'], plugin: seq!['n', 'o', 'd', 'e', '_', 't', 'o', 'o', 'l'], version: seq!['0', '.', '1', '7', '.', '5'], gated: true },
        BuiltinView { backend: false, id: seq!['n', 'p', 'm'], plugin: seq!['n', 'o', 'd', 'e', '_', 'd', 'e', 'p', 'm', 'a', 'n', '_', 't', 'o', 'o', 'l'], version: seq!['0', '.', '1', '7', '.', '1'], gated: true },
        BuiltinView { backend: false, id: seq!['p', 'n', 'p', 'm'], plugin: seq!['n', 'o', 'd', 'e', '_', 'd', 'e', 'p', 'm', 'a', 'n', '_', 't', 'o', 'o', 'l'], version: seq!['0', '.', '1', '7', '.', '1'], gated: true },
        BuiltinView { backend: false, id: seq!['y', 'a', 'r', 'n'], plugin: seq!['n', 'o', 'd', 'e', '_', 'd', 'e', 'p', 'm', 'a', 'n', '_', 't', 'o', 'o', 'l'], version: seq!['0', '.', '1', '7', '.', '1'], gated: true },
        BuiltinView { backend: false, id: seq!['p', 'o', 'e', 't', 'r', 'y'], plugin: seq!['p', 'y', 't', 'h', 'o', 'n', '_', 'p', 'o', 'e', 't', 'r', 'y', '_', 't', 'o', 'o', 'l'], version: seq!['0', '.', '1', '.', '5'], gated: true },
        BuiltinView { backend: false, id: seq!['p', 'y', 't', 'h', 'o', 'n'], plugin: seq!['p', 'y', 't', 'h', 'o', 'n', '_', 't', 'o', 'o', 'l'], version: seq!['0', '.', '1', '4', '.', '5'], gated: true },
        BuiltinView { backend: false, id: seq!['u', 'v'], plugin: seq!['p', 'y', 't', 'h', 'o', 'n', '_', 'u', 'v', '_', 't', 'o', 'o', 'l'], version: seq!['0', '.', '3', '.', '1'], gated: true },
        BuiltinView { backend: false, id: seq!['r', 'u', 'b', 'y'], plugin: seq!['r', 'u', 'b', 'y', '_', 't', 'o', 'o', 'l'], version: seq!['0', '.', '2', '.', '5'], gated: true },
        BuiltinView { backend: false, id: seq!['r', 'u', 's', 't'], plugin: seq!['r', 'u', 's', 't', '_', 't', 'o', 'o', 'l'], version: seq!['0', '.', '1', '3', '.', '7'], gated: true },
        BuiltinView { backend: false, id: seq!['i', 'n', 't', 'e', 'r', 'n', 'a', 'l', '-', 's', 'c', 'h', 'e', 'm', 'a'], plugin: seq!['s', 'c', 'h', 'e', 'm', 'a', '_', 't', 'o', 'o', 'l'], version: seq!['0', '.', '1', '7', '.', '7'], gated: false },
        BuiltinView { backend: false, id: seq!['p', 'r', 'o', 't', 'o'], plugin: seq!['p', 'r', 'o', 't', 'o', '_', 't', 'o', 'o', 'l'], version: seq!['0', '.', '5', '.', '5'], gated: false }
    ]
}

/// The builtin plugins, in the order they are inherited.
pub fn builtin_plugin_table() -> (r: Vec<Builtin>)
    ensures
        r@.map_values(|b: Builtin| b@) == builtin_table(),
{
    proof {
        reveal_strlit("0.1.5");
        reveal_strlit("0.13.7");
        reveal_strlit("0.14.5");
        reveal_strlit("0.15.7");
        reveal_strlit("0.16.4");
        reveal_strlit("0.16.5");
        reveal_strlit("0.17.1");
        reveal_strlit("0.17.5");
        reveal_strlit("0.17.7");
        reveal_strlit("0.2.5");
        reveal_strlit("0.3.1");
        reveal_strlit("0.3.2");
        reveal_strlit("0.4.0");
        reveal_strlit("0.5.5");
        reveal_strlit("asdf");
        reveal_strlit("asdf_backend");
        reveal_strlit("bun");
        reveal_strlit("bun_tool");
        reveal_strlit("deno");
        reveal_strlit("deno_tool");
        reveal_strlit("go");
        reveal_strlit("go_tool");
        reveal_strlit("internal-schema");
        reveal_strlit("moon");
        reveal_strlit("moon_tool");
        reveal_strlit("node");
        reveal_strlit("node_depman_tool");
        reveal_strlit("node_tool");
        reveal_strlit("npm");
        reveal_strlit("pnpm");
        reveal_strlit("poetry");
        reveal_strlit("proto");
        reveal_strlit("proto_tool");
        reveal_strlit("python");
        reveal_strlit("python_poetry_tool");
        reveal_strlit("python_tool");
        reveal_strlit("python_uv_tool");
        reveal_strlit("ruby");
        reveal_strlit("ruby_tool");
        reveal_strlit("rust");
        reveal_strlit("rust_tool");
        reveal_strlit("schema_tool");
        reveal_strlit("uv");
        reveal_strlit("yarn");
    }
    let mut table: Vec<Builtin> = Vec::new();
    table.push(Builtin { backend: true, id: "asdf".to_owned(), plugin: "asdf_backend".to_owned(), version: "0.3.2".to_owned(), gated: true });
    table.push(Builtin { backend: false, id: "bun".to_owned(), plugin: "bun_tool".to_owned(), version: "0.16.4".to_owned(), gated: true });
    table.push(Builtin { backend: false, id: "deno".to_owned(), plugin: "deno_tool".to_owned(), version: "0.15.7".to_owned(), gated: true });
    table.push(Builtin { backend: false, id: "go".to_owned(), plugin: "go_tool".to_owned(), version: "0.16.5".to_owned(), gated: true });
    table.push(Builtin { backend: false, id: "moon".to_owned(), plugin: "moon_tool".to_owned(), version: "0.4.0".to_owned(), gated: true });
    table.push(Builtin { backend: false, id: "node".to_owned(), plugin: "node_tool".to_owned(), version: "0.17.5".to_owned(), gated: true });
    table.push(Builtin { backend: false, id: "npm".to_owned(), plugin: "node_depman_tool".to_owned(), version: "0.17.1".to_owned(), gated: true });
    table.push(Builtin { backend: false, id: "pnpm".to_owned(), plugin: "node_depman_tool".to_owned(), version: "0.17.1".to_owned(), gated: true });
    table.push(Builtin { backend: false, id: "yarn".to_owned(), plugin: "node_depman_tool".to_owned(), version: "0.17.1".to_owned(), gated: true });
    table.push(Builtin { backend: false, id: "poetry".to_owned(), plugin: "python_poetry_tool".to_owned(), version: "0.1.5".to_owned(), gated: true });
    table.push(Builtin { backend: false, id: "python".to_owned(), plugin: "python_tool".to_owned(), version: "0.14.5".to_owned(), gated: true });
    table.push(Builtin { backend: false, id: "uv".to_owned(), plugin: "python_uv_tool".to_owned(), version: "0.3.1".to_owned(), gated: true });
    table.push(Builtin { backend: false, id: "ruby".to_owned(), plugin: "ruby_tool".to_owned(), version: "0.2.5".to_owned(), gated: true });
    table.push(Builtin { backend: false, id: "rust".to_owned(), plugin: "rust_tool".to_owned(), version: "0.13.7".to_owned(), gated: true });
    table.push(Builtin { backend: false, id: "internal-schema".to_owned(), plugin: "schema_tool".to_owned(), version: "0.17.7".to_owned(), gated: false });
    table.push(Builtin { backend: false, id: "proto".to_owned(), plugin: "proto_tool".to_owned(), version: "0.5.5".to_owned(), gated: false });
    assert(table@.map_values(|b: Builtin| b@) =~~= builtin_table());
    table
}

/// Where a plugin of a config comes from: a builtin plugin (by name and
/// version), or what the config itself names.
pub enum PluginSource {
    Builtin { plugin: String, version: String },
    Configured(String),
}

/// The abstract form of a plugin source.
pub enum PluginSourceView {
    Builtin { plugin: Seq<char>, version: Seq<char> },
    Configured(Seq<char>),
}

impl View for PluginSource {
    type V = PluginSourceView;

    open spec fn view(&self) -> PluginSourceView {
        match self {
            PluginSource::Builtin { plugin, version } => PluginSourceView::Builtin { plugin: plugin@, version: version@ },
            PluginSource::Configured(c) => PluginSourceView::Configured(c@),
        }
    }
}

pub open spec fn sources_view(v: Seq<(String, PluginSource)>) -> Seq<(Seq<char>, PluginSourceView)> {
    v.map_values(|e: (String, PluginSource)| (e.0@, e.1@))
}

/// The backend and tool plugins of a config, keyed by id.
pub struct ProtoPluginsConfig {
    pub backends: Vec<(String, PluginSource)>,
    pub tools: Vec<(String, PluginSource)>,
}

pub open spec fn has_key(v: Seq<(Seq<char>, PluginSourceView)>, k: Seq<char>) -> bool {
    exists|i: int| 0 <= i < v.len() && #[trigger] v[i].0 == k
}

/// The plugins after inheriting the builtin ones in turn: a builtin plugin
/// is added under its id unless the config already names one, and, for a
/// gated one, only when the config allows it.
pub open spec fn inherit_spec(
    backends: Seq<(Seq<char>, PluginSourceView)>,
    tools: Seq<(Seq<char>, PluginSourceView)>,
    table: Seq<BuiltinView>,
    enabled: Option<bool>,
    allowed: Seq<Seq<char>>,
) -> (Seq<(Seq<char>, PluginSourceView)>, Seq<(Seq<char>, PluginSourceView)>)
    decreases table.len(),
{
    if table.len() == 0 {
        (backends, tools)
    } else {
        let (b, t) = inherit_spec(backends, tools, table.drop_last(), enabled, allowed);
        let e = table.last();
        let src = PluginSourceView::Builtin { plugin: e.plugin, version: e.version };
        let ok = !e.gated || builtin_allowed(enabled, allowed, e.id);
        if e.backend {
            if !has_key(b, e.id) && ok {
                (b.push((e.id, src)), t)
            } else {
                (b, t)
            }
        } else {
            if !has_key(t, e.id) && ok {
                (b, t.push((e.id, src)))
            } else {
                (b, t)
            }
        }
    }
}

/// Whether a builtin entry is let in by the setting.
pub open spec fn entry_ok(e: BuiltinView, enabled: Option<bool>, allowed: Seq<Seq<char>>) -> bool {
    !e.gated || builtin_allowed(enabled, allowed, e.id)
}

/// The list (backends or tools) that an entry goes to.
pub open spec fn list_for(
    lists: (Seq<(Seq<char>, PluginSourceView)>, Seq<(Seq<char>, PluginSourceView)>),
    e: BuiltinView,
) -> Seq<(Seq<char>, PluginSourceView)> {
    if e.backend { lists.0 } else { lists.1 }
}

proof fn lemma_push_keeps_key(
    v: Seq<(Seq<char>, PluginSourceView)>,
    x: (Seq<char>, PluginSourceView),
    k: Seq<char>,
)
    requires
        has_key(v, k),
    ensures
        has_key(v.push(x), k),
{
    let i = choose|i: int| 0 <= i < v.len() && #[trigger] v[i].0 == k;
    assert(v.push(x)[i].0 == k);
}

proof fn lemma_inherit_keeps_keys(
    backends: Seq<(Seq<char>, PluginSourceView)>,
    tools: Seq<(Seq<char>, PluginSourceView)>,
    table: Seq<BuiltinView>,
    enabled: Option<bool>,
    allowed: Seq<Seq<char>>,
    k: Seq<char>,
)
    ensures
        has_key(backends, k) ==> has_key(inherit_spec(backends, tools, table, enabled, allowed).0, k),
        has_key(tools, k) ==> has_key(inherit_spec(backends, tools, table, enabled, allowed).1, k),
    decreases table.len(),
{
    if table.len() > 0 {
        lemma_inherit_keeps_keys(backends, tools, table.drop_last(), enabled, allowed, k);
        let (b, t) = inherit_spec(backends, tools, table.drop_last(), enabled, allowed);
        let e = table.last();
        let src = PluginSourceView::Builtin { plugin: e.plugin, version: e.version };
        if has_key(b, k) {
            lemma_push_keeps_key(b, (e.id, src), k);
        }
        if has_key(t, k) {
            lemma_push_keeps_key(t, (e.id, src), k);
        }
    }
}

proof fn lemma_inherit_covers_table(
    backends: Seq<(Seq<char>, PluginSourceView)>,
    tools: Seq<(Seq<char>, PluginSourceView)>,
    table: Seq<BuiltinView>,
    enabled: Option<bool>,
    allowed: Seq<Seq<char>>,
)
    ensures
        forall|j: int|
            0 <= j < table.len() && entry_ok(#[trigger] table[j], enabled, allowed) ==> has_key(
                list_for(inherit_spec(backends, tools, table, enabled, allowed), table[j]),
                table[j].id,
            ),
    decreases table.len(),
{
    if table.len() > 0 {
        let prev = table.drop_last();
        lemma_inherit_covers_table(backends, tools, prev, enabled, allowed);
        let (b, t) = inherit_spec(backends, tools, prev, enabled, allowed);
        let r = inherit_spec(backends, tools, table, enabled, allowed);
        let e = table.last();
        let src = PluginSourceView::Builtin { plugin: e.plugin, version: e.version };
        assert forall|j: int|
            0 <= j < table.len() && entry_ok(#[trigger] table[j], enabled, allowed) implies has_key(
                list_for(r, table[j]),
                table[j].id,
            ) by {
            if j < table.len() - 1 {
                assert(prev[j] == table[j]);
                let k = table[j].id;
                if has_key(b, k) {
                    lemma_push_keeps_key(b, (e.id, src), k);
                }
                if has_key(t, k) {
                    lemma_push_keeps_key(t, (e.id, src), k);
                }
            } else {
                if e.backend {
                    if !has_key(b, e.id) {
                        assert(r.0[b.len() as int].0 == e.id);
                    }
                } else {
                    if !has_key(t, e.id) {
                        assert(r.1[t.len() as int].0 == e.id);
                    }
                }
            }
        }
    }
}

proof fn lemma_inherit_covered_unchanged(
    backends: Seq<(Seq<char>, PluginSourceView)>,
    tools: Seq<(Seq<char>, PluginSourceView)>,
    table: Seq<BuiltinView>,
    enabled: Option<bool>,
    allowed: Seq<Seq<char>>,
)
    requires
        forall|j: int|
            0 <= j < table.len() && entry_ok(#[trigger] table[j], enabled, allowed) ==> has_key(
                list_for((backends, tools), table[j]),
                table[j].id,
            ),
    ensures
        inherit_spec(backends, tools, table, enabled, allowed) == (backends, tools),
    decreases table.len(),
{
    if table.len() > 0 {
        let prev = table.drop_last();
        assert forall|j: int|
            0 <= j < prev.len() && entry_ok(#[trigger] prev[j], enabled, allowed) implies has_key(
                list_for((backends, tools), prev[j]),
                prev[j].id,
            ) by {
            assert(prev[j] == table[j]);
        }
        lemma_inherit_covered_unchanged(backends, tools, prev, enabled, allowed);
        let e = table.last();
        assert(table[table.len() - 1] == e);
    }
}

/// Inheriting the builtin plugins a second time changes nothing: what the
/// first pass let in is there, and what it left out is still left out.
pub proof fn lemma_inherit_builtins_idempotent(
    backends: Seq<(Seq<char>, PluginSourceView)>,
    tools: Seq<(Seq<char>, PluginSourceView)>,
    setting: BuiltinPlugins,
)
    ensures
        ({
            let once = inherit_spec(
                backends,
                tools,
                builtin_table(),
                setting.enabled_view(),
                setting.allowed_view(),
            );
            inherit_spec(once.0, once.1, builtin_table(), setting.enabled_view(), setting.allowed_view())
                == once
        }),
{
    let table = builtin_table();
    let en = setting.enabled_view();
    let al = setting.allowed_view();
    let once = inherit_spec(backends, tools, table, en, al);
    lemma_inherit_covers_table(backends, tools, table, en, al);
    assert forall|j: int|
        0 <= j < table.len() && entry_ok(#[trigger] table[j], en, al) implies has_key(
            list_for((once.0, once.1), table[j]),
            table[j].id,
        ) by {
        assert((once.0, once.1) == once);
    }
    lemma_inherit_covered_unchanged(once.0, once.1, table, en, al);
}

/// Whether a builtin entry of the table, let in by the setting, goes to the
/// backends (or the tools) under the key.
pub open spec fn table_offers(
    table: Seq<BuiltinView>,
    backend: bool,
    k: Seq<char>,
    enabled: Option<bool>,
    allowed: Seq<Seq<char>>,
) -> bool {
    exists|j: int|
        0 <= j < table.len() && (#[trigger] table[j]).backend == backend && table[j].id == k && entry_ok(
            table[j],
            enabled,
            allowed,
        )
}

proof fn lemma_inherit_extends(
    backends: Seq<(Seq<char>, PluginSourceView)>,
    tools: Seq<(Seq<char>, PluginSourceView)>,
    table: Seq<BuiltinView>,
    enabled: Option<bool>,
    allowed: Seq<Seq<char>>,
)
    ensures
        ({
            let r = inherit_spec(backends, tools, table, enabled, allowed);
            &&& r.0.len() >= backends.len()
            &&& r.0.subrange(0, backends.len() as int) == backends
            &&& r.1.len() >= tools.len()
            &&& r.1.subrange(0, tools.len() as int) == tools
        }),
    decreases table.len(),
{
    let r = inherit_spec(backends, tools, table, enabled, allowed);
    if table.len() == 0 {
        assert(backends.subrange(0, backends.len() as int) =~= backends);
        assert(tools.subrange(0, tools.len() as int) =~= tools);
    } else {
        let prev = table.drop_last();
        lemma_inherit_extends(backends, tools, prev, enabled, allowed);
        let (b, t) = inherit_spec(backends, tools, prev, enabled, allowed);
        let e = table.last();
        let src = PluginSourceView::Builtin { plugin: e.plugin, version: e.version };
        assert(r.0 == b || r.0 == b.push((e.id, src)));
        assert(r.1 == t || r.1 == t.push((e.id, src)));
        assert(r.0.subrange(0, backends.len() as int) =~= b.subrange(0, backends.len() as int));
        assert(r.1.subrange(0, tools.len() as int) =~= t.subrange(0, tools.len() as int));
    }
}

proof fn lemma_inherit_key(
    backends: Seq<(Seq<char>, PluginSourceView)>,
    tools: Seq<(Seq<char>, PluginSourceView)>,
    table: Seq<BuiltinView>,
    enabled: Option<bool>,
    allowed: Seq<Seq<char>>,
    k: Seq<char>,
)
    ensures
        has_key(inherit_spec(backends, tools, table, enabled, allowed).0, k) <==> (has_key(backends, k)
            || table_offers(table, true, k, enabled, allowed)),
        has_key(inherit_spec(backends, tools, table, enabled, allowed).1, k) <==> (has_key(tools, k)
            || table_offers(table, false, k, enabled, allowed)),
    decreases table.len(),
{
    if table.len() > 0 {
        let prev = table.drop_last();
        lemma_inherit_key(backends, tools, prev, enabled, allowed, k);
        let (b, t) = inherit_spec(backends, tools, prev, enabled, allowed);
        let r = inherit_spec(backends, tools, table, enabled, allowed);
        let e = table.last();
        let ok = entry_ok(e, enabled, allowed);
        let src = PluginSourceView::Builtin { plugin: e.plugin, version: e.version };
        assert(r.0 == if e.backend && !has_key(b, e.id) && ok { b.push((e.id, src)) } else { b });
        assert(r.1 == if !e.backend && !has_key(t, e.id) && ok { t.push((e.id, src)) } else { t });
        lemma_push_keys(b, (e.id, src), k);
        lemma_push_keys(t, (e.id, src), k);
        assert forall|backend: bool|
            table_offers(table, backend, k, enabled, allowed) <==> (table_offers(prev, backend, k, enabled, allowed) || (
            e.backend == backend && e.id == k && ok)) by {
            if table_offers(prev, backend, k, enabled, allowed) {
                let j = choose|j: int|
                    0 <= j < prev.len() && (#[trigger] prev[j]).backend == backend && prev[j].id == k && entry_ok(
                        prev[j],
                        enabled,
                        allowed,
                    );
                assert(table[j] == prev[j]);
            }
            if e.backend == backend && e.id == k && ok {
                assert(table[table.len() - 1] == e);
            }
            if table_offers(table, backend, k, enabled, allowed) {
                let j = choose|j: int|
                    0 <= j < table.len() && (#[trigger] table[j]).backend == backend && table[j].id == k && entry_ok(
                        table[j],
                        enabled,
                        allowed,
                    );
                if j < prev.len() {
                    assert(prev[j] == table[j]);
                }
            }
        }
        assert(table_offers(table, true, k, enabled, allowed) <==> (table_offers(prev, true, k, enabled, allowed) || (
        e.backend && e.id == k && ok)));
        assert(table_offers(table, false, k, enabled, allowed) <==> (table_offers(prev, false, k, enabled, allowed) || (
        !e.backend && e.id == k && ok)));
    }
}

proof fn lemma_push_keys(
    v: Seq<(Seq<char>, PluginSourceView)>,
    x: (Seq<char>, PluginSourceView),
    k: Seq<char>,
)
    ensures
        has_key(v.push(x), k) <==> (has_key(v, k) || x.0 == k),
{
    if has_key(v, k) {
        lemma_push_keeps_key(v, x, k);
    }
    if x.0 == k {
        assert(v.push(x)[v.len() as int].0 == k);
    }
    if has_key(v.push(x), k) {
        let i = choose|i: int| 0 <= i < v.push(x).len() && #[trigger] v.push(x)[i].0 == k;
        if i < v.len() {
            assert(v[i] == v.push(x)[i]);
        }
    }
}

/// Inheriting the builtin plugins keeps what the config holds: its entries
/// stay first and unchanged, and the keys afterwards are its own keys and
/// those of the builtin plugins (backends with backends, tools with tools)
/// that the setting lets in.
pub proof fn lemma_inherit_builtins_keeps_entries(
    backends: Seq<(Seq<char>, PluginSourceView)>,
    tools: Seq<(Seq<char>, PluginSourceView)>,
    setting: BuiltinPlugins,
)
    ensures
        ({
            let table = builtin_table();
            let en = setting.enabled_view();
            let al = setting.allowed_view();
            let r = inherit_spec(backends, tools, table, en, al);
            &&& r.0.subrange(0, backends.len() as int) == backends
            &&& r.1.subrange(0, tools.len() as int) == tools
            &&& forall|k: Seq<char>|
                #[trigger] has_key(r.0, k) <==> (has_key(backends, k) || table_offers(table, true, k, en, al))
            &&& forall|k: Seq<char>|
                #[trigger] has_key(r.1, k) <==> (has_key(tools, k) || table_offers(table, false, k, en, al))
        }),
{
    let table = builtin_table();
    let en = setting.enabled_view();
    let al = setting.allowed_view();
    lemma_inherit_extends(backends, tools, table, en, al);
    let r = inherit_spec(backends, tools, table, en, al);
    assert forall|k: Seq<char>|
        #[trigger] has_key(r.0, k) <==> (has_key(backends, k) || table_offers(table, true, k, en, al)) by {
        lemma_inherit_key(backends, tools, table, en, al, k);
    }
    assert forall|k: Seq<char>|
        #[trigger] has_key(r.1, k) <==> (has_key(tools, k) || table_offers(table, false, k, en, al)) by {
        lemma_inherit_key(backends, tools, table, en, al, k);
    }
}

/// The ids of the builtin tool plugins that a config must allow.
pub open spec fn gated_tool_ids() -> Seq<Seq<char>> {
    seq![
        seq!['b', 'u', 'n'],
        seq!['d', 'e', 'n', 'o'],
        seq!['g', 'o'],
        seq!['m', 'o', 'o', 'n'],
        seq!['n', 'o', 'd', 'e'],
        seq!['n', 'p', 'm'],
        seq!['p', 'n', 'p', 'm'],
        seq!['y', 'a', 'r', 'n'],
        seq!['p', 'o', 'e', 't', 'r', 'y'],
        seq!['p', 'y', 't', 'h', 'o', 'n'],
        seq!['u', 'v'],
        seq!['r', 'u', 'b', 'y'],
        seq!['r', 'u', 's', 't']
    ]
}

pub open spec fn asdf_id() -> Seq<char> {
    seq!['a', 's', 'd', 'f']
}

pub open spec fn schema_id() -> Seq<char> {
    seq!['i', 'n', 't', 'e', 'r', 'n', 'a', 'l', '-', 's', 'c', 'h', 'e', 'm', 'a']
}

pub open spec fn proto_id() -> Seq<char> {
    seq!['p', 'r', 'o', 't', 'o']
}

/// What the builtin table offers under a setting: the `asdf` backend and
/// the gated tools when the setting allows them, the schema and `proto`
/// tools always.
pub proof fn lemma_builtin_offers(k: Seq<char>, setting: BuiltinPlugins)
    ensures
        table_offers(builtin_table(), true, k, setting.enabled_view(), setting.allowed_view()) <==> (k
            == asdf_id() && builtin_allowed(setting.enabled_view(), setting.allowed_view(), k)),
        table_offers(builtin_table(), false, k, setting.enabled_view(), setting.allowed_view()) <==> (k
            == schema_id() || k == proto_id() || (gated_tool_ids().contains(k) && builtin_allowed(
            setting.enabled_view(),
            setting.allowed_view(),
            k,
        ))),
{
    let t = builtin_table();
    let g = gated_tool_ids();
    let en = setting.enabled_view();
    let al = setting.allowed_view();
    assert(t.len() == 16);
    assert(g.len() == 13);
    assert forall|j: int| 0 <= j < 16 implies (#[trigger] t[j]).backend == (j == 0) && t[j].gated == (j
        < 14) by {}
    assert forall|i: int| 0 <= i < 13 implies #[trigger] g[i] == t[i + 1].id by {}
    assert(t[0].id == asdf_id());
    assert(t[14].id == schema_id());
    assert(t[15].id == proto_id());
    if table_offers(t, true, k, en, al) {
        let j = choose|j: int|
            0 <= j < t.len() && (#[trigger] t[j]).backend == true && t[j].id == k && entry_ok(t[j], en, al);
        assert(j == 0);
    }
    if k == asdf_id() && builtin_allowed(en, al, k) {
        assert(t[0].backend && t[0].id == k && entry_ok(t[0], en, al));
    }
    if table_offers(t, false, k, en, al) {
        let j = choose|j: int|
            0 <= j < t.len() && (#[trigger] t[j]).backend == false && t[j].id == k && entry_ok(t[j], en, al);
        if 1 <= j < 14 {
            assert(g[j - 1] == k);
        }
    }
    if k == schema_id() {
        assert(!t[14].backend && t[14].id == k && entry_ok(t[14], en, al));
    } else if k == proto_id() {
        assert(!t[15].backend && t[15].id == k && entry_ok(t[15], en, al));
    } else if g.contains(k) && builtin_allowed(en, al, k) {
        let i = choose|i: int| 0 <= i < g.len() && g[i] == k;
        assert(!t[i + 1].backend && t[i + 1].id == k && entry_ok(t[i + 1], en, al));
    }
}

fn has_source(v: &Vec<(String, PluginSource)>, k: &str) -> (r: bool)
    ensures
        r == has_key(sources_view(v@), k@),
{
    let ghost sv = sources_view(v@);
    let mut i: usize = 0;
    while i < v.len()
        invariant
            i <= v@.len(),
            sv == sources_view(v@),
            forall|j: int| 0 <= j < i ==> sv[j].0 != k@,
        decreases v@.len() - i,
    {
        if str_eq(v[i].0.as_str(), k) {
            assert(sv[i as int].0 == k@);
            return true;
        }
        i = i + 1;
    }
    false
}

impl ProtoPluginsConfig {
    /// Inherit the builtin plugins that the config allows and does not
    /// override.
    pub fn inherit_builtin_plugins(&mut self, builtin_plugins: &BuiltinPlugins)
        ensures
            (sources_view(final(self).backends@), sources_view(final(self).tools@)) == inherit_spec(
                sources_view(old(self).backends@),
                sources_view(old(self).tools@),
                builtin_table(),
                builtin_plugins.enabled_view(),
                builtin_plugins.allowed_view(),
            ),
    {
        let table = builtin_plugin_table();
        let ghost tv = table@.map_values(|b: Builtin| b@);
        let ghost b0 = sources_view(self.backends@);
        let ghost t0 = sources_view(self.tools@);
        let mut i: usize = 0;
        assert(tv.subrange(0, 0) =~= Seq::<BuiltinView>::empty());
        while i < table.len()
            invariant
                i <= table@.len(),
                tv == table@.map_values(|b: Builtin| b@),
                (sources_view(self.backends@), sources_view(self.tools@)) == inherit_spec(
                    b0,
                    t0,
                    tv.subrange(0, i as int),
                    builtin_plugins.enabled_view(),
                    builtin_plugins.allowed_view(),
                ),
            decreases table@.len() - i,
        {
            assert(tv.subrange(0, i + 1).drop_last() =~= tv.subrange(0, i as int));
            assert(tv.subrange(0, i + 1).last() == table@[i as int]@);
            let e = &table[i];
            let ok = !e.gated || builtin_plugins.is_allowed(e.id.as_str());
            let src = PluginSource::Builtin { plugin: e.plugin.clone(), version: e.version.clone() };
            if e.backend {
                if !has_source(&self.backends, e.id.as_str()) && ok {
                    let ghost before = sources_view(self.backends@);
                    self.backends.push((e.id.clone(), src));
                    assert(sources_view(self.backends@) =~= before.push((e.id@, src@)));
                }
            } else {
                if !has_source(&self.tools, e.id.as_str()) && ok {
                    let ghost before = sources_view(self.tools@);
                    self.tools.push((e.id.clone(), src));
                    assert(sources_view(self.tools@) =~= before.push((e.id@, src@)));
                }
            }
            i = i + 1;
        }
        assert(tv.subrange(0, tv.len() as int) =~= tv);
    }
}

impl BuiltinPlugins {
    /// The builtin plugins alone that this setting allows, as an empty
    /// config inherits them.
    pub fn builtin_plugins(&self) -> (r: ProtoPluginsConfig)
        ensures
            (sources_view(r.backends@), sources_view(r.tools@)) == inherit_spec(
                seq![],
                seq![],
                builtin_table(),
                self.enabled_view(),
                self.allowed_view(),
            ),
    {
        let mut config = ProtoPluginsConfig { backends: Vec::new(), tools: Vec::new() };
        assert(sources_view(config.backends@) =~= seq![]);
        assert(sources_view(config.tools@) =~= seq![]);
        config.inherit_builtin_plugins(self);
        config
    }
}

/// An environment variable in a config: a flag or a value.
pub enum EnvVar {
    State(bool),
    Value(String),
}

/// The value that an environment variable is set to: `true` for a set
/// flag, none for an unset one.
pub open spec fn env_var_value(v: EnvVar) -> Option<Seq<char>> {
    match v {
        EnvVar::State(state) => if state { Some(seq!['t', 'r', 'u', 'e']) } else { None },
        EnvVar::Value(value) => Some(value@),
    }
}

impl EnvVar {
    pub fn to_value(&self) -> (r: Option<String>)
        ensures
            opt_text(r) == env_var_value(*self),
    {
        match self {
            EnvVar::State(state) => {
                if *state {
                    let t = String::from_str("true");
                    proof {
                        reveal_strlit("true");
                    }
                    Some(t)
                } else {
                    None
                }
            },
            EnvVar::Value(value) => Some(value.clone()),
        }
    }
}

/// The path of a config file: a path already naming `.prototools` as it
/// is, else the `.prototools` file within the directory.
pub open spec fn config_file_path(p: PathView) -> PathView {
    if p.len() > 0 && p.last() == proto_config_name() {
        p
    } else {
        p.push(proto_config_name())
    }
}

pub open spec fn proto_config_name() -> Seq<char> {
    seq!['.', 'p', 'r', 'o', 't', 'o', 't', 'o', 'o', 'l', 's']
}

/// The path of a config file for a path.
pub fn resolve_path(path: &ProtoPath) -> (r: ProtoPath)
    ensures
        r@ == config_file_path(path@),
{
    let name = ".prototools";
    proof {
        reveal_strlit(".prototools");
        assert(name@ =~= proto_config_name());
    }
    match path.file_name() {
        Some(last) => {
            if str_eq(last.as_str(), name) {
                return path.copy();
            }
        },
        None => {},
    }
    path.join(name.to_owned())
}

/// A file named in a config as an absolute path: as it is when absolute,
/// else relative to the config's directory (or, for a config path without
/// one, the working directory).
pub open spec fn absolute_path(file: Seq<char>, config_path: PathView, cwd: PathView) -> PathView {
    if file.len() > 0 && file[0] == '/' {
        path_components(file)
    } else {
        match spec_parent(config_path) {
            Some(dir) => join_path(dir, file),
            None => join_path(cwd, file),
        }
    }
}

/// Make a file named in a config absolute.
pub fn make_absolute(file: &str, config_path: &ProtoPath, cwd: &ProtoPath) -> (r: ProtoPath)
    ensures
        r@ == absolute_path(file@, config_path@, cwd@),
{
    let cs = chars_of(file);
    if cs.len() > 0 && cs[0] == '/' {
        return ProtoPath::parse(file);
    }
    match config_path.parent() {
        Some(dir) => dir.join_text(file),
        None => cwd.join_text(file),
    }
}

/// The weight of an env file declared in a config: ten times the length
/// (in bytes) of the config's path, plus the weight of the table that
/// declares it (0 for the config's own, 3 for a backend's, 5 for a tool's),
/// so that the files of deeper configs, and of more specific tables, come
/// later.
pub open spec fn env_file_weight_of(config_path: PathView, extra_weight: usize) -> int {
    vstd::utf8::encode_utf8(render_path(config_path)).len() * 10 + extra_weight
}

/// The env file that a table of a config declares with its `file` entry:
/// the file made absolute, with its weight.
pub fn env_file_of(file: &str, config_path: &ProtoPath, cwd: &ProtoPath, extra_weight: usize) -> (r: EnvFile)
    requires
        env_file_weight_of(config_path@, extra_weight) <= usize::MAX,
    ensures
        r.path@ == absolute_path(file@, config_path@, cwd@),
        r.weight == env_file_weight_of(config_path@, extra_weight),
{
    let text = config_path.render();
    let len = text.as_str().len();
    EnvFile { path: make_absolute(file, config_path, cwd), weight: len * 10 + extra_weight }
}

/// What replacing every match of a regular expression gives: `None` when
/// the pattern is not a valid regular expression.
pub uninterp spec fn regex_replaced(pattern: Seq<char>, text: Seq<char>, replacement: Seq<char>) -> Option<Seq<char>>;

/// `regex::Regex::new` on the pattern, then `Regex::replace_all` on the
/// text (with the crate's `$name` expansion of the replacement); `None`
/// when the pattern does not compile. The result is claimed to be a
/// function of the three texts alone.
#[verifier::external_body]
pub(crate) fn regex_replace_all(pattern: &str, text: &str, replacement: &str) -> (r: Option<String>)
    ensures
        match (r, regex_replaced(pattern@, text@, replacement@)) {
            (Some(a), Some(b)) => a@ == b,
            (None, None) => true,
            _ => false,
        },
{
    match regex::Regex::new(pattern) {
        Ok(re) => Some(re.replace_all(text, replacement).into_owned()),
        Err(_) => None,
    }
}

/// A URL after the configured rewrites, applied in order: each replaces
/// the matches of its pattern (a pattern that is not a valid regular
/// expression leaves the URL as it is; a loaded config holds only valid
/// ones).
pub open spec fn rewritten_url(url: Seq<char>, rewrites: Seq<(Seq<char>, Seq<char>)>) -> Seq<char>
    decreases rewrites.len(),
{
    if rewrites.len() == 0 {
        url
    } else {
        let prev = rewritten_url(url, rewrites.drop_last());
        match regex_replaced(rewrites.last().0, prev, rewrites.last().1) {
            Some(u) => u,
            None => prev,
        }
    }
}

pub open spec fn rewrites_view(v: Seq<(String, String)>) -> Seq<(Seq<char>, Seq<char>)> {
    v.map_values(|e: (String, String)| (e.0@, e.1@))
}

/// Rewrite a URL with the configured rewrites (pattern and replacement),
/// in order.
pub fn rewrite_url(url: &str, rewrites: &Vec<(String, String)>) -> (r: String)
    ensures
        r@ == rewritten_url(url@, rewrites_view(rewrites@)),
{
    let ghost rv = rewrites_view(rewrites@);
    let mut out = url.to_owned();
    let mut i: usize = 0;
    while i < rewrites.len()
        invariant
            i <= rewrites@.len(),
            rv == rewrites_view(rewrites@),
            out@ == rewritten_url(url@, rv.subrange(0, i as int)),
        decreases rewrites@.len() - i,
    {
        proof {
            assert(rv.subrange(0, i + 1).drop_last() =~= rv.subrange(0, i as int));
            assert(rv.subrange(0, i + 1).last() == rv[i as int]);
        }
        match regex_replace_all(rewrites[i].0.as_str(), out.as_str(), rewrites[i].1.as_str()) {
            Some(u) => {
                out = u;
            },
            None => {},
        }
        i = i + 1;
    }
    assert(rv.subrange(0, rv.len() as int) =~= rv);
    out
}

pub open spec fn reserved_plugin_message() -> Seq<char> {
    "proto is a reserved keyword, cannot use as a plugin identifier"@
}

/// Plugins cannot be configured under proto's own identifier.
pub fn validate_reserved_words(ids: &Vec<String>) -> (r: Result<(), String>)
    ensures
        ids@.map_values(|s: String| s@).contains(seq!['p', 'r', 'o', 't', 'o']) ==> (r matches Err(m) && m@
            == reserved_plugin_message()),
        !ids@.map_values(|s: String| s@).contains(seq!['p', 'r', 'o', 't', 'o']) ==> r is Ok,
{
    let proto = "proto";
    proof {
        reveal_strlit("proto");
    }
    let ghost iv = ids@.map_values(|s: String| s@);
    let mut i: usize = 0;
    while i < ids.len()
        invariant
            i <= ids@.len(),
            iv == ids@.map_values(|s: String| s@),
            proto@ == seq!['p', 'r', 'o', 't', 'o'],
            forall|j: int| 0 <= j < i ==> iv[j] != proto@,
        decreases ids@.len() - i,
    {
        if str_eq(ids[i].as_str(), proto) {
            assert(iv[i as int] == proto@);
            let message = "proto is a reserved keyword, cannot use as a plugin identifier";
            return Err(message.to_owned());
        }
        i = i + 1;
    }
    Ok(())
}

} // verus!
