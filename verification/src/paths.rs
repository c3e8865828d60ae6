use vstd::prelude::*;
use crate::text::{chars_of, push_char, string_of};

verus! {

/// The abstract form of a path: its components, in order. An absolute
/// path starts with the root component `/`.
pub type PathView = Seq<Seq<char>>;

/// A path, held as its components (for example `["/", "home", "me"]`).
#[derive(Debug)]
pub struct ProtoPath {
    pub parts: Vec<String>,
}

impl View for ProtoPath {
    type V = PathView;

    open spec fn view(&self) -> PathView {
        self.parts@.map_values(|s: String| s@)
    }
}

/// The root component of an absolute path.
pub open spec fn root_part() -> Seq<char> {
    seq!['/']
}

/// The parent of a path: `None` for the empty path and for the root,
/// otherwise the path without its last component.
pub open spec fn spec_parent(p: PathView) -> Option<PathView> {
    if p.len() == 0 || (p.len() == 1 && p[0] == root_part()) {
        None
    } else {
        Some(p.drop_last())
    }
}

/// Component-wise prefix: `p` is `base` or lies within it.
pub open spec fn spec_starts_with(p: PathView, base: PathView) -> bool {
    &&& base.len() <= p.len()
    &&& forall|i: int| 0 <= i < base.len() ==> #[trigger] p[i] == base[i]
}

/// The components joined with `/`.
pub open spec fn join_parts(parts: Seq<Seq<char>>) -> Seq<char>
    decreases parts.len(),
{
    if parts.len() == 0 {
        seq![]
    } else if parts.len() == 1 {
        parts[0]
    } else {
        join_parts(parts.drop_last()) + seq!['/'] + parts.last()
    }
}

/// The textual form of a path: the root is written once, and the other
/// components are separated by `/`.
pub open spec fn render_path(p: PathView) -> Seq<char> {
    if p.len() > 0 && p[0] == root_part() {
        root_part() + join_parts(p.drop_first())
    } else {
        join_parts(p)
    }
}

pub proof fn lemma_join_parts_push(parts: Seq<Seq<char>>, x: Seq<char>)
    requires
        parts.len() >= 1,
    ensures
        join_parts(parts.push(x)) == join_parts(parts) + seq!['/'] + x,
{
    assert(parts.push(x).drop_last() =~= parts);
}

impl ProtoPath {
    /// An empty path.
    pub fn empty() -> (r: ProtoPath)
        ensures
            r@ == Seq::<Seq<char>>::empty(),
    {
        let r = ProtoPath { parts: Vec::new() };
        assert(r@ =~= Seq::<Seq<char>>::empty());
        r
    }

    /// A path made of the provided components.
    pub fn from_parts(parts: Vec<String>) -> (r: ProtoPath)
        ensures
            r.parts@ == parts@,
    {
        ProtoPath { parts }
    }

    /// A copy of the path.
    pub fn copy(&self) -> (r: ProtoPath)
        ensures
            r@ == self@,
    {
        let mut parts: Vec<String> = Vec::new();
        let mut i: usize = 0;
        while i < self.parts.len()
            invariant
                i <= self.parts@.len(),
                parts@.len() == i,
                forall|j: int| 0 <= j < i ==> #[trigger] parts@[j]@ == self.parts@[j]@,
            decreases self.parts@.len() - i,
        {
            parts.push(self.parts[i].clone());
            i = i + 1;
        }
        let r = ProtoPath { parts };
        assert(r@ =~= self@);
        r
    }

    /// The number of components.
    pub fn len(&self) -> (r: usize)
        ensures
            r == self@.len(),
    {
        self.parts.len()
    }

    /// Whether the path has no components.
    pub fn is_empty(&self) -> (r: bool)
        ensures
            r == (self@.len() == 0),
    {
        self.parts.len() == 0
    }

    /// Component-wise equality.
    pub fn equals(&self, other: &ProtoPath) -> (r: bool)
        ensures
            r == (self@ == other@),
    {
        if self.parts.len() != other.parts.len() {
            assert(self@.len() != other@.len());
            return false;
        }
        let mut i: usize = 0;
        while i < self.parts.len()
            invariant
                self.parts@.len() == other.parts@.len(),
                i <= self.parts@.len(),
                forall|j: int| 0 <= j < i ==> self@[j] == other@[j],
            decreases self.parts@.len() - i,
        {
            if self.parts[i] != other.parts[i] {
                assert(self@[i as int] != other@[i as int]);
                return false;
            }
            i = i + 1;
        }
        assert(self@ =~= other@);
        true
    }

    /// Whether the path is `base` or lies within it, comparing whole components.
    pub fn starts_with(&self, base: &ProtoPath) -> (r: bool)
        ensures
            r == spec_starts_with(self@, base@),
    {
        if base.parts.len() > self.parts.len() {
            return false;
        }
        let mut i: usize = 0;
        while i < base.parts.len()
            invariant
                base.parts@.len() <= self.parts@.len(),
                i <= base.parts@.len(),
                forall|j: int| 0 <= j < i ==> self@[j] == base@[j],
            decreases base.parts@.len() - i,
        {
            if self.parts[i] != base.parts[i] {
                assert(self@[i as int] != base@[i as int]);
                return false;
            }
            i = i + 1;
        }
        true
    }

    /// Whether the path is the root `/` alone.
    fn is_root(&self) -> (r: bool)
        ensures
            r == (self@.len() == 1 && self@[0] == root_part()),
    {
        if self.parts.len() != 1 {
            return false;
        }
        let cs = chars_of(self.parts[0].as_str());
        let r = cs.len() == 1 && cs[0] == '/';
        proof {
            if r {
                assert(cs@ =~= root_part());
            }
        }
        r
    }

    /// The parent directory, if there is one.
    pub fn parent(&self) -> (r: Option<ProtoPath>)
        ensures
            r matches Some(q) ==> spec_parent(self@) == Some(q@),
            r is None ==> spec_parent(self@) is None,
    {
        if self.parts.len() == 0 || self.is_root() {
            return None;
        }
        let mut q = self.copy();
        q.parts.pop();
        assert(q@ =~= self@.drop_last());
        Some(q)
    }

    /// The path with one more component.
    pub fn join(&self, name: String) -> (r: ProtoPath)
        ensures
            r@ == self@.push(name@),
    {
        let mut q = self.copy();
        q.parts.push(name);
        assert(q@ =~= self@.push(name@));
        q
    }

    /// The last component, if any.
    pub fn file_name(&self) -> (r: Option<&String>)
        ensures
            r matches Some(s) ==> self@.len() > 0 && s@ == self@.last(),
            r is None ==> self@.len() == 0,
    {
        if self.parts.len() == 0 {
            None
        } else {
            Some(&self.parts[self.parts.len() - 1])
        }
    }

    /// The textual form of the path.
    pub fn render(&self) -> (r: String)
        ensures
            r@ == render_path(self@),
    {
        let mut out = String::new();
        let n = self.parts.len();
        if n == 0 {
            assert(out@ =~= render_path(self@));
            return out;
        }
        let start: usize = if self.is_root_first() { 1 } else { 0 };
        if start == 1 {
            push_char(&mut out, '/');
        }
        let ghost prefix: Seq<char> = if start == 1 { root_part() } else { seq![] };
        assert(out@ =~= prefix);
        let mut i: usize = start;
        while i < n
            invariant
                n == self.parts@.len(),
                start <= i <= n,
                start == 1 ==> self@[0] == root_part(),
                start == 0 ==> !(self@.len() > 0 && self@[0] == root_part()),
                prefix == (if start == 1 { root_part() } else { seq![] }),
                out@ == prefix + join_parts(self@.subrange(start as int, i as int)),
            decreases n - i,
        {
            let part = chars_of(self.parts[i].as_str());
            let ghost before = self@.subrange(start as int, i as int);
            if i > start {
                push_char(&mut out, '/');
            }
            let mut k: usize = 0;
            let ghost mid = out@;
            while k < part.len()
                invariant
                    k <= part@.len(),
                    out@ == mid + part@.subrange(0, k as int),
                decreases part@.len() - k,
            {
                push_char(&mut out, part[k]);
                k = k + 1;
                assert(out@ =~= mid + part@.subrange(0, k as int));
            }
            assert(part@.subrange(0, part@.len() as int) =~= part@);
            proof {
                let after = self@.subrange(start as int, i + 1);
                assert(after =~= before.push(self@[i as int]));
                if i > start {
                    lemma_join_parts_push(before, self@[i as int]);
                    assert(out@ =~= prefix + (join_parts(before) + seq!['/'] + self@[i as int]));
                } else {
                    assert(before.len() == 0);
                    assert(after =~= seq![self@[i as int]]);
                    assert(join_parts(after) == after[0]);
                    assert(out@ =~= prefix + join_parts(after));
                }
            }
            i = i + 1;
        }
        proof {
            if start == 1 {
                assert(self@.subrange(1, n as int) =~= self@.drop_first());
            } else {
                assert(self@.subrange(0, n as int) =~= self@);
            }
            assert(out@ =~= render_path(self@));
        }
        out
    }

    fn is_root_first(&self) -> (r: bool)
        ensures
            r == (self@.len() > 0 && self@[0] == root_part()),
    {
        if self.parts.len() == 0 {
            return false;
        }
        let cs = chars_of(self.parts[0].as_str());
        let r = cs.len() == 1 && cs[0] == '/';
        proof {
            if r {
                assert(cs@ =~= root_part());
            }
            if self@[0] == root_part() {
                assert(cs@.len() == 1 && cs@[0] == '/');
            }
        }
        r
    }
}

/// The pieces of a text between its `/` separators (always at least one).
pub open spec fn segments(s: Seq<char>) -> Seq<Seq<char>>
    decreases s.len(),
{
    if s.len() == 0 {
        seq![seq![]]
    } else {
        let r = segments(s.drop_last());
        if s.last() == '/' {
            r.push(seq![])
        } else {
            r.update(r.len() - 1, r.last().push(s.last()))
        }
    }
}

pub proof fn lemma_segments_nonempty(s: Seq<char>)
    ensures
        segments(s).len() >= 1,
    decreases s.len(),
{
    if s.len() > 0 {
        lemma_segments_nonempty(s.drop_last());
    }
}

/// A piece that names a component: neither empty nor `.`.
pub open spec fn is_normal_part(x: Seq<char>) -> bool {
    x.len() > 0 && x != seq!['.']
}

/// The pieces that name components, in order.
pub open spec fn normal_parts(segs: Seq<Seq<char>>) -> Seq<Seq<char>>
    decreases segs.len(),
{
    if segs.len() == 0 {
        seq![]
    } else if is_normal_part(segs.last()) {
        normal_parts(segs.drop_last()).push(segs.last())
    } else {
        normal_parts(segs.drop_last())
    }
}

/// The components of a path written as text: the root for a leading `/`,
/// a leading `.` of a relative path, then every piece between separators
/// that is neither empty nor `.`.
pub open spec fn path_components(s: Seq<char>) -> PathView {
    if s.len() > 0 && s[0] == '/' {
        seq![root_part()] + normal_parts(segments(s))
    } else if segments(s)[0] == seq!['.'] {
        seq![seq!['.']] + normal_parts(segments(s))
    } else {
        normal_parts(segments(s))
    }
}

/// A path with a relative or absolute path written as text appended: an
/// absolute one replaces it.
pub open spec fn join_path(base: PathView, rel: Seq<char>) -> PathView {
    if (rel.len() > 0 && rel[0] == '/') || base.len() == 0 {
        path_components(rel)
    } else {
        base + normal_parts(segments(rel))
    }
}

pub open spec fn strings_view_of(v: Seq<String>) -> Seq<Seq<char>> {
    v.map_values(|s: String| s@)
}

/// The pieces of a text between its `/` separators.
pub fn split_segments(s: &str) -> (r: Vec<String>)
    ensures
        strings_view_of(r@) == segments(s@),
{
    let cs = chars_of(s);
    let mut done: Vec<String> = Vec::new();
    let mut cur: Vec<char> = Vec::new();
    let mut i: usize = 0;
    assert(cs@.subrange(0, 0) =~= Seq::<char>::empty());
    assert(strings_view_of(done@) + seq![cur@] =~= segments(cs@.subrange(0, 0)));
    while i < cs.len()
        invariant
            i <= cs@.len(),
            cs@ == s@,
            segments(cs@.subrange(0, i as int)) == strings_view_of(done@) + seq![cur@],
        decreases cs@.len() - i,
    {
        let ghost before = strings_view_of(done@) + seq![cur@];
        assert(cs@.subrange(0, i + 1).drop_last() =~= cs@.subrange(0, i as int));
        assert(cs@.subrange(0, i + 1).last() == cs@[i as int]);
        if cs[i] == '/' {
            let ghost d = done@;
            let piece = string_of(cur.as_slice());
            done.push(piece);
            cur = Vec::new();
            assert(strings_view_of(done@) + seq![cur@] =~= before.push(seq![]));
        } else {
            cur.push(cs[i]);
            assert(strings_view_of(done@) + seq![cur@] =~= before.update(before.len() - 1, before.last().push(cs@[i as int])));
        }
        i = i + 1;
    }
    assert(cs@.subrange(0, cs@.len() as int) =~= cs@);
    let ghost before = strings_view_of(done@);
    done.push(string_of(cur.as_slice()));
    assert(strings_view_of(done@) =~= before + seq![cur@]);
    done
}

/// The pieces that name components, in order.
pub fn keep_normal_parts(segs: &Vec<String>) -> (r: Vec<String>)
    ensures
        strings_view_of(r@) == normal_parts(strings_view_of(segs@)),
{
    let ghost sv = strings_view_of(segs@);
    let mut out: Vec<String> = Vec::new();
    let mut i: usize = 0;
    assert(sv.subrange(0, 0) =~= Seq::<Seq<char>>::empty());
    while i < segs.len()
        invariant
            i <= segs@.len(),
            sv == strings_view_of(segs@),
            strings_view_of(out@) == normal_parts(sv.subrange(0, i as int)),
        decreases segs@.len() - i,
    {
        assert(sv.subrange(0, i + 1).drop_last() =~= sv.subrange(0, i as int));
        assert(sv.subrange(0, i + 1).last() == segs@[i as int]@);
        let cs = chars_of(segs[i].as_str());
        let dot = cs.len() == 1 && cs[0] == '.';
        assert(dot == (segs@[i as int]@ == seq!['.'])) by {
            if segs@[i as int]@ == seq!['.'] {
                assert(cs@.len() == 1 && cs@[0] == '.');
            }
            if dot {
                assert(cs@ =~= seq!['.']);
            }
        }
        if cs.len() > 0 && !dot {
            let ghost before = strings_view_of(out@);
            out.push(segs[i].clone());
            assert(strings_view_of(out@) =~= before.push(segs@[i as int]@));
        }
        i = i + 1;
    }
    assert(sv.subrange(0, sv.len() as int) =~= sv);
    out
}

impl ProtoPath {
    /// The path that a text names.
    pub fn parse(text: &str) -> (r: ProtoPath)
        ensures
            r@ == path_components(text@),
    {
        let segs = split_segments(text);
        proof {
            lemma_segments_nonempty(text@);
        }
        let normal = keep_normal_parts(&segs);
        let cs = chars_of(text);
        let first = chars_of(segs[0].as_str());
        let mut parts: Vec<String> = Vec::new();
        if cs.len() > 0 && cs[0] == '/' {
            parts.push(string_of(&['/']));
            assert(parts@[0]@ =~= root_part());
        } else if first.len() == 1 && first[0] == '.' {
            parts.push(string_of(&['.']));
            assert(parts@[0]@ =~= seq!['.']);
            assert(segments(text@)[0] =~= seq!['.']);
        } else {
            assert(segments(text@)[0] != seq!['.']) by {
                if segments(text@)[0] == seq!['.'] {
                    assert(first@.len() == 1 && first@[0] == '.');
                }
            }
        }
        let ghost head = strings_view_of(parts@);
        let mut i: usize = 0;
        while i < normal.len()
            invariant
                i <= normal@.len(),
                strings_view_of(parts@) == head + strings_view_of(normal@).subrange(0, i as int),
            decreases normal@.len() - i,
        {
            let ghost before = parts@;
            let piece = normal[i].clone();
            assert(piece@ == normal@[i as int]@);
            parts.push(piece);
            assert(strings_view_of(parts@) =~= strings_view_of(before).push(normal@[i as int]@));
            assert(strings_view_of(normal@).subrange(0, i + 1) =~= strings_view_of(normal@).subrange(0, i as int).push(normal@[i as int]@));
            i = i + 1;
        }
        assert(strings_view_of(normal@).subrange(0, normal@.len() as int) =~= strings_view_of(normal@));
        let r = ProtoPath { parts };
        assert(r@ =~= strings_view_of(parts@));
        assert(r@ =~= path_components(text@));
        r
    }

    /// The path with a path written as text appended: an absolute one
    /// replaces it (`PathBuf::join`).
    pub fn join_text(&self, rel: &str) -> (r: ProtoPath)
        ensures
            r@ == join_path(self@, rel@),
    {
        let cs = chars_of(rel);
        if (cs.len() > 0 && cs[0] == '/') || self.parts.len() == 0 {
            return ProtoPath::parse(rel);
        }
        let normal = keep_normal_parts(&split_segments(rel));
        let mut q = self.copy();
        let ghost head = q@;
        let mut i: usize = 0;
        while i < normal.len()
            invariant
                i <= normal@.len(),
                q@ == head + strings_view_of(normal@).subrange(0, i as int),
            decreases normal@.len() - i,
        {
            let ghost before = q@;
            let piece = normal[i].clone();
            assert(piece@ == normal@[i as int]@);
            q.parts.push(piece);
            assert(q@ =~= before.push(normal@[i as int]@));
            assert(strings_view_of(normal@).subrange(0, i + 1) =~= strings_view_of(normal@).subrange(0, i as int).push(normal@[i as int]@));
            i = i + 1;
        }
        assert(strings_view_of(normal@).subrange(0, normal@.len() as int) =~= strings_view_of(normal@));
        q
    }
}

} // verus!
