use vstd::prelude::*;
use crate::text::{chars_of, lemma_index_of_char, push_char, split_once, split_once_spec, string_of};

verus! {

/// The abstract form of a tool context.
pub struct ContextView {
    pub id: Seq<char>,
    pub backend: Option<Seq<char>>,
}

/// A tool, identified by its id and, when it is managed by a backend,
/// the backend's id.
pub struct ToolContext {
    pub id: String,
    pub backend: Option<String>,
}

impl View for ToolContext {
    type V = ContextView;

    open spec fn view(&self) -> ContextView {
        ContextView {
            id: self.id@,
            backend: match self.backend {
                Some(b) => Some(b@),
                None => None,
            },
        }
    }
}

/// The textual form of a context: `<backend>:<id>`, or the id alone.
pub open spec fn context_text(c: ContextView) -> Seq<char> {
    match c.backend {
        Some(b) => b + seq![':'] + c.id,
        None => c.id,
    }
}

/// Whether two optional strings hold the same text.
pub fn opt_string_eq(a: &Option<String>, b: &Option<String>) -> (r: bool)
    ensures
        r == (match (a, b) {
            (Some(x), Some(y)) => x@ == y@,
            (None, None) => true,
            _ => false,
        }),
{
    match (a, b) {
        (Some(x), Some(y)) => *x == *y,
        (None, None) => true,
        _ => false,
    }
}

/// A copy of an optional string.
pub fn opt_string_clone(a: &Option<String>) -> (r: Option<String>)
    ensures
        match (a, r) {
            (Some(x), Some(y)) => x@ == y@,
            (None, None) => true,
            _ => false,
        },
{
    match a {
        Some(x) => Some(x.clone()),
        None => None,
    }
}

impl ToolContext {
    /// A context for a tool that is not managed by a backend.
    pub fn new(id: String) -> (r: ToolContext)
        ensures
            r@ == (ContextView { id: id@, backend: None }),
    {
        ToolContext { id, backend: None }
    }

    /// A context for a tool that is managed by a backend.
    pub fn with_backend(id: String, backend: String) -> (r: ToolContext)
        ensures
            r@ == (ContextView { id: id@, backend: Some(backend@) }),
    {
        ToolContext { id, backend: Some(backend) }
    }

    /// A copy of the context.
    pub fn copy(&self) -> (r: ToolContext)
        ensures
            r@ == self@,
    {
        ToolContext { id: self.id.clone(), backend: opt_string_clone(&self.backend) }
    }

    /// Whether two contexts name the same tool.
    pub fn equals(&self, other: &ToolContext) -> (r: bool)
        ensures
            r == (self@ == other@),
    {
        self.id == other.id && opt_string_eq(&self.backend, &other.backend)
    }

    /// The textual form of the context.
    pub fn as_text(&self) -> (r: String)
        ensures
            r@ == context_text(self@),
    {
        match &self.backend {
            Some(b) => {
                let mut out = string_of(chars_of(b.as_str()).as_slice());
                push_char(&mut out, ':');
                let id = chars_of(self.id.as_str());
                let ghost mid = out@;
                let mut i: usize = 0;
                while i < id.len()
                    invariant
                        i <= id@.len(),
                        out@ == mid + id@.subrange(0, i as int),
                    decreases id@.len() - i,
                {
                    push_char(&mut out, id[i]);
                    i = i + 1;
                    assert(out@ =~= mid + id@.subrange(0, i as int));
                }
                assert(id@.subrange(0, id@.len() as int) =~= id@);
                assert(out@ =~= b@ + seq![':'] + self.id@);
                out
            },
            None => self.id.clone(),
        }
    }
}

/// Reading a context from its textual form: the text before the first
/// `:` names the backend, the rest the tool; without a `:` the text is the
/// tool alone.
pub open spec fn context_from_text(s: Seq<char>) -> ContextView {
    match split_once_spec(s, ':') {
        Some((backend, id)) => ContextView { id, backend: Some(backend) },
        None => ContextView { id: s, backend: None },
    }
}

impl ToolContext {
    /// Read a context from its textual form.
    pub fn from_text(text: &str) -> (r: ToolContext)
        ensures
            r@ == context_from_text(text@),
    {
        match split_once(text, ':') {
            Some((backend, id)) => ToolContext { id, backend: Some(backend) },
            None => ToolContext { id: text.to_owned(), backend: None },
        }
    }
}

/// Reading the textual form of a context gives it back, when its backend
/// holds no `:` (and a context without one, when its id holds none).
pub proof fn lemma_context_text_round_trip(c: ContextView)
    requires
        match c.backend {
            Some(b) => !b.contains(':'),
            None => !c.id.contains(':'),
        },
    ensures
        context_from_text(context_text(c)) == c,
{
    let t = context_text(c);
    match c.backend {
        Some(b) => {
            assert forall|j: int| 0 <= j < b.len() implies t[j] != ':' by {
                assert(t[j] == b[j]);
                if b[j] == ':' {
                    assert(b.contains(':'));
                }
            }
            lemma_index_of_char(t, ':', b.len() as int);
            assert(t.subrange(0, b.len() as int) =~= b);
            assert(t.subrange(b.len() as int + 1, t.len() as int) =~= c.id);
        },
        None => {
            assert forall|j: int| 0 <= j < t.len() implies t[j] != ':' by {
                if t[j] == ':' {
                    assert(c.id.contains(':'));
                }
            }
            lemma_index_of_char(t, ':', t.len() as int);
        },
    }
}

} // verus!
