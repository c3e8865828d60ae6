use vstd::prelude::*;
use crate::text::{chars_of, string_of};

verus! {

/// An ASCII letter, which must start every identifier segment.
pub open spec fn is_id_start(c: char) -> bool {
    ('a' <= c && c <= 'z') || ('A' <= c && c <= 'Z')
}

/// A character allowed after the first one of an identifier segment:
/// ASCII letters, digits, dashes and underscores.
pub open spec fn is_id_char(c: char) -> bool {
    is_id_start(c) || ('0' <= c && c <= '9') || c == '-' || c == '_'
}

/// A name segment: a letter followed by letters, digits, dashes or underscores.
pub open spec fn is_id_name(s: Seq<char>) -> bool {
    &&& s.len() >= 1
    &&& is_id_start(s[0])
    &&& forall|i: int| 1 <= i < s.len() ==> #[trigger] is_id_char(s[i])
}

/// The identifier grammar: an optional `@scope/` prefix followed by a name,
/// where both the scope and the name are name segments.
pub open spec fn is_valid_id(s: Seq<char>) -> bool {
    ||| is_id_name(s)
    ||| exists|k: int|
        1 < k < s.len() && #[trigger] s[k] == '/' && s[0] == '@' && is_id_name(s.subrange(1, k))
            && is_id_name(s.subrange(k + 1, s.len() as int))
}

/// Invalid plugin identifier: it may only contain letters, numbers,
/// dashes, and underscores.
#[derive(Debug)]
pub struct ProtoIdError(pub String);

/// An identifier that has been checked against the identifier grammar.
pub struct ProtoId {
    id: String,
}

impl View for ProtoId {
    type V = Seq<char>;

    closed spec fn view(&self) -> Seq<char> {
        self.id@
    }
}

/// Whether the characters in `[from, to)` form a name segment.
fn check_name(s: &Vec<char>, from: usize, to: usize) -> (r: bool)
    requires
        from <= to <= s@.len(),
    ensures
        r == is_id_name(s@.subrange(from as int, to as int)),
{
    if from >= to {
        return false;
    }
    let c0 = s[from];
    if !(('a' <= c0 && c0 <= 'z') || ('A' <= c0 && c0 <= 'Z')) {
        return false;
    }
    let mut i = from + 1;
    while i < to
        invariant
            from < i <= to <= s@.len(),
            forall|j: int| from + 1 <= j < i ==> is_id_char(#[trigger] s@[j]),
        decreases to - i,
    {
        let c = s[i];
        if !(('a' <= c && c <= 'z') || ('A' <= c && c <= 'Z') || ('0' <= c && c <= '9') || c
            == '-' || c == '_') {
            assert(is_id_char(s@.subrange(from as int, to as int)[i - from]) == false);
            return false;
        }
        i = i + 1;
    }
    let ghost sub = s@.subrange(from as int, to as int);
    assert forall|j: int| 1 <= j < sub.len() implies #[trigger] is_id_char(sub[j]) by {
        assert(sub[j] == s@[from + j]);
    }
    true
}

/// Whether the characters form a valid identifier.
pub fn is_valid_id_chars(s: &Vec<char>) -> (r: bool)
    ensures
        r == is_valid_id(s@),
{
    let n = s.len();
    if check_name(s, 0, n) {
        assert(s@.subrange(0, n as int) =~= s@);
        return true;
    }
    assert(s@.subrange(0, n as int) =~= s@);
    if n == 0 || s[0] != '@' {
        return false;
    }
    // Find the separator, which no name segment may contain
    let mut k: usize = 1;
    while k < n && s[k] != '/'
        invariant
            1 <= k <= n == s@.len(),
            forall|j: int| 1 <= j < k ==> s@[j] != '/',
        decreases n - k,
    {
        k = k + 1;
    }
    if k >= n || k <= 1 {
        proof {
            if exists|k2: int| 1 < k2 < s@.len() && #[trigger] s@[k2] == '/' && s@[0] == '@'
                && is_id_name(s@.subrange(1, k2)) && is_id_name(s@.subrange(k2 + 1, s@.len() as int)) {
                let k2 = choose|k2: int| 1 < k2 < s@.len() && #[trigger] s@[k2] == '/' && s@[0] == '@'
                    && is_id_name(s@.subrange(1, k2)) && is_id_name(s@.subrange(k2 + 1, s@.len() as int));
                if k <= 1 {
                    // the first character after the scope marker is the separator
                    let sub = s@.subrange(1, k2);
                    assert(sub[0] == s@[1]);
                }
            }
        }
        return false;
    }
    let ok = check_name(s, 1, k) && check_name(s, k + 1, n);
    proof {
        if !ok {
            if exists|k2: int| 1 < k2 < s@.len() && #[trigger] s@[k2] == '/' && s@[0] == '@'
                && is_id_name(s@.subrange(1, k2)) && is_id_name(s@.subrange(k2 + 1, s@.len() as int)) {
                let k2 = choose|k2: int| 1 < k2 < s@.len() && #[trigger] s@[k2] == '/' && s@[0] == '@'
                    && is_id_name(s@.subrange(1, k2)) && is_id_name(s@.subrange(k2 + 1, s@.len() as int));
                if k2 < k {
                    assert(false);
                } else if k2 > k {
                    let sub = s@.subrange(1, k2);
                    assert(sub[k - 1] == s@[k as int]);
                    assert(!is_id_char(sub[k - 1]));
                }
            }
        }
    }
    ok
}

impl ProtoId {
    /// Validate the identifier against the identifier grammar.
    pub fn new(id: &str) -> (r: Result<ProtoId, ProtoIdError>)
        ensures
            r is Ok <==> is_valid_id(id@),
            r matches Ok(p) ==> p@ == id@,
            r matches Err(e) ==> e.0@ == id@,
    {
        let cs = chars_of(id);
        if !is_valid_id_chars(&cs) {
            return Err(ProtoIdError(string_of(cs.as_slice())));
        }
        Ok(ProtoId { id: string_of(cs.as_slice()) })
    }

    /// Validate the identifier, and return it as a plain identifier string.
    pub fn format(id: &str) -> (r: Result<String, ProtoIdError>)
        ensures
            r is Ok <==> is_valid_id(id@),
            r matches Ok(s) ==> s@ == id@,
            r matches Err(e) ==> e.0@ == id@,
    {
        match ProtoId::new(id) {
            Ok(p) => Ok(p.into_id()),
            Err(e) => Err(e),
        }
    }

    /// The identifier as a string slice.
    pub fn as_id(&self) -> (r: &str)
        ensures
            r@ == self@,
    {
        self.id.as_str()
    }

    /// A copy of the identifier.
    pub fn to_id(&self) -> (r: String)
        ensures
            r@ == self@,
    {
        self.id.clone()
    }

    /// The identifier, consuming the wrapper.
    pub fn into_id(self) -> (r: String)
        ensures
            r@ == self@,
    {
        self.id
    }
}

} // verus!
