use vstd::prelude::*;

verus! {

/// Where a match of a regular expression lies in a text, in characters:
/// its start and end, and where a named group of it lies, when the group
/// takes part in the match.
pub type CaptureSpan = (nat, nat, Option<(nat, nat)>);

pub open spec fn spans_view(v: Seq<(usize, usize, Option<(usize, usize)>)>) -> Seq<CaptureSpan> {
    v.map_values(
        |c: (usize, usize, Option<(usize, usize)>)|
            (
                c.0 as nat,
                c.1 as nat,
                match c.2 {
                    Some(g) => Some((g.0 as nat, g.1 as nat)),
                    None => None,
                },
            ),
    )
}

/// The spans of the successive matches of a regular expression in a text
/// (with `captures_iter`), and of a named group in each; `None` when the
/// pattern is not a valid regular expression.
pub uninterp spec fn regex_captures_of(pattern: Seq<char>, group: Seq<char>, text: Seq<char>) -> Option<
    Seq<CaptureSpan>,
>;

/// Spans as matches give them: each within the text, a group within its
/// match, and each match ending before the next one starts.
pub open spec fn spans_in_order(len: nat, caps: Seq<CaptureSpan>) -> bool {
    &&& forall|i: int|
        0 <= i < caps.len() ==> {
            &&& (#[trigger] caps[i]).0 <= caps[i].1 <= len
            &&& caps[i].2 matches Some(g) ==> caps[i].0 <= g.0 <= g.1 <= caps[i].1
        }
    &&& forall|i: int, j: int| 0 <= i < j < caps.len() ==> (#[trigger] caps[i]).1 <= (#[trigger] caps[j]).0
}

/// `regex::Regex::new` on the pattern, then `captures_iter` on the text:
/// for each match, its span and that of the named group (the byte offsets
/// that the crate gives turned into positions in characters). The crate
/// documents that the matches come in order and do not overlap, and that a
/// group lies within its match. Claimed: the result depends on the three
/// texts alone.
#[verifier::external_body]
pub(crate) fn regex_captures(pattern: &str, group: &str, text: &str) -> (r: Option<
    Vec<(usize, usize, Option<(usize, usize)>)>,
>)
    ensures
        match r {
            Some(v) => regex_captures_of(pattern@, group@, text@) == Some(spans_view(v@)) && spans_in_order(
                text@.len(),
                spans_view(v@),
            ),
            None => regex_captures_of(pattern@, group@, text@) is None,
        },
{
    let re = regex::Regex::new(pattern).ok()?;
    let at = |byte: usize| text[..byte].chars().count();
    Some(re.captures_iter(text).map(|cap| {
        let whole = cap.get(0).unwrap();
        (at(whole.start()), at(whole.end()), cap.name(group).map(|g| (at(g.start()), at(g.end()))))
    }).collect())
}

} // verus!
