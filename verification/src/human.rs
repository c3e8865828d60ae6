use vstd::prelude::*;

verus! {

pub open spec fn is_ascii_digit(c: char) -> bool {
    '0' <= c && c <= '9'
}

/// The value of the run of ASCII digits that ends a text (0 when it does
/// not end with a digit).
pub open spec fn trailing_run_value(t: Seq<char>) -> nat
    decreases t.len(),
{
    if t.len() == 0 || !is_ascii_digit(t.last()) {
        0
    } else {
        trailing_run_value(t.drop_last()) * 10 + (t.last() as nat - '0' as nat) as nat
    }
}

/// Whether every run of ASCII digits in a text, read as a number, fits in
/// a `u32` (every prefix of a run does, and with it every part of a run).
pub open spec fn digit_runs_fit(s: Seq<char>) -> bool {
    forall|p: int| 0 <= p <= s.len() ==> #[trigger] trailing_run_value(s.take(p)) <= 4294967295
}

/// Whether every run of ASCII digits in the text fits in a `u32`.
pub fn digit_runs_fit_in(s: &str) -> (r: bool)
    ensures
        r == digit_runs_fit(s@),
{
    let cs = crate::text::chars_of(s);
    let mut cur: u64 = 0;
    let mut i: usize = 0;
    assert(s@.take(0) =~= seq![]);
    while i < cs.len()
        invariant
            i <= cs@.len(),
            cs@ == s@,
            cur as nat == trailing_run_value(s@.take(i as int)),
            cur <= 4294967295,
            forall|p: int| 0 <= p <= i ==> #[trigger] trailing_run_value(s@.take(p)) <= 4294967295,
        decreases cs@.len() - i,
    {
        let c = cs[i];
        assert(s@.take(i + 1).drop_last() =~= s@.take(i as int));
        assert(s@.take(i + 1).last() == c);
        if '0' <= c && c <= '9' {
            let d: u64 = (c as u32 - '0' as u32) as u64;
            cur = cur * 10 + d;
            if cur > 4294967295 {
                assert(trailing_run_value(s@.take(i + 1)) > 4294967295);
                return false;
            }
        } else {
            cur = 0;
        }
        i = i + 1;
    }
    assert(s@.take(cs@.len() as int) =~= s@);
    true
}

/// How `human_sort::compare` orders two texts: -1, 0 or 1 as the first
/// comes before, with, or after the second, numbers within them compared
/// by value.
pub uninterp spec fn human_order_of(a: Seq<char>, b: Seq<char>) -> int;

/// `human_sort::compare`, its three outcomes given as -1, 0 and 1.
/// Claimed: the outcome depends on the two texts alone. It reads each run
/// of digits into a `u32` (with `sum * 10 + n`), so both texts are held to
/// runs that fit.
#[verifier::external_body]
pub(crate) fn human_order(a: &str, b: &str) -> (r: i8)
    requires
        digit_runs_fit(a@),
        digit_runs_fit(b@),
    ensures
        r == human_order_of(a@, b@),
{
    match human_sort::compare(a, b) {
        std::cmp::Ordering::Less => -1,
        std::cmp::Ordering::Equal => 0,
        std::cmp::Ordering::Greater => 1,
    }
}

} // verus!
