//! Finding where a signature occurs in an image, by `regex`.

use regex::bytes::Regex;
use vstd::prelude::*;

verus! {

/// The offsets at which `regex` reports the successive matches of `pattern`
/// in `hay`, in the order it reports them, or `None` where it does not
/// accept the pattern.
pub uninterp spec fn match_starts(pattern: Seq<char>, hay: Seq<u8>) -> Option<Seq<usize>>;

/// Trusted: `regex::bytes::Regex::new` compiles the pattern, and
/// `Regex::find_iter` walks its successive non-overlapping matches in the
/// haystack; `Match::start` gives the offset of each. Both depend on the
/// pattern and the haystack alone, so the result carries a name.
#[verifier::external_body]
pub(crate) fn find_starts(pattern: &str, hay: &[u8]) -> (r: Option<Vec<usize>>)
    ensures
        match r {
            Some(v) => match_starts(pattern@, hay@) == Some(v@),
            None => match_starts(pattern@, hay@) is None,
        },
{
    match Regex::new(pattern) {
        Ok(re) => Some(re.find_iter(hay).map(|m| m.start()).collect()),
        Err(_) => None,
    }
}

/// What `f` gives at each of `starts` in turn, leaving out the places where
/// it gives nothing.
pub open spec fn gather<T>(starts: Seq<usize>, f: spec_fn(usize) -> Option<T>) -> Seq<T>
    decreases starts.len(),
{
    if starts.len() == 0 {
        Seq::empty()
    } else {
        let head = gather(starts.drop_last(), f);
        match f(starts.last()) {
            Some(e) => head.push(e),
            None => head,
        }
    }
}

/// Whatever holds of all that `f` gives holds of all that was gathered, and
/// no more is gathered than there are places.
pub proof fn lemma_gather_holds<T>(
    starts: Seq<usize>,
    f: spec_fn(usize) -> Option<T>,
    p: spec_fn(T) -> bool,
)
    requires
        forall|s: usize| (#[trigger] f(s)) is Some ==> p(f(s)->Some_0),
    ensures
        forall|i: int| 0 <= i < gather(starts, f).len() ==> p(#[trigger] gather(starts, f)[i]),
        gather(starts, f).len() <= starts.len(),
    decreases starts.len(),
{
    if starts.len() > 0 {
        lemma_gather_holds(starts.drop_last(), f, p);
    }
}

/// `gather` over the matches of `pattern`; nothing where the pattern is
/// not accepted.
pub open spec fn gather_matches<T>(
    pattern: Seq<char>,
    hay: Seq<u8>,
    f: spec_fn(usize) -> Option<T>,
) -> Seq<T> {
    match match_starts(pattern, hay) {
        Some(starts) => gather(starts, f),
        None => Seq::empty(),
    }
}

} // verus!
