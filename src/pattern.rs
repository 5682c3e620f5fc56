//! Regular-expression scans over fetched metadata.

use vstd::prelude::*;
use regex::Regex;

verus! {

/// Git reference names, with `*` allowed as a wildcard marker.
pub const REFS_PATTERN: &'static str = r"refs(/[A-Za-z0-9_.\-*]+)+";

/// The content of a `HEAD` file: a symbolic ref line or a bare hash.
pub const HEAD_PATTERN: &'static str = r"^(ref:.*|[0-9a-f]{40})$";

/// The name of a pack file; the first group is the pack's hash.
pub const PACK_PATTERN: &'static str = r"pack-([a-f0-9]{40})\.pack";

/// An object hash bounded by whitespace or the ends of the text; the second
/// group is the hash.
pub const OBJECT_PATTERN: &'static str = r"(^|\s)([a-f0-9]{40})($|\s)";

/// Whether `regex::Regex::new` accepts the pattern.
pub uninterp spec fn regex_valid(pattern: Seq<char>) -> bool;

/// What `regex::Regex::captures_iter` yields for the pattern over the text,
/// reduced to the given group: one item per successive non-overlapping
/// match, None where the group did not take part in the match.
pub uninterp spec fn regex_captures(pattern: Seq<char>, text: Seq<char>, group: nat) -> Seq<
    Option<Seq<char>>,
>;

/// The views of a vector of optional strings.
pub open spec fn opt_views(v: Seq<Option<String>>) -> Seq<Option<Seq<char>>> {
    v.map_values(|o: Option<String>|
        match o {
            Some(s) => Some(s@),
            None => None,
        })
}

/// Relies on regex::Regex::new, which fails only on a pattern that it does
/// not accept, and on Regex::captures_iter, whose matches are read at one
/// group.
#[verifier::external_body]
pub(crate) fn captures(pattern: &str, text: &str, group: usize) -> (r: Option<Vec<Option<String>>>)
    ensures
        r is Some <==> regex_valid(pattern@),
        r matches Some(v) ==> opt_views(v@) == regex_captures(pattern@, text@, group as nat),
{
    Regex::new(pattern).ok().map(
        |re| re.captures_iter(text).map(|c| c.get(group).map(|m| m.as_str().to_string())).collect(),
    )
}

/// The items that are present, in order.
pub open spec fn present(v: Seq<Option<Seq<char>>>) -> Seq<Seq<char>>
    decreases v.len(),
{
    if v.len() == 0 {
        Seq::empty()
    } else {
        present(v.drop_last()) + match v.last() {
            Some(s) => seq![s],
            None => Seq::empty(),
        }
    }
}

/// The captured groups of the pattern over the text; nothing where the
/// pattern does not compile.
pub open spec fn captured(pattern: Seq<char>, text: Seq<char>, group: nat) -> Seq<Seq<char>> {
    if regex_valid(pattern) {
        present(regex_captures(pattern, text, group))
    } else {
        Seq::empty()
    }
}

/// The present items of `v`, in order.
pub fn present_items(v: &Vec<Option<String>>) -> (r: Vec<String>)
    ensures
        crate::text::views(r@) == present(opt_views(v@)),
{
    let mut out: Vec<String> = Vec::new();
    let mut i: usize = 0;
    while i < v.len()
        invariant
            i <= v.len(),
            crate::text::views(out@) == present(opt_views(v@).take(i as int)),
        decreases v.len() - i,
    {
        let ghost before = out@;
        assert(opt_views(v@).take(i as int + 1).drop_last() =~= opt_views(v@).take(i as int));
        match &v[i] {
            Some(s) => {
                out.push(s.clone());
                assert(crate::text::views(out@) =~= crate::text::views(before).push(s@));
            },
            None => {
                assert(out@ == before);
            },
        }
        i = i + 1;
    }
    assert(opt_views(v@).take(v.len() as int) =~= opt_views(v@));
    out
}

/// The given group of each match of the pattern in the text.
pub fn find_all(pattern: &str, text: &str, group: usize) -> (r: Vec<String>)
    ensures
        crate::text::views(r@) == captured(pattern@, text@, group as nat),
{
    match captures(pattern, text, group) {
        Some(v) => present_items(&v),
        None => Vec::new(),
    }
}

} // verus!
