//! Crawling of a server that lists directories: each page's anchors name
//! the children of a directory, and the crawl proceeds wave by wave.

use vstd::prelude::*;
use soup::{NodeExt, QueryBuilderExt, Soup};
use url_path::UrlPath;
use crate::pattern::{opt_views, present};
use crate::text::{join_slash, starts_with_char, views};

verus! {

/// What one fetch of a crawled path came to.
pub enum Status<'a> {
    /// The path was a file, or could not be had.
    Done,
    /// The path is a directory: its listing is to be read.
    Follow(&'a str),
}

impl<'a> Status<'a> {
    /// The location of the directory's index page: the path with a slash
    /// appended.
    pub fn redirect(&self) -> (r: Option<String>)
        ensures
            self is Done ==> r is None,
            self matches Status::Follow(h) ==> (r matches Some(s) && s@ == h@ + seq!['/']),
    {
        match self {
            Status::Done => None,
            Status::Follow(href) => {
                let mut s = String::from_str(href);
                s.append("/");
                proof {
                    reveal_strlit("/");
                }
                Some(s)
            },
        }
    }
}

/// How a response to a fetch is handled.
#[derive(Debug, Clone, Copy, PartialEq, Eq, Structural)]
pub enum FetchOutcome {
    /// The body is stored at the path.
    Delivered,
    /// The path is a directory whose listing is to be followed.
    Redirected,
    /// The response is dropped.
    Skipped,
}

/// `301 Moved Permanently` or `302 Found`.
pub open spec fn is_redirect_status(status: u16) -> bool {
    status == 301 || status == 302
}

/// How a response with the given status is handled: a redirect marks a
/// directory, a `200` that is not an HTML page is stored, and anything else
/// (an error status, or an HTML page where a file was expected) is dropped.
pub open spec fn outcome_of(status: u16, is_html: bool) -> FetchOutcome {
    if is_redirect_status(status) {
        FetchOutcome::Redirected
    } else if status == 200 && !is_html {
        FetchOutcome::Delivered
    } else {
        FetchOutcome::Skipped
    }
}

/// How a response with the given status and content type is handled.
pub fn classify(status: u16, is_html: bool) -> (r: FetchOutcome)
    ensures
        r == outcome_of(status, is_html),
{
    if status == 301 || status == 302 {
        FetchOutcome::Redirected
    } else if status == 200 && !is_html {
        FetchOutcome::Delivered
    } else {
        FetchOutcome::Skipped
    }
}

/// The `href` attribute of each anchor of an HTML page, in the order in
/// which soup finds them; None for an anchor without one.
pub uninterp spec fn anchor_hrefs(html: Seq<char>) -> Seq<Option<Seq<char>>>;

/// The pieces of `s` between `/` characters, in order; one empty piece
/// for an empty `s`.
pub open spec fn split_slash(s: Seq<char>) -> Seq<Seq<char>>
    decreases s.len(),
{
    if s.len() == 0 {
        seq![Seq::empty()]
    } else {
        let init = split_slash(s.drop_last());
        if s.last() == '/' {
            init.push(Seq::empty())
        } else {
            init.update(init.len() - 1, init.last().push(s.last()))
        }
    }
}

/// The segments left once empty and `.` segments are dropped and each `..`
/// removes the segment before it, where there is one.
pub open spec fn resolve_segments(segs: Seq<Seq<char>>) -> Seq<Seq<char>>
    decreases segs.len(),
{
    if segs.len() == 0 {
        Seq::empty()
    } else {
        let kept = resolve_segments(segs.drop_last());
        let x = segs.last();
        if x.len() == 0 || x == seq!['.'] {
            kept
        } else if x == seq!['.', '.'] {
            if kept.len() == 0 {
                kept
            } else {
                kept.drop_last()
            }
        } else {
            kept.push(x)
        }
    }
}

/// `s` begins with `http:` or `https:`.
pub open spec fn is_external(s: Seq<char>) -> bool {
    (s.len() >= 5 && s.take(5) == seq!['h', 't', 't', 'p', ':']) || (s.len() >= 6 && s.take(6)
        == seq!['h', 't', 't', 'p', 's', ':'])
}

/// A link as url_path normalizes it: an `http:` or `https:` link as it is;
/// any other with its segments resolved, joined by `/`, and led by `/`
/// where the link was.
pub open spec fn normalized_href(href: Seq<char>) -> Seq<char> {
    if is_external(href) {
        href
    } else {
        let joined = join_slash(resolve_segments(split_slash(href)));
        if starts_with_char(href, '/') {
            seq!['/'] + joined
        } else {
            joined
        }
    }
}

/// Relies on soup: Soup::new parses the page, `tag("a").find_all()` yields
/// its anchors, and NodeExt::get reads the `href` of each.
#[verifier::external_body]
fn anchors(html: &str) -> (r: Vec<Option<String>>)
    ensures
        opt_views(r@) == anchor_hrefs(html@),
{
    Soup::new(html).tag("a").find_all().map(|a| a.get("href")).collect()
}

/// Relies on url_path's UrlPath::new and UrlPath::normalize: the link split
/// at `/`, empty and `.` segments dropped, `..` removing the segment before
/// it, the rest joined, and `/` kept in front; `http:` and `https:` links
/// pass unchanged.
#[verifier::external_body]
fn normalize(href: &str) -> (r: String)
    ensures
        r@ == normalized_href(href@),
{
    UrlPath::new(href).normalize()
}

/// An entry of a listing is a relative link: it begins with neither `/`
/// nor `?`.
pub open spec fn is_entry(e: Seq<char>) -> bool {
    !starts_with_char(e, '/') && !starts_with_char(e, '?')
}

/// The entries named by a sequence of links: each normalized, those that
/// are not relative left out.
pub open spec fn entries_of(hrefs: Seq<Seq<char>>) -> Seq<Seq<char>>
    decreases hrefs.len(),
{
    if hrefs.len() == 0 {
        Seq::empty()
    } else {
        let e = normalized_href(hrefs.last());
        entries_of(hrefs.drop_last()) + if is_entry(e) {
            seq![e]
        } else {
            Seq::empty()
        }
    }
}

/// Whether `e` is a relative link.
pub fn is_listing_entry(e: &str) -> (r: bool)
    ensures
        r == is_entry(e@),
{
    if e.unicode_len() == 0 {
        return true;
    }
    let c = e.get_char(0);
    c != '/' && c != '?'
}

/// The entries named by the links `hrefs`.
pub fn entries_from_links(hrefs: &Vec<String>) -> (r: Vec<String>)
    ensures
        views(r@) == entries_of(views(hrefs@)),
{
    let mut out: Vec<String> = Vec::new();
    let mut i: usize = 0;
    while i < hrefs.len()
        invariant
            i <= hrefs.len(),
            views(out@) == entries_of(views(hrefs@).take(i as int)),
        decreases hrefs.len() - i,
    {
        assert(views(hrefs@).take(i as int + 1).drop_last() =~= views(hrefs@).take(i as int));
        let e = normalize(hrefs[i].as_str());
        let ghost before = out@;
        if is_listing_entry(e.as_str()) {
            let ghost ev = e@;
            out.push(e);
            assert(views(out@) =~= views(before).push(ev));
        }
        assert(views(out@) =~= entries_of(views(hrefs@).take(i as int + 1)));
        i = i + 1;
    }
    assert(views(hrefs@).take(hrefs.len() as int) =~= views(hrefs@));
    out
}

/// The entries that an HTML listing page links to.
pub fn list(html: &str) -> (r: Vec<String>)
    ensures
        views(r@) == entries_of(present(anchor_hrefs(html@))),
{
    let links = anchors(html);
    let hrefs = crate::pattern::present_items(&links);
    entries_from_links(&hrefs)
}

/// `HEAD`
pub open spec fn head_name() -> Seq<char> {
    seq!['H', 'E', 'A', 'D']
}

/// Whether a listing names the file `HEAD`: the sign that the server
/// lists directories.
pub fn lists_head(entries: &Vec<String>) -> (r: bool)
    ensures
        r == views(entries@).contains(head_name()),
{
    let head = String::from_str("HEAD");
    proof {
        reveal_strlit("HEAD");
        assert(head@ =~= head_name());
    }
    let mut i: usize = 0;
    while i < entries.len()
        invariant
            i <= entries.len(),
            head@ == head_name(),
            forall|j: int| 0 <= j < i ==> entries@[j]@ != head_name(),
        decreases entries.len() - i,
    {
        if entries[i] == head {
            assert(views(entries@)[i as int] == head_name());
            return true;
        }
        i = i + 1;
    }
    assert(!views(entries@).contains(head_name())) by {
        if views(entries@).contains(head_name()) {
            let j = choose|j: int| 0 <= j < entries.len() && views(entries@)[j] == head_name();
            assert(entries@[j]@ == head_name());
        }
    }
    false
}

/// The path of entry `e` of directory `dir`.
pub open spec fn child_path(dir: Seq<char>, e: Seq<char>) -> Seq<char> {
    dir + seq!['/'] + e
}

/// The paths of the entries of directory `dir`, in order.
pub open spec fn children_of(dir: Seq<char>, entries: Seq<Seq<char>>) -> Seq<Seq<char>> {
    entries.map_values(|e: Seq<char>| child_path(dir, e))
}

/// A directory that was followed, with the entries of its listing.
pub struct Listing {
    pub dir: String,
    pub entries: Vec<String>,
}

/// The plain values of a listing.
pub open spec fn listing_view(l: Listing) -> (Seq<char>, Seq<Seq<char>>) {
    (l.dir@, views(l.entries@))
}

/// The paths of the next wave: the children of each followed directory.
pub open spec fn wave_of(ls: Seq<(Seq<char>, Seq<Seq<char>>)>) -> Seq<Seq<char>>
    decreases ls.len(),
{
    if ls.len() == 0 {
        Seq::empty()
    } else {
        wave_of(ls.drop_last()) + children_of(ls.last().0, ls.last().1)
    }
}

/// The paths of the entries of directory `dir`.
pub fn children(dir: &str, entries: &Vec<String>) -> (r: Vec<String>)
    ensures
        views(r@) == children_of(dir@, views(entries@)),
{
    let mut out: Vec<String> = Vec::new();
    let mut i: usize = 0;
    while i < entries.len()
        invariant
            i <= entries.len(),
            views(out@) == children_of(dir@, views(entries@).take(i as int)),
        decreases entries.len() - i,
    {
        let mut p = String::from_str(dir);
        p.append("/");
        p.append(entries[i].as_str());
        proof {
            reveal_strlit("/");
        }
        let ghost before = out@;
        let ghost pv = p@;
        assert(pv == child_path(dir@, entries@[i as int]@));
        out.push(p);
        assert(views(out@) =~= views(before).push(pv));
        assert(children_of(dir@, views(entries@).take(i as int + 1)) =~= children_of(
            dir@,
            views(entries@).take(i as int),
        ).push(pv));
        assert(views(out@) =~= children_of(dir@, views(entries@).take(i as int + 1)));
        i = i + 1;
    }
    assert(views(entries@).take(entries.len() as int) =~= views(entries@));
    out
}

/// The next frontier of the crawl: the children of every directory that
/// the current wave followed.
pub fn next_frontier(ls: &Vec<Listing>) -> (r: Vec<String>)
    ensures
        views(r@) == wave_of(ls@.map_values(|l: Listing| listing_view(l))),
{
    let ghost lv = ls@.map_values(|l: Listing| listing_view(l));
    let mut out: Vec<String> = Vec::new();
    let mut i: usize = 0;
    while i < ls.len()
        invariant
            i <= ls.len(),
            lv == ls@.map_values(|l: Listing| listing_view(l)),
            views(out@) == wave_of(lv.take(i as int)),
        decreases ls.len() - i,
    {
        assert(lv.take(i as int + 1).drop_last() =~= lv.take(i as int));
        let mut c = children(ls[i].dir.as_str(), &ls[i].entries);
        let ghost before = out@;
        let ghost cv = c@;
        out.append(&mut c);
        assert(views(out@) =~= views(before) + views(cv));
        assert(views(out@) =~= wave_of(lv.take(i as int + 1)));
        i = i + 1;
    }
    assert(lv.take(ls.len() as int) =~= lv);
    out
}

} // verus!
