//! The repository's base URL, with its `.git` segment removed.

use vstd::prelude::*;
use url::Url;
use crate::text::{
    confined, is_confined, join_prefix, join_slash, trim_end_slashes, trim_trailing_slashes, views,
};

verus! {

#[verifier::external_type_specification]
#[verifier::external_body]
pub struct ExUrl(Url);

/// The name of the metadata directory.
pub open spec fn git_dir() -> Seq<char> {
    seq!['.', 'g', 'i', 't']
}

/// Index of the first `.git` segment, or the number of segments.
pub open spec fn git_position(segs: Seq<Seq<char>>) -> int
    decreases segs.len(),
{
    if segs.len() == 0 || segs[0] == git_dir() {
        0
    } else {
        1 + git_position(segs.drop_first())
    }
}

/// The base path of a URL whose path has the given segments: the segments
/// before the first `.git`, joined by `/`, without trailing slashes.
pub open spec fn base_path_of(segs: Seq<Seq<char>>) -> Seq<char> {
    trim_end_slashes(join_slash(segs.take(git_position(segs))))
}

/// The path, below the server's root, at which `href` lies under `base`.
pub open spec fn resource_path_of(base: Seq<char>, href: Seq<char>) -> Seq<char> {
    if base.len() == 0 {
        seq!['/'] + href
    } else {
        seq!['/'] + base + seq!['/'] + href
    }
}

/// Why a URL cannot serve as a target.
#[derive(Debug, PartialEq, Eq, Structural)]
pub enum TargetError {
    /// The URL has no path made of segments, so nothing can be joined to it.
    InvalidTarget,
    /// The path could lead out of the target's directory.
    EscapesTarget,
}

/// A repository's location: the URL with the `.git` segment and what
/// follows it removed.
pub struct Target {
    pub url: Url,
    /// The path of `url`, without its leading and trailing slashes.
    pub base: String,
}

/// The segments of the URL's path, as url::Url::path_segments gives them.
pub uninterp spec fn url_segments(u: Url) -> Option<Seq<Seq<char>>>;

/// The URL with its path replaced, as url::Url::set_path leaves it.
pub uninterp spec fn url_with_path(u: Url, path: Seq<char>) -> Url;

/// The views of optional segments.
pub open spec fn opt_segment_views(v: Option<Vec<String>>) -> Option<Seq<Seq<char>>> {
    match v {
        Some(s) => Some(views(s@)),
        None => None,
    }
}

/// Relies on url::Url::path_segments: the path split at `/`, or None for a
/// URL that cannot be a base.
#[verifier::external_body]
fn path_segments(u: &Url) -> (r: Option<Vec<String>>)
    ensures
        opt_segment_views(r) == url_segments(*u),
{
    u.path_segments().map(|s| s.map(|x| x.to_string()).collect())
}

/// Relies on url::Url::set_path: a copy of `u` with its path replaced.
#[verifier::external_body]
fn with_path(u: &Url, path: &str) -> (r: Url)
    ensures
        r == url_with_path(*u, path@),
{
    let mut v = u.clone();
    v.set_path(path);
    v
}

pub proof fn lemma_git_position_bounds(segs: Seq<Seq<char>>)
    ensures
        0 <= git_position(segs) <= segs.len(),
        git_position(segs) < segs.len() ==> segs[git_position(segs)] == git_dir(),
        forall|j: int| 0 <= j < git_position(segs) ==> segs[j] != git_dir(),
    decreases segs.len(),
{
    if segs.len() > 0 && segs[0] != git_dir() {
        lemma_git_position_bounds(segs.drop_first());
        assert forall|j: int| 0 <= j < git_position(segs) implies segs[j] != git_dir() by {
            if j > 0 {
                assert(segs[j] == segs.drop_first()[j - 1]);
            }
        }
    }
}

/// Where the first `.git` segment stands at position `k`, the base path is
/// made of the `k` segments before it; without a `.git` segment it is made
/// of every segment. Trailing slashes are dropped in both cases.
pub proof fn lemma_base_path_segments(segs: Seq<Seq<char>>, k: int)
    requires
        0 <= k <= segs.len(),
        k < segs.len() ==> segs[k] == git_dir(),
        forall|j: int| 0 <= j < k ==> segs[j] != git_dir(),
    ensures
        base_path_of(segs) == trim_end_slashes(join_slash(segs.take(k))),
        k == segs.len() ==> base_path_of(segs) == trim_end_slashes(join_slash(segs)),
{
    lemma_git_position_bounds(segs);
    let p = git_position(segs);
    if p < k {
        assert(segs[p] != git_dir());
    } else if k < p {
        assert(segs[k] != git_dir());
    }
    assert(p == k);
    assert(segs.take(segs.len() as int) =~= segs);
}

/// The base path for a URL whose path has the segments `segs`.
pub fn base_path(segs: &Vec<String>) -> (r: String)
    ensures
        r@ == base_path_of(views(segs@)),
{
    let git = String::from_str(".git");
    proof {
        reveal_strlit(".git");
        assert(git@ =~= git_dir());
    }
    let mut k: usize = 0;
    while k < segs.len() && segs[k] != git
        invariant
            k <= segs.len(),
            git@ == git_dir(),
            forall|j: int| 0 <= j < k ==> segs@[j]@ != git_dir(),
        decreases segs.len() - k,
    {
        k = k + 1;
    }
    proof {
        lemma_base_path_segments(views(segs@), k as int);
    }
    let joined = join_prefix(segs, k);
    trim_trailing_slashes(joined.as_str())
}

impl Target {
    /// The target for a URL whose path segments are `segs`, or
    /// `InvalidTarget` where the URL has none.
    pub fn from_segments(url: &Url, segs: Option<Vec<String>>) -> (r: Result<Target, TargetError>)
        ensures
            segs is None ==> r == Err::<Target, TargetError>(TargetError::InvalidTarget),
            segs matches Some(s) ==> r matches Ok(t) && t.base@ == base_path_of(views(s@)) && t.url
                == url_with_path(*url, t.base@),
    {
        match segs {
            None => Err(TargetError::InvalidTarget),
            Some(s) => {
                let base = base_path(&s);
                let url = with_path(url, base.as_str());
                Ok(Target { url, base })
            },
        }
    }

    /// The target for `url`: its path cut before the first `.git` segment.
    pub fn new(url: &Url) -> (r: Result<Target, TargetError>)
        ensures
            url_segments(*url) is None ==> r == Err::<Target, TargetError>(TargetError::InvalidTarget),
            url_segments(*url) matches Some(s) ==> r matches Ok(t) && t.base@ == base_path_of(s)
                && t.url == url_with_path(*url, t.base@),
    {
        let segs = path_segments(url);
        Target::from_segments(url, segs)
    }

    /// The path, from the server's root, of `href` below the target.
    pub fn resource_path(&self, href: &str) -> (r: String)
        ensures
            r@ == resource_path_of(self.base@, href@),
    {
        let mut p = String::from_str("/");
        proof { reveal_strlit("/"); }
        if self.base.unicode_len() > 0 {
            p.append(self.base.as_str());
            p.append("/");
        }
        p.append(href);
        p
    }

    /// The URL of `href` below the target; `EscapesTarget` where `href`
    /// could lead out of it.
    pub fn normalize_url(&self, href: &str) -> (r: Result<Url, TargetError>)
        ensures
            is_confined(href@) ==> r == Ok::<Url, TargetError>(
                url_with_path(self.url, resource_path_of(self.base@, href@)),
            ),
            !is_confined(href@) ==> r == Err::<Url, TargetError>(TargetError::EscapesTarget),
    {
        if !confined(href) {
            return Err(TargetError::EscapesTarget);
        }
        let path = self.resource_path(href);
        Ok(with_path(&self.url, path.as_str()))
    }
}

} // verus!
