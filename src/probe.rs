//! Classification of the target, and the order of the stages that follow.

use vstd::prelude::*;
use crate::listing::head_name;
use crate::pattern::{captured, find_all, HEAD_PATTERN};
use crate::text::views;

verus! {

/// The plain values of a response that the checks read.
pub struct ResponseHead {
    pub status: u16,
    /// The `Content-Type` header, where present and readable as text.
    pub content_type: Option<String>,
    /// The `Content-Length` header, where present: None within where its
    /// value is not visible ASCII and so cannot be read as text.
    pub content_length: Option<Option<String>>,
}

/// `text/html`
pub open spec fn html_type() -> Seq<char> {
    seq!['t', 'e', 'x', 't', '/', 'h', 't', 'm', 'l']
}

/// One or more `0` digits and nothing else.
pub open spec fn all_zeros(d: Seq<char>) -> bool {
    d.len() > 0 && forall|i: int| 0 <= i < d.len() ==> #[trigger] d[i] == '0'
}

/// The text of a zero as an unsigned integer parses it: an optional `+`,
/// then one or more `0` digits and nothing else.
pub open spec fn is_zero_text(s: Seq<char>) -> bool {
    if s.len() > 0 && s[0] == '+' {
        all_zeros(s.skip(1))
    } else {
        all_zeros(s)
    }
}

/// Why the target was rejected while probing.
#[derive(Debug, Clone, Copy, PartialEq, Eq, Structural)]
pub enum ProbeError {
    /// `HEAD` was answered with another status than `200`.
    BadStatus(u16),
    /// `HEAD` was answered with a length that cannot be read as text.
    UnreadableLength,
    /// `HEAD` was answered with a length of zero.
    EmptyBody,
    /// `HEAD` was answered with an HTML page.
    HtmlBody,
    /// The body of `HEAD` is neither a symbolic ref nor a hash.
    NotAGitHead,
}

/// Whether `s` spells a zero.
pub fn zero_text(s: &str) -> (r: bool)
    ensures
        r == is_zero_text(s@),
{
    let n = s.unicode_len();
    let mut i: usize = 0;
    if n > 0 && s.get_char(0) == '+' {
        i = 1;
    }
    let start = i;
    let ghost digits = if s@.len() > 0 && s@[0] == '+' {
        s@.skip(1)
    } else {
        s@
    };
    assert(digits.len() == n - start);
    assert(is_zero_text(s@) == all_zeros(digits));
    assert(forall|j: int| 0 <= j < digits.len() ==> digits[j] == s@[j + start]);
    if start >= n {
        return false;
    }
    while i < n
        invariant
            start <= i <= n,
            n == s@.len(),
            digits.len() == n - start,
            is_zero_text(s@) == all_zeros(digits),
            forall|j: int| 0 <= j < digits.len() ==> digits[j] == s@[j + start],
            forall|j: int| start <= j < i ==> s@[j] == '0',
        decreases n - i,
    {
        if s.get_char(i) != '0' {
            assert(digits[i - start] != '0');
            return false;
        }
        i = i + 1;
    }
    assert forall|j: int| 0 <= j < digits.len() implies #[trigger] digits[j] == '0' by {
        assert(s@[j + start] == '0');
    }
    assert(all_zeros(digits));
    true
}

impl ResponseHead {
    /// The content type is exactly `text/html`.
    pub open spec fn html(&self) -> bool {
        self.content_type matches Some(t) && t@ == html_type()
    }

    /// The response's own checks before its body is read: a `200`, a
    /// length that is readable and not zero, and no HTML.
    pub open spec fn accepted(&self) -> Result<(), ProbeError> {
        if self.status != 200 {
            Err(ProbeError::BadStatus(self.status))
        } else if self.content_length == Some(None::<String>) {
            Err(ProbeError::UnreadableLength)
        } else if self.content_length matches Some(Some(l)) && is_zero_text(l@) {
            Err(ProbeError::EmptyBody)
        } else if self.html() {
            Err(ProbeError::HtmlBody)
        } else {
            Ok(())
        }
    }

    /// Whether the response is an HTML page.
    pub fn is_html(&self) -> (r: bool)
        ensures
            r == self.html(),
    {
        match &self.content_type {
            Some(t) => {
                let html = String::from_str("text/html");
                proof {
                    reveal_strlit("text/html");
                    assert(html@ =~= html_type());
                }
                *t == html
            },
            None => false,
        }
    }

    /// Checks the status, the length and the content type.
    pub fn verify(&self) -> (r: Result<(), ProbeError>)
        ensures
            r == self.accepted(),
    {
        if self.status != 200 {
            return Err(ProbeError::BadStatus(self.status));
        }
        match &self.content_length {
            Some(None) => {
                return Err(ProbeError::UnreadableLength);
            },
            Some(Some(l)) => {
                if zero_text(l.as_str()) {
                    return Err(ProbeError::EmptyBody);
                }
            },
            None => {},
        }
        if self.is_html() {
            return Err(ProbeError::HtmlBody);
        }
        Ok(())
    }
}

/// `s` without leading and trailing white space.
pub uninterp spec fn trimmed(s: Seq<char>) -> Seq<char>;

/// Relies on str::trim: the text without leading and trailing white space.
#[verifier::external_body]
fn trim(s: &str) -> (r: String)
    ensures
        r@ == trimmed(s@),
{
    s.trim().to_string()
}

/// The body of a `HEAD` file, trimmed, is a symbolic ref or a bare hash.
pub open spec fn is_head_text(body: Seq<char>) -> bool {
    captured(HEAD_PATTERN@, trimmed(body), 0).len() > 0
}

/// Whether `body` is the content of a `HEAD` file.
pub fn is_git_head(body: &str) -> (r: bool)
    ensures
        r == is_head_text(body@),
{
    let t = trim(body);
    find_all(HEAD_PATTERN, t.as_str(), 0).len() > 0
}

/// The outcome of probing `.git/HEAD`: the response's checks, then the
/// content of its body.
pub open spec fn head_check(head: ResponseHead, body: Seq<char>) -> Result<(), ProbeError> {
    if head.accepted() is Err {
        head.accepted()
    } else if !is_head_text(body) {
        Err(ProbeError::NotAGitHead)
    } else {
        Ok(())
    }
}

/// Checks that the response to `.git/HEAD` is a Git `HEAD` file.
pub fn check_head(head: &ResponseHead, body: &str) -> (r: Result<(), ProbeError>)
    ensures
        r == head_check(*head, body@),
{
    head.verify()?;
    if !is_git_head(body) {
        return Err(ProbeError::NotAGitHead);
    }
    Ok(())
}

/// The stages of a run.
#[derive(Debug, Clone, Copy, PartialEq, Eq, Structural)]
pub enum Stage {
    /// Fetch `.git/HEAD` and check it.
    ProbeHead,
    /// Fetch the index page of `.git/` and look for `HEAD` among its entries.
    ProbeListing,
    /// Crawl the listed directories.
    Crawl,
    /// Download the files that every repository may hold.
    FetchKnownFiles,
    /// Search the fetched metadata for references.
    DiscoverRefs,
    /// Download the packs that `objects/info/packs` names.
    DiscoverPacks,
    /// Gather the object hashes and download the loose objects.
    Reconcile,
    /// Hand over to the checkout of the working tree.
    Checkout,
    Done,
}

/// How the repository is retrieved.
#[derive(Debug, Clone, Copy, PartialEq, Eq, Structural)]
pub enum Mode {
    /// Not known before the listing probe.
    Undecided,
    /// The server lists directories: they are crawled.
    Listing,
    /// Paths are guessed and derived from the metadata.
    Blind,
}

/// The stage that follows `s`.
pub open spec fn next_stage(s: Stage, listing: bool) -> Stage {
    match s {
        Stage::ProbeHead => Stage::ProbeListing,
        Stage::ProbeListing => if listing {
            Stage::Crawl
        } else {
            Stage::FetchKnownFiles
        },
        Stage::Crawl => Stage::Checkout,
        Stage::FetchKnownFiles => Stage::DiscoverRefs,
        Stage::DiscoverRefs => Stage::DiscoverPacks,
        Stage::DiscoverPacks => Stage::Reconcile,
        Stage::Reconcile => Stage::Checkout,
        Stage::Checkout => Stage::Done,
        Stage::Done => Stage::Done,
    }
}

/// The stage reached after `n` steps from the start.
pub open spec fn stage_after(listing: bool, n: nat) -> Stage
    decreases n,
{
    if n == 0 {
        Stage::ProbeHead
    } else {
        next_stage(stage_after(listing, (n - 1) as nat), listing)
    }
}

/// The driver of a run: the stage it is in and the mode it chose.
#[derive(Debug, Clone, Copy, PartialEq, Eq, Structural)]
pub struct Orchestrator {
    pub stage: Stage,
    pub mode: Mode,
}

impl Orchestrator {
    /// A run that has not probed anything yet.
    pub fn new() -> (r: Orchestrator)
        ensures
            r.stage == Stage::ProbeHead,
            r.mode == Mode::Undecided,
    {
        Orchestrator { stage: Stage::ProbeHead, mode: Mode::Undecided }
    }

    /// Chooses the mode from the entries of the `.git/` index page: listing
    /// where they name `HEAD`, blind otherwise.
    pub fn decide(&mut self, entries: &Vec<String>)
        requires
            old(self).stage == Stage::ProbeListing,
        ensures
            final(self).mode == (if views(entries@).contains(head_name()) {
                Mode::Listing
            } else {
                Mode::Blind
            }),
            final(self).stage == next_stage(
                Stage::ProbeListing,
                views(entries@).contains(head_name()),
            ),
    {
        if crate::listing::lists_head(entries) {
            self.mode = Mode::Listing;
            self.stage = Stage::Crawl;
        } else {
            self.mode = Mode::Blind;
            self.stage = Stage::FetchKnownFiles;
        }
    }

    /// Moves on once the current stage is complete.
    pub fn advance(&mut self)
        requires
            old(self).stage != Stage::ProbeListing,
        ensures
            final(self).mode == old(self).mode,
            final(self).stage == next_stage(old(self).stage, old(self).mode == Mode::Listing),
    {
        self.stage = match self.stage {
            Stage::ProbeHead => Stage::ProbeListing,
            Stage::ProbeListing => Stage::ProbeListing,
            Stage::Crawl => Stage::Checkout,
            Stage::FetchKnownFiles => Stage::DiscoverRefs,
            Stage::DiscoverRefs => Stage::DiscoverPacks,
            Stage::DiscoverPacks => Stage::Reconcile,
            Stage::Reconcile => Stage::Checkout,
            Stage::Checkout => Stage::Done,
            Stage::Done => Stage::Done,
        };
    }

    /// Whether the checkout may tolerate missing files: only in blind mode,
    /// which can never prove that it found everything.
    pub fn tolerate_errors(&self) -> (r: bool)
        ensures
            r == (self.mode == Mode::Blind),
    {
        self.mode == Mode::Blind
    }
}

/// A run in listing mode goes through probing, the crawl and the checkout,
/// and never through the known files, the reference search, the pack
/// search or the reconciliation.
pub proof fn lemma_listing_run(n: nat)
    ensures
        stage_after(true, n) == Stage::ProbeHead || stage_after(true, n) == Stage::ProbeListing
            || stage_after(true, n) == Stage::Crawl || stage_after(true, n) == Stage::Checkout
            || stage_after(true, n) == Stage::Done,
    decreases n,
{
    if n > 0 {
        lemma_listing_run((n - 1) as nat);
    }
}

proof fn lemma_blind_done(n: nat)
    requires
        n >= 8,
    ensures
        stage_after(false, n) == Stage::Done,
    decreases n,
{
    if n > 8 {
        lemma_blind_done((n - 1) as nat);
    } else {
        reveal_with_fuel(stage_after, 9);
    }
}

/// A run in blind mode fetches the known files, then searches for
/// references, then for packs, then reconciles the objects: each stage
/// once, in that order, before the checkout.
pub proof fn lemma_blind_run(n: nat)
    ensures
        stage_after(false, n) == Stage::FetchKnownFiles <==> n == 2,
        stage_after(false, n) == Stage::DiscoverRefs <==> n == 3,
        stage_after(false, n) == Stage::DiscoverPacks <==> n == 4,
        stage_after(false, n) == Stage::Reconcile <==> n == 5,
        stage_after(false, n) == Stage::Checkout <==> n == 6,
        stage_after(false, n) != Stage::Crawl,
{
    reveal_with_fuel(stage_after, 9);
    assert(stage_after(false, 0) == Stage::ProbeHead);
    assert(stage_after(false, 1) == Stage::ProbeListing);
    assert(stage_after(false, 2) == Stage::FetchKnownFiles);
    assert(stage_after(false, 3) == Stage::DiscoverRefs);
    assert(stage_after(false, 4) == Stage::DiscoverPacks);
    assert(stage_after(false, 5) == Stage::Reconcile);
    assert(stage_after(false, 6) == Stage::Checkout);
    assert(stage_after(false, 7) == Stage::Done);
    if n >= 8 {
        lemma_blind_done(n);
    }
}

/// The files that every repository may hold, fetched first in blind mode.
pub fn known_files() -> (r: Vec<String>)
    ensures
        views(r@) == seq![
            ".gitignore"@,
            ".git/COMMIT_EDITMSG"@,
            ".git/description"@,
            ".git/hooks/applypatch-msg.sample"@,
            ".git/hooks/pre-commit.sample"@,
            ".git/index"@,
            ".git/info/exclude"@,
            ".git/objects/info/packs"@,
            ".git/HEAD"@,
            ".git/config"@,
        ],
{
    let mut v: Vec<String> = Vec::new();
    v.push(String::from_str(".gitignore"));
    v.push(String::from_str(".git/COMMIT_EDITMSG"));
    v.push(String::from_str(".git/description"));
    v.push(String::from_str(".git/hooks/applypatch-msg.sample"));
    v.push(String::from_str(".git/hooks/pre-commit.sample"));
    v.push(String::from_str(".git/index"));
    v.push(String::from_str(".git/info/exclude"));
    v.push(String::from_str(".git/objects/info/packs"));
    v.push(String::from_str(".git/HEAD"));
    v.push(String::from_str(".git/config"));
    assert(views(v@) =~= seq![
        ".gitignore"@,
        ".git/COMMIT_EDITMSG"@,
        ".git/description"@,
        ".git/hooks/applypatch-msg.sample"@,
        ".git/hooks/pre-commit.sample"@,
        ".git/index"@,
        ".git/info/exclude"@,
        ".git/objects/info/packs"@,
        ".git/HEAD"@,
        ".git/config"@,
    ]);
    v
}

/// Where the crawl of a listing server begins.
pub fn crawl_seeds() -> (r: Vec<String>)
    ensures
        views(r@) == seq![
            ".git"@,
            ".gitignore"@,
        ],
{
    let mut v: Vec<String> = Vec::new();
    v.push(String::from_str(".git"));
    v.push(String::from_str(".gitignore"));
    assert(views(v@) =~= seq![
        ".git"@,
        ".gitignore"@,
    ]);
    v
}

} // verus!
