//! Discovery of references: names found in fetched metadata become the
//! paths of the next wave, until a wave finds nothing new.

use vstd::prelude::*;
use crate::pattern::{captured, find_all, REFS_PATTERN};
use crate::text::{confined, ends_with_char, is_confined, leaves_at, segment_end, segment_start, views};

verus! {

/// `.git/`
pub open spec fn git_prefix() -> Seq<char> {
    seq!['.', 'g', 'i', 't', '/']
}

/// `.git/logs/`
pub open spec fn logs_prefix() -> Seq<char> {
    git_prefix() + seq!['l', 'o', 'g', 's', '/']
}

/// The paths that a reference name leads to: its value file and its
/// reflog; none for a name that ends in the wildcard marker `*`, nor for one
/// that could lead out of `.git/` (a `.` or `..` segment, a backslash or an
/// escaped dot).
pub open spec fn ref_targets(m: Seq<char>) -> Seq<Seq<char>> {
    if ends_with_char(m, '*') || !is_confined(m) {
        Seq::empty()
    } else {
        seq![git_prefix() + m, logs_prefix() + m]
    }
}

/// The paths that a sequence of reference names leads to, in order.
pub open spec fn expand_refs(ms: Seq<Seq<char>>) -> Seq<Seq<char>>
    decreases ms.len(),
{
    if ms.len() == 0 {
        Seq::empty()
    } else {
        expand_refs(ms.drop_last()) + ref_targets(ms.last())
    }
}

/// The paths that the reference names in `matches` lead to.
pub fn ref_paths(matches: &Vec<String>) -> (r: Vec<String>)
    ensures
        views(r@) == expand_refs(views(matches@)),
{
    let mut out: Vec<String> = Vec::new();
    let mut i: usize = 0;
    while i < matches.len()
        invariant
            i <= matches.len(),
            views(out@) == expand_refs(views(matches@).take(i as int)),
        decreases matches.len() - i,
    {
        let m = &matches[i];
        let n = m.unicode_len();
        assert(views(matches@).take(i as int + 1).drop_last() =~= views(matches@).take(i as int));
        let ghost before = out@;
        if (n > 0 && m.get_char(n - 1) == '*') || !confined(m.as_str()) {
            assert(out@ == before);
            assert(views(out@) =~= expand_refs(views(matches@).take(i as int + 1)));
        } else {
            let mut value = String::from_str(".git/");
            value.append(m.as_str());
            let mut log = String::from_str(".git/logs/");
            log.append(m.as_str());
            proof {
                reveal_strlit(".git/");
                reveal_strlit(".git/logs/");
                assert(value@ =~= git_prefix() + m@);
                assert(log@ =~= logs_prefix() + m@);
            }
            out.push(value);
            out.push(log);
            assert(views(out@) =~= expand_refs(views(matches@).take(i as int + 1)));
        }
        i = i + 1;
    }
    assert(views(matches@).take(matches.len() as int) =~= views(matches@));
    out
}

/// The paths that the reference names found in `text` lead to.
pub fn scan_refs(text: &str) -> (r: Vec<String>)
    ensures
        views(r@) == expand_refs(captured(REFS_PATTERN@, text@, 0)),
{
    let found = find_all(REFS_PATTERN, text, 0);
    ref_paths(&found)
}

proof fn lemma_prefixed_confined(a: Seq<char>, m: Seq<char>)
    requires
        a == git_prefix() || a == logs_prefix(),
        is_confined(m),
    ensures
        is_confined(a + m),
{
    let p = a + m;
    assert(a.len() == 5 || a.len() == 10);
    assert(a.last() == '/');
    assert forall|i: int| 0 <= i < a.len() implies a[i] != '\\' && a[i] != '%' && (a[i] == '.' ==> i
        == 0) by {
        if a == git_prefix() {
        } else {
            assert(a[5] == 'l' && a[6] == 'o' && a[7] == 'g' && a[8] == 's' && a[9] == '/');
        }
    }
    assert(a[1] == 'g');
    assert forall|i: int| 0 <= i < p.len() implies !#[trigger] leaves_at(p, i) by {
        if i < a.len() {
            assert(p[i] == a[i]);
            if i == 0 {
                assert(p[1] == 'g');
            }
        } else {
            let k = i - a.len();
            assert(p[i] == m[k]);
            assert(!leaves_at(m, k));
            if k == 0 {
                assert(p[i - 1] == a.last());
            } else {
                assert(p[i - 1] == m[k - 1]);
            }
            assert(segment_start(p, i) == segment_start(m, k));
            if k + 1 < m.len() {
                assert(p[i + 1] == m[k + 1]);
            }
            if k + 2 < m.len() {
                assert(p[i + 2] == m[k + 2]);
            }
            assert(segment_end(p, i + 1) == segment_end(m, k + 1));
            if k + 1 < m.len() {
                assert(segment_end(p, i + 2) == segment_end(m, k + 2));
            }
        }
    }
}

/// Every path that reference names lead to lies below `.git/`, and holds
/// nothing that could lead out of it.
pub proof fn lemma_ref_paths_confined(ms: Seq<Seq<char>>)
    ensures
        forall|t: int|
            0 <= t < expand_refs(ms).len() ==> (#[trigger] expand_refs(ms)[t]).take(5)
                == git_prefix() && is_confined(expand_refs(ms)[t]),
    decreases ms.len(),
{
    if ms.len() > 0 {
        lemma_ref_paths_confined(ms.drop_last());
        let prev = expand_refs(ms.drop_last());
        let m = ms.last();
        let all = expand_refs(ms);
        assert(all == prev + ref_targets(m));
        assert forall|t: int| 0 <= t < all.len() implies (#[trigger] all[t]).take(5) == git_prefix()
            && is_confined(all[t]) by {
            if t < prev.len() {
                assert(all[t] == prev[t]);
            } else {
                let p = all[t];
                assert(ref_targets(m).len() > 0);
                assert(is_confined(m));
                if t == prev.len() {
                    assert(p == git_prefix() + m);
                    lemma_prefixed_confined(git_prefix(), m);
                } else {
                    assert(p == logs_prefix() + m);
                    lemma_prefixed_confined(logs_prefix(), m);
                }
                assert(p.take(5) =~= git_prefix());
            }
        }
    }
}

/// The paths requested so far by the reference search.
pub struct RefDiscovery {
    seen: Vec<String>,
}

impl RefDiscovery {
    /// The set of paths already requested.
    pub closed spec fn requested(&self) -> Set<Seq<char>> {
        views(self.seen@).to_set()
    }

    pub closed spec fn wf(&self) -> bool {
        views(self.seen@).no_duplicates()
    }

    /// A search that has requested nothing yet.
    pub fn new() -> (r: RefDiscovery)
        ensures
            r.wf(),
            r.requested() == Set::<Seq<char>>::empty(),
    {
        let r = RefDiscovery { seen: Vec::new() };
        assert(views(r.seen@) =~= Seq::<Seq<char>>::empty());
        r
    }

    /// Whether `p` has been requested already.
    pub fn has_requested(&self, p: &String) -> (r: bool)
        ensures
            r == self.requested().contains(p@),
    {
        let mut i: usize = 0;
        while i < self.seen.len()
            invariant
                i <= self.seen.len(),
                forall|j: int| 0 <= j < i ==> self.seen@[j]@ != p@,
            decreases self.seen.len() - i,
        {
            if self.seen[i] == *p {
                assert(views(self.seen@)[i as int] == p@);
                return true;
            }
            i = i + 1;
        }
        assert(!views(self.seen@).contains(p@)) by {
            if views(self.seen@).contains(p@) {
                let j = choose|j: int| 0 <= j < views(self.seen@).len() && views(self.seen@)[j] == p@;
                assert(self.seen@[j]@ == p@);
            }
        }
        false
    }

    /// The next wave: each path of `found` that was not requested before,
    /// once. Those paths count as requested afterwards.
    pub fn next_wave(&mut self, found: &Vec<String>) -> (wave: Vec<String>)
        requires
            old(self).wf(),
        ensures
            final(self).wf(),
            views(wave@).no_duplicates(),
            views(wave@).to_set() == views(found@).to_set().difference(old(self).requested()),
            final(self).requested() == old(self).requested().union(views(found@).to_set()),
    {
        let mut wave: Vec<String> = Vec::new();
        let mut i: usize = 0;
        while i < found.len()
            invariant
                i <= found.len(),
                self.wf(),
                views(wave@).no_duplicates(),
                views(wave@).to_set() == views(found@).take(i as int).to_set().difference(
                    old(self).requested(),
                ),
                self.requested() == old(self).requested().union(
                    views(found@).take(i as int).to_set(),
                ),
            decreases found.len() - i,
        {
            let p = &found[i];
            let ghost fi = views(found@).take(i as int + 1);
            assert(fi =~= views(found@).take(i as int).push(p@));
            proof {
                views(found@).take(i as int).lemma_push_to_set_commute(p@);
            }
            assert(fi.to_set() =~= views(found@).take(i as int).to_set().insert(p@));
            if !self.has_requested(p) {
                let ghost sw = wave@;
                let ghost ss = self.seen@;
                wave.push(p.clone());
                self.seen.push(p.clone());
                assert(views(wave@) =~= views(sw).push(p@));
                assert(views(self.seen@) =~= views(ss).push(p@));
                assert(!views(sw).contains(p@)) by {
                    if views(sw).contains(p@) {
                        assert(views(sw).to_set().contains(p@));
                    }
                }
                proof {
                    views(sw).lemma_push_to_set_commute(p@);
                    views(ss).lemma_push_to_set_commute(p@);
                }
                assert(views(wave@).to_set() =~= views(sw).to_set().insert(p@));
                assert(views(self.seen@).to_set() =~= views(ss).to_set().insert(p@));
                assert(views(wave@).to_set() =~= fi.to_set().difference(old(self).requested()));
            } else {
                assert(views(wave@).to_set() =~= fi.to_set().difference(old(self).requested()));
                assert(self.requested() =~= old(self).requested().union(fi.to_set()));
            }
            i = i + 1;
        }
        assert(views(found@).take(found.len() as int) =~= views(found@));
        wave
    }
}

/// The well-known files where references are first looked for.
pub fn ref_seeds() -> (r: Vec<String>)
    ensures
        views(r@) == seq![
            ".git/HEAD"@,
            ".git/config"@,
            ".git/packed-refs"@,
            ".git/info/refs"@,
            ".git/FETCH_HEAD"@,
            ".git/ORIG_HEAD"@,
            ".git/logs/HEAD"@,
            ".git/refs/heads/master"@,
            ".git/refs/heads/main"@,
            ".git/refs/remotes/origin/HEAD"@,
            ".git/refs/stash"@,
            ".git/refs/wip/wtree/refs/heads/master"@,
            ".git/logs/refs/heads/master"@,
            ".git/logs/refs/heads/main"@,
            ".git/logs/refs/remotes/origin/HEAD"@,
            ".git/logs/refs/stash"@,
        ],
{
    let mut v: Vec<String> = Vec::new();
    v.push(String::from_str(".git/HEAD"));
    v.push(String::from_str(".git/config"));
    v.push(String::from_str(".git/packed-refs"));
    v.push(String::from_str(".git/info/refs"));
    v.push(String::from_str(".git/FETCH_HEAD"));
    v.push(String::from_str(".git/ORIG_HEAD"));
    v.push(String::from_str(".git/logs/HEAD"));
    v.push(String::from_str(".git/refs/heads/master"));
    v.push(String::from_str(".git/refs/heads/main"));
    v.push(String::from_str(".git/refs/remotes/origin/HEAD"));
    v.push(String::from_str(".git/refs/stash"));
    v.push(String::from_str(".git/refs/wip/wtree/refs/heads/master"));
    v.push(String::from_str(".git/logs/refs/heads/master"));
    v.push(String::from_str(".git/logs/refs/heads/main"));
    v.push(String::from_str(".git/logs/refs/remotes/origin/HEAD"));
    v.push(String::from_str(".git/logs/refs/stash"));
    assert(views(v@) =~= seq![
        ".git/HEAD"@,
        ".git/config"@,
        ".git/packed-refs"@,
        ".git/info/refs"@,
        ".git/FETCH_HEAD"@,
        ".git/ORIG_HEAD"@,
        ".git/logs/HEAD"@,
        ".git/refs/heads/master"@,
        ".git/refs/heads/main"@,
        ".git/refs/remotes/origin/HEAD"@,
        ".git/refs/stash"@,
        ".git/refs/wip/wtree/refs/heads/master"@,
        ".git/logs/refs/heads/master"@,
        ".git/logs/refs/heads/main"@,
        ".git/logs/refs/remotes/origin/HEAD"@,
        ".git/logs/refs/stash"@,
    ]);
    v
}

} // verus!
