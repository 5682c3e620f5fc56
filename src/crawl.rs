//! The crawl of a listed tree, wave after wave, as a model over the
//! directories' listings: it ends, and it requests no path twice.

use vstd::prelude::*;
use crate::listing::{child_path, children_of, wave_of};

verus! {

/// The number of `/` characters in `s`.
pub open spec fn slash_count(s: Seq<char>) -> nat
    decreases s.len(),
{
    if s.len() == 0 {
        0
    } else {
        slash_count(s.drop_last()) + if s.last() == '/' {
            1nat
        } else {
            0nat
        }
    }
}

/// `s` holds no `/`.
pub open spec fn no_slash(s: Seq<char>) -> bool {
    forall|i: int| 0 <= i < s.len() ==> s[i] != '/'
}

/// The directories of `frontier` that the tree holds, each with the
/// entries of its listing, in order.
pub open spec fn followed(tree: Map<Seq<char>, Seq<Seq<char>>>, frontier: Seq<Seq<char>>) -> Seq<
    (Seq<char>, Seq<Seq<char>>),
>
    decreases frontier.len(),
{
    if frontier.len() == 0 {
        Seq::empty()
    } else {
        let p = frontier.last();
        followed(tree, frontier.drop_last()) + if tree.contains_key(p) {
            seq![(p, tree[p])]
        } else {
            Seq::empty()
        }
    }
}

/// The frontier after `k` waves of a crawl seeded with `seeds`.
pub open spec fn frontier_after(
    tree: Map<Seq<char>, Seq<Seq<char>>>,
    seeds: Seq<Seq<char>>,
    k: nat,
) -> Seq<Seq<char>>
    decreases k,
{
    if k == 0 {
        seeds
    } else {
        wave_of(followed(tree, frontier_after(tree, seeds, (k - 1) as nat)))
    }
}

proof fn lemma_slash_count_concat(a: Seq<char>, b: Seq<char>)
    ensures
        slash_count(a + b) == slash_count(a) + slash_count(b),
    decreases b.len(),
{
    if b.len() == 0 {
        assert(a + b =~= a);
    } else {
        lemma_slash_count_concat(a, b.drop_last());
        assert((a + b).drop_last() =~= a + b.drop_last());
        assert((a + b).last() == b.last());
    }
}

proof fn lemma_no_slash_count(s: Seq<char>)
    requires
        no_slash(s),
    ensures
        slash_count(s) == 0,
    decreases s.len(),
{
    if s.len() > 0 {
        assert(s.last() == s[s.len() - 1]);
        lemma_no_slash_count(s.drop_last());
    }
}

proof fn lemma_child_slash_count(d: Seq<char>, e: Seq<char>)
    ensures
        slash_count(child_path(d, e)) == slash_count(d) + 1 + slash_count(e),
{
    lemma_slash_count_concat(d + seq!['/'], e);
    lemma_slash_count_concat(d, seq!['/']);
    assert(seq!['/'].drop_last() =~= Seq::<char>::empty());
    assert(seq!['/'].last() == '/');
    assert(slash_count(seq!['/']) == slash_count(Seq::<char>::empty()) + 1);
}

proof fn lemma_followed_member(tree: Map<Seq<char>, Seq<Seq<char>>>, f: Seq<Seq<char>>, i: int)
    requires
        0 <= i < followed(tree, f).len(),
    ensures
        f.contains(followed(tree, f)[i].0),
        tree.contains_key(followed(tree, f)[i].0),
        followed(tree, f)[i].1 == tree[followed(tree, f)[i].0],
    decreases f.len(),
{
    let prev = followed(tree, f.drop_last());
    if i < prev.len() {
        lemma_followed_member(tree, f.drop_last(), i);
        let j = choose|j: int| 0 <= j < f.drop_last().len() && f.drop_last()[j] == prev[i].0;
        assert(f[j] == prev[i].0);
    } else {
        assert(f[f.len() - 1] == f.last());
    }
}

proof fn lemma_followed_distinct(tree: Map<Seq<char>, Seq<Seq<char>>>, f: Seq<Seq<char>>)
    requires
        f.no_duplicates(),
    ensures
        forall|i: int, j: int|
            0 <= i < followed(tree, f).len() && 0 <= j < followed(tree, f).len() && i != j
                ==> followed(tree, f)[i].0 != followed(tree, f)[j].0,
    decreases f.len(),
{
    if f.len() > 0 {
        let g = f.drop_last();
        assert(g.no_duplicates()) by {
            assert forall|i: int, j: int| 0 <= i < g.len() && 0 <= j < g.len() && i != j implies g[i]
                != g[j] by {
                assert(f[i] != f[j]);
            }
        }
        lemma_followed_distinct(tree, g);
        let prev = followed(tree, g);
        let all = followed(tree, f);
        assert forall|i: int, j: int| 0 <= i < all.len() && 0 <= j < all.len() && i != j implies all[i].0
            != all[j].0 by {
            if i < prev.len() && j < prev.len() {
                assert(all[i] == prev[i] && all[j] == prev[j]);
            } else if i < prev.len() {
                lemma_followed_member(tree, g, i);
                assert(all[i] == prev[i]);
                assert(all[j].0 == f.last());
                let t = choose|t: int| 0 <= t < g.len() && g[t] == prev[i].0;
                assert(f[t] != f[f.len() - 1]);
            } else {
                lemma_followed_member(tree, g, j);
                assert(all[j] == prev[j]);
                assert(all[i].0 == f.last());
                let t = choose|t: int| 0 <= t < g.len() && g[t] == prev[j].0;
                assert(f[t] != f[f.len() - 1]);
            }
        }
    }
}

proof fn lemma_wave_member(ls: Seq<(Seq<char>, Seq<Seq<char>>)>, k: int)
    requires
        0 <= k < wave_of(ls).len(),
    ensures
        exists|i: int, j: int|
            0 <= i < ls.len() && 0 <= j < ls[i].1.len() && wave_of(ls)[k] == child_path(
                ls[i].0,
                ls[i].1[j],
            ),
    decreases ls.len(),
{
    let prev = wave_of(ls.drop_last());
    if k < prev.len() {
        lemma_wave_member(ls.drop_last(), k);
        let (i, j) = choose|i: int, j: int|
            0 <= i < ls.drop_last().len() && 0 <= j < ls.drop_last()[i].1.len() && prev[k]
                == child_path(ls.drop_last()[i].0, ls.drop_last()[i].1[j]);
        assert(ls[i] == ls.drop_last()[i]);
        assert(wave_of(ls)[k] == prev[k]);
    } else {
        let i = ls.len() - 1;
        let j = k - prev.len();
        assert(ls[i] == ls.last());
        assert(wave_of(ls)[k] == children_of(ls.last().0, ls.last().1)[j]);
    }
}

/// Every path of the frontier after `k` waves has at least `k` slashes.
proof fn lemma_frontier_depth(
    tree: Map<Seq<char>, Seq<Seq<char>>>,
    seeds: Seq<Seq<char>>,
    k: nat,
    t: int,
)
    requires
        0 <= t < frontier_after(tree, seeds, k).len(),
    ensures
        slash_count(frontier_after(tree, seeds, k)[t]) >= k,
    decreases k,
{
    if k > 0 {
        let prev = frontier_after(tree, seeds, (k - 1) as nat);
        let ls = followed(tree, prev);
        lemma_wave_member(ls, t);
        let (i, j) = choose|i: int, j: int|
            0 <= i < ls.len() && 0 <= j < ls[i].1.len() && wave_of(ls)[t] == child_path(
                ls[i].0,
                ls[i].1[j],
            );
        lemma_followed_member(tree, prev, i);
        let s = choose|s: int| 0 <= s < prev.len() && prev[s] == ls[i].0;
        lemma_frontier_depth(tree, seeds, (k - 1) as nat, s);
        lemma_child_slash_count(ls[i].0, ls[i].1[j]);
    }
}

/// A crawl of a tree whose paths have at most `depth` segments, seeded at
/// the top, has nothing left to fetch after `depth` waves: each wave goes
/// one level deeper, and a directory holds at least one more level below
/// it.
pub proof fn lemma_crawl_terminates(
    tree: Map<Seq<char>, Seq<Seq<char>>>,
    seeds: Seq<Seq<char>>,
    depth: nat,
)
    requires
        depth >= 1,
        forall|d: Seq<char>| #[trigger] tree.contains_key(d) ==> slash_count(d) + 2 <= depth,
    ensures
        frontier_after(tree, seeds, depth).len() == 0,
{
    let prev = frontier_after(tree, seeds, (depth - 1) as nat);
    let ls = followed(tree, prev);
    if ls.len() > 0 {
        lemma_followed_member(tree, prev, 0);
        let s = choose|s: int| 0 <= s < prev.len() && prev[s] == ls[0].0;
        lemma_frontier_depth(tree, seeds, (depth - 1) as nat, s);
        assert(tree.contains_key(ls[0].0));
    }
    assert(ls =~= Seq::<(Seq<char>, Seq<Seq<char>>)>::empty());
}

/// The listings of a tree: within each, the entries are distinct names
/// without `/`.
pub open spec fn is_tree(tree: Map<Seq<char>, Seq<Seq<char>>>) -> bool {
    forall|d: Seq<char>| #[trigger]
        tree.contains_key(d) ==> tree[d].no_duplicates() && forall|j: int|
            0 <= j < tree[d].len() ==> no_slash(#[trigger] tree[d][j])
}

proof fn lemma_child_path_injective(d1: Seq<char>, e1: Seq<char>, d2: Seq<char>, e2: Seq<char>)
    requires
        no_slash(e1),
        no_slash(e2),
        child_path(d1, e1) == child_path(d2, e2),
    ensures
        d1 == d2,
        e1 == e2,
{
    let s = child_path(d1, e1);
    if e1.len() < e2.len() {
        let x = s.len() - e1.len() - 1;
        assert(s[x] == '/');
        assert(child_path(d2, e2)[x] == e2[x - d2.len() - 1]);
    } else if e2.len() < e1.len() {
        let x = s.len() - e2.len() - 1;
        assert(child_path(d2, e2)[x] == '/');
        assert(s[x] == e1[x - d1.len() - 1]);
    }
    assert(e1.len() == e2.len());
    assert(s.len() == d1.len() + 1 + e1.len());
    assert(child_path(d2, e2).len() == d2.len() + 1 + e2.len());
    assert(d1.len() == d2.len());
    let s1 = d1 + seq!['/'];
    let s2 = d2 + seq!['/'];
    assert(s == s1 + e1);
    assert(s == s2 + e2);
    assert forall|i: int| 0 <= i < e1.len() implies e1[i] == e2[i] by {
        assert((s1 + e1)[s1.len() + i] == e1[i]);
        assert((s2 + e2)[s2.len() + i] == e2[i]);
    }
    assert(e1 =~= e2);
    assert forall|i: int| 0 <= i < d1.len() implies d1[i] == d2[i] by {
        assert((s1 + e1)[i] == s1[i]);
        assert((s2 + e2)[i] == s2[i]);
        assert(s1[i] == d1[i]);
        assert(s2[i] == d2[i]);
    }
    assert(d1 =~= d2);
}

proof fn lemma_wave_distinct(ls: Seq<(Seq<char>, Seq<Seq<char>>)>)
    requires
        forall|i: int, j: int| 0 <= i < ls.len() && 0 <= j < ls.len() && i != j ==> ls[i].0 != ls[j].0,
        forall|i: int| 0 <= i < ls.len() ==> (#[trigger] ls[i]).1.no_duplicates(),
        forall|i: int, j: int| 0 <= i < ls.len() && 0 <= j < ls[i].1.len() ==> no_slash(#[trigger] ls[i].1[j]),
    ensures
        wave_of(ls).no_duplicates(),
    decreases ls.len(),
{
    if ls.len() > 0 {
        let init = ls.drop_last();
        assert forall|i: int| 0 <= i < init.len() implies (#[trigger] init[i]).1.no_duplicates() by {
            assert(init[i] == ls[i]);
        }
        assert forall|i: int, j: int| 0 <= i < init.len() && 0 <= j < init[i].1.len() implies no_slash(
            #[trigger] init[i].1[j],
        ) by {
            assert(init[i] == ls[i]);
        }
        lemma_wave_distinct(init);
        let prev = wave_of(init);
        let (d, es) = ls.last();
        let c = children_of(d, es);
        let w = wave_of(ls);
        assert(w =~= prev + c);
        assert(ls.last() == ls[ls.len() - 1]);
        assert forall|a: int, b: int| 0 <= a < w.len() && 0 <= b < w.len() && a != b implies w[a]
            != w[b] by {
            if a < prev.len() && b < prev.len() {
            } else if a >= prev.len() && b >= prev.len() {
                let ja = a - prev.len();
                let jb = b - prev.len();
                assert(no_slash(es[ja]) && no_slash(es[jb]));
                if w[a] == w[b] {
                    lemma_child_path_injective(d, es[ja], d, es[jb]);
                }
            } else {
                let (x, y) = if a < prev.len() {
                    (a, b)
                } else {
                    (b, a)
                };
                lemma_wave_member(init, x);
                let (i, j) = choose|i: int, j: int|
                    0 <= i < init.len() && 0 <= j < init[i].1.len() && prev[x] == child_path(
                        init[i].0,
                        init[i].1[j],
                    );
                let jy = y - prev.len();
                assert(init[i] == ls[i]);
                assert(no_slash(init[i].1[j]) && no_slash(es[jy]));
                if w[x] == w[y] {
                    lemma_child_path_injective(init[i].0, init[i].1[j], d, es[jy]);
                    assert(ls[i].0 != ls[ls.len() - 1].0);
                }
            }
        }
    }
}

/// In a crawl of a tree seeded with distinct top-level names, the frontier
/// after `k` waves holds distinct paths, each with exactly `k` slashes: no
/// path is requested twice within a wave, nor in two different waves.
pub proof fn lemma_crawl_no_duplicates(
    tree: Map<Seq<char>, Seq<Seq<char>>>,
    seeds: Seq<Seq<char>>,
    k: nat,
)
    requires
        is_tree(tree),
        seeds.no_duplicates(),
        forall|i: int| 0 <= i < seeds.len() ==> no_slash(#[trigger] seeds[i]),
    ensures
        frontier_after(tree, seeds, k).no_duplicates(),
        forall|t: int|
            0 <= t < frontier_after(tree, seeds, k).len() ==> slash_count(
                #[trigger] frontier_after(tree, seeds, k)[t],
            ) == k,
    decreases k,
{
    if k == 0 {
        assert forall|t: int| 0 <= t < seeds.len() implies slash_count(#[trigger] seeds[t]) == 0 by {
            lemma_no_slash_count(seeds[t]);
        }
    } else {
        let prev = frontier_after(tree, seeds, (k - 1) as nat);
        lemma_crawl_no_duplicates(tree, seeds, (k - 1) as nat);
        let ls = followed(tree, prev);
        lemma_followed_distinct(tree, prev);
        assert forall|i: int| 0 <= i < ls.len() implies (#[trigger] ls[i]).1.no_duplicates() by {
            lemma_followed_member(tree, prev, i);
        }
        assert forall|i: int, j: int| 0 <= i < ls.len() && 0 <= j < ls[i].1.len() implies no_slash(
            #[trigger] ls[i].1[j],
        ) by {
            lemma_followed_member(tree, prev, i);
        }
        lemma_wave_distinct(ls);
        let w = wave_of(ls);
        assert forall|t: int| 0 <= t < w.len() implies slash_count(#[trigger] w[t]) == k by {
            lemma_wave_member(ls, t);
            let (i, j) = choose|i: int, j: int|
                0 <= i < ls.len() && 0 <= j < ls[i].1.len() && w[t] == child_path(ls[i].0, ls[i].1[j]);
            lemma_followed_member(tree, prev, i);
            let s = choose|s: int| 0 <= s < prev.len() && prev[s] == ls[i].0;
            lemma_child_slash_count(ls[i].0, ls[i].1[j]);
            lemma_no_slash_count(ls[i].1[j]);
        }
    }
}

/// `p` is an entry of the listing of directory `d`.
pub open spec fn is_child(tree: Map<Seq<char>, Seq<Seq<char>>>, d: Seq<char>, p: Seq<char>) -> bool {
    tree.contains_key(d) && exists|j: int| 0 <= j < tree[d].len() && p == child_path(d, #[trigger] tree[d][j])
}

/// `c` descends the tree from a seed: each path is an entry of the
/// directory before it.
pub open spec fn is_descent(tree: Map<Seq<char>, Seq<Seq<char>>>, seeds: Seq<Seq<char>>, c: Seq<Seq<char>>) -> bool {
    &&& c.len() >= 1
    &&& seeds.contains(c[0])
    &&& forall|i: int| 0 <= i < c.len() - 1 ==> is_child(tree, #[trigger] c[i], c[i + 1])
}

proof fn lemma_followed_contains(
    tree: Map<Seq<char>, Seq<Seq<char>>>,
    f: Seq<Seq<char>>,
    d: Seq<char>,
)
    requires
        f.contains(d),
        tree.contains_key(d),
    ensures
        followed(tree, f).contains((d, tree[d])),
    decreases f.len(),
{
    let prev = followed(tree, f.drop_last());
    if f.last() == d {
        assert(followed(tree, f) == prev + seq![(d, tree[d])]);
        assert(followed(tree, f)[prev.len() as int] == (d, tree[d]));
    } else {
        let i = choose|i: int| 0 <= i < f.len() && f[i] == d;
        assert(i != f.len() - 1);
        assert(f.drop_last()[i] == d);
        lemma_followed_contains(tree, f.drop_last(), d);
        let t = choose|t: int| 0 <= t < prev.len() && prev[t] == (d, tree[d]);
        assert(followed(tree, f)[t] == prev[t]);
    }
}

proof fn lemma_wave_contains(ls: Seq<(Seq<char>, Seq<Seq<char>>)>, i: int, j: int)
    requires
        0 <= i < ls.len(),
        0 <= j < ls[i].1.len(),
    ensures
        wave_of(ls).contains(child_path(ls[i].0, ls[i].1[j])),
    decreases ls.len(),
{
    let prev = wave_of(ls.drop_last());
    let w = wave_of(ls);
    assert(w == prev + children_of(ls.last().0, ls.last().1));
    if i == ls.len() - 1 {
        assert(ls[i] == ls.last());
        assert(w[prev.len() + j] == children_of(ls.last().0, ls.last().1)[j]);
    } else {
        assert(ls.drop_last()[i] == ls[i]);
        lemma_wave_contains(ls.drop_last(), i, j);
        let t = choose|t: int| 0 <= t < prev.len() && prev[t] == child_path(ls[i].0, ls[i].1[j]);
        assert(w[t] == prev[t]);
    }
}

/// The crawl enumerates the whole tree: a path reached from a seed by
/// descending `k` listings is requested in wave `k`.
pub proof fn lemma_crawl_complete(
    tree: Map<Seq<char>, Seq<Seq<char>>>,
    seeds: Seq<Seq<char>>,
    c: Seq<Seq<char>>,
)
    requires
        is_descent(tree, seeds, c),
    ensures
        frontier_after(tree, seeds, (c.len() - 1) as nat).contains(c.last()),
    decreases c.len(),
{
    if c.len() > 1 {
        let b = c.drop_last();
        assert forall|i: int| 0 <= i < b.len() - 1 implies is_child(tree, #[trigger] b[i], b[i + 1]) by {
            assert(b[i] == c[i] && b[i + 1] == c[i + 1]);
        }
        lemma_crawl_complete(tree, seeds, b);
        let d = b.last();
        let p = c.last();
        assert(d == c[c.len() - 2]);
        assert(is_child(tree, c[c.len() - 2], c[c.len() - 1]));
        let j = choose|j: int| 0 <= j < tree[d].len() && p == child_path(d, #[trigger] tree[d][j]);
        let prev = frontier_after(tree, seeds, (b.len() - 1) as nat);
        lemma_followed_contains(tree, prev, d);
        let ls = followed(tree, prev);
        let i = choose|i: int| 0 <= i < ls.len() && ls[i] == (d, tree[d]);
        lemma_wave_contains(ls, i, j);
        assert((c.len() - 1) as nat - 1 == (b.len() - 1) as nat);
    } else {
        assert(c.last() == c[0]);
    }
}

} // verus!
