//! Views and spec functions over text, and the string helpers that
//! build paths.

use vstd::prelude::*;

verus! {

/// The segments joined with `/` between them.
pub open spec fn join_slash(segs: Seq<Seq<char>>) -> Seq<char>
    decreases segs.len(),
{
    if segs.len() == 0 {
        Seq::empty()
    } else if segs.len() == 1 {
        segs[0]
    } else {
        join_slash(segs.drop_last()) + seq!['/'] + segs.last()
    }
}

/// `s` without its trailing `/` characters.
pub open spec fn trim_end_slashes(s: Seq<char>) -> Seq<char>
    decreases s.len(),
{
    if s.len() > 0 && s.last() == '/' {
        trim_end_slashes(s.drop_last())
    } else {
        s
    }
}

/// The views of a vector of strings.
pub open spec fn views(v: Seq<String>) -> Seq<Seq<char>> {
    v.map_values(|s: String| s@)
}

/// `s` begins with the character `c`.
pub open spec fn starts_with_char(s: Seq<char>, c: char) -> bool {
    s.len() > 0 && s[0] == c
}

/// `s` ends with the character `c`.
pub open spec fn ends_with_char(s: Seq<char>, c: char) -> bool {
    s.len() > 0 && s.last() == c
}

/// Joins `v[0..n]` with `/`.
pub fn join_prefix(v: &Vec<String>, n: usize) -> (r: String)
    requires
        n <= v.len(),
    ensures
        r@ == join_slash(views(v@).take(n as int)),
{
    let mut acc = String::new();
    let mut i: usize = 0;
    while i < n
        invariant
            i <= n <= v.len(),
            acc@ == join_slash(views(v@).take(i as int)),
        decreases n - i,
    {
        let ghost before = views(v@).take(i as int);
        let ghost after = views(v@).take(i as int + 1);
        assert(after.drop_last() =~= before);
        assert(after.last() == v@[i as int]@);
        if i > 0 {
            acc.append("/");
            proof { reveal_strlit("/"); }
        } else {
            assert(after =~= seq![v@[0]@]);
        }
        acc.append(v[i].as_str());
        i = i + 1;
    }
    acc
}

pub proof fn lemma_trim_end_prefix(s: Seq<char>, k: int)
    requires
        0 <= k <= s.len(),
        forall|j: int| k <= j < s.len() ==> s[j] == '/',
        k == 0 || s[k - 1] != '/',
    ensures
        trim_end_slashes(s) == s.take(k),
    decreases s.len(),
{
    if s.len() > k {
        assert(s.drop_last().len() == s.len() - 1);
        lemma_trim_end_prefix(s.drop_last(), k);
        assert(s.drop_last().take(k) =~= s.take(k));
    } else {
        assert(s.take(k) =~= s);
    }
}

/// `s` without its trailing `/` characters.
pub fn trim_trailing_slashes(s: &str) -> (r: String)
    ensures
        r@ == trim_end_slashes(s@),
{
    let mut k: usize = s.unicode_len();
    while k > 0 && s.get_char(k - 1) == '/'
        invariant
            k <= s@.len(),
            forall|j: int| k <= j < s@.len() ==> s@[j] == '/',
        decreases k,
    {
        k = k - 1;
    }
    proof { lemma_trim_end_prefix(s@, k as int); }
    let t = s.substring_char(0, k);
    assert(t@ =~= s@.take(k as int));
    t.to_owned()
}

/// Position `i` of `s` begins a segment.
pub open spec fn segment_start(s: Seq<char>, i: int) -> bool {
    i == 0 || s[i - 1] == '/'
}

/// Position `j` of `s` ends a segment.
pub open spec fn segment_end(s: Seq<char>, j: int) -> bool {
    j == s.len() || s[j] == '/'
}

/// At position `i` of `s` begins what could lead a path out of the
/// directory it is joined to: a `.` or `..` segment, a backslash (which a
/// URL parser takes for a slash), or `%2e`, the escaped dot.
pub open spec fn leaves_at(s: Seq<char>, i: int) -> bool {
    ||| s[i] == '.' && segment_start(s, i) && (segment_end(s, i + 1) || (i + 1 < s.len()
        && s[i + 1] == '.' && segment_end(s, i + 2)))
    ||| s[i] == '\\'
    ||| s[i] == '%' && i + 2 < s.len() && s[i + 1] == '2' && (s[i + 2] == 'e' || s[i + 2] == 'E')
}

/// A relative path that stays below the directory it is joined to.
pub open spec fn is_confined(s: Seq<char>) -> bool {
    forall|i: int| 0 <= i < s.len() ==> !#[trigger] leaves_at(s, i)
}

/// Whether `s` stays below the directory it is joined to.
pub fn confined(s: &str) -> (r: bool)
    ensures
        r == is_confined(s@),
{
    let n = s.unicode_len();
    let mut i: usize = 0;
    while i < n
        invariant
            i <= n,
            n == s@.len(),
            forall|j: int| 0 <= j < i ==> !#[trigger] leaves_at(s@, j),
        decreases n - i,
    {
        let c = s.get_char(i);
        let start = i == 0 || s.get_char(i - 1) == '/';
        let end1 = i + 1 == n || s.get_char(i + 1) == '/';
        let dotdot = n - i > 1 && s.get_char(i + 1) == '.' && (n - i == 2 || s.get_char(i + 2) == '/');
        let escaped = c == '%' && n - i > 2 && s.get_char(i + 1) == '2' && (s.get_char(i + 2) == 'e'
            || s.get_char(i + 2) == 'E');
        if (c == '.' && start && (end1 || dotdot)) || c == '\\' || escaped {
            assert(leaves_at(s@, i as int));
            return false;
        }
        assert(!leaves_at(s@, i as int));
        i = i + 1;
    }
    true
}

} // verus!
