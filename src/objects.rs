//! Reconciliation of object hashes from every source into one set, and the
//! loose-object paths that are finally downloaded.

use vstd::prelude::*;
use crate::pattern::{captured, find_all, OBJECT_PATTERN};
use crate::text::views;

verus! {

/// A lowercase hexadecimal digit.
pub open spec fn is_hex_lower(c: char) -> bool {
    ('0' <= c && c <= '9') || ('a' <= c && c <= 'f')
}

/// Forty lowercase hexadecimal digits.
pub open spec fn is_object_hash(h: Seq<char>) -> bool {
    h.len() == 40 && forall|i: int| 0 <= i < 40 ==> is_hex_lower(#[trigger] h[i])
}

/// The all-zero hash, which names no object.
pub open spec fn null_hash() -> Seq<char> {
    Seq::new(40, |i: int| '0')
}

/// `.git/objects/`
pub open spec fn objects_prefix() -> Seq<char> {
    seq!['.', 'g', 'i', 't', '/', 'o', 'b', 'j', 'e', 'c', 't', 's', '/']
}

/// Where the loose object of `h` is stored: `.git/objects/<h[0:2]>/<h[2:]>`.
pub open spec fn object_path(h: Seq<char>) -> Seq<char> {
    objects_prefix() + h.take(2) + seq!['/'] + h.skip(2)
}

/// The object hashes among the strings of `s`.
pub open spec fn hashes_in(s: Seq<Seq<char>>) -> Set<Seq<char>> {
    s.to_set().filter(|h: Seq<char>| is_object_hash(h))
}

/// The paths downloaded for a set of hashes: every hash but the null one.
pub open spec fn download_set(s: Set<Seq<char>>) -> Set<Seq<char>> {
    s.remove(null_hash()).map(|h: Seq<char>| object_path(h))
}

/// A list of paths holds each path of `download_set(s)` once, and no other.
pub open spec fn is_download_list(r: Seq<Seq<char>>, s: Set<Seq<char>>) -> bool {
    r.no_duplicates() && r.to_set() == download_set(s)
}

proof fn lemma_download_set_insert(s: Set<Seq<char>>, h: Seq<char>)
    requires
        h != null_hash(),
    ensures
        download_set(s.insert(h)) == download_set(s).insert(object_path(h)),
{
    let f = |g: Seq<char>| object_path(g);
    assert(s.insert(h).remove(null_hash()) =~= s.remove(null_hash()).insert(h));
    let a = s.remove(null_hash()).insert(h).map(f);
    let b = s.remove(null_hash()).map(f).insert(object_path(h));
    assert forall|p: Seq<char>| a.contains(p) <==> b.contains(p) by {
        if a.contains(p) {
            let g = choose|g: Seq<char>| s.remove(null_hash()).insert(h).contains(g) && f(g) == p;
            if g != h {
                assert(s.remove(null_hash()).contains(g));
                assert(s.remove(null_hash()).map(f).contains(p));
            }
        }
        if b.contains(p) {
            if p != object_path(h) {
                let g = choose|g: Seq<char>| s.remove(null_hash()).contains(g) && f(g) == p;
                assert(s.remove(null_hash()).insert(h).contains(g));
            } else {
                assert(s.remove(null_hash()).insert(h).contains(h));
            }
        }
    }
    assert(a =~= b);
}

pub proof fn lemma_object_path_injective(a: Seq<char>, b: Seq<char>)
    requires
        a.len() >= 2,
        b.len() >= 2,
        object_path(a) == object_path(b),
    ensures
        a == b,
{
    let pa = object_path(a);
    let pb = object_path(b);
    assert(pa.len() == b.len() + 14);
    assert forall|i: int| 0 <= i < a.len() implies a[i] == b[i] by {
        if i < 2 {
            assert(pa[13 + i] == a[i]);
            assert(pb[13 + i] == b[i]);
        } else {
            assert(pa[14 + i] == a[i]);
            assert(pb[14 + i] == b[i]);
        }
    }
    assert(a =~= b);
}

/// The null hash is never among the downloaded paths.
pub proof fn lemma_null_hash_never_downloaded(r: Seq<Seq<char>>, s: Set<Seq<char>>)
    requires
        forall|h: Seq<char>| #[trigger] s.contains(h) ==> is_object_hash(h),
        is_download_list(r, s),
    ensures
        !r.contains(object_path(null_hash())),
{
    if r.contains(object_path(null_hash())) {
        assert(r.to_set().contains(object_path(null_hash())));
        let h = choose|h: Seq<char>|
            s.remove(null_hash()).contains(h) && object_path(h) == object_path(null_hash());
        lemma_object_path_injective(h, null_hash());
    }
}

/// A hash that two sources both report is downloaded exactly once.
pub proof fn lemma_shared_hash_downloaded_once(
    a: Seq<Seq<char>>,
    b: Seq<Seq<char>>,
    h: Seq<char>,
    r: Seq<Seq<char>>,
)
    requires
        a.contains(h),
        b.contains(h),
        is_object_hash(h),
        h != null_hash(),
        is_download_list(r, hashes_in(a).union(hashes_in(b))),
    ensures
        r.filter(|p: Seq<char>| p == object_path(h)).len() == 1,
{
    let s = hashes_in(a).union(hashes_in(b));
    assert(a.to_set().contains(h));
    assert(s.remove(null_hash()).contains(h));
    assert(r.to_set().contains(object_path(h)));
    let k = choose|k: int| 0 <= k < r.len() && r[k] == object_path(h);
    lemma_filter_unique(r, object_path(h), k);
}

proof fn lemma_filter_unique(r: Seq<Seq<char>>, p: Seq<char>, k: int)
    requires
        r.no_duplicates(),
        0 <= k < r.len(),
        r[k] == p,
    ensures
        r.filter(|q: Seq<char>| q == p).len() == 1,
    decreases r.len(),
{
    let f = |q: Seq<char>| q == p;
    reveal(Seq::filter);
    if k == r.len() - 1 {
        assert(!r.drop_last().contains(p)) by {
            if r.drop_last().contains(p) {
                let j = choose|j: int| 0 <= j < r.len() - 1 && r.drop_last()[j] == p;
                assert(r[j] == r[k]);
            }
        }
        lemma_filter_absent(r.drop_last(), p);
    } else {
        assert(r.drop_last().no_duplicates()) by {
            assert forall|i: int, j: int|
                0 <= i < r.len() - 1 && 0 <= j < r.len() - 1 && i != j implies r.drop_last()[i]
                != r.drop_last()[j] by {
                assert(r[i] != r[j]);
            }
        }
        assert(r.last() != p) by {
            assert(r[r.len() - 1] != r[k]);
        }
        lemma_filter_unique(r.drop_last(), p, k);
    }
}

proof fn lemma_filter_absent(r: Seq<Seq<char>>, p: Seq<char>)
    requires
        !r.contains(p),
    ensures
        r.filter(|q: Seq<char>| q == p).len() == 0,
    decreases r.len(),
{
    reveal(Seq::filter);
    if r.len() > 0 {
        assert(r.last() != p) by {
            assert(r[r.len() - 1] == r.last());
        }
        assert(!r.drop_last().contains(p)) by {
            if r.drop_last().contains(p) {
                let j = choose|j: int| 0 <= j < r.len() - 1 && r.drop_last()[j] == p;
                assert(r[j] == p);
            }
        }
        lemma_filter_absent(r.drop_last(), p);
    }
}

/// Whether `h` is forty lowercase hexadecimal digits.
pub fn is_hash(h: &str) -> (r: bool)
    ensures
        r == is_object_hash(h@),
{
    if h.unicode_len() != 40 {
        return false;
    }
    let mut i: usize = 0;
    while i < 40
        invariant
            i <= 40,
            h@.len() == 40,
            forall|j: int| 0 <= j < i ==> is_hex_lower(#[trigger] h@[j]),
        decreases 40 - i,
    {
        let c = h.get_char(i);
        if !(('0' <= c && c <= '9') || ('a' <= c && c <= 'f')) {
            return false;
        }
        i = i + 1;
    }
    true
}

/// Whether `h` is the all-zero hash.
pub fn is_null_hash(h: &str) -> (r: bool)
    ensures
        r == (h@ == null_hash()),
{
    if h.unicode_len() != 40 {
        return false;
    }
    let mut i: usize = 0;
    while i < 40
        invariant
            i <= 40,
            h@.len() == 40,
            forall|j: int| 0 <= j < i ==> h@[j] == '0',
        decreases 40 - i,
    {
        if h.get_char(i) != '0' {
            return false;
        }
        i = i + 1;
    }
    assert(h@ =~= null_hash());
    true
}

/// The path of the loose object `h`.
pub fn object_file(h: &str) -> (r: String)
    requires
        h@.len() >= 2,
    ensures
        r@ == object_path(h@),
{
    let n = h.unicode_len();
    let mut p = String::from_str(".git/objects/");
    p.append(h.substring_char(0, 2));
    p.append("/");
    p.append(h.substring_char(2, n));
    proof {
        reveal_strlit(".git/objects/");
        reveal_strlit("/");
        assert(p@ =~= object_path(h@));
    }
    p
}

/// The object hashes gathered so far, each once.
pub struct ObjectSet {
    hashes: Vec<String>,
}

impl View for ObjectSet {
    type V = Set<Seq<char>>;

    closed spec fn view(&self) -> Set<Seq<char>> {
        views(self.hashes@).to_set()
    }
}

impl ObjectSet {
    pub closed spec fn wf(&self) -> bool {
        &&& views(self.hashes@).no_duplicates()
        &&& forall|i: int| 0 <= i < self.hashes@.len() ==> is_object_hash(#[trigger] self.hashes@[i]@)
    }

    /// An empty set.
    pub fn new() -> (r: ObjectSet)
        ensures
            r.wf(),
            r@ == Set::<Seq<char>>::empty(),
    {
        let r = ObjectSet { hashes: Vec::new() };
        assert(views(r.hashes@) =~= Seq::<Seq<char>>::empty());
        r
    }

    /// Every member is an object hash.
    pub proof fn lemma_members_are_hashes(&self)
        requires
            self.wf(),
        ensures
            forall|h: Seq<char>| #[trigger] self@.contains(h) ==> is_object_hash(h),
    {
        assert forall|h: Seq<char>| #[trigger] self@.contains(h) implies is_object_hash(h) by {
            let j = choose|j: int| 0 <= j < views(self.hashes@).len() && views(self.hashes@)[j] == h;
            assert(is_object_hash(self.hashes@[j]@));
        }
    }

    /// The number of hashes.
    pub fn len(&self) -> (r: usize)
        requires
            self.wf(),
        ensures
            r == self@.len(),
    {
        proof { views(self.hashes@).unique_seq_to_set(); }
        self.hashes.len()
    }

    /// Whether `h` is in the set.
    pub fn contains(&self, h: &str) -> (r: bool)
        ensures
            r == self@.contains(h@),
    {
        let target = h.to_owned();
        let mut i: usize = 0;
        while i < self.hashes.len()
            invariant
                i <= self.hashes.len(),
                target@ == h@,
                forall|j: int| 0 <= j < i ==> self.hashes@[j]@ != h@,
            decreases self.hashes.len() - i,
        {
            if self.hashes[i] == target {
                assert(views(self.hashes@)[i as int] == h@);
                return true;
            }
            i = i + 1;
        }
        assert(!views(self.hashes@).contains(h@)) by {
            if views(self.hashes@).contains(h@) {
                let j = choose|j: int| 0 <= j < views(self.hashes@).len() && views(self.hashes@)[j] == h@;
                assert(self.hashes@[j]@ == h@);
            }
        }
        false
    }

    /// Adds `h` if it is an object hash; anything else is left out. Returns
    /// whether the set grew.
    pub fn insert(&mut self, h: &str) -> (r: bool)
        requires
            old(self).wf(),
        ensures
            final(self).wf(),
            is_object_hash(h@) ==> final(self)@ == old(self)@.insert(h@),
            !is_object_hash(h@) ==> final(self)@ == old(self)@,
            r == (is_object_hash(h@) && !old(self)@.contains(h@)),
    {
        if !is_hash(h) || self.contains(h) {
            proof {
                if is_object_hash(h@) {
                    assert(old(self)@.insert(h@) =~= old(self)@);
                }
            }
            return false;
        }
        let ghost before = self.hashes@;
        self.hashes.push(h.to_owned());
        proof {
            assert(views(self.hashes@) =~= views(before).push(h@));
            views(before).lemma_push_to_set_commute(h@);
            assert(!views(before).contains(h@)) by {
                if views(before).contains(h@) {
                    assert(views(before).to_set().contains(h@));
                }
            }
            assert forall|i: int| 0 <= i < self.hashes@.len() implies is_object_hash(
                #[trigger] self.hashes@[i]@,
            ) by {
                if i < before.len() {
                    assert(self.hashes@[i] == before[i]);
                }
            }
        }
        true
    }

    /// Adds every object hash among `hs`.
    pub fn extend(&mut self, hs: &Vec<String>)
        requires
            old(self).wf(),
        ensures
            final(self).wf(),
            final(self)@ == old(self)@.union(hashes_in(views(hs@))),
    {
        let mut i: usize = 0;
        while i < hs.len()
            invariant
                i <= hs.len(),
                self.wf(),
                self@ == old(self)@.union(hashes_in(views(hs@).take(i as int))),
            decreases hs.len() - i,
        {
            let ghost t = views(hs@).take(i as int);
            proof {
                assert(views(hs@).take(i as int + 1) =~= t.push(hs@[i as int]@));
                t.lemma_push_to_set_commute(hs@[i as int]@);
            }
            self.insert(hs[i].as_str());
            assert(self@ =~= old(self)@.union(hashes_in(views(hs@).take(i as int + 1))));
            i = i + 1;
        }
        assert(views(hs@).take(hs.len() as int) =~= views(hs@));
    }

    /// Adds the hashes that stand alone, bounded by whitespace or the ends
    /// of the text, in `text`.
    pub fn extend_from_text(&mut self, text: &str)
        requires
            old(self).wf(),
        ensures
            final(self).wf(),
            final(self)@ == old(self)@.union(hashes_in(captured(OBJECT_PATTERN@, text@, 2))),
    {
        let found = find_all(OBJECT_PATTERN, text, 2);
        self.extend(&found);
    }

    /// The path of each hash's loose object, the null hash left out, each once.
    pub fn object_paths(&self) -> (r: Vec<String>)
        requires
            self.wf(),
        ensures
            is_download_list(views(r@), self@),
    {
        let mut out: Vec<String> = Vec::new();
        let mut i: usize = 0;
        while i < self.hashes.len()
            invariant
                self.wf(),
                i <= self.hashes.len(),
                views(out@).no_duplicates(),
                views(out@).to_set() == download_set(views(self.hashes@).take(i as int).to_set()),
            decreases self.hashes.len() - i,
        {
            let h = &self.hashes[i];
            let ghost t = views(self.hashes@).take(i as int);
            proof {
                assert(views(self.hashes@).take(i as int + 1) =~= t.push(h@));
                t.lemma_push_to_set_commute(h@);
            }
            if is_null_hash(h.as_str()) {
                assert(t.to_set().insert(h@).remove(null_hash()) =~= t.to_set().remove(null_hash()));
            } else {
                assert(is_object_hash(self.hashes@[i as int]@));
                let p = object_file(h.as_str());
                let ghost before = out@;
                out.push(p);
                proof {
                    assert(views(out@) =~= views(before).push(object_path(h@)));
                    views(before).lemma_push_to_set_commute(object_path(h@));
                    assert(!views(before).contains(object_path(h@))) by {
                        if views(before).contains(object_path(h@)) {
                            assert(views(before).to_set().contains(object_path(h@)));
                            let g = choose|g: Seq<char>|
                                t.to_set().remove(null_hash()).contains(g) && object_path(g)
                                    == object_path(h@);
                            let j = choose|j: int| 0 <= j < t.len() && t[j] == g;
                            assert(is_object_hash(self.hashes@[j]@));
                            lemma_object_path_injective(g, h@);
                            assert(views(self.hashes@)[j] == views(self.hashes@)[i as int]);
                        }
                    }
                    lemma_download_set_insert(t.to_set(), h@);
                }
            }
            i = i + 1;
        }
        assert(views(self.hashes@).take(self.hashes.len() as int) =~= views(self.hashes@));
        out
    }
}

} // verus!
