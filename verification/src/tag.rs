use vstd::prelude::*;

verus! {

/// Relies on `str`'s `PartialEq` implementation in std: two string slices
/// are equal exactly when they consist of the same characters.
pub assume_specification[ <str as PartialEq>::eq ](a: &str, b: &str) -> (r: bool)
    ensures
        r == (a@ == b@),
;

/// A flat, JSON-like tag payload: string keys mapped to string values.
///
/// The payload is kept as a list of key/value pairs.  When a key is given
/// more than once, the pair given last is the one that counts, as when such
/// an object is built up key by key.
#[derive(Debug, PartialEq)]
pub struct Tag {
    pairs: Vec<(String, String)>,
}

/// The map denoted by a list of key/value pairs, a later pair for a key
/// replacing an earlier one.
spec fn map_of_pairs(s: Seq<(String, String)>) -> Map<Seq<char>, Seq<char>>
    decreases s.len(),
{
    if s.len() == 0 {
        Map::empty()
    } else {
        map_of_pairs(s.drop_last()).insert(s.last().0@, s.last().1@)
    }
}

impl View for Tag {
    type V = Map<Seq<char>, Seq<char>>;

    closed spec fn view(&self) -> Map<Seq<char>, Seq<char>> {
        map_of_pairs(self.pairs@)
    }
}

/// As far as the key `k` goes, pairs whose keys all differ from `k` add
/// nothing: the denoted map agrees with the one denoted by the prefix.
proof fn lemma_map_of_pairs_unmatched(s: Seq<(String, String)>, k: Seq<char>, i: int)
    requires
        0 <= i <= s.len(),
        forall|j: int| i <= j < s.len() ==> s[j].0@ != k,
    ensures
        map_of_pairs(s).contains_key(k) == map_of_pairs(s.take(i)).contains_key(k),
        map_of_pairs(s).contains_key(k) ==> map_of_pairs(s)[k] == map_of_pairs(s.take(i))[k],
    decreases s.len() - i,
{
    if i == s.len() {
        assert(s.take(i) =~= s);
    } else {
        let d = s.drop_last();
        assert(s[s.len() - 1].0@ != k);
        lemma_map_of_pairs_unmatched(d, k, i);
        assert(d.take(i) =~= s.take(i));
    }
}

/// The key of every pair is in the domain of the denoted map.
proof fn lemma_map_of_pairs_key_in_dom(s: Seq<(String, String)>, i: int)
    requires
        0 <= i < s.len(),
    ensures
        map_of_pairs(s).contains_key(s[i].0@),
    decreases s.len(),
{
    if i < s.len() - 1 {
        lemma_map_of_pairs_key_in_dom(s.drop_last(), i);
    }
}

/// Every key in the domain of the denoted map is the key of some pair.
proof fn lemma_map_of_pairs_dom(s: Seq<(String, String)>, k: Seq<char>)
    requires
        map_of_pairs(s).contains_key(k),
    ensures
        exists|i: int| 0 <= i < s.len() && s[i].0@ == k,
    decreases s.len(),
{
    if s.len() > 0 {
        if s.last().0@ == k {
            assert(s[s.len() - 1].0@ == k);
        } else {
            lemma_map_of_pairs_dom(s.drop_last(), k);
            let i = choose|i: int| 0 <= i < s.drop_last().len() && s.drop_last()[i].0@ == k;
            assert(s[i].0@ == k);
        }
    }
}

/// Two pair lists whose keys and values read the same denote the same map.
proof fn lemma_map_of_pairs_congruent(a: Seq<(String, String)>, b: Seq<(String, String)>)
    requires
        a.len() == b.len(),
        forall|j: int| 0 <= j < a.len() ==> a[j].0@ == b[j].0@ && a[j].1@ == b[j].1@,
    ensures
        map_of_pairs(a) == map_of_pairs(b),
    decreases a.len(),
{
    if a.len() > 0 {
        lemma_map_of_pairs_congruent(a.drop_last(), b.drop_last());
    }
}

impl Tag {
    /// The empty payload.
    pub fn new() -> (r: Tag)
        ensures
            r@ == Map::<Seq<char>, Seq<char>>::empty(),
    {
        Tag { pairs: Vec::new() }
    }

    /// Bind `key` to `value`, replacing any earlier binding of `key`.
    pub fn insert(&mut self, key: String, value: String)
        ensures
            final(self)@ == old(self)@.insert(key@, value@),
    {
        self.pairs.push((key, value));
        proof {
            assert(self.pairs@.drop_last() =~= old(self).pairs@);
        }
    }

    /// Look the value of `key` up.
    pub fn get(&self, key: &String) -> (r: Option<&String>)
        ensures
            match r {
                Some(v) => self@.contains_key(key@) && v@ == self@[key@],
                None => !self@.contains_key(key@),
            },
    {
        let mut i: usize = self.pairs.len();
        while i > 0
            invariant
                i <= self.pairs.len(),
                forall|j: int| i <= j < self.pairs@.len() ==> self.pairs@[j].0@ != key@,
            decreases i,
        {
            i = i - 1;
            if self.pairs[i].0 == *key {
                proof {
                    lemma_map_of_pairs_unmatched(self.pairs@, key@, i + 1);
                    assert(self.pairs@.take(i + 1).drop_last() =~= self.pairs@.take(i as int));
                    assert(self.pairs@.take(i + 1).last() == self.pairs@[i as int]);
                }
                return Some(&self.pairs[i].1);
            }
        }
        proof {
            lemma_map_of_pairs_unmatched(self.pairs@, key@, 0);
            assert(self.pairs@.take(0) =~= Seq::<(String, String)>::empty());
        }
        None
    }

    /// Whether this payload is a structural superset of `fragment`: every
    /// binding of `fragment` is also a binding of `self`.
    pub fn contains_fragment(&self, fragment: &Tag) -> (r: bool)
        ensures
            r == fragment@.submap_of(self@),
    {
        let n = fragment.pairs.len();
        let mut i: usize = 0;
        while i < n
            invariant
                n == fragment.pairs@.len(),
                i <= n,
                forall|j: int|
                    0 <= j < i ==> self@.contains_key(#[trigger] fragment.pairs@[j].0@)
                        && self@[fragment.pairs@[j].0@] == fragment@[fragment.pairs@[j].0@],
            decreases n - i,
        {
            let key = &fragment.pairs[i].0;
            proof {
                lemma_map_of_pairs_key_in_dom(fragment.pairs@, i as int);
            }
            let fval = match fragment.get(key) {
                Some(v) => v,
                None => {
                    proof {
                        assert(false);
                    }
                    return false;
                },
            };
            match self.get(key) {
                Some(sv) => {
                    if !(*sv == *fval) {
                        return false;
                    }
                },
                None => {
                    return false;
                },
            }
            i = i + 1;
        }
        proof {
            assert forall|k: Seq<char>| #[trigger]
                fragment@.dom().contains(k) implies self@.dom().contains(k) && fragment@[k]
                == self@[k] by {
                lemma_map_of_pairs_dom(fragment.pairs@, k);
                let j = choose|j: int|
                    0 <= j < fragment.pairs@.len() && fragment.pairs@[j].0@ == k;
                assert(self@.contains_key(fragment.pairs@[j].0@));
            }
            assert(fragment@.submap_of(self@));
        }
        true
    }
}

/// Whether the pair at `idx` is the last pair carrying its key, the one
/// that counts.
spec fn is_last_binding(s: Seq<(String, String)>, idx: int) -> bool {
    forall|j: int| idx < j < s.len() ==> (#[trigger] s[j]).0@ != s[idx].0@
}

/// Every key that some pair carries is carried by a last pair.
proof fn lemma_last_binding(s: Seq<(String, String)>, k: Seq<char>)
    requires
        exists|i: int| 0 <= i < s.len() && (#[trigger] s[i]).0@ == k,
    ensures
        exists|i: int|
            0 <= i < s.len() && (#[trigger] s[i]).0@ == k && is_last_binding(s, i),
    decreases s.len(),
{
    if s.last().0@ == k {
        assert(s[s.len() - 1].0@ == k && is_last_binding(s, s.len() - 1));
    } else {
        let d = s.drop_last();
        let i0 = choose|i: int| 0 <= i < s.len() && (#[trigger] s[i]).0@ == k;
        assert(d[i0].0@ == k);
        lemma_last_binding(d, k);
        let i = choose|i: int|
            0 <= i < d.len() && (#[trigger] d[i]).0@ == k && is_last_binding(d, i);
        assert(s[i].0@ == k);
        assert forall|j: int| i < j < s.len() implies (#[trigger] s[j]).0@ != s[i].0@ by {
            if j < s.len() - 1 {
                assert(d[j].0@ != d[i].0@);
            }
        }
    }
}

/// Whether some pair below `bound` carries the key `k` and is the last
/// pair carrying it.
spec fn key_has_last_binding_below(s: Seq<(String, String)>, bound: int, k: Seq<char>) -> bool {
    exists|idx: int|
        0 <= idx < bound && (#[trigger] s[idx]).0@ == k && is_last_binding(s, idx)
}

impl Tag {
    /// The bindings of the payload, one pair per key, each key bound to
    /// the value that counts; the order of the pairs says nothing.
    #[verifier::rlimit(50)]
    pub fn entries(&self) -> (r: Vec<(String, String)>)
        ensures
            forall|j: int|
                0 <= j < r@.len() ==> self@.contains_key((#[trigger] r@[j]).0@)
                    && self@[r@[j].0@] == r@[j].1@,
            forall|j1: int, j2: int|
                0 <= j1 < j2 < r@.len() ==> (#[trigger] r@[j1]).0@ != (#[trigger] r@[j2]).0@,
            forall|k: Seq<char>|
                self@.contains_key(k) ==> exists|j: int|
                    0 <= j < r@.len() && (#[trigger] r@[j]).0@ == k,
    {
        let n = self.pairs.len();
        let mut out: Vec<(String, String)> = Vec::new();
        let mut i: usize = 0;
        while i < n
            invariant
                n == self.pairs@.len(),
                i <= n,
                forall|j: int|
                    0 <= j < out@.len() ==> self@.contains_key((#[trigger] out@[j]).0@)
                        && self@[out@[j].0@] == out@[j].1@,
                forall|j: int|
                    0 <= j < out@.len() ==> key_has_last_binding_below(
                        self.pairs@,
                        i as int,
                        (#[trigger] out@[j]).0@,
                    ),
                forall|idx: int|
                    0 <= idx < i && is_last_binding(self.pairs@, idx) ==> exists|j: int|
                        0 <= j < out@.len() && (#[trigger] self.pairs@[idx]).0@ == out@[j].0@,
                forall|j1: int, j2: int|
                    0 <= j1 < j2 < out@.len() ==> (#[trigger] out@[j1]).0@
                        != (#[trigger] out@[j2]).0@,
            decreases n - i,
        {
            let mut last = true;
            let mut j2: usize = i + 1;
            while j2 < n
                invariant
                    n == self.pairs@.len(),
                    i < n,
                    i + 1 <= j2 <= n,
                    last <==> forall|j: int|
                        i < j < j2 ==> (#[trigger] self.pairs@[j]).0@
                            != self.pairs@[i as int].0@,
                decreases n - j2,
            {
                if self.pairs[j2].0 == self.pairs[i].0 {
                    last = false;
                    proof {
                        assert((#[trigger] self.pairs@[j2 as int]).0@
                            == self.pairs@[i as int].0@);
                    }
                }
                j2 = j2 + 1;
            }
            let ghost prev = out@;
            if last {
                proof {
                    assert(is_last_binding(self.pairs@, i as int));
                    lemma_map_of_pairs_key_in_dom(self.pairs@, i as int);
                    lemma_map_of_pairs_unmatched(self.pairs@, self.pairs@[i as int].0@, i + 1);
                    assert(self.pairs@.take(i + 1).drop_last() =~= self.pairs@.take(i as int));
                    assert(self.pairs@.take(i + 1).last() == self.pairs@[i as int]);
                    assert forall|j: int| 0 <= j < prev.len() implies (#[trigger] prev[j]).0@
                        != self.pairs@[i as int].0@ by {
                        assert(key_has_last_binding_below(self.pairs@, i as int, prev[j].0@));
                        let idx = choose|idx: int|
                            0 <= idx < i && (#[trigger] self.pairs@[idx]).0@ == prev[j].0@
                                && is_last_binding(self.pairs@, idx);
                        assert(self.pairs@[i as int].0@ != self.pairs@[idx].0@);
                    }
                }
                let key = self.pairs[i].0.clone();
                let value = self.pairs[i].1.clone();
                out.push((key, value));
            } else {
                proof {
                    assert(!is_last_binding(self.pairs@, i as int));
                }
            }
            proof {
                assert forall|j: int| 0 <= j < out@.len() implies key_has_last_binding_below(
                    self.pairs@,
                    i + 1,
                    (#[trigger] out@[j]).0@,
                ) by {
                    if j < prev.len() {
                        assert(out@[j] == prev[j]);
                        assert(key_has_last_binding_below(self.pairs@, i as int, prev[j].0@));
                        let idx = choose|idx: int|
                            0 <= idx < i && (#[trigger] self.pairs@[idx]).0@ == prev[j].0@
                                && is_last_binding(self.pairs@, idx);
                        assert(0 <= idx < i + 1 && self.pairs@[idx].0@ == out@[j].0@
                            && is_last_binding(self.pairs@, idx));
                    } else {
                        assert(0 <= i < i + 1 && (#[trigger] self.pairs@[i as int]).0@
                            == out@[j].0@ && is_last_binding(self.pairs@, i as int));
                    }
                }
                assert forall|idx: int|
                    0 <= idx < i + 1 && is_last_binding(self.pairs@, idx) implies exists|j: int|
                    0 <= j < out@.len() && (#[trigger] self.pairs@[idx]).0@ == out@[j].0@ by {
                    if idx < i {
                        let j = choose|j: int|
                            0 <= j < prev.len() && (#[trigger] self.pairs@[idx]).0@ == prev[j].0@;
                        assert(out@[j] == prev[j]);
                        assert(0 <= j < out@.len() && self.pairs@[idx].0@ == out@[j].0@);
                    } else {
                        assert(out@[out@.len() - 1].0@ == self.pairs@[i as int].0@);
                    }
                }
            }
            i = i + 1;
        }
        proof {
            assert forall|k: Seq<char>| self@.contains_key(k) implies exists|j: int|
                0 <= j < out@.len() && (#[trigger] out@[j]).0@ == k by {
                lemma_map_of_pairs_dom(self.pairs@, k);
                lemma_last_binding(self.pairs@, k);
                let idx = choose|idx: int|
                    0 <= idx < self.pairs@.len() && (#[trigger] self.pairs@[idx]).0@ == k
                        && is_last_binding(self.pairs@, idx);
                assert(exists|j: int|
                    0 <= j < out@.len() && (#[trigger] self.pairs@[idx]).0@ == out@[j].0@);
            }
        }
        out
    }
}

impl Clone for Tag {
    /// A clone denotes the same map.
    fn clone(&self) -> (r: Self)
        ensures
            r@ == self@,
    {
        let mut pairs: Vec<(String, String)> = Vec::new();
        let mut i: usize = 0;
        while i < self.pairs.len()
            invariant
                i <= self.pairs.len(),
                pairs@.len() == i,
                forall|j: int|
                    0 <= j < i ==> pairs@[j].0@ == #[trigger] self.pairs@[j].0@ && pairs@[j].1@
                        == self.pairs@[j].1@,
            decreases self.pairs.len() - i,
        {
            let key = self.pairs[i].0.clone();
            let value = self.pairs[i].1.clone();
            pairs.push((key, value));
            i = i + 1;
        }
        proof {
            lemma_map_of_pairs_congruent(pairs@, self.pairs@);
        }
        Tag { pairs }
    }
}

} // verus!
