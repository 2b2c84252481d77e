//! A string-keyed counter map kept as an association list with unique keys,
//! and the descending-by-count ordering used for sender rankings.

use vstd::prelude::*;

use vstd::multiset::Multiset;

use crate::text::str_eq;
use crate::text::str_le;
use crate::text::lex_le;

verus! {

/// The count stored for `key`: the count of its first entry, or 0 when the
/// key is absent.
pub open spec fn seq_count_of(s: Seq<(String, usize)>, key: Seq<char>) -> nat
    decreases s.len(),
{
    if s.len() == 0 {
        0
    } else if s[0].0@ == key {
        s[0].1 as nat
    } else {
        seq_count_of(s.drop_first(), key)
    }
}

/// Whether some entry carries `key`.
pub open spec fn seq_has_key(s: Seq<(String, usize)>, key: Seq<char>) -> bool {
    exists|i: int| 0 <= i < s.len() && (#[trigger] s[i]).0@ == key
}

/// A counter keyed by strings, in first-insertion order; each key occurs at
/// most once.
#[derive(Debug)]
pub struct CountMap {
    pub entries: Vec<(String, usize)>,
}

impl Clone for CountMap {
    /// An exact copy: the entries are equal, not merely equivalent.
    fn clone(&self) -> (r: Self)
        ensures
            r.entries@ == self.entries@,
    {
        let mut entries: Vec<(String, usize)> = Vec::new();
        let n: usize = self.entries.len();
        let mut i: usize = 0;
        while i < n
            invariant
                i <= n == self.entries@.len(),
                entries@ == self.entries@.subrange(0, i as int),
            decreases n - i,
        {
            let k: String = self.entries[i].0.clone();
            let c: usize = self.entries[i].1;
            entries.push((k, c));
            i += 1;
            proof {
                assert(entries@ =~= self.entries@.subrange(0, i as int));
            }
        }
        proof {
            assert(self.entries@.subrange(0, n as int) =~= self.entries@);
        }
        CountMap { entries }
    }
}

impl CountMap {
    /// Keys are unique.
    pub open spec fn wf(self) -> bool {
        forall|i: int, j: int|
            0 <= i < j < self.entries@.len() ==> (#[trigger] self.entries@[i]).0@ != (
            #[trigger] self.entries@[j]).0@
    }

    /// The count recorded for `key`; 0 when absent.
    pub open spec fn count_of(self, key: Seq<char>) -> nat {
        seq_count_of(self.entries@, key)
    }

    /// An empty counter.
    pub fn new() -> (r: CountMap)
        ensures
            r.wf(),
            r.entries@.len() == 0,
            forall|k: Seq<char>| r.count_of(k) == 0,
    {
        CountMap { entries: Vec::new() }
    }

    /// The index of the entry holding `key`, if any.
    fn find(&self, key: &str) -> (r: Option<usize>)
        ensures
            match r {
                Some(i) => {
                    &&& 0 <= i < self.entries@.len()
                    &&& self.entries@[i as int].0@ == key@
                    &&& forall|j: int| 0 <= j < i ==> (#[trigger] self.entries@[j]).0@ != key@
                    &&& self.count_of(key@) == self.entries@[i as int].1
                },
                None => {
                    &&& !seq_has_key(self.entries@, key@)
                    &&& self.count_of(key@) == 0
                },
            },
    {
        let n: usize = self.entries.len();
        let mut i: usize = 0;
        proof {
            assert(self.entries@.skip(0) =~= self.entries@);
        }
        while i < n
            invariant
                i <= n == self.entries@.len(),
                forall|j: int| 0 <= j < i ==> (#[trigger] self.entries@[j]).0@ != key@,
                seq_count_of(self.entries@, key@) == seq_count_of(
                    self.entries@.skip(i as int),
                    key@,
                ),
            decreases n - i,
        {
            if str_eq(self.entries[i].0.as_str(), key) {
                proof {
                    let t = self.entries@.skip(i as int);
                    assert(t[0] == self.entries@[i as int]);
                }
                return Some(i);
            }
            proof {
                let t = self.entries@.skip(i as int);
                assert(t[0] == self.entries@[i as int]);
                assert(t.drop_first() =~= self.entries@.skip(i + 1));
            }
            i += 1;
        }
        proof {
            assert(self.entries@.skip(n as int) =~= Seq::<(String, usize)>::empty());
        }
        None
    }

    /// The count recorded for `key`; 0 when the key is absent.
    pub fn get(&self, key: &str) -> (r: usize)
        ensures
            r == self.count_of(key@),
    {
        match self.find(key) {
            Some(i) => self.entries[i].1,
            None => 0,
        }
    }

    /// Adds 1 to the count of `key`, inserting the key with count 1 when it
    /// is absent. No other key's count changes, and existing entries keep
    /// their positions.
    pub fn bump(&mut self, key: &str)
        requires
            old(self).wf(),
            old(self).count_of(key@) < usize::MAX,
        ensures
            final(self).wf(),
            final(self).count_of(key@) == old(self).count_of(key@) + 1,
            forall|k: Seq<char>| k != key@ ==> final(self).count_of(k) == old(self).count_of(k),
            old(self).entries@.len() <= final(self).entries@.len() <= old(self).entries@.len() + 1,
            forall|j: int|
                0 <= j < old(self).entries@.len() ==> (#[trigger] final(self).entries@[j]).0@ == old(
                    self,
                ).entries@[j].0@,
    {
        match self.find(key) {
            Some(i) => {
                let k2: String = self.entries[i].0.clone();
                let c: usize = self.entries[i].1;
                let ghost olds = self.entries@;
                self.entries.set(i, (k2, c + 1));
                proof {
                    let e2 = self.entries@[i as int];
                    assert(self.entries@ == olds.update(i as int, e2));
                    lemma_count_update(olds, i as int, e2, key@);
                }
            },
            None => {
                let mut k2: String = String::new();
                k2.append(key);
                let ghost olds = self.entries@;
                self.entries.push((k2, 1));
                proof {
                    assert(k2@ =~= key@);
                    lemma_count_push(olds, (k2, 1), key@);
                }
            },
        }
    }

    /// Inserts `key` with count 0 when it is absent, so that it appears in
    /// the entries; no count changes.
    pub fn ensure_key(&mut self, key: &str)
        requires
            old(self).wf(),
        ensures
            final(self).wf(),
            forall|k: Seq<char>| final(self).count_of(k) == old(self).count_of(k),
            seq_has_key(final(self).entries@, key@),
            old(self).entries@.len() <= final(self).entries@.len() <= old(self).entries@.len() + 1,
            forall|j: int|
                0 <= j < old(self).entries@.len() ==> (#[trigger] final(self).entries@[j]).0@ == old(
                    self,
                ).entries@[j].0@,
    {
        match self.find(key) {
            Some(i) => {},
            None => {
                let mut k2: String = String::new();
                k2.append(key);
                let ghost olds = self.entries@;
                self.entries.push((k2, 0));
                proof {
                    assert(k2@ =~= key@);
                    lemma_count_push(olds, (k2, 0), key@);
                    let news = self.entries@;
                    assert(news[olds.len() as int].0@ == key@);
                    assert(forall|k: Seq<char>|
                        seq_count_of(news, k) == if k == key@ {
                            0nat
                        } else {
                            seq_count_of(olds, k)
                        });
                }
            },
        }
    }
}

/// Updating the first entry of a key, keeping that key, changes only that
/// key's count.
proof fn lemma_count_update(s: Seq<(String, usize)>, i: int, e: (String, usize), key: Seq<char>)
    requires
        0 <= i < s.len(),
        s[i].0@ == key,
        e.0@ == key,
        forall|j: int| 0 <= j < i ==> (#[trigger] s[j]).0@ != key,
    ensures
        seq_count_of(s.update(i, e), key) == e.1 as nat,
        forall|k: Seq<char>| k != key ==> seq_count_of(s.update(i, e), k) == seq_count_of(s, k),
    decreases i,
{
    let s2 = s.update(i, e);
    assert(s2.len() == s.len());
    if i == 0 {
        assert(s2[0] == e);
        assert(s2.drop_first() =~= s.drop_first());
        assert forall|k: Seq<char>| k != key implies seq_count_of(s2, k) == seq_count_of(
            s,
            k,
        ) by {
            assert(s[0].0@ == key);
            assert(s2[0].0@ == key);
            assert(seq_count_of(s2, k) == seq_count_of(s2.drop_first(), k));
            assert(seq_count_of(s, k) == seq_count_of(s.drop_first(), k));
        }
    } else {
        assert(s2[0] == s[0]);
        assert(s[0].0@ != key);
        assert(s2.drop_first() =~= s.drop_first().update(i - 1, e));
        assert(forall|j: int| 0 <= j < i - 1 ==> (#[trigger] s.drop_first()[j]).0@ != key);
        lemma_count_update(s.drop_first(), i - 1, e, key);
        assert(seq_count_of(s2, key) == seq_count_of(s2.drop_first(), key));
        assert forall|k: Seq<char>| k != key implies seq_count_of(s2, k) == seq_count_of(
            s,
            k,
        ) by {
            if s[0].0@ == k {
                assert(seq_count_of(s2, k) == s2[0].1 as nat);
                assert(seq_count_of(s, k) == s[0].1 as nat);
            } else {
                assert(seq_count_of(s2, k) == seq_count_of(s2.drop_first(), k));
                assert(seq_count_of(s, k) == seq_count_of(s.drop_first(), k));
                assert(seq_count_of(s.drop_first().update(i - 1, e), k) == seq_count_of(
                    s.drop_first(),
                    k,
                ));
            }
        }
    }
}

/// Appending an entry whose key is absent sets that key's count and leaves
/// every other count alone.
proof fn lemma_count_push(s: Seq<(String, usize)>, e: (String, usize), key: Seq<char>)
    requires
        e.0@ == key,
        forall|j: int| 0 <= j < s.len() ==> (#[trigger] s[j]).0@ != key,
    ensures
        seq_count_of(s.push(e), key) == e.1 as nat,
        forall|k: Seq<char>| k != key ==> seq_count_of(s.push(e), k) == seq_count_of(s, k),
    decreases s.len(),
{
    let s2 = s.push(e);
    assert(s2.len() == s.len() + 1);
    if s.len() == 0 {
        assert(s2[0] == e);
        assert(s2.drop_first() =~= Seq::<(String, usize)>::empty());
        assert forall|k: Seq<char>| k != key implies seq_count_of(s2, k) == seq_count_of(
            s,
            k,
        ) by {
            assert(seq_count_of(s2, k) == seq_count_of(s2.drop_first(), k));
            assert(seq_count_of(s2.drop_first(), k) == 0);
            assert(seq_count_of(s, k) == 0);
        }
    } else {
        assert(s2[0] == s[0]);
        assert(s[0].0@ != key);
        assert(s2.drop_first() =~= s.drop_first().push(e));
        assert(forall|j: int|
            0 <= j < s.drop_first().len() ==> (#[trigger] s.drop_first()[j]).0@ != key);
        lemma_count_push(s.drop_first(), e, key);
        assert(seq_count_of(s2, key) == seq_count_of(s2.drop_first(), key));
        assert forall|k: Seq<char>| k != key implies seq_count_of(s2, k) == seq_count_of(
            s,
            k,
        ) by {
            if s[0].0@ == k {
                assert(seq_count_of(s2, k) == s2[0].1 as nat);
                assert(seq_count_of(s, k) == s[0].1 as nat);
            } else {
                assert(seq_count_of(s2, k) == seq_count_of(s2.drop_first(), k));
                assert(seq_count_of(s, k) == seq_count_of(s.drop_first(), k));
                assert(seq_count_of(s.drop_first().push(e), k) == seq_count_of(s.drop_first(), k));
            }
        }
    }
}

/// The ranking of sender entries: larger counts first, ties broken by the
/// sender string in ascending lexicographic order.
pub open spec fn pair_leq(a: (String, usize), b: (String, usize)) -> bool {
    ||| a.1 > b.1
    ||| (a.1 == b.1 && lex_le(a.0@, b.0@))
}

/// Any two entries are comparable under the ranking.
pub proof fn lemma_pair_total(a: (String, usize), b: (String, usize))
    ensures
        pair_leq(a, b) || pair_leq(b, a),
{
    crate::text::lemma_lex_total(a.0@, b.0@);
}

/// The ranking is transitive.
pub proof fn lemma_pair_trans(a: (String, usize), b: (String, usize), c: (String, usize))
    requires
        pair_leq(a, b),
        pair_leq(b, c),
    ensures
        pair_leq(a, c),
{
    if a.1 == b.1 && b.1 == c.1 {
        crate::text::lemma_lex_trans(a.0@, b.0@, c.0@);
    }
}

/// The sender ranking as a single ordering value.
pub open spec fn pair_order() -> spec_fn((String, usize), (String, usize)) -> bool {
    |a: (String, usize), b: (String, usize)| pair_leq(a, b)
}

/// The first position whose entry does not rank at-or-before `e`: the spot
/// where `e` belongs in a list sorted by the ranking.
fn find_insert_pos(v: &Vec<(String, usize)>, e: &(String, usize)) -> (p: usize)
    ensures
        p <= v@.len(),
        forall|k: int| 0 <= k < p ==> pair_leq(#[trigger] v@[k], *e),
        p < v@.len() ==> !pair_leq(v@[p as int], *e),
{
    let m: usize = v.len();
    let mut j: usize = 0;
    while j < m
        invariant
            j <= m == v@.len(),
            forall|k: int| 0 <= k < j ==> pair_leq(#[trigger] v@[k], *e),
        decreases m - j,
    {
        let before: bool = v[j].1 > e.1 || (v[j].1 == e.1 && str_le(
            v[j].0.as_str(),
            e.0.as_str(),
        ));
        if !before {
            proof {
                assert(!pair_leq(v@[j as int], *e));
            }
            return j;
        }
        proof {
            assert(pair_leq(v@[j as int], *e));
        }
        j += 1;
    }
    j
}

/// Sorts entries by descending count, ties by ascending sender, by
/// insertion into an already sorted prefix. The result is a permutation of
/// the input.
pub fn sort_pairs_desc(input: &Vec<(String, usize)>) -> (r: Vec<(String, usize)>)
    ensures
        r@.to_multiset() == input@.to_multiset(),
        vstd::relations::sorted_by(r@, pair_order()),
        r@.len() == input@.len(),
{
    broadcast use vstd::seq_lib::group_to_multiset_ensures;

    let mut out: Vec<(String, usize)> = Vec::new();
    let n: usize = input.len();
    let mut i: usize = 0;
    proof {
        assert(input@.subrange(0, 0).to_multiset() =~= Seq::<(String, usize)>::empty().to_multiset());
        assert(out@.to_multiset() =~= input@.subrange(0, 0).to_multiset());
    }
    while i < n
        invariant
            i <= n == input@.len(),
            out@.len() == i,
            out@.to_multiset() == input@.subrange(0, i as int).to_multiset(),
            vstd::relations::sorted_by(out@, pair_order()),
        decreases n - i,
    {
        broadcast use vstd::seq_lib::group_to_multiset_ensures;

        let e: (String, usize) = (input[i].0.clone(), input[i].1);
        proof {
            assert(e == input@[i as int]);
        }
        let j: usize = find_insert_pos(&out, &e);
        let ghost oldout = out@;
        out.insert(j, e);
        proof {
            broadcast use vstd::seq_lib::to_multiset_insert;

            let ghost leq = pair_order();
            assert(input@.subrange(0, i + 1) =~= input@.subrange(0, i as int).push(input@[i as int]));
            assert(out@.to_multiset() =~= input@.subrange(0, i + 1).to_multiset());
            if (j as int) < oldout.len() {
                assert(!pair_leq(oldout[j as int], e));
                lemma_pair_total(oldout[j as int], e);
                assert(pair_leq(e, oldout[j as int]));
            }
            assert forall|a: int, b: int| 0 <= a < b < out@.len() implies #[trigger] leq(
                out@[a],
                out@[b],
            ) by {
                if b < j {
                    assert(out@[a] == oldout[a] && out@[b] == oldout[b]);
                    assert(leq(oldout[a], oldout[b]));
                } else if a < j && b == j {
                    assert(out@[a] == oldout[a] && out@[b] == e);
                    assert(pair_leq(oldout[a], e));
                } else if a < j && b > j {
                    assert(out@[a] == oldout[a] && out@[b] == oldout[b - 1]);
                    assert(leq(oldout[a], oldout[b - 1]));
                } else if a == j && b > j {
                    assert(out@[a] == e && out@[b] == oldout[b - 1]);
                    assert(pair_leq(e, oldout[j as int]));
                    if b - 1 > j {
                        assert(leq(oldout[j as int], oldout[b - 1]));
                        lemma_pair_trans(e, oldout[j as int], oldout[b - 1]);
                    }
                } else {
                    assert(a > j && b > j);
                    assert(out@[a] == oldout[a - 1] && out@[b] == oldout[b - 1]);
                    assert(leq(oldout[a - 1], oldout[b - 1]));
                }
            }
        }
        i += 1;
    }
    proof {
        assert(input@.subrange(0, n as int) =~= input@);
    }
    out
}

/// The top senders: the entries sorted by descending count (ties by
/// ascending sender), cut to at most ten.
pub fn top_senders(m: &CountMap) -> (r: Vec<(String, usize)>)
    ensures
        r@.len() == (if m.entries@.len() <= 10 {
            m.entries@.len() as int
        } else {
            10int
        }),
        vstd::relations::sorted_by(r@, pair_order()),
        exists|t: Seq<(String, usize)>|
            {
                &&& t.to_multiset() == m.entries@.to_multiset()
                &&& #[trigger] vstd::relations::sorted_by(t, pair_order())
                &&& r@ == (if t.len() <= 10 {
                    t
                } else {
                    t.subrange(0, 10)
                })
            },
{
    let sorted: Vec<(String, usize)> = sort_pairs_desc(&m.entries);
    let limit: usize = if sorted.len() < 10 {
        sorted.len()
    } else {
        10
    };
    let mut out: Vec<(String, usize)> = Vec::new();
    let mut i: usize = 0;
    while i < limit
        invariant
            i <= limit <= sorted@.len(),
            out@ == sorted@.subrange(0, i as int),
        decreases limit - i,
    {
        let e: (String, usize) = (sorted[i].0.clone(), sorted[i].1);
        proof {
            assert(e == sorted@[i as int]);
        }
        out.push(e);
        i += 1;
        proof {
            assert(out@ =~= sorted@.subrange(0, i as int));
        }
    }
    proof {
        let t = sorted@;
        if t.len() <= 10 {
            assert(out@ =~= t);
        }
        assert(vstd::relations::sorted_by(t, pair_order()));
        let leq = pair_order();
        assert forall|a: int, b: int| 0 <= a < b < out@.len() implies #[trigger] leq(
            out@[a],
            out@[b],
        ) by {
            assert(out@[a] == t[a] && out@[b] == t[b]);
            assert(leq(t[a], t[b]));
        }
    }
    out
}

} // verus!
