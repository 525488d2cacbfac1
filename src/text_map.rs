//! An insertion-ordered map from text keys to text values.
use vstd::prelude::*;

verus! {

/// Index of the first entry at or after `i` whose key is `k`; `s.len()` if none.
pub open spec fn key_index(s: Seq<(Seq<char>, Seq<char>)>, k: Seq<char>, i: int) -> int
    decreases s.len() - i,
{
    if 0 <= i < s.len() {
        if s[i].0 == k {
            i
        } else {
            key_index(s, k, i + 1)
        }
    } else {
        s.len() as int
    }
}

/// Sets `k` to `v`: an entry with key `k` keeps its place and takes the new value,
/// otherwise the pair is added at the end.
pub open spec fn upsert(s: Seq<(Seq<char>, Seq<char>)>, k: Seq<char>, v: Seq<char>) -> Seq<
    (Seq<char>, Seq<char>),
> {
    let j = key_index(s, k, 0);
    if j < s.len() {
        s.update(j, (k, v))
    } else {
        s.push((k, v))
    }
}

/// The entries of `t`, in order, set into `s` one by one.
pub open spec fn merge(s: Seq<(Seq<char>, Seq<char>)>, t: Seq<(Seq<char>, Seq<char>)>) -> Seq<
    (Seq<char>, Seq<char>),
>
    decreases t.len(),
{
    if t.len() == 0 {
        s
    } else {
        upsert(merge(s, t.drop_last()), t.last().0, t.last().1)
    }
}

/// The value stored under `k`.
pub open spec fn lookup(s: Seq<(Seq<char>, Seq<char>)>, k: Seq<char>) -> Option<Seq<char>> {
    let j = key_index(s, k, 0);
    if j < s.len() {
        Some(s[j].1)
    } else {
        None
    }
}

proof fn lemma_key_index_bounds(s: Seq<(Seq<char>, Seq<char>)>, k: Seq<char>, i: int)
    requires
        0 <= i <= s.len(),
    ensures
        i <= key_index(s, k, i) <= s.len(),
        key_index(s, k, i) < s.len() ==> s[key_index(s, k, i)].0 == k,
    decreases s.len() - i,
{
    if i < s.len() && s[i].0 != k {
        lemma_key_index_bounds(s, k, i + 1);
    }
}

/// Text keys mapped to text values, kept in the order in which keys first arrived.
#[derive(Clone, Debug)]
pub struct TextMap {
    entries: Vec<(String, String)>,
}

impl View for TextMap {
    type V = Seq<(Seq<char>, Seq<char>)>;

    closed spec fn view(&self) -> Seq<(Seq<char>, Seq<char>)> {
        self.entries@.map_values(|e: (String, String)| (e.0@, e.1@))
    }
}

impl TextMap {
    pub fn new() -> (m: TextMap)
        ensures
            m@ == Seq::<(Seq<char>, Seq<char>)>::empty(),
    {
        let m = TextMap { entries: Vec::new() };
        assert(m@ =~= Seq::<(Seq<char>, Seq<char>)>::empty());
        m
    }

    pub fn len(&self) -> (n: usize)
        ensures
            n == self@.len(),
    {
        self.entries.len()
    }

    pub fn is_empty(&self) -> (b: bool)
        ensures
            b == (self@.len() == 0),
    {
        self.entries.len() == 0
    }

    /// Key of entry `i`.
    pub fn key(&self, i: usize) -> (k: &String)
        requires
            i < self@.len(),
        ensures
            k@ == self@[i as int].0,
    {
        &self.entries[i].0
    }

    /// Value of entry `i`.
    pub fn value(&self, i: usize) -> (v: &String)
        requires
            i < self@.len(),
        ensures
            v@ == self@[i as int].1,
    {
        &self.entries[i].1
    }

    fn find(&self, k: &str) -> (j: usize)
        ensures
            j == key_index(self@, k@, 0),
    {
        let n = self.entries.len();
        let mut i: usize = 0;
        while i < n
            invariant
                n == self@.len(),
                i <= n,
                key_index(self@, k@, i as int) == key_index(self@, k@, 0),
            decreases n - i,
        {
            if crate::text::str_eq(self.entries[i].0.as_str(), k) {
                return i;
            }
            i = i + 1;
        }
        i
    }

    /// The value under `k`.
    pub fn get(&self, k: &str) -> (v: Option<&String>)
        ensures
            match lookup(self@, k@) {
                Some(x) => v matches Some(s) && s@ == x,
                None => v is None,
            },
    {
        let j = self.find(k);
        proof {
            lemma_key_index_bounds(self@, k@, 0);
        }
        if j < self.entries.len() {
            Some(&self.entries[j].1)
        } else {
            None
        }
    }

    /// Sets `k` to `v`, keeping the place of an existing entry for `k`.
    pub fn insert(&mut self, k: String, v: String)
        ensures
            final(self)@ == upsert(old(self)@, k@, v@),
    {
        let j = self.find(k.as_str());
        proof {
            lemma_key_index_bounds(old(self)@, k@, 0);
        }
        let ghost kv = (k@, v@);
        if j < self.entries.len() {
            self.entries.set(j, (k, v));
            assert(self@ =~= old(self)@.update(j as int, kv));
        } else {
            self.entries.push((k, v));
            assert(self@ =~= old(self)@.push(kv));
        }
    }

    /// A map with the same entries.
    pub fn copy(&self) -> (m: TextMap)
        ensures
            m@ == self@,
    {
        let n = self.entries.len();
        let mut entries: Vec<(String, String)> = Vec::new();
        let mut i: usize = 0;
        while i < n
            invariant
                n == self@.len(),
                i <= n,
                entries@.len() == i,
                forall|k: int|
                    0 <= k < i ==> (#[trigger] entries@[k]).0@ == self@[k].0 && entries@[k].1@
                        == self@[k].1,
            decreases n - i,
        {
            let k = self.entries[i].0.clone();
            let v = self.entries[i].1.clone();
            entries.push((k, v));
            i = i + 1;
        }
        let m = TextMap { entries };
        assert(m@ =~= self@);
        m
    }

    /// Sets each entry of `other`, in order.
    pub fn extend(&mut self, other: &TextMap)
        ensures
            final(self)@ == merge(old(self)@, other@),
    {
        let n = other.entries.len();
        let mut i: usize = 0;
        while i < n
            invariant
                n == other@.len(),
                i <= n,
                self@ == merge(old(self)@, other@.take(i as int)),
            decreases n - i,
        {
            let k = other.entries[i].0.clone();
            let v = other.entries[i].1.clone();
            self.insert(k, v);
            assert(other@.take(i + 1).drop_last() =~= other@.take(i as int));
            i = i + 1;
        }
        assert(other@.take(n as int) =~= other@);
    }

    /// A map holding the pairs set one by one, in order.
    pub fn from_pairs(pairs: &Vec<(String, String)>) -> (m: TextMap)
        ensures
            m@ == merge(Seq::empty(), pairs@.map_values(|e: (String, String)| (e.0@, e.1@))),
    {
        let ghost ps = pairs@.map_values(|e: (String, String)| (e.0@, e.1@));
        let mut m = TextMap::new();
        let n = pairs.len();
        let mut i: usize = 0;
        while i < n
            invariant
                n == ps.len() == pairs@.len(),
                ps == pairs@.map_values(|e: (String, String)| (e.0@, e.1@)),
                i <= n,
                m@ == merge(Seq::empty(), ps.take(i as int)),
            decreases n - i,
        {
            let k = pairs[i].0.clone();
            let v = pairs[i].1.clone();
            m.insert(k, v);
            assert(ps.take(i + 1).drop_last() =~= ps.take(i as int));
            i = i + 1;
        }
        assert(ps.take(n as int) =~= ps);
        m
    }
}

} // verus!
