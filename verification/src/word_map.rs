//! Maps and sets whose keys are words.
//!
//! A map is modelled by its entries in the order in which their words first
//! came in. No word occurs twice.
use vstd::prelude::*;
use vstd::hash_map::StringHashMap;

verus! {

/// `w` is one of the keys.
pub open spec fn has_word<T>(s: Seq<(Seq<char>, T)>, w: Seq<char>) -> bool {
    exists|i: int| 0 <= i < s.len() && (#[trigger] s[i]).0 == w
}

/// Where `w` stands, if it is one of the keys.
pub open spec fn place_of<T>(s: Seq<(Seq<char>, T)>, w: Seq<char>) -> int {
    choose|i: int| 0 <= i < s.len() && (#[trigger] s[i]).0 == w
}

/// What is stored for `w`.
pub open spec fn lookup<T>(s: Seq<(Seq<char>, T)>, w: Seq<char>) -> Option<T> {
    if has_word(s, w) {
        Some(s[place_of(s, w)].1)
    } else {
        None
    }
}

/// The entries once `v` is stored for `w`: in place of what was stored for it,
/// or behind the others.
pub open spec fn put<T>(s: Seq<(Seq<char>, T)>, w: Seq<char>, v: T) -> Seq<(Seq<char>, T)> {
    if has_word(s, w) {
        s.update(place_of(s, w), (w, v))
    } else {
        s.push((w, v))
    }
}

/// No word occurs twice.
pub open spec fn distinct_words<T>(s: Seq<(Seq<char>, T)>) -> bool {
    forall|i: int, j: int| 0 <= i < j < s.len() ==> (#[trigger] s[i]).0 != (#[trigger] s[j]).0
}

/// The keys.
pub open spec fn words_in<T>(s: Seq<(Seq<char>, T)>) -> Seq<Seq<char>> {
    Seq::new(s.len(), |i: int| s[i].0)
}

/// Storing a value for a word is read back for that word, changes nothing for
/// the others, and keeps the words distinct.
pub proof fn put_then_lookup<T>(s: Seq<(Seq<char>, T)>, w: Seq<char>, v: T, other: Seq<char>)
    requires
        distinct_words(s),
    ensures
        lookup(put(s, w, v), w) == Some(v),
        other != w ==> lookup(put(s, w, v), other) == lookup(s, other),
        distinct_words(put(s, w, v)),
{
    let t = put(s, w, v);
    if has_word(s, w) {
        let p = place_of(s, w);
        assert(t[p].0 == w);
        assert forall|i: int| 0 <= i < t.len() implies (#[trigger] t[i]).0 == s[i].0 by {}
    } else {
        assert(t[t.len() - 1].0 == w);
        assert forall|i: int| 0 <= i < s.len() implies (#[trigger] t[i]) == s[i] by {}
    }
    assert(has_word(t, w));
    if other != w {
        if has_word(s, other) {
            let q = place_of(s, other);
            assert(t[q].0 == other);
            assert(has_word(t, other));
        }
        if has_word(t, other) {
            let q = place_of(t, other);
            assert(s[q].0 == other);
        }
    }
}

/// Each entry is what is stored for its word, and nothing is stored for a word
/// without an entry. Storing a value leaves the words where they stand, or puts a
/// new word behind them, and leaves what is stored for the others.
pub proof fn entries_are_looked_up<T>(s: Seq<(Seq<char>, T)>, i: int, w: Seq<char>, v: T)
    requires
        distinct_words(s),
    ensures
        0 <= i < s.len() ==> lookup(s, s[i].0) == Some(s[i].1),
        lookup(s, w) is None <==> forall|k: int| 0 <= k < s.len() ==> (#[trigger] s[k]).0 != w,
        put(s, w, v).len() == s.len() + if lookup(s, w) is None {
            1int
        } else {
            0
        },
        0 <= i < s.len() ==> put(s, w, v)[i] == if s[i].0 == w {
            (w, v)
        } else {
            s[i]
        },
        lookup(s, w) is None ==> put(s, w, v).last() == (w, v),
        distinct_words(s) <==> forall|a: int, b: int|
            0 <= a < b < s.len() ==> (#[trigger] s[a]).0 != (#[trigger] s[b]).0,
{
    if 0 <= i < s.len() {
        assert(has_word(s, s[i].0));
    }
}

/// A map from words to values.
pub struct WordMap<V> {
    entries: Vec<(String, V)>,
    index: StringHashMap<usize>,
}

impl<V: View> View for WordMap<V> {
    type V = Seq<(Seq<char>, V::V)>;

    closed spec fn view(&self) -> Seq<(Seq<char>, V::V)> {
        Seq::new(self.entries.len() as nat, |i: int| (self.entries[i].0@, self.entries[i].1@))
    }
}

impl<V: View> WordMap<V> {
    /// The index holds the place of each entry's word, and nothing else.
    pub closed spec fn wf(self) -> bool {
        &&& forall|i: int|
            0 <= i < self.entries.len() ==> self.index@.contains_key(
                (#[trigger] self.entries[i]).0@,
            ) && self.index@[self.entries[i].0@] == i
        &&& forall|w: Seq<char>| #[trigger]
            self.index@.contains_key(w) ==> self.index@[w] < self.entries.len()
                && self.entries[self.index@[w] as int].0@ == w
    }

    /// No word occurs twice in a map.
    pub proof fn wf_distinct(self)
        requires
            self.wf(),
        ensures
            distinct_words(self@),
    {
        assert forall|i: int, j: int| 0 <= i < j < self@.len() implies (#[trigger] self@[i]).0 != (
        #[trigger] self@[j]).0 by {
            assert(self.index@[self.entries[i].0@] == i);
            assert(self.index@[self.entries[j].0@] == j);
        }
    }

    /// A map without entries.
    pub fn new() -> (r: Self)
        ensures
            r.wf(),
            r@ == Seq::<(Seq<char>, V::V)>::empty(),
    {
        let r = WordMap { entries: Vec::new(), index: StringHashMap::new() };
        assert(r@ =~= Seq::<(Seq<char>, V::V)>::empty());
        r
    }

    /// The number of entries.
    pub fn len(&self) -> (r: usize)
        ensures
            r == self@.len(),
    {
        self.entries.len()
    }

    /// The word of the entry at place `i`.
    pub fn word_at(&self, i: usize) -> (r: &str)
        requires
            i < self@.len(),
        ensures
            r@ == self@[i as int].0,
    {
        self.entries[i].0.as_str()
    }

    /// The value of the entry at place `i`.
    pub fn value_at(&self, i: usize) -> (r: &V)
        requires
            i < self@.len(),
        ensures
            r@ == self@[i as int].1,
    {
        &self.entries[i].1
    }

    /// The place of the entry for `word`, if there is one.
    pub fn position(&self, word: &str) -> (r: Option<usize>)
        requires
            self.wf(),
        ensures
            r is Some <==> has_word(self@, word@),
            r matches Some(i) ==> i < self@.len() && i == place_of(self@, word@),
    {
        match self.index.get(word) {
            Some(i) => {
                assert(self@[*i as int].0 == word@);
                proof {
                    self.wf_distinct();
                }
                Some(*i)
            },
            None => {
                proof {
                    if has_word(self@, word@) {
                        let i = place_of(self@, word@);
                        assert(self.entries[i].0@ == word@);
                    }
                }
                None
            },
        }
    }

    /// The value stored for `word`, if there is one.
    pub fn get(&self, word: &str) -> (r: Option<&V>)
        requires
            self.wf(),
        ensures
            r is Some <==> has_word(self@, word@),
            r matches Some(v) ==> Some(v@) == lookup(self@, word@),
    {
        match self.position(word) {
            Some(i) => Some(&self.entries[i].1),
            None => None,
        }
    }

    /// Stores `value` for `word`.
    pub fn insert(&mut self, word: &str, value: V)
        requires
            old(self).wf(),
        ensures
            final(self).wf(),
            final(self)@ == put(old(self)@, word@, value@),
    {
        match self.position(word) {
            Some(i) => {
                self.entries.set(i, (word.to_owned(), value));
                assert(self@ =~= put(old(self)@, word@, value@));
            },
            None => {
                let i: usize = self.entries.len();
                proof {
                    assert(!self.index@.contains_key(word@)) by {
                        if self.index@.contains_key(word@) {
                            assert(self@[self.index@[word@] as int].0 == word@);
                        }
                    }
                }
                self.entries.push((word.to_owned(), value));
                self.index.insert(word.to_owned(), i);
                proof {
                    assert(forall|k: int| 0 <= k < i ==> self.entries[k] == old(self).entries[k]);
                    assert forall|k: int| 0 <= k < self.entries.len() implies self.index@.contains_key(
                        (#[trigger] self.entries[k]).0@,
                    ) && self.index@[self.entries[k].0@] == k by {
                        if k < i {
                            assert(old(self).index@.contains_key(old(self).entries[k].0@));
                        }
                    }
                    assert forall|w: Seq<char>| #[trigger] self.index@.contains_key(w) implies self.index@[w]
                        < self.entries.len() && self.entries[self.index@[w] as int].0@ == w by {
                        if w != word@ {
                            assert(old(self).index@.contains_key(w));
                        }
                    }
                }
                assert(self@ =~= put(old(self)@, word@, value@));
            },
        }
    }
}

/// A set of words.
pub struct WordSet {
    members: WordMap<bool>,
}

impl View for WordSet {
    type V = Set<Seq<char>>;

    closed spec fn view(&self) -> Set<Seq<char>> {
        Set::new(|w: Seq<char>| has_word(self.members@, w))
    }
}

impl WordSet {
    /// The set can be used.
    pub closed spec fn wf(self) -> bool {
        self.members.wf()
    }

    /// The members in the order in which they came in.
    pub closed spec fn order(self) -> Seq<Seq<char>> {
        words_in(self.members@)
    }

    /// The order lists each member once.
    pub proof fn order_lists_members(self)
        requires
            self.wf(),
        ensures
            self.order().no_duplicates(),
            self.order().to_set() == self@,
            self@.finite(),
            self@.len() == self.order().len(),
    {
        self.members.wf_distinct();
        let o = self.order();
        assert(o.no_duplicates());
        assert forall|w: Seq<char>| o.to_set().contains(w) <==> self@.contains(w) by {
            if o.contains(w) {
                let i = choose|i: int| 0 <= i < o.len() && o[i] == w;
                assert(self.members@[i].0 == w);
            }
            if has_word(self.members@, w) {
                let i = place_of(self.members@, w);
                assert(o[i] == w);
            }
        }
        assert(o.to_set() =~= self@);
        o.unique_seq_to_set();
    }

    /// A set without members.
    pub fn new() -> (r: Self)
        ensures
            r.wf(),
            r@ == Set::<Seq<char>>::empty(),
    {
        let r = WordSet { members: WordMap::new() };
        assert(r@ =~= Set::<Seq<char>>::empty());
        r
    }

    /// The number of members.
    pub fn len(&self) -> (r: usize)
        requires
            self.wf(),
        ensures
            r == self@.len(),
            r == self.order().len(),
    {
        proof {
            self.order_lists_members();
        }
        self.members.len()
    }

    /// The member that came in at place `i`.
    pub fn word_at(&self, i: usize) -> (r: &str)
        requires
            i < self.order().len(),
        ensures
            r@ == self.order()[i as int],
    {
        self.members.word_at(i)
    }

    /// Whether `word` is a member.
    pub fn contains(&self, word: &str) -> (r: bool)
        requires
            self.wf(),
        ensures
            r == self@.contains(word@),
    {
        match self.members.position(word) {
            Some(_) => true,
            None => false,
        }
    }

    /// Makes `word` a member.
    pub fn insert(&mut self, word: &str)
        requires
            old(self).wf(),
        ensures
            final(self).wf(),
            final(self)@ == old(self)@.insert(word@),
    {
        let ghost before = self.members@;
        proof {
            self.members.wf_distinct();
        }
        self.members.insert(word, true);
        proof {
            assert forall|w: Seq<char>| has_word(self.members@, w) <==> (has_word(before, w) || w
                == word@) by {
                put_then_lookup(before, word@, true, w);
            }
            assert(self@ =~= old(self)@.insert(word@));
        }
    }
}

impl Clone for WordSet {
    fn clone(&self) -> (r: WordSet)
        ensures
            r.wf(),
            self.wf() ==> r@ == self@ && r.order() == self.order(),
    {
        let ghost all = self.members@;
        let mut r = WordSet { members: WordMap::new() };
        let n: usize = self.members.len();
        let mut i: usize = 0;
        assert(r.members@ =~= all.take(0));
        while i < n
            invariant
                i <= n,
                n == all.len(),
                all == self.members@,
                r.wf(),
                self.wf() ==> words_in(r.members@) == words_in(all.take(i as int)),
            decreases n - i,
        {
            let word = self.members.word_at(i);
            let ghost before = r.members@;
            r.members.insert(word, true);
            proof {
                if self.wf() {
                    self.members.wf_distinct();
                    assert(words_in(before).len() == i);
                    if has_word(before, word@) {
                        let p = place_of(before, word@);
                        assert(words_in(before)[p] == words_in(all.take(i as int))[p]);
                        assert(all[p].0 == all[i as int].0);
                    }
                    assert(words_in(r.members@) =~= words_in(before).push(word@));
                    assert(words_in(all.take(i + 1)) =~= words_in(all.take(i as int)).push(word@));
                }
            }
            i = i + 1;
        }
        proof {
            assert(all.take(i as int) =~= all);
            if self.wf() {
                r.order_lists_members();
                self.order_lists_members();
            }
        }
        r
    }
}

} // verus!
