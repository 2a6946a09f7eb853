//! A small name-keyed table: distinct string keys, looked up by content.
use crate::json::str_eq;
use vstd::prelude::*;

verus! {

pub open spec fn keys_distinct<V>(s: Seq<(String, V)>) -> bool {
    forall|i: int, j: int| 0 <= i < j < s.len() ==> s[i].0@ != s[j].0@
}

pub open spec fn table_map<V>(s: Seq<(String, V)>) -> Map<Seq<char>, V>
    decreases s.len(),
{
    if s.len() == 0 {
        Map::empty()
    } else {
        table_map(s.drop_last()).insert(s.last().0@, s.last().1)
    }
}

pub proof fn lemma_table_map<V>(s: Seq<(String, V)>)
    requires
        keys_distinct(s),
    ensures
        forall|k: Seq<char>|
            #[trigger] table_map(s).contains_key(k) <==> exists|i: int|
                0 <= i < s.len() && s[i].0@ == k,
        forall|i: int| 0 <= i < s.len() ==> #[trigger] table_map(s)[s[i].0@] == s[i].1,
        table_map(s).dom().finite(),
        table_map(s).len() == s.len(),
    decreases s.len(),
{
    if s.len() > 0 {
        let t = s.drop_last();
        assert(keys_distinct(t));
        lemma_table_map(t);
        let k = s.last().0@;
        assert(!table_map(t).contains_key(k)) by {
            if table_map(t).contains_key(k) {
                let i = choose|i: int| 0 <= i < t.len() && t[i].0@ == k;
                assert(s[i].0@ == s[s.len() - 1].0@);
            }
        }
        assert forall|k2: Seq<char>| #[trigger] table_map(s).contains_key(k2) <==> exists|i: int|
            0 <= i < s.len() && s[i].0@ == k2 by {
            if table_map(s).contains_key(k2) && k2 != k {
                let i = choose|i: int| 0 <= i < t.len() && t[i].0@ == k2;
                assert(s[i].0@ == k2);
            }
            if exists|i: int| 0 <= i < s.len() && s[i].0@ == k2 {
                let i = choose|i: int| 0 <= i < s.len() && s[i].0@ == k2;
                if i < s.len() - 1 {
                    assert(t[i].0@ == k2);
                }
            }
        }
        assert forall|i: int| 0 <= i < s.len() implies #[trigger] table_map(s)[s[i].0@]
            == s[i].1 by {
            if i < s.len() - 1 {
                assert(t[i] == s[i]);
                assert(table_map(t)[t[i].0@] == t[i].1);
            }
        }
    }
}

#[derive(Debug)]
pub struct Table<V> {
    entries: Vec<(String, V)>,
}

impl<V> View for Table<V> {
    type V = Map<Seq<char>, V>;

    closed spec fn view(&self) -> Map<Seq<char>, V> {
        table_map(self.entries@)
    }
}

impl<V> Table<V> {
    #[verifier::type_invariant]
    spec fn well_formed(self) -> bool {
        keys_distinct(self.entries@)
    }

    pub fn new() -> (t: Table<V>)
        ensures
            t@ == Map::<Seq<char>, V>::empty(),
    {
        Table { entries: Vec::new() }
    }

    pub fn len(&self) -> (n: usize)
        ensures
            n == self@.len(),
            self@.dom().finite(),
    {
        proof {
            use_type_invariant(self);
            lemma_table_map(self.entries@);
        }
        self.entries.len()
    }

    fn find(&self, key: &str) -> (r: Option<usize>)
        ensures
            match r {
                Some(i) => i < self.entries@.len() && self.entries@[i as int].0@ == key@,
                None => forall|i: int|
                    0 <= i < self.entries@.len() ==> self.entries@[i].0@ != key@,
            },
    {
        let mut i: usize = 0;
        while i < self.entries.len()
            invariant
                i <= self.entries@.len(),
                forall|j: int| 0 <= j < i ==> self.entries@[j].0@ != key@,
            decreases self.entries.len() - i,
        {
            if str_eq(self.entries[i].0.as_str(), key) {
                return Some(i);
            }
            i = i + 1;
        }
        None
    }

    pub fn get(&self, key: &str) -> (r: Option<&V>)
        ensures
            match r {
                Some(v) => self@.contains_key(key@) && self@[key@] == *v,
                None => !self@.contains_key(key@),
            },
    {
        proof {
            use_type_invariant(self);
            lemma_table_map(self.entries@);
        }
        match self.find(key) {
            Some(i) => Some(&self.entries[i].1),
            None => None,
        }
    }

    pub fn contains(&self, key: &str) -> (r: bool)
        ensures
            r == self@.contains_key(key@),
    {
        proof {
            use_type_invariant(self);
            lemma_table_map(self.entries@);
        }
        self.find(key).is_some()
    }

    /// Removes the entry for `key`, giving back its value.
    pub fn remove(&mut self, key: &str) -> (r: Option<V>)
        ensures
            final(self)@ == old(self)@.remove(key@),
            match r {
                Some(v) => old(self)@.contains_key(key@) && old(self)@[key@] == v,
                None => !old(self)@.contains_key(key@),
            },
    {
        proof {
            use_type_invariant(&*self);
            lemma_table_map(self.entries@);
        }
        match self.find(key) {
            Some(i) => {
                let ghost old_entries = self.entries@;
                let mut entries: Vec<(String, V)> = Vec::new();
                std::mem::swap(&mut entries, &mut self.entries);
                let (_, v) = entries.remove(i);
                let ghost new_entries = entries@;
                assert(keys_distinct(new_entries)) by {
                    assert forall|a: int, b: int| 0 <= a < b < new_entries.len() implies new_entries[a].0@
                        != new_entries[b].0@ by {
                        let a2 = if a < i { a } else { a + 1 };
                        let b2 = if b < i { b } else { b + 1 };
                        assert(new_entries[a] == old_entries[a2]);
                        assert(new_entries[b] == old_entries[b2]);
                    }
                }
                proof {
                    lemma_table_map(new_entries);
                    let m_old = table_map(old_entries);
                    let m_new = table_map(new_entries);
                    assert forall|k: Seq<char>| #[trigger] m_new.contains_key(k) <==> m_old.remove(
                        key@,
                    ).contains_key(k) by {
                        if m_new.contains_key(k) {
                            let j = choose|j: int| 0 <= j < new_entries.len() && new_entries[j].0@ == k;
                            let j2 = if j < i { j } else { j + 1 };
                            assert(old_entries[j2].0@ == k);
                            assert(j2 != i);
                        }
                        if m_old.remove(key@).contains_key(k) {
                            let j = choose|j: int| 0 <= j < old_entries.len() && old_entries[j].0@ == k;
                            assert(j != i);
                            let j2 = if j < i { j } else { j - 1 };
                            assert(new_entries[j2].0@ == k);
                        }
                    }
                    assert forall|k: Seq<char>| #[trigger] m_new.contains_key(k) implies m_new[k]
                        == m_old[k] by {
                        let j = choose|j: int| 0 <= j < new_entries.len() && new_entries[j].0@ == k;
                        let j2 = if j < i { j } else { j + 1 };
                        assert(new_entries[j] == old_entries[j2]);
                        assert(m_new[new_entries[j].0@] == new_entries[j].1);
                        assert(m_old[old_entries[j2].0@] == old_entries[j2].1);
                    }
                    assert(m_new =~= m_old.remove(key@));
                }
                self.entries = entries;
                Some(v)
            },
            None => {
                assert(self@ =~= old(self)@.remove(key@));
                None
            },
        }
    }

    /// Sets the value for `key`, replacing any earlier one.
    pub fn insert(&mut self, key: String, v: V)
        ensures
            final(self)@ == old(self)@.insert(key@, v),
    {
        let _ = self.remove(key.as_str());
        proof {
            use_type_invariant(&*self);
            lemma_table_map(self.entries@);
        }
        let ghost before = self.entries@;
        let mut entries: Vec<(String, V)> = Vec::new();
        std::mem::swap(&mut entries, &mut self.entries);
        entries.push((key, v));
        proof {
            let after = entries@;
            assert(after.drop_last() == before);
            assert(keys_distinct(after)) by {
                assert forall|a: int, b: int| 0 <= a < b < after.len() implies after[a].0@
                    != after[b].0@ by {
                    if b == after.len() - 1 {
                        assert(after[a] == before[a]);
                        assert(table_map(before).contains_key(before[a].0@));
                    } else {
                        assert(after[a] == before[a]);
                        assert(after[b] == before[b]);
                    }
                }
            }
        }
        self.entries = entries;
    }

    /// The keys, in the table's order.
    pub fn keys(&self) -> (ks: Vec<String>)
        ensures
            ks@.len() == self@.len(),
            forall|i: int| 0 <= i < ks@.len() ==> self@.contains_key(#[trigger] ks@[i]@),
            forall|k: Seq<char>| #[trigger] self@.contains_key(k) ==> exists|i: int| 0 <= i < ks@.len() && ks@[i]@ == k,
            forall|i: int, j: int| 0 <= i < j < ks@.len() ==> #[trigger] ks@[i]@ != #[trigger] ks@[j]@,
    {
        proof {
            use_type_invariant(self);
            lemma_table_map(self.entries@);
        }
        let mut ks: Vec<String> = Vec::new();
        let mut i: usize = 0;
        while i < self.entries.len()
            invariant
                i <= self.entries@.len(),
                ks@.len() == i,
                forall|j: int| 0 <= j < i ==> #[trigger] ks@[j]@ == self.entries@[j].0@,
            decreases self.entries.len() - i,
        {
            ks.push(self.entries[i].0.clone());
            i = i + 1;
        }
        proof {
            assert forall|j: int| 0 <= j < ks@.len() implies self@.contains_key(#[trigger] ks@[j]@) by {
                assert(ks@[j]@ == self.entries@[j].0@);
            }
            assert forall|k: Seq<char>| #[trigger] self@.contains_key(k) implies exists|i: int| 0 <= i < ks@.len() && ks@[i]@ == k by {
                let j = choose|j: int| 0 <= j < self.entries@.len() && self.entries@[j].0@ == k;
                assert(ks@[j]@ == k);
            }
        }
        proof {
            assert forall|a: int, b: int| 0 <= a < b < ks@.len() implies #[trigger] ks@[a]@ != #[trigger] ks@[b]@ by {
                assert(ks@[a]@ == self.entries@[a].0@);
                assert(ks@[b]@ == self.entries@[b].0@);
            }
        }
        ks
    }
}

} // verus!
