//! A map keyed by an optional owner name and a name, stored as a list with unique keys.
use vstd::prelude::*;
use crate::effect_summary::{SummaryKey, opt_view, clone_opt, opt_str_eq};
use crate::text::str_eq;

verus! {

/// Values keyed by an optional owner name and a name.
#[derive(Debug)]
pub struct KeyTable<V> {
    entries: Vec<(Option<String>, String, V)>,
}

pub open spec fn entry_key<V>(e: (Option<String>, String, V)) -> SummaryKey {
    (opt_view(e.0), e.1@)
}

impl<V: View> View for KeyTable<V> {
    type V = Map<SummaryKey, V::V>;

    closed spec fn view(&self) -> Map<SummaryKey, V::V> {
        Map::new(
            |k: SummaryKey| exists|i: int| 0 <= i < self.entries@.len() && entry_key(self.entries@[i]) == k,
            |k: SummaryKey|
                self.entries@[choose|i: int|
                    0 <= i < self.entries@.len() && entry_key(self.entries@[i]) == k].2@,
        )
    }
}

impl<V: View> KeyTable<V> {
    /// Keys are unique.
    pub closed spec fn wf(&self) -> bool {
        forall|i: int, j: int|
            0 <= i < j < self.entries@.len() ==> entry_key(self.entries@[i]) != entry_key(self.entries@[j])
    }

    /// The empty table.
    pub fn new() -> (res: KeyTable<V>)
        ensures
            res.wf(),
            res@ == Map::<SummaryKey, V::V>::empty(),
    {
        let r = KeyTable { entries: Vec::new() };
        assert(r@ =~= Map::<SummaryKey, V::V>::empty());
        r
    }

    proof fn lemma_at(&self, i: int)
        requires
            self.wf(),
            0 <= i < self.entries@.len(),
        ensures
            self@.contains_key(entry_key(self.entries@[i])),
            self@[entry_key(self.entries@[i])] == self.entries@[i].2@,
    {
        let k = entry_key(self.entries@[i]);
        let w = choose|w: int| 0 <= w < self.entries@.len() && entry_key(self.entries@[w]) == k;
        if w != i {
            assert(self.wf());
        }
    }

    fn find(&self, owner: &Option<String>, name: &str) -> (res: Option<usize>)
        requires
            self.wf(),
        ensures
            match res {
                Some(i) => i < self.entries@.len() && entry_key(self.entries@[i as int]) == (
                    opt_view(*owner),
                    name@,
                ) && self@.contains_key((opt_view(*owner), name@)) && self@[(opt_view(*owner), name@)]
                    == self.entries@[i as int].2@,
                None => !self@.contains_key((opt_view(*owner), name@)),
            },
    {
        let n = self.entries.len();
        let mut i: usize = 0;
        while i < n
            invariant
                n == self.entries@.len(),
                i <= n,
                self.wf(),
                forall|j: int| 0 <= j < i ==> entry_key(self.entries@[j]) != (opt_view(*owner), name@),
            decreases n - i,
        {
            if opt_str_eq(&self.entries[i].0, owner) && str_eq(&self.entries[i].1, name) {
                proof {
                    self.lemma_at(i as int);
                }
                return Some(i);
            }
            i = i + 1;
        }
        None
    }

    /// The value under the key, if there is one.
    pub fn get(&self, owner: &Option<String>, name: &str) -> (res: Option<&V>)
        requires
            self.wf(),
        ensures
            match res {
                Some(v) => self@.contains_key((opt_view(*owner), name@)) && self@[(opt_view(*owner), name@)]
                    == v@,
                None => !self@.contains_key((opt_view(*owner), name@)),
            },
    {
        match self.find(owner, name) {
            Some(i) => Some(&self.entries[i].2),
            None => None,
        }
    }

    /// Sets the value under the key.
    pub fn set(&mut self, owner: Option<String>, name: String, value: V)
        requires
            old(self).wf(),
        ensures
            final(self).wf(),
            final(self)@ == old(self)@.insert((opt_view(owner), name@), value@),
    {
        let ghost k = (opt_view(owner), name@);
        let ghost old_map = self@;
        let ghost old_entries = self.entries@;
        let ghost vv = value@;
        match self.find(&owner, &name) {
            Some(i) => {
                self.entries.set(i, (owner, name, value));
                proof {
                    assert(self.wf()) by {
                        assert forall|a: int, b: int| 0 <= a < b < self.entries@.len() implies entry_key(
                            self.entries@[a],
                        ) != entry_key(self.entries@[b]) by {
                            assert(entry_key(self.entries@[a]) == entry_key(old_entries[a]));
                            assert(entry_key(self.entries@[b]) == entry_key(old_entries[b]));
                        }
                    }
                    let m1 = self@;
                    let m2 = old_map.insert(k, vv);
                    assert forall|q: SummaryKey| #[trigger] m1.contains_key(q) == m2.contains_key(q) by {
                        if m1.contains_key(q) {
                            let j = choose|j: int| 0 <= j < self.entries@.len() && entry_key(self.entries@[j]) == q;
                            assert(entry_key(old_entries[j]) == q);
                        }
                        if old_map.contains_key(q) {
                            let j = choose|j: int| 0 <= j < old_entries.len() && entry_key(old_entries[j]) == q;
                            assert(entry_key(self.entries@[j]) == q);
                        }
                        if q == k {
                            assert(entry_key(self.entries@[i as int]) == q);
                        }
                    }
                    assert forall|q: SummaryKey| m1.contains_key(q) implies #[trigger] m1[q] == m2[q] by {
                        let j = choose|j: int| 0 <= j < self.entries@.len() && entry_key(self.entries@[j]) == q;
                        self.lemma_at(j);
                        if j != i {
                            assert(self.entries@[j] == old_entries[j]);
                            assert(q != k);
                            let j2 = choose|j2: int| 0 <= j2 < old_entries.len() && entry_key(old_entries[j2]) == q;
                            assert(j2 == j);
                        }
                    }
                    assert(m1 =~= m2);
                }
            },
            None => {
                self.entries.push((owner, name, value));
                proof {
                    let n = old_entries.len();
                    assert forall|j: int| 0 <= j < n implies entry_key(old_entries[j]) != k by {
                        if entry_key(old_entries[j]) == k {
                            assert(old_map.contains_key(k));
                        }
                    }
                    assert(self.wf()) by {
                        assert forall|a: int, b: int| 0 <= a < b < self.entries@.len() implies entry_key(
                            self.entries@[a],
                        ) != entry_key(self.entries@[b]) by {
                            assert(self.entries@[a] == old_entries[a]);
                            if b < n {
                                assert(self.entries@[b] == old_entries[b]);
                            }
                        }
                    }
                    let m1 = self@;
                    let m2 = old_map.insert(k, vv);
                    assert forall|q: SummaryKey| #[trigger] m1.contains_key(q) == m2.contains_key(q) by {
                        if m1.contains_key(q) {
                            let j = choose|j: int| 0 <= j < self.entries@.len() && entry_key(self.entries@[j]) == q;
                            if j < n {
                                assert(self.entries@[j] == old_entries[j]);
                            }
                        }
                        if old_map.contains_key(q) {
                            let j = choose|j: int| 0 <= j < old_entries.len() && entry_key(old_entries[j]) == q;
                            assert(self.entries@[j] == old_entries[j]);
                        }
                        if q == k {
                            assert(entry_key(self.entries@[n as int]) == q);
                        }
                    }
                    assert forall|q: SummaryKey| m1.contains_key(q) implies #[trigger] m1[q] == m2[q] by {
                        let j = choose|j: int| 0 <= j < self.entries@.len() && entry_key(self.entries@[j]) == q;
                        self.lemma_at(j);
                        if j < n {
                            assert(self.entries@[j] == old_entries[j]);
                            let j2 = choose|j2: int| 0 <= j2 < old_entries.len() && entry_key(old_entries[j2]) == q;
                            if j2 != j {
                                assert(entry_key(old_entries[j2]) == entry_key(old_entries[j]));
                            }
                        }
                    }
                    assert(m1 =~= m2);
                }
            },
        }
    }

    /// Removes the value under the key.
    pub fn remove(&mut self, owner: &Option<String>, name: &str)
        requires
            old(self).wf(),
        ensures
            final(self).wf(),
            final(self)@ == old(self)@.remove((opt_view(*owner), name@)),
    {
        let ghost k = (opt_view(*owner), name@);
        let ghost old_map = self@;
        let ghost old_entries = self.entries@;
        match self.find(owner, name) {
            Some(i) => {
                self.entries.remove(i);
                proof {
                    let n = old_entries.len();
                    assert(self.entries@ =~= old_entries.remove(i as int));
                    assert(self.wf()) by {
                        assert forall|a: int, b: int| 0 <= a < b < self.entries@.len() implies entry_key(
                            self.entries@[a],
                        ) != entry_key(self.entries@[b]) by {
                            let a2 = if a < i { a } else { a + 1 };
                            let b2 = if b < i { b } else { b + 1 };
                            assert(self.entries@[a] == old_entries[a2]);
                            assert(self.entries@[b] == old_entries[b2]);
                        }
                    }
                    let m1 = self@;
                    let m2 = old_map.remove(k);
                    assert forall|q: SummaryKey| #[trigger] m1.contains_key(q) == m2.contains_key(q) by {
                        if m1.contains_key(q) {
                            let j = choose|j: int| 0 <= j < self.entries@.len() && entry_key(self.entries@[j]) == q;
                            let j2 = if j < i { j } else { j + 1 };
                            assert(self.entries@[j] == old_entries[j2]);
                            assert(old_map.contains_key(q));
                            assert(q != k) by {
                                if q == k {
                                    assert(entry_key(old_entries[i as int]) == k);
                                }
                            }
                        }
                        if m2.contains_key(q) {
                            let j = choose|j: int| 0 <= j < old_entries.len() && entry_key(old_entries[j]) == q;
                            assert(j != i);
                            let j2 = if j < i { j } else { j - 1 };
                            assert(self.entries@[j2] == old_entries[j]);
                        }
                    }
                    assert forall|q: SummaryKey| m1.contains_key(q) implies #[trigger] m1[q] == m2[q] by {
                        let j = choose|j: int| 0 <= j < self.entries@.len() && entry_key(self.entries@[j]) == q;
                        self.lemma_at(j);
                        let j2 = if j < i { j } else { j + 1 };
                        assert(self.entries@[j] == old_entries[j2]);
                        let w = choose|w: int| 0 <= w < old_entries.len() && entry_key(old_entries[w]) == q;
                        if w != j2 {
                            assert(entry_key(old_entries[w]) == entry_key(old_entries[j2]));
                        }
                    }
                    assert(m1 =~= m2);
                }
            },
            None => {
                assert(old_map.remove(k) =~= old_map);
            },
        }
    }
}

/// A line-table key: an optional owner and a line.
pub type LineKey = (Option<Seq<char>>, int);

/// Values keyed by an optional owner name and a line.
#[derive(Debug)]
pub struct LineTable<V> {
    entries: Vec<(Option<String>, usize, V)>,
}

pub open spec fn line_entry_key<V>(e: (Option<String>, usize, V)) -> LineKey {
    (opt_view(e.0), e.1 as int)
}

impl<V: View> View for LineTable<V> {
    type V = Map<LineKey, V::V>;

    closed spec fn view(&self) -> Map<LineKey, V::V> {
        Map::new(
            |k: LineKey| exists|i: int| 0 <= i < self.entries@.len() && line_entry_key(self.entries@[i]) == k,
            |k: LineKey|
                self.entries@[choose|i: int|
                    0 <= i < self.entries@.len() && line_entry_key(self.entries@[i]) == k].2@,
        )
    }
}

impl<V: View> LineTable<V> {
    /// Keys are unique.
    pub closed spec fn wf(&self) -> bool {
        forall|i: int, j: int|
            0 <= i < j < self.entries@.len() ==> line_entry_key(self.entries@[i]) != line_entry_key(self.entries@[j])
    }

    /// The empty table.
    pub fn new() -> (res: LineTable<V>)
        ensures
            res.wf(),
            res@ == Map::<LineKey, V::V>::empty(),
    {
        let r = LineTable { entries: Vec::new() };
        assert(r@ =~= Map::<LineKey, V::V>::empty());
        r
    }

    proof fn lemma_at(&self, i: int)
        requires
            self.wf(),
            0 <= i < self.entries@.len(),
        ensures
            self@.contains_key(line_entry_key(self.entries@[i])),
            self@[line_entry_key(self.entries@[i])] == self.entries@[i].2@,
    {
        let k = line_entry_key(self.entries@[i]);
        let w = choose|w: int| 0 <= w < self.entries@.len() && line_entry_key(self.entries@[w]) == k;
        if w != i {
            assert(self.wf());
        }
    }

    fn find(&self, owner: &Option<String>, line: usize) -> (res: Option<usize>)
        requires
            self.wf(),
        ensures
            match res {
                Some(i) => i < self.entries@.len() && line_entry_key(self.entries@[i as int]) == (
                    opt_view(*owner),
                    line as int,
                ) && self@.contains_key((opt_view(*owner), line as int)) && self@[(opt_view(*owner), line as int)]
                    == self.entries@[i as int].2@,
                None => !self@.contains_key((opt_view(*owner), line as int)),
            },
    {
        let n = self.entries.len();
        let mut i: usize = 0;
        while i < n
            invariant
                n == self.entries@.len(),
                i <= n,
                self.wf(),
                forall|j: int| 0 <= j < i ==> line_entry_key(self.entries@[j]) != (opt_view(*owner), line as int),
            decreases n - i,
        {
            if opt_str_eq(&self.entries[i].0, owner) && self.entries[i].1 == line {
                proof {
                    self.lemma_at(i as int);
                }
                return Some(i);
            }
            i = i + 1;
        }
        None
    }

    /// The value under the key, if there is one.
    pub fn get(&self, owner: &Option<String>, line: usize) -> (res: Option<&V>)
        requires
            self.wf(),
        ensures
            match res {
                Some(v) => self@.contains_key((opt_view(*owner), line as int)) && self@[(opt_view(*owner), line as int)]
                    == v@,
                None => !self@.contains_key((opt_view(*owner), line as int)),
            },
    {
        match self.find(owner, line) {
            Some(i) => Some(&self.entries[i].2),
            None => None,
        }
    }

    /// Sets the value under the key.
    pub fn set(&mut self, owner: Option<String>, line: usize, value: V)
        requires
            old(self).wf(),
        ensures
            final(self).wf(),
            final(self)@ == old(self)@.insert((opt_view(owner), line as int), value@),
    {
        let ghost k = (opt_view(owner), line as int);
        let ghost old_map = self@;
        let ghost old_entries = self.entries@;
        let ghost vv = value@;
        match self.find(&owner, line) {
            Some(i) => {
                self.entries.set(i, (owner, line, value));
                proof {
                    assert(self.wf()) by {
                        assert forall|a: int, b: int| 0 <= a < b < self.entries@.len() implies line_entry_key(
                            self.entries@[a],
                        ) != line_entry_key(self.entries@[b]) by {
                            assert(line_entry_key(self.entries@[a]) == line_entry_key(old_entries[a]));
                            assert(line_entry_key(self.entries@[b]) == line_entry_key(old_entries[b]));
                        }
                    }
                    let m1 = self@;
                    let m2 = old_map.insert(k, vv);
                    assert forall|q: LineKey| #[trigger] m1.contains_key(q) == m2.contains_key(q) by {
                        if m1.contains_key(q) {
                            let j = choose|j: int| 0 <= j < self.entries@.len() && line_entry_key(self.entries@[j]) == q;
                            assert(line_entry_key(old_entries[j]) == q);
                        }
                        if old_map.contains_key(q) {
                            let j = choose|j: int| 0 <= j < old_entries.len() && line_entry_key(old_entries[j]) == q;
                            assert(line_entry_key(self.entries@[j]) == q);
                        }
                        if q == k {
                            assert(line_entry_key(self.entries@[i as int]) == q);
                        }
                    }
                    assert forall|q: LineKey| m1.contains_key(q) implies #[trigger] m1[q] == m2[q] by {
                        let j = choose|j: int| 0 <= j < self.entries@.len() && line_entry_key(self.entries@[j]) == q;
                        self.lemma_at(j);
                        if j != i {
                            assert(self.entries@[j] == old_entries[j]);
                            assert(q != k);
                            let j2 = choose|j2: int| 0 <= j2 < old_entries.len() && line_entry_key(old_entries[j2]) == q;
                            assert(j2 == j);
                        }
                    }
                    assert(m1 =~= m2);
                }
            },
            None => {
                self.entries.push((owner, line, value));
                proof {
                    let n = old_entries.len();
                    assert forall|j: int| 0 <= j < n implies line_entry_key(old_entries[j]) != k by {
                        if line_entry_key(old_entries[j]) == k {
                            assert(old_map.contains_key(k));
                        }
                    }
                    assert(self.wf()) by {
                        assert forall|a: int, b: int| 0 <= a < b < self.entries@.len() implies line_entry_key(
                            self.entries@[a],
                        ) != line_entry_key(self.entries@[b]) by {
                            assert(self.entries@[a] == old_entries[a]);
                            if b < n {
                                assert(self.entries@[b] == old_entries[b]);
                            }
                        }
                    }
                    let m1 = self@;
                    let m2 = old_map.insert(k, vv);
                    assert forall|q: LineKey| #[trigger] m1.contains_key(q) == m2.contains_key(q) by {
                        if m1.contains_key(q) {
                            let j = choose|j: int| 0 <= j < self.entries@.len() && line_entry_key(self.entries@[j]) == q;
                            if j < n {
                                assert(self.entries@[j] == old_entries[j]);
                            }
                        }
                        if old_map.contains_key(q) {
                            let j = choose|j: int| 0 <= j < old_entries.len() && line_entry_key(old_entries[j]) == q;
                            assert(self.entries@[j] == old_entries[j]);
                        }
                        if q == k {
                            assert(line_entry_key(self.entries@[n as int]) == q);
                        }
                    }
                    assert forall|q: LineKey| m1.contains_key(q) implies #[trigger] m1[q] == m2[q] by {
                        let j = choose|j: int| 0 <= j < self.entries@.len() && line_entry_key(self.entries@[j]) == q;
                        self.lemma_at(j);
                        if j < n {
                            assert(self.entries@[j] == old_entries[j]);
                            let j2 = choose|j2: int| 0 <= j2 < old_entries.len() && line_entry_key(old_entries[j2]) == q;
                            if j2 != j {
                                assert(line_entry_key(old_entries[j2]) == line_entry_key(old_entries[j]));
                            }
                        }
                    }
                    assert(m1 =~= m2);
                }
            },
        }
    }

    /// Removes the value under the key.
    pub fn remove(&mut self, owner: &Option<String>, line: usize)
        requires
            old(self).wf(),
        ensures
            final(self).wf(),
            final(self)@ == old(self)@.remove((opt_view(*owner), line as int)),
    {
        let ghost k = (opt_view(*owner), line as int);
        let ghost old_map = self@;
        let ghost old_entries = self.entries@;
        match self.find(owner, line) {
            Some(i) => {
                self.entries.remove(i);
                proof {
                    let n = old_entries.len();
                    assert(self.entries@ =~= old_entries.remove(i as int));
                    assert(self.wf()) by {
                        assert forall|a: int, b: int| 0 <= a < b < self.entries@.len() implies line_entry_key(
                            self.entries@[a],
                        ) != line_entry_key(self.entries@[b]) by {
                            let a2 = if a < i { a } else { a + 1 };
                            let b2 = if b < i { b } else { b + 1 };
                            assert(self.entries@[a] == old_entries[a2]);
                            assert(self.entries@[b] == old_entries[b2]);
                        }
                    }
                    let m1 = self@;
                    let m2 = old_map.remove(k);
                    assert forall|q: LineKey| #[trigger] m1.contains_key(q) == m2.contains_key(q) by {
                        if m1.contains_key(q) {
                            let j = choose|j: int| 0 <= j < self.entries@.len() && line_entry_key(self.entries@[j]) == q;
                            let j2 = if j < i { j } else { j + 1 };
                            assert(self.entries@[j] == old_entries[j2]);
                            assert(old_map.contains_key(q));
                            assert(q != k) by {
                                if q == k {
                                    assert(line_entry_key(old_entries[i as int]) == k);
                                }
                            }
                        }
                        if m2.contains_key(q) {
                            let j = choose|j: int| 0 <= j < old_entries.len() && line_entry_key(old_entries[j]) == q;
                            assert(j != i);
                            let j2 = if j < i { j } else { j - 1 };
                            assert(self.entries@[j2] == old_entries[j]);
                        }
                    }
                    assert forall|q: LineKey| m1.contains_key(q) implies #[trigger] m1[q] == m2[q] by {
                        let j = choose|j: int| 0 <= j < self.entries@.len() && line_entry_key(self.entries@[j]) == q;
                        self.lemma_at(j);
                        let j2 = if j < i { j } else { j + 1 };
                        assert(self.entries@[j] == old_entries[j2]);
                        let w = choose|w: int| 0 <= w < old_entries.len() && line_entry_key(old_entries[w]) == q;
                        if w != j2 {
                            assert(line_entry_key(old_entries[w]) == line_entry_key(old_entries[j2]));
                        }
                    }
                    assert(m1 =~= m2);
                }
            },
            None => {
                assert(old_map.remove(k) =~= old_map);
            },
        }
    }
}

} // verus!
