use vstd::prelude::*;

verus! {

/// An in-memory key-value store: unique keys, each with a value.
#[derive(Debug, Clone)]
pub struct Storage {
    entries: Vec<(Vec<u8>, Vec<u8>)>,
}

/// One write a call asks for: set `key` to `value`, or remove it.
#[derive(Debug, Clone)]
pub struct Write {
    pub key: Vec<u8>,
    pub value: Option<Vec<u8>>,
}

pub open spec fn has_key_at(s: Seq<(Vec<u8>, Vec<u8>)>, k: Seq<u8>) -> bool {
    exists|i: int| 0 <= i < s.len() && #[trigger] s[i].0@ == k
}

pub open spec fn keys_unique(s: Seq<(Vec<u8>, Vec<u8>)>) -> bool {
    forall|i: int, j: int| 0 <= i < s.len() && 0 <= j < s.len() && i != j ==> #[trigger] s[i].0@ != #[trigger] s[j].0@
}

pub open spec fn entries_map(s: Seq<(Vec<u8>, Vec<u8>)>) -> Map<Seq<u8>, Seq<u8>> {
    Map::new(
        |k: Seq<u8>| has_key_at(s, k),
        |k: Seq<u8>| s[choose|i: int| 0 <= i < s.len() && #[trigger] s[i].0@ == k].1@,
    )
}

proof fn lemma_entries_index(s: Seq<(Vec<u8>, Vec<u8>)>, i: int)
    requires
        keys_unique(s),
        0 <= i < s.len(),
    ensures
        entries_map(s).contains_key(s[i].0@),
        entries_map(s)[s[i].0@] == s[i].1@,
{
    assert(has_key_at(s, s[i].0@));
}

/// `m` after `w`.
pub open spec fn apply_write(m: Map<Seq<u8>, Seq<u8>>, k: Seq<u8>, v: Option<Seq<u8>>) -> Map<Seq<u8>, Seq<u8>> {
    match v {
        Some(v) => m.insert(k, v),
        None => m.remove(k),
    }
}

/// Whether two byte strings are equal.
pub fn bytes_eq(a: &[u8], b: &[u8]) -> (r: bool)
    ensures
        r == (a@ == b@),
{
    if a.len() != b.len() {
        return false;
    }
    let mut i: usize = 0;
    while i < a.len()
        invariant
            a@.len() == b@.len(),
            i <= a@.len(),
            forall|j: int| 0 <= j < i ==> a@[j] == b@[j],
        decreases a@.len() - i,
    {
        if a[i] != b[i] {
            return false;
        }
        i = i + 1;
    }
    assert(a@ =~= b@);
    true
}

impl Storage {
    pub closed spec fn view(&self) -> Map<Seq<u8>, Seq<u8>> {
        entries_map(self.entries@)
    }

    pub closed spec fn wf(&self) -> bool {
        keys_unique(self.entries@)
    }

    pub fn new() -> (r: Storage)
        ensures
            r.wf(),
            r@ == Map::<Seq<u8>, Seq<u8>>::empty(),
    {
        let r = Storage { entries: Vec::new() };
        assert(r@ =~= Map::<Seq<u8>, Seq<u8>>::empty());
        r
    }

    fn find(&self, key: &[u8]) -> (r: Option<usize>)
        requires
            self.wf(),
        ensures
            r matches Some(i) ==> i < self.entries@.len() && self.entries@[i as int].0@ == key@,
            r is None ==> !self@.contains_key(key@),
            r is Some == self@.contains_key(key@),
    {
        let mut i: usize = 0;
        while i < self.entries.len()
            invariant
                i <= self.entries@.len(),
                forall|j: int| 0 <= j < i ==> #[trigger] self.entries@[j].0@ != key@,
            decreases self.entries@.len() - i,
        {
            if bytes_eq(self.entries[i].0.as_slice(), key) {
                proof {
                    assert(has_key_at(self.entries@, key@));
                }
                return Some(i);
            }
            i = i + 1;
        }
        None
    }

    pub fn get(&self, key: &[u8]) -> (r: Option<Vec<u8>>)
        requires
            self.wf(),
        ensures
            r is Some == self@.contains_key(key@),
            r matches Some(v) ==> v@ == self@[key@],
    {
        match self.find(key) {
            Some(i) => {
                proof {
                    lemma_entries_index(self.entries@, i as int);
                }
                Some(vstd::slice::slice_to_vec(self.entries[i].1.as_slice()))
            },
            None => None,
        }
    }

    pub fn has(&self, key: &[u8]) -> (r: bool)
        requires
            self.wf(),
        ensures
            r == self@.contains_key(key@),
    {
        self.find(key).is_some()
    }

    pub fn set(&mut self, key: &[u8], value: &[u8])
        requires
            old(self).wf(),
        ensures
            final(self).wf(),
            final(self)@ == old(self)@.insert(key@, value@),
    {
        let ghost s = self.entries@;
        let k = vstd::slice::slice_to_vec(key);
        let v = vstd::slice::slice_to_vec(value);
        match self.find(key) {
            Some(i) => {
                self.entries.set(i, (k, v));
                proof {
                    let t = self.entries@;
                    assert forall|a: int, b: int| 0 <= a < t.len() && 0 <= b < t.len() && a != b implies #[trigger] t[a].0@ != #[trigger] t[b].0@ by {
                        assert(t[a].0@ == s[a].0@);
                        assert(t[b].0@ == s[b].0@);
                    }
                    assert forall|x: Seq<u8>| #[trigger] self@.contains_key(x) == old(self)@.insert(key@, value@).contains_key(x) by {
                        if has_key_at(s, x) {
                            let j = choose|j: int| 0 <= j < s.len() && #[trigger] s[j].0@ == x;
                            assert(t[j].0@ == x);
                        }
                        if has_key_at(t, x) {
                            let j = choose|j: int| 0 <= j < t.len() && #[trigger] t[j].0@ == x;
                            assert(s[j].0@ == x);
                        }
                    }
                    assert forall|x: Seq<u8>| #[trigger] self@.contains_key(x) implies self@[x] == old(self)@.insert(key@, value@)[x] by {
                        let j = choose|j: int| 0 <= j < t.len() && #[trigger] t[j].0@ == x;
                        lemma_entries_index(t, j);
                        if j != i {
                            lemma_entries_index(s, j);
                        }
                    }
                    assert(self@ =~= old(self)@.insert(key@, value@));
                }
            },
            None => {
                self.entries.push((k, v));
                proof {
                    let t = self.entries@;
                    let n = s.len() as int;
                    assert forall|a: int, b: int| 0 <= a < t.len() && 0 <= b < t.len() && a != b implies #[trigger] t[a].0@ != #[trigger] t[b].0@ by {
                        if a == n {
                            assert(!has_key_at(s, key@));
                            assert(s[b].0@ == t[b].0@);
                        } else if b == n {
                            assert(!has_key_at(s, key@));
                            assert(s[a].0@ == t[a].0@);
                        }
                    }
                    assert(t[n].0@ == key@);
                    assert forall|x: Seq<u8>| #[trigger] self@.contains_key(x) == old(self)@.insert(key@, value@).contains_key(x) by {
                        if has_key_at(s, x) {
                            let j = choose|j: int| 0 <= j < s.len() && #[trigger] s[j].0@ == x;
                            assert(t[j].0@ == x);
                        }
                        if has_key_at(t, x) && x != key@ {
                            let j = choose|j: int| 0 <= j < t.len() && #[trigger] t[j].0@ == x;
                            assert(s[j].0@ == x);
                        }
                    }
                    assert forall|x: Seq<u8>| #[trigger] self@.contains_key(x) implies self@[x] == old(self)@.insert(key@, value@)[x] by {
                        let j = choose|j: int| 0 <= j < t.len() && #[trigger] t[j].0@ == x;
                        lemma_entries_index(t, j);
                        if j != n {
                            lemma_entries_index(s, j);
                        }
                    }
                    assert(self@ =~= old(self)@.insert(key@, value@));
                }
            },
        }
    }

    pub fn remove(&mut self, key: &[u8])
        requires
            old(self).wf(),
        ensures
            final(self).wf(),
            final(self)@ == old(self)@.remove(key@),
    {
        let ghost s = self.entries@;
        match self.find(key) {
            Some(i) => {
                self.entries.remove(i);
                proof {
                    let t = self.entries@;
                    assert forall|a: int, b: int| 0 <= a < t.len() && 0 <= b < t.len() && a != b implies #[trigger] t[a].0@ != #[trigger] t[b].0@ by {
                        let a2 = if a < i { a } else { a + 1 };
                        let b2 = if b < i { b } else { b + 1 };
                        assert(t[a] == s[a2]);
                        assert(t[b] == s[b2]);
                    }
                    assert forall|x: Seq<u8>| #[trigger] self@.contains_key(x) == old(self)@.remove(key@).contains_key(x) by {
                        if has_key_at(s, x) && x != key@ {
                            let j = choose|j: int| 0 <= j < s.len() && #[trigger] s[j].0@ == x;
                            if j < i {
                                assert(t[j].0@ == x);
                            } else {
                                assert(t[j - 1].0@ == x);
                            }
                        }
                        if has_key_at(t, x) {
                            let j = choose|j: int| 0 <= j < t.len() && #[trigger] t[j].0@ == x;
                            if j < i {
                                assert(s[j].0@ == x);
                            } else {
                                assert(s[j + 1].0@ == x);
                            }
                        }
                    }
                    assert forall|x: Seq<u8>| #[trigger] self@.contains_key(x) implies self@[x] == old(self)@.remove(key@)[x] by {
                        let j = choose|j: int| 0 <= j < t.len() && #[trigger] t[j].0@ == x;
                        lemma_entries_index(t, j);
                        if j < i {
                            lemma_entries_index(s, j);
                        } else {
                            lemma_entries_index(s, j + 1);
                        }
                    }
                    assert(self@ =~= old(self)@.remove(key@));
                }
            },
            None => {
                assert(self@ =~= old(self)@.remove(key@));
            },
        }
    }
}

} // verus!
