//! A string-keyed store of string values, with upsert semantics.

use vstd::prelude::*;

verus! {

#[derive(Debug)]
pub struct MetaEntry {
    pub key: String,
    pub value: String,
}

/// Key-value entries; each key stands at most once.
pub struct MetaStore {
    pub entries: Vec<MetaEntry>,
}

pub open spec fn has_key(s: Seq<MetaEntry>, key: Seq<char>) -> bool {
    exists|i: int| 0 <= i < s.len() && (#[trigger] s[i]).key@ == key
}

/// The value stored under `key`, if any.
pub open spec fn meta_get(s: Seq<MetaEntry>, key: Seq<char>) -> Option<Seq<char>> {
    if has_key(s, key) {
        Some(s[choose|i: int| 0 <= i < s.len() && (#[trigger] s[i]).key@ == key].value@)
    } else {
        None
    }
}

pub open spec fn keys_unique(s: Seq<MetaEntry>) -> bool {
    forall|i: int, j: int|
        0 <= i < s.len() && 0 <= j < s.len() && i != j ==> (#[trigger] s[i]).key@ != (#[trigger] s[j]).key@
}

proof fn lemma_meta_get_at(s: Seq<MetaEntry>, i: int)
    requires
        keys_unique(s),
        0 <= i < s.len(),
    ensures
        meta_get(s, s[i].key@) == Some(s[i].value@),
{
    let k = s[i].key@;
    assert(has_key(s, k));
    let c = choose|c: int| 0 <= c < s.len() && (#[trigger] s[c]).key@ == k;
    assert(c == i);
}

impl MetaStore {
    pub open spec fn view(&self) -> Seq<MetaEntry> {
        self.entries@
    }

    pub open spec fn wf(&self) -> bool {
        keys_unique(self.entries@)
    }

    /// The value stored under `key`, in the model.
    pub open spec fn spec_get(&self, key: Seq<char>) -> Option<Seq<char>> {
        meta_get(self.entries@, key)
    }

    pub fn new() -> (r: MetaStore)
        ensures
            r.wf(),
            forall|k: Seq<char>| r.spec_get(k) is None,
    {
        MetaStore { entries: Vec::new() }
    }

    fn find_key(&self, key: &String) -> (r: Option<usize>)
        ensures
            match r {
                Some(i) => i < self@.len() && self@[i as int].key@ == key@,
                None => !has_key(self@, key@),
            },
    {
        let mut i: usize = 0;
        while i < self.entries.len()
            invariant
                i <= self.entries@.len(),
                forall|j: int| 0 <= j < i ==> (#[trigger] self.entries@[j]).key@ != key@,
            decreases self.entries@.len() - i,
        {
            if self.entries[i].key == *key {
                return Some(i);
            }
            i = i + 1;
        }
        None
    }

    /// The value stored under `key`, if any.
    pub fn get_meta(&self, key: &String) -> (r: Option<String>)
        requires
            self.wf(),
        ensures
            match r {
                Some(v) => self.spec_get(key@) == Some(v@),
                None => self.spec_get(key@) is None,
            },
    {
        match self.find_key(key) {
            Some(i) => {
                proof {
                    lemma_meta_get_at(self@, i as int);
                }
                Some(self.entries[i].value.clone())
            },
            None => None,
        }
    }

    /// Stores `value` under `key`, replacing what was there.
    pub fn set_meta(&mut self, key: String, value: String)
        requires
            old(self).wf(),
        ensures
            final(self).wf(),
            final(self).spec_get(key@) == Some(value@),
            forall|k: Seq<char>| k != key@ ==> final(self).spec_get(k) == old(self).spec_get(k),
    {
        let ghost o = self@;
        let ghost kv = key@;
        match self.find_key(&key) {
            Some(i) => {
                self.entries.set(i, MetaEntry { key, value });
                proof {
                    let s = self@;
                    assert forall|a: int, b: int| 0 <= a < s.len() && 0 <= b < s.len() && a != b implies (#[trigger] s[a]).key@
                        != (#[trigger] s[b]).key@ by {
                        assert(s[a].key@ == o[a].key@);
                        assert(s[b].key@ == o[b].key@);
                    }
                    lemma_meta_get_at(s, i as int);
                    assert forall|k: Seq<char>| k != kv implies meta_get(s, k) == meta_get(o, k) by {
                        if has_key(o, k) {
                            let c = choose|c: int| 0 <= c < o.len() && (#[trigger] o[c]).key@ == k;
                            lemma_meta_get_at(o, c);
                            assert(s[c] == o[c]);
                            lemma_meta_get_at(s, c);
                        } else if has_key(s, k) {
                            let c = choose|c: int| 0 <= c < s.len() && (#[trigger] s[c]).key@ == k;
                            assert(s[c] == o[c]);
                        }
                    }
                }
            },
            None => {
                self.entries.push(MetaEntry { key, value });
                proof {
                    let s = self@;
                    assert forall|a: int, b: int| 0 <= a < s.len() && 0 <= b < s.len() && a != b implies (#[trigger] s[a]).key@
                        != (#[trigger] s[b]).key@ by {
                        if a < o.len() {
                            assert(s[a] == o[a]);
                        }
                        if b < o.len() {
                            assert(s[b] == o[b]);
                        }
                    }
                    lemma_meta_get_at(s, o.len() as int);
                    assert forall|k: Seq<char>| k != kv implies meta_get(s, k) == meta_get(o, k) by {
                        if has_key(o, k) {
                            let c = choose|c: int| 0 <= c < o.len() && (#[trigger] o[c]).key@ == k;
                            lemma_meta_get_at(o, c);
                            assert(s[c] == o[c]);
                            lemma_meta_get_at(s, c);
                        } else if has_key(s, k) {
                            let c = choose|c: int| 0 <= c < s.len() && (#[trigger] s[c]).key@ == k;
                            assert(s[c] == o[c]);
                        }
                    }
                }
            },
        }
    }

    /// Whether each key stands at most once: used on entries that come from
    /// outside.
    pub fn is_well_formed(&self) -> (r: bool)
        ensures
            r == self.wf(),
    {
        let n = self.entries.len();
        let mut i: usize = 0;
        while i < n
            invariant
                n == self.entries@.len(),
                i <= n,
                forall|a: int, b: int|
                    0 <= a < i && 0 <= b < n && a != b ==> (#[trigger] self.entries@[a]).key@ != (#[trigger] self.entries@[b]).key@,
            decreases n - i,
        {
            let mut j: usize = 0;
            while j < n
                invariant
                    n == self.entries@.len(),
                    i < n,
                    j <= n,
                    forall|b: int| 0 <= b < j && b != i ==> (#[trigger] self.entries@[b]).key@ != self.entries@[i as int].key@,
                decreases n - j,
            {
                if j != i && self.entries[j].key == self.entries[i].key {
                    return false;
                }
                j = j + 1;
            }
            i = i + 1;
        }
        true
    }
}

} // verus!
