//! The typed values of one file's fields, by tag name.

use vstd::prelude::*;
use crate::value::{TypedValue, TypedView};

verus! {

/// The map that inserting the pairs of `s` in order builds: a later pair
/// overwrites an earlier one of the same key.
pub open spec fn map_of(s: Seq<(Seq<char>, TypedView)>) -> Map<Seq<char>, TypedView>
    decreases s.len(),
{
    if s.len() == 0 {
        Map::empty()
    } else {
        map_of(s.drop_last()).insert(s.last().0, s.last().1)
    }
}

pub open spec fn keys_unique(s: Seq<(Seq<char>, TypedView)>) -> bool {
    forall|i: int, j: int| 0 <= i < j < s.len() ==> #[trigger] s[i].0 != #[trigger] s[j].0
}

pub open spec fn entries_view(e: Seq<(String, TypedValue)>) -> Seq<(Seq<char>, TypedView)> {
    e.map_values(|p: (String, TypedValue)| (p.0@, p.1@))
}

/// A key is in the map exactly where some pair holds it; with unique keys,
/// the map holds that pair's value.
pub proof fn lemma_map_of_lookup(s: Seq<(Seq<char>, TypedView)>, k: Seq<char>)
    ensures
        map_of(s).contains_key(k) <==> exists|i: int| 0 <= i < s.len() && #[trigger] s[i].0 == k,
        keys_unique(s) ==> forall|i: int|
            0 <= i < s.len() && #[trigger] s[i].0 == k ==> map_of(s)[k] == s[i].1,
    decreases s.len(),
{
    if s.len() > 0 {
        let p = s.drop_last();
        lemma_map_of_lookup(p, k);
        if exists|i: int| 0 <= i < p.len() && #[trigger] p[i].0 == k {
            let i = choose|i: int| 0 <= i < p.len() && #[trigger] p[i].0 == k;
            assert(s[i] == p[i]);
        }
        if exists|i: int| 0 <= i < s.len() && #[trigger] s[i].0 == k {
            let i = choose|i: int| 0 <= i < s.len() && #[trigger] s[i].0 == k;
            if i < s.len() - 1 {
                assert(s[i] == p[i]);
            }
        }
        if keys_unique(s) {
            assert(keys_unique(p)) by {
                assert forall|i: int, j: int| 0 <= i < j < p.len() implies #[trigger] p[i].0
                    != #[trigger] p[j].0 by {
                    assert(s[i] == p[i] && s[j] == p[j]);
                }
            }
            assert forall|i: int| 0 <= i < s.len() && #[trigger] s[i].0 == k implies map_of(s)[k]
                == s[i].1 by {
                if i < s.len() - 1 {
                    assert(s[i] == p[i]);
                    assert(s[i].0 != s[s.len() - 1].0);
                }
            }
        }
    }
}

/// Replacing the value of a pair whose key is `k` is inserting `k` with the
/// new value.
proof fn lemma_map_of_update(s: Seq<(Seq<char>, TypedView)>, i: int, v: TypedView)
    requires
        keys_unique(s),
        0 <= i < s.len(),
    ensures
        map_of(s.update(i, (s[i].0, v))) == map_of(s).insert(s[i].0, v),
        keys_unique(s.update(i, (s[i].0, v))),
    decreases s.len(),
{
    let k = s[i].0;
    let t = s.update(i, (k, v));
    let p = s.drop_last();
    assert(t.drop_last() =~= if i == s.len() - 1 {
        p
    } else {
        p.update(i, (k, v))
    });
    if i == s.len() - 1 {
        assert(map_of(t) =~= map_of(s).insert(k, v));
    } else {
        assert(keys_unique(p)) by {
            assert forall|a: int, b: int| 0 <= a < b < p.len() implies #[trigger] p[a].0
                != #[trigger] p[b].0 by {
                assert(s[a] == p[a] && s[b] == p[b]);
            }
        }
        assert(p[i] == s[i]);
        lemma_map_of_update(p, i, v);
        assert(s.last().0 != k);
        assert(map_of(t) =~= map_of(s).insert(k, v));
    }
    assert forall|a: int, b: int| 0 <= a < b < t.len() implies #[trigger] t[a].0
        != #[trigger] t[b].0 by {
        assert(s[a].0 == t[a].0 && s[b].0 == t[b].0);
    }
}

/// The typed values of one file's fields, keyed by tag name, each tag name
/// once.
#[derive(Clone, Debug)]
pub struct FieldMap {
    entries: Vec<(String, TypedValue)>,
}

impl View for FieldMap {
    type V = Map<Seq<char>, TypedView>;

    closed spec fn view(&self) -> Map<Seq<char>, TypedView> {
        map_of(entries_view(self.entries@))
    }
}

impl FieldMap {
    /// The entries in the order their tag names were first inserted.
    pub closed spec fn entry_seq(&self) -> Seq<(Seq<char>, TypedView)> {
        entries_view(self.entries@)
    }

    pub closed spec fn wf(&self) -> bool {
        keys_unique(self.entry_seq())
    }

    pub fn new() -> (r: FieldMap)
        ensures
            r.wf(),
            r@ == Map::<Seq<char>, TypedView>::empty(),
            r.entry_seq().len() == 0,
    {
        let r = FieldMap { entries: Vec::new() };
        assert(r.entry_seq() =~= Seq::empty());
        r
    }

    /// The position of `key` among the entries, if it is there.
    fn position(&self, key: &String) -> (r: Option<usize>)
        ensures
            match r {
                Some(i) => i < self.entries.len() && self.entry_seq()[i as int].0 == key@,
                None => forall|i: int|
                    0 <= i < self.entry_seq().len() ==> #[trigger] self.entry_seq()[i].0 != key@,
            },
    {
        let mut i: usize = 0;
        while i < self.entries.len()
            invariant
                i <= self.entries.len(),
                self.entry_seq().len() == self.entries.len(),
                forall|j: int| 0 <= j < i ==> #[trigger] self.entry_seq()[j].0 != key@,
            decreases self.entries.len() - i,
        {
            if self.entries[i].0 == *key {
                return Some(i);
            }
            i = i + 1;
        }
        None
    }

    /// Sets the value of `key`, overwriting the value it had.
    pub fn insert(&mut self, key: String, value: TypedValue)
        requires
            old(self).wf(),
        ensures
            final(self).wf(),
            final(self)@ == old(self)@.insert(key@, value@),
    {
        match self.position(&key) {
            Some(i) => {
                let ghost s = self.entry_seq();
                let ghost v = value@;
                proof {
                    lemma_map_of_update(s, i as int, v);
                }
                self.entries[i] = (key, value);
                assert(self.entry_seq() =~= s.update(i as int, (s[i as int].0, v)));
            },
            None => {
                let ghost s = self.entry_seq();
                let ghost kv = (key@, value@);
                self.entries.push((key, value));
                assert(self.entry_seq() =~= s.push(kv));
                assert(self.entry_seq().drop_last() =~= s);
            },
        }
    }

    /// The value of `key`, if the map holds one.
    pub fn get(&self, key: &String) -> (r: Option<&TypedValue>)
        requires
            self.wf(),
        ensures
            match r {
                Some(v) => self@.contains_key(key@) && self@[key@] == v@,
                None => !self@.contains_key(key@),
            },
    {
        proof {
            lemma_map_of_lookup(self.entry_seq(), key@);
        }
        match self.position(key) {
            Some(i) => Some(&self.entries[i].1),
            None => None,
        }
    }

    /// The entries, each tag name once.
    pub fn entries(&self) -> (r: &Vec<(String, TypedValue)>)
        requires
            self.wf(),
        ensures
            entries_view(r@) == self.entry_seq(),
            keys_unique(entries_view(r@)),
            map_of(entries_view(r@)) == self@,
    {
        &self.entries
    }
}

} // verus!
