//! The in-process index of session tokens: a flat mapping from opaque token
//! to principal id, hydrated from the persisted sessions table at process
//! start and kept in sync on login and logout. The persisted table stays
//! authoritative; this index is derived data.

use vstd::prelude::*;

verus! {

spec fn entries_map(s: Seq<(String, i32)>) -> Map<Seq<char>, i32>
    decreases s.len(),
{
    if s.len() == 0 {
        Map::empty()
    } else {
        entries_map(s.drop_last()).insert(s.last().0@, s.last().1)
    }
}

spec fn remove_key(s: Seq<(String, i32)>, key: Seq<char>) -> Seq<(String, i32)>
    decreases s.len(),
{
    if s.len() == 0 {
        s
    } else if s.last().0@ == key {
        remove_key(s.drop_last(), key)
    } else {
        remove_key(s.drop_last(), key).push(s.last())
    }
}

proof fn lemma_remove_key(s: Seq<(String, i32)>, key: Seq<char>)
    ensures
        entries_map(remove_key(s, key)) == entries_map(s).remove(key),
    decreases s.len(),
{
    if s.len() == 0 {
        assert(entries_map(s).remove(key) =~= Map::<Seq<char>, i32>::empty());
    } else {
        lemma_remove_key(s.drop_last(), key);
        if s.last().0@ == key {
            assert(entries_map(s).remove(key) =~= entries_map(s.drop_last()).remove(key));
        } else {
            assert(remove_key(s, key).drop_last() =~= remove_key(s.drop_last(), key));
            assert(entries_map(s).remove(key) =~= entries_map(s.drop_last()).remove(key).insert(
                s.last().0@,
                s.last().1,
            ));
        }
    }
}

/// The map after bulk-loading rows over `m`, later rows overriding earlier
/// ones for the same token.
pub open spec fn loaded(m: Map<Seq<char>, i32>, rows: Seq<(String, i32)>) -> Map<Seq<char>, i32>
    decreases rows.len(),
{
    if rows.len() == 0 {
        m
    } else {
        loaded(m, rows.drop_last()).insert(rows.last().0@, rows.last().1)
    }
}

/// The session index: token to principal id. Operations are O(1) hash-map
/// accesses in spirit; here a flat list carries the mapping, with later
/// insertions overriding earlier ones.
pub struct SessionsCache {
    entries: Vec<(String, i32)>,
}

impl View for SessionsCache {
    type V = Map<Seq<char>, i32>;

    closed spec fn view(&self) -> Map<Seq<char>, i32> {
        entries_map(self.entries@)
    }
}

impl Default for SessionsCache {
    /// An empty index, holding no session.
    fn default() -> (r: SessionsCache)
        ensures
            r@ == Map::<Seq<char>, i32>::empty(),
    {
        SessionsCache { entries: Vec::new() }
    }
}

impl SessionsCache {
    /// Inserts the mapping, overwriting any mapping the token had.
    pub fn insert(&mut self, key: String, value: i32)
        ensures
            final(self)@ == old(self)@.insert(key@, value),
    {
        self.entries.push((key, value));
        proof {
            assert(self.entries@.drop_last() =~= old(self).entries@);
        }
    }

    /// The principal the token maps to, or nothing for an unknown token.
    pub fn get(&self, key: String) -> (r: Option<i32>)
        ensures
            r == if self@.contains_key(key@) {
                Some(self@[key@])
            } else {
                None::<i32>
            },
    {
        let ghost s = self.entries@;
        let mut i: usize = self.entries.len();
        proof {
            assert(s.take(s.len() as int) =~= s);
        }
        while i > 0
            invariant
                i <= s.len(),
                s == self.entries@,
                entries_map(s).contains_key(key@) == entries_map(s.take(i as int)).contains_key(
                    key@,
                ),
                entries_map(s).contains_key(key@) ==> entries_map(s)[key@] == entries_map(
                    s.take(i as int),
                )[key@],
            decreases i,
        {
            proof {
                assert(s.take(i as int).drop_last() =~= s.take(i - 1));
                assert(s.take(i as int).last() == s[i - 1]);
            }
            if self.entries[i - 1].0 == key {
                return Some(self.entries[i - 1].1);
            }
            i -= 1;
        }
        proof {
            assert(s.take(0) =~= Seq::<(String, i32)>::empty());
        }
        None
    }

    /// Deletes the token's mapping; doing nothing for an absent token is no
    /// error.
    pub fn remove(&mut self, key: String)
        ensures
            final(self)@ == old(self)@.remove(key@),
    {
        let ghost s = self.entries@;
        let mut kept: Vec<(String, i32)> = Vec::new();
        let mut i: usize = 0;
        proof {
            assert(s.take(0) =~= Seq::<(String, i32)>::empty());
        }
        while i < self.entries.len()
            invariant
                i <= s.len(),
                s == self.entries@,
                kept@ == remove_key(s.take(i as int), key@),
            decreases s.len() - i,
        {
            proof {
                assert(s.take(i + 1).drop_last() =~= s.take(i as int));
                assert(s.take(i + 1).last() == s[i as int]);
            }
            let keep = !(self.entries[i].0 == key);
            if keep {
                let entry = (self.entries[i].0.clone(), self.entries[i].1);
                kept.push(entry);
            }
            i += 1;
        }
        proof {
            assert(s.take(s.len() as int) =~= s);
            lemma_remove_key(s, key@);
        }
        self.entries = kept;
    }

    /// Bulk-loads the index from the persisted sessions' rows, in order;
    /// meant to run at process start, before protected traffic is accepted.
    pub fn hydrate(&mut self, rows: Vec<(String, i32)>)
        ensures
            final(self)@ == loaded(old(self)@, rows@),
    {
        let mut i: usize = 0;
        proof {
            assert(rows@.take(0) =~= Seq::<(String, i32)>::empty());
        }
        while i < rows.len()
            invariant
                i <= rows@.len(),
                self@ == loaded(old(self)@, rows@.take(i as int)),
            decreases rows@.len() - i,
        {
            proof {
                assert(rows@.take(i + 1).drop_last() =~= rows@.take(i as int));
                assert(rows@.take(i + 1).last() == rows@[i as int]);
            }
            self.insert(rows[i].0.clone(), rows[i].1);
            i += 1;
        }
        proof {
            assert(rows@.take(rows@.len() as int) =~= rows@);
        }
    }
}

} // verus!
