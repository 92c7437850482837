//! A map from strings to strings, kept as a list of entries; inserting a key
//! first drops the entry it had.
use vstd::prelude::*;

verus! {

/// The map that a list of entries denotes: a later entry for a key wins.
pub open spec fn entries_map(s: Seq<(String, String)>) -> Map<Seq<char>, Seq<char>>
    decreases s.len(),
{
    if s.len() == 0 {
        Map::empty()
    } else {
        entries_map(s.drop_last()).insert(s.last().0@, s.last().1@)
    }
}

/// A string-keyed map of strings: substitution variables, an environment
/// snapshot, or the served files.
#[derive(Clone, Debug)]
pub struct StringMap {
    entries: Vec<(String, String)>,
}

impl View for StringMap {
    type V = Map<Seq<char>, Seq<char>>;

    closed spec fn view(&self) -> Map<Seq<char>, Seq<char>> {
        entries_map(self.entries@)
    }
}

proof fn lemma_entries_step(s: Seq<(String, String)>, i: int)
    requires
        0 <= i < s.len(),
    ensures
        entries_map(s.take(i + 1)) == entries_map(s.take(i)).insert(s[i].0@, s[i].1@),
{
    assert(s.take(i + 1).drop_last() =~= s.take(i));
}

impl StringMap {
    /// The empty map.
    pub fn new() -> (r: StringMap)
        ensures
            r@ == Map::<Seq<char>, Seq<char>>::empty(),
    {
        StringMap { entries: Vec::new() }
    }

    /// Binds `key` to `value`, replacing any earlier binding of `key`.
    pub fn insert(&mut self, key: String, value: String)
        ensures
            final(self)@ == old(self)@.insert(key@, value@),
    {
        let n = self.entries.len();
        let mut kept: Vec<(String, String)> = Vec::new();
        let mut i: usize = 0;
        while i < n
            invariant
                n == self.entries@.len(),
                i <= n,
                entries_map(kept@) == entries_map(self.entries@.take(i as int)).remove(key@),
            decreases n - i,
        {
            proof {
                lemma_entries_step(self.entries@, i as int);
            }
            let ghost prev = entries_map(self.entries@.take(i as int));
            if self.entries[i].0 != key {
                let k = self.entries[i].0.clone();
                let v = self.entries[i].1.clone();
                let ghost old_kept = kept@;
                kept.push((k, v));
                assert(kept@.drop_last() =~= old_kept);
                assert(entries_map(kept@) =~= prev.insert(self.entries@[i as int].0@, self.entries@[i as int].1@).remove(key@));
            } else {
                assert(prev.insert(key@, self.entries@[i as int].1@).remove(key@) =~= prev.remove(key@));
            }
            i = i + 1;
        }
        assert(self.entries@.take(n as int) =~= self.entries@);
        let ghost before = kept@;
        kept.push((key, value));
        assert(kept@.drop_last() =~= before);
        assert(entries_map(kept@) =~= old(self)@.insert(key@, value@));
        self.entries = kept;
    }

    /// The value bound to `key`, if any.
    pub fn get(&self, key: &str) -> (r: Option<&String>)
        ensures
            match r {
                Some(v) => self@.contains_key(key@) && v@ == self@[key@],
                None => !self@.contains_key(key@),
            },
    {
        let k = String::from_str(key);
        let n = self.entries.len();
        let mut found: Option<usize> = None;
        let mut i: usize = 0;
        while i < n
            invariant
                n == self.entries@.len(),
                i <= n,
                k@ == key@,
                match found {
                    Some(j) => j < i && entries_map(self.entries@.take(i as int)).contains_key(key@)
                        && self.entries@[j as int].1@ == entries_map(self.entries@.take(i as int))[key@],
                    None => !entries_map(self.entries@.take(i as int)).contains_key(key@),
                },
            decreases n - i,
        {
            proof {
                lemma_entries_step(self.entries@, i as int);
            }
            if self.entries[i].0 == k {
                found = Some(i);
            }
            i = i + 1;
        }
        assert(self.entries@.take(n as int) =~= self.entries@);
        match found {
            Some(j) => Some(&self.entries[j].1),
            None => None,
        }
    }
}

} // verus!
