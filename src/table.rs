use vstd::prelude::*;

verus! {

/// The mapping that later entries of `entries` describe: an entry overrides
/// every earlier entry with the same key.
pub open spec fn entries_map(entries: Seq<(char, String)>) -> Map<char, Seq<char>>
    decreases entries.len(),
{
    if entries.len() == 0 {
        Map::empty()
    } else {
        let last = entries.last();
        entries_map(entries.drop_last()).insert(last.0, last.1@)
    }
}

proof fn lemma_entries_map_suffix(entries: Seq<(char, String)>, i: int, c: char)
    requires
        0 <= i <= entries.len(),
        forall|j: int| i <= j < entries.len() ==> entries[j].0 != c,
    ensures
        entries_map(entries).contains_key(c) == entries_map(entries.take(i)).contains_key(c),
        entries_map(entries).contains_key(c) ==> entries_map(entries)[c] == entries_map(
            entries.take(i),
        )[c],
    decreases entries.len() - i,
{
    if i < entries.len() {
        let shorter = entries.drop_last();
        assert(shorter.take(i) =~= entries.take(i));
        lemma_entries_map_suffix(shorter, i, c);
    } else {
        assert(entries.take(i) =~= entries);
    }
}

/// A mapping from placeholder characters to the text they stand for.
/// Lookups are case-sensitive; inserting a key that is present replaces its
/// value.
pub struct SubstitutionTable {
    entries: Vec<(char, String)>,
}

impl View for SubstitutionTable {
    type V = Map<char, Seq<char>>;

    closed spec fn view(&self) -> Map<char, Seq<char>> {
        entries_map(self.entries@)
    }
}

impl SubstitutionTable {
    /// A table with no keys.
    pub fn new() -> (r: SubstitutionTable)
        ensures
            r@ == Map::<char, Seq<char>>::empty(),
    {
        SubstitutionTable { entries: Vec::new() }
    }

    /// Binds `key` to `value`, replacing any earlier value of `key`.
    pub fn insert(&mut self, key: char, value: String)
        ensures
            final(self)@ == old(self)@.insert(key, value@),
    {
        self.entries.push((key, value));
        proof {
            assert(self.entries@.drop_last() =~= old(self).entries@);
        }
    }

    /// Whether `key` is bound.
    pub fn contains_key(&self, key: char) -> (r: bool)
        ensures
            r == self@.contains_key(key),
    {
        self.get(key).is_some()
    }

    /// The value bound to `key`, if any.
    pub fn get(&self, key: char) -> (r: Option<&String>)
        ensures
            r is Some <==> self@.contains_key(key),
            r is Some ==> r->0@ == self@[key],
    {
        let mut i: usize = self.entries.len();
        while i > 0
            invariant
                i <= self.entries@.len(),
                forall|j: int| i <= j < self.entries@.len() ==> self.entries@[j].0 != key,
            decreases i,
        {
            if self.entries[i - 1].0 == key {
                proof {
                    let s = self.entries@;
                    lemma_entries_map_suffix(s, i as int, key);
                    assert(s.take(i as int).drop_last() =~= s.take(i - 1));
                }
                return Some(&self.entries[i - 1].1);
            }
            i = i - 1;
        }
        proof {
            lemma_entries_map_suffix(self.entries@, 0, key);
            assert(self.entries@.take(0) =~= Seq::<(char, String)>::empty());
        }
        None
    }
}

} // verus!
