//! Object metadata: labels and annotations, each a mapping from text to text.

use vstd::prelude::*;

verus! {

/// The value that the entries give a key: that of the last entry with the key.
spec fn value_of(entries: Seq<(String, String)>, key: Seq<char>) -> Option<Seq<char>>
    decreases entries.len(),
{
    if entries.len() == 0 {
        None
    } else if entries.last().0@ == key {
        Some(entries.last().1@)
    } else {
        value_of(entries.drop_last(), key)
    }
}

/// Entries of which none has the key give it no value.
proof fn lemma_value_absent(entries: Seq<(String, String)>, key: Seq<char>)
    requires
        forall|j: int| 0 <= j < entries.len() ==> entries[j].0@ != key,
    ensures
        value_of(entries, key) is None,
    decreases entries.len(),
{
    if entries.len() > 0 {
        lemma_value_absent(entries.drop_last(), key);
    }
}

/// Putting an entry in the place of the last entry with its key gives the key
/// the new value and leaves every other key its own.
proof fn lemma_value_replaced(
    entries: Seq<(String, String)>,
    at: int,
    entry: (String, String),
    key: Seq<char>,
)
    requires
        0 <= at < entries.len(),
        entries[at].0@ == entry.0@,
        forall|j: int| at < j < entries.len() ==> entries[j].0@ != entry.0@,
    ensures
        value_of(entries.update(at, entry), key) == if key == entry.0@ {
            Some(entry.1@)
        } else {
            value_of(entries, key)
        },
    decreases entries.len(),
{
    let after = entries.update(at, entry);
    if at == entries.len() - 1 {
        assert(after.drop_last() =~= entries.drop_last());
    } else {
        lemma_value_replaced(entries.drop_last(), at, entry, key);
        assert(after.drop_last() =~= entries.drop_last().update(at, entry));
    }
}

/// A key that the entries give a value is the key of one of them.
proof fn lemma_value_present(entries: Seq<(String, String)>, key: Seq<char>)
    requires
        value_of(entries, key) is Some,
    ensures
        exists|j: int| 0 <= j < entries.len() && (#[trigger] entries[j]).0@ == key,
{
    if !(exists|j: int| 0 <= j < entries.len() && (#[trigger] entries[j]).0@ == key) {
        lemma_value_absent(entries, key);
    }
}

/// A mapping from text keys to text values, such as an object's labels or its
/// annotations. Each key has at most one value. Two of them are equal when
/// they give the same keys the same values.
#[derive(Debug)]
pub struct KeyValues {
    entries: Vec<(String, String)>,
}

impl View for KeyValues {
    type V = Map<Seq<char>, Seq<char>>;

    closed spec fn view(&self) -> Map<Seq<char>, Seq<char>> {
        Map::new(
            |key: Seq<char>| value_of(self.entries@, key) is Some,
            |key: Seq<char>| value_of(self.entries@, key)->Some_0,
        )
    }
}

impl KeyValues {
    /// The mapping without any key.
    pub fn new() -> (made: KeyValues)
        ensures
            made@ == Map::<Seq<char>, Seq<char>>::empty(),
    {
        let made = KeyValues { entries: Vec::new() };
        assert(made@ =~= Map::<Seq<char>, Seq<char>>::empty());
        made
    }

    /// Gives `key` the value `value`, in place of any value it had.
    pub fn insert(&mut self, key: String, value: String)
        ensures
            final(self)@ == old(self)@.insert(key@, value@),
    {
        let mut i: usize = self.entries.len();
        while i > 0
            invariant
                i <= self.entries.len(),
                self.entries == old(self).entries,
                forall|j: int| i <= j < self.entries.len() ==> self.entries@[j].0@ != key@,
            decreases i,
        {
            i -= 1;
            if self.entries[i].0 == key {
                let ghost before = self.entries@;
                self.entries.set(i, (key, value));
                assert forall|k: Seq<char>|
                    #![trigger value_of(self.entries@, k)]
                    #![trigger value_of(before, k)]
                    value_of(self.entries@, k) == if k == key@ {
                        Some(value@)
                    } else {
                        value_of(before, k)
                    } by {
                    lemma_value_replaced(before, i as int, (key, value), k);
                }
                assert(self@ =~= old(self)@.insert(key@, value@));
                return ;
            }
        }
        proof {
            lemma_value_absent(self.entries@, key@);
        }
        self.entries.push((key, value));
        assert(self.entries@.drop_last() =~= old(self).entries@);
        assert(self@ =~= old(self)@.insert(key@, value@));
    }

    /// The value of `key`, where it has one.
    pub fn get(&self, key: &str) -> (found: Option<&String>)
        ensures
            match found {
                Some(value) => self@.contains_key(key@) && self@[key@] == value@,
                None => !self@.contains_key(key@),
            },
    {
        let wanted = key.to_owned();
        let mut i: usize = self.entries.len();
        assert(self.entries@.take(i as int) =~= self.entries@);
        while i > 0
            invariant
                i <= self.entries.len(),
                wanted@ == key@,
                value_of(self.entries@, key@) == value_of(self.entries@.take(i as int), key@),
            decreases i,
        {
            i -= 1;
            assert(self.entries@.take(i + 1).drop_last() =~= self.entries@.take(i as int));
            if self.entries[i].0 == wanted {
                return Some(&self.entries[i].1);
            }
        }
        None
    }
}

impl KeyValues {
    /// Whether both mappings give the key the same value, or both none.
    spec fn agree_at(&self, other: &KeyValues, key: Seq<char>) -> bool {
        value_of(self.entries@, key) == value_of(other.entries@, key)
    }

    /// Whether this mapping and `other` agree at every key that `keys` holds.
    fn agree_on_keys_of(&self, other: &KeyValues, keys: &KeyValues) -> (agree: bool)
        ensures
            agree == forall|j: int|
                0 <= j < keys.entries@.len() ==> self.agree_at(
                    other,
                    (#[trigger] keys.entries@[j]).0@,
                ),
    {
        let mut i: usize = 0;
        while i < keys.entries.len()
            invariant
                i <= keys.entries.len(),
                forall|j: int|
                    0 <= j < i ==> self.agree_at(other, (#[trigger] keys.entries@[j]).0@),
            decreases keys.entries.len() - i,
        {
            let key = keys.entries[i].0.as_str();
            let same = match (self.get(key), other.get(key)) {
                (Some(mine), Some(theirs)) => *mine == *theirs,
                (None, None) => true,
                _ => false,
            };
            if !same {
                assert(!self.agree_at(other, keys.entries@[i as int].0@));
                return false;
            }
            i += 1;
        }
        true
    }
}

impl PartialEq for KeyValues {
    /// Whether the two mappings give the same keys the same values.
    fn eq(&self, other: &KeyValues) -> (same: bool) {
        let same = self.agree_on_keys_of(other, self) && self.agree_on_keys_of(other, other);
        proof {
            if same {
                assert forall|key: Seq<char>|
                    #![trigger value_of(self.entries@, key)]
                    #![trigger value_of(other.entries@, key)]
                    value_of(self.entries@, key) == value_of(other.entries@, key) by {
                    if value_of(self.entries@, key) is Some {
                        lemma_value_present(self.entries@, key);
                    } else if value_of(other.entries@, key) is Some {
                        lemma_value_present(other.entries@, key);
                    }
                }
                assert(self@ =~= other@);
            } else if self@ == other@ {
                assert forall|key: Seq<char>| self.agree_at(other, key) by {
                    assert(self@.contains_key(key) == other@.contains_key(key));
                    assert(self@.contains_key(key) ==> self@[key] == other@[key]);
                }
            }
        }
        same
    }
}

impl Eq for KeyValues {

}

impl vstd::std_specs::cmp::PartialEqSpecImpl for KeyValues {
    open spec fn obeys_eq_spec() -> bool {
        true
    }

    open spec fn eq_spec(&self, other: &KeyValues) -> bool {
        self@ == other@
    }
}

/// The metadata of an object.
#[derive(Debug)]
pub struct ObjectMeta {
    /// The object's labels, if it has any.
    pub labels: Option<KeyValues>,
    /// The object's annotations, if it has any.
    pub annotations: Option<KeyValues>,
}

} // verus!
