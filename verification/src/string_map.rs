//! A map from text to text.
use crate::text::same_text;
use vstd::prelude::*;
use vstd::string::*;

verus! {

/// Texts under texts, at most one under each key.
#[derive(Debug)]
pub struct StringMap {
    entries: Vec<(String, String)>,
}

/// What a list of entries stands for as a map.
pub open spec fn map_of(entries: Seq<(Seq<char>, Seq<char>)>) -> Map<Seq<char>, Seq<char>>
    decreases entries.len(),
{
    if entries.len() == 0 {
        Map::empty()
    } else {
        map_of(entries.drop_last()).insert(entries.last().0, entries.last().1)
    }
}

/// No key occurs twice.
pub open spec fn distinct_keys(entries: Seq<(Seq<char>, Seq<char>)>) -> bool {
    forall|i: int, j: int|
        #![trigger entries[i], entries[j]]
        0 <= i < entries.len() && 0 <= j < entries.len() && i != j ==> entries[i].0 != entries[j].0
}

/// The map holds what the entries hold, and nothing else.
pub proof fn lemma_map_of(entries: Seq<(Seq<char>, Seq<char>)>)
    requires
        distinct_keys(entries),
    ensures
        forall|i: int|
            #![trigger entries[i]]
            0 <= i < entries.len() ==> map_of(entries).contains_key(entries[i].0) && map_of(
                entries,
            )[entries[i].0] == entries[i].1,
        forall|key: Seq<char>| #[trigger]
            map_of(entries).contains_key(key) ==> exists|i: int|
                0 <= i < entries.len() && #[trigger] entries[i].0 == key,
    decreases entries.len(),
{
    if entries.len() > 0 {
        let front = entries.drop_last();
        assert forall|i: int, j: int|
            #![trigger front[i], front[j]]
            0 <= i < front.len() && 0 <= j < front.len() && i != j implies front[i].0
            != front[j].0 by {
            assert(entries[i].0 != entries[j].0);
        }
        lemma_map_of(front);
        assert forall|i: int|
            #![trigger entries[i]]
            0 <= i < entries.len() implies map_of(entries).contains_key(entries[i].0) && map_of(
            entries,
        )[entries[i].0] == entries[i].1 by {
            if i < front.len() {
                assert(front[i] == entries[i]);
                assert(entries[i].0 != entries[entries.len() - 1].0);
            }
        }
        assert forall|key: Seq<char>| #[trigger] map_of(entries).contains_key(key) implies exists|
            i: int,
        |
            0 <= i < entries.len() && #[trigger] entries[i].0 == key by {
            if key == entries.last().0 {
                assert(entries[entries.len() - 1].0 == key);
            } else {
                assert(map_of(front).contains_key(key));
                let i = choose|i: int| 0 <= i < front.len() && #[trigger] front[i].0 == key;
                assert(entries[i].0 == key);
            }
        }
    }
}

/// Overwriting the entry with a key, or adding one where there is none, puts the
/// value under the key and leaves every other key as it was.
proof fn lemma_insert_entry(
    entries: Seq<(Seq<char>, Seq<char>)>,
    at: int,
    key: Seq<char>,
    value: Seq<char>,
)
    requires
        distinct_keys(entries),
        0 <= at <= entries.len(),
        forall|i: int| 0 <= i < at ==> (#[trigger] entries[i]).0 != key,
        at < entries.len() ==> entries[at].0 == key,
    ensures
        ({
            let after = if at < entries.len() {
                entries.update(at, (key, value))
            } else {
                entries.push((key, value))
            };
            distinct_keys(after) && map_of(after) == map_of(entries).insert(key, value)
        }),
{
    let after = if at < entries.len() {
        entries.update(at, (key, value))
    } else {
        entries.push((key, value))
    };
    if at < entries.len() {
        assert forall|i: int, j: int|
            #![trigger after[i], after[j]]
            0 <= i < after.len() && 0 <= j < after.len() && i != j implies after[i].0
            != after[j].0 by {
            assert(entries[i].0 != entries[j].0);
        }
        lemma_map_of(entries);
        lemma_map_of(after);
        let goal = map_of(entries).insert(key, value);
        assert(after[at] == (key, value));
        assert forall|k: Seq<char>| map_of(after).contains_key(k) implies goal.contains_key(k)
            && goal[k] == map_of(after)[k] by {
            let i = choose|i: int| 0 <= i < after.len() && #[trigger] after[i].0 == k;
            if i != at {
                assert(after[i] == entries[i]);
                assert(entries[i].0 != entries[at].0);
            }
        }
        assert forall|k: Seq<char>| goal.contains_key(k) implies map_of(after).contains_key(k) by {
            if k != key {
                assert(map_of(entries).contains_key(k));
                let i = choose|i: int| 0 <= i < entries.len() && #[trigger] entries[i].0 == k;
                assert(after[i] == entries[i]);
            }
        }
        assert(map_of(after) =~= goal);
    } else {
        assert(after.drop_last() =~= entries);
    }
}

/// The entries with `value` under `key`: in the place of the entry with this
/// key, or behind all others.
pub open spec fn with_entry(
    entries: Seq<(Seq<char>, Seq<char>)>,
    key: Seq<char>,
    value: Seq<char>,
) -> Seq<(Seq<char>, Seq<char>)>
    decreases entries.len(),
{
    if entries.len() == 0 {
        seq![(key, value)]
    } else if entries[0].0 == key {
        entries.update(0, (key, value))
    } else {
        seq![entries[0]] + with_entry(entries.drop_first(), key, value)
    }
}

/// The entry goes to the place of the first one with its key.
proof fn lemma_with_entry(
    entries: Seq<(Seq<char>, Seq<char>)>,
    at: int,
    key: Seq<char>,
    value: Seq<char>,
)
    requires
        0 <= at <= entries.len(),
        forall|i: int| 0 <= i < at ==> (#[trigger] entries[i]).0 != key,
        at < entries.len() ==> entries[at].0 == key,
    ensures
        with_entry(entries, key, value) == (if at < entries.len() {
            entries.update(at, (key, value))
        } else {
            entries.push((key, value))
        }),
    decreases entries.len(),
{
    let after = if at < entries.len() {
        entries.update(at, (key, value))
    } else {
        entries.push((key, value))
    };
    if entries.len() == 0 {
        assert(after =~= seq![(key, value)]);
    } else if at > 0 {
        let rest = entries.drop_first();
        assert(entries[0].0 != key);
        assert forall|i: int| 0 <= i < at - 1 implies (#[trigger] rest[i]).0 != key by {
            assert(entries[i + 1].0 != key);
        }
        lemma_with_entry(rest, at - 1, key, value);
        assert(after =~= seq![entries[0]] + with_entry(rest, key, value));
    }
}

impl StringMap {
    /// The entries in the order in which their keys first came.
    pub closed spec fn listing(&self) -> Seq<(Seq<char>, Seq<char>)> {
        self.entries.deep_view()
    }

    #[verifier::type_invariant]
    spec fn keys_once(self) -> bool {
        distinct_keys(self.listing())
    }

    /// An empty map.
    pub fn new() -> (r: StringMap)
        ensures
            r.listing() == Seq::<(Seq<char>, Seq<char>)>::empty(),
            r.deep_view() == Map::<Seq<char>, Seq<char>>::empty(),
    {
        let entries: Vec<(String, String)> = Vec::new();
        assert(entries.deep_view() =~= Seq::<(Seq<char>, Seq<char>)>::empty());
        StringMap { entries }
    }

    /// The number of entries.
    pub fn len(&self) -> (n: usize)
        ensures
            n == self.listing().len(),
            distinct_keys(self.listing()),
    {
        proof {
            use_type_invariant(self);
        }
        self.entries.len()
    }

    /// The key of the `i`th entry.
    pub fn key(&self, i: usize) -> (key: &str)
        requires
            i < self.listing().len(),
        ensures
            key@ == self.listing()[i as int].0,
    {
        self.entries[i].0.as_str()
    }

    /// The value of the `i`th entry.
    pub fn value(&self, i: usize) -> (value: &str)
        requires
            i < self.listing().len(),
        ensures
            value@ == self.listing()[i as int].1,
    {
        self.entries[i].1.as_str()
    }

    /// The place of the entry with this key, or the number of entries.
    fn find(&self, key: &str) -> (at: usize)
        ensures
            at <= self.listing().len(),
            forall|i: int| 0 <= i < at ==> (#[trigger] self.listing()[i]).0 != key@,
            at < self.listing().len() ==> self.listing()[at as int].0 == key@,
    {
        let wanted = key.to_owned();
        let mut at: usize = 0;
        while at < self.entries.len() && self.entries[at].0 != wanted
            invariant
                at <= self.entries.len(),
                wanted@ == key@,
                forall|i: int| 0 <= i < at ==> (#[trigger] self.listing()[i]).0 != key@,
            decreases self.entries.len() - at,
        {
            at = at + 1;
        }
        at
    }

    /// The value under `key`.
    pub fn get(&self, key: &str) -> (found: Option<&str>)
        ensures
            match found {
                Some(value) => self.deep_view().contains_key(key@) && self.deep_view()[key@]
                    == value@,
                None => !self.deep_view().contains_key(key@),
            },
    {
        proof {
            use_type_invariant(self);
            lemma_map_of(self.listing());
        }
        let at: usize = self.find(key);
        if at < self.entries.len() {
            Some(self.entries[at].1.as_str())
        } else {
            None
        }
    }

    /// Puts `value` under `key`, in place of what stood there.
    pub fn insert(&mut self, key: String, value: String)
        ensures
            final(self).listing() == with_entry(old(self).listing(), key@, value@),
            final(self).deep_view() == old(self).deep_view().insert(key@, value@),
    {
        proof {
            use_type_invariant(&*self);
        }
        let ghost before = self.listing();
        let ghost k = key@;
        let ghost v = value@;
        let at: usize = self.find(key.as_str());
        let mut entries: Vec<(String, String)> = Vec::new();
        std::mem::swap(&mut self.entries, &mut entries);
        if at < entries.len() {
            entries.set(at, (key, value));
        } else {
            entries.push((key, value));
        }
        proof {
            let after = entries.deep_view();
            assert(after =~= if at < before.len() {
                before.update(at as int, (k, v))
            } else {
                before.push((k, v))
            });
            lemma_insert_entry(before, at as int, k, v);
            lemma_with_entry(before, at as int, k, v);
        }
        self.entries = entries;
    }
}

impl Clone for StringMap {
    fn clone(&self) -> (r: StringMap)
        ensures
            r.listing() == self.listing(),
            r.deep_view() == self.deep_view(),
    {
        proof {
            use_type_invariant(self);
        }
        let entries = copy_pairs(&self.entries);
        StringMap { entries }
    }
}

/// A copy of a list of pairs of texts.
fn copy_pairs(pairs: &Vec<(String, String)>) -> (r: Vec<(String, String)>)
    ensures
        r.deep_view() == pairs.deep_view(),
{
    let mut r: Vec<(String, String)> = Vec::new();
    let mut i: usize = 0;
    while i < pairs.len()
        invariant
            i <= pairs.len(),
            r.deep_view() == pairs.deep_view().take(i as int),
        decreases pairs.len() - i,
    {
        let ghost before = r.deep_view();
        r.push((pairs[i].0.clone(), pairs[i].1.clone()));
        assert(r.deep_view() =~= before.push(pairs.deep_view()[i as int]));
        i = i + 1;
        assert(r.deep_view() =~= pairs.deep_view().take(i as int));
    }
    assert(r.deep_view() =~= pairs.deep_view());
    r
}

impl DeepView for StringMap {
    type V = Map<Seq<char>, Seq<char>>;

    open spec fn deep_view(&self) -> Map<Seq<char>, Seq<char>> {
        map_of(self.listing())
    }
}

impl StringMap {
    /// Whether everything in this map stands in the other one too.
    fn is_part_of(&self, other: &StringMap) -> (r: bool)
        ensures
            r == (forall|key: Seq<char>| #[trigger]
                self.deep_view().contains_key(key) ==> other.deep_view().contains_key(key)
                    && other.deep_view()[key] == self.deep_view()[key]),
    {
        proof {
            use_type_invariant(self);
            lemma_map_of(self.listing());
        }
        let ghost mine = self.listing();
        let mut i: usize = 0;
        while i < self.entries.len()
            invariant
                mine == self.listing(),
                i <= mine.len(),
                forall|j: int|
                    #![trigger mine[j]]
                    0 <= j < mine.len() ==> self.deep_view().contains_key(mine[j].0)
                        && self.deep_view()[mine[j].0] == mine[j].1,
                forall|j: int|
                    #![trigger mine[j]]
                    0 <= j < i ==> other.deep_view().contains_key(mine[j].0)
                        && other.deep_view()[mine[j].0] == mine[j].1,
            decreases self.entries.len() - i,
        {
            assert(mine[i as int] == (self.entries@[i as int].0@, self.entries@[i as int].1@));
            let same: bool = match other.get(self.entries[i].0.as_str()) {
                Some(value) => same_text(value, self.entries[i].1.as_str()),
                None => false,
            };
            if !same {
                assert(self.deep_view().contains_key(mine[i as int].0));
                return false;
            }
            i = i + 1;
        }
        assert forall|key: Seq<char>| #[trigger]
            self.deep_view().contains_key(key) implies other.deep_view().contains_key(key)
            && other.deep_view()[key] == self.deep_view()[key] by {
            let k = choose|k: int| 0 <= k < mine.len() && #[trigger] mine[k].0 == key;
            assert(mine[k].0 == key);
        }
        true
    }
}

impl PartialEq for StringMap {
    fn eq(&self, other: &StringMap) -> (r: bool) {
        let r: bool = self.is_part_of(other) && other.is_part_of(self);
        proof {
            if r {
                assert(self.deep_view() =~= other.deep_view());
            }
        }
        r
    }
}

impl vstd::std_specs::cmp::PartialEqSpecImpl for StringMap {
    open spec fn obeys_eq_spec() -> bool {
        true
    }

    open spec fn eq_spec(&self, other: &StringMap) -> bool {
        self.deep_view() == other.deep_view()
    }
}

} // verus!
