//! The per-installation key-value configuration: a flat string map
//! with "left operand wins" merge semantics, so an installation's
//! own entries shadow global defaults without losing unrelated keys.
use vstd::prelude::*;
use crate::listmap::{str_assoc_idx, str_assoc_has, str_assoc_val, str_assoc_get,
    lemma_str_assoc_idx};

verus! {

/// A flat string-keyed configuration. Keys are unique; entry order is
/// irrelevant to lookups and is not part of the abstraction.
#[derive(Debug)]
pub struct Config {
    pub entries: Vec<(String, String)>,
}

/// No two entries share a key.
pub open spec fn spec_unique_keys(entries: Seq<(String, String)>) -> bool {
    forall|i: int, j: int|
        0 <= i < j < entries.len() ==> (#[trigger] entries[i]).0@ != (#[trigger] entries[j]).0@
}

/// The map an entry list denotes; later entries would win, which with
/// unique keys coincides with first-match lookup.
pub open spec fn spec_map_of(entries: Seq<(String, String)>) -> Map<Seq<char>, Seq<char>>
    decreases entries.len(),
{
    if entries.len() == 0 {
        Map::empty()
    } else {
        spec_map_of(entries.drop_last()).insert(entries.last().0@, entries.last().1@)
    }
}

/// Membership in the denoted map is having an entry; with unique keys
/// the denoted value is the first (only) entry's value.
pub proof fn lemma_map_of(entries: Seq<(String, String)>, key: Seq<char>)
    ensures
        spec_map_of(entries).contains_key(key) <==> str_assoc_has(entries, key),
        spec_unique_keys(entries) && str_assoc_has(entries, key) ==> spec_map_of(entries)[key]
            == str_assoc_val(entries, key)@,
    decreases entries.len(),
{
    lemma_str_assoc_idx(entries, key);
    if entries.len() > 0 {
        let front = entries.drop_last();
        lemma_map_of(front, key);
        lemma_str_assoc_idx(front, key);
        let k = str_assoc_idx(entries, key);
        let kf = str_assoc_idx(front, key);
        assert(forall|j: int| 0 <= j < front.len() ==> front[j] == entries[j]);
        if entries.last().0@ == key {
            if spec_unique_keys(entries) {
                if k >= 0 && k < entries.len() - 1 {
                    assert(entries[k].0@ == entries[entries.len() - 1].0@);
                    assert(false);
                }
            }
        } else {
            if kf >= 0 {
                assert(entries[kf].0@ == key);
                if k > kf {
                    assert(entries[kf].0@ != key);
                    assert(false);
                }
                if k < 0 {
                    assert(entries[kf].0@ != key);
                    assert(false);
                }
                if k < kf {
                    assert(front[k] == entries[k]);
                    assert(front[k].0@ != key);
                    assert(false);
                }
            } else {
                if k >= 0 {
                    if k < entries.len() - 1 {
                        assert(front[k].0@ != key);
                        assert(entries[k].0@ == key);
                        assert(false);
                    }
                }
            }
        }
    }
}

impl Clone for Config {
    /// A copy with the same entries.
    fn clone(&self) -> (r: Self)
        ensures
            r.entries@ == self.entries@,
    {
        let mut entries: Vec<(String, String)> = Vec::new();
        let n = self.entries.len();
        for i in 0..n
            invariant
                n == self.entries@.len(),
                entries@ == self.entries@.take(i as int),
        {
            entries.push((self.entries[i].0.clone(), self.entries[i].1.clone()));
            proof {
                assert(entries@ =~= self.entries@.take(i + 1));
            }
        }
        proof {
            assert(self.entries@.take(n as int) =~= self.entries@);
        }
        Config { entries }
    }
}

impl Config {
    /// The map this configuration denotes.
    pub open spec fn view(&self) -> Map<Seq<char>, Seq<char>> {
        spec_map_of(self.entries@)
    }

    /// Key uniqueness, established by the constructors and preserved
    /// by every operation.
    pub open spec fn wf(&self) -> bool {
        spec_unique_keys(self.entries@)
    }

    /// Wraps an entry list whose keys are already unique.
    pub fn new(map: Vec<(String, String)>) -> (r: Config)
        requires
            spec_unique_keys(map@),
        ensures
            r.wf(),
            r.entries@ == map@,
    {
        Config { entries: map }
    }

    /// The configuration with no entries.
    pub fn empty() -> (r: Config)
        ensures
            r.wf(),
            r@ == Map::<Seq<char>, Seq<char>>::empty(),
    {
        Config { entries: Vec::new() }
    }

    /// Looks a key up; `None` when the key has no entry.
    pub fn get(&self, entry: &str) -> (r: Option<&str>)
        requires
            self.wf(),
        ensures
            r is Some <==> self@.contains_key(entry@),
            r is Some ==> r->0@ == self@[entry@],
    {
        proof {
            lemma_map_of(self.entries@, entry@);
        }
        match str_assoc_get(&self.entries, entry) {
            Some(v) => Some(v.as_str()),
            None => None,
        }
    }

    /// Inserts or replaces the entry for `key`.
    pub fn set(&mut self, key: &str, value: String)
        requires
            old(self).wf(),
        ensures
            final(self).wf(),
            final(self)@ == old(self)@.insert(key@, value@),
    {
        proof {
            lemma_str_assoc_idx(self.entries@, key@);
        }
        let ghost orig = self.entries@;
        let n = self.entries.len();
        let mut i: usize = 0;
        while i < n
            invariant
                n == self.entries@.len(),
                self.entries@ == orig,
                orig == old(self).entries@,
                spec_unique_keys(orig),
                i <= n,
                forall|j: int| 0 <= j < i ==> (#[trigger] orig[j]).0@ != key@,
            decreases n - i,
        {
            if crate::strutil::str_eq(self.entries[i].0.as_str(), key) {
                let pair = (self.entries[i].0.clone(), value);
                self.entries.set(i, pair);
                proof {
                    lemma_set_entry(orig, self.entries@, i as int, key@, value@);
                }
                return ;
            }
            i = i + 1;
        }
        let owned_key = key.to_owned();
        self.entries.push((owned_key, value));
        proof {
            assert(self.entries@.drop_last() =~= orig);
            assert(final(self)@ =~= old(self)@.insert(key@, value@));
            assert forall|a: int, b: int|
                0 <= a < b < self.entries@.len() implies (#[trigger] self.entries@[a]).0@ != (
            #[trigger] self.entries@[b]).0@ by {
                if b == self.entries@.len() - 1 {
                    assert(orig[a].0@ != key@);
                }
            }
        }
    }

    /// Merges onto `other`: every key of `self` keeps the value from
    /// `self`, every other key of `other` is kept unchanged.
    pub fn merge(self, other: Self) -> (r: Self)
        requires
            self.wf(),
            other.wf(),
        ensures
            r.wf(),
            r@ == other@.union_prefer_right(self@),
    {
        let ghost mine = self.entries@;
        let mut r = other;
        let mut remaining = self.entries;
        proof {
            assert(r@.union_prefer_right(spec_map_of(Seq::<(String, String)>::empty())) =~= r@);
            assert(remaining@ =~= mine.skip(0));
        }
        let n = remaining.len();
        let mut taken: usize = 0;
        while taken < n
            invariant
                n == mine.len(),
                remaining@ == mine.skip(taken as int),
                taken <= n,
                r.wf(),
                r@ == old_view_union(other@, mine.take(taken as int)),
            decreases n - taken,
        {
            let pair = remaining.remove(0);
            proof {
                assert(remaining@ =~= mine.skip(taken + 1));
                assert(pair == mine[taken as int]);
            }
            let (k, v) = pair;
            r.set(k.as_str(), v);
            proof {
                assert(mine.take(taken + 1).drop_last() =~= mine.take(taken as int));
                assert(mine.take(taken + 1).last() == mine[taken as int]);
                assert(r@ =~= old_view_union(other@, mine.take(taken + 1)));
            }
            taken = taken + 1;
        }
        proof {
            assert(mine.take(n as int) =~= mine);
            assert(r@ =~= other@.union_prefer_right(spec_map_of(mine)));
        }
        r
    }

    /// The built-in global defaults: an offline player name and a
    /// null access token.
    pub fn create_default_global() -> (r: Config)
        ensures
            r.wf(),
            r@ == Map::<Seq<char>, Seq<char>>::empty().insert("auth_player_name"@, "synther"@)
                .insert("auth_access_token"@, "0"@),
    {
        let mut r = Config::empty();
        r.set("auth_player_name", String::from_str("synther"));
        r.set("auth_access_token", String::from_str("0"));
        r
    }
}

/// The union that a partially consumed merge denotes.
pub open spec fn old_view_union(
    base: Map<Seq<char>, Seq<char>>,
    taken: Seq<(String, String)>,
) -> Map<Seq<char>, Seq<char>> {
    base.union_prefer_right(spec_map_of(taken))
}

/// Replacing the value at an existing key denotes a map insert.
proof fn lemma_set_entry(
    orig: Seq<(String, String)>,
    updated: Seq<(String, String)>,
    i: int,
    key: Seq<char>,
    value: Seq<char>,
)
    requires
        spec_unique_keys(orig),
        0 <= i < orig.len(),
        orig[i].0@ == key,
        updated.len() == orig.len(),
        updated[i].0@ == key,
        updated[i].1@ == value,
        forall|j: int| 0 <= j < orig.len() && j != i ==> updated[j] == orig[j],
    ensures
        spec_unique_keys(updated),
        spec_map_of(updated) == spec_map_of(orig).insert(key, value),
    decreases orig.len(),
{
    assert forall|a: int, b: int|
        0 <= a < b < updated.len() implies (#[trigger] updated[a]).0@ != (
    #[trigger] updated[b]).0@ by {
        assert(updated[a].0@ == orig[a].0@);
        assert(updated[b].0@ == orig[b].0@);
    }
    if i == orig.len() - 1 {
        assert(updated.drop_last() =~= orig.drop_last());
        assert(spec_map_of(updated) =~= spec_map_of(orig).insert(key, value));
    } else {
        lemma_set_entry(orig.drop_last(), updated.drop_last(), i, key, value);
        assert(updated.last() == orig.last());
        lemma_map_of(orig, orig.last().0@);
        assert(orig.last().0@ != key);
        assert(spec_map_of(updated) =~= spec_map_of(orig).insert(key, value));
    }
}

} // verus!
