//! First-match association-list lookups, the crate's substitute for
//! hashed maps: entry order is kept, and the first entry with a
//! matching key wins.
use vstd::prelude::*;
use crate::platform::OsName;
use crate::strutil::str_eq;

verus! {

/// Index of the first entry with a string key equal to `key`, or -1.
pub open spec fn str_assoc_idx<V>(entries: Seq<(String, V)>, key: Seq<char>) -> int
    decreases entries.len(),
{
    if entries.len() == 0 {
        -1
    } else if entries[0].0@ == key {
        0
    } else {
        let r = str_assoc_idx(entries.drop_first(), key);
        if r < 0 {
            -1
        } else {
            r + 1
        }
    }
}

/// The first-match index is in range, matches, and is the first.
pub proof fn lemma_str_assoc_idx<V>(entries: Seq<(String, V)>, key: Seq<char>)
    ensures
        str_assoc_idx(entries, key) >= 0 ==> str_assoc_idx(entries, key) < entries.len()
            && entries[str_assoc_idx(entries, key)].0@ == key,
        str_assoc_idx(entries, key) >= 0 ==> forall|j: int|
            0 <= j < str_assoc_idx(entries, key) ==> (#[trigger] entries[j]).0@ != key,
        str_assoc_idx(entries, key) < 0 ==> forall|j: int|
            0 <= j < entries.len() ==> (#[trigger] entries[j]).0@ != key,
    decreases entries.len(),
{
    if entries.len() > 0 && entries[0].0@ != key {
        let t = entries.drop_first();
        lemma_str_assoc_idx(t, key);
        let r = str_assoc_idx(t, key);
        if r >= 0 {
            assert forall|j: int| 0 <= j < str_assoc_idx(entries, key) implies (
            #[trigger] entries[j]).0@ != key by {
                if j > 0 {
                    assert(t[j - 1] == entries[j]);
                }
            }
        } else {
            assert forall|j: int| 0 <= j < entries.len() implies (#[trigger] entries[j]).0@
                != key by {
                if j > 0 {
                    assert(t[j - 1] == entries[j]);
                }
            }
        }
    }
}

/// Whether some entry has this string key.
pub open spec fn str_assoc_has<V>(entries: Seq<(String, V)>, key: Seq<char>) -> bool {
    str_assoc_idx(entries, key) >= 0
}

/// The value of the first entry with this string key.
pub open spec fn str_assoc_val<V>(entries: Seq<(String, V)>, key: Seq<char>) -> V {
    entries[str_assoc_idx(entries, key)].1
}

/// First-match lookup by string key.
pub fn str_assoc_get<'a, V>(entries: &'a Vec<(String, V)>, key: &str) -> (r: Option<&'a V>)
    ensures
        r is Some <==> str_assoc_has(entries@, key@),
        r is Some ==> r->0 == &str_assoc_val(entries@, key@),
{
    proof {
        lemma_str_assoc_idx(entries@, key@);
    }
    let n = entries.len();
    for i in 0..n
        invariant
            n == entries@.len(),
            forall|j: int| 0 <= j < i ==> (#[trigger] entries@[j]).0@ != key@,
            str_assoc_idx(entries@, key@) >= 0 ==> str_assoc_idx(entries@, key@) < n
                && entries@[str_assoc_idx(entries@, key@)].0@ == key@,
            str_assoc_idx(entries@, key@) >= 0 ==> forall|j: int|
                0 <= j < str_assoc_idx(entries@, key@) ==> (#[trigger] entries@[j]).0@ != key@,
            str_assoc_idx(entries@, key@) < 0 ==> forall|j: int|
                0 <= j < n ==> (#[trigger] entries@[j]).0@ != key@,
    {
        if str_eq(entries[i].0.as_str(), key) {
            proof {
                let k = str_assoc_idx(entries@, key@);
                if k < 0 {
                    assert(entries@[i as int].0@ != key@);
                } else if k < i {
                    assert(entries@[k].0@ == key@);
                } else if k > i {
                    assert(entries@[i as int].0@ != key@);
                }
            }
            return Some(&entries[i].1);
        }
    }
    proof {
        let k = str_assoc_idx(entries@, key@);
        if k >= 0 {
            assert(entries@[k].0@ != key@);
        }
    }
    None
}

/// Index of the first entry with this OS key, or -1.
pub open spec fn os_assoc_idx(entries: Seq<(OsName, String)>, key: OsName) -> int
    decreases entries.len(),
{
    if entries.len() == 0 {
        -1
    } else if entries[0].0 == key {
        0
    } else {
        let r = os_assoc_idx(entries.drop_first(), key);
        if r < 0 {
            -1
        } else {
            r + 1
        }
    }
}

/// The first-match index is in range, matches, and is the first.
pub proof fn lemma_os_assoc_idx(entries: Seq<(OsName, String)>, key: OsName)
    ensures
        os_assoc_idx(entries, key) >= 0 ==> os_assoc_idx(entries, key) < entries.len()
            && entries[os_assoc_idx(entries, key)].0 == key,
        os_assoc_idx(entries, key) >= 0 ==> forall|j: int|
            0 <= j < os_assoc_idx(entries, key) ==> (#[trigger] entries[j]).0 != key,
        os_assoc_idx(entries, key) < 0 ==> forall|j: int|
            0 <= j < entries.len() ==> (#[trigger] entries[j]).0 != key,
    decreases entries.len(),
{
    if entries.len() > 0 && entries[0].0 != key {
        let t = entries.drop_first();
        lemma_os_assoc_idx(t, key);
        let r = os_assoc_idx(t, key);
        if r >= 0 {
            assert forall|j: int| 0 <= j < os_assoc_idx(entries, key) implies (
            #[trigger] entries[j]).0 != key by {
                if j > 0 {
                    assert(t[j - 1] == entries[j]);
                }
            }
        } else {
            assert forall|j: int| 0 <= j < entries.len() implies (#[trigger] entries[j]).0
                != key by {
                if j > 0 {
                    assert(t[j - 1] == entries[j]);
                }
            }
        }
    }
}

/// First-match lookup by OS key.
pub fn os_assoc_get<'a>(entries: &'a Vec<(OsName, String)>, key: OsName) -> (r: Option<&'a String>)
    ensures
        r is Some <==> os_assoc_idx(entries@, key) >= 0,
        r is Some ==> r->0 == &entries@[os_assoc_idx(entries@, key)].1,
{
    proof {
        lemma_os_assoc_idx(entries@, key);
    }
    let n = entries.len();
    for i in 0..n
        invariant
            n == entries@.len(),
            forall|j: int| 0 <= j < i ==> (#[trigger] entries@[j]).0 != key,
            os_assoc_idx(entries@, key) >= 0 ==> os_assoc_idx(entries@, key) < n
                && entries@[os_assoc_idx(entries@, key)].0 == key,
            os_assoc_idx(entries@, key) >= 0 ==> forall|j: int|
                0 <= j < os_assoc_idx(entries@, key) ==> (#[trigger] entries@[j]).0 != key,
            os_assoc_idx(entries@, key) < 0 ==> forall|j: int|
                0 <= j < n ==> (#[trigger] entries@[j]).0 != key,
    {
        if entries[i].0 == key {
            proof {
                let k = os_assoc_idx(entries@, key);
                if k < 0 {
                    assert(entries@[i as int].0 != key);
                } else if k < i {
                    assert(entries@[k].0 == key);
                } else if k > i {
                    assert(entries@[i as int].0 != key);
                }
            }
            return Some(&entries[i].1);
        }
    }
    proof {
        let k = os_assoc_idx(entries@, key);
        if k >= 0 {
            assert(entries@[k].0 != key);
        }
    }
    None
}

} // verus!
