//! The version catalog: the manifest of all known game versions,
//! fetched in bulk and queried by identifier with a linear scan.
use vstd::prelude::*;

verus! {

/// Release classification of a catalog version.
#[derive(Debug, Clone, Copy, PartialEq, Eq, Structural)]
pub enum VersionType {
    OldAlpha,
    OldBeta,
    Release,
    Snapshot,
}

/// The catalog's pointers to the most recent release and snapshot.
#[derive(Debug, Clone)]
pub struct Latest {
    pub release: String,
    pub snapshot: String,
}

/// One catalog entry: immutable facts about a known version.
#[derive(Debug, Clone)]
pub struct Version {
    pub id: String,
    pub kind: VersionType,
    pub url: String,
    pub time: String,
    pub release_time: String,
    pub sha1: String,
    pub compliance_level: u8,
}

/// The manifest of all known versions.
#[derive(Debug, Clone)]
pub struct VersionManifest {
    pub latest: Latest,
    pub versions: Vec<Version>,
}

/// Index of the first version with the given id, or -1.
pub open spec fn spec_find_version(versions: Seq<Version>, id: Seq<char>) -> int
    decreases versions.len(),
{
    if versions.len() == 0 {
        -1
    } else if versions[0].id@ == id {
        0
    } else {
        let r = spec_find_version(versions.drop_first(), id);
        if r < 0 {
            -1
        } else {
            r + 1
        }
    }
}

/// The first-match index is in range, matches, and is the first.
pub proof fn lemma_find_version(versions: Seq<Version>, id: Seq<char>)
    ensures
        spec_find_version(versions, id) >= 0 ==> spec_find_version(versions, id) < versions.len()
            && versions[spec_find_version(versions, id)].id@ == id,
        spec_find_version(versions, id) >= 0 ==> forall|j: int|
            0 <= j < spec_find_version(versions, id) ==> (#[trigger] versions[j]).id@ != id,
        spec_find_version(versions, id) < 0 ==> forall|j: int|
            0 <= j < versions.len() ==> (#[trigger] versions[j]).id@ != id,
    decreases versions.len(),
{
    if versions.len() > 0 && versions[0].id@ != id {
        let t = versions.drop_first();
        lemma_find_version(t, id);
        let r = spec_find_version(t, id);
        if r >= 0 {
            assert forall|j: int| 0 <= j < spec_find_version(versions, id) implies (
            #[trigger] versions[j]).id@ != id by {
                if j > 0 {
                    assert(t[j - 1] == versions[j]);
                }
            }
        } else {
            assert forall|j: int| 0 <= j < versions.len() implies (#[trigger] versions[j]).id@
                != id by {
                if j > 0 {
                    assert(t[j - 1] == versions[j]);
                }
            }
        }
    }
}

impl VersionManifest {
    /// All known versions, in catalog order.
    pub fn versions(&self) -> (r: &Vec<Version>)
        ensures
            r == &self.versions,
    {
        &self.versions
    }

    /// Linear scan for the version with the given id; `None` is the
    /// not-found condition the callers surface.
    pub fn find(&self, id: &str) -> (r: Option<&Version>)
        ensures
            r is Some <==> spec_find_version(self.versions@, id@) >= 0,
            r is Some ==> r->0 == &self.versions@[spec_find_version(self.versions@, id@)],
    {
        proof {
            lemma_find_version(self.versions@, id@);
        }
        let n = self.versions.len();
        for i in 0..n
            invariant
                n == self.versions@.len(),
                forall|j: int| 0 <= j < i ==> (#[trigger] self.versions@[j]).id@ != id@,
                spec_find_version(self.versions@, id@) >= 0 ==> spec_find_version(
                    self.versions@,
                    id@,
                ) < n && self.versions@[spec_find_version(self.versions@, id@)].id@ == id@,
                spec_find_version(self.versions@, id@) >= 0 ==> forall|j: int|
                    0 <= j < spec_find_version(self.versions@, id@) ==> (
                    #[trigger] self.versions@[j]).id@ != id@,
                spec_find_version(self.versions@, id@) < 0 ==> forall|j: int|
                    0 <= j < n ==> (#[trigger] self.versions@[j]).id@ != id@,
        {
            if crate::strutil::str_eq(self.versions[i].id.as_str(), id) {
                proof {
                    let k = spec_find_version(self.versions@, id@);
                    if k < 0 {
                        assert(self.versions@[i as int].id@ != id@);
                    } else if k < i {
                        assert(self.versions@[k].id@ == id@);
                    } else if k > i {
                        assert(self.versions@[i as int].id@ != id@);
                    }
                }
                return Some(&self.versions[i]);
            }
        }
        proof {
            let k = spec_find_version(self.versions@, id@);
            if k >= 0 {
                assert(self.versions@[k].id@ != id@);
            }
        }
        None
    }
}

} // verus!
