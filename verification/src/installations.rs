//! The installation registry: named installation records, their
//! on-disk layout, and the ordered name-to-record list with its
//! uniqueness invariant.
use vstd::prelude::*;
use vstd::string::StringExecFns;
use crate::catalog::{spec_find_version, lemma_find_version, VersionManifest, VersionType};

verus! {

/// The resolved facts recorded for an installation.
#[derive(Debug)]
pub struct InstallationInfo {
    pub version: String,
    pub release_time: String,
    pub kind: Option<VersionType>,
}

impl Clone for InstallationInfo {
    /// An exact copy.
    fn clone(&self) -> (r: Self)
        ensures
            r == *self,
    {
        InstallationInfo {
            version: self.version.clone(),
            release_time: self.release_time.clone(),
            kind: self.kind,
        }
    }
}

/// A named, locally materialized installation of one version.
#[derive(Debug)]
pub struct Installation {
    pub name: String,
    pub info: InstallationInfo,
}

impl Clone for Installation {
    /// An exact copy.
    fn clone(&self) -> (r: Self)
        ensures
            r == *self,
    {
        Installation { name: self.name.clone(), info: self.info.clone() }
    }
}

impl Installation {
    /// Resolves a requested version id against the catalog; `None` is
    /// the not-found condition.
    pub fn new(manifest: &VersionManifest, name: &str, version: &str) -> (r: Option<Installation>)
        ensures
            r is Some <==> spec_find_version(manifest.versions@, version@) >= 0,
            r is Some ==> ({
                let found = manifest.versions@[spec_find_version(manifest.versions@, version@)];
                &&& r->0.name@ == name@
                &&& r->0.info.version == found.id
                &&& r->0.info.release_time == found.release_time
                &&& r->0.info.kind == Some(found.kind)
            }),
    {
        match manifest.find(version) {
            Some(found) => Some(
                Installation {
                    name: name.to_owned(),
                    info: InstallationInfo {
                        version: found.id.clone(),
                        release_time: found.release_time.clone(),
                        kind: Some(found.kind),
                    },
                },
            ),
            None => None,
        }
    }

    /// This installation's directory under the installations root.
    pub fn dir_path(&self, installations_dir: &str) -> (r: String)
        ensures
            r@ == installations_dir@ + seq!['/'] + self.name@,
    {
        crate::strutil::path_join(installations_dir, self.name.as_str())
    }

    /// The per-installation configuration document.
    pub fn config_path(&self, installations_dir: &str) -> (r: String)
        ensures
            r@ == installations_dir@ + seq!['/'] + self.name@ + seq!['/'] + "config.json"@,
    {
        let mut p = self.dir_path(installations_dir);
        p.append("/");
        p.append("config.json");
        proof {
            reveal_strlit("/");
            assert("/"@ =~= seq!['/']);
        }
        p
    }

    /// The pinned metadata document.
    pub fn client_json_path(&self, installations_dir: &str) -> (r: String)
        ensures
            r@ == installations_dir@ + seq!['/'] + self.name@ + seq!['/'] + "client.json"@,
    {
        let mut p = self.dir_path(installations_dir);
        p.append("/");
        p.append("client.json");
        proof {
            reveal_strlit("/");
            assert("/"@ =~= seq!['/']);
        }
        p
    }

    /// The cached overlay profile document; its absence on disk is
    /// the signal that no overlay is active.
    pub fn fabric_json_path(&self, installations_dir: &str) -> (r: String)
        ensures
            r@ == installations_dir@ + seq!['/'] + self.name@ + seq!['/'] + "fabric.json"@,
    {
        let mut p = self.dir_path(installations_dir);
        p.append("/");
        p.append("fabric.json");
        proof {
            reveal_strlit("/");
            assert("/"@ =~= seq!['/']);
        }
        p
    }

    /// The delivered main binary.
    pub fn client_jar_path(&self, installations_dir: &str) -> (r: String)
        ensures
            r@ == installations_dir@ + seq!['/'] + self.name@ + seq!['/'] + "client.jar"@,
    {
        let mut p = self.dir_path(installations_dir);
        p.append("/");
        p.append("client.jar");
        proof {
            reveal_strlit("/");
            assert("/"@ =~= seq!['/']);
        }
        p
    }
}

/// Whether some record carries this name.
pub open spec fn spec_has_name(records: Seq<Installation>, name: Seq<char>) -> bool {
    exists|i: int| 0 <= i < records.len() && (#[trigger] records[i]).name@ == name
}

/// How many records carry this name.
pub open spec fn spec_name_count(records: Seq<Installation>, name: Seq<char>) -> int
    decreases records.len(),
{
    if records.len() == 0 {
        0
    } else {
        spec_name_count(records.drop_last(), name) + if records.last().name@ == name {
            1int
        } else {
            0int
        }
    }
}

/// The registry: an ordered list of installations, unique by name.
#[derive(Debug)]
pub struct Installations(pub Vec<Installation>);

impl Installations {
    /// Name uniqueness: the registry's invariant.
    pub open spec fn wf(&self) -> bool {
        forall|i: int, j: int|
            0 <= i < j < self.0@.len() ==> (#[trigger] self.0@[i]).name@ != (
            #[trigger] self.0@[j]).name@
    }

    /// The empty registry.
    pub fn new() -> (r: Installations)
        ensures
            r.wf(),
            r.0@ =~= Seq::<Installation>::empty(),
    {
        Installations(Vec::new())
    }

    /// Adds a record unless its name is already taken; a duplicate is
    /// silently ignored, never overwritten.
    pub fn add(&mut self, installation: &Installation)
        requires
            old(self).wf(),
        ensures
            final(self).wf(),
            spec_has_name(old(self).0@, installation.name@) ==> final(self).0@ == old(self).0@,
            !spec_has_name(old(self).0@, installation.name@) ==> final(self).0@ == old(self).0@.push(
                *installation,
            ),
            spec_has_name(final(self).0@, installation.name@),
    {
        let n = self.0.len();
        for i in 0..n
            invariant
                n == self.0@.len(),
                self.0@ == old(self).0@,
                old(self).wf(),
                forall|j: int| 0 <= j < i ==> (#[trigger] self.0@[j]).name@ != installation.name@,
        {
            if crate::strutil::str_eq(self.0[i].name.as_str(), installation.name.as_str()) {
                return ;
            }
        }
        self.0.push(installation.clone());
        proof {
            assert(final(self).0@.last().name@ == installation.name@);
            assert forall|a: int, b: int|
                0 <= a < b < self.0@.len() implies (#[trigger] self.0@[a]).name@ != (
            #[trigger] self.0@[b]).name@ by {
                if b == self.0@.len() - 1 {
                    assert(old(self).0@[a].name@ != installation.name@);
                }
            }
        }
    }

    /// Removes every record with this name.
    pub fn remove(&mut self, name: &str)
        requires
            old(self).wf(),
        ensures
            final(self).wf(),
            final(self).0@ == old(self).0@.filter(|x: Installation| x.name@ != name@),
            !spec_has_name(final(self).0@, name@),
    {
        let ghost orig = self.0@;
        let mut kept: Vec<Installation> = Vec::new();
        proof {
            reveal(Seq::filter);
            assert(orig.take(0) =~= Seq::<Installation>::empty());
            assert(self.0@ =~= orig.skip(0));
        }
        let n = self.0.len();
        let mut taken: usize = 0;
        while taken < n
            invariant
                n == orig.len(),
                self.0@ == orig.skip(taken as int),
                taken <= n,
                forall|i: int, j: int|
                    0 <= i < j < orig.len() ==> (#[trigger] orig[i]).name@ != (
                    #[trigger] orig[j]).name@,
                kept@ == orig.take(taken as int).filter(|x: Installation| x.name@ != name@),
                forall|a: int|
                    0 <= a < kept@.len() ==> exists|j: int|
                        0 <= j < taken && #[trigger] kept@[a] == orig[j],
                forall|a: int| 0 <= a < kept@.len() ==> (#[trigger] kept@[a]).name@ != name@,
                forall|a: int, b: int|
                    0 <= a < b < kept@.len() ==> (#[trigger] kept@[a]).name@ != (
                    #[trigger] kept@[b]).name@,
            decreases n - taken,
        {
            proof {
                reveal(Seq::filter);
                assert(orig.take(taken + 1).drop_last() =~= orig.take(taken as int));
                assert(orig.take(taken + 1).last() == orig[taken as int]);
            }
            let record = self.0.remove(0);
            proof {
                assert(self.0@ =~= orig.skip(taken + 1));
                assert(record == orig[taken as int]);
            }
            if !crate::strutil::str_eq(record.name.as_str(), name) {
                let ghost kept_before = kept@;
                kept.push(record);
                proof {
                    assert forall|a: int|
                        0 <= a < kept@.len() implies exists|j: int|
                            0 <= j < taken + 1 && #[trigger] kept@[a] == orig[j] by {
                        if a < kept_before.len() {
                            assert(kept@[a] == kept_before[a]);
                            let j = choose|j: int|
                                0 <= j < taken && #[trigger] kept_before[a] == orig[j];
                            assert(kept@[a] == orig[j]);
                        } else {
                            assert(kept@[a] == orig[taken as int]);
                        }
                    }
                    assert forall|a: int, b: int|
                        0 <= a < b < kept@.len() implies (#[trigger] kept@[a]).name@ != (
                    #[trigger] kept@[b]).name@ by {
                        if b == kept@.len() - 1 {
                            assert(kept@[a] == kept_before[a]);
                            let j = choose|j: int|
                                0 <= j < taken && #[trigger] kept_before[a] == orig[j];
                            assert(orig[j].name@ != orig[taken as int].name@);
                        } else {
                            assert(kept@[a] == kept_before[a]);
                            assert(kept@[b] == kept_before[b]);
                        }
                    }
                }
            }
            taken = taken + 1;
        }
        proof {
            assert(orig.take(n as int) =~= orig);
        }
        self.0 = kept;
    }

    /// First record with this name, if any.
    pub fn find(&self, name: &str) -> (r: Option<&Installation>)
        ensures
            r is Some <==> spec_has_name(self.0@, name@),
            r is Some ==> exists|i: int|
                0 <= i < self.0@.len() && r->0 == &self.0@[i] && (#[trigger] self.0@[i]).name@
                    == name@ && (forall|j: int| 0 <= j < i ==> (#[trigger] self.0@[j]).name@ != name@),
    {
        let n = self.0.len();
        for i in 0..n
            invariant
                n == self.0@.len(),
                forall|j: int| 0 <= j < i ==> (#[trigger] self.0@[j]).name@ != name@,
        {
            if crate::strutil::str_eq(self.0[i].name.as_str(), name) {
                return Some(&self.0[i]);
            }
        }
        None
    }
}

/// In a well-formed registry a name occurs at most once, so a
/// successful `add` leaves exactly one record with the added name.
pub proof fn lemma_registry_unique(r: Installations, name: Seq<char>)
    requires
        r.wf(),
    ensures
        spec_name_count(r.0@, name) == if spec_has_name(r.0@, name) {
            1int
        } else {
            0int
        },
{
    lemma_name_count_unique(r.0@, name);
}

/// Counting under uniqueness: zero without a carrier, one with one.
proof fn lemma_name_count_unique(records: Seq<Installation>, name: Seq<char>)
    requires
        forall|i: int, j: int|
            0 <= i < j < records.len() ==> (#[trigger] records[i]).name@ != (
            #[trigger] records[j]).name@,
    ensures
        spec_name_count(records, name) == if spec_has_name(records, name) {
            1int
        } else {
            0int
        },
    decreases records.len(),
{
    if records.len() > 0 {
        let front = records.drop_last();
        lemma_name_count_unique(front, name);
        assert(forall|j: int| 0 <= j < front.len() ==> front[j] == records[j]);
        if records.last().name@ == name {
            if spec_has_name(front, name) {
                let i = choose|i: int| 0 <= i < front.len() && (#[trigger] front[i]).name@ == name;
                assert(records[i].name@ == records[records.len() - 1].name@);
                assert(false);
            }
        } else {
            if spec_has_name(records, name) {
                let i = choose|i: int|
                    0 <= i < records.len() && (#[trigger] records[i]).name@ == name;
                assert(i < records.len() - 1);
                assert(front[i].name@ == name);
            }
            if spec_has_name(front, name) {
                let i = choose|i: int| 0 <= i < front.len() && (#[trigger] front[i]).name@ == name;
                assert(records[i].name@ == name);
            }
        }
    }
}

} // verus!
