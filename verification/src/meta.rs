//! Library coordinates: the `group:artifact:version` triple that both
//! identifies a library and determines its relative storage path.
use vstd::prelude::*;
use crate::strutil::{chars_of, spec_split, split_on, string_of, push_chars};

verus! {

/// A library coordinate triple, e.g. `ca.weblite:java-objc-bridge:1.1`.
///
/// Two coordinates name "the same library" when group and artifact
/// match; the version is ignored for identity.
#[derive(Debug)]
pub struct JavaClassName {
    pub group_id: String,
    pub artifact_id: String,
    pub version: String,
}

impl Clone for JavaClassName {
    /// An exact copy.
    fn clone(&self) -> (r: Self)
        ensures
            r == *self,
    {
        JavaClassName {
            group_id: self.group_id.clone(),
            artifact_id: self.artifact_id.clone(),
            version: self.version.clone(),
        }
    }
}

/// `s` with every `.` replaced by `/`.
pub open spec fn dot_slashed(s: Seq<char>) -> Seq<char> {
    Seq::new(
        s.len(),
        |i: int|
            if s[i] == '.' {
                '/'
            } else {
                s[i]
            },
    )
}

/// The relative directory a coordinate maps to.
pub open spec fn spec_directory_of(group: Seq<char>, artifact: Seq<char>, version: Seq<char>) -> Seq<
    char,
> {
    dot_slashed(group) + seq!['/'] + dot_slashed(artifact) + seq!['/'] + version
}

/// The jar file name a coordinate maps to.
pub open spec fn spec_jar_of(artifact: Seq<char>, version: Seq<char>) -> Seq<char> {
    artifact + seq!['-'] + version + ".jar"@
}

/// Replaces every `.` with `/`.
fn dots_to_slashes(s: &str) -> (r: Vec<char>)
    ensures
        r@ == dot_slashed(s@),
{
    let v = chars_of(s);
    let mut r: Vec<char> = Vec::new();
    let n = v.len();
    for i in 0..n
        invariant
            n == v@.len(),
            v@ == s@,
            r@ == dot_slashed(s@).take(i as int),
    {
        if v[i] == '.' {
            r.push('/');
        } else {
            r.push(v[i]);
        }
        assert(r@ =~= dot_slashed(s@).take(i + 1));
    }
    assert(dot_slashed(s@).take(n as int) =~= dot_slashed(s@));
    r
}

impl JavaClassName {
    /// Builds a coordinate from its three components.
    pub fn new(group_id: String, artifact_id: String, version: String) -> (r: JavaClassName)
        ensures
            r.group_id == group_id,
            r.artifact_id == artifact_id,
            r.version == version,
    {
        JavaClassName { group_id, artifact_id, version }
    }

    /// Parses a `group:artifact:version` string. Anything after a third
    /// colon is ignored; fewer than three parts is a malformed name.
    pub fn parse(s: &str) -> (r: Option<JavaClassName>)
        ensures
            r is Some <==> spec_split(s@, seq![':']).len() >= 3,
            r is Some ==> {
                let parts = spec_split(s@, seq![':']);
                r->0.group_id@ == parts[0] && r->0.artifact_id@ == parts[1] && r->0.version@
                    == parts[2]
            },
    {
        let v = chars_of(s);
        let seps: Vec<char> = vec![':'];
        proof {
            assert(seps@ =~= seq![':']);
        }
        let mut parts = split_on(&v, &seps);
        if parts.len() < 3 {
            return None;
        }
        let group = string_of(&parts[0]);
        let artifact = string_of(&parts[1]);
        let version = string_of(&parts[2]);
        assert(parts.deep_view()[0] == parts@[0]@);
        Some(JavaClassName { group_id: group, artifact_id: artifact, version })
    }

    /// Whether both coordinates name the same library family.
    pub open spec fn spec_same_type(&self, other: &JavaClassName) -> bool {
        self.group_id@ == other.group_id@ && self.artifact_id@ == other.artifact_id@
    }

    /// Group and artifact match; versions may differ.
    pub fn is_same_type(&self, other: &JavaClassName) -> (r: bool)
        ensures
            r == self.spec_same_type(other),
    {
        self.group_id == other.group_id && self.artifact_id == other.artifact_id
    }

    /// The directory the coordinate is stored under.
    pub open spec fn spec_directory(&self) -> Seq<char> {
        spec_directory_of(self.group_id@, self.artifact_id@, self.version@)
    }

    /// The jar file name of the coordinate.
    pub open spec fn spec_jar(&self) -> Seq<char> {
        spec_jar_of(self.artifact_id@, self.version@)
    }

    /// The relative directory (dots become slashes, version appended)
    /// and the jar file name derived from the coordinate.
    pub fn into_directory_and_jar(&self) -> (r: (String, String))
        ensures
            r.0@ == self.spec_directory(),
            r.1@ == self.spec_jar(),
    {
        let mut dir = dots_to_slashes(self.group_id.as_str());
        dir.push('/');
        let mut artifact_part = dots_to_slashes(self.artifact_id.as_str());
        push_chars(&mut dir, &artifact_part);
        dir.push('/');
        let version_chars = chars_of(self.version.as_str());
        push_chars(&mut dir, &version_chars);
        assert(dir@ =~= self.spec_directory());

        let mut jar = chars_of(self.artifact_id.as_str());
        jar.push('-');
        push_chars(&mut jar, &version_chars);
        let ext = chars_of(".jar");
        push_chars(&mut jar, &ext);
        assert(jar@ =~= self.spec_jar());

        (string_of(&dir), string_of(&jar))
    }
}

} // verus!
