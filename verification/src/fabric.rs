//! The mod-loader profile overlay: its library entries, their
//! conversion into ordinary library entries, and the merge that lays
//! a profile over a base metadata document.
use vstd::prelude::*;
use vstd::seq_lib::*;
use vstd::string::StringExecFns;
use crate::catalog::VersionType;
use crate::meta::JavaClassName;
use crate::metadata::{Arguments, Client, Download, Library, LibraryDownload};
use crate::strutil::{chars_of, push_chars, string_of};

verus! {

/// A library entry of a loader profile: a coordinate and the Maven
/// root it is served from.
#[derive(Debug)]
pub struct FabricLibrary {
    pub name: JavaClassName,
    pub url: String,
    pub sha1: Option<String>,
    pub size: Option<i32>,
}

/// One published loader version.
#[derive(Debug, Clone)]
pub struct FabricLoaderVersion {
    pub build: u32,
    pub version: String,
    pub stable: bool,
}

/// One entry of the loader-version listing.
#[derive(Debug, Clone)]
pub struct FabricVersion {
    pub loader: FabricLoaderVersion,
}

impl FabricLibrary {
    /// The full artifact URL: the Maven root, the coordinate's
    /// directory, and the jar name.
    pub open spec fn spec_artifact_url(&self) -> Seq<char> {
        self.url@ + seq!['/'] + self.name.spec_directory() + seq!['/'] + self.name.spec_jar()
    }

    /// The relative storage path: the coordinate's directory joined
    /// with the jar name.
    pub open spec fn spec_artifact_path(&self) -> Seq<char> {
        self.name.spec_directory() + seq!['/'] + self.name.spec_jar()
    }

    /// Whether `lib` is exactly the ordinary library entry this
    /// profile entry converts to: same coordinate, a primary download
    /// derived from the Maven root, and nothing else.
    pub open spec fn spec_converts_to(&self, lib: Library) -> bool {
        &&& lib.name == self.name
        &&& lib.downloads.artifact is Some
        &&& lib.downloads.artifact->0.url@ == self.spec_artifact_url()
        &&& lib.downloads.artifact->0.path is Some
        &&& lib.downloads.artifact->0.path->0@ == self.spec_artifact_path()
        &&& lib.downloads.artifact->0.sha1 == self.sha1
        &&& lib.downloads.artifact->0.size == self.size
        &&& lib.downloads.classifiers is None
        &&& lib.rules is None
        &&& lib.extract is None
        &&& lib.natives is None
    }

    /// Converts the profile entry into an ordinary library entry with
    /// a single primary download.
    pub fn into_vanilla_library(&self) -> (r: Library)
        ensures
            self.spec_converts_to(r),
    {
        let (directory, jar) = self.name.into_directory_and_jar();

        let mut url = chars_of(self.url.as_str());
        url.push('/');
        let dir_chars = chars_of(directory.as_str());
        push_chars(&mut url, &dir_chars);
        url.push('/');
        let jar_chars = chars_of(jar.as_str());
        push_chars(&mut url, &jar_chars);
        assert(url@ =~= self.spec_artifact_url());

        let mut rel = chars_of(directory.as_str());
        rel.push('/');
        push_chars(&mut rel, &jar_chars);
        assert(rel@ =~= self.spec_artifact_path());

        let sha1 = match &self.sha1 {
            Some(s) => Some(s.clone()),
            None => None,
        };

        Library {
            downloads: LibraryDownload {
                artifact: Some(
                    Download {
                        path: Some(string_of(&rel)),
                        url: string_of(&url),
                        sha1,
                        size: self.size,
                    },
                ),
                classifiers: None,
            },
            rules: None,
            extract: None,
            natives: None,
            name: self.name.clone(),
        }
    }
}

/// Whether some profile entry names the same library family as `name`.
pub open spec fn spec_superseded(overlay: Seq<FabricLibrary>, name: JavaClassName) -> bool {
    exists|i: int| 0 <= i < overlay.len() && (#[trigger] overlay[i]).name.spec_same_type(&name)
}

/// Whether any overlay entry is of the same family as `name`.
fn any_same_type(overlay: &Vec<FabricLibrary>, name: &JavaClassName) -> (r: bool)
    ensures
        r == spec_superseded(overlay@, *name),
{
    let n = overlay.len();
    for i in 0..n
        invariant
            n == overlay@.len(),
            forall|j: int| 0 <= j < i ==> !(#[trigger] overlay@[j]).name.spec_same_type(name),
    {
        if overlay[i].name.is_same_type(name) {
            return true;
        }
    }
    false
}

/// A mod-loader profile: what it overrides and which libraries it
/// brings along.
#[derive(Debug)]
pub struct FabricLoaderProfile {
    pub id: String,
    /// The parent profile: the game version this profile overlays.
    pub inherits_from: String,
    pub kind: VersionType,
    pub release_time: String,
    pub time: String,
    pub main_class: String,
    pub arguments: Arguments,
    pub libraries: Vec<FabricLibrary>,
}

impl FabricLoaderProfile {
    /// Converts every profile entry into an ordinary library entry.
    pub fn libraries(&self) -> (r: Vec<Library>)
        ensures
            r@.len() == self.libraries@.len(),
            forall|i: int|
                0 <= i < r@.len() ==> (#[trigger] self.libraries@[i]).spec_converts_to(r@[i]),
    {
        let mut r: Vec<Library> = Vec::new();
        let n = self.libraries.len();
        for i in 0..n
            invariant
                n == self.libraries@.len(),
                r@.len() == i,
                forall|j: int|
                    0 <= j < i ==> (#[trigger] self.libraries@[j]).spec_converts_to(r@[j]),
        {
            r.push(self.libraries[i].into_vanilla_library());
        }
        r
    }

    /// Lays the profile over a base metadata document: identifier,
    /// entry point and argument template are the profile's (argument
    /// templates concatenate field-wise); base libraries of a family
    /// the profile also provides are dropped, then the profile's
    /// libraries are appended.
    pub fn join_client(self, client: Client) -> (r: Client)
        requires
            self.arguments.is_modern() == client.arguments.is_modern(),
        ensures
            r.id == self.id,
            r.main_class == self.main_class,
            r.java_version == client.java_version,
            r.downloads == client.downloads,
            r.assets == client.assets,
            r.asset_index == client.asset_index,
            r.release_time == client.release_time,
            r.kind == client.kind,
            client.arguments matches Arguments::Args { game: g1, jvm: j1 } ==> (
            self.arguments matches Arguments::Args { game: g2, jvm: j2 } ==> (
            r.arguments matches Arguments::Args { game: g3, jvm: j3 } && g3@ == g1@ + g2@ && j3@
                == j1@ + j2@)),
            client.arguments matches Arguments::MinecraftArgs(s1) ==> (
            self.arguments matches Arguments::MinecraftArgs(s2) ==> (
            r.arguments matches Arguments::MinecraftArgs(s3) && s3@ == s1@ + seq![' '] + s2@)),
            ({
                let survivors = client.libraries@.filter(
                    |c: Library| !spec_superseded(self.libraries@, c.name),
                );
                &&& r.libraries@.len() == survivors.len() + self.libraries@.len()
                &&& forall|i: int| 0 <= i < survivors.len() ==> r.libraries@[i] == survivors[i]
                &&& forall|j: int|
                    0 <= j < self.libraries@.len() ==> (#[trigger] self.libraries@[j]).spec_converts_to(
                        r.libraries@[survivors.len() + j],
                    )
            }),
    {
        let fabric_libraries = self.libraries();
        let Client {
            arguments,
            libraries,
            java_version,
            main_class: _,
            downloads,
            assets,
            asset_index,
            id: _,
            release_time,
            kind,
        } = client;

        let ghost base = libraries@;
        let mut libraries = libraries;
        let mut survivors: Vec<Library> = Vec::new();
        proof {
            reveal(Seq::filter);
            assert(base.take(0) =~= Seq::<Library>::empty());
        }
        let n = libraries.len();
        let mut taken: usize = 0;
        while taken < n
            invariant
                n == base.len(),
                libraries@ == base.skip(taken as int),
                taken <= n,
                survivors@ == base.take(taken as int).filter(
                    |c: Library| !spec_superseded(self.libraries@, c.name),
                ),
            decreases n - taken,
        {
            proof {
                reveal(Seq::filter);
                assert(base.take(taken + 1).drop_last() =~= base.take(taken as int));
                assert(base.take(taken + 1).last() == base[taken as int]);
            }
            let lib = libraries.remove(0);
            proof {
                assert(libraries@ =~= base.skip(taken + 1));
            }
            assert(lib == base[taken as int]);
            if !any_same_type(&self.libraries, &lib.name) {
                survivors.push(lib);
            }
            taken = taken + 1;
        }
        proof {
            assert(base.take(n as int) =~= base);
        }

        let mut merged = survivors;
        let mut fabric_libraries = fabric_libraries;
        merged.append(&mut fabric_libraries);

        Client {
            arguments: arguments.concat(self.arguments),
            libraries: merged,
            java_version,
            main_class: self.main_class,
            downloads,
            assets,
            asset_index,
            id: self.id,
            release_time,
            kind,
        }
    }
}

/// Overlay supersession: after a merge, no surviving base library is
/// of a family the overlay provides — where a base library and an
/// overlay library share group and artifact, only the overlay's entry
/// remains; the two are never merged.
pub proof fn lemma_overlay_supersession(
    overlay: Seq<FabricLibrary>,
    base: Seq<Library>,
    survivors: Seq<Library>,
)
    requires
        survivors == base.filter(|c: Library| !spec_superseded(overlay, c.name)),
    ensures
        forall|i: int|
            0 <= i < survivors.len() ==> !spec_superseded(overlay, (#[trigger] survivors[i]).name),
{
    assert forall|i: int|
        0 <= i < survivors.len() implies !spec_superseded(
        overlay,
        (#[trigger] survivors[i]).name,
    ) by {
        base.lemma_filter_pred(|c: Library| !spec_superseded(overlay, c.name), i);
    }
}

/// The loader-profile endpoint for a game version and loader version.
pub fn loader_profile_url(game_version: &str, loader_version: &str) -> (r: String)
    ensures
        r@ == "https://meta.fabricmc.net/v2/versions/loader/"@ + game_version@ + seq!['/']
            + loader_version@ + "/profile/json"@,
{
    let mut url = String::from_str("https://meta.fabricmc.net/v2/versions/loader/");
    url.append(game_version);
    url.append("/");
    url.append(loader_version);
    url.append("/profile/json");
    proof {
        reveal_strlit("/");
        assert("/"@ =~= seq!['/']);
    }
    url
}

/// The loader-version listing endpoint for a game version.
pub fn fabric_versions_url(game_version: &str) -> (r: String)
    ensures
        r@ == "https://meta.fabricmc.net/v2/versions/loader/"@ + game_version@ + seq!['/'],
{
    let mut url = String::from_str("https://meta.fabricmc.net/v2/versions/loader/");
    url.append(game_version);
    url.append("/");
    proof {
        reveal_strlit("/");
        assert("/"@ =~= seq!['/']);
    }
    url
}

} // verus!
