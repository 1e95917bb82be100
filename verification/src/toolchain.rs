//! Toolchain provisioning decisions: package-kind validation, the
//! feature-release query, the install location, the already-installed
//! gate, and archive-format dispatch with top-level stripping.
use vstd::prelude::*;
use vstd::string::StringExecFns;
use crate::errors::{JavaError, ZipExtractionError};
use crate::strutil::{chars_of, dec_of, dec_string, first_sep_idx, lemma_first_sep_idx, string_of};

verus! {

/// The lowercase form of a string: a function of its characters alone.
pub uninterp spec fn lower_of(s: Seq<char>) -> Seq<char>;

/// Relies on str::to_lowercase: the Unicode lowercase form of the
/// input, which depends on the input characters alone.
#[verifier::external_body]
fn to_lowercase(s: &str) -> (r: String)
    ensures
        r@ == lower_of(s@),
{
    s.to_lowercase()
}

/// Validates a requested package kind: only the two recognized kinds
/// pass, in their lowercase form; anything else is the conflict error
/// naming the lowered input.
pub fn validate_package_type(package_type: &str) -> (r: Result<String, JavaError>)
    ensures
        r is Ok <==> lower_of(package_type@) == "jdk"@ || lower_of(package_type@) == "jre"@,
        r matches Ok(s) ==> s@ == lower_of(package_type@),
        r matches Err(e) ==> e matches JavaError::InvalidPackageType(t) && t@ == lower_of(
            package_type@,
        ),
{
    let lowered = to_lowercase(package_type);
    if crate::strutil::str_eq(lowered.as_str(), "jdk") || crate::strutil::str_eq(
        lowered.as_str(),
        "jre",
    ) {
        Ok(lowered)
    } else {
        Err(JavaError::InvalidPackageType(lowered))
    }
}

/// The feature-release query for a major version on this platform.
pub fn release_query_url(version: u16, arch: &str, os: &str, package_type: &str) -> (r: String)
    ensures
        r@ == "https://api.adoptium.net/v3/assets/feature_releases/"@ + dec_of(version as int)
            + "/ga?architecture="@ + arch@ + "&image_type="@ + package_type@ + "&os="@ + os@
            + "&vendor=eclipse"@,
{
    let mut url = String::from_str("https://api.adoptium.net/v3/assets/feature_releases/");
    let num = dec_string(version as u64);
    url.append(num.as_str());
    url.append("/ga?architecture=");
    url.append(arch);
    url.append("&image_type=");
    url.append(package_type);
    url.append("&os=");
    url.append(os);
    url.append("&vendor=eclipse");
    url
}

/// Where a provisioned runtime lives: the install root, then the
/// package kind and semantic version joined by a dash.
pub fn runtime_home_path(install_path: &str, package_type: &str, semver: &str) -> (r: String)
    ensures
        r@ == install_path@ + seq!['/'] + package_type@ + seq!['-'] + semver@,
{
    let mut p = crate::strutil::path_join(install_path, package_type);
    p.append("-");
    p.append(semver);
    proof {
        reveal_strlit("-");
        assert("-"@ =~= seq!['-']);
    }
    p
}

/// The conflict gate: an existing target is only reinstalled when
/// forced.
pub fn install_gate(target_exists: bool, force: bool) -> (r: Result<(), JavaError>)
    ensures
        r is Err <==> target_exists && !force,
        r matches Err(e) ==> e == JavaError::AlreadyExists,
{
    if target_exists && !force {
        Err(JavaError::AlreadyExists)
    } else {
        Ok(())
    }
}

/// The two archive formats a runtime package may arrive in.
#[derive(Debug, Clone, Copy, PartialEq, Eq, Structural)]
pub enum ArchiveKind {
    /// A gzip-compressed tar archive.
    GzipTar,
    /// A zip archive.
    Zip,
}

/// Dispatches on a package's file extension; any other extension is
/// the unsupported-format error naming it.
pub fn archive_kind(extension: &str) -> (r: Result<ArchiveKind, ZipExtractionError>)
    ensures
        extension@ == "gz"@ ==> r == Result::<ArchiveKind, ZipExtractionError>::Ok(
            ArchiveKind::GzipTar,
        ),
        extension@ != "gz"@ && extension@ == "zip"@ ==> r == Result::<
            ArchiveKind,
            ZipExtractionError,
        >::Ok(ArchiveKind::Zip),
        extension@ != "gz"@ && extension@ != "zip"@ ==> (r matches Err(e) && (e
            matches ZipExtractionError::UnsupportedFileExt(s) && s@ == extension@)),
{
    if crate::strutil::str_eq(extension, "gz") {
        Ok(ArchiveKind::GzipTar)
    } else if crate::strutil::str_eq(extension, "zip") {
        Ok(ArchiveKind::Zip)
    } else {
        Err(ZipExtractionError::UnsupportedFileExt(extension.to_owned()))
    }
}

/// A character is in the slash singleton exactly when it is a slash.
proof fn lemma_slash_contains(s: Seq<char>)
    ensures
        forall|j: int|
            0 <= j < s.len() ==> (seq!['/'].contains(#[trigger] s[j]) <==> s[j] == '/'),
{
    assert(seq!['/'][0] == '/');
    assert forall|j: int|
        0 <= j < s.len() implies (seq!['/'].contains(#[trigger] s[j]) <==> s[j] == '/') by {
        if s[j] == '/' {
            assert(seq!['/'][0] == s[j]);
        }
        if seq!['/'].contains(s[j]) {
            let k = choose|k: int| 0 <= k < seq!['/'].len() && seq!['/'][k] == s[j];
            assert(k == 0);
        }
    }
}

/// An archive entry's name with its top-level directory removed:
/// everything after the first slash, or the name itself when it has
/// no slash.
pub fn strip_archive_root(name: &str) -> (r: String)
    ensures
        first_sep_idx(name@, seq!['/']) < 0 ==> r@ == name@,
        first_sep_idx(name@, seq!['/']) >= 0 ==> r@ == name@.skip(
            first_sep_idx(name@, seq!['/']) + 1,
        ),
{
    proof {
        lemma_first_sep_idx(name@, seq!['/']);
        lemma_slash_contains(name@);
    }
    let ghost fi = first_sep_idx(name@, seq!['/']);
    let chars = chars_of(name);
    let n = chars.len();
    for i in 0..n
        invariant
            n == chars@.len(),
            chars@ == name@,
            fi == first_sep_idx(name@, seq!['/']),
            forall|j: int|
                0 <= j < name@.len() ==> (seq!['/'].contains(#[trigger] name@[j]) <==> name@[j]
                    == '/'),
            forall|j: int| 0 <= j < i ==> (#[trigger] name@[j]) != '/',
            fi >= 0 ==> fi < n && seq!['/'].contains(name@[fi]),
            fi >= 0 ==> forall|j: int| 0 <= j < fi ==> !seq!['/'].contains(#[trigger] name@[j]),
            fi < 0 ==> forall|j: int| 0 <= j < n ==> !seq!['/'].contains(#[trigger] name@[j]),
    {
        if chars[i] == '/' {
            proof {
                assert(seq!['/'].contains(name@[i as int]));
                assert(fi >= 0);
                if fi < i {
                    assert(name@[fi] == '/');
                }
                if fi > i {
                    assert(!seq!['/'].contains(name@[i as int]));
                }
                assert(fi == i);
            }
            let mut rest: Vec<char> = Vec::new();
            let mut k = i + 1;
            while k < n
                invariant
                    i < k <= n,
                    n == chars@.len(),
                    chars@ == name@,
                    rest@ == name@.subrange(i + 1, k as int),
                decreases n - k,
            {
                rest.push(chars[k]);
                proof {
                    assert(rest@ =~= name@.subrange(i + 1, k + 1));
                }
                k = k + 1;
            }
            proof {
                assert(rest@ =~= name@.skip(i + 1));
            }
            return string_of(&rest);
        }
    }
    proof {
        if fi >= 0 {
            assert(name@[fi] == '/');
            assert(name@[fi] != '/');
        }
    }
    name.to_owned()
}

} // verus!
