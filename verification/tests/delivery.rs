use synthlauncher::delivery::{
    asset_object_path, asset_url, first_failure, plan_asset_fetches, plan_library_fetches,
};
use synthlauncher::digest::{digest_matches, needs_refetch, to_hex};
use synthlauncher::errors::{JavaError, ZipExtractionError};
use synthlauncher::metadata::{
    AssetObject, Download, Library, LibraryDownload, Rule, RuleActionType,
};
use synthlauncher::meta::JavaClassName;
use synthlauncher::platform::{Arch, Os, OsName, Platform};
use synthlauncher::toolchain::{
    archive_kind, install_gate, release_query_url, runtime_home_path, strip_archive_root,
    validate_package_type, ArchiveKind,
};
use synthlauncher::ziputil::ZipExtractor;

// The SHA-1 of b"hello world", as the hasher's own documentation gives it.
const HELLO_SHA1: &str = "2aae6c35c94fcfb415dbe95f408b9ce91ee846ed";

fn object(name: &str, hash: &str) -> (String, AssetObject) {
    (
        name.to_string(),
        AssetObject { hash: hash.to_string(), size: 1 },
    )
}

#[test]
fn digest_of_known_input() {
    let data = b"hello world".to_vec();
    assert!(digest_matches(&data, HELLO_SHA1));
    assert!(!digest_matches(
        &data,
        "0000000000000000000000000000000000000000"
    ));
}

#[test]
fn hex_rendering() {
    assert_eq!(to_hex(&vec![0xbe, 0xef]), "beef");
    assert_eq!(to_hex(&vec![0x00, 0x0a]), "000a");
    assert_eq!(to_hex(&Vec::new()), "");
}

#[test]
fn refetch_on_digest_mismatch() {
    let data = b"hello world".to_vec();
    // Present with a matching declared digest: satisfied.
    assert!(!needs_refetch(
        Some(&data),
        Some(&HELLO_SHA1.to_string())
    ));
    // Present but the declared digest differs: fetched again.
    assert!(needs_refetch(
        Some(&data),
        Some(&"0000000000000000000000000000000000000000".to_string())
    ));
    // No declared digest: an existing file is trusted.
    assert!(!needs_refetch(Some(&data), None));
    // Missing file: always fetched.
    assert!(needs_refetch(None, Some(&HELLO_SHA1.to_string())));
    assert!(needs_refetch(None, None));
}

#[test]
fn asset_paths_are_content_addressed() {
    assert_eq!(
        asset_object_path(HELLO_SHA1),
        format!("objects/2a/{}", HELLO_SHA1)
    );
    assert_eq!(
        asset_url(HELLO_SHA1),
        format!("https://resources.download.minecraft.net/2a/{}", HELLO_SHA1)
    );
}

#[test]
fn asset_plan_dedups_by_digest() {
    let objects = vec![
        object("icons/icon_16x16.png", HELLO_SHA1).1,
        object("icons/icon_32x32.png", HELLO_SHA1).1,
    ];
    let plan = plan_asset_fetches(objects, &Vec::new());
    assert_eq!(plan.len(), 1);
    assert_eq!(plan[0].hash, HELLO_SHA1);
}

#[test]
fn asset_plan_skips_present() {
    // After the first download, a second request of the same digest
    // plans nothing: the physical download happened exactly once.
    let objects = vec![object("a", HELLO_SHA1).1];
    let plan = plan_asset_fetches(objects, &vec![HELLO_SHA1.to_string()]);
    assert!(plan.is_empty());
}

fn lib(name: &str, rules: Option<Vec<Rule>>, artifact: Option<Download>) -> Library {
    Library {
        name: JavaClassName::new("g".into(), name.into(), "1".into()),
        downloads: LibraryDownload { artifact, classifiers: None },
        extract: None,
        natives: None,
        rules,
    }
}

fn download(url: &str) -> Download {
    Download {
        path: Some(format!("g/{}", url)),
        url: url.to_string(),
        sha1: None,
        size: None,
    }
}

#[test]
fn disallow_rule_excludes_library() {
    let p = Platform { os: OsName::Linux, arch: Arch::X86_64 };
    let rule = Rule {
        action: RuleActionType::Disallow,
        features: None,
        os: Some(Os { name: Some(OsName::Linux), arch: None }),
    };
    let l = lib("a", Some(vec![rule]), Some(download("u")));
    assert!(!l.is_allowed(&p));
    let plan = plan_library_fetches(&vec![l], &p);
    assert!(plan.is_empty());
}

#[test]
fn feature_rule_never_satisfiable() {
    let p = Platform { os: OsName::Linux, arch: Arch::X86_64 };
    // An allow rule that declares a feature predicate can never match,
    // so the owning entry is always excluded.
    let rule = Rule {
        action: RuleActionType::Allow,
        features: Some(vec![("has_custom_resolution".to_string(), true)]),
        os: None,
    };
    assert!(!rule.is_allowed(&p));
    let l = lib("a", Some(vec![rule]), Some(download("u")));
    assert!(!l.is_allowed(&p));
}

#[test]
fn allowed_library_is_planned() {
    let p = Platform { os: OsName::Linux, arch: Arch::X86_64 };
    let l = lib("a", None, Some(download("u")));
    let skipped = lib("b", None, None);
    let plan = plan_library_fetches(&vec![l, skipped], &p);
    assert_eq!(plan.len(), 1);
    assert_eq!(plan[0].url, "u");
}

#[test]
fn first_failure_reports_position() {
    let results: Vec<Result<(), String>> =
        vec![Ok(()), Err("boom".to_string()), Err("later".to_string())];
    let (idx, err) = first_failure(results).unwrap();
    assert_eq!(idx, 1);
    assert_eq!(err, "boom");
    let all_ok: Vec<Result<(), String>> = vec![Ok(()), Ok(())];
    assert!(first_failure(all_ok).is_none());
}

#[test]
fn package_type_validation() {
    assert_eq!(validate_package_type("JDK").unwrap(), "jdk");
    assert_eq!(validate_package_type("jre").unwrap(), "jre");
    match validate_package_type("exe") {
        Err(JavaError::InvalidPackageType(s)) => assert_eq!(s, "exe"),
        other => panic!("unexpected: {:?}", other),
    }
}

#[test]
fn release_query_url_shape() {
    assert_eq!(
        release_query_url(17, "x64", "linux", "jdk"),
        "https://api.adoptium.net/v3/assets/feature_releases/17/ga?\
         architecture=x64&image_type=jdk&os=linux&vendor=eclipse"
    );
}

#[test]
fn runtime_home_path_shape() {
    assert_eq!(
        runtime_home_path("/home/u/.java/jdk", "jdk", "17.0.1+9"),
        "/home/u/.java/jdk/jdk-17.0.1+9"
    );
}

#[test]
fn install_gate_conflicts() {
    assert!(matches!(install_gate(true, false), Err(JavaError::AlreadyExists)));
    assert!(install_gate(true, true).is_ok());
    assert!(install_gate(false, false).is_ok());
}

#[test]
fn archive_kind_dispatch() {
    assert_eq!(archive_kind("gz").unwrap(), ArchiveKind::GzipTar);
    assert_eq!(archive_kind("zip").unwrap(), ArchiveKind::Zip);
    match archive_kind("rar") {
        Err(ZipExtractionError::UnsupportedFileExt(s)) => assert_eq!(s, "rar"),
        other => panic!("unexpected: {:?}", other),
    }
}

#[test]
fn strip_archive_root_drops_first_component() {
    assert_eq!(strip_archive_root("jdk-17.0.1+9/bin/java"), "bin/java");
    assert_eq!(strip_archive_root("plain"), "plain");
    assert_eq!(strip_archive_root("top/"), "");
}

#[test]
fn zip_extractor_exclusions() {
    let ex = ZipExtractor::new(vec![1, 2, 3]).exclude(vec!["META-INF".to_string()]);
    assert!(ex.is_excluded("META-INF", ""));
    assert!(ex.is_excluded("META-INF/MANIFEST.MF", "META-INF"));
    assert!(!ex.is_excluded("org/Main.class", "org"));
    let none = ZipExtractor::new(Vec::new());
    assert!(!none.is_excluded("anything", ""));
}
