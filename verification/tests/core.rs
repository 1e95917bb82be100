use synthlauncher::catalog::{Latest, Version, VersionManifest, VersionType};
use synthlauncher::config::Config;
use synthlauncher::installations::{Installation, Installations};
use synthlauncher::meta::JavaClassName;
use synthlauncher::platform::{Arch, Os, OsName, Platform};

fn manifest_with(ids: &[&str]) -> VersionManifest {
    let versions = ids
        .iter()
        .map(|id| Version {
            id: id.to_string(),
            kind: VersionType::Release,
            url: format!("https://example.test/{}.json", id),
            time: "2020-01-01T00:00:00+00:00".to_string(),
            release_time: "2020-01-01T00:00:00+00:00".to_string(),
            sha1: "0000000000000000000000000000000000000000".to_string(),
            compliance_level: 1,
        })
        .collect();
    VersionManifest {
        latest: Latest {
            release: "1.20".to_string(),
            snapshot: "1.20".to_string(),
        },
        versions,
    }
}

#[test]
fn coordinate_parse_roundtrip() {
    let c = JavaClassName::parse("ca.weblite:java-objc-bridge:1.1").unwrap();
    let (dir, jar) = c.into_directory_and_jar();
    assert_eq!(dir, "ca/weblite/java-objc-bridge/1.1");
    assert_eq!(jar, "java-objc-bridge-1.1.jar");
}

#[test]
fn coordinate_parse_rejects_short() {
    assert!(JavaClassName::parse("a:b").is_none());
    assert!(JavaClassName::parse("").is_none());
    assert!(JavaClassName::parse("a:b:c").is_some());
    // Anything past the third part is ignored, as with a classifier.
    let c = JavaClassName::parse("g:a:1:extra").unwrap();
    let (dir, _) = c.into_directory_and_jar();
    assert_eq!(dir, "g/a/1");
}

#[test]
fn coordinate_same_type_ignores_version() {
    let a1 = JavaClassName::new("g".into(), "a".into(), "1".into());
    let a2 = JavaClassName::new("g".into(), "a".into(), "2".into());
    let b = JavaClassName::new("g".into(), "b".into(), "1".into());
    assert!(a1.is_same_type(&a2));
    assert!(!a1.is_same_type(&b));
}

#[test]
fn config_merge_left_wins() {
    let mut left = Config::empty();
    left.set("java", "/a".to_string());
    let mut right = Config::empty();
    right.set("java", "/b".to_string());
    right.set("max_ram", "2048".to_string());
    let merged = left.merge(right);
    assert_eq!(merged.get("java"), Some("/a"));
    assert_eq!(merged.get("max_ram"), Some("2048"));
    assert_eq!(merged.get("absent"), None);
}

#[test]
fn config_set_replaces() {
    let mut c = Config::empty();
    c.set("k", "1".to_string());
    c.set("k", "2".to_string());
    assert_eq!(c.get("k"), Some("2"));
}

#[test]
fn config_default_global_entries() {
    let c = Config::create_default_global();
    assert_eq!(c.get("auth_player_name"), Some("synther"));
    assert_eq!(c.get("auth_access_token"), Some("0"));
}

#[test]
fn registry_add_is_unique() {
    let manifest = manifest_with(&["1.20"]);
    let inst = Installation::new(&manifest, "x", "1.20").unwrap();
    let mut reg = Installations::new();
    reg.add(&inst);
    reg.add(&inst);
    assert_eq!(reg.0.len(), 1);
    assert_eq!(reg.0[0].name, "x");
}

#[test]
fn registry_find_and_remove() {
    let manifest = manifest_with(&["1.20", "1.19"]);
    let a = Installation::new(&manifest, "a", "1.20").unwrap();
    let b = Installation::new(&manifest, "b", "1.19").unwrap();
    let mut reg = Installations::new();
    reg.add(&a);
    reg.add(&b);
    assert!(reg.find("a").is_some());
    assert!(reg.find("c").is_none());
    reg.remove("a");
    assert!(reg.find("a").is_none());
    assert_eq!(reg.0.len(), 1);
}

#[test]
fn installation_new_unknown_version_is_none() {
    let manifest = manifest_with(&["1.20"]);
    assert!(Installation::new(&manifest, "x", "9.99").is_none());
}

#[test]
fn installation_paths() {
    let manifest = manifest_with(&["1.20"]);
    let inst = Installation::new(&manifest, "mine", "1.20").unwrap();
    assert_eq!(inst.dir_path("/root/installations"), "/root/installations/mine");
    assert_eq!(
        inst.config_path("/root/installations"),
        "/root/installations/mine/config.json"
    );
    assert_eq!(
        inst.client_json_path("/root/installations"),
        "/root/installations/mine/client.json"
    );
    assert_eq!(
        inst.fabric_json_path("/root/installations"),
        "/root/installations/mine/fabric.json"
    );
    assert_eq!(
        inst.client_jar_path("/root/installations"),
        "/root/installations/mine/client.jar"
    );
}

#[test]
fn manifest_find_is_first_match() {
    let manifest = manifest_with(&["1.20", "1.19"]);
    let v = manifest.find("1.19").unwrap();
    assert_eq!(v.id, "1.19");
    assert!(manifest.find("nope").is_none());
    assert_eq!(manifest.versions().len(), 2);
}

#[test]
fn os_predicate_matching() {
    let p = Platform { os: OsName::Linux, arch: Arch::X86_64 };
    let any = Os { name: None, arch: None };
    assert!(any.matches(&p));
    let linux_only = Os { name: Some(OsName::Linux), arch: None };
    assert!(linux_only.matches(&p));
    let windows_only = Os { name: Some(OsName::Windows), arch: None };
    assert!(!windows_only.matches(&p));
    let wrong_arch = Os { name: Some(OsName::Linux), arch: Some(Arch::ARM64) };
    assert!(!wrong_arch.matches(&p));
}
