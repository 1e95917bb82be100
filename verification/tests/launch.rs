use synthlauncher::archive::MinecraftVersionType;
use synthlauncher::auth::{PlayerProfile, XboxLiveAuthResponse};
use synthlauncher::catalog::{Latest, Version, VersionManifest, VersionType};
use synthlauncher::config::Config;
use synthlauncher::fabric::{
    fabric_versions_url, loader_profile_url, FabricLibrary, FabricLoaderProfile,
};
use synthlauncher::installations::Installation;
use synthlauncher::java::JavaInstallation;
use synthlauncher::launch::{expand, quirk_arguments};
use synthlauncher::meta::JavaClassName;
use synthlauncher::metadata::{
    Argument, Arguments, Client, Download, Downloads, Library, LibraryDownload,
};
use synthlauncher::platform::{Arch, OsName, Platform};
use std::cmp::Ordering;

fn platform() -> Platform {
    Platform { os: OsName::Linux, arch: Arch::X86_64 }
}

#[test]
fn major_version_extraction() {
    assert_eq!(JavaInstallation::extract_java_version("1.8.0_392"), Some(8));
    assert_eq!(JavaInstallation::extract_java_version("17.0.1"), Some(17));
    assert_eq!(JavaInstallation::extract_java_version("21"), Some(21));
    assert_eq!(JavaInstallation::extract_java_version("java"), None);
    // A leading number too large for the record is no major version.
    assert_eq!(JavaInstallation::extract_java_version("99999"), None);
}

#[test]
fn version_comparison_is_componentwise() {
    assert_eq!(
        JavaInstallation::compare_versions("17.0.1", "8.0.392"),
        Ordering::Greater
    );
    assert_eq!(
        JavaInstallation::compare_versions("1.8.0_392", "1.8.0_392"),
        Ordering::Equal
    );
    // A strict prefix compares as smaller.
    assert_eq!(
        JavaInstallation::compare_versions("17.0", "17.0.1"),
        Ordering::Less
    );
}

#[test]
fn discovery_orders_descending() {
    let list = vec![
        JavaInstallation::new("8.0.392".into(), "/jvm/8/bin/java".into()),
        JavaInstallation::new("17.0.1".into(), "/jvm/17/bin/java".into()),
    ];
    let ordered = synthlauncher::java::discovered_order(list);
    assert_eq!(ordered[0].version, "17.0.1");
    assert_eq!(ordered[1].version, "8.0.392");
    let newest = JavaInstallation::get_newest(&ordered);
    assert_eq!(newest.version, "17.0.1");
}

#[test]
fn discovery_dedups_by_path() {
    let list = vec![
        JavaInstallation::new("17.0.1".into(), "/jvm/17/bin/java".into()),
        JavaInstallation::new("17.0.1".into(), "/jvm/17/bin/java".into()),
        JavaInstallation::new("8.0.392".into(), "/jvm/8/bin/java".into()),
    ];
    let ordered = synthlauncher::java::discovered_order(list);
    assert_eq!(ordered.len(), 2);
}

#[test]
fn unparsable_version_excluded_from_matching_not_discovery() {
    let list = vec![
        JavaInstallation::new("weird-build".into(), "/jvm/w/bin/java".into()),
        JavaInstallation::new("17.0.1".into(), "/jvm/17/bin/java".into()),
    ];
    // Raw discovery keeps the unparsable entry.
    let ordered = synthlauncher::java::discovered_order(list.clone());
    assert_eq!(ordered.len(), 2);
    // Matching skips it.
    let found = synthlauncher::java::find_compatible(&list, 17).unwrap();
    assert_eq!(found.path, "/jvm/17/bin/java");
    assert!(synthlauncher::java::find_compatible(&list, 8).is_none());
}

#[test]
fn placeholder_expansion() {
    let mut env = Config::empty();
    env.set("classpath", "/libs/a.jar:/c.jar".to_string());
    assert_eq!(expand("-cp ${classpath}", &env), "-cp /libs/a.jar:/c.jar");
    // An unresolved token expands to the empty string, not an error.
    assert_eq!(expand("--x=${missing}", &env), "--x=");
    assert_eq!(expand("${classpath}${missing}", &env), "/libs/a.jar:/c.jar");
    // Text that is no well-formed placeholder passes through.
    assert_eq!(expand("${}", &env), "${}");
    assert_eq!(expand("$classpath", &env), "$classpath");
}

#[test]
fn quirks_for_old_eras() {
    let args = quirk_arguments(
        Some(VersionType::OldAlpha),
        "c0.30",
        "2009-05-17T00:00:00+00:00",
    )
    .unwrap();
    assert_eq!(
        args,
        vec![
            "-Dhttp.proxyHost=betacraft.uk".to_string(),
            "-Dhttp.proxyPort=11701".to_string(),
            "-Djava.util.Arrays.useLegacyMergeSort=true".to_string(),
        ]
    );
    let alpha = quirk_arguments(
        Some(VersionType::OldAlpha),
        "a1.2.6",
        "2010-12-03T00:00:00+00:00",
    )
    .unwrap();
    assert_eq!(alpha[1], "-Dhttp.proxyPort=11702");
    let beta = quirk_arguments(
        Some(VersionType::OldBeta),
        "b1.7.3",
        "2011-07-08T00:00:00+00:00",
    )
    .unwrap();
    assert_eq!(beta[1], "-Dhttp.proxyPort=11705");
}

#[test]
fn quirks_for_early_releases() {
    // Before the historical threshold: the later proxy pair.
    let early = quirk_arguments(
        Some(VersionType::Release),
        "1.5.1",
        "2013-03-20T10:00:00+00:00",
    )
    .unwrap();
    assert_eq!(
        early,
        vec![
            "-Dhttp.proxyHost=betacraft.uk".to_string(),
            "-Dhttp.proxyPort=11707".to_string(),
        ]
    );
    // After it: nothing.
    let modern = quirk_arguments(
        Some(VersionType::Release),
        "1.20",
        "2023-06-07T00:00:00+00:00",
    )
    .unwrap();
    assert!(modern.is_empty());
    // An unparsable release time is surfaced, not defaulted.
    assert!(quirk_arguments(Some(VersionType::Release), "1.20", "not a date").is_none());
}

#[test]
fn legacy_arguments_tokenize() {
    let p = platform();
    let args = Arguments::MinecraftArgs("--username ${auth_player_name} --version x".to_string());
    let (jvm, game) = args.into_raw(&p);
    assert_eq!(
        jvm,
        vec![
            "-Djava.library.path=${natives_directory}".to_string(),
            "-cp".to_string(),
            "${classpath}".to_string(),
        ]
    );
    assert_eq!(game, vec!["--username", "${auth_player_name}", "--version", "x"]);
}

#[test]
fn legacy_arguments_concat() {
    let a = Arguments::MinecraftArgs("a b".to_string());
    let b = Arguments::MinecraftArgs("c".to_string());
    match a.concat(b) {
        Arguments::MinecraftArgs(s) => assert_eq!(s, "a b c"),
        _ => panic!("wrong variant"),
    }
}

#[test]
fn modern_arguments_concat_fieldwise() {
    let a = Arguments::Args {
        game: vec![Argument::Arg("g1".to_string())],
        jvm: vec![Argument::Arg("j1".to_string())],
    };
    let b = Arguments::Args {
        game: vec![Argument::Arg("g2".to_string())],
        jvm: vec![],
    };
    match a.concat(b) {
        Arguments::Args { game, jvm } => {
            assert_eq!(game.len(), 2);
            assert_eq!(jvm.len(), 1);
        },
        _ => panic!("wrong variant"),
    }
}

fn base_client(libs: Vec<Library>) -> Client {
    Client {
        arguments: Arguments::MinecraftArgs("--version ${version_name}".to_string()),
        libraries: libs,
        java_version: None,
        main_class: "net.minecraft.client.Minecraft".to_string(),
        downloads: Downloads {
            client: Download {
                path: None,
                url: "https://example.test/client.jar".to_string(),
                sha1: None,
                size: None,
            },
        },
        assets: "1.20".to_string(),
        asset_index: Download {
            path: None,
            url: "https://example.test/index.json".to_string(),
            sha1: None,
            size: None,
        },
        id: "1.20".to_string(),
        release_time: "2023-06-07T00:00:00+00:00".to_string(),
        kind: VersionType::Release,
    }
}

fn plain_lib(group: &str, artifact: &str, version: &str) -> Library {
    Library {
        name: JavaClassName::new(group.into(), artifact.into(), version.into()),
        downloads: LibraryDownload {
            artifact: Some(Download {
                path: Some(format!("{}/{}-{}.jar", group, artifact, version)),
                url: format!("https://libs.test/{}-{}.jar", artifact, version),
                sha1: None,
                size: None,
            }),
            classifiers: None,
        },
        extract: None,
        natives: None,
        rules: None,
    }
}

fn overlay_lib(group: &str, artifact: &str, version: &str) -> FabricLibrary {
    FabricLibrary {
        name: JavaClassName::new(group.into(), artifact.into(), version.into()),
        url: "https://maven.test".to_string(),
        sha1: None,
        size: None,
    }
}

#[test]
fn overlay_supersedes_base_library() {
    // Base {A:v1, B:v1}, overlay {A:v2}: survivors of the base first,
    // then the overlay's libraries.
    let client = base_client(vec![plain_lib("g", "A", "v1"), plain_lib("g", "B", "v1")]);
    let profile = FabricLoaderProfile {
        id: "fabric-1.20".to_string(),
        inherits_from: "1.20".to_string(),
        kind: VersionType::Release,
        release_time: "2023-06-08T00:00:00+00:00".to_string(),
        time: "2023-06-08T00:00:00+00:00".to_string(),
        main_class: "net.fabricmc.Knot".to_string(),
        arguments: Arguments::MinecraftArgs("".to_string()),
        libraries: vec![overlay_lib("g", "A", "v2")],
    };
    let merged = profile.join_client(client);
    assert_eq!(merged.id, "fabric-1.20");
    assert_eq!(merged.main_class, "net.fabricmc.Knot");
    assert_eq!(merged.libraries.len(), 2);
    let (d0, _) = merged.libraries[0].name.into_directory_and_jar();
    assert_eq!(d0, "g/B/v1");
    let (d1, _) = merged.libraries[1].name.into_directory_and_jar();
    assert_eq!(d1, "g/A/v2");
    let overlay_artifact = merged.libraries[1].downloads.artifact.as_ref().unwrap();
    assert_eq!(overlay_artifact.url, "https://maven.test/g/A/v2/A-v2.jar");
    assert_eq!(overlay_artifact.path.as_deref(), Some("g/A/v2/A-v2.jar"));
}

#[test]
fn generate_arguments_composition() {
    let manifest = VersionManifest {
        latest: Latest { release: "1.20".into(), snapshot: "1.20".into() },
        versions: vec![Version {
            id: "1.20".into(),
            kind: VersionType::Release,
            url: "https://example.test/1.20.json".into(),
            time: "2023-06-07T00:00:00+00:00".into(),
            release_time: "2023-06-07T00:00:00+00:00".into(),
            sha1: "0".repeat(40),
            compliance_level: 1,
        }],
    };
    let inst = Installation::new(&manifest, "mine", "1.20").unwrap();
    let client = base_client(vec![plain_lib("g", "A", "v1")]);
    let config = Config::empty();
    let mut global = Config::empty();
    global.set("auth_player_name", "player1".to_string());
    let p = platform();
    let args = inst
        .generate_arguments(
            client,
            &config,
            &global,
            None,
            &p,
            "/root/installations",
            "/root/assets",
            "/root/libs",
            ":",
        )
        .unwrap();
    assert_eq!(
        args,
        vec![
            "-Djava.library.path=/root/installations/mine/.natives".to_string(),
            "-cp".to_string(),
            "/root/libs/g/A-v1.jar:/root/installations/mine/client.jar".to_string(),
            "net.minecraft.client.Minecraft".to_string(),
            "--version".to_string(),
            "1.20".to_string(),
        ]
    );
}

#[test]
fn generate_arguments_with_profile() {
    let manifest = VersionManifest {
        latest: Latest { release: "1.20".into(), snapshot: "1.20".into() },
        versions: vec![Version {
            id: "1.20".into(),
            kind: VersionType::Release,
            url: "u".into(),
            time: "2023-06-07T00:00:00+00:00".into(),
            release_time: "2023-06-07T00:00:00+00:00".into(),
            sha1: "0".repeat(40),
            compliance_level: 1,
        }],
    };
    let inst = Installation::new(&manifest, "mine", "1.20").unwrap();
    let mut client = base_client(vec![]);
    client.arguments = Arguments::MinecraftArgs("--uuid ${auth_uuid}".to_string());
    let profile = PlayerProfile::new("tok".into(), "player2".into(), "uuid-1".into());
    let args = inst
        .generate_arguments(
            client,
            &Config::empty(),
            &Config::empty(),
            Some(&profile),
            &platform(),
            "/i",
            "/a",
            "/l",
            ":",
        )
        .unwrap();
    assert_eq!(args[args.len() - 1], "uuid-1");
}

#[test]
fn fabric_urls() {
    assert_eq!(
        loader_profile_url("1.20", "0.15.0"),
        "https://meta.fabricmc.net/v2/versions/loader/1.20/0.15.0/profile/json"
    );
    assert_eq!(
        fabric_versions_url("1.20"),
        "https://meta.fabricmc.net/v2/versions/loader/1.20/"
    );
}

#[test]
fn archive_vault_urls() {
    assert_eq!(
        MinecraftVersionType::Classic.get_url(false),
        "https://vault.omniarchive.uk/archive/java/client-classic/index.html"
    );
    assert_eq!(
        MinecraftVersionType::Beta.get_url(true),
        "https://vault.omniarchive.uk/archive/java/server-beta/index.html"
    );
    assert_eq!(MinecraftVersionType::client_versions().len(), 8);
    assert_eq!(MinecraftVersionType::server_versions().len(), 8);
}

#[test]
fn xbox_user_hash_lookup() {
    let response = XboxLiveAuthResponse {
        issue_instant: "now".into(),
        not_after: "later".into(),
        token: "t".into(),
        display_claims: vec![(
            "xui".to_string(),
            vec![vec![("uhs".to_string(), "hash-1".to_string())]],
        )],
    };
    assert_eq!(response.user_hash().map(|s| s.as_str()), Some("hash-1"));
    let empty = XboxLiveAuthResponse {
        issue_instant: "now".into(),
        not_after: "later".into(),
        token: "t".into(),
        display_claims: vec![],
    };
    assert!(empty.user_hash().is_none());
}

#[test]
fn version_report_parsing() {
    let modern = "openjdk version \"17.0.1\" 2021-10-19\nOpenJDK Runtime Environment";
    assert_eq!(
        synthlauncher::java::parse_version_report(modern),
        Some("17.0.1".to_string())
    );
    let legacy = "java version \"1.8.0_392\"\nJava(TM) SE Runtime Environment";
    assert_eq!(
        synthlauncher::java::parse_version_report(legacy),
        Some("1.8.0_392".to_string())
    );
    let dashed = "java version \"1.8.0-392\"";
    assert_eq!(
        synthlauncher::java::parse_version_report(dashed),
        Some("1.8.0_392".to_string())
    );
    // A report without a quoted three-part number yields nothing.
    assert_eq!(synthlauncher::java::parse_version_report("version \"21\""), None);
    assert_eq!(synthlauncher::java::parse_version_report("no version here"), None);
}
