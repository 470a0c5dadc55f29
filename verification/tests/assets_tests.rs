use fastmc::assets::{
    asset_copy_targets, asset_object_path, asset_object_url, launch_assets_dir,
    plan_asset_downloads, AssetObject,
};
use fastmc::manifest::{find_version_url, version_cache_paths};
use fastmc::maven::{is_maven_coordinate, maven_to_path};
use fastmc::models::{LatestVersions, VanillaVersion, VersionManifestV2, VersionType};
use fastmc::resolver::{
    native_artifact_index, native_classifier_for, native_jar_file_name, resolve_classpath,
    should_extract_native, LibraryArtifact, LibraryEntry,
};

fn obj(name: &str, hash: &str) -> AssetObject {
    AssetObject { name: String::from(name), hash: String::from(hash) }
}

#[test]
fn maven_coordinate_maps_to_repository_path() {
    assert_eq!(
        maven_to_path("net.minecraftforge:forge:1.20.1-47.2.0"),
        "net/minecraftforge/forge/1.20.1-47.2.0/forge-1.20.1-47.2.0.jar"
    );
    assert_eq!(maven_to_path("a.b.c:artifact:1.0"), "a/b/c/artifact/1.0/artifact-1.0.jar");
    assert!(is_maven_coordinate("g:a:1"));
    assert!(!is_maven_coordinate("not-a-coordinate"));
    assert!(!is_maven_coordinate("only:one"));
}

#[test]
fn asset_paths_bucket_by_hash_prefix() {
    let h = "00a1bc5bb1f83ad07d49b538b9e2d0d6e25e0dbf";
    assert_eq!(asset_object_path(h), format!("objects/00/{}", h));
    assert_eq!(
        asset_object_url(h),
        format!("https://resources.download.minecraft.net/00/{}", h)
    );
}

#[test]
fn asset_plan_downloads_exactly_the_missing_objects() {
    let objects = vec![
        obj("minecraft/sounds/a.ogg", "aa11223344556677889900aabbccddeeff001122"),
        obj("minecraft/lang/en.json", "bb11223344556677889900aabbccddeeff001122"),
        obj("bad", "x"),
    ];
    let present = vec![true, false, false];
    let plan = plan_asset_downloads(&objects, &present);
    assert_eq!(plan.len(), 1);
    assert_eq!(
        plan[0].rel_path,
        "objects/bb/bb11223344556677889900aabbccddeeff001122"
    );
    assert_eq!(
        plan[0].url,
        "https://resources.download.minecraft.net/bb/bb11223344556677889900aabbccddeeff001122"
    );
}

#[test]
fn asset_resolution_is_idempotent() {
    // First pass: both objects missing, two downloads planned.
    let objects = vec![
        obj("a", "aa11223344556677889900aabbccddeeff001122"),
        obj("b", "bb11223344556677889900aabbccddeeff001122"),
    ];
    let first = plan_asset_downloads(&objects, &vec![false, false]);
    assert_eq!(first.len(), 2);
    // Second pass with everything present: zero downloads.
    let second = plan_asset_downloads(&objects, &vec![true, true]);
    assert_eq!(second.len(), 0);
}

#[test]
fn legacy_copies_and_launch_directory_follow_the_index_flags() {
    assert_eq!(
        asset_copy_targets("icons/icon_16x16.png", true, false),
        vec![String::from("resources/icons/icon_16x16.png")]
    );
    assert_eq!(
        asset_copy_targets("icons/icon_16x16.png", true, true),
        vec![
            String::from("resources/icons/icon_16x16.png"),
            String::from("assets/virtual/legacy/icons/icon_16x16.png"),
        ]
    );
    assert_eq!(asset_copy_targets("x", false, false), Vec::<String>::new());
    assert_eq!(launch_assets_dir("/g/assets", false), "/g/assets");
    assert_eq!(launch_assets_dir("/g/assets", true), "/g/assets/virtual/legacy");
}

fn lib(name: &str, path: Option<&str>, with_artifact: bool) -> LibraryEntry {
    LibraryEntry {
        name: String::from(name),
        artifact: if with_artifact {
            Some(LibraryArtifact {
                url: String::from("https://libraries.minecraft.net/x.jar"),
                sha1: String::from("s"),
                size: 1,
                path: path.map(String::from),
            })
        } else {
            None
        },
        natives: vec![],
    }
}

#[test]
fn classpath_keeps_document_order_and_appends_the_client_jar() {
    let libs = vec![
        lib("a:b:1", Some("given/path/b-1.jar"), true),
        lib("c:d:2", None, true),
        lib("e:f:3", None, false),
    ];
    let cp = resolve_classpath(&libs, "/g/libraries", "/g/versions/1.20.1/1.20.1.jar");
    assert_eq!(
        cp,
        vec![
            String::from("/g/libraries/given/path/b-1.jar"),
            String::from("/g/libraries/c/d/2/d-2.jar"),
            String::from("/g/versions/1.20.1/1.20.1.jar"),
        ]
    );
}

#[test]
fn natives_pick_the_platform_classifier_and_a_distinct_file_name() {
    assert_eq!(native_classifier_for("linux"), "natives-linux");
    assert_eq!(native_classifier_for("windows"), "natives-windows");
    assert_eq!(native_classifier_for("macos"), "natives-macos");
    assert_eq!(native_classifier_for("beos"), "natives-unknown");
    assert_eq!(
        native_jar_file_name("org.lwjgl:lwjgl:3.3.1", "natives-linux"),
        "org.lwjgl-lwjgl-3.3.1-natives-linux.jar"
    );
    let entry = LibraryEntry {
        name: String::from("org.lwjgl:lwjgl:3.3.1"),
        artifact: None,
        natives: vec![
            (
                String::from("natives-windows"),
                LibraryArtifact {
                    url: String::from("w"),
                    sha1: String::from(""),
                    size: 0,
                    path: None,
                },
            ),
            (
                String::from("natives-linux"),
                LibraryArtifact {
                    url: String::from("l"),
                    sha1: String::from(""),
                    size: 0,
                    path: None,
                },
            ),
        ],
    };
    assert_eq!(native_artifact_index(&entry, "natives-linux"), Some(1));
    assert_eq!(native_artifact_index(&entry, "natives-macos"), None);
    assert!(should_extract_native("lwjgl.so"));
    assert!(!should_extract_native("META-INF/MANIFEST.MF"));
}

#[test]
fn manifest_lookup_finds_the_first_matching_id() {
    let entry = |id: &str, url: &str| VanillaVersion {
        id: String::from(id),
        type_: VersionType::Release,
        url: String::from(url),
        time: String::new(),
        release_time: String::new(),
    };
    let manifest = VersionManifestV2 {
        latest: LatestVersions {
            release: String::from("1.21.1"),
            snapshot: String::from("24w33a"),
        },
        versions: vec![entry("1.21.1", "https://meta/1211.json"), entry("1.20.1", "https://meta/1201.json")],
    };
    assert_eq!(
        find_version_url(&manifest.versions, "1.20.1").unwrap(),
        "https://meta/1201.json"
    );
    assert_eq!(
        find_version_url(&manifest.versions, "9.9.9").unwrap_err(),
        "Version 9.9.9 not found"
    );
    let (json, jar) = version_cache_paths("1.20.1");
    assert_eq!(json, "versions/1.20.1/1.20.1.json");
    assert_eq!(jar, "versions/1.20.1/1.20.1.jar");
}
