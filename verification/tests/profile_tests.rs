use fastmc::codec::{decode_loader_profile, encode_loader_profile};
use fastmc::loaders::{
    fabric_profile_url, filter_neoforge_versions, forge_installer_url,
    forge_version_to_loader_profile, loader_profile_from_parts, neoforge_installer_url,
    neoforge_version_prefix, plan_loader_downloads, quilt_profile_url, validate_install_request,
    vendor_maven_host,
};
use fastmc::instance::ModLoader;
use fastmc::models::{
    ForgeArgValue, ForgeArguments, ForgeArtifact, ForgeLibDownloads, ForgeLibEntry,
    ForgeVersionJson, LoaderLibrary, LoaderProfile,
};

fn sample_profile() -> LoaderProfile {
    LoaderProfile {
        main_class: String::from("net.fabricmc.loader.impl.launch.knot.KnotClient"),
        libraries: vec![
            LoaderLibrary {
                name: String::from("net.fabricmc:fabric-loader:0.15.0"),
                url: Some(String::from("https://maven.fabricmc.net/")),
            },
            LoaderLibrary { name: String::from("org.ow2.asm:asm:9.6"), url: None },
        ],
        jvm_args: vec![String::from("-DFabricMcEmu= net.minecraft.client.main.Main ")],
        game_args: vec![],
    }
}

#[test]
fn loader_profile_round_trips_through_its_document() {
    let profile = sample_profile();
    let doc = encode_loader_profile(&profile);
    let back = decode_loader_profile(doc.as_str()).unwrap();
    assert_eq!(back.main_class, profile.main_class);
    assert_eq!(back.libraries.len(), profile.libraries.len());
    for (a, b) in back.libraries.iter().zip(profile.libraries.iter()) {
        assert_eq!(a.name, b.name);
        assert_eq!(a.url, b.url);
    }
    assert_eq!(back.jvm_args, profile.jvm_args);
    assert_eq!(back.game_args, profile.game_args);
}

#[test]
fn profile_document_escapes_quotes_and_backslashes() {
    let profile = LoaderProfile {
        main_class: String::from("a\"b\\c"),
        libraries: vec![],
        jvm_args: vec![String::from("plain")],
        game_args: vec![String::from("x\"y")],
    };
    let doc = encode_loader_profile(&profile);
    assert_eq!(
        doc,
        "{\"main_class\":\"a\\\"b\\\\c\",\"libraries\":[],\"jvm_args\":[\"plain\"],\"game_args\":[\"x\\\"y\"]}"
    );
    let back = decode_loader_profile(doc.as_str()).unwrap();
    assert_eq!(back.main_class, "a\"b\\c");
    assert_eq!(back.game_args, vec![String::from("x\"y")]);
}

#[test]
fn decoder_rejects_what_the_encoder_never_writes() {
    assert!(decode_loader_profile("").is_none());
    assert!(decode_loader_profile("{}").is_none());
    assert!(decode_loader_profile("{\"main_class\":\"M\"}").is_none());
    let profile = sample_profile();
    let doc = encode_loader_profile(&profile);
    let mut truncated = doc.clone();
    truncated.pop();
    assert!(decode_loader_profile(truncated.as_str()).is_none());
    let padded = format!("{} ", doc);
    assert!(decode_loader_profile(padded.as_str()).is_none());
}

#[test]
fn fetched_profiles_default_their_maven_host() {
    let profile = loader_profile_from_parts(
        String::from("Knot"),
        vec![
            LoaderLibrary { name: String::from("a:b:1"), url: None },
            LoaderLibrary {
                name: String::from("c:d:2"),
                url: Some(String::from("https://elsewhere.example/")),
            },
        ],
        vec![String::from("-Xss1M")],
        vec![String::from("--demo")],
        "https://maven.fabricmc.net/",
    );
    assert_eq!(profile.main_class, "Knot");
    assert_eq!(profile.libraries[0].url.as_deref(), Some("https://maven.fabricmc.net/"));
    assert_eq!(profile.libraries[1].url.as_deref(), Some("https://elsewhere.example/"));
    assert_eq!(profile.jvm_args, vec![String::from("-Xss1M")]);
    assert_eq!(profile.game_args, vec![String::from("--demo")]);
}

#[test]
fn loader_downloads_skip_present_files_and_default_the_host() {
    let libs = vec![
        LoaderLibrary { name: String::from("a:b:1"), url: None },
        LoaderLibrary {
            name: String::from("c:d:2"),
            url: Some(String::from("https://maven.quiltmc.org/repository/release/")),
        },
        LoaderLibrary { name: String::from("e:f:3"), url: None },
    ];
    let present = vec![false, false, true];
    let plan = plan_loader_downloads(&libs, &present);
    assert_eq!(plan.len(), 2);
    assert_eq!(plan[0].0, "https://libraries.minecraft.net/a/b/1/b-1.jar");
    assert_eq!(plan[0].1, "a/b/1/b-1.jar");
    assert_eq!(plan[1].0, "https://maven.quiltmc.org/repository/release/c/d/2/d-2.jar");
}

#[test]
fn service_urls_follow_the_documented_layout() {
    assert_eq!(
        fabric_profile_url("1.20.1", "0.15.0"),
        "https://meta.fabricmc.net/v2/versions/loader/1.20.1/0.15.0/profile/json"
    );
    assert_eq!(
        quilt_profile_url("1.20.1", "0.21.0"),
        "https://meta.quiltmc.org/v3/versions/loader/1.20.1/0.21.0/profile/json"
    );
    assert_eq!(
        forge_installer_url("1.20.1", "47.2.0"),
        "https://maven.minecraftforge.net/net/minecraftforge/forge/1.20.1-47.2.0/forge-1.20.1-47.2.0-installer.jar"
    );
    assert_eq!(
        neoforge_installer_url("21.4.38"),
        "https://maven.neoforged.net/releases/net/neoforged/neoforge/21.4.38/neoforge-21.4.38-installer.jar"
    );
}

#[test]
fn install_requests_are_validated_before_any_work() {
    assert_eq!(
        validate_install_request(&ModLoader::Vanilla, true).unwrap_err(),
        "Cannot install Vanilla as a loader"
    );
    assert_eq!(
        validate_install_request(&ModLoader::Forge, false).unwrap_err(),
        "Java path required for Forge installation"
    );
    assert_eq!(
        validate_install_request(&ModLoader::NeoForge, false).unwrap_err(),
        "Java path required for NeoForge installation"
    );
    assert!(validate_install_request(&ModLoader::Fabric, false).is_ok());
    assert!(validate_install_request(&ModLoader::Quilt, false).is_ok());
    assert!(validate_install_request(&ModLoader::Forge, true).is_ok());
}

#[test]
fn neoforge_versions_filter_by_derived_prefix_newest_first() {
    assert_eq!(neoforge_version_prefix("1.21.4"), "21.4.");
    assert_eq!(neoforge_version_prefix("21.4"), "21.4.");
    let listing = vec![
        String::from("20.4.100"),
        String::from("21.4.1"),
        String::from("21.4.38"),
        String::from("21.40.1"),
    ];
    let picked = filter_neoforge_versions(&listing, "1.21.4");
    assert_eq!(picked, vec![String::from("21.4.38"), String::from("21.4.1")]);
}

#[test]
fn version_document_translates_with_reverse_derived_hosts() {
    let version_json = ForgeVersionJson {
        main_class: String::from("cpw.mods.bootstraplauncher.BootstrapLauncher"),
        libraries: vec![
            ForgeLibEntry {
                name: String::from("net.minecraftforge:fmlloader:1.20.1-47.2.0"),
                downloads: Some(ForgeLibDownloads {
                    artifact: Some(ForgeArtifact {
                        url: String::from(
                            "https://maven.minecraftforge.net/net/minecraftforge/fmlloader/1.20.1-47.2.0/fmlloader-1.20.1-47.2.0.jar",
                        ),
                        path: String::from("x"),
                        sha1: None,
                    }),
                }),
            },
            ForgeLibEntry {
                name: String::from("org.ow2.asm:asm:9.5"),
                downloads: Some(ForgeLibDownloads {
                    artifact: Some(ForgeArtifact {
                        url: String::from("https://odd.example/elsewhere.jar"),
                        path: String::from("x"),
                        sha1: None,
                    }),
                }),
            },
            ForgeLibEntry { name: String::from("a:b:1"), downloads: None },
        ],
        arguments: Some(ForgeArguments {
            game: Some(vec![
                ForgeArgValue::Text(String::from("--launchTarget")),
                ForgeArgValue::Structured,
                ForgeArgValue::Text(String::from("forgeclient")),
            ]),
            jvm: Some(vec![ForgeArgValue::Text(String::from("-p"))]),
        }),
    };
    let profile = forge_version_to_loader_profile(&version_json);
    assert_eq!(profile.main_class, "cpw.mods.bootstraplauncher.BootstrapLauncher");
    assert_eq!(profile.libraries[0].url.as_deref(), Some("https://maven.minecraftforge.net/"));
    // A URL that does not end in the derived path falls back to the vendor host.
    assert_eq!(profile.libraries[1].url.as_deref(), Some("https://maven.minecraftforge.net/"));
    assert_eq!(profile.libraries[2].url, None);
    assert_eq!(
        profile.game_args,
        vec![String::from("--launchTarget"), String::from("forgeclient")]
    );
    assert_eq!(profile.jvm_args, vec![String::from("-p")]);
}

#[test]
fn vendor_hosts_differ_per_loader() {
    assert_eq!(vendor_maven_host(&ModLoader::Forge), "https://maven.minecraftforge.net/");
    assert_eq!(vendor_maven_host(&ModLoader::NeoForge), "https://maven.neoforged.net/releases/");
    assert_eq!(ModLoader::NeoForge.label(), "NeoForge");
}

#[test]
fn forge_version_discovery_collects_dedups_and_orders() {
    let promos = vec![
        (String::from("1.20.1-recommended"), String::from("47.2.0")),
        (String::from("1.19.2-latest"), String::from("43.3.0")),
        (String::from("1.20.1-latest"), String::from("47.2.20")),
    ];
    let xml = vec![
        String::from("  <version>1.20.1-47.1.0</version>"),
        String::from("  <version>1.20.1-47.2.0</version>"),
        String::from("  <version>1.19.2-43.0.0</version>"),
        String::from("  <versioning>ignored</versioning>"),
    ];
    let got = fastmc::loaders::collect_forge_versions(&promos, &xml, "1.20.1").unwrap();
    // The promoted 47.2.0 already covers the metadata's 1.20.1-47.2.0 entry,
    // and the listing is ordered newest first.
    assert_eq!(
        got,
        vec![
            String::from("47.2.20 (latest)"),
            String::from("47.2.0 (recommended)"),
            String::from("47.1.0"),
        ]
    );
    let err = fastmc::loaders::collect_forge_versions(&vec![], &vec![], "1.99.1").unwrap_err();
    assert_eq!(err, "No Forge versions found for 1.99.1");
}
