use std::io::Write;

use fastmc::archive::{extract_forge_installer, extract_jar_main_class, stage_forge_payloads};
use fastmc::forge::{
    build_data_map, build_processor_plan, resolve_data_value, resolve_forge_token, EngineAction,
    ProcessorEngine,
};
use fastmc::models::{ForgeDataEntry, ForgeProcessor};

fn zip_bytes(entries: &[(&str, &[u8])]) -> Vec<u8> {
    let mut cursor = std::io::Cursor::new(Vec::new());
    {
        let mut writer = zip::ZipWriter::new(&mut cursor);
        let options: zip::write::SimpleFileOptions = Default::default();
        for (name, data) in entries {
            writer.start_file(*name, options).unwrap();
            writer.write_all(data).unwrap();
        }
        writer.finish().unwrap();
    }
    cursor.into_inner()
}

#[test]
fn token_grammar_resolves_three_ways() {
    let map = vec![
        (String::from("SIDE"), String::from("client")),
        (String::from("MC"), String::from("/g/client.jar")),
    ];
    assert_eq!(resolve_forge_token("{SIDE}", &map, "/libs"), "client");
    assert_eq!(resolve_forge_token("{MC}", &map, "/libs"), "/g/client.jar");
    // Unknown keys pass through as the literal token.
    assert_eq!(resolve_forge_token("{UNKNOWN}", &map, "/libs"), "{UNKNOWN}");
    assert_eq!(
        resolve_forge_token("[net.minecraftforge:forge:1.20.1-47.2.0]", &map, "/libs"),
        "/libs/net/minecraftforge/forge/1.20.1-47.2.0/forge-1.20.1-47.2.0.jar"
    );
    assert_eq!(resolve_forge_token("--side", &map, "/libs"), "--side");
}

#[test]
fn later_map_entries_override_earlier_ones() {
    let map = vec![
        (String::from("K"), String::from("first")),
        (String::from("K"), String::from("second")),
    ];
    assert_eq!(resolve_forge_token("{K}", &map, "/libs"), "second");
}

#[test]
fn data_map_seeds_then_resolves_entries() {
    let data = vec![
        (
            String::from("BINPATCH"),
            ForgeDataEntry {
                client: String::from("/data/client.lzma"),
                server: String::from("/data/server.lzma"),
            },
        ),
        (
            String::from("MAPPINGS"),
            ForgeDataEntry {
                client: String::from("[net.minecraft:client:1.20.1:mappings]"),
                server: String::from("x"),
            },
        ),
        (
            String::from("MODE"),
            ForgeDataEntry { client: String::from("joined"), server: String::from("joined") },
        ),
    ];
    let map = build_data_map(&data, "/inst/libraries", "/inst/client.jar", "/inst/.minecraft");
    assert_eq!(map[0], (String::from("MINECRAFT_JAR"), String::from("/inst/client.jar")));
    assert_eq!(map[1], (String::from("SIDE"), String::from("client")));
    assert_eq!(map[2], (String::from("ROOT"), String::from("/inst/.minecraft")));
    assert_eq!(map[3], (String::from("LIBRARY_DIR"), String::from("/inst/libraries")));
    assert_eq!(
        map[4],
        (
            String::from("BINPATCH"),
            String::from("/inst/libraries/forge_extracted/data/client.lzma")
        )
    );
    assert_eq!(
        map[5],
        (
            String::from("MAPPINGS"),
            String::from("/inst/libraries/net/minecraft/client/1.20.1/client-1.20.1.jar")
        )
    );
    assert_eq!(map[6], (String::from("MODE"), String::from("joined")));
}

#[test]
fn data_values_resolve_like_tokens() {
    assert_eq!(
        resolve_data_value("[g:a:1]", "/l"),
        "/l/g/a/1/a-1.jar"
    );
    assert_eq!(resolve_data_value("/inner/file.bin", "/l"), "/l/forge_extracted/inner/file.bin");
    assert_eq!(resolve_data_value("literal", "/l"), "literal");
}

fn processor(jar: &str, sides: Option<Vec<&str>>) -> ForgeProcessor {
    ForgeProcessor {
        jar: String::from(jar),
        classpath: vec![String::from("dep:cp:1")],
        args: vec![String::from("{SIDE}"), String::from("[x:y:2]"), String::from("plain")],
        sides: sides.map(|v| v.into_iter().map(String::from).collect()),
    }
}

#[test]
fn plan_keeps_client_processors_in_list_order() {
    let procs = vec![
        processor("a:p1:1", None),
        processor("b:p2:1", Some(vec!["server"])),
        processor("c:p3:1", Some(vec!["server", "client"])),
    ];
    let map = vec![(String::from("SIDE"), String::from("client"))];
    let plan = build_processor_plan(&procs, &map, "/libs");
    assert_eq!(plan.len(), 2);
    assert_eq!(plan[0].jar_path, "/libs/a/p1/1/p1-1.jar");
    assert_eq!(plan[1].jar_path, "/libs/c/p3/1/p3-1.jar");
    assert_eq!(plan[0].classpath, "/libs/a/p1/1/p1-1.jar:/libs/dep/cp/1/cp-1.jar");
    assert_eq!(
        plan[0].args,
        vec![
            String::from("client"),
            String::from("/libs/x/y/2/y-2.jar"),
            String::from("plain"),
        ]
    );
}

#[test]
fn engine_runs_processors_strictly_in_order() {
    let procs = vec![
        processor("a:p1:1", None),
        processor("b:p2:1", None),
        processor("c:p3:1", None),
    ];
    let map = vec![];
    let plan = build_processor_plan(&procs, &map, "/libs");
    let (mut engine, first) = ProcessorEngine::start(plan);

    // A test double records the invocation order the engine asks for.
    let mut recorded: Vec<String> = Vec::new();
    let mut action = first;
    loop {
        match action {
            EngineAction::Run(i) => {
                recorded.push(engine.plan[i].jar_path.clone());
                action = engine.on_exit(true, "MainClass", "", "");
            }
            EngineAction::WriteProfile => break,
            EngineAction::Abort(e) => panic!("unexpected abort: {}", e),
        }
    }
    assert_eq!(
        recorded,
        vec![
            String::from("/libs/a/p1/1/p1-1.jar"),
            String::from("/libs/b/p2/1/p2-1.jar"),
            String::from("/libs/c/p3/1/p3-1.jar"),
        ]
    );
}

#[test]
fn failing_processor_aborts_before_any_profile_write() {
    let procs = vec![processor("a:p1:1", None), processor("b:p2:1", None)];
    let map = vec![];
    let plan = build_processor_plan(&procs, &map, "/libs");
    let (mut engine, first) = ProcessorEngine::start(plan);
    assert!(matches!(first, EngineAction::Run(0)));

    let mut profile_written = false;
    let action = engine.on_exit(false, "net.forge.Patcher", "out text", "err text");
    match action {
        EngineAction::Abort(msg) => {
            assert_eq!(
                msg,
                "Forge processor net.forge.Patcher failed:\nstdout: out text\nstderr: err text"
            );
        }
        EngineAction::WriteProfile => profile_written = true,
        EngineAction::Run(_) => panic!("ran past a failure"),
    }
    assert!(!profile_written);
    assert!(engine.failed);
}

#[test]
fn empty_plan_goes_straight_to_the_profile() {
    let (_, action) = ProcessorEngine::start(Vec::new());
    assert!(matches!(action, EngineAction::WriteProfile));
}

#[test]
fn installer_extraction_takes_documents_and_maven_tree() {
    let data = zip_bytes(&[
        ("install_profile.json", b"{\"processors\":[]}" as &[u8]),
        ("version.json", b"{\"mainClass\":\"M\"}"),
        ("maven/", b""),
        ("maven/net/forge/f/1/f-1.jar", b"jarbytes"),
        ("data/client.lzma", b"patchbytes"),
        ("other.txt", b"skip me"),
    ]);
    let contents = extract_forge_installer(&data).unwrap();
    assert_eq!(contents.install_profile, b"{\"processors\":[]}".to_vec());
    assert_eq!(contents.version_json, b"{\"mainClass\":\"M\"}".to_vec());
    assert_eq!(contents.maven_files.len(), 1);
    assert_eq!(contents.maven_files[0].0, "net/forge/f/1/f-1.jar");
    assert_eq!(contents.maven_files[0].1, b"jarbytes".to_vec());

    let staged = stage_forge_payloads(
        &data,
        &vec![String::from("/data/client.lzma"), String::from("literal"), String::from("/gone")],
    );
    assert_eq!(staged.len(), 1);
    assert_eq!(staged[0].0, "forge_extracted/data/client.lzma");
    assert_eq!(staged[0].1, b"patchbytes".to_vec());
}

#[test]
fn installer_extraction_reports_missing_documents() {
    let no_profile = zip_bytes(&[("version.json", b"{}" as &[u8])]);
    assert_eq!(
        extract_forge_installer(&no_profile).unwrap_err(),
        "Missing install_profile.json"
    );
    let no_version = zip_bytes(&[("install_profile.json", b"{}" as &[u8])]);
    assert_eq!(extract_forge_installer(&no_version).unwrap_err(), "Missing version.json");
    let garbage = vec![1u8, 2, 3, 4];
    assert_eq!(extract_forge_installer(&garbage).unwrap_err(), "Invalid installer JAR");
}

#[test]
fn jar_main_class_comes_from_the_manifest() {
    let jar = zip_bytes(&[(
        "META-INF/MANIFEST.MF",
        b"Manifest-Version: 1.0\r\nMain-Class: net.forge.Installer \r\nBuilt-By: x\r\n" as &[u8],
    )]);
    assert_eq!(extract_jar_main_class(&jar, "tool.jar").unwrap(), "net.forge.Installer");

    let no_main = zip_bytes(&[("META-INF/MANIFEST.MF", b"Manifest-Version: 1.0\r\n" as &[u8])]);
    assert_eq!(
        extract_jar_main_class(&no_main, "tool.jar").unwrap_err(),
        "No Main-Class in tool.jar"
    );
    let no_manifest = zip_bytes(&[("x.txt", b"hi" as &[u8])]);
    assert_eq!(
        extract_jar_main_class(&no_manifest, "tool.jar").unwrap_err(),
        "No MANIFEST.MF in tool.jar"
    );
}
