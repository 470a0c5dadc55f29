use fastmc::launch::{LaunchAuth, LaunchCommand, MemorySettings, Resolution, VanillaLaunchConfig};

#[test]
fn builds_command_with_basic_args() {
    let cfg = VanillaLaunchConfig {
        java_path: String::from("java"),
        game_dir: String::from("/tmp/game"),
        assets_dir: String::from("/tmp/assets"),
        classpath: vec![String::from("a.jar"), String::from("b.jar")],
        main_class: "net.minecraft.client.main.Main".to_string(),
        version_name: "1.20.4".to_string(),
        asset_index: Some("1.20".to_string()),
        resolution: Some(Resolution {
            width: 854,
            height: 480,
        }),
        memory: Some(MemorySettings {
            min_megabytes: 512,
            max_megabytes: 2048,
        }),
        extra_jvm_args: vec!["-Dfile.encoding=UTF-8".to_string()],
        extra_game_args: vec!["--demo".to_string()],
        natives_dir: Some(String::from("/tmp/natives")),
    };

    let auth = LaunchAuth::Offline {
        username: "Player".into(),
        uuid: "offline-uuid".into(),
    };

    let cmd: LaunchCommand = cfg.build_command(&auth, ":");
    let args = cmd.args;

    assert!(args.contains(&"-Xms512M".to_string()));
    assert!(args.contains(&"-Xmx2048M".to_string()));
    assert!(args.contains(&"-Djava.library.path=/tmp/natives".to_string()));
    assert!(args.contains(&"-cp".to_string()));
    assert!(args.contains(&"net.minecraft.client.main.Main".to_string()));
    assert!(args.contains(&"--username".to_string()));
    assert!(args.contains(&"--uuid".to_string()));
    assert!(args.contains(&"--accessToken".to_string()));
}

#[test]
fn command_lists_arguments_in_launch_order() {
    let cfg = VanillaLaunchConfig {
        java_path: String::from("/usr/bin/java"),
        game_dir: String::from("/g"),
        assets_dir: String::from("/g/assets"),
        classpath: vec![String::from("x.jar"), String::from("y.jar")],
        main_class: "Main".to_string(),
        version_name: "1.20.1".to_string(),
        asset_index: None,
        resolution: None,
        memory: None,
        extra_jvm_args: vec![],
        extra_game_args: vec![],
        natives_dir: None,
    };
    let auth = LaunchAuth::Microsoft {
        username: "P".into(),
        uuid: "u-1".into(),
        access_token: "tok".into(),
    };
    let cmd = cfg.build_command(&auth, ":");
    assert_eq!(cmd.program, "/usr/bin/java");
    assert_eq!(cmd.current_dir, "/g");
    assert_eq!(
        cmd.args,
        vec![
            "-cp".to_string(),
            "x.jar:y.jar".to_string(),
            "Main".to_string(),
            "--username".to_string(),
            "P".to_string(),
            "--version".to_string(),
            "1.20.1".to_string(),
            "--gameDir".to_string(),
            "/g".to_string(),
            "--assetsDir".to_string(),
            "/g/assets".to_string(),
            "--uuid".to_string(),
            "u-1".to_string(),
            "--accessToken".to_string(),
            "tok".to_string(),
            "--session".to_string(),
            "token:tok:u-1".to_string(),
            "--userType".to_string(),
            "msa".to_string(),
            "--versionType".to_string(),
            "release".to_string(),
            "--userProperties".to_string(),
            "{}".to_string(),
        ]
    );
}

#[test]
fn offline_auth_uses_placeholder_token() {
    let auth = LaunchAuth::Offline {
        username: "Player".into(),
        uuid: "offline-uuid".into(),
    };
    assert_eq!(auth.username(), "Player");
    assert_eq!(auth.uuid(), "offline-uuid");
    assert_eq!(auth.access_token(), "offline-token");
    assert_eq!(auth.user_type(), "offline");

    let ms = LaunchAuth::Microsoft {
        username: "M".into(),
        uuid: "m-uuid".into(),
        access_token: "at".into(),
    };
    assert_eq!(ms.access_token(), "at");
    assert_eq!(ms.user_type(), "msa");
}
