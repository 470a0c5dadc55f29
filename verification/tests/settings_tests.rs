use fastmc::config::{migrate, AccountsConfig, FastmcConfig, JavaConfig, ProfilesConfig};
use fastmc::instance::{InstanceMetadata, ModLoader};
use fastmc::settings::JavaLaunchSettings;

fn settings(min: u32, max: u32) -> JavaLaunchSettings {
    JavaLaunchSettings {
        java_path: None,
        auto_discover: true,
        min_memory_mb: min,
        max_memory_mb: max,
        extra_jvm_args: vec![String::from("-XX:+UseG1GC")],
        detected_installations: vec![],
    }
}

#[test]
fn memory_bounds_clamp_against_total_memory() {
    assert_eq!(settings(1024, 4096).memory_bounds(None), (1024, 4096));
    // A configured maximum below the minimum is raised to it.
    assert_eq!(settings(4096, 1024).memory_bounds(None), (4096, 4096));
    // The machine's memory caps the maximum, then the minimum follows.
    assert_eq!(settings(1024, 8192).memory_bounds(Some(2048)), (1024, 2048));
    assert_eq!(settings(4096, 8192).memory_bounds(Some(2048)), (2048, 2048));
}

#[test]
fn jvm_args_carry_the_clamped_bounds_then_the_extras() {
    let args = settings(512, 2048).jvm_args(None);
    assert_eq!(
        args,
        vec![
            String::from("-Xms512M"),
            String::from("-Xmx2048M"),
            String::from("-XX:+UseG1GC"),
        ]
    );
}

#[test]
fn settings_round_trip_through_the_configuration() {
    let s = JavaLaunchSettings {
        java_path: Some(String::from("/opt/jdk/bin/java")),
        auto_discover: false,
        min_memory_mb: 2048,
        max_memory_mb: 6144,
        extra_jvm_args: vec![String::from("-ea")],
        detected_installations: vec![],
    };
    let cfg = s.to_config();
    assert_eq!(cfg.java_path.as_deref(), Some("/opt/jdk/bin/java"));
    assert!(!cfg.auto_discover);
    let back = JavaLaunchSettings::from_config(&cfg);
    assert_eq!(back.min_memory_mb, 2048);
    assert_eq!(back.max_memory_mb, 6144);
    assert_eq!(back.extra_jvm_args, vec![String::from("-ea")]);
    let dc = s.detection_config();
    assert!(!dc.auto_discover);
    assert_eq!(dc.preferred_path.as_deref(), Some("/opt/jdk/bin/java"));
}

#[test]
fn config_defaults_and_migration() {
    let cfg = FastmcConfig::default();
    assert_eq!(cfg.version, 2);
    assert_eq!(cfg.java.min_memory_mb, 1024);
    assert_eq!(cfg.java.max_memory_mb, 4096);
    assert!(cfg.java.auto_discover);
    assert!(cfg.accounts.allow_offline);
    assert!(cfg.profiles.default_profile.is_none());
    assert_eq!(JavaConfig::default().java_path, None);
    assert!(AccountsConfig::default().microsoft_client_id.is_none());
    assert!(ProfilesConfig::default().instances_dir.is_none());

    let mut old = FastmcConfig { version: 1, ..FastmcConfig::default() };
    migrate(&mut old);
    assert_eq!(old.version, 2);
    let mut newer = FastmcConfig { version: 7, ..FastmcConfig::default() };
    migrate(&mut newer);
    assert_eq!(newer.version, 7);
}

fn instance(memory_mb: Option<u32>, min: Option<u32>, max: Option<u32>) -> InstanceMetadata {
    InstanceMetadata {
        id: String::from("i"),
        name: String::from("Test"),
        icon: None,
        created: 0,
        last_played: 0,
        total_time: 0,
        game_version: String::from("1.21"),
        loader: ModLoader::Vanilla,
        loader_version: None,
        java_path: None,
        min_memory_mb: min,
        max_memory_mb: max,
        jvm_args: None,
        auto_discover: None,
        loader_installed: false,
        memory_mb,
    }
}

#[test]
fn legacy_memory_field_migrates_into_the_split_bounds() {
    let mut m = instance(Some(3072), None, None);
    m.migrate();
    assert_eq!(m.memory_mb, None);
    assert_eq!(m.min_memory_mb, Some(3072));
    assert_eq!(m.max_memory_mb, Some(3072));

    let mut kept = instance(Some(3072), Some(1024), None);
    kept.migrate();
    assert_eq!(kept.min_memory_mb, Some(1024));
    assert_eq!(kept.max_memory_mb, Some(3072));

    let mut untouched = instance(None, Some(1024), Some(2048));
    untouched.migrate();
    assert_eq!(untouched.min_memory_mb, Some(1024));
    assert_eq!(untouched.max_memory_mb, Some(2048));
}

#[test]
fn instances_list_most_recently_played_first() {
    let mut a = instance(None, None, None);
    a.id = String::from("a");
    a.last_played = 10;
    a.created = 5;
    let mut b = instance(None, None, None);
    b.id = String::from("b");
    b.last_played = 20;
    b.created = 1;
    let mut c = instance(None, None, None);
    c.id = String::from("c");
    c.last_played = 10;
    c.created = 9;
    let sorted = fastmc::instance::sort_instances(vec![a, b, c]);
    let ids: Vec<&str> = sorted.iter().map(|m| m.id.as_str()).collect();
    assert_eq!(ids, vec!["b", "c", "a"]);
}
