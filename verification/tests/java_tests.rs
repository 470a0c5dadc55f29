use fastmc::detection::{DetectionSummary, InstallSource, JavaError, JavaInstallation};
use fastmc::metadata::{parse_java_metadata, strip_version_like};
use fastmc::probe::{candidate_binaries, dedup_candidates, installation_from_probe, record_missing,
    CandidateBinary};
use fastmc::detection::JavaDetectionConfig;
use fastmc::versions::required_tier;

fn install(path: &str, version: Option<&str>, source: InstallSource) -> JavaInstallation {
    JavaInstallation {
        id: String::from("id"),
        path: String::from(path),
        version: version.map(String::from),
        vendor: None,
        source,
    }
}

#[test]
fn tier_classification_matches_known_versions() {
    assert_eq!(required_tier("1.20.4"), 17);
    assert_eq!(required_tier("1.20.5"), 21);
    assert_eq!(required_tier("1.16.5"), 8);
    assert_eq!(required_tier("1.21.1"), 21);
    assert_eq!(required_tier("1.8.9"), 8);
    assert_eq!(required_tier("24w14a"), 21);
}

#[test]
fn user_provided_mismatch_names_both_versions() {
    let summary = DetectionSummary {
        installations: vec![install("/opt/jdk8/bin/java", Some("1.8.0_381"), InstallSource::UserProvided)],
        errors: vec![],
    };
    let err = summary.select_for_version("1.20.1").unwrap_err();
    assert!(err.contains("1.8.0_381"));
    assert!(err.contains("1.20.1"));
    assert!(err.contains("Java 16/17"));
    assert_eq!(
        err,
        "Selected Java version (1.8.0_381) is incompatible with Minecraft 1.20.1. Required: Java 16/17"
    );
}

#[test]
fn user_provided_without_version_is_trusted() {
    let summary = DetectionSummary {
        installations: vec![
            install("/weird/jvm/bin/java", None, InstallSource::UserProvided),
            install("/usr/bin/java", Some("17.0.2"), InstallSource::PathEntry),
        ],
        errors: vec![],
    };
    assert_eq!(summary.select_for_version("1.20.1").unwrap(), "/weird/jvm/bin/java");
    assert_eq!(summary.select_for_version("1.8.9").unwrap(), "/weird/jvm/bin/java");
    assert_eq!(summary.select_for_version("1.21.1").unwrap(), "/weird/jvm/bin/java");
}

#[test]
fn first_matching_detected_installation_wins() {
    let summary = DetectionSummary {
        installations: vec![
            install("/jdk8", Some("1.8.0_300"), InstallSource::PathEntry),
            install("/jdk17-a", Some("17.0.1"), InstallSource::PathEntry),
            install("/jdk17-b", Some("17.0.9"), InstallSource::SystemLocation),
        ],
        errors: vec![],
    };
    assert_eq!(summary.select_for_version("1.20.1").unwrap(), "/jdk17-a");
    assert_eq!(summary.select_for_version("1.16.5").unwrap(), "/jdk8");
}

#[test]
fn legacy_target_without_java8_fails_with_guidance() {
    let summary = DetectionSummary {
        installations: vec![install("/jdk17", Some("17.0.1"), InstallSource::PathEntry)],
        errors: vec![],
    };
    let err = summary.select_for_version("1.12.2").unwrap_err();
    assert_eq!(
        err,
        "Java 8 is required for this version. Please install it or configure a Java path in settings."
    );
}

#[test]
fn fallback_picks_highest_leading_version() {
    let summary = DetectionSummary {
        installations: vec![
            install("/jdk18", Some("18.0.1"), InstallSource::PathEntry),
            install("/jdk20", Some("20.0.2"), InstallSource::PathEntry),
            install("/jdk19", Some("19.0.1"), InstallSource::PathEntry),
        ],
        errors: vec![],
    };
    // Tier 21 with no exact match: the highest leading version number wins.
    assert_eq!(summary.select_for_version("1.21.1").unwrap(), "/jdk20");
}

#[test]
fn fallback_without_parseable_versions_defaults_to_java() {
    let summary = DetectionSummary {
        installations: vec![install("/mystery", None, InstallSource::PathEntry)],
        errors: vec![],
    };
    assert_eq!(summary.select_for_version("1.21.1").unwrap(), "java");
    let empty = DetectionSummary { installations: vec![], errors: vec![] };
    assert_eq!(empty.select_for_version("1.21.1").unwrap(), "java");
}

#[test]
fn detection_dedups_by_normalized_path_preferring_user() {
    // Two candidates that normalize to the same canonical path: the
    // user-provided one is gathered first and wins the tie.
    let cands = vec![
        CandidateBinary {
            path: String::from("/home/me/jdk-link/bin/java"),
            normalized: String::from("/opt/jdk/bin/java"),
            source: InstallSource::UserProvided,
        },
        CandidateBinary {
            path: String::from("/opt/jdk/bin/java"),
            normalized: String::from("/opt/jdk/bin/java"),
            source: InstallSource::PathEntry,
        },
    ];
    let kept = dedup_candidates(&cands);
    assert_eq!(kept.len(), 1);
    assert!(matches!(kept[0].source, InstallSource::UserProvided));
    assert_eq!(kept[0].normalized, "/opt/jdk/bin/java");
}

#[test]
fn candidate_list_puts_user_path_first() {
    let config = JavaDetectionConfig {
        auto_discover: true,
        preferred_path: Some(String::from("/my/java")),
    };
    let cands = candidate_binaries(
        &config,
        Some(String::from("/java_home")),
        vec![String::from("/usr/bin")],
        vec![String::from("/usr/lib/jvm/default/bin/java")],
    );
    assert_eq!(cands.len(), 4);
    assert_eq!(cands[0].0, "/my/java");
    assert!(matches!(cands[0].1, InstallSource::UserProvided));
    assert!(matches!(cands[1].1, InstallSource::JavaHome));
    assert!(matches!(cands[2].1, InstallSource::PathEntry));
    assert!(matches!(cands[3].1, InstallSource::SystemLocation));

    let no_auto = JavaDetectionConfig {
        auto_discover: false,
        preferred_path: Some(String::from("/my/java")),
    };
    let only_user = candidate_binaries(&no_auto, None, vec![], vec![]);
    assert_eq!(only_user.len(), 1);
}

#[test]
fn probe_output_yields_version_and_vendor() {
    let stderr = b"openjdk version \"17.0.9\" 2023-10-17\nOpenJDK Runtime Environment Temurin-17\n".to_vec();
    let stdout = Vec::new();
    let meta = parse_java_metadata(&stderr, &stdout);
    assert_eq!(meta.version.as_deref(), Some("17.0.9"));
    assert_eq!(meta.vendor.as_deref(), Some("OpenJDK"));
}

#[test]
fn probe_output_falls_back_to_version_like_token() {
    let stderr = b"java full version 1.8.0_381-b09\n".to_vec();
    let stdout = Vec::new();
    let meta = parse_java_metadata(&stderr, &stdout);
    assert_eq!(meta.version.as_deref(), Some("1.8.0_38109"));
}

#[test]
fn strip_version_like_keeps_digits_dots_and_underscores() {
    assert_eq!(strip_version_like("1.8.0_381-b09").as_deref(), Some("1.8.0_38109"));
    assert_eq!(strip_version_like("nodigits.here"), None);
    assert_eq!(strip_version_like("17"), None);
    assert_eq!(strip_version_like("17.0.1").as_deref(), Some("17.0.1"));
}

#[test]
fn probe_builds_stable_identity_from_normalized_path() {
    let cand = CandidateBinary {
        path: String::from("/usr/bin/java"),
        normalized: String::from("/usr/lib/jvm/java-17/bin/java"),
        source: InstallSource::PathEntry,
    };
    let stderr = b"openjdk version \"17.0.2\"\n".to_vec();
    let inst = installation_from_probe(&cand, &stderr, &Vec::new());
    assert_eq!(inst.path, "/usr/lib/jvm/java-17/bin/java");
    assert_eq!(inst.version.as_deref(), Some("17.0.2"));
    assert_eq!(inst.id.len(), 36);
    assert_ne!(inst.id, inst.path);
    assert_eq!(inst.id.matches('-').count(), 4);

    let again = installation_from_probe(&cand, &stderr, &Vec::new());
    assert_eq!(inst.id, again.id);

    let other = CandidateBinary { normalized: String::from("/other/java"), ..cand };
    let other_inst = installation_from_probe(&other, &stderr, &Vec::new());
    assert_ne!(other_inst.id, inst.id);
}

#[test]
fn missing_binary_is_an_error_only_when_user_provided() {
    let mut summary = DetectionSummary { installations: vec![], errors: vec![] };
    let env_cand = CandidateBinary {
        path: String::from("/nope"),
        normalized: String::from("/nope"),
        source: InstallSource::PathEntry,
    };
    record_missing(&mut summary, &env_cand);
    assert!(summary.errors.is_empty());

    let user_cand = CandidateBinary {
        path: String::from("/nope"),
        normalized: String::from("/nope"),
        source: InstallSource::UserProvided,
    };
    record_missing(&mut summary, &user_cand);
    assert_eq!(summary.errors, vec![String::from("java binary not found at /nope")]);
}

#[test]
fn java_error_messages_name_their_subject() {
    assert_eq!(
        JavaError::BinaryMissing(String::from("/x/java")).message(),
        "java binary not found at /x/java"
    );
    assert_eq!(
        JavaError::Inspect { path: String::from("/x/java"), error: String::from("denied") }
            .message(),
        "failed to inspect java at \"/x/java\": denied"
    );
    assert_eq!(JavaError::Io(String::from("gone")).message(), "io error: gone");
}

#[test]
fn selection_is_repeatable_on_equal_inputs() {
    let summary = DetectionSummary {
        installations: vec![install("/jdk17", Some("17.0.1"), InstallSource::PathEntry)],
        errors: vec![],
    };
    let first = summary.select_for_version("1.20.1");
    let second = summary.select_for_version("1.20.1");
    assert_eq!(first, second);
    assert_eq!(summary.installations.len(), 1);
}
