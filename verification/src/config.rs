//! The launcher's global configuration: profile defaults, Java defaults and
//! account settings. Persistence lives outside this crate; these are the
//! values and their migration rule.

use vstd::prelude::*;

verus! {

pub const CONFIG_VERSION: u32 = 2;

/// Profile selection defaults.
#[derive(Debug, Clone)]
pub struct ProfilesConfig {
    pub default_profile: Option<String>,
    pub instances_dir: Option<String>,
}

impl Default for ProfilesConfig {
    fn default() -> (r: Self)
        ensures
            r.default_profile is None,
            r.instances_dir is None,
    {
        ProfilesConfig { default_profile: None, instances_dir: None }
    }
}

/// A remembered Java installation from an earlier detection pass: a display
/// seed, not authoritative state.
#[derive(Debug, Clone)]
pub struct JavaInstallationRecord {
    pub id: String,
    pub path: String,
    pub version: Option<String>,
    pub vendor: Option<String>,
}

/// Global Java defaults: the preferred binary, whether to auto-discover,
/// memory bounds and extra JVM arguments.
#[derive(Debug, Clone)]
pub struct JavaConfig {
    pub java_path: Option<String>,
    pub auto_discover: bool,
    pub min_memory_mb: u32,
    pub max_memory_mb: u32,
    pub extra_jvm_args: Vec<String>,
    pub detected_installations: Vec<JavaInstallationRecord>,
}

impl Default for JavaConfig {
    fn default() -> (r: Self)
        ensures
            r.java_path is None,
            r.auto_discover,
            r.min_memory_mb == 1024,
            r.max_memory_mb == 4096,
            r.extra_jvm_args@.len() == 0,
            r.detected_installations@.len() == 0,
    {
        JavaConfig {
            java_path: None,
            auto_discover: true,
            min_memory_mb: 1024,
            max_memory_mb: 4096,
            extra_jvm_args: Vec::new(),
            detected_installations: Vec::new(),
        }
    }
}

/// Account-related settings.
#[derive(Debug, Clone)]
pub struct AccountsConfig {
    pub microsoft_client_id: Option<String>,
    pub allow_offline: bool,
    pub store_path: Option<String>,
}

impl Default for AccountsConfig {
    fn default() -> (r: Self)
        ensures
            r.microsoft_client_id is None,
            r.allow_offline,
            r.store_path is None,
    {
        AccountsConfig { microsoft_client_id: None, allow_offline: true, store_path: None }
    }
}

/// The whole configuration document.
#[derive(Debug, Clone)]
pub struct FastmcConfig {
    pub version: u32,
    pub profiles: ProfilesConfig,
    pub java: JavaConfig,
    pub accounts: AccountsConfig,
}

impl Default for FastmcConfig {
    fn default() -> (r: Self)
        ensures
            r.version == CONFIG_VERSION,
            r.profiles.default_profile is None,
            r.java.auto_discover,
            r.java.min_memory_mb == 1024,
            r.java.max_memory_mb == 4096,
            r.accounts.allow_offline,
    {
        FastmcConfig {
            version: CONFIG_VERSION,
            profiles: ProfilesConfig::default(),
            java: JavaConfig::default(),
            accounts: AccountsConfig::default(),
        }
    }
}

/// Lifts a loaded document to the current version; nothing else changes.
pub fn migrate(config: &mut FastmcConfig)
    ensures
        final(config).version == (if old(config).version < CONFIG_VERSION {
            CONFIG_VERSION
        } else {
            old(config).version
        }),
        final(config).profiles == old(config).profiles,
        final(config).java == old(config).java,
        final(config).accounts == old(config).accounts,
{
    if config.version < CONFIG_VERSION {
        config.version = CONFIG_VERSION;
    }
}

} // verus!
