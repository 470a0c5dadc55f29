//! Data carried between the version services, the loader installer and the
//! launch command builder.

use vstd::prelude::*;

verus! {

/// The release channel of a game version.
#[derive(Debug, Clone, Copy, PartialEq, Eq, Structural)]
pub enum VersionType {
    Release,
    Snapshot,
    OldBeta,
    OldAlpha,
    Unknown,
}

/// One entry of the global version manifest.
#[derive(Debug, Clone)]
pub struct VanillaVersion {
    pub id: String,
    pub type_: VersionType,
    pub url: String,
    pub time: String,
    pub release_time: String,
}

/// The global version manifest: the newest ids and every known version.
#[derive(Debug, Clone)]
pub struct VersionManifestV2 {
    pub latest: LatestVersions,
    pub versions: Vec<VanillaVersion>,
}

#[derive(Debug, Clone)]
pub struct LatestVersions {
    pub release: String,
    pub snapshot: String,
}

/// One Fabric loader build as the metadata service lists it.
#[derive(Debug, Clone)]
pub struct FabricLoaderVersion {
    pub separator: String,
    pub build: i32,
    pub maven: String,
    pub version: String,
    pub stable: bool,
}

/// One game version as the Fabric metadata service lists it.
#[derive(Debug, Clone)]
pub struct FabricGameVersion {
    pub version: String,
    pub stable: bool,
}

/// The one normalized product of every loader installation strategy: the
/// entry class, the extra libraries, and the extra JVM and game arguments the
/// launch command builder appends.
#[derive(Debug, Clone)]
pub struct LoaderProfile {
    pub main_class: String,
    pub libraries: Vec<LoaderLibrary>,
    pub jvm_args: Vec<String>,
    pub game_args: Vec<String>,
}

/// A loader library: its Maven coordinate and the repository it downloads
/// from, when the profile names one.
#[derive(Debug, Clone)]
pub struct LoaderLibrary {
    pub name: String,
    pub url: Option<String>,
}

/// One Quilt loader build as the metadata service lists it.
#[derive(Debug, Clone)]
pub struct QuiltLoaderVersion {
    pub version: String,
}

/// The installer archive's embedded install script: processors to run in
/// order, libraries to fetch, and named data values for token substitution.
#[derive(Debug, Clone)]
pub struct ForgeInstallProfile {
    pub processors: Vec<ForgeProcessor>,
    pub libraries: Vec<ForgeLibEntry>,
    pub data: Vec<(String, ForgeDataEntry)>,
    pub minecraft: String,
}

/// One processor: its own jar, its classpath, its argument tokens, and the
/// sides it applies to (absent means every side).
#[derive(Debug, Clone)]
pub struct ForgeProcessor {
    pub jar: String,
    pub classpath: Vec<String>,
    pub args: Vec<String>,
    pub sides: Option<Vec<String>>,
}

/// A data entry's values for the client and the server side.
#[derive(Debug, Clone)]
pub struct ForgeDataEntry {
    pub client: String,
    pub server: String,
}

/// A library the installer references, with an optional direct download.
#[derive(Debug, Clone)]
pub struct ForgeLibEntry {
    pub name: String,
    pub downloads: Option<ForgeLibDownloads>,
}

#[derive(Debug, Clone)]
pub struct ForgeLibDownloads {
    pub artifact: Option<ForgeArtifact>,
}

#[derive(Debug, Clone)]
pub struct ForgeArtifact {
    pub url: String,
    pub path: String,
    pub sha1: Option<String>,
}

/// The installer's embedded version document: what the patched game launches
/// with.
#[derive(Debug, Clone)]
pub struct ForgeVersionJson {
    pub main_class: String,
    pub libraries: Vec<ForgeLibEntry>,
    pub arguments: Option<ForgeArguments>,
}

/// An argument as the version document lists it: a plain string, or a
/// structured rule object that the client-side translation drops.
#[derive(Debug, Clone)]
pub enum ForgeArgValue {
    Text(String),
    Structured,
}

#[derive(Debug, Clone)]
pub struct ForgeArguments {
    pub game: Option<Vec<ForgeArgValue>>,
    pub jvm: Option<Vec<ForgeArgValue>>,
}

} // verus!
