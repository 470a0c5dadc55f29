//! Launch preparation and loader installation logic for a moddable game
//! client: Maven-coordinate resolution, Java runtime selection, asset and
//! library resolution planning, and the Forge/NeoForge processor engine.

pub mod account;
pub mod archive;
pub mod assets;
pub mod codec;
pub mod config;
pub mod detection;
pub mod forge;
pub mod instance;
pub mod launch;
pub mod loaders;
pub mod manifest;
pub mod maven;
pub mod metadata;
pub mod models;
pub mod probe;
pub mod resolver;
pub mod settings;
pub mod text;
pub mod versions;
