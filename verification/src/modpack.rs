//! The manifest of a CurseForge modpack.
use vstd::prelude::*;

verus! {

/// A modpack manifest: the Minecraft version and loaders it needs and the
/// files it is made of.
pub struct ModpackManifest {
    pub minecraft: Option<MinecraftBlock>,
    pub manifest_type: String,
    pub manifest_version: u32,
    pub name: String,
    pub version: String,
    pub author: Option<String>,
    pub files: Vec<ManifestFile>,
    pub overrides: Option<String>,
}

/// The Minecraft version of a modpack and its mod loaders.
pub struct MinecraftBlock {
    pub version: String,
    pub mod_loaders: Vec<ModLoader>,
}

/// A mod loader, and whether it is the primary one.
pub struct ModLoader {
    pub id: String,
    pub primary: bool,
}

/// A file of a modpack, by project and file id.
#[derive(Debug, Clone, Copy, PartialEq, Eq)]
pub struct ManifestFile {
    pub project_id: u64,
    pub file_id: u64,
    pub required: bool,
}

/// Whether a manifest file that does not say is required: it is.
pub fn default_required() -> (r: bool)
    ensures
        r,
{
    true
}

} // verus!
