use vstd::prelude::*;

verus! {

/// The persisted manifest: the pinned game version and the tracked mods.
#[derive(Clone, Debug)]
pub struct Options {
    pub version: String,
    pub mods: Vec<OptionMod>,
}

/// One tracked mod: its id and the artifact it is pinned to.
#[derive(Clone, Debug)]
pub struct OptionMod {
    pub id: String,
    pub url: String,
    pub filename: String,
}

/// The hits of a registry search.
#[derive(Clone, Debug)]
pub struct MinecraftMods {
    pub hits: Vec<MinecraftMod>,
}

/// One registry search hit.
#[derive(Clone, Debug)]
pub struct MinecraftMod {
    pub id: String,
    pub title: String,
    pub author: String,
    pub description: String,
}

/// One published release of a mod.
#[derive(Clone, Debug)]
pub struct ModVersion {
    pub game_versions: Vec<String>,
    pub version_number: String,
    pub version_type: String,
    pub loaders: Vec<String>,
    pub files: Vec<ModFile>,
}

/// A downloadable file.
#[derive(Clone, Debug)]
pub struct ModFile {
    pub url: String,
    pub filename: String,
}

/// Whether a mod that a query names is installed.
#[derive(Clone, Debug)]
pub enum ModState {
    Installed(String),
    Uninstalled(String),
}

} // verus!
