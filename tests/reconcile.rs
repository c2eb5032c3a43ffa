use modrinth_cli::reconcile::{
    already_installed, classify_id, find_mod, first_containing, first_equal, normalize_hits,
    record_install, remove_mod, missing_files,
};
use modrinth_cli::structs::{MinecraftMod, MinecraftMods, ModFile, ModState, OptionMod, Options};
use modrinth_cli::text::{contains_text, normalize_id};

fn pinned_mod(id: &str, filename: &str) -> OptionMod {
    OptionMod {
        id: id.to_string(),
        url: format!("https://cdn.example/{}", filename),
        filename: filename.to_string(),
    }
}

fn manifest(mods: Vec<OptionMod>) -> Options {
    Options { version: "1.20.1".to_string(), mods }
}

fn hit(id: &str, title: &str) -> MinecraftMod {
    MinecraftMod {
        id: id.to_string(),
        title: title.to_string(),
        author: "someone".to_string(),
        description: "a mod".to_string(),
    }
}

#[test]
fn normalizes_local_prefix() {
    assert_eq!(normalize_id("local-abc123"), "abc123");
    assert_eq!(normalize_id("abc123"), "abc123");
    assert_eq!(normalize_id("local-"), "");
    assert_eq!(normalize_id("xlocal-abc"), "xlocal-abc");
}

#[test]
fn normalizes_every_hit() {
    let mut mods = MinecraftMods { hits: vec![hit("local-abc123", "Abc"), hit("def", "Def")] };
    normalize_hits(&mut mods);
    assert_eq!(mods.hits[0].id, "abc123");
    assert_eq!(mods.hits[0].title, "Abc");
    assert_eq!(mods.hits[1].id, "def");
}

#[test]
fn normalized_id_compares_with_manifest() {
    let options = manifest(vec![pinned_mod("abc123", "abc.jar")]);
    let mut mods = MinecraftMods { hits: vec![hit("local-abc123", "Abc")] };
    normalize_hits(&mut mods);
    let r = find_mod("abc", &mods, &options, &vec![true]);
    assert!(matches!(r, Some(ModState::Installed(ref s)) if s == "abc123"));
}

#[test]
fn deleted_file_is_uninstalled() {
    let options = manifest(vec![pinned_mod("sodium", "sodium.jar")]);
    let r = classify_id(&"sodium".to_string(), &options, &vec![false]);
    assert!(matches!(r, ModState::Uninstalled(ref s) if s == "sodium"));
    let r = classify_id(&"sodium".to_string(), &options, &vec![true]);
    assert!(matches!(r, ModState::Installed(ref s) if s == "sodium"));
}

#[test]
fn untracked_is_not_installed() {
    let options = manifest(vec![pinned_mod("sodium", "sodium.jar")]);
    assert!(!already_installed(&"lithium".to_string(), &options, &vec![true]));
    assert!(already_installed(&"sodium".to_string(), &options, &vec![true]));
}

#[test]
fn single_hit_is_classified() {
    let options = manifest(vec![pinned_mod("sodium", "sodium.jar")]);
    let mods = MinecraftMods { hits: vec![hit("sodium", "Sodium")] };
    let r = find_mod("whatever", &mods, &options, &vec![false]);
    assert!(matches!(r, Some(ModState::Uninstalled(ref s)) if s == "sodium"));
}

#[test]
fn title_match_ignores_case() {
    let options = manifest(vec![pinned_mod("lithium", "lithium.jar")]);
    let mods = MinecraftMods {
        hits: vec![hit("sodium-extra", "Sodium Extra"), hit("lithium", "Lithium")],
    };
    let r = find_mod("LITHIUM", &mods, &options, &vec![true]);
    assert!(matches!(r, Some(ModState::Installed(ref s)) if s == "lithium"));
}

#[test]
fn ambiguous_hits_give_nothing() {
    let options = manifest(vec![]);
    let mods = MinecraftMods { hits: vec![hit("a", "Alpha"), hit("b", "Beta")] };
    assert!(find_mod("gamma", &mods, &options, &vec![]).is_none());
    let none = MinecraftMods { hits: vec![] };
    assert!(find_mod("gamma", &none, &options, &vec![]).is_none());
}

#[test]
fn remove_by_substring() {
    let mut options =
        manifest(vec![pinned_mod("sodium", "sodium-0.5.jar"), pinned_mod("lithium", "lithium-0.4.jar")]);
    let removed = remove_mod(&mut options, "lith").unwrap();
    assert_eq!(removed.filename, "lithium-0.4.jar");
    assert_eq!(options.mods.len(), 1);
    assert_eq!(options.mods[0].filename, "sodium-0.5.jar");
    assert_eq!(options.version, "1.20.1");
}

#[test]
fn remove_ignores_case() {
    let mut options = manifest(vec![pinned_mod("sodium", "Sodium-0.5.jar")]);
    let removed = remove_mod(&mut options, "SODIUM").unwrap();
    assert_eq!(removed.id, "sodium");
    assert!(options.mods.is_empty());
}

#[test]
fn remove_without_match_keeps_manifest() {
    let mut options = manifest(vec![pinned_mod("sodium", "sodium-0.5.jar")]);
    assert!(remove_mod(&mut options, "iris").is_none());
    assert_eq!(options.mods.len(), 1);
}

#[test]
fn remove_takes_first_match_only() {
    let mut options = manifest(vec![pinned_mod("a", "lib-a.jar"), pinned_mod("b", "lib-b.jar")]);
    let removed = remove_mod(&mut options, "lib").unwrap();
    assert_eq!(removed.id, "a");
    assert_eq!(options.mods[0].id, "b");
}

#[test]
fn substring_search() {
    assert!(contains_text("lithium-0.4.jar", "lith"));
    assert!(contains_text("lithium-0.4.jar", ".jar"));
    assert!(contains_text("abc", ""));
    assert!(!contains_text("sodium-0.5.jar", "lith"));
    assert!(!contains_text("ab", "abc"));
    assert_eq!(first_containing("b", &vec!["aaa".to_string(), "abc".to_string()]), Some(1));
    assert_eq!(first_equal("abc", &vec!["x".to_string(), "abc".to_string()]), Some(1));
    assert_eq!(first_equal("q", &vec!["x".to_string()]), None);
}

#[test]
fn install_appends_new_mod() {
    let mut options = manifest(vec![pinned_mod("sodium", "sodium.jar")]);
    let f = ModFile { url: "https://cdn.example/iris.jar".to_string(), filename: "iris.jar".to_string() };
    record_install(&mut options, &"iris".to_string(), &f);
    assert_eq!(options.mods.len(), 2);
    assert_eq!(options.mods[1].id, "iris");
    assert_eq!(options.mods[1].filename, "iris.jar");
}

#[test]
fn install_repins_tracked_mod() {
    let mut options = manifest(vec![pinned_mod("sodium", "sodium-0.4.jar")]);
    let f = ModFile {
        url: "https://cdn.example/sodium-0.5.jar".to_string(),
        filename: "sodium-0.5.jar".to_string(),
    };
    record_install(&mut options, &"sodium".to_string(), &f);
    assert_eq!(options.mods.len(), 1);
    assert_eq!(options.mods[0].filename, "sodium-0.5.jar");
    assert_eq!(options.mods[0].url, "https://cdn.example/sodium-0.5.jar");
}

#[test]
fn pack_downloads_missing_files() {
    assert_eq!(missing_files(&vec![true, false, true, false]), vec![1, 3]);
    assert!(missing_files(&vec![true]).is_empty());
    assert!(missing_files(&vec![]).is_empty());
}
