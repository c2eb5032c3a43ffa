use modrinth_cli::resolve::ResolveError;
use modrinth_cli::structs::{ModFile, ModVersion, OptionMod, Options};
use modrinth_cli::update::{apply_update, plan_update};

fn release(game: &str, name: &str) -> ModVersion {
    ModVersion {
        game_versions: vec![game.to_string()],
        version_number: "1.0.0".to_string(),
        version_type: "release".to_string(),
        loaders: vec!["fabric".to_string()],
        files: vec![ModFile {
            url: format!("https://cdn.example/{}", name),
            filename: name.to_string(),
        }],
    }
}

fn pinned_mod(id: &str, filename: &str) -> OptionMod {
    OptionMod {
        id: id.to_string(),
        url: format!("https://cdn.example/{}", filename),
        filename: filename.to_string(),
    }
}

fn three_mods() -> Options {
    Options {
        version: "1.20.1".to_string(),
        mods: vec![pinned_mod("a", "a-1.jar"), pinned_mod("b", "b-1.jar"), pinned_mod("c", "c-1.jar")],
    }
}

#[test]
fn second_failure_spares_first_and_third() {
    let options = three_mods();
    let fetched = vec![
        Some(vec![release("1.20.1", "a-2.jar")]),
        Some(vec![release("1.19.4", "b-2.jar")]),
        Some(vec![release("1.20.1", "c-2.jar")]),
    ];
    let plan = plan_update(&options, &fetched);
    assert_eq!(plan.pending.len(), 2);
    assert_eq!(plan.pending[0].index, 0);
    assert_eq!(plan.pending[0].id, "a");
    assert_eq!(plan.pending[0].old_filename, "a-1.jar");
    assert_eq!(plan.pending[0].new_file.filename, "a-2.jar");
    assert_eq!(plan.pending[1].index, 2);
    assert_eq!(plan.pending[1].new_file.filename, "c-2.jar");
    assert_eq!(plan.failures.len(), 1);
    assert_eq!(plan.failures[0].index, 1);
    assert!(matches!(plan.failures[0].error, ResolveError::NotFound { ref mod_id, .. } if mod_id == "b"));
}

#[test]
fn unfetched_releases_are_a_failure() {
    let options = three_mods();
    let fetched = vec![
        Some(vec![release("1.20.1", "a-2.jar")]),
        None,
        Some(vec![release("1.20.1", "c-1.jar")]),
    ];
    let plan = plan_update(&options, &fetched);
    assert_eq!(plan.pending.len(), 1);
    assert_eq!(plan.pending[0].index, 0);
    assert_eq!(plan.failures.len(), 1);
    assert!(matches!(plan.failures[0].error, ResolveError::Unavailable { ref mod_id } if mod_id == "b"));
}

#[test]
fn current_mods_need_no_update() {
    let options = three_mods();
    let fetched = vec![
        Some(vec![release("1.20.1", "a-1.jar")]),
        Some(vec![release("1.20.1", "b-1.jar")]),
        Some(vec![release("1.20.1", "c-1.jar")]),
    ];
    let plan = plan_update(&options, &fetched);
    assert!(plan.pending.is_empty());
    assert!(plan.failures.is_empty());
}

#[test]
fn second_plan_after_update_is_empty() {
    let mut options = three_mods();
    let fetched = vec![
        Some(vec![release("1.20.1", "a-2.jar")]),
        Some(vec![release("1.20.1", "b-1.jar")]),
        Some(vec![release("1.20.1", "c-2.jar")]),
    ];
    let plan = plan_update(&options, &fetched);
    assert_eq!(plan.pending.len(), 2);
    for p in &plan.pending {
        apply_update(&mut options, p);
    }
    assert_eq!(options.mods[0].filename, "a-2.jar");
    assert_eq!(options.mods[0].id, "a");
    assert_eq!(options.mods[1].filename, "b-1.jar");
    assert_eq!(options.mods[2].url, "https://cdn.example/c-2.jar");
    let again = plan_update(&options, &fetched);
    assert!(again.pending.is_empty());
    assert!(again.failures.is_empty());
}
