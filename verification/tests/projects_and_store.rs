use bevui_28::project::{
    contains_path, detect_project_type, file_extension, find_path, launch_command, project_name,
    spawn_failure_message, FolderEntry, FolderProbe, LaunchCommand, LauncherConfig, Project,
    ProjectType,
};
use bevui_28::store::{
    readme_url, search_error_message, store_item, store_search_url, top_repos, RepoSummary,
    SearchFailure, StoreGameItem, StoreGames,
};

fn entry(path: &str, is_file: bool, mode: Option<u32>, ext: Option<&str>) -> FolderEntry {
    FolderEntry {
        path: path.to_string(),
        is_file,
        mode,
        extension: ext.map(|e| e.to_string()),
    }
}

fn probe(entries: Vec<FolderEntry>, unix: bool) -> FolderProbe {
    FolderProbe { exists: true, is_dir: true, has_cargo_toml: false, entries, unix }
}

#[test]
fn missing_folder_is_invalid() {
    let p = FolderProbe { exists: false, is_dir: false, has_cargo_toml: true, entries: vec![], unix: true };
    assert_eq!(detect_project_type(&p), ProjectType::Invalid);
    let f = FolderProbe { exists: true, is_dir: false, has_cargo_toml: false, entries: vec![], unix: true };
    assert_eq!(detect_project_type(&f), ProjectType::Invalid);
}

#[test]
fn cargo_manifest_wins() {
    let mut p = probe(vec![entry("/g/run", true, Some(0o755), None)], true);
    p.has_cargo_toml = true;
    assert_eq!(detect_project_type(&p), ProjectType::Cargo);
}

#[test]
fn first_executable_is_taken() {
    let p = probe(
        vec![
            entry("/g/readme.md", true, Some(0o644), Some("md")),
            entry("/g/assets", false, Some(0o755), None),
            entry("/g/start.sh", true, Some(0o755), Some("sh")),
            entry("/g/Setup.PY", true, Some(0o755), Some("PY")),
            entry("/g/game", true, Some(0o700), None),
            entry("/g/other", true, Some(0o755), None),
        ],
        true,
    );
    assert_eq!(detect_project_type(&p), ProjectType::Executable("/g/game".to_string()));
}

#[test]
fn scripts_and_unreadable_files_are_not_games() {
    let p = probe(
        vec![
            entry("/g/a.JSON", true, Some(0o777), Some("JSON")),
            entry("/g/b.toml", true, Some(0o001), Some("toml")),
            entry("/g/c", true, None, None),
            entry("/g/d.txt", true, Some(0o111), Some("txt")),
        ],
        true,
    );
    assert_eq!(detect_project_type(&p), ProjectType::Invalid);
}

#[test]
fn executable_with_other_extension_is_a_game() {
    let p = probe(vec![entry("/g/game.x86_64", true, Some(0o010), Some("x86_64"))], true);
    assert_eq!(detect_project_type(&p), ProjectType::Executable("/g/game.x86_64".to_string()));
}

#[test]
fn exe_is_the_game_elsewhere() {
    let p = probe(
        vec![entry("/g/readme.txt", true, None, Some("txt")), entry("/g/Game.EXE", true, None, Some("EXE"))],
        false,
    );
    assert_eq!(detect_project_type(&p), ProjectType::Executable("/g/Game.EXE".to_string()));
    let q = probe(vec![entry("/g/game", true, Some(0o755), None)], false);
    assert_eq!(detect_project_type(&q), ProjectType::Invalid);
}

#[test]
fn cargo_project_runs_release_build() {
    assert_eq!(
        launch_command(&ProjectType::Cargo, "/g"),
        Ok(LaunchCommand {
            program: "cargo".to_string(),
            args: vec!["run".to_string(), "--release".to_string()],
            current_dir: "/g".to_string(),
        })
    );
}

#[test]
fn executable_runs_in_its_folder() {
    assert_eq!(
        launch_command(&ProjectType::Executable("/g/game".to_string()), "/g"),
        Ok(LaunchCommand { program: "/g/game".to_string(), args: vec![], current_dir: "/g".to_string() })
    );
}

#[test]
fn invalid_folder_cannot_launch() {
    assert_eq!(
        launch_command(&ProjectType::Invalid, "/g"),
        Err("No valid Cargo.toml or executable found in this folder. Please verify this is a Bevy game folder.".to_string())
    );
}

#[test]
fn spawn_failures_are_explained() {
    assert_eq!(
        spawn_failure_message(&ProjectType::Cargo, "not found"),
        "Failed to spawn cargo run: not found"
    );
    assert_eq!(
        spawn_failure_message(&ProjectType::Executable("/g/game".to_string()), "denied"),
        "Failed to spawn executable (/g/game): denied"
    );
}

#[test]
fn project_names_fall_back() {
    assert_eq!(project_name(Some("shooter".to_string())), "shooter");
    assert_eq!(project_name(None), "Unknown Game");
}

fn project(name: &str, path: &str, last: Option<u64>) -> Project {
    Project { name: name.to_string(), path: path.to_string(), last_launched: last }
}

#[test]
fn paths_are_found() {
    let ps = vec![project("a", "/a", None), project("b", "/b", None), project("b2", "/b", Some(3))];
    assert!(contains_path(&ps, "/b"));
    assert!(!contains_path(&ps, "/c"));
    assert_eq!(find_path(&ps, "/b"), Some(1));
    assert_eq!(find_path(&ps, "/c"), None);
    let empty: LauncherConfig = Default::default();
    assert!(empty.projects.is_empty());
}

fn repo(name: &str, description: Option<&str>) -> RepoSummary {
    RepoSummary {
        name: name.to_string(),
        html_url: format!("https://github.com/owner/{}", name),
        description: description.map(|d| d.to_string()),
        stargazers_count: 42,
        owner_login: "owner".to_string(),
    }
}

#[test]
fn store_lists_first_five() {
    let repos: Vec<RepoSummary> = (0..7).map(|i| repo(&format!("g{}", i), None)).collect();
    let top = top_repos(repos);
    assert_eq!(top.len(), 5);
    assert_eq!(top[4].name, "g4");
    let few = top_repos(vec![repo("x", None)]);
    assert_eq!(few.len(), 1);
}

#[test]
fn store_addresses() {
    assert_eq!(readme_url("bevyengine", "breakout"), "https://api.github.com/repos/bevyengine/breakout/readme");
    assert_eq!(
        store_search_url(),
        "https://api.github.com/search/repositories?q=topic:bevy+topic:game&sort=stars&order=desc"
    );
}

#[test]
fn store_item_prefers_readme() {
    let item = store_item(&repo("g", Some("From GitHub")), Some("# G\nA fun game.\n")).unwrap();
    assert_eq!(
        item,
        StoreGameItem {
            name: "g".to_string(),
            owner: "owner".to_string(),
            description: "A fun game.".to_string(),
            stars: 42,
            url: "https://github.com/owner/g".to_string(),
        }
    );
}

#[test]
fn store_item_falls_back_to_description() {
    let item = store_item(&repo("g", Some("From GitHub")), Some("# Only a title\n")).unwrap();
    assert_eq!(item.description, "From GitHub");
    let item = store_item(&repo("g", Some("From GitHub")), None).unwrap();
    assert_eq!(item.description, "From GitHub");
}

#[test]
fn store_item_without_any_description() {
    let item = store_item(&repo("g", None), None).unwrap();
    assert_eq!(item.description, "No description provided.");
    let item = store_item(&repo("g", Some("")), Some("")).unwrap();
    assert_eq!(item.description, "No description provided.");
}

#[test]
fn store_item_with_uncuttable_readme() {
    let text = "é".repeat(100);
    assert_eq!(store_item(&repo("g", None), Some(&text)), None);
}

#[test]
fn search_errors_are_explained() {
    assert_eq!(search_error_message(SearchFailure::Network, "timeout"), "Network Error: timeout");
    assert_eq!(search_error_message(SearchFailure::Parse, "eof"), "JSON Parse Error: eof");
}

#[test]
fn search_result_ends_loading() {
    let mut store = StoreGames::searching();
    assert!(store.loading);
    store.apply_search_result(Err("Network Error: x".to_string()));
    assert!(!store.loading);
    assert_eq!(store.error, Some("Network Error: x".to_string()));
    let item = store_item(&repo("g", None), None).unwrap();
    store.apply_search_result(Ok(vec![item.clone()]));
    assert_eq!(store.error, None);
    assert_eq!(store.items, vec![item.clone()]);
    store.apply_search_result(Err("later".to_string()));
    assert_eq!(store.items, vec![item]);
    let idle: StoreGames = Default::default();
    assert!(!idle.loading);
}

#[test]
fn file_extensions_follow_the_last_dot() {
    assert_eq!(file_extension("game.exe"), Some("exe".to_string()));
    assert_eq!(file_extension("archive.tar.gz"), Some("gz".to_string()));
    assert_eq!(file_extension("run"), None);
    assert_eq!(file_extension(".bashrc"), None);
    assert_eq!(file_extension(".config.toml"), Some("toml".to_string()));
    assert_eq!(file_extension("name."), Some("".to_string()));
    assert_eq!(file_extension(".."), None);
    assert_eq!(file_extension("."), None);
    assert_eq!(file_extension(""), None);
}

#[test]
fn project_paths_compare_by_components() {
    let ps = vec![project("a", "/g/a/", None), project("b", "/g//b", None)];
    assert!(contains_path(&ps, "/g/a"));
    assert!(contains_path(&ps, "/g/./b/"));
    assert!(!contains_path(&ps, "/g/c"));
    assert_eq!(find_path(&ps, "/g/b"), Some(1));
}
