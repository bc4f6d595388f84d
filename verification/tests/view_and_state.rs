use bevui_28::project::{LauncherConfig, Project, ProjectStatus};
use bevui_28::state::{window_visible, Effect, ExitOutcome, LaunchOutcome, LauncherState};
use bevui_28::store::{StoreGameItem, StoreGames};
use bevui_28::tables::{ActiveDownloads, StatusTable};
use bevui_28::ui::{
    badge_label, download_badge, list_view, paint_button, paint_card, primary_action,
    recent_project_order, tab_button_paint, ActiveTab, ButtonAction, ButtonType, DownloadBadge,
    Interaction, ListView, Paint, PrimaryAction, ProjectCardView, Swatch, UiConfig,
};

fn project(name: &str, path: &str, last: Option<u64>) -> Project {
    Project { name: name.to_string(), path: path.to_string(), last_launched: last }
}

fn game(name: &str) -> StoreGameItem {
    StoreGameItem {
        name: name.to_string(),
        owner: "o".to_string(),
        description: "d".to_string(),
        stars: 7,
        url: format!("https://github.com/o/{}", name),
    }
}

#[test]
fn recent_order_most_recent_first() {
    let ps = vec![
        project("a", "/a", Some(10)),
        project("b", "/b", None),
        project("c", "/c", Some(30)),
        project("d", "/d", Some(10)),
        project("e", "/e", Some(0)),
        project("f", "/f", Some(20)),
        project("g", "/g", None),
    ];
    assert_eq!(recent_project_order(&ps), vec![2, 5, 0, 3, 1]);
}

#[test]
fn recent_order_of_short_history() {
    let ps = vec![project("a", "/a", None), project("b", "/b", Some(1))];
    assert_eq!(recent_project_order(&ps), vec![1, 0]);
    assert_eq!(recent_project_order(&vec![]), Vec::<usize>::new());
}

#[test]
fn status_table_keeps_one_status_per_path() {
    let mut t = StatusTable::new();
    assert_eq!(t.get("/a"), None);
    assert_eq!(t.status_of("/a"), ProjectStatus::Idle);
    t.set("/a".to_string(), ProjectStatus::Running);
    t.set("/b".to_string(), ProjectStatus::Invalid);
    t.set("/a".to_string(), ProjectStatus::FailedLaunch);
    assert_eq!(t.get("/a"), Some(ProjectStatus::FailedLaunch));
    assert_eq!(t.get("/b"), Some(ProjectStatus::Invalid));
    t.remove("/a");
    assert_eq!(t.get("/a"), None);
    assert_eq!(t.get("/b"), Some(ProjectStatus::Invalid));
    t.remove("/zzz");
    assert_eq!(t.get("/b"), Some(ProjectStatus::Invalid));
}

#[test]
fn status_table_reads_any_spelling_of_a_path() {
    let mut t = StatusTable::new();
    t.set("/g/x/".to_string(), ProjectStatus::Running);
    assert_eq!(t.get("/g/x"), Some(ProjectStatus::Running));
    assert_eq!(t.status_of("/g//./x"), ProjectStatus::Running);
    t.set("/g/x".to_string(), ProjectStatus::Idle);
    assert_eq!(t.get("/g/x/"), Some(ProjectStatus::Idle));
    t.remove("/g/./x");
    assert_eq!(t.get("/g/x"), None);
}

#[test]
fn picked_folder_spelled_otherwise_is_not_added_twice() {
    let config = LauncherConfig { projects: vec![project("x", "/g/x/", None)] };
    let mut state = LauncherState::new(config, ActiveTab::MyGames);
    let effects = state.add_picked_folder("/g/x".to_string(), Some("x".to_string()), true);
    assert_eq!(state.config.projects.len(), 1);
    assert_eq!(state.config.projects[0].path, "/g/x/");
    assert!(!effects.contains(&Effect::SaveConfig));
    let effects = state.add_picked_folder("/g/y".to_string(), Some("y".to_string()), true);
    assert_eq!(state.config.projects.len(), 2);
    assert!(effects.contains(&Effect::SaveConfig));
}

#[test]
fn downloads_are_a_set() {
    let mut d = ActiveDownloads::new();
    assert!(!d.contains("g"));
    d.insert("g".to_string());
    d.insert("g".to_string());
    d.insert("h".to_string());
    assert!(d.contains("g"));
    d.remove("g");
    assert!(!d.contains("g"));
    assert!(d.contains("h"));
}

#[test]
fn list_of_empty_history() {
    let store = StoreGames::default();
    let view = list_view(ActiveTab::MyGames, &vec![], &StatusTable::new(), &store, &vec![], &ActiveDownloads::new());
    assert_eq!(view, ListView::NoProjects);
}

#[test]
fn list_of_projects_with_statuses() {
    let ps = vec![project("a", "/a", Some(1)), project("b", "/b", Some(5))];
    let mut t = StatusTable::new();
    t.set("/a".to_string(), ProjectStatus::Running);
    let view = list_view(ActiveTab::MyGames, &ps, &t, &StoreGames::default(), &vec![], &ActiveDownloads::new());
    assert_eq!(
        view,
        ListView::Projects(vec![
            ProjectCardView { name: "b".to_string(), path: "/b".to_string(), status: ProjectStatus::Idle },
            ProjectCardView { name: "a".to_string(), path: "/a".to_string(), status: ProjectStatus::Running },
        ])
    );
}

#[test]
fn list_of_store_states() {
    let ps = vec![];
    let t = StatusTable::new();
    let d = ActiveDownloads::new();
    assert_eq!(list_view(ActiveTab::Store, &ps, &t, &StoreGames::searching(), &vec![], &d), ListView::StoreLoading);
    let failed = StoreGames { items: vec![game("x")], loading: false, error: Some("boom".to_string()) };
    assert_eq!(
        list_view(ActiveTab::Store, &ps, &t, &failed, &vec![false], &d),
        ListView::StoreFailed("boom".to_string())
    );
    assert_eq!(list_view(ActiveTab::Store, &ps, &t, &StoreGames::default(), &vec![], &d), ListView::StoreEmpty);
}

#[test]
fn list_of_store_games() {
    let items: Vec<StoreGameItem> = (0..6).map(|i| game(&format!("g{}", i))).collect();
    let store = StoreGames { items, loading: false, error: None };
    let mut d = ActiveDownloads::new();
    d.insert("g1".to_string());
    d.insert("g2".to_string());
    let downloaded = vec![true, false, true, false, false, false];
    match list_view(ActiveTab::Store, &vec![], &StatusTable::new(), &store, &downloaded, &d) {
        ListView::StoreCards(cards) => {
            assert_eq!(cards.len(), 5);
            assert_eq!(cards[0].badge, DownloadBadge::InLibrary);
            assert_eq!(cards[1].badge, DownloadBadge::Installing);
            assert_eq!(cards[2].badge, DownloadBadge::InLibrary);
            assert_eq!(cards[3].badge, DownloadBadge::Download);
            assert_eq!(cards[3].name, "g3");
            assert_eq!(cards[3].stars, 7);
        }
        other => panic!("unexpected {:?}", other),
    }
}

#[test]
fn badges_and_actions() {
    assert_eq!(download_badge(true, true), DownloadBadge::InLibrary);
    assert_eq!(download_badge(false, true), DownloadBadge::Installing);
    assert_eq!(download_badge(false, false), DownloadBadge::Download);
    assert_eq!(primary_action(ProjectStatus::Running), PrimaryAction::Stop);
    assert_eq!(primary_action(ProjectStatus::FailedLaunch), PrimaryAction::Launch);
    assert_eq!(badge_label(ProjectStatus::FailedLaunch), "Failed");
    assert_eq!(badge_label(ProjectStatus::Idle), "Idle");
    assert_eq!(badge_label(ProjectStatus::Running), "Running");
    assert_eq!(badge_label(ProjectStatus::Invalid), "Invalid");
}

#[test]
fn button_colours() {
    assert_eq!(
        paint_button(ButtonType::Launch, Interaction::Hovered, ActiveTab::MyGames),
        Paint { fill: Some(Swatch::GreenHover), border: None }
    );
    assert_eq!(
        paint_button(ButtonType::Quit, Interaction::Pressed, ActiveTab::MyGames),
        Paint { fill: Some(Swatch::RedPressed), border: None }
    );
    assert_eq!(
        paint_button(ButtonType::Delete, Interaction::Away, ActiveTab::Store),
        Paint { fill: Some(Swatch::DeleteFill), border: Some(Swatch::DeleteEdge) }
    );
    assert_eq!(
        paint_button(ButtonType::Tab(ActiveTab::Store), Interaction::Hovered, ActiveTab::MyGames),
        Paint { fill: Some(Swatch::TabIdleHover), border: Some(Swatch::CyanSoft) }
    );
    assert_eq!(
        paint_button(ButtonType::Tab(ActiveTab::Store), Interaction::Pressed, ActiveTab::Store),
        Paint { fill: Some(Swatch::BluePressed), border: None }
    );
    assert_eq!(paint_card(Interaction::Hovered), Swatch::CyanSoft);
    assert_eq!(paint_card(Interaction::Away), Swatch::Outline);
}

#[test]
fn tab_colours_agree() {
    for tab in [ActiveTab::MyGames, ActiveTab::Store] {
        for active in [ActiveTab::MyGames, ActiveTab::Store] {
            assert_eq!(tab_button_paint(tab, active), paint_button(ButtonType::Tab(tab), Interaction::Away, active));
        }
    }
    assert_eq!(
        tab_button_paint(ActiveTab::MyGames, ActiveTab::MyGames),
        Paint { fill: Some(Swatch::Blue), border: Some(Swatch::Cyan) }
    );
}

fn state_with(projects: Vec<Project>) -> LauncherState {
    LauncherState::new(LauncherConfig { projects }, ActiveTab::MyGames)
}

#[test]
fn startup_marks_invalid_folders() {
    let mut s = state_with(vec![project("a", "/a", None), project("b", "/b", None)]);
    let fx = s.init_statuses(&vec![true, false]);
    assert_eq!(fx, vec![Effect::Refresh]);
    assert_eq!(s.statuses.get("/a"), Some(ProjectStatus::Idle));
    assert_eq!(s.statuses.get("/b"), Some(ProjectStatus::Invalid));
}

#[test]
fn simple_buttons() {
    let mut s = state_with(vec![]);
    assert_eq!(s.press(ButtonAction::SelectFolder), vec![Effect::PickFolder]);
    assert_eq!(s.press(ButtonAction::Launch("/a".to_string())), vec![Effect::Launch("/a".to_string())]);
    assert_eq!(s.press(ButtonAction::OpenUrl("u".to_string())), vec![Effect::OpenUrl("u".to_string())]);
    assert_eq!(s.press(ButtonAction::Quit), vec![Effect::Exit]);
}

#[test]
fn launch_then_stop() {
    let mut s = state_with(vec![project("a", "/a", None), project("a2", "/a", Some(1))]);
    let fx = s.finish_launch("/a".to_string(), LaunchOutcome::Started { now: 99 });
    assert_eq!(fx, vec![Effect::SaveConfig, Effect::Refresh]);
    assert_eq!(s.statuses.get("/a"), Some(ProjectStatus::Running));
    assert_eq!(s.config.projects[0].last_launched, Some(99));
    assert_eq!(s.config.projects[1].last_launched, Some(1));
    let fx = s.press(ButtonAction::Stop("/a".to_string()));
    assert_eq!(fx, vec![Effect::Kill("/a".to_string()), Effect::Refresh]);
    assert_eq!(s.statuses.get("/a"), Some(ProjectStatus::Idle));
}

#[test]
fn failed_launch_is_shown() {
    let mut s = state_with(vec![project("a", "/a", None)]);
    let fx = s.finish_launch("/a".to_string(), LaunchOutcome::Failed);
    assert_eq!(fx, vec![Effect::Refresh]);
    assert_eq!(s.statuses.get("/a"), Some(ProjectStatus::FailedLaunch));
    assert_eq!(s.config.projects[0].last_launched, None);
}

#[test]
fn delete_removes_every_copy() {
    let mut s = state_with(vec![project("a", "/a", None), project("b", "/b", None), project("a2", "/a", None)]);
    s.statuses.set("/a".to_string(), ProjectStatus::Running);
    let fx = s.press(ButtonAction::Delete("/a".to_string()));
    assert_eq!(fx, vec![Effect::Kill("/a".to_string()), Effect::SaveConfig, Effect::Refresh]);
    assert_eq!(s.config.projects, vec![project("b", "/b", None)]);
    assert_eq!(s.statuses.get("/a"), None);
}

#[test]
fn switching_tab_is_saved() {
    let mut s = state_with(vec![]);
    let fx = s.press(ButtonAction::SwitchTab(ActiveTab::Store));
    assert_eq!(s.active_tab, ActiveTab::Store);
    assert_eq!(fx, vec![Effect::Refresh, Effect::SaveUiConfig(UiConfig { active_tab: ActiveTab::Store })]);
    assert_eq!(UiConfig::default().active_tab, ActiveTab::MyGames);
}

#[test]
fn download_runs_once() {
    let mut s = state_with(vec![]);
    let act = || ButtonAction::Download { name: "g".to_string(), url: "https://x/g".to_string() };
    let fx = s.press(act());
    assert_eq!(
        fx,
        vec![Effect::StartDownload { name: "g".to_string(), url: "https://x/g".to_string() }, Effect::Refresh]
    );
    assert!(s.downloads.contains("g"));
    assert_eq!(s.press(act()), vec![]);
}

#[test]
fn at_most_one_download_job_per_game() {
    let mut s = state_with(vec![]);
    let mut in_flight: Vec<String> = Vec::new();
    let take = |fx: Vec<Effect>, in_flight: &mut Vec<String>| {
        for e in fx {
            if let Effect::StartDownload { name, .. } = e {
                in_flight.push(name);
            }
        }
    };
    let press = |n: &str| ButtonAction::Download { name: n.to_string(), url: format!("u/{}", n) };
    take(s.press(press("g")), &mut in_flight);
    take(s.press(press("h")), &mut in_flight);
    take(s.press(press("g")), &mut in_flight);
    assert_eq!(in_flight, vec!["g".to_string(), "h".to_string()]);
    let pos = in_flight.iter().position(|n| n == "g").unwrap();
    in_flight.remove(pos);
    take(s.finish_download("g".to_string(), Err("no".to_string()), true), &mut in_flight);
    take(s.press(press("g")), &mut in_flight);
    take(s.press(press("h")), &mut in_flight);
    assert_eq!(in_flight, vec!["h".to_string(), "g".to_string()]);
    assert!(s.downloads.contains("g") && s.downloads.contains("h"));
}

#[test]
fn finished_download_joins_history() {
    let mut s = state_with(vec![]);
    s.press(ButtonAction::Download { name: "g".to_string(), url: "u".to_string() });
    let fx = s.finish_download("g".to_string(), Ok("/games/g".to_string()), true);
    assert_eq!(fx, vec![Effect::SaveConfig, Effect::Refresh]);
    assert!(!s.downloads.contains("g"));
    assert_eq!(s.config.projects, vec![project("g", "/games/g", None)]);
    assert_eq!(s.statuses.get("/games/g"), Some(ProjectStatus::Idle));
    let fx = s.finish_download("g".to_string(), Ok("/games/g".to_string()), false);
    assert_eq!(fx, vec![Effect::Refresh]);
    assert_eq!(s.config.projects.len(), 1);
    assert_eq!(s.statuses.get("/games/g"), Some(ProjectStatus::Invalid));
}

#[test]
fn failed_download_changes_nothing_else() {
    let mut s = state_with(vec![]);
    s.press(ButtonAction::Download { name: "g".to_string(), url: "u".to_string() });
    let fx = s.finish_download("g".to_string(), Err("git clone failed".to_string()), true);
    assert_eq!(fx, vec![Effect::Refresh]);
    assert!(!s.downloads.contains("g"));
    assert!(s.config.projects.is_empty());
}

#[test]
fn picked_folder_is_added_once() {
    let mut s = state_with(vec![]);
    let fx = s.add_picked_folder("/games/x".to_string(), Some("x".to_string()), false);
    assert_eq!(fx, vec![Effect::SaveConfig, Effect::Refresh]);
    assert_eq!(s.config.projects, vec![project("x", "/games/x", None)]);
    assert_eq!(s.statuses.get("/games/x"), Some(ProjectStatus::Invalid));
    let fx = s.add_picked_folder("/games/x".to_string(), None, true);
    assert_eq!(fx, vec![]);
    assert_eq!(s.config.projects.len(), 1);
    assert_eq!(s.statuses.get("/games/x"), Some(ProjectStatus::Invalid));
    s.add_picked_folder("/".to_string(), None, true);
    assert_eq!(s.config.projects[1].name, "Unknown Game");
}

#[test]
fn folder_from_command_line_is_adopted() {
    let mut s = state_with(vec![project("x", "/x", Some(4))]);
    assert!(s.adopt_folder("/x", Some("other".to_string()), true));
    assert_eq!(s.config.projects.len(), 1);
    assert!(s.adopt_folder("/y", Some("y".to_string()), true));
    assert_eq!(s.config.projects[1], project("y", "/y", None));
    assert!(!s.adopt_folder("/z", Some("z".to_string()), false));
    assert_eq!(s.config.projects.len(), 2);
}

#[test]
fn ended_games_are_taken_in_together() {
    let mut s = state_with(vec![]);
    assert_eq!(s.record_exits(vec![]), vec![]);
    let fx = s.record_exits(vec![
        ("/a".to_string(), ExitOutcome::Failed),
        ("/b/".to_string(), ExitOutcome::Succeeded),
        ("/a/".to_string(), ExitOutcome::Unknown),
    ]);
    assert_eq!(fx, vec![Effect::Refresh]);
    assert_eq!(s.statuses.get("/a"), Some(ProjectStatus::Idle));
    assert_eq!(s.statuses.get("/b"), Some(ProjectStatus::Idle));
    assert!(window_visible(0));
    assert!(!window_visible(2));
}

#[test]
fn ended_games_are_shown() {
    let mut s = state_with(vec![]);
    s.record_exit("/a".to_string(), ExitOutcome::Succeeded);
    s.record_exit("/b".to_string(), ExitOutcome::Failed);
    s.record_exit("/c".to_string(), ExitOutcome::Unknown);
    assert_eq!(s.statuses.get("/a"), Some(ProjectStatus::Idle));
    assert_eq!(s.statuses.get("/b"), Some(ProjectStatus::FailedLaunch));
    assert_eq!(s.statuses.get("/c"), Some(ProjectStatus::Idle));
}

#[test]
fn deleted_project_is_not_listed() {
    let mut s = state_with(vec![project("a", "/a", Some(5)), project("b", "/b", Some(1))]);
    s.press(ButtonAction::Delete("/a".to_string()));
    let view = list_view(ActiveTab::MyGames, &s.config.projects, &s.statuses, &StoreGames::default(), &vec![], &s.downloads);
    match view {
        ListView::Projects(cards) => {
            assert_eq!(cards.len(), 1);
            assert!(cards.iter().all(|c| c.path != "/a"));
        }
        other => panic!("unexpected {:?}", other),
    }
}

#[test]
fn projects_copy_and_start_unlaunched() {
    let p = Project::new("n".to_string(), "/n".to_string());
    assert_eq!(p.last_launched, None);
    let q = project("m", "/m", Some(3));
    assert_eq!(q.duplicate(), q);
}
