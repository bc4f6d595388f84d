use bevui_28::paths::{
    config_file_path, get_config_path, get_game_download_path, get_ui_config_path, is_same_path, join_path,
    ui_config_file_path,
};
use bevui_28::readme::{chars_of, clean_readme, is_white_char, summarize_readme};

#[test]
fn config_path_is_below_home() {
    assert_eq!(get_config_path(Some("/home/ada")), Some("/home/ada/.debevl/config".to_string()));
    assert_eq!(
        config_file_path(Some("/home/ada")),
        Some("/home/ada/.debevl/config/projects.json".to_string())
    );
}

#[test]
fn config_path_needs_a_home() {
    assert_eq!(get_config_path(None), None);
    assert_eq!(config_file_path(None), None);
    assert_eq!(get_ui_config_path(None), None);
    assert_eq!(ui_config_file_path(None), None);
    assert_eq!(get_game_download_path(None, "game"), None);
}

#[test]
fn ui_config_path_is_below_home() {
    assert_eq!(get_ui_config_path(Some("/home/ada")), Some("/home/ada/.debevl/28bevUI".to_string()));
    assert_eq!(
        ui_config_file_path(Some("/home/ada")),
        Some("/home/ada/.debevl/28bevUI/ui.json".to_string())
    );
}

#[test]
fn game_download_path_is_below_home() {
    assert_eq!(
        get_game_download_path(Some("/home/ada"), "space_miner"),
        Some("/home/ada/.debevl/apps/games/space_miner".to_string())
    );
}

#[test]
fn join_adds_one_separator() {
    assert_eq!(join_path("/home/ada/", ".debevl"), "/home/ada/.debevl");
    assert_eq!(join_path("/home/ada", ".debevl"), "/home/ada/.debevl");
    assert_eq!(join_path("", "config"), "config");
    assert_eq!(join_path("/home/ada", "/etc"), "/etc");
    assert_eq!(get_config_path(Some("/")), Some("/.debevl/config".to_string()));
}

#[test]
fn readme_keeps_prose_only() {
    let readme = "# My Game\n\n![screenshot](shot.png)\n[![badge](b.svg)](ci)\n<p align=\"center\">\n  A small space shooter.  \n```rust\nfn main() {}\n```\nMade with Bevy.\n";
    assert_eq!(clean_readme(readme), "A small space shooter. fn main() {} Made with Bevy.");
}

#[test]
fn readme_handles_crlf_and_tabs() {
    let readme = "Line one\r\n\tLine two\t\r\n\r\n#Heading\r\n";
    assert_eq!(clean_readme(readme), "Line one Line two");
}

#[test]
fn readme_without_prose_is_empty() {
    assert_eq!(clean_readme("# Title\n![x](y)\n\n   \n"), "");
    assert_eq!(clean_readme(""), "");
}

#[test]
fn readme_unicode_whitespace_is_trimmed() {
    assert_eq!(clean_readme("\u{3000}Wide space\u{a0}\n"), "Wide space");
}

#[test]
fn long_readme_is_cut_at_177_bytes() {
    let line = "a".repeat(200);
    let res = clean_readme(&line);
    assert_eq!(res.len(), 180);
    assert_eq!(res, format!("{}...", "a".repeat(177)));
}

#[test]
fn readme_of_exactly_180_bytes_is_kept() {
    let line = "b".repeat(180);
    assert_eq!(clean_readme(&line), line);
    let two = format!("{}\n{}", "c".repeat(90), "d".repeat(89));
    assert_eq!(clean_readme(&two), format!("{} {}", "c".repeat(90), "d".repeat(89)));
}

#[test]
fn cut_inside_a_character_has_no_summary() {
    // 100 two-byte characters: byte 177 falls inside one of them.
    let text = "é".repeat(100);
    assert_eq!(summarize_readme(&text), None);
}

#[test]
fn cut_on_a_character_boundary_keeps_whole_characters() {
    let text = format!("a{}", "é".repeat(100));
    let res = summarize_readme(&text).unwrap();
    assert_eq!(res, format!("a{}...", "é".repeat(88)));
    assert_eq!(res.len(), 180);
}

#[test]
fn summary_fits_in_limit() {
    let text = "word ".repeat(100);
    let res = clean_readme(&text);
    assert!(res.len() <= 180);
    assert!(res.ends_with("..."));
}

#[test]
fn characters_and_whitespace() {
    assert_eq!(chars_of("aé€"), vec!['a', 'é', '€']);
    assert!(is_white_char('\u{2003}'));
    assert!(is_white_char('\n'));
    assert!(!is_white_char('\u{200b}'));
    assert!(!is_white_char('x'));
}

#[test]
fn paths_compare_by_components() {
    assert!(is_same_path("/g/x", "/g/x"));
    assert!(is_same_path("/g/x/", "/g/x"));
    assert!(is_same_path("/g//x", "/g/x"));
    assert!(is_same_path("/g/./x", "/g/x"));
    assert!(is_same_path("//g/x", "/g/x"));
    assert!(is_same_path("./a", ".//a/"));
    assert!(is_same_path("a/./b", "a/b"));
    assert!(!is_same_path("./a", "a"));
    assert!(!is_same_path("/g/x", "g/x"));
    assert!(!is_same_path("/g/x", "/g/y"));
    assert!(!is_same_path("/g/x", "/g/x/y"));
    assert!(!is_same_path("/g/../x", "/x"));
    assert!(!is_same_path("/g/.x", "/g/x"));
    assert!(is_same_path("", ""));
    assert!(!is_same_path(".", ""));
    assert!(is_same_path("/", "//"));
}

#[test]
fn cleaning_twice_changes_nothing() {
    let long = format!("{}\n\n{}\n", "word ".repeat(30), "more text ".repeat(20));
    let readmes = [
        "# Title\n\n  A small space shooter.  \n```\nfn main() {}\n```\nMade with Bevy.\n",
        "``\nx",
        "`` y\n",
        "",
        "\u{3000}Wide space\u{a0}\n",
        long.as_str(),
    ];
    for r in readmes {
        let once = clean_readme(r);
        assert_eq!(clean_readme(&once), once);
    }
}
