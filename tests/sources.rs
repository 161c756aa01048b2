use rufi::commands::{command_items, ItemType};
use rufi::config::{Config, Theme};
use rufi::desktop::{clean_exec, parse_desktop_entry, sort_by_display_name, trim_chars};
use rufi::layout::{
    list_budget, needs_shell, row_height, scale_color, truncate_description, window_origin,
};
use rufi::order::compare_chars;
use rufi::theme::{get_theme, list_themes};

fn chars(s: &str) -> Vec<char> {
    s.chars().collect()
}

#[test]
fn desktop_entry_is_parsed() {
    let text = "[Desktop Entry]\n  Name=Firefox  \nName=Other\nExec=firefox %u --new\r\nComment=Web browser\nIcon=firefox\n";
    let item = parse_desktop_entry(text).unwrap();
    assert_eq!(item.name, "Firefox");
    assert_eq!(item.display_name, "Firefox");
    assert_eq!(item.command, "firefox --new");
    assert_eq!(item.description.as_deref(), Some("Web browser"));
    assert_eq!(item.icon.as_deref(), Some("firefox"));
    assert_eq!(item.item_type, ItemType::Application);
}

#[test]
fn hidden_or_incomplete_entries_are_dropped() {
    assert!(parse_desktop_entry("Name=A\nExec=a\nNoDisplay=true").is_none());
    assert!(parse_desktop_entry("Name=A\nExec=a\nHidden=true\n").is_none());
    assert!(parse_desktop_entry("Name=A\n").is_none());
    assert!(parse_desktop_entry("Exec=a\n").is_none());
    assert!(parse_desktop_entry("").is_none());
    let last_exec = parse_desktop_entry("Name=A\nExec=one\nExec=two").unwrap();
    assert_eq!(last_exec.command, "two");
    assert!(last_exec.description.is_none());
}

#[test]
fn exec_field_codes_are_removed() {
    let r: String = clean_exec(&chars("  env  A=1 %F app %%  ")).into_iter().collect();
    assert_eq!(r, "env A=1 app");
    let t: String = trim_chars(&chars("\t x y \u{3000}")).into_iter().collect();
    assert_eq!(t, "x y");
}

#[test]
fn commands_are_deduplicated_and_sorted() {
    let names: Vec<String> =
        ["vim", "ls", ".hidden", "cat", "ls", "awk"].iter().map(|s| s.to_string()).collect();
    let r = command_items(&names);
    let got: Vec<&str> = r.iter().map(|i| i.name.as_str()).collect();
    assert_eq!(got, vec!["awk", "cat", "ls", "vim"]);
    assert_eq!(r[0].command, "awk");
    assert_eq!(r[0].display_name, "awk");
    assert_eq!(r[0].item_type, ItemType::Command);
    assert!(command_items(&Vec::new()).is_empty());
}

#[test]
fn applications_sort_by_display_name() {
    let a = parse_desktop_entry("Name=Zed\nExec=zed").unwrap();
    let b = parse_desktop_entry("Name=Alacritty\nExec=alacritty").unwrap();
    let c = parse_desktop_entry("Name=Mpv\nExec=mpv").unwrap();
    let r = sort_by_display_name(vec![a, b, c]);
    let got: Vec<&str> = r.iter().map(|i| i.display_name.as_str()).collect();
    assert_eq!(got, vec!["Alacritty", "Mpv", "Zed"]);
}

#[test]
fn char_order() {
    assert_eq!(compare_chars(&chars("ab"), &chars("b")), -1);
    assert_eq!(compare_chars(&chars("b"), &chars("ab")), 1);
    assert_eq!(compare_chars(&chars("ab"), &chars("ab")), 0);
    assert_eq!(compare_chars(&chars("a"), &chars("ab")), -1);
    assert_eq!(compare_chars(&chars("Z"), &chars("a")), -1);
}

#[test]
fn themes_by_name() {
    let names = list_themes();
    assert_eq!(names.len(), 9);
    assert_eq!(names[0], "catppuccin-mocha");
    assert_eq!(names[8], "gruvbox-light");
    for n in &names {
        assert!(get_theme(n).is_some());
    }
    let d = get_theme("dracula").unwrap();
    assert_eq!(d.bg_color, 0x282a36);
    assert_eq!(d.accent_color, 0xff79c6);
    assert!(get_theme("nope").is_none());
    assert!(get_theme("").is_none());
}

#[test]
fn config_defaults_and_theme_resolution() {
    let mut c = Config::default();
    assert_eq!(c.max_results, 50);
    assert_eq!(c.cache_timeout, 300);
    assert_eq!(c.font, "JetBrains Mono");
    assert_eq!(c.theme.bg_color, 0x1e1e2e);
    c.theme_name = Some("nord-dark".to_string());
    c.resolve_theme();
    assert_eq!(c.theme.bg_color, 0x2E3440);
    let before: Theme = c.theme;
    c.theme_name = Some("unknown".to_string());
    c.resolve_theme();
    assert_eq!(c.theme, before);
    c.theme_name = None;
    c.resolve_theme();
    assert_eq!(c.theme, before);
}

#[test]
fn layout_numbers() {
    assert_eq!(row_height(64, 18, 16, true, true), 90);
    assert_eq!(row_height(64, 18, 16, true, false), 64);
    assert_eq!(row_height(64, 18, 16, false, true), 64);
    assert_eq!(row_height(24, 18, 16, true, true), 24);
    assert_eq!(list_budget(500, 64, 16), 388);
    assert_eq!(list_budget(50, 64, 16), 0);
    assert_eq!(scale_color(0xcdd6f4, 1, 2), 0x666b7a);
    assert_eq!(scale_color(0xcdd6f4, 3, 4), 0x99a0b7);
    assert_eq!(window_origin(1920, 1080, 800, 500), (560, 193));
    assert_eq!(window_origin(600, 400, 800, 500), (0, 0));
}

#[test]
fn descriptions_are_cut() {
    let short = "a".repeat(60);
    assert_eq!(truncate_description(&short), short);
    let long = "b".repeat(61);
    assert_eq!(truncate_description(&long), format!("{}...", "b".repeat(57)));
}

#[test]
fn shell_is_needed_for_compound_commands() {
    assert!(needs_shell("firefox --new"));
    assert!(needs_shell("a&b"));
    assert!(needs_shell("a;b"));
    assert!(!needs_shell("firefox"));
    assert!(!needs_shell(""));
}

#[test]
fn icon_search_order() {
    let c = rufi::icons::icon_candidates("firefox", "/home/u");
    assert_eq!(c.len(), 90);
    assert_eq!(c[0], "/home/u/.local/share/icons/256x256/apps/firefox.png");
    assert_eq!(c[1], "/home/u/.local/share/icons/256x256/devices/firefox.png");
    assert_eq!(c[2], "/home/u/.local/share/icons/256x256/apps/firefox.svg");
    assert_eq!(c[4], "/home/u/.local/share/icons/128x128/apps/firefox.png");
    assert_eq!(c[27], "/home/u/.local/share/icons/scalable/devices/firefox.svg");
    assert_eq!(c[28], "/home/u/.local/share/icons/firefox.png");
    assert_eq!(c[29], "/home/u/.local/share/icons/firefox.svg");
    assert_eq!(c[30], "/usr/share/icons/hicolor/256x256/apps/firefox.png");
    assert_eq!(c[89], "/usr/share/pixmaps/firefox.svg");
}
