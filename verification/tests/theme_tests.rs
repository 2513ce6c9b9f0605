use powder::themes::{colored_name_of, paint, ThemeManager};

#[test]
fn builtin_themes_in_order() {
    let m = ThemeManager::new();
    let names: Vec<&str> = m.list_themes().iter().map(|t| t.name.as_str()).collect();
    assert_eq!(names, vec!["default", "ocean", "forest", "sunset", "mono"]);
    assert_eq!(m.get_current_theme().name, "default");
    let d = ThemeManager::default();
    assert_eq!(d.get_current_theme().name, "default");
}

#[test]
fn builtin_theme_colors() {
    let m = ThemeManager::new();
    let ocean = m.get_theme("ocean").unwrap();
    assert_eq!(ocean.description, "Calming blue-green oceanic color palette");
    assert_eq!(ocean.colors.root_path, "blue");
    assert_eq!(ocean.colors.current_directory, "bright_cyan");
    assert_eq!(ocean.colors.error, "red");
    let sunset = m.get_theme("sunset").unwrap();
    assert_eq!(sunset.colors.error, "bright_red");
    assert_eq!(sunset.colors.info_value, "bright_yellow");
    let mono = m.get_theme("mono").unwrap();
    assert_eq!(mono.colors.separator, "bright_black");
    assert!(m.get_theme("nonexistent").is_none());
}

#[test]
fn set_theme_switches_current() {
    let mut m = ThemeManager::new();
    assert_eq!(m.set_theme("forest"), Ok(()));
    assert_eq!(m.get_current_theme().name, "forest");
    assert_eq!(m.get_current_theme().colors.git_branch, "yellow");
}

#[test]
fn set_unknown_theme_fails_and_keeps_current() {
    let mut m = ThemeManager::new();
    m.set_theme("mono").unwrap();
    let r = m.set_theme("nonexistent");
    assert_eq!(r, Err("Theme 'nonexistent' not found".to_string()));
    assert_eq!(m.get_current_theme().name, "mono");
    assert_eq!(m.set_theme("Ocean"), Err("Theme 'Ocean' not found".to_string()));
}

#[test]
fn no_color_leaves_text_plain() {
    let m = ThemeManager::new();
    assert_eq!(m.apply_color("hello", "red", true), "hello");
    assert_eq!(m.apply_color("", "bright_blue", true), "");
    assert_eq!(paint("x y", "cyan", true), "x y");
}

#[test]
fn unknown_color_name_leaves_text_plain() {
    let m = ThemeManager::new();
    colored::control::set_override(true);
    assert_eq!(m.apply_color("hello", "purple", false), "hello");
    assert_eq!(m.apply_color("hello", "", false), "hello");
    assert_eq!(m.apply_color("hello", "bright black", false), "hello");
}

#[test]
fn colors_are_painted_when_colored_is_on() {
    colored::control::set_override(true);
    let m = ThemeManager::new();
    assert_eq!(m.apply_color("x", "red", false), "\x1b[31mx\x1b[0m");
    assert_eq!(m.apply_color("dir", "bright_black", false), "\x1b[90mdir\x1b[0m");
    assert_eq!(m.apply_color("dir", "bright_white", false), "\x1b[97mdir\x1b[0m");
    assert_eq!(paint("", "green", false), "\x1b[32m\x1b[0m");
    // An inner reset gets the colour re-applied after it.
    assert_eq!(paint("a\x1b[0mb", "blue", false), "\x1b[34ma\x1b[0m\x1b[34mb\x1b[0m");
    // With colouring switched off, the text comes back alone.
    colored::control::set_override(false);
    assert_eq!(paint("x", "red", false), "x");
    colored::control::unset_override();
}

#[test]
fn palette_names_map_to_colored_names() {
    assert_eq!(colored_name_of("bright_magenta"), Some("bright magenta"));
    assert_eq!(colored_name_of("white"), Some("white"));
    assert_eq!(colored_name_of("purple"), None);
    assert_eq!(colored_name_of("Red"), None);
}

#[test]
fn current_theme_is_last_chosen() {
    let mut m = ThemeManager::new();
    assert!(m.set_theme("ocean").is_ok());
    assert!(m.set_theme("nope").is_err());
    assert!(m.set_theme("forest").is_ok());
    assert!(m.set_theme("also-missing").is_err());
    assert_eq!(m.get_current_theme().name, "forest");
    assert_eq!(m.get_theme("forest").unwrap().name, "forest");
    let mut fresh = ThemeManager::new();
    assert!(fresh.set_theme("missing").is_err());
    assert_eq!(fresh.get_current_theme().name, "default");
    assert_eq!(fresh.list_themes().len(), 5);
}
