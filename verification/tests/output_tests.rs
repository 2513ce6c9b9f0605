use powder::cwd::{check_path_options, next_dir_action, DirAction, DirEvent};
use powder::history::{History, HistoryEntry, HistoryManager};
use powder::lines::wrap_text;
use powder::output::OutputManager;
use powder::reports::{
    abbreviate, branch_from_head, format_age, format_timestamp, next_git_search, EntryKind, GitSearch, GIT_SEARCH_DEPTH,
    PathFacts,
};

fn plain_manager() -> OutputManager {
    OutputManager::with_width(None)
}

#[test]
fn test_basic_pwd_functionality() {
    let out = plain_manager().pretty_path_lines("/home/runner/work/powder/powder", None, true);
    assert!(out.iter().any(|l| l.contains("powder")));
    assert_eq!(out, vec!["home/runner/work/powder/powder"]);
}

#[test]
fn test_custom_separator() {
    let sep = " → ".to_string();
    let out = plain_manager().pretty_path_lines("/home/runner/work/powder/powder", Some(&sep), true);
    assert!(out[0].contains(" → "));
    assert_eq!(out, vec!["home → runner → work → powder → powder"]);
}

#[test]
fn pretty_path_edge_cases() {
    let m = plain_manager();
    assert_eq!(m.pretty_path_lines("/", None, true), vec!["/"]);
    assert_eq!(m.pretty_path_lines("", None, true), vec!["/"]);
    assert_eq!(m.pretty_path_lines("a/b", None, true), vec!["a/b"]);
    assert_eq!(m.pretty_path_lines("/a//b/./c/", None, true), vec!["a/b/c"]);
    assert_eq!(m.pretty_path_lines("./x", None, true), vec!["./x"]);
    assert_eq!(m.pretty_path_lines("/tmp", None, true), vec!["tmp"]);
}

#[test]
fn pretty_path_colors_by_position() {
    colored::control::set_override(true);
    let m = plain_manager();
    // default theme: separator bright_black (90), path components bright_white (97),
    // the current directory bright_yellow (93)
    let out = m.pretty_path_lines("/a/b", None, false);
    assert_eq!(out, vec!["\x1b[97ma\x1b[0m\x1b[90m/\x1b[0m\x1b[93mb\x1b[0m"]);
    // a relative path's first component is in the root colour, bright_blue (94)
    let out = m.pretty_path_lines("x/y", None, false);
    assert_eq!(out, vec!["\x1b[94mx\x1b[0m\x1b[90m/\x1b[0m\x1b[93my\x1b[0m"]);
    colored::control::unset_override();
}

#[test]
fn test_responsiveness_with_long_path() {
    let m = OutputManager::with_width(Some(20));
    let path = "/tmp/very/deep/directory/structure/that/should/be/handled/gracefully";
    let out = m.pretty_path_lines(path, None, true);
    // The full line is wider than the terminal: one compact line.
    assert_eq!(out, vec!["tmp/very/deep/di\u{2026}/st\u{2026}/that/sh\u{2026}/be/ha\u{2026}/gracefully"]);
    let sep = " / ".to_string();
    let out = m.pretty_path_lines(path, Some(&sep), true);
    assert_eq!(
        out,
        vec!["tmp / very / deep / di\u{2026} / st\u{2026} / that / sh\u{2026} / be / ha\u{2026} / gracefully"]
    );
    // A path that fits is shown in full.
    assert_eq!(m.pretty_path_lines("/tmp/directory", None, true), vec!["tmp/directory"]);
}

#[test]
fn compact_mode_starts_when_the_printed_line_does_not_fit() {
    // The printed line drops the root, so "/abcde/x" takes 7 bytes.
    let m = OutputManager::with_width(Some(7));
    assert_eq!(m.pretty_path_lines("/abcde/x", None, true), vec!["abcde/x"]);
    let m = OutputManager::with_width(Some(6));
    assert_eq!(m.pretty_path_lines("/abcde/x", None, true), vec!["ab\u{2026}/x"]);
    let readme = "/home/runner/work/powder/powder";
    let m = OutputManager::with_width(Some(30));
    assert_eq!(m.pretty_path_lines(readme, None, true), vec!["home/runner/work/powder/powder"]);
    let m = OutputManager::with_width(Some(29));
    assert_eq!(m.pretty_path_lines(readme, None, true), vec!["home/ru\u{2026}/work/po\u{2026}/powder"]);
    // A separator that lengthens the line counts too.
    let arrow = " \u{2192} ".to_string();
    let m = OutputManager::with_width(Some(40));
    assert_eq!(
        m.pretty_path_lines(readme, Some(&arrow), true),
        vec!["home \u{2192} ru\u{2026} \u{2192} work \u{2192} po\u{2026} \u{2192} powder"]
    );
}

#[test]
fn compact_mode_abbreviates_all_but_the_current_directory() {
    let mut m = OutputManager::with_width(None);
    m.set_compact(true);
    assert_eq!(
        m.pretty_path_lines("/home/runner/work/powder/powder", None, true),
        vec!["home/ru\u{2026}/work/po\u{2026}/powder"]
    );
    assert_eq!(m.pretty_path_lines("/directory", None, true), vec!["directory"]);
    assert_eq!(m.pretty_path_lines("/", None, true), vec!["/"]);
    m.set_compact(false);
    assert_eq!(
        m.pretty_path_lines("/home/runner/work/powder/powder", None, true),
        vec!["home/runner/work/powder/powder"]
    );
    assert_eq!(abbreviate("structure"), "st\u{2026}");
    assert_eq!(abbreviate("four"), "four");
    assert_eq!(abbreviate("\u{e9}t\u{e9}s\u{e9}"), "\u{e9}t\u{2026}");
}

#[test]
fn wrap_text_cases() {
    assert_eq!(wrap_text("hello world", None), vec!["hello world"]);
    assert_eq!(wrap_text("hello world", Some(11)), vec!["hello world"]);
    assert_eq!(wrap_text("aaa bbb ccc", Some(7)), vec!["aaa bbb", "ccc"]);
    assert_eq!(wrap_text("  aaa   bbb  ", Some(5)), vec!["aaa", "bbb"]);
    assert_eq!(wrap_text("abcdefgh x", Some(4)), vec!["abcdefgh", "x"]);
    assert_eq!(wrap_text("     ", Some(2)), Vec::<String>::new());
    // lengths count bytes: "é" takes two
    assert_eq!(wrap_text("éé é", Some(4)), vec!["éé", "é"]);
}

#[test]
fn format_age_cases() {
    assert_eq!(format_age(1000, 1000), "just now");
    assert_eq!(format_age(1059, 1000), "just now");
    assert_eq!(format_age(1060, 1000), "1m ago");
    assert_eq!(format_age(1000 + 3599, 1000), "59m ago");
    assert_eq!(format_age(1000 + 3600, 1000), "1h ago");
    assert_eq!(format_age(1000 + 86399, 1000), "23h ago");
    assert_eq!(format_age(1000 + 86400, 1000), "1d ago");
    assert_eq!(format_age(1000 + 86400 * 12 + 5, 1000), "12d ago");
    assert_eq!(format_age(5, 1000), "just now");
}

#[test]
fn format_timestamp_reads_clock() {
    assert_eq!(format_timestamp(0).ends_with("d ago"), true);
    assert_eq!(format_timestamp(u64::MAX), "just now");
}

#[test]
fn test_themes_listing() {
    let out = plain_manager().themes_lines(true);
    let text = out.join("\n");
    assert!(text.contains("Available Themes"));
    for name in ["default", "ocean", "forest", "sunset", "mono"] {
        assert!(text.contains(name));
    }
    assert_eq!(out[0], "Available Themes:");
    assert_eq!(out[1], "  default: Classic powder color scheme with bright colors (current)");
    assert_eq!(out[2], "    Sample: bright_blue/path/current");
    assert_eq!(out[3], "");
    assert_eq!(out[4], "  ocean: Calming blue-green oceanic color palette");
    assert_eq!(out[5], "    Sample: blue/path/current");
    assert_eq!(out.len(), 16);
}

#[test]
fn test_valid_theme_selection() {
    let mut m = plain_manager();
    assert!(m.set_theme("ocean").is_ok());
    let out = m.themes_lines(true);
    assert_eq!(out[4], "  ocean: Calming blue-green oceanic color palette (current)");
}

#[test]
fn test_invalid_theme_selection() {
    let mut m = plain_manager();
    let e = m.set_theme("nonexistent").unwrap_err();
    assert!(e.contains("Theme 'nonexistent' not found"));
    assert_eq!(m.error_lines(&e, true), vec!["Theme 'nonexistent' not found"]);
}

#[test]
fn test_history_output() {
    let m = plain_manager();
    let empty: Vec<&HistoryEntry> = Vec::new();
    let out = m.history_lines(&empty, true);
    assert!(out.join("\n").contains("Directory History") || out.join("\n").contains("No directory history"));
    assert_eq!(out, vec!["No directory history available."]);
}

#[test]
fn history_listing_at_time() {
    let m = plain_manager();
    let mut h = History::new(10);
    h.add_entry_at("/home/runner".to_string(), 1000 - 300);
    h.add_entry_at("/tmp".to_string(), 1000 - 120);
    h.add_entry_at("/home/runner/work/powder/powder".to_string(), 1000);
    let out = m.history_lines_at(&h.get_entries(), 1000, true);
    assert_eq!(
        out,
        vec![
            "Directory History:",
            "  1: /home/runner/work/powder/powder (current) (just now)",
            "  2: /tmp (2m ago)",
            "  3: /home/runner (5m ago)",
            "",
        ]
    );
}

#[test]
fn test_history_persistence() {
    let mut m = HistoryManager::new("/tmp/cfg", None);
    m.add_current_directory("/tmp/work".to_string());
    let out = plain_manager().history_lines(&m.get_history(), true);
    assert!(out.join("\n").contains("Directory History"));
    assert_eq!(out[1], "  1: /tmp/work (current) (just now)");
}

fn sample_facts() -> PathFacts {
    PathFacts {
        symlink_target: None,
        kind: Some(EntryKind::Directory),
        mode: Some(0o40755),
    }
}

#[test]
fn test_verbose_output() {
    let out = plain_manager().verbose_lines("/home/runner/work/powder/powder", &sample_facts(), true);
    let text = out.join("\n");
    assert!(text.contains("Directory Information"));
    assert!(text.contains("Path:"));
    assert_eq!(
        out,
        vec![
            "Directory Information:",
            "  Path: /home/runner/work/powder/powder",
            "  Parent: /home/runner/work/powder",
            "  Current Folder: powder",
            "  Type: Directory",
            "  Permissions: 755",
            "",
        ]
    );
}

#[test]
fn verbose_output_with_link_and_no_metadata() {
    let facts = PathFacts {
        symlink_target: Some("/real".to_string()),
        kind: None,
        mode: Some(0o644),
    };
    let out = plain_manager().verbose_lines("/", &facts, true);
    assert_eq!(out, vec!["Directory Information:", "  Path: /", "  Symlink Target: /real", ""]);
    let facts = PathFacts { symlink_target: None, kind: Some(EntryKind::File), mode: None };
    let out = plain_manager().verbose_lines("f", &facts, true);
    assert_eq!(out, vec!["Directory Information:", "  Path: f", "  Parent: ", "  Current Folder: f", "  Type: File", ""]);
    let out = plain_manager().verbose_lines("/a/b/..", &facts, true);
    assert_eq!(out, vec!["Directory Information:", "  Path: /a/b/..", "  Parent: /a/b", "  Type: File", ""]);
}

#[test]
fn test_git_info() {
    let out = plain_manager().git_lines("/repo", Some("ref: refs/heads/main\n"), Some(false), true);
    assert!(out.join("\n").contains("Git Repository Information"));
    assert_eq!(
        out,
        vec![
            "Git Repository Information:",
            "  Repository Root: /repo",
            "  Current Branch: main",
            "  Status: Clean working tree",
            "",
        ]
    );
    let out = plain_manager().git_lines("/repo", Some("4f2a9c"), Some(true), true);
    assert_eq!(
        out,
        vec![
            "Git Repository Information:",
            "  Repository Root: /repo",
            "  Status: Has uncommitted changes",
            "",
        ]
    );
    let out = plain_manager().git_lines("/r", None, None, true);
    assert_eq!(out, vec!["Git Repository Information:", "  Repository Root: /r", ""]);
}

#[test]
fn branch_from_head_cases() {
    assert_eq!(branch_from_head("ref: refs/heads/main\n"), Some("main".to_string()));
    assert_eq!(branch_from_head("ref: refs/heads/feature/x  \n"), Some("feature/x".to_string()));
    assert_eq!(branch_from_head("4f2a9c0d\n"), None);
    assert_eq!(branch_from_head(" ref: refs/heads/main"), None);
    assert_eq!(branch_from_head("ref: refs/heads/"), Some("".to_string()));
}

#[test]
fn test_no_color_option() {
    colored::control::set_override(true);
    let m = plain_manager();
    let colored_out = m.pretty_path_lines("/a/b", None, false);
    let plain_out = m.pretty_path_lines("/a/b", None, true);
    assert_eq!(plain_out, vec!["a/b"]);
    assert_ne!(colored_out, plain_out);
    colored::control::unset_override();
}

#[test]
fn test_combined_options() {
    let mut m = plain_manager();
    m.set_theme("forest").unwrap();
    let out = m.verbose_lines("/x/y", &sample_facts(), true);
    assert!(out.join("\n").contains("Directory Information"));
    let git = m.git_lines("/x", Some("ref: refs/heads/dev"), None, true);
    assert_eq!(git[2], "  Current Branch: dev");
}

#[test]
fn test_logical_and_physical_conflict() {
    let e = check_path_options(true, true).unwrap_err();
    assert!(e.contains("mutually exclusive"));
    assert_eq!(e, "Error: --logical and --physical options are mutually exclusive");
    assert_eq!(check_path_options(true, false), Ok(()));
    assert_eq!(check_path_options(false, true), Ok(()));
    assert_eq!(check_path_options(false, false), Ok(()));
}

fn finished(a: DirAction) -> Result<String, String> {
    match a {
        DirAction::Finish(r) => r,
        _ => panic!("not finished"),
    }
}

#[test]
fn test_logical_option() {
    match next_dir_action(true, false, DirEvent::Start) {
        DirAction::ReadPwd => {}
        _ => panic!("expected to read PWD"),
    }
    let r = finished(next_dir_action(true, false, DirEvent::Pwd(Some("/logical/link".to_string()))));
    assert_eq!(r, Ok("/logical/link".to_string()));
    match next_dir_action(true, false, DirEvent::Pwd(None)) {
        DirAction::ReadCurrentDir => {}
        _ => panic!("expected to read the working directory"),
    }
}

#[test]
fn test_physical_option() {
    match next_dir_action(false, true, DirEvent::Start) {
        DirAction::ReadCurrentDir => {}
        _ => panic!("expected to read the working directory"),
    }
    match next_dir_action(false, true, DirEvent::CurrentDir(Ok("/link".to_string()))) {
        DirAction::Canonicalize(p) => assert_eq!(p, "/link"),
        _ => panic!("expected to canonicalize"),
    }
    let r = finished(next_dir_action(false, true, DirEvent::Canonical(Ok("/real".to_string()))));
    assert_eq!(r, Ok("/real".to_string()));
    let r = finished(next_dir_action(false, true, DirEvent::Canonical(Err("gone".to_string()))));
    assert_eq!(r, Err("Failed to canonicalize path: gone".to_string()));
}

#[test]
fn current_dir_errors_are_reported() {
    let r = finished(next_dir_action(false, false, DirEvent::CurrentDir(Err("denied".to_string()))));
    assert_eq!(r, Err("Failed to get current directory: denied".to_string()));
    let r = finished(next_dir_action(false, false, DirEvent::CurrentDir(Ok("/w".to_string()))));
    assert_eq!(r, Ok("/w".to_string()));
}

#[test]
fn wrapped_theme_lines_fit_width() {
    let m = OutputManager::with_width(Some(30));
    assert_eq!(m.terminal_width(), Some(30));
    let out = m.themes_lines(true);
    assert_eq!(out[0], "Available Themes:");
    assert_eq!(out[1], "default: Classic powder color");
    assert_eq!(out[2], "scheme with bright colors");
    assert_eq!(out[3], "(current)");
}

#[test]
fn error_line_is_colored_in_theme_error_color() {
    colored::control::set_override(true);
    let m = plain_manager();
    assert_eq!(m.error_lines("boom", false), vec!["\x1b[31mboom\x1b[0m"]);
    colored::control::unset_override();
}

#[test]
fn new_manager_reads_terminal() {
    let m = OutputManager::new();
    if let Some(w) = m.terminal_width() {
        assert!(w <= 0xffff);
    }
    let d = OutputManager::default();
    assert_eq!(d.theme_manager.get_current_theme().name, "default");
}

#[test]
fn wrapped_lines_keep_words_and_fit() {
    let text = "  the quick  brown fox jumps over the extraordinarily lazy dog ";
    for width in [1usize, 5, 10, 16, 30] {
        let lines = wrap_text(text, Some(width));
        assert_eq!(lines.join(" "), text.split_whitespace().collect::<Vec<_>>().join(" "));
        for l in &lines {
            assert!(l.len() <= width || !l.contains(' '), "line {:?} at width {}", l, width);
        }
    }
}

#[test]
fn plain_output_has_no_escapes() {
    colored::control::set_override(true);
    let m = plain_manager();
    for line in m.themes_lines(true) {
        assert!(!line.contains('\x1b'));
    }
    assert!(m.themes_lines(false).iter().any(|l| l.contains('\x1b')));
    colored::control::unset_override();
}

#[test]
fn git_search_walks_up_to_the_root() {
    match next_git_search("/home/u/repo/src", false, 1) {
        GitSearch::Probe(p) => assert_eq!(p, "/home/u/repo"),
        _ => panic!("expected to probe the parent"),
    }
    match next_git_search("/home/u/repo", true, 2) {
        GitSearch::Found(r) => assert_eq!(r, "/home/u/repo"),
        _ => panic!("expected to find the repository"),
    }
    match next_git_search("/", false, 3) {
        GitSearch::NotFound => {}
        _ => panic!("expected the search to end at the root"),
    }
}

/// Runs the search from `start` the way the application does, with `.git`
/// only in `repo`; gives the directories probed and the outcome.
fn run_git_search(start: &str, repo: &str) -> (Vec<String>, Option<String>) {
    let mut dir = start.to_string();
    let mut probed: usize = 1;
    let mut seen = Vec::new();
    loop {
        seen.push(dir.clone());
        match next_git_search(&dir, dir == repo, probed) {
            GitSearch::Found(r) => return (seen, Some(r)),
            GitSearch::Probe(p) => {
                dir = p;
                probed += 1;
            }
            GitSearch::NotFound => return (seen, None),
        }
    }
}

#[test]
fn git_search_is_depth_limited() {
    assert_eq!(GIT_SEARCH_DEPTH, 32);
    let mut deep = String::new();
    for i in 0..40 {
        deep.push_str(&format!("/d{}", i));
    }
    // `.git` at the root is more than the limit away: not found.
    let (seen, found) = run_git_search(&deep, "/");
    assert_eq!(seen.len(), GIT_SEARCH_DEPTH);
    assert_eq!(found, None);
    // At the limit the last directory is still probed.
    let mut repo = String::new();
    for i in 0..9 {
        repo.push_str(&format!("/d{}", i));
    }
    let (seen, found) = run_git_search(&deep, &repo);
    assert_eq!(seen.len(), GIT_SEARCH_DEPTH);
    assert_eq!(found, Some(repo.clone()));
    // Just past the limit it is not.
    repo.truncate(repo.len() - 3);
    let (seen, found) = run_git_search(&deep, &repo);
    assert_eq!(seen.len(), GIT_SEARCH_DEPTH);
    assert_eq!(found, None);
    // A shallow search still ends at the root.
    let (seen, found) = run_git_search("/a/b", "/nowhere");
    assert_eq!(seen, vec!["/a/b".to_string(), "/a".to_string(), "/".to_string()]);
    assert_eq!(found, None);
    // And at the limit a directory without `.git` ends the search.
    match next_git_search("/a/b", false, GIT_SEARCH_DEPTH) {
        GitSearch::NotFound => {}
        _ => panic!("expected the search to stop at the limit"),
    }
}

#[test]
fn theme_manager_accessor() {
    let mut m = plain_manager();
    m.set_theme("sunset").unwrap();
    assert_eq!(m.theme_manager().get_current_theme().name, "sunset");
}
