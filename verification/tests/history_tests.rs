use powder::history::{config_dir_from, history_file_path, History, HistoryEntry, HistoryManager, HISTORY_LIMIT};

fn paths(h: &History) -> Vec<String> {
    h.get_entries().iter().map(|e| e.path.clone()).collect()
}

#[test]
fn test_history_add_entry() {
    let mut history = History::new(3);

    history.add_entry("/path/1".to_string());
    history.add_entry("/path/2".to_string());
    history.add_entry("/path/3".to_string());

    assert_eq!(history.len(), 3);
    assert_eq!(history.get_entries()[0].path, "/path/3");
    assert_eq!(history.get_entries()[1].path, "/path/2");
    assert_eq!(history.get_entries()[2].path, "/path/1");
}

#[test]
fn test_history_max_entries() {
    let mut history = History::new(2);

    history.add_entry("/path/1".to_string());
    history.add_entry("/path/2".to_string());
    history.add_entry("/path/3".to_string());

    assert_eq!(history.len(), 2);
    assert_eq!(history.get_entries()[0].path, "/path/3");
    assert_eq!(history.get_entries()[1].path, "/path/2");
}

#[test]
fn test_history_duplicate_removal() {
    let mut history = History::new(5);

    history.add_entry("/path/1".to_string());
    history.add_entry("/path/2".to_string());
    history.add_entry("/path/1".to_string()); // Duplicate

    assert_eq!(history.len(), 2);
    assert_eq!(history.get_entries()[0].path, "/path/1");
    assert_eq!(history.get_entries()[1].path, "/path/2");
}

#[test]
fn add_entry_at_keeps_timestamps_and_order() {
    let mut h = History::new(10);
    h.add_entry_at("/a".to_string(), 100);
    h.add_entry_at("/b".to_string(), 200);
    h.add_entry_at("/c".to_string(), 300);
    h.add_entry_at("/b".to_string(), 400);
    let e = h.get_entries();
    assert_eq!(e.len(), 3);
    assert_eq!((e[0].path.as_str(), e[0].timestamp), ("/b", 400));
    assert_eq!((e[1].path.as_str(), e[1].timestamp), ("/c", 300));
    assert_eq!((e[2].path.as_str(), e[2].timestamp), ("/a", 100));
}

#[test]
fn zero_bound_keeps_nothing() {
    let mut h = History::new(0);
    h.add_entry_at("/a".to_string(), 1);
    assert!(h.is_empty());
    assert_eq!(h.len(), 0);
    assert_eq!(h.max_entries(), 0);
}

#[test]
fn new_history_is_empty() {
    let h = History::new(4);
    assert!(h.is_empty());
    assert_eq!(h.max_entries(), 4);
    assert!(h.get_entries().is_empty());
}

#[test]
fn revisiting_is_one_visit() {
    let mut twice = History::new(3);
    let mut once = History::new(3);
    for (p, t) in [("/x", 1u64), ("/y", 2), ("/z", 3)] {
        twice.add_entry_at(p.to_string(), t);
        once.add_entry_at(p.to_string(), t);
    }
    twice.add_entry_at("/y".to_string(), 10);
    twice.add_entry_at("/y".to_string(), 20);
    once.add_entry_at("/y".to_string(), 20);
    let a: Vec<(String, u64)> = twice.get_entries().iter().map(|e| (e.path.clone(), e.timestamp)).collect();
    let b: Vec<(String, u64)> = once.get_entries().iter().map(|e| (e.path.clone(), e.timestamp)).collect();
    assert_eq!(a, b);
    assert_eq!(paths(&once), vec!["/y", "/z", "/x"]);
}

#[test]
fn stored_history_with_duplicates_drops_all_copies_of_visited() {
    let entries = vec![
        HistoryEntry { path: "/a".to_string(), timestamp: 1 },
        HistoryEntry { path: "/b".to_string(), timestamp: 2 },
        HistoryEntry { path: "/a".to_string(), timestamp: 3 },
        HistoryEntry { path: "/c".to_string(), timestamp: 4 },
    ];
    let mut h = History::from_parts(entries, 3);
    assert_eq!(h.len(), 4);
    assert_eq!(h.max_entries(), 3);
    assert_eq!(paths(&h), vec!["/a", "/b", "/a", "/c"]);
    h.add_entry_at("/a".to_string(), 9);
    assert_eq!(paths(&h), vec!["/a", "/b", "/c"]);
    assert_eq!(h.get_entries()[0].timestamp, 9);
}

#[test]
fn add_entry_uses_current_time() {
    let mut h = History::new(2);
    h.add_entry("/now".to_string());
    // A clock before 2020 would mean the wrapper returned nothing useful.
    assert!(h.get_entries()[0].timestamp > 1_577_836_800);
}

#[test]
fn history_file_is_in_config_dir() {
    assert_eq!(history_file_path("/home/u"), "/home/u/.powder.history");
    assert_eq!(history_file_path("/home/u/"), "/home/u/.powder.history");
    assert_eq!(history_file_path(""), ".powder.history");
}

#[test]
fn config_dir_prefers_home() {
    assert_eq!(
        config_dir_from(Some("/home/u".to_string()), Some("/cfg".to_string())),
        Some("/home/u".to_string())
    );
    assert_eq!(config_dir_from(None, Some("/cfg".to_string())), Some("/cfg/powder".to_string()));
    assert_eq!(config_dir_from(None, Some("/cfg/".to_string())), Some("/cfg/powder".to_string()));
    assert_eq!(config_dir_from(None, None), None);
}

#[test]
fn manager_without_file_starts_empty() {
    let m = HistoryManager::new("/home/u", None);
    assert_eq!(m.history_file(), "/home/u/.powder.history");
    assert!(m.get_history().is_empty());
    assert_eq!(m.history().max_entries(), HISTORY_LIMIT);
    assert_eq!(HISTORY_LIMIT, 10);
}

#[test]
fn manager_keeps_stored_history() {
    let stored = History::from_parts(vec![HistoryEntry { path: "/old".to_string(), timestamp: 5 }], 10);
    let mut m = HistoryManager::new("/home/u", Some(stored));
    assert_eq!(m.get_history().len(), 1);
    m.add_current_directory("/new".to_string());
    let h = m.get_history();
    assert_eq!(h.len(), 2);
    assert_eq!(h[0].path, "/new");
    assert_eq!(h[1].path, "/old");
}

#[test]
fn history_limit_is_ten() {
    let mut m = HistoryManager::new("/h", None);
    for i in 0..15 {
        m.add_current_directory(format!("/d{}", i));
    }
    let h = m.get_history();
    assert_eq!(h.len(), 10);
    assert_eq!(h[0].path, "/d14");
    assert_eq!(h[9].path, "/d5");
}

#[test]
fn run_of_visits_keeps_latest_distinct() {
    let mut h = History::new(3);
    for (i, p) in ["/a", "/b", "/a", "/c", "/d", "/b"].iter().enumerate() {
        h.add_entry_at(p.to_string(), i as u64);
    }
    assert_eq!(paths(&h), vec!["/b", "/d", "/c"]);
    let mut h = History::new(10);
    for p in ["/1", "/2", "/3", "/4"] {
        h.add_entry(p.to_string());
    }
    assert_eq!(h.len(), 4);
    assert_eq!(h.len(), h.get_entries().len());
    assert_eq!(paths(&h), vec!["/4", "/3", "/2", "/1"]);
}
