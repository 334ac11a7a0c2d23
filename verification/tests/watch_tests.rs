use ws::lsp::Diagnostic;
use ws::watch::{detect_changes, diagnostic_line, initial_scan, severity_label, MtimeCache, WatchClock};

#[test]
fn severities_have_labels() {
    let labels: Vec<&str> = (0u8..6).map(severity_label).collect();
    assert_eq!(labels, vec!["", "ERROR", "WARN", "INFO", "HINT", "?"]);
    assert_eq!(severity_label(255), "?");
}

#[test]
fn diagnostics_print_one_based_positions() {
    let d = Diagnostic {
        path: "/w/a.go".to_string(),
        line: 2,
        column: 0,
        severity: 1,
        message: "undefined: x".to_string(),
        code: None,
    };
    assert_eq!(diagnostic_line(&d), "  ERROR 3:1  undefined: x");
}

#[test]
fn reconcile_every_three_hundred_polls() {
    let mut clock = WatchClock::new();
    let mut when = Vec::new();
    for _ in 0..900 {
        if clock.tick() {
            when.push(clock.ticks());
        }
    }
    assert_eq!(when, vec![300, 600, 900]);
}

#[test]
fn only_new_times_of_known_files_are_changes() {
    let mut cache = MtimeCache::new();
    assert!(!cache.observe("/a".to_string(), 5));
    assert!(!cache.observe("/a".to_string(), 5));
    assert!(cache.observe("/a".to_string(), 6));
    assert_eq!(cache.get("/a"), Some(6));
    assert_eq!(cache.get("/b"), None);
    let changed = detect_changes(
        &mut cache,
        &vec![("/a".to_string(), 6), ("/b".to_string(), 1), ("/a".to_string(), 7), ("/b".to_string(), 2)],
    );
    assert_eq!(changed, vec!["/a".to_string(), "/b".to_string()]);
    assert_eq!(cache.get("/b"), Some(2));
}

#[test]
fn first_scan_samples_one_file_per_extension() {
    let files = vec![
        ("/w/a.go".to_string(), Some(1)),
        ("/w/b.go".to_string(), Some(2)),
        ("/w/c.rs".to_string(), None),
        ("/w/d.rs".to_string(), Some(4)),
    ];
    let (cache, samples) = initial_scan(&files);
    assert_eq!(
        samples,
        vec![
            (".go".to_string(), "/w/a.go".to_string()),
            (".rs".to_string(), "/w/c.rs".to_string())
        ]
    );
    assert_eq!(cache.get("/w/b.go"), Some(2));
    assert_eq!(cache.get("/w/c.rs"), None);
    assert_eq!(cache.get("/w/d.rs"), Some(4));
}
