use devstrip::cleanup::{cleanup_with_callback, CleanupProgress, Removal};
use devstrip::discover::{collect_keep_latest, collect_whole_directory};
use devstrip::model::{Candidate, FsNode, NodeKind, NodeMeta, ScanConfig, Snapshot};
use devstrip::scan::scan_with_callback;
use devstrip::walk::{capture_need, collect_matching_dirs, CaptureNeed, Verdict};
use std::cell::RefCell;

const DAY: i128 = 86_400_000_000_000;
const NOW: i128 = 1_000 * DAY;

fn plain(path: &str, len: u64) -> FsNode {
    FsNode {
        path: path.to_string(),
        canonical: path.to_string(),
        name: path.rsplit('/').next().map(|n| n.to_string()),
        exists: true,
        is_dir: false,
        meta: Some(NodeMeta { kind: NodeKind::Other, len, modified: Some(NOW - DAY) }),
        entries: None,
    }
}

fn tree(path: &str, age_days: i128, entries: Vec<FsNode>) -> FsNode {
    FsNode {
        path: path.to_string(),
        canonical: path.to_string(),
        name: path.rsplit('/').next().map(|n| n.to_string()),
        exists: true,
        is_dir: true,
        meta: Some(NodeMeta {
            kind: NodeKind::Directory,
            len: 4096,
            modified: Some(NOW - age_days * DAY),
        }),
        entries: Some(entries),
    }
}

fn never(message: &str) {
    panic!("the sink was handed {:?}", message);
}

#[test]
fn a_walk_without_roots_tells_the_sink_nothing() {
    let fs = Snapshot { home: None, taken_at: NOW, nodes: vec![tree("/w", 1, vec![])] };
    let found = collect_matching_dirs(
        &Vec::new(),
        &fs,
        "Project",
        "Stale build or cache",
        u64::MAX,
        0,
        &Vec::new(),
        &never,
    );
    assert!(found.is_empty());
}

#[test]
fn a_missing_or_excluded_base_is_not_reported() {
    let base = tree("/d", 1, vec![tree("/d/a", 9, vec![plain("/d/a/f", 1)])]);
    assert!(collect_keep_latest(&base, 0, "c", "r", &vec!["/d".to_string()], &never).is_empty());
    assert!(collect_whole_directory(&base, "c", "r", &vec!["/".to_string()], &never).is_empty());
    let mut gone = tree("/d", 1, vec![]);
    gone.exists = false;
    assert!(collect_keep_latest(&gone, usize::MAX, "c", "r", &Vec::new(), &never).is_empty());
    assert!(collect_whole_directory(&gone, "c", "r", &Vec::new(), &never).is_empty());
}

#[test]
fn keeping_more_than_there_is_flags_nothing() {
    let base = tree(
        "/d",
        1,
        vec![tree("/d/a", 9, vec![plain("/d/a/f", 1)]), tree("/d/b", 8, vec![plain("/d/b/f", 1)])],
    );
    let quiet = |_m: &str| {};
    assert!(collect_keep_latest(&base, 2, "c", "r", &Vec::new(), &quiet).is_empty());
    assert!(collect_keep_latest(&base, usize::MAX, "c", "r", &Vec::new(), &quiet).is_empty());
}

#[test]
fn a_scan_of_what_is_all_excluded_tells_the_sink_nothing() {
    let pip = tree("/home/u/.cache/pip", 1, vec![plain("/home/u/.cache/pip/f", 8)]);
    let root = tree("/w", 1, vec![tree("/w/build", 30, vec![plain("/w/build/f", 1)])]);
    let config = ScanConfig {
        roots: vec!["/w".to_string()],
        min_age_days: 0,
        max_depth: 0,
        keep_latest_derived: 0,
        keep_latest_cache: 0,
        exclude_paths: vec!["/".to_string()],
    };
    let fs = Snapshot { home: Some("/home/u".to_string()), taken_at: NOW, nodes: vec![pip, root] };
    assert!(scan_with_callback(&config, &fs, never).is_empty());
}

#[test]
fn the_sink_never_hears_of_an_excluded_path() {
    let brew = tree(
        "/home/u/Library/Caches/Homebrew",
        1,
        vec![
            tree("/home/u/Library/Caches/Homebrew/a", 9, vec![plain("/home/u/Library/Caches/Homebrew/a/f", 1)]),
            tree("/home/u/Library/Caches/Homebrew/keep", 8, vec![]),
        ],
    );
    let root = tree(
        "/w",
        1,
        vec![
            tree("/w/vendor", 1, vec![tree("/w/vendor/x", 1, vec![])]),
            tree("/w/app", 1, vec![tree("/w/app/src", 1, vec![])]),
        ],
    );
    let config = ScanConfig {
        roots: vec!["/w".to_string()],
        min_age_days: 2,
        max_depth: 5,
        keep_latest_derived: 0,
        keep_latest_cache: 0,
        exclude_paths: vec!["/w/vendor".to_string(), "/home/u/Library/Caches/Homebrew/keep".to_string()],
    };
    let fs = Snapshot { home: Some("/home/u".to_string()), taken_at: NOW, nodes: vec![brew, root] };
    let seen: RefCell<Vec<String>> = RefCell::new(Vec::new());
    scan_with_callback(&config, &fs, |m: &str| seen.borrow_mut().push(m.to_string()));
    let seen = seen.into_inner();
    assert_eq!(
        seen,
        vec![
            "Scanning: /home/u/Library/Caches/Homebrew",
            "Scanning: /home/u/Library/Caches/Homebrew/a",
            "Scanning: /w",
            "Scanning: /w",
            "Scanning: /w/app",
            "Scanning: /w/app/src",
        ]
    );
}

#[test]
fn a_dry_run_tells_the_sink_of_each_candidate() {
    let make = |path: &str, size: u64, reason: &str| Candidate {
        path: path.to_string(),
        canonical: path.to_string(),
        size_bytes: size,
        category: "Project".to_string(),
        reason: reason.to_string(),
        last_used: None,
    };
    let list = vec![make("/w/b/dist", 9, "r0"), make("/w/a/build", 500, "r1")];
    let log: RefCell<Vec<(usize, usize, String)>> = RefCell::new(Vec::new());
    let results = cleanup_with_callback(
        &list,
        true,
        |p: CleanupProgress<'_>| log.borrow_mut().push((p.index, p.total, p.candidate.path.clone())),
        |_c: &Candidate| -> Option<NodeKind> { panic!("a dry run looked at a path") },
        |_c: &Candidate, _h: Removal| -> Result<(), String> { panic!("a dry run removed a path") },
    );
    assert_eq!(results.len(), 2);
    assert_eq!(results[0].candidate.path, "/w/b/dist");
    assert_eq!(results[1].candidate.path, "/w/a/build");
    assert!(results.iter().all(|r| r.success && r.error.is_none()));
    assert_eq!(
        log.into_inner(),
        vec![(0, 2, "/w/b/dist".to_string()), (1, 2, "/w/a/build".to_string())]
    );
}

#[test]
fn the_sink_hears_of_a_candidate_that_cannot_be_removed() {
    let make = |path: &str| Candidate {
        path: path.to_string(),
        canonical: path.to_string(),
        size_bytes: 1,
        category: "c".to_string(),
        reason: "r".to_string(),
        last_used: None,
    };
    let list = vec![make("/a"), make("/b")];
    let told: RefCell<Vec<String>> = RefCell::new(Vec::new());
    let asked: RefCell<Vec<String>> = RefCell::new(Vec::new());
    let results = cleanup_with_callback(
        &list,
        false,
        |p: CleanupProgress<'_>| told.borrow_mut().push(p.candidate.path.clone()),
        |_c: &Candidate| Some(NodeKind::Directory),
        |c: &Candidate, _h: Removal| {
            asked.borrow_mut().push(c.path.clone());
            if c.path == "/a" {
                Err("Device or resource busy (os error 16)".to_string())
            } else {
                Ok(())
            }
        },
    );
    assert!(!results[0].success);
    assert_eq!(results[0].error.as_deref(), Some("Device or resource busy (os error 16)"));
    assert!(results[1].success && results[1].error.is_none());
    assert_eq!(told.into_inner(), vec!["/a", "/b"]);
    assert_eq!(asked.into_inner(), vec!["/a", "/b"]);
}

#[test]
fn a_capture_reads_what_the_walk_will_need() {
    assert_eq!(capture_need(&Verdict::Skip, 0, 5), CaptureNeed::Nothing);
    assert_eq!(capture_need(&Verdict::Flag("r".to_string()), 0, 0), CaptureNeed::Tree);
    assert_eq!(capture_need(&Verdict::Flag("r".to_string()), 9, 5), CaptureNeed::Tree);
    assert_eq!(capture_need(&Verdict::Enter, 0, 1), CaptureNeed::Listing);
    assert_eq!(capture_need(&Verdict::Enter, 4, 5), CaptureNeed::Listing);
    assert_eq!(capture_need(&Verdict::Enter, 5, 5), CaptureNeed::Nothing);
    assert_eq!(capture_need(&Verdict::Enter, 0, 0), CaptureNeed::Nothing);
    assert_eq!(capture_need(&Verdict::Enter, u32::MAX, u32::MAX), CaptureNeed::Nothing);
}
