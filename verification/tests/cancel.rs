use devstrip::cleanup::{cleanup_with_cancel, CleanupProgress, Removal};
use devstrip::discover::{collect_keep_latest_with_cancel, collect_whole_directory_with_cancel};
use devstrip::model::{Candidate, FsNode, NodeKind, NodeMeta, ScanConfig, Snapshot};
use devstrip::scan::{gather_candidates_with_cancel, scan, scan_with_cancel};
use devstrip::walk::{collect_matching_dirs_with_cancel, examine, Verdict};
use devstrip::classify::{project_patterns, skip_dirs};
use std::cell::Cell;

const DAY: i128 = 86_400_000_000_000;
const NOW: i128 = 1_000 * DAY;

fn leaf(path: &str, len: u64) -> FsNode {
    FsNode {
        path: path.to_string(),
        canonical: path.to_string(),
        name: path.rsplit('/').next().map(|n| n.to_string()),
        exists: true,
        is_dir: false,
        meta: Some(NodeMeta { kind: NodeKind::Other, len, modified: Some(NOW - DAY) }),
        entries: None,
    }
}

fn folder(path: &str, age_days: i128, entries: Vec<FsNode>) -> FsNode {
    FsNode {
        path: path.to_string(),
        canonical: path.to_string(),
        name: path.rsplit('/').next().map(|n| n.to_string()),
        exists: true,
        is_dir: true,
        meta: Some(NodeMeta {
            kind: NodeKind::Directory,
            len: 4096,
            modified: Some(NOW - age_days * DAY),
        }),
        entries: Some(entries),
    }
}

fn stale(path: &str, len: u64) -> FsNode {
    folder(path, 30, vec![leaf(&format!("{}/f", path), len)])
}

fn world() -> (ScanConfig, Snapshot) {
    let brew = folder(
        "/home/u/Library/Caches/Homebrew",
        1,
        vec![
            stale("/home/u/Library/Caches/Homebrew/a", 40),
            stale("/home/u/Library/Caches/Homebrew/b", 30),
        ],
    );
    let npm = folder("/home/u/.npm", 3, vec![leaf("/home/u/.npm/f", 20)]);
    let root = folder(
        "/w",
        1,
        vec![
            stale("/w/build", 10),
            folder("/w/p", 1, vec![stale("/w/p/target", 5)]),
            folder("/w/q", 1, vec![stale("/w/q/dist", 3)]),
        ],
    );
    let config = ScanConfig {
        roots: vec!["/w".to_string()],
        min_age_days: 2,
        max_depth: 5,
        keep_latest_derived: 0,
        keep_latest_cache: 0,
        exclude_paths: Vec::new(),
    };
    (config, Snapshot { home: Some("/home/u".to_string()), taken_at: NOW, nodes: vec![brew, npm, root] })
}

fn paths(found: &[Candidate]) -> Vec<String> {
    found.iter().map(|c| c.path.clone()).collect()
}

fn quiet(_message: &str) {}

#[test]
fn a_scan_that_is_never_stopped_is_a_whole_scan() {
    let (config, fs) = world();
    let whole = scan(&config, &fs);
    let found = scan_with_cancel(&config, &fs, || false, quiet);
    assert_eq!(paths(&found), paths(&whole));
    assert_eq!(
        paths(&whole),
        vec![
            "/home/u/Library/Caches/Homebrew/a",
            "/home/u/Library/Caches/Homebrew/b",
            "/home/u/.npm",
            "/w/build",
            "/w/p/target",
            "/w/q/dist",
        ]
    );
}

#[test]
fn a_scan_that_is_stopped_at_once_finds_nothing() {
    let (config, fs) = world();
    let asked = Cell::new(0usize);
    let found = scan_with_cancel(
        &config,
        &fs,
        || {
            asked.set(asked.get() + 1);
            true
        },
        |_m: &str| panic!("a stopped scan turned to a path"),
    );
    assert!(found.is_empty());
    assert_eq!(asked.get(), 1);
}

#[test]
fn a_stopped_scan_hands_out_part_of_the_whole_in_order() {
    let (config, fs) = world();
    let whole = paths(&scan(&config, &fs));
    let mut lengths = Vec::new();
    for allowed in 0..60usize {
        let asked = Cell::new(0usize);
        let (found, stopped) = gather_candidates_with_cancel(
            &config,
            &fs,
            &|| {
                asked.set(asked.get() + 1);
                asked.get() > allowed
            },
            &quiet,
        );
        let got = paths(&found);
        assert!(got.iter().all(|p| whole.contains(p)), "{:?}", got);
        assert!(found.windows(2).all(|w| w[0].size_bytes >= w[1].size_bytes));
        assert_eq!(stopped, asked.get() > allowed);
        if !stopped {
            assert_eq!(got, whole);
        }
        lengths.push(got.len());
    }
    assert!(lengths.windows(2).all(|w| w[0] <= w[1]));
    assert_eq!(lengths[0], 0);
    assert_eq!(*lengths.last().unwrap(), whole.len());
    assert!(lengths.iter().any(|n| *n > 0 && *n < whole.len()));
}

#[test]
fn an_unfinished_ranking_flags_nothing() {
    let base = folder("/d", 1, vec![stale("/d/old", 1), stale("/d/older", 1), folder("/d/new", 1, vec![leaf("/d/new/f", 1)])]);
    let asked = Cell::new(0usize);
    let until = |limit: usize| {
        asked.set(0);
        collect_keep_latest_with_cancel(
            &base,
            1,
            "c",
            "r",
            &vec![],
            &|| {
                asked.set(asked.get() + 1);
                asked.get() > limit
            },
            &quiet,
        )
    };
    for limit in 0..4 {
        let (found, stopped) = until(limit);
        assert!(stopped);
        assert!(found.is_empty());
    }
    let (found, stopped) = until(4);
    assert!(stopped);
    assert!(found.is_empty());
    let (found, stopped) = until(5);
    assert!(stopped);
    assert_eq!(paths(&found), vec!["/d/old"]);
    let (found, stopped) = until(6);
    assert!(!stopped);
    assert_eq!(paths(&found), vec!["/d/old", "/d/older"]);
}

#[test]
fn a_stopped_whole_directory_scan_flags_nothing() {
    let node = folder("/home/u/.npm", 3, vec![leaf("/home/u/.npm/f", 20)]);
    let (found, stopped) = collect_whole_directory_with_cancel(&node, "Node", "npm cache", &vec![], &|| true, &quiet);
    assert!(stopped && found.is_empty());
    let (found, stopped) = collect_whole_directory_with_cancel(&node, "Node", "npm cache", &vec![], &|| false, &quiet);
    assert!(!stopped);
    assert_eq!(paths(&found), vec!["/home/u/.npm"]);
}

#[test]
fn a_walk_is_stopped_between_directories() {
    let (_, fs) = world();
    let roots = vec!["/w".to_string()];
    let asked = Cell::new(0usize);
    let until = |limit: usize| {
        asked.set(0);
        collect_matching_dirs_with_cancel(
            &roots,
            &fs,
            "Project",
            "Stale",
            2,
            5,
            &vec![],
            &|| {
                asked.set(asked.get() + 1);
                asked.get() > limit
            },
            &quiet,
        )
    };
    let (found, stopped) = until(0);
    assert!(stopped && found.is_empty());
    let (found, stopped) = until(1);
    assert!(stopped);
    assert_eq!(paths(&found), vec!["/w/build"]);
    let (found, stopped) = until(2);
    assert!(stopped);
    assert_eq!(paths(&found), vec!["/w/build", "/w/p/target"]);
    let (found, stopped) = until(3);
    assert!(!stopped);
    assert_eq!(paths(&found), vec!["/w/build", "/w/p/target", "/w/q/dist"]);
}

#[test]
fn a_stopped_cleanup_leaves_the_rest_alone() {
    let list: Vec<Candidate> = ["/a", "/b", "/c"]
        .iter()
        .map(|p| Candidate {
            path: p.to_string(),
            canonical: p.to_string(),
            size_bytes: 1,
            category: "c".to_string(),
            reason: "r".to_string(),
            last_used: None,
        })
        .collect();
    let asked = Cell::new(0usize);
    let removed = Cell::new(0usize);
    let results = cleanup_with_cancel(
        &list,
        false,
        || {
            asked.set(asked.get() + 1);
            asked.get() > 2
        },
        |_p: CleanupProgress<'_>| {},
        |_c: &Candidate| Some(NodeKind::Directory),
        |_c: &Candidate, _how: Removal| {
            removed.set(removed.get() + 1);
            Ok(())
        },
    );
    assert_eq!(results.len(), 2);
    assert_eq!(removed.get(), 2);
    assert_eq!(results[1].candidate.path, "/b");
    let all = cleanup_with_cancel(
        &list,
        true,
        || false,
        |_p: CleanupProgress<'_>| {},
        |_c: &Candidate| None,
        |_c: &Candidate, _how: Removal| Ok(()),
    );
    assert_eq!(all.len(), 3);
}

#[test]
fn each_entry_gets_its_verdict() {
    let patterns = project_patterns();
    let skip = skip_dirs();
    let verdict = |entry: &FsNode, excludes: &Vec<String>| {
        examine(entry, "Stale", &patterns, &skip, Some(NOW - 2 * DAY), excludes)
    };
    assert!(matches!(verdict(&stale("/w/build", 1), &vec![]), Verdict::Flag(text) if text == "Stale (build)"));
    assert!(matches!(verdict(&folder("/w/build", 1, vec![]), &vec![]), Verdict::Enter));
    assert!(matches!(verdict(&folder("/w/src", 40, vec![]), &vec![]), Verdict::Enter));
    assert!(matches!(verdict(&folder("/w/.git", 40, vec![]), &vec![]), Verdict::Skip));
    assert!(matches!(verdict(&leaf("/w/build", 1), &vec![]), Verdict::Skip));
    assert!(matches!(verdict(&stale("/w/build", 1), &vec!["/w".to_string()]), Verdict::Skip));
    assert!(matches!(
        verdict(&folder("/w/__pycache__", 0, vec![]), &vec![]),
        Verdict::Flag(text) if text == "Stale"
    ));
}
