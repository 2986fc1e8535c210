use devstrip::discover::{collect_keep_latest, collect_whole_directory};
use devstrip::model::{Candidate, FsNode, NodeKind, NodeMeta, ScanConfig, Snapshot};
use devstrip::scan::{gather_candidates, scan, scan_with_callback};
use devstrip::size::calculate_size;
use devstrip::walk::collect_matching_dirs;
use std::cell::RefCell;

const DAY: i128 = 86_400_000_000_000;
const NOW: i128 = 1_000 * DAY;

fn file(path: &str, len: u64) -> FsNode {
    FsNode {
        path: path.to_string(),
        canonical: path.to_string(),
        name: path.rsplit('/').next().map(|n| n.to_string()),
        exists: true,
        is_dir: false,
        meta: Some(NodeMeta { kind: NodeKind::Other, len, modified: Some(NOW - DAY) }),
        entries: None,
    }
}

fn dir(path: &str, age_days: i128, entries: Vec<FsNode>) -> FsNode {
    FsNode {
        path: path.to_string(),
        canonical: path.to_string(),
        name: path.rsplit('/').next().map(|n| n.to_string()),
        exists: true,
        is_dir: true,
        meta: Some(NodeMeta {
            kind: NodeKind::Directory,
            len: 4096,
            modified: Some(NOW - age_days * DAY),
        }),
        entries: Some(entries),
    }
}

fn link(path: &str, target_is_dir: bool) -> FsNode {
    FsNode {
        path: path.to_string(),
        canonical: path.to_string(),
        name: path.rsplit('/').next().map(|n| n.to_string()),
        exists: true,
        is_dir: target_is_dir,
        meta: Some(NodeMeta { kind: NodeKind::Symlink, len: 11, modified: Some(NOW - 40 * DAY) }),
        entries: None,
    }
}

fn config(roots: &[&str], excludes: &[&str]) -> ScanConfig {
    ScanConfig {
        roots: roots.iter().map(|r| r.to_string()).collect(),
        min_age_days: 2,
        max_depth: 5,
        keep_latest_derived: 1,
        keep_latest_cache: 1,
        exclude_paths: excludes.iter().map(|r| r.to_string()).collect(),
    }
}

fn snapshot(nodes: Vec<FsNode>) -> Snapshot {
    Snapshot { home: Some("/home/u".to_string()), taken_at: NOW, nodes }
}

fn paths(found: &[Candidate]) -> Vec<String> {
    found.iter().map(|c| c.path.clone()).collect()
}

fn quiet(_message: &str) {}

#[test]
fn stale_build_directory_is_flagged_and_fresh_source_is_not() {
    let root = dir(
        "/w/app",
        1,
        vec![
            dir("/w/app/build", 30, vec![file("/w/app/build/out.o", 500)]),
            dir("/w/app/src", 1, vec![file("/w/app/src/main.rs", 90)]),
        ],
    );
    let found = scan(&config(&["/w/app"], &[]), &snapshot(vec![root]));
    assert_eq!(found.len(), 1);
    assert_eq!(found[0].path, "/w/app/build");
    assert_eq!(found[0].size_bytes, 500);
    assert_eq!(found[0].category, "Project");
    assert!(found[0].reason.contains("build"));
    assert_eq!(found[0].reason, "Stale build or cache (build)");
    assert_eq!(found[0].last_used, Some(NOW - 30 * DAY));
}

#[test]
fn keep_latest_flags_all_but_the_newest() {
    let base = dir(
        "/home/u/Library/Caches/Homebrew",
        1,
        vec![
            dir("/home/u/Library/Caches/Homebrew/B", 20, vec![file("/home/u/Library/Caches/Homebrew/B/f", 7)]),
            dir("/home/u/Library/Caches/Homebrew/C", 10, vec![file("/home/u/Library/Caches/Homebrew/C/f", 9)]),
            dir("/home/u/Library/Caches/Homebrew/A", 30, vec![file("/home/u/Library/Caches/Homebrew/A/f", 5)]),
        ],
    );
    let found = scan(&config(&[], &[]), &snapshot(vec![base]));
    let mut names = paths(&found);
    names.sort();
    assert_eq!(
        names,
        vec![
            "/home/u/Library/Caches/Homebrew/A".to_string(),
            "/home/u/Library/Caches/Homebrew/B".to_string(),
        ]
    );
    assert!(found.iter().all(|c| c.category == "Homebrew"));
    assert!(found.iter().all(|c| c.reason == "Homebrew download cache"));
}

#[test]
fn keep_latest_ranks_by_recency_and_skips_what_holds_nothing() {
    let base = dir(
        "/d",
        1,
        vec![
            dir("/d/old", 50, vec![file("/d/old/f", 3)]),
            file("/d/plain", 100),
            dir("/d/new", 1, vec![file("/d/new/f", 3)]),
            dir("/d/empty", 60, vec![]),
            dir("/d/mid", 20, vec![file("/d/mid/f", 4)]),
            link("/d/link", true),
        ],
    );
    let found = collect_keep_latest(&base, 1, "Xcode", "Old DerivedData projects", &vec![], &quiet);
    assert_eq!(paths(&found), vec!["/d/mid".to_string(), "/d/old".to_string()]);
    assert_eq!(found[0].last_used, Some(NOW - 20 * DAY));
    assert_eq!(found[0].size_bytes, 4);
    let all = collect_keep_latest(&base, 0, "Xcode", "r", &vec![], &quiet);
    assert_eq!(paths(&all), vec!["/d/new".to_string(), "/d/mid".to_string(), "/d/old".to_string()]);
    let none = collect_keep_latest(&base, 4, "Xcode", "r", &vec![], &quiet);
    assert!(none.is_empty());
}

#[test]
fn keep_latest_of_equal_times_keeps_listing_order() {
    let base = dir(
        "/d",
        1,
        vec![
            dir("/d/x", 5, vec![file("/d/x/f", 1)]),
            dir("/d/y", 5, vec![file("/d/y/f", 1)]),
            dir("/d/z", 5, vec![file("/d/z/f", 1)]),
        ],
    );
    let found = collect_keep_latest(&base, 1, "c", "r", &vec![], &quiet);
    assert_eq!(paths(&found), vec!["/d/y".to_string(), "/d/z".to_string()]);
}

#[test]
fn keep_latest_passes_over_excluded_children_and_excluded_base() {
    let base = dir(
        "/d",
        1,
        vec![
            dir("/d/a", 9, vec![file("/d/a/f", 1)]),
            dir("/d/b", 8, vec![file("/d/b/f", 1)]),
            dir("/d/c", 7, vec![file("/d/c/f", 1)]),
        ],
    );
    let found = collect_keep_latest(&base, 1, "c", "r", &vec!["/d/c".to_string()], &quiet);
    assert_eq!(paths(&found), vec!["/d/a".to_string()]);
    let nothing = collect_keep_latest(&base, 0, "c", "r", &vec!["/".to_string()], &quiet);
    assert!(nothing.is_empty());
}

#[test]
fn whole_directory_uses_its_own_time_and_needs_bytes() {
    let full = dir("/home/u/.npm", 3, vec![dir("/home/u/.npm/x", 1, vec![file("/home/u/.npm/x/f", 12)])]);
    let found = collect_whole_directory(&full, "Node", "npm cache", &vec![], &quiet);
    assert_eq!(found.len(), 1);
    assert_eq!(found[0].path, "/home/u/.npm");
    assert_eq!(found[0].size_bytes, 12);
    assert_eq!(found[0].last_used, Some(NOW - 3 * DAY));
    assert_eq!(found[0].category, "Node");
    assert_eq!(found[0].reason, "npm cache");
    let empty = dir("/home/u/.npm", 3, vec![]);
    assert!(collect_whole_directory(&empty, "Node", "npm cache", &vec![], &quiet).is_empty());
    let mut missing = dir("/home/u/.npm", 3, vec![file("/home/u/.npm/f", 1)]);
    missing.exists = false;
    assert!(collect_whole_directory(&missing, "Node", "npm cache", &vec![], &quiet).is_empty());
    assert!(collect_whole_directory(&full, "Node", "npm cache", &vec!["/home".to_string()], &quiet)
        .is_empty());
}

#[test]
fn size_counts_files_follows_directories_and_skips_links() {
    let tree = dir(
        "/t",
        1,
        vec![
            file("/t/a", 10),
            link("/t/l", true),
            dir("/t/d", 1, vec![file("/t/d/b", 20), dir("/t/d/e", 1, vec![file("/t/d/e/c", 30)])]),
        ],
    );
    assert_eq!(calculate_size(&tree), 60);
    assert_eq!(calculate_size(&file("/f", 77)), 77);
    assert_eq!(calculate_size(&link("/l", true)), 11);
    let mut unreadable = dir("/u", 1, vec![]);
    unreadable.entries = None;
    assert_eq!(calculate_size(&unreadable), 0);
    let mut unknown = file("/x", 5);
    unknown.meta = None;
    assert_eq!(calculate_size(&unknown), 0);
    let mut hidden = file("/t/h", 5);
    hidden.meta = None;
    assert_eq!(calculate_size(&dir("/t", 1, vec![hidden, file("/t/a", 2)])), 2);
}

#[test]
fn size_stops_at_the_largest_value() {
    let tree = dir("/t", 1, vec![file("/t/a", u64::MAX - 1), file("/t/b", 5), file("/t/c", 5)]);
    assert_eq!(calculate_size(&tree), u64::MAX);
}

#[test]
fn walk_respects_depth() {
    let deep = dir(
        "/r",
        1,
        vec![
            dir("/r/build", 30, vec![file("/r/build/f", 1)]),
            dir(
                "/r/a",
                1,
                vec![
                    dir("/r/a/dist", 30, vec![file("/r/a/dist/f", 2)]),
                    dir("/r/a/b", 1, vec![dir("/r/a/b/target", 30, vec![file("/r/a/b/target/f", 3)])]),
                ],
            ),
        ],
    );
    let fs = snapshot(vec![deep]);
    let roots = vec!["/r".to_string()];
    let at = |depth: u32| {
        paths(&collect_matching_dirs(&roots, &fs, "Project", "Stale", 2, depth, &vec![], &quiet))
    };
    assert_eq!(at(0), vec!["/r/build".to_string()]);
    assert_eq!(at(1), vec!["/r/build".to_string(), "/r/a/dist".to_string()]);
    assert_eq!(
        at(2),
        vec!["/r/build".to_string(), "/r/a/dist".to_string(), "/r/a/b/target".to_string()]
    );
    assert_eq!(at(u32::MAX), at(2));
}

#[test]
fn walk_is_breadth_first_and_does_not_enter_what_it_flags() {
    let tree = dir(
        "/r",
        1,
        vec![
            dir("/r/x", 1, vec![dir("/r/x/out", 9, vec![file("/r/x/out/f", 1)])]),
            dir(
                "/r/node_modules",
                9,
                vec![dir("/r/node_modules/build", 9, vec![file("/r/node_modules/build/f", 5)])],
            ),
            dir("/r/y", 1, vec![dir("/r/y/dist", 9, vec![file("/r/y/dist/f", 1)])]),
        ],
    );
    let fs = snapshot(vec![tree]);
    let found = collect_matching_dirs(
        &vec!["/r".to_string()],
        &fs,
        "Project",
        "Stale",
        2,
        5,
        &vec![],
        &quiet,
    );
    assert_eq!(
        paths(&found),
        vec!["/r/node_modules".to_string(), "/r/x/out".to_string(), "/r/y/dist".to_string()]
    );
    assert_eq!(found[0].size_bytes, 5);
}

#[test]
fn walk_skips_links_skip_names_excludes_and_nameless_entries() {
    let mut nameless = dir("/r/build", 30, vec![file("/r/build/f", 1)]);
    nameless.name = None;
    let mut flagged_link = link("/r/dist", true);
    flagged_link.entries = Some(vec![file("/r/dist/f", 9)]);
    let tree = dir(
        "/r",
        1,
        vec![
            nameless,
            flagged_link,
            dir("/r/.git", 30, vec![dir("/r/.git/build", 30, vec![file("/r/.git/build/f", 1)])]),
            dir("/r/.gradle", 30, vec![file("/r/.gradle/f", 1)]),
            dir("/r/keep", 1, vec![dir("/r/keep/target", 30, vec![file("/r/keep/target/f", 1)])]),
            dir("/r/target", 30, vec![]),
            file("/r/out", 100),
            dir("/r/ok", 1, vec![dir("/r/ok/target", 30, vec![file("/r/ok/target/f", 4)])]),
        ],
    );
    let fs = snapshot(vec![tree]);
    let found = collect_matching_dirs(
        &vec!["/r".to_string()],
        &fs,
        "Project",
        "Stale",
        2,
        5,
        &vec!["/r/keep".to_string()],
        &quiet,
    );
    assert_eq!(paths(&found), vec!["/r/ok/target".to_string()]);
}

#[test]
fn walk_passes_over_roots_that_are_excluded_missing_or_no_directory() {
    let good = dir("/a", 1, vec![dir("/a/build", 30, vec![file("/a/build/f", 1)])]);
    let excluded = dir("/x/b", 1, vec![dir("/x/b/build", 30, vec![file("/x/b/build/f", 1)])]);
    let mut not_dir = dir("/c", 1, vec![dir("/c/build", 30, vec![file("/c/build/f", 1)])]);
    not_dir.is_dir = false;
    let fs = snapshot(vec![good, excluded, not_dir]);
    let roots: Vec<String> = ["/gone", "/x/b", "/c", "/a"].iter().map(|s| s.to_string()).collect();
    let found =
        collect_matching_dirs(&roots, &fs, "Project", "Stale", 2, 5, &vec!["/x".to_string()], &quiet);
    assert_eq!(paths(&found), vec!["/a/build".to_string()]);
}

#[test]
fn age_filter_spares_recent_directories_but_never_pycache() {
    let tree = dir(
        "/r",
        1,
        vec![
            dir("/r/build", 1, vec![file("/r/build/f", 1)]),
            dir("/r/__pycache__", 0, vec![file("/r/__pycache__/f", 2)]),
            dir("/r/dist", 2, vec![file("/r/dist/f", 3)]),
            dir("/r/pkg.egg-info", 3, vec![file("/r/pkg.egg-info/f", 4)]),
        ],
    );
    let fs = snapshot(vec![tree]);
    let roots = vec!["/r".to_string()];
    let found = collect_matching_dirs(&roots, &fs, "Project", "Stale", 2, 5, &vec![], &quiet);
    assert_eq!(paths(&found), vec!["/r/__pycache__".to_string(), "/r/pkg.egg-info".to_string()]);
    assert_eq!(found[0].reason, "Stale");
    assert_eq!(found[1].reason, "Stale (pkg.egg-info)");
    let all = collect_matching_dirs(&roots, &fs, "Project", "Stale", 0, 5, &vec![], &quiet);
    assert_eq!(all.len(), 4);
}

#[test]
fn a_directory_without_a_known_time_passes_the_age_filter() {
    let mut undated = dir("/r/build", 0, vec![file("/r/build/f", 1)]);
    undated.meta = Some(NodeMeta { kind: NodeKind::Directory, len: 0, modified: None });
    let fs = snapshot(vec![dir("/r", 1, vec![undated])]);
    let found =
        collect_matching_dirs(&vec!["/r".to_string()], &fs, "Project", "Stale", 2, 5, &vec![], &quiet);
    assert_eq!(found.len(), 1);
    assert_eq!(found[0].last_used, None);
}

#[test]
fn scan_orders_by_size_then_category_then_path_and_drops_duplicates() {
    let pip = dir("/home/u/.cache/pip", 1, vec![file("/home/u/.cache/pip/f", 50)]);
    let npm = dir("/home/u/.npm", 1, vec![file("/home/u/.npm/f", 50)]);
    let root = dir(
        "/home/u",
        1,
        vec![
            dir("/home/u/.npm", 30, vec![file("/home/u/.npm/f", 50)]),
            dir("/home/u/zz", 1, vec![dir("/home/u/zz/build", 30, vec![file("/home/u/zz/build/f", 50)])]),
            dir("/home/u/aa", 1, vec![dir("/home/u/aa/build", 30, vec![file("/home/u/aa/build/f", 50)])]),
            dir("/home/u/big", 1, vec![dir("/home/u/big/target", 30, vec![file("/home/u/big/target/f", 900)])]),
            dir("/home/u/.cache", 30, vec![file("/home/u/.cache/f", 1)]),
        ],
    );
    let mut cfg = config(&["/home/u", "/home/u"], &[]);
    cfg.min_age_days = 2;
    let found = scan(&cfg, &snapshot(vec![pip, npm, root]));
    let got: Vec<(String, u64, String)> =
        found.iter().map(|c| (c.path.clone(), c.size_bytes, c.category.clone())).collect();
    assert_eq!(
        got,
        vec![
            ("/home/u/big/target".to_string(), 900, "Project".to_string()),
            ("/home/u/.npm".to_string(), 50, "Node".to_string()),
            ("/home/u/aa/build".to_string(), 50, "Project".to_string()),
            ("/home/u/zz/build".to_string(), 50, "Project".to_string()),
            ("/home/u/.cache/pip".to_string(), 50, "Python".to_string()),
            ("/home/u/.cache".to_string(), 1, "Project".to_string()),
        ]
    );
}

#[test]
fn scan_twice_gives_the_same_list() {
    let root = dir(
        "/w",
        1,
        vec![
            dir("/w/build", 30, vec![file("/w/build/a", 5)]),
            dir("/w/dist", 30, vec![file("/w/dist/a", 5)]),
            dir("/w/p", 1, vec![dir("/w/p/out", 30, vec![file("/w/p/out/a", 7)])]),
        ],
    );
    let fs = snapshot(vec![root]);
    let cfg = config(&["/w"], &[]);
    let first = scan(&cfg, &fs);
    let second = scan(&cfg, &fs);
    assert_eq!(paths(&first), paths(&second));
    assert_eq!(paths(&first), vec!["/w/p/out".to_string(), "/w/build".to_string(), "/w/dist".to_string()]);
}

#[test]
fn scan_never_reports_what_is_excluded_or_empty() {
    let root = dir(
        "/w",
        1,
        vec![
            dir("/w/build", 30, vec![file("/w/build/a", 5)]),
            dir("/w/dist", 30, vec![]),
            dir("/w/sub", 1, vec![dir("/w/sub/target", 30, vec![file("/w/sub/target/a", 5)])]),
            dir("/w/subway", 1, vec![dir("/w/subway/target", 30, vec![file("/w/subway/target/a", 6)])]),
        ],
    );
    let found = scan(&config(&["/w"], &["/w/sub", "/w/build"]), &snapshot(vec![root]));
    assert_eq!(paths(&found), vec!["/w/subway/target".to_string()]);
    assert!(found.iter().all(|c| c.size_bytes > 0));
}

#[test]
fn scan_uses_the_canonical_path_for_exclusion_and_duplicates() {
    let mut via_link = dir("/w/build", 30, vec![file("/w/build/a", 5)]);
    via_link.canonical = "/real/build".to_string();
    let mut again = dir("/v/build", 30, vec![file("/v/build/a", 5)]);
    again.canonical = "/real/build".to_string();
    let w = dir("/w", 1, vec![via_link]);
    let v = dir("/v", 1, vec![again]);
    let fs = snapshot(vec![w, v]);
    let found = scan(&config(&["/w", "/v"], &[]), &fs);
    assert_eq!(paths(&found), vec!["/w/build".to_string()]);
    assert_eq!(found[0].canonical, "/real/build");
    let none = scan(&config(&["/w", "/v"], &["/real"]), &fs);
    assert!(none.is_empty());
}

#[test]
fn scan_looks_below_the_current_directory_without_a_home() {
    let pip = dir("./.cache/pip", 1, vec![file("./.cache/pip/f", 8)]);
    let fs = Snapshot { home: None, taken_at: NOW, nodes: vec![pip] };
    let found = scan(&config(&[], &[]), &fs);
    assert_eq!(paths(&found), vec!["./.cache/pip".to_string()]);
    assert_eq!(found[0].reason, "pip cache");
}

#[test]
fn scan_reports_each_path_it_turns_to() {
    let derived = dir(
        "/home/u/Library/Developer/Xcode/DerivedData",
        1,
        vec![
            dir("/home/u/Library/Developer/Xcode/DerivedData/App-1", 9, vec![]),
            file("/home/u/Library/Developer/Xcode/DerivedData/info.plist", 3),
        ],
    );
    let root = dir("/w", 1, vec![dir("/w/a", 1, vec![]), dir("/w/build", 30, vec![file("/w/build/f", 1)])]);
    let seen: RefCell<Vec<String>> = RefCell::new(Vec::new());
    let found = scan_with_callback(&config(&["/w"], &[]), &snapshot(vec![derived, root]), |m: &str| {
        seen.borrow_mut().push(m.to_string())
    });
    assert_eq!(paths(&found), vec!["/w/build".to_string()]);
    assert_eq!(
        seen.into_inner(),
        vec![
            "Scanning: /home/u/Library/Developer/Xcode/DerivedData".to_string(),
            "Scanning: /home/u/Library/Developer/Xcode/DerivedData/App-1".to_string(),
            "Scanning: /home/u/Library/Developer/Xcode/DerivedData/info.plist".to_string(),
            "Scanning: /w".to_string(),
            "Scanning: /w".to_string(),
            "Scanning: /w/a".to_string(),
        ]
    );
}

#[test]
fn gather_is_what_scan_returns() {
    let root = dir("/w", 1, vec![dir("/w/build", 30, vec![file("/w/build/a", 5)])]);
    let fs = snapshot(vec![root]);
    let cfg = config(&["/w"], &[]);
    assert_eq!(paths(&gather_candidates(&cfg, &fs, &quiet)), paths(&scan(&cfg, &fs)));
}

#[test]
fn the_first_node_of_a_path_stands_for_it() {
    let first = dir("/w", 1, vec![dir("/w/build", 30, vec![file("/w/build/a", 5)])]);
    let second = dir("/w", 1, vec![dir("/w/dist", 30, vec![file("/w/dist/a", 5)])]);
    let fs = snapshot(vec![first, second]);
    assert_eq!(fs.find("/w").map(|n| n.entries.as_ref().map(|e| e[0].path.clone())), Some(Some("/w/build".to_string())));
    assert!(fs.find("/x").is_none());
    assert_eq!(paths(&scan(&config(&["/w"], &[]), &fs)), vec!["/w/build".to_string()]);
}

#[test]
fn without_an_age_filter_times_change_nothing_but_the_time_of_last_use() {
    let shape = |build_age: i128, dist_age: i128, src_age: i128| {
        snapshot(vec![dir(
            "/w",
            src_age,
            vec![
                dir("/w/build", build_age, vec![file("/w/build/a", 5)]),
                dir("/w/src", src_age, vec![dir("/w/src/dist", dist_age, vec![file("/w/src/dist/a", 7)])]),
            ],
        )])
    };
    let roots = vec!["/w".to_string()];
    let walk = |fs: &Snapshot| collect_matching_dirs(&roots, fs, "Project", "Stale", 0, 5, &vec![], &quiet);
    let old = walk(&shape(300, 200, 100));
    let new = walk(&shape(0, 0, 0));
    let key = |found: &[Candidate]| -> Vec<(String, u64, String, String)> {
        found
            .iter()
            .map(|c| (c.path.clone(), c.size_bytes, c.category.clone(), c.reason.clone()))
            .collect()
    };
    assert_eq!(key(&old), key(&new));
    assert_eq!(paths(&old), vec!["/w/build".to_string(), "/w/src/dist".to_string()]);
    assert_ne!(old[0].last_used, new[0].last_used);
}
