use devstrip::classify::{
    age_cutoff, build_cache_targets, classify_project_dir, home_project_dirs, project_patterns, skip_dirs,
};
use devstrip::model::ScanConfig;
use devstrip::path::{is_excluded, join_path};
use devstrip::roots::{
    build_scan_config, default_roots, expand_path, expand_paths, normalize_paths, scan_targets, PathProbe,
    ScanOptions,
};

fn strings(list: &[&str]) -> Vec<String> {
    list.iter().map(|s| s.to_string()).collect()
}

fn probe(path: &str, canonical: Option<&str>, exists: bool, is_dir: bool) -> PathProbe {
    PathProbe { path: path.to_string(), canonical: canonical.map(|c| c.to_string()), exists, is_dir }
}

#[test]
fn exclusion_covers_a_path_and_all_below_it() {
    let excludes = strings(&["/home/u/keep", "/opt/"]);
    assert!(is_excluded("/home/u/keep", &excludes));
    assert!(is_excluded("/home/u/keep/a/b", &excludes));
    assert!(!is_excluded("/home/u/keeper", &excludes));
    assert!(!is_excluded("/home/u", &excludes));
    assert!(!is_excluded("/home/u/kee", &excludes));
    assert!(is_excluded("/opt/x", &excludes));
    assert!(is_excluded("/opt/", &excludes));
    assert!(is_excluded("/opt", &excludes));
    assert!(!is_excluded("/optional", &excludes));
    assert!(is_excluded("/home/u/keep/", &excludes));
    assert!(is_excluded("/a/b", &strings(&["/a/b/"])));
    assert!(is_excluded("/a/b/c", &strings(&["/a/b//"])));
    assert!(is_excluded("/a/b//", &strings(&["/a"])));
    assert!(!is_excluded("/a", &strings(&["/a/b/"])));
    assert!(is_excluded("/", &strings(&["//"])));
    assert!(!is_excluded("/anything", &Vec::new()));
    assert!(is_excluded("/anything", &strings(&["/"])));
    assert!(!is_excluded("/anything", &strings(&[""])));
    assert!(is_excluded("", &strings(&[""])));
}

#[test]
fn joining_puts_one_separator_between() {
    assert_eq!(join_path("/home/u", "Projects"), "/home/u/Projects");
    assert_eq!(join_path("/home/u/", "Projects"), "/home/u/Projects");
    assert_eq!(join_path("/home/u", ""), "/home/u/");
    assert_eq!(join_path("", "a/b"), "a/b");
    assert_eq!(join_path("/home/u", "/abs"), "/abs");
    assert_eq!(join_path(".", ".cache/pip"), "./.cache/pip");
}

#[test]
fn tilde_stands_for_the_home_directory() {
    assert_eq!(expand_path("~", Some("/home/u")), "/home/u/");
    assert_eq!(expand_path("~/code", Some("/home/u")), "/home/u/code");
    assert_eq!(expand_path("~//code/x", Some("/home/u")), "/home/u/code/x");
    assert_eq!(expand_path("~user/code", Some("/home/u")), "~user/code");
    assert_eq!(expand_path("/abs/~", Some("/home/u")), "/abs/~");
    assert_eq!(expand_path("rel", Some("/home/u")), "rel");
    assert_eq!(expand_path("", Some("/home/u")), "");
    assert_eq!(expand_path("~/code", None), "~/code");
    assert_eq!(
        expand_paths(&strings(&["~/a", "/b"]), Some("/h")),
        strings(&["/h/a", "/b"])
    );
}

#[test]
fn normalizing_falls_back_to_the_path_as_given() {
    let out = normalize_paths(&vec![
        probe("a/../b", Some("/cwd/b"), true, true),
        probe("/missing", None, false, false),
    ]);
    assert_eq!(out, strings(&["/cwd/b", "/missing"]));
    assert!(normalize_paths(&Vec::new()).is_empty());
}

#[test]
fn default_roots_are_resolved_unique_existing_and_not_excluded() {
    let roots = default_roots(
        Ok(probe(".", Some("/work/app"), true, true)),
        &vec![
            probe("/home/u/Projects", Some("/home/u/Projects"), true, true),
            probe("/home/u/workspace", None, false, false),
            probe("/home/u/Work", Some("/work"), true, true),
            probe("/home/u/Developer", Some("/home/u/Developer"), true, false),
        ],
        &vec![
            probe("/work/app/", Some("/work/app"), true, true),
            probe("/extra", Some("/extra"), true, false),
            probe("/nowhere", None, false, false),
            probe("/secret/x", Some("/secret/x"), true, true),
            probe("/work", Some("/work"), true, true),
        ],
        &strings(&["/secret"]),
    );
    assert_eq!(roots, Ok(strings(&["/work/app", "/home/u/Projects", "/work", "/extra"])));
}

#[test]
fn default_roots_fail_without_a_current_directory() {
    let roots = default_roots(
        Err("No such file or directory (os error 2)".to_string()),
        &Vec::new(),
        &vec![probe("/extra", Some("/extra"), true, true)],
        &Vec::new(),
    );
    assert_eq!(
        roots,
        Err("Unable to determine current directory: No such file or directory (os error 2)".to_string())
    );
}

#[test]
fn an_excluded_current_directory_is_no_root() {
    let roots = default_roots(
        Ok(probe(".", Some("/work/app"), true, true)),
        &Vec::new(),
        &Vec::new(),
        &strings(&["/work"]),
    );
    assert_eq!(roots, Ok(Vec::new()));
}

#[test]
fn settings_follow_the_options() {
    let options = ScanOptions {
        all: false,
        min_age_days: 7,
        max_depth: 0,
        keep_latest_derived: 2,
        keep_latest_cache: 3,
    };
    let config: ScanConfig = build_scan_config(&options, strings(&["/r"]), strings(&["/x"]));
    assert_eq!(config.roots, strings(&["/r"]));
    assert_eq!(config.exclude_paths, strings(&["/x"]));
    assert_eq!(config.min_age_days, 7);
    assert_eq!(config.max_depth, 1);
    assert_eq!(config.keep_latest_derived, 2);
    assert_eq!(config.keep_latest_cache, 3);
    let deep = build_scan_config(&ScanOptions { max_depth: 9, ..options }, Vec::new(), Vec::new());
    assert_eq!(deep.max_depth, 9);
    let all = build_scan_config(&ScanOptions { all: true, ..options }, strings(&["/r"]), Vec::new());
    assert_eq!(all.min_age_days, 0);
    assert_eq!(all.max_depth, u32::MAX);
    assert_eq!(all.keep_latest_derived, 0);
    assert_eq!(all.keep_latest_cache, 0);
}

#[test]
fn the_tables_hold_what_they_should() {
    assert_eq!(home_project_dirs(), strings(&["Projects", "workspace", "Work", "Developer"]));
    assert_eq!(skip_dirs(), strings(&[".git", ".hg", ".svn", ".idea", ".vscode", ".gradle"]));
    let patterns = project_patterns();
    assert_eq!(patterns.len(), 18);
    assert_eq!(patterns[0], "build");
    assert_eq!(patterns[17], ".cache");
    let targets = build_cache_targets("/home/u");
    assert_eq!(targets.len(), 21);
    assert_eq!(targets[0].path, "/home/u/Library/Caches/pip");
    assert_eq!(targets[0].category, "Python");
    assert_eq!(targets[0].reason, "pip cache");
    assert_eq!(targets[9].path, "/home/u/.npm");
    assert_eq!(targets[20].path, "/home/u/Library/Application Support/Slack/Service Worker/CacheStorage");
    assert_eq!(targets[20].category, "Slack");
    assert_eq!(targets[20].reason, "Slack cache");
}

#[test]
fn scan_targets_are_the_known_locations_and_the_roots() {
    let targets = scan_targets(&strings(&["/r1", "/r2"]), "/home/u");
    assert_eq!(targets.len(), 4 + 21 + 2);
    assert_eq!(targets[0], "/home/u/Library/Developer/Xcode/DerivedData");
    assert_eq!(targets[1], "/home/u/Library/Developer/Xcode/Archives");
    assert_eq!(targets[2], "/home/u/Library/Developer/CoreSimulator/Caches");
    assert_eq!(targets[3], "/home/u/Library/Caches/Homebrew");
    assert_eq!(targets[4], "/home/u/Library/Caches/pip");
    assert_eq!(targets[24], "/home/u/Library/Application Support/Slack/Service Worker/CacheStorage");
    assert_eq!(targets[25], "/r1");
    assert_eq!(targets[26], "/r2");
}

#[test]
fn the_cutoff_lies_whole_days_before_now() {
    assert_eq!(age_cutoff(1_000, 0), None);
    assert_eq!(age_cutoff(200_000_000_000_000, 2), Some(200_000_000_000_000 - 172_800_000_000_000));
    assert_eq!(age_cutoff(0, 1), Some(-86_400_000_000_000));
    assert_eq!(age_cutoff(i128::MIN + 5, 1), None);
    assert_eq!(
        age_cutoff(0, u64::MAX),
        Some(-(u64::MAX as i128) * 86_400_000_000_000)
    );
}

#[test]
fn classification_knows_names_suffix_and_age() {
    let patterns = project_patterns();
    let classify = |name: &str, cutoff: Option<i128>, modified: Option<i128>| {
        classify_project_dir(name, "Stale build or cache", &patterns, cutoff, modified)
    };
    assert_eq!(classify("__pycache__", Some(100), Some(500)), Some("Stale build or cache".to_string()));
    assert_eq!(classify("build", Some(100), Some(99)), Some("Stale build or cache (build)".to_string()));
    assert_eq!(classify("build", Some(100), Some(100)), None);
    assert_eq!(classify("build", Some(100), Some(101)), None);
    assert_eq!(classify("build", None, Some(101)), Some("Stale build or cache (build)".to_string()));
    assert_eq!(classify("build", Some(100), None), Some("Stale build or cache (build)".to_string()));
    assert_eq!(
        classify("my.egg-info", None, None),
        Some("Stale build or cache (my.egg-info)".to_string())
    );
    assert_eq!(classify(".egg-info", None, None), Some("Stale build or cache (.egg-info)".to_string()));
    assert_eq!(classify("egg-info", None, None), None);
    assert_eq!(classify("src", None, None), None);
    assert_eq!(classify("Build", None, None), None);
    assert_eq!(classify("builds", None, None), None);
    assert_eq!(classify("", None, None), None);
    assert_eq!(classify(".gradle", None, None), Some("Stale build or cache (.gradle)".to_string()));
}
