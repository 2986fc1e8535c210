//! What the engine knows of directory names and cache locations, and the
//! rule that decides whether a project directory is stale.
use crate::path::{join_path, joined};
use crate::text::{chars_of, concat2, ends_with, has_suffix, owned, same_text, texts};
use vstd::prelude::*;

verus! {

/// Sub-directories of the home directory that are scanned when they exist.
pub open spec fn home_project_dir_names() -> Seq<Seq<char>> {
    seq!["Projects"@, "workspace"@, "Work"@, "Developer"@]
}

/// Directory names that a walk neither enters nor flags.
pub open spec fn skip_dir_names() -> Seq<Seq<char>> {
    seq![".git"@, ".hg"@, ".svn"@, ".idea"@, ".vscode"@, ".gradle"@]
}

/// Directory names that mark a build output or a tool's cache inside a
/// project.
pub open spec fn project_pattern_names() -> Seq<Seq<char>> {
    seq![
        "build"@,
        "dist"@,
        "out"@,
        "_build"@,
        "target"@,
        "node_modules"@,
        "DerivedData"@,
        ".pytest_cache"@,
        ".mypy_cache"@,
        ".ruff_cache"@,
        ".tox"@,
        ".eggs"@,
        "coverage"@,
        "__pycache__"@,
        ".parcel-cache"@,
        ".gradle"@,
        ".sass-cache"@,
        ".cache"@,
    ]
}

/// The names of [`home_project_dir_names`].
pub fn home_project_dirs() -> (names: Vec<String>)
    ensures
        texts(names@) == home_project_dir_names(),
{
    let mut names: Vec<String> = Vec::new();
    names.push(owned("Projects"));
    names.push(owned("workspace"));
    names.push(owned("Work"));
    names.push(owned("Developer"));
    assert(texts(names@) =~= home_project_dir_names());
    names
}

/// The names of [`skip_dir_names`].
pub fn skip_dirs() -> (names: Vec<String>)
    ensures
        texts(names@) == skip_dir_names(),
{
    let mut names: Vec<String> = Vec::new();
    names.push(owned(".git"));
    names.push(owned(".hg"));
    names.push(owned(".svn"));
    names.push(owned(".idea"));
    names.push(owned(".vscode"));
    names.push(owned(".gradle"));
    assert(texts(names@) =~= skip_dir_names());
    names
}

/// The names of [`project_pattern_names`].
pub fn project_patterns() -> (names: Vec<String>)
    ensures
        texts(names@) == project_pattern_names(),
{
    let mut names: Vec<String> = Vec::new();
    names.push(owned("build"));
    names.push(owned("dist"));
    names.push(owned("out"));
    names.push(owned("_build"));
    names.push(owned("target"));
    names.push(owned("node_modules"));
    names.push(owned("DerivedData"));
    names.push(owned(".pytest_cache"));
    names.push(owned(".mypy_cache"));
    names.push(owned(".ruff_cache"));
    names.push(owned(".tox"));
    names.push(owned(".eggs"));
    names.push(owned("coverage"));
    names.push(owned("__pycache__"));
    names.push(owned(".parcel-cache"));
    names.push(owned(".gradle"));
    names.push(owned(".sass-cache"));
    names.push(owned(".cache"));
    assert(texts(names@) =~= project_pattern_names());
    names
}

/// Whether `name` is one of `names`.
pub fn name_in(name: &str, names: &Vec<String>) -> (found: bool)
    ensures
        found == texts(names@).contains(name@),
{
    let mut i: usize = 0;
    while i < names.len()
        invariant
            i <= names@.len(),
            forall|j: int| 0 <= j < i ==> texts(names@)[j] != name@,
        decreases names@.len() - i,
    {
        if same_text(names[i].as_str(), name) {
            assert(texts(names@)[i as int] == name@);
            return true;
        }
        i += 1;
    }
    false
}

/// A known cache location with the labels of what is found there.
#[derive(Debug)]
pub struct CacheTarget {
    pub path: String,
    pub category: String,
    pub reason: String,
}

/// A [`CacheTarget`] as a mathematical value.
pub ghost struct CacheTargetView {
    pub path: Seq<char>,
    pub category: Seq<char>,
    pub reason: Seq<char>,
}

impl View for CacheTarget {
    type V = CacheTargetView;

    open spec fn view(&self) -> CacheTargetView {
        CacheTargetView { path: self.path@, category: self.category@, reason: self.reason@ }
    }
}

/// One row of the table of cache locations below `home`.
pub open spec fn cache_row(
    home: Seq<char>,
    relative: Seq<char>,
    category: Seq<char>,
    reason: Seq<char>,
) -> CacheTargetView {
    CacheTargetView { path: joined(home, relative), category, reason }
}

/// The cache locations below `home` that are flagged as a whole, in the
/// order in which a scan visits them.
pub open spec fn cache_targets_for(home: Seq<char>) -> Seq<CacheTargetView> {
    seq![
        cache_row(home, "Library/Caches/pip"@, "Python"@, "pip cache"@),
        cache_row(home, ".cache/pip"@, "Python"@, "pip cache"@),
        cache_row(home, ".cache/pip-tools"@, "Python"@, "pip-tools cache"@),
        cache_row(home, ".cache/pipenv"@, "Python"@, "pipenv cache"@),
        cache_row(home, ".cache/pre-commit"@, "Python"@, "pre-commit cache"@),
        cache_row(home, ".cache/matplotlib"@, "Python"@, "matplotlib cache"@),
        cache_row(home, ".cache/pytest"@, "Python"@, "pytest cache"@),
        cache_row(home, ".cache/ruff"@, "Python"@, "ruff cache"@),
        cache_row(home, ".cache/uv"@, "Python"@, "uv cache"@),
        cache_row(home, ".npm"@, "Node"@, "npm cache"@),
        cache_row(home, "Library/Caches/npm"@, "Node"@, "npm cache"@),
        cache_row(home, "Library/Caches/Yarn"@, "Node"@, "Yarn cache"@),
        cache_row(home, ".cache/yarn"@, "Node"@, "Yarn cache"@),
        cache_row(home, "Library/Caches/CocoaPods"@, "CocoaPods"@, "CocoaPods cache"@),
        cache_row(home, ".gradle/caches"@, "Gradle"@, "Gradle caches"@),
        cache_row(home, ".gradle/daemon"@, "Gradle"@, "Gradle daemons"@),
        cache_row(home, ".gradle/native"@, "Gradle"@, "Gradle native cache"@),
        cache_row(home, "Library/Caches/JetBrains"@, "JetBrains"@, "JetBrains IDE caches"@),
        cache_row(home, "Library/Application Support/Code/Cache"@, "VSCode"@, "VSCode cache"@),
        cache_row(
            home,
            "Library/Application Support/Code/CachedData"@,
            "VSCode"@,
            "VSCode cached data"@,
        ),
        cache_row(
            home,
            "Library/Application Support/Slack/Service Worker/CacheStorage"@,
            "Slack"@,
            "Slack cache"@,
        ),
    ]
}

/// The views of a list of cache targets.
pub open spec fn target_views(list: Seq<CacheTarget>) -> Seq<CacheTargetView> {
    list.map_values(|t: CacheTarget| t@)
}

fn cache_target(home: &str, relative: &str, category: &str, reason: &str) -> (target: CacheTarget)
    ensures
        target@ == cache_row(home@, relative@, category@, reason@),
{
    CacheTarget {
        path: join_path(home, relative),
        category: owned(category),
        reason: owned(reason),
    }
}

/// The table of [`cache_targets_for`] for the given home directory.
pub fn build_cache_targets(home: &str) -> (targets: Vec<CacheTarget>)
    ensures
        target_views(targets@) == cache_targets_for(home@),
{
    let mut t: Vec<CacheTarget> = Vec::new();
    t.push(cache_target(home, "Library/Caches/pip", "Python", "pip cache"));
    t.push(cache_target(home, ".cache/pip", "Python", "pip cache"));
    t.push(cache_target(home, ".cache/pip-tools", "Python", "pip-tools cache"));
    t.push(cache_target(home, ".cache/pipenv", "Python", "pipenv cache"));
    t.push(cache_target(home, ".cache/pre-commit", "Python", "pre-commit cache"));
    t.push(cache_target(home, ".cache/matplotlib", "Python", "matplotlib cache"));
    t.push(cache_target(home, ".cache/pytest", "Python", "pytest cache"));
    t.push(cache_target(home, ".cache/ruff", "Python", "ruff cache"));
    t.push(cache_target(home, ".cache/uv", "Python", "uv cache"));
    t.push(cache_target(home, ".npm", "Node", "npm cache"));
    t.push(cache_target(home, "Library/Caches/npm", "Node", "npm cache"));
    t.push(cache_target(home, "Library/Caches/Yarn", "Node", "Yarn cache"));
    t.push(cache_target(home, ".cache/yarn", "Node", "Yarn cache"));
    t.push(cache_target(home, "Library/Caches/CocoaPods", "CocoaPods", "CocoaPods cache"));
    t.push(cache_target(home, ".gradle/caches", "Gradle", "Gradle caches"));
    t.push(cache_target(home, ".gradle/daemon", "Gradle", "Gradle daemons"));
    t.push(cache_target(home, ".gradle/native", "Gradle", "Gradle native cache"));
    t.push(cache_target(home, "Library/Caches/JetBrains", "JetBrains", "JetBrains IDE caches"));
    t.push(cache_target(home, "Library/Application Support/Code/Cache", "VSCode", "VSCode cache"));
    t.push(
        cache_target(
            home,
            "Library/Application Support/Code/CachedData",
            "VSCode",
            "VSCode cached data",
        ),
    );
    t.push(
        cache_target(
            home,
            "Library/Application Support/Slack/Service Worker/CacheStorage",
            "Slack",
            "Slack cache",
        ),
    );
    assert(target_views(t@) =~= cache_targets_for(home@));
    t
}

/// The moment before which a project directory must have been modified to
/// count as stale: `min_age_days` whole days before `now`. There is none
/// when `min_age_days` is 0, nor when that moment cannot be represented.
pub open spec fn cutoff_for(now: i128, min_age_days: u64) -> Option<i128> {
    if min_age_days == 0 {
        None
    } else if now - min_age_days * 86_400_000_000_000 < i128::MIN {
        None
    } else {
        Some((now - min_age_days * 86_400_000_000_000) as i128)
    }
}

/// Computes [`cutoff_for`].
pub fn age_cutoff(now: i128, min_age_days: u64) -> (cutoff: Option<i128>)
    ensures
        cutoff == cutoff_for(now, min_age_days),
{
    if min_age_days == 0 {
        return None;
    }
    let span: i128 = (min_age_days as i128) * 86_400_000_000_000i128;
    if now < i128::MIN + span {
        None
    } else {
        Some(now - span)
    }
}

/// Whether a directory name matches the project patterns: it is one of
/// `patterns` or ends in `.egg-info`.
pub open spec fn matches_pattern(name: Seq<char>, patterns: Seq<Seq<char>>) -> bool {
    patterns.contains(name) || ends_with(name, ".egg-info"@)
}

/// Whether the age filter holds a directory back: a cutoff is set, the time
/// of modification is known, and it is not before the cutoff.
pub open spec fn too_recent(cutoff: Option<i128>, modified: Option<i128>) -> bool {
    cutoff is Some && modified is Some && modified->0 >= cutoff->0
}

/// The reason for flagging a project directory, or `None` where it is not
/// flagged. `__pycache__` is always flagged, with the base reason alone. Any
/// other name must match the patterns and pass the age filter; its reason
/// names it in brackets.
pub open spec fn classification(
    name: Seq<char>,
    base_reason: Seq<char>,
    patterns: Seq<Seq<char>>,
    cutoff: Option<i128>,
    modified: Option<i128>,
) -> Option<Seq<char>> {
    if name == "__pycache__"@ {
        Some(base_reason)
    } else if !matches_pattern(name, patterns) || too_recent(cutoff, modified) {
        None
    } else {
        Some(base_reason + " ("@ + name + ")"@)
    }
}

/// Decides whether a directory found in a project tree is flagged, and why;
/// see [`classification`].
pub fn classify_project_dir(
    name: &str,
    base_reason: &str,
    patterns: &Vec<String>,
    cutoff: Option<i128>,
    modified: Option<i128>,
) -> (reason: Option<String>)
    ensures
        reason is Some == classification(
            name@,
            base_reason@,
            texts(patterns@),
            cutoff,
            modified,
        ) is Some,
        reason is Some ==> reason->0@ == classification(
            name@,
            base_reason@,
            texts(patterns@),
            cutoff,
            modified,
        )->0,
        reason is Some && name@ != "__pycache__"@ && cutoff is Some && modified is Some
            ==> modified->0 < cutoff->0,
{
    if same_text(name, "__pycache__") {
        return Some(owned(base_reason));
    }
    if !name_in(name, patterns) {
        let name_chars = chars_of(name);
        let suffix = chars_of(".egg-info");
        if !has_suffix(&name_chars, &suffix) {
            return None;
        }
    }
    match (cutoff, modified) {
        (Some(limit), Some(mtime)) => {
            if mtime >= limit {
                return None;
            }
        },
        _ => {},
    }
    let mut out = concat2(base_reason, " (");
    out.append(name);
    out.append(")");
    Some(out)
}

} // verus!
