//! Which directories a scan starts from, and how its settings are put
//! together.
use crate::classify::{build_cache_targets, cache_targets_for, CacheTargetView};
use crate::model::ScanConfig;
use crate::path::{excluded_by, is_excluded, join_path, joined};
use crate::text::{chars_of, concat2, owned, same_text, texts};
use vstd::prelude::*;

verus! {

/// What is known of a path that may become a root or an excluded path.
#[derive(Debug)]
pub struct PathProbe {
    /// The path as given.
    pub path: String,
    /// The path with links and relative segments resolved; `None` where it
    /// cannot be resolved.
    pub canonical: Option<String>,
    /// Whether the resolved path leads to anything.
    pub exists: bool,
    /// Whether the path as given leads to a directory.
    pub is_dir: bool,
}

impl PathProbe {
    /// The canonical form, or the path as given where there is none.
    pub open spec fn resolved(&self) -> Seq<char> {
        match self.canonical {
            Some(canonical) => canonical@,
            None => self.path@,
        }
    }

    /// The canonical form, or the path as given where there is none.
    pub fn resolve(&self) -> (out: String)
        ensures
            out@ == self.resolved(),
    {
        match &self.canonical {
            Some(canonical) => canonical.clone(),
            None => self.path.clone(),
        }
    }
}

/// The resolved forms of the first `count` probes.
pub open spec fn normalized(paths: Seq<PathProbe>, count: nat) -> Seq<Seq<char>>
    decreases count,
{
    if count == 0 || count > paths.len() {
        Seq::empty()
    } else {
        normalized(paths, (count - 1) as nat).push(paths[count - 1].resolved())
    }
}

/// Replaces each path by its canonical form; a path that cannot be
/// resolved stays as it was given.
pub fn normalize_paths(paths: &Vec<PathProbe>) -> (out: Vec<String>)
    ensures
        texts(out@) == normalized(paths@, paths@.len()),
{
    let mut out: Vec<String> = Vec::new();
    let mut i: usize = 0;
    assert(texts(out@) =~= Seq::empty());
    while i < paths.len()
        invariant
            i <= paths@.len(),
            texts(out@) == normalized(paths@, i as nat),
        decreases paths@.len() - i,
    {
        let resolved = paths[i].resolve();
        assert(texts(out@.push(resolved)) =~= texts(out@).push(resolved@));
        out.push(resolved);
        i += 1;
    }
    out
}

/// The roots after `probe` was considered: it is added in its resolved
/// form unless that form is a root already, leads nowhere, or is excluded.
pub open spec fn with_root(kept: Seq<Seq<char>>, probe: PathProbe, excludes: Seq<String>) -> Seq<
    Seq<char>,
> {
    if kept.contains(probe.resolved()) || !probe.exists || excluded_by(probe.resolved(), excludes) {
        kept
    } else {
        kept.push(probe.resolved())
    }
}

/// The roots after the first `count` probes of `list` were considered in
/// order; with `only_dirs`, those that are no directories are passed over.
pub open spec fn with_roots(
    kept: Seq<Seq<char>>,
    list: Seq<PathProbe>,
    count: nat,
    only_dirs: bool,
    excludes: Seq<String>,
) -> Seq<Seq<char>>
    decreases count,
{
    if count == 0 || count > list.len() {
        kept
    } else {
        let head = with_roots(kept, list, (count - 1) as nat, only_dirs, excludes);
        if only_dirs && !list[count - 1].is_dir {
            head
        } else {
            with_root(head, list[count - 1], excludes)
        }
    }
}

/// The roots of a scan: the current directory, then the project
/// directories below the home directory that exist, then the extra roots
/// of the caller; each in its resolved form and once.
pub open spec fn default_root_list(
    cwd: PathProbe,
    home_dirs: Seq<PathProbe>,
    extra: Seq<PathProbe>,
    excludes: Seq<String>,
) -> Seq<Seq<char>> {
    with_roots(
        with_roots(
            with_root(Seq::empty(), cwd, excludes),
            home_dirs,
            home_dirs.len(),
            true,
            excludes,
        ),
        extra,
        extra.len(),
        false,
        excludes,
    )
}

fn admit_root(probe: &PathProbe, excludes: &Vec<String>, kept: &mut Vec<String>)
    ensures
        texts(final(kept)@) == with_root(texts(old(kept)@), *probe, excludes@),
{
    let resolved = probe.resolve();
    let mut k: usize = 0;
    while k < kept.len()
        invariant
            k <= kept@.len(),
            kept@ == old(kept)@,
            resolved@ == probe.resolved(),
            forall|j: int| 0 <= j < k ==> texts(kept@)[j] != resolved@,
        decreases kept@.len() - k,
    {
        if same_text(kept[k].as_str(), resolved.as_str()) {
            assert(texts(kept@)[k as int] == resolved@);
            assert(texts(kept@).contains(resolved@));
            return ;
        }
        k += 1;
    }
    if !probe.exists {
        return ;
    }
    if is_excluded(resolved.as_str(), excludes) {
        return ;
    }
    assert(texts(kept@.push(resolved)) =~= texts(kept@).push(resolved@));
    kept.push(resolved);
}

fn admit_roots(list: &Vec<PathProbe>, only_dirs: bool, excludes: &Vec<String>, kept: &mut Vec<String>)
    ensures
        texts(final(kept)@) == with_roots(
            texts(old(kept)@),
            list@,
            list@.len(),
            only_dirs,
            excludes@,
        ),
{
    let mut i: usize = 0;
    while i < list.len()
        invariant
            i <= list@.len(),
            texts(kept@) == with_roots(texts(old(kept)@), list@, i as nat, only_dirs, excludes@),
        decreases list@.len() - i,
    {
        if !only_dirs || list[i].is_dir {
            admit_root(&list[i], excludes, kept);
        }
        i += 1;
    }
}

/// Puts the roots of a scan together; see [`default_root_list`]. `cwd` is
/// the current directory, or what the system said where it cannot be
/// determined: then there are no roots, and the error says so.
pub fn default_roots(
    cwd: Result<PathProbe, String>,
    home_dirs: &Vec<PathProbe>,
    extra: &Vec<PathProbe>,
    excludes: &Vec<String>,
) -> (roots: Result<Vec<String>, String>)
    ensures
        match cwd {
            Ok(probe) => roots is Ok && texts(roots->Ok_0@) == default_root_list(
                probe,
                home_dirs@,
                extra@,
                excludes@,
            ),
            Err(cause) => roots is Err && roots->Err_0@
                == "Unable to determine current directory: "@ + cause@,
        },
{
    let probe = match cwd {
        Ok(probe) => probe,
        Err(cause) => {
            return Err(concat2("Unable to determine current directory: ", cause.as_str()));
        },
    };
    let mut kept: Vec<String> = Vec::new();
    assert(texts(kept@) =~= Seq::empty());
    admit_root(&probe, excludes, &mut kept);
    admit_roots(home_dirs, true, excludes, &mut kept);
    admit_roots(extra, false, excludes, &mut kept);
    Ok(kept)
}

/// `text` without the separators that it begins with.
pub open spec fn without_leading_slashes(text: Seq<char>) -> Seq<char>
    decreases text.len(),
{
    if text.len() > 0 && text[0] == '/' {
        without_leading_slashes(text.drop_first())
    } else {
        text
    }
}

/// `path` with a leading `~` replaced by the home directory: only `~`
/// alone or followed by a separator stands for it, and only where a home
/// directory is known.
pub open spec fn expanded(path: Seq<char>, home: Option<Seq<char>>) -> Seq<char> {
    if home is Some && path.len() > 0 && path[0] == '~' && (path.len() == 1 || path[1] == '/') {
        joined(home->0, without_leading_slashes(path.drop_first()))
    } else {
        path
    }
}

/// Replaces a leading `~` by the home directory; see [`expanded`].
pub fn expand_path(path: &str, home: Option<&str>) -> (out: String)
    ensures
        out@ == expanded(
            path@,
            match home {
                Some(h) => Some(h@),
                None => None,
            },
        ),
{
    let base = match home {
        Some(base) => base,
        None => {
            return owned(path);
        },
    };
    let chars = chars_of(path);
    let len = chars.len();
    if len == 0 || chars[0] != '~' || (len > 1 && chars[1] != '/') {
        return owned(path);
    }
    let mut k: usize = 1;
    assert(path@.drop_first() =~= path@.subrange(1, len as int));
    while k < len && chars[k] == '/'
        invariant
            1 <= k <= len,
            len == path@.len(),
            chars@ == path@,
            without_leading_slashes(path@.drop_first()) == without_leading_slashes(
                path@.subrange(k as int, len as int),
            ),
        decreases len - k,
    {
        assert(path@.subrange(k as int, len as int).drop_first() =~= path@.subrange(
            k + 1,
            len as int,
        ));
        k += 1;
    }
    let rest = path.substring_char(k, len);
    join_path(base, rest)
}

/// The expanded forms of the first `count` paths.
pub open spec fn all_expanded(paths: Seq<String>, count: nat, home: Option<Seq<char>>) -> Seq<
    Seq<char>,
>
    decreases count,
{
    if count == 0 || count > paths.len() {
        Seq::empty()
    } else {
        all_expanded(paths, (count - 1) as nat, home).push(expanded(paths[count - 1]@, home))
    }
}

/// Expands each path; see [`expand_path`].
pub fn expand_paths(paths: &Vec<String>, home: Option<&str>) -> (out: Vec<String>)
    ensures
        texts(out@) == all_expanded(
            paths@,
            paths@.len(),
            match home {
                Some(h) => Some(h@),
                None => None,
            },
        ),
{
    let mut out: Vec<String> = Vec::new();
    let mut i: usize = 0;
    assert(texts(out@) =~= Seq::empty());
    while i < paths.len()
        invariant
            i <= paths@.len(),
            texts(out@) == all_expanded(
                paths@,
                i as nat,
                match home {
                    Some(h) => Some(h@),
                    None => None,
                },
            ),
        decreases paths@.len() - i,
    {
        let one = expand_path(paths[i].as_str(), home);
        assert(texts(out@.push(one)) =~= texts(out@).push(one@));
        out.push(one);
        i += 1;
    }
    out
}

/// What the user asked for.
#[derive(Clone, Copy, Debug)]
pub struct ScanOptions {
    /// Flag everything, whatever its age, however deep, keeping nothing.
    pub all: bool,
    pub min_age_days: u64,
    pub max_depth: u32,
    pub keep_latest_derived: usize,
    pub keep_latest_cache: usize,
}

/// The settings of a scan for the given options. With `all` the age
/// filter is off, the depth unbounded and nothing is kept; otherwise the
/// options stand, with a depth of at least 1.
pub fn build_scan_config(options: &ScanOptions, roots: Vec<String>, exclude_paths: Vec<String>) -> (config:
    ScanConfig)
    ensures
        config.roots == roots,
        config.exclude_paths == exclude_paths,
        options.all ==> config.min_age_days == 0 && config.max_depth == u32::MAX
            && config.keep_latest_derived == 0 && config.keep_latest_cache == 0,
        !options.all ==> config.min_age_days == options.min_age_days && config.max_depth == (
        if options.max_depth < 1 {
            1u32
        } else {
            options.max_depth
        }) && config.keep_latest_derived == options.keep_latest_derived
            && config.keep_latest_cache == options.keep_latest_cache,
{
    if options.all {
        ScanConfig {
            roots,
            min_age_days: 0,
            max_depth: u32::MAX,
            keep_latest_derived: 0,
            keep_latest_cache: 0,
            exclude_paths,
        }
    } else {
        ScanConfig {
            roots,
            min_age_days: options.min_age_days,
            max_depth: if options.max_depth < 1 {
                1
            } else {
                options.max_depth
            },
            keep_latest_derived: options.keep_latest_derived,
            keep_latest_cache: options.keep_latest_cache,
            exclude_paths,
        }
    }
}

/// The paths of a list of cache locations.
pub open spec fn target_paths(targets: Seq<CacheTargetView>) -> Seq<Seq<char>> {
    targets.map_values(|t: CacheTargetView| t.path)
}

/// The paths of the known locations below `home` that a scan looks at, in
/// the order in which it turns to them.
pub open spec fn known_locations(home: Seq<char>) -> Seq<Seq<char>> {
    seq![
        joined(home, "Library/Developer/Xcode/DerivedData"@),
        joined(home, "Library/Developer/Xcode/Archives"@),
        joined(home, "Library/Developer/CoreSimulator/Caches"@),
        joined(home, "Library/Caches/Homebrew"@),
    ] + target_paths(cache_targets_for(home))
}

/// Every path that a scan with these roots looks up in a snapshot: the
/// known locations below `home`, then the roots.
pub fn scan_targets(roots: &Vec<String>, home: &str) -> (paths: Vec<String>)
    ensures
        texts(paths@) == known_locations(home@) + texts(roots@),
{
    let mut paths: Vec<String> = Vec::new();
    paths.push(join_path(home, "Library/Developer/Xcode/DerivedData"));
    paths.push(join_path(home, "Library/Developer/Xcode/Archives"));
    paths.push(join_path(home, "Library/Developer/CoreSimulator/Caches"));
    paths.push(join_path(home, "Library/Caches/Homebrew"));
    let ghost fixed = texts(paths@);
    assert(fixed =~= seq![
        joined(home@, "Library/Developer/Xcode/DerivedData"@),
        joined(home@, "Library/Developer/Xcode/Archives"@),
        joined(home@, "Library/Developer/CoreSimulator/Caches"@),
        joined(home@, "Library/Caches/Homebrew"@),
    ]);
    let targets = build_cache_targets(home);
    let ghost listed = target_paths(cache_targets_for(home@));
    let mut i: usize = 0;
    assert(texts(paths@) =~= fixed + listed.take(0));
    while i < targets.len()
        invariant
            i <= targets@.len(),
            crate::classify::target_views(targets@) == cache_targets_for(home@),
            listed == target_paths(cache_targets_for(home@)),
            texts(paths@) == fixed + listed.take(i as int),
        decreases targets@.len() - i,
    {
        let path = targets[i].path.clone();
        assert(crate::classify::target_views(targets@)[i as int].path == path@);
        assert(listed[i as int] == path@);
        assert(texts(paths@.push(path)) =~= texts(paths@).push(path@));
        assert((fixed + listed.take(i as int)).push(path@) =~= fixed + listed.take(i + 1));
        paths.push(path);
        i += 1;
    }
    assert(listed.take(targets@.len() as int) =~= listed);
    let ghost known = texts(paths@);
    let mut r: usize = 0;
    assert(texts(paths@) =~= known + texts(roots@).take(0));
    while r < roots.len()
        invariant
            r <= roots@.len(),
            texts(paths@) == known + texts(roots@).take(r as int),
        decreases roots@.len() - r,
    {
        let root = roots[r].clone();
        assert(texts(roots@)[r as int] == root@);
        assert(texts(paths@.push(root)) =~= texts(paths@).push(root@));
        assert((known + texts(roots@).take(r as int)).push(root@) =~= known + texts(roots@).take(
            r + 1,
        ));
        paths.push(root);
        r += 1;
    }
    assert(texts(roots@).take(roots@.len() as int) =~= texts(roots@));
    paths
}

} // verus!
