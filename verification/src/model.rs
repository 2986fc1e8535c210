//! The data the engine works on: a captured view of the file system, the scan
//! settings, and the records that a scan and a cleanup hand out.
use crate::text::same_text;
use vstd::prelude::*;

verus! {

/// What a path holds, seen without following links.
#[derive(Clone, Copy, Debug, PartialEq, Eq, Structural)]
pub enum NodeKind {
    Directory,
    Symlink,
    /// A regular file, or anything else that is neither of the above.
    Other,
}

/// What the system reports of a path itself (a link is not followed).
#[derive(Clone, Copy, Debug)]
pub struct NodeMeta {
    pub kind: NodeKind,
    /// Length in bytes as the system reports it.
    pub len: u64,
    /// Time of last modification in nanoseconds since the Unix epoch,
    /// negative before it; `None` where the system gives none.
    pub modified: Option<i128>,
}

/// One observed path, with its directory listing where it has one.
#[derive(Debug)]
pub struct FsNode {
    /// The path as it was reached: a scan target, or the parent joined with
    /// the entry's name.
    pub path: String,
    /// The path with links and relative segments resolved; the path itself
    /// where it cannot be resolved.
    pub canonical: String,
    /// The final component, where it is valid text.
    pub name: Option<String>,
    /// Whether the path leads to anything, following links.
    pub exists: bool,
    /// Whether the path leads to a directory, following links.
    pub is_dir: bool,
    /// Metadata of the path itself; `None` where it cannot be read.
    pub meta: Option<NodeMeta>,
    /// The entries of the directory in listing order; `None` where the path
    /// cannot be listed.
    pub entries: Option<Vec<FsNode>>,
}

/// Everything a scan looks at, captured at one moment.
#[derive(Debug)]
pub struct Snapshot {
    /// The user's home directory, where one is known.
    pub home: Option<String>,
    /// The moment of capture in nanoseconds since the Unix epoch.
    pub taken_at: i128,
    /// The captured scan targets. A path that is not here counts as missing.
    pub nodes: Vec<FsNode>,
}

/// The place of the first node with the given path; the length of `nodes`
/// where there is none.
pub open spec fn first_index_of(nodes: Seq<FsNode>, path: Seq<char>) -> int
    decreases nodes.len(),
{
    if nodes.len() == 0 {
        0
    } else if nodes[0].path@ == path {
        0
    } else {
        1 + first_index_of(nodes.drop_first(), path)
    }
}

impl Snapshot {
    /// Whether a node was captured for `path`.
    pub open spec fn holds(&self, path: Seq<char>) -> bool {
        first_index_of(self.nodes@, path) < self.nodes@.len()
    }

    /// The node captured for `path`: the first one with that path.
    pub open spec fn node_at(&self, path: Seq<char>) -> FsNode
        recommends
            self.holds(path),
    {
        self.nodes@[first_index_of(self.nodes@, path)]
    }

    /// Looks up the node captured for `path`.
    pub fn find(&self, path: &str) -> (node: Option<&FsNode>)
        ensures
            node is Some == self.holds(path@),
            node is Some ==> *node->0 == self.node_at(path@),
    {
        let mut i: usize = 0;
        assert(self.nodes@.subrange(0, self.nodes@.len() as int) =~= self.nodes@);
        while i < self.nodes.len()
            invariant
                i <= self.nodes@.len(),
                first_index_of(self.nodes@, path@) == i + first_index_of(
                    self.nodes@.subrange(i as int, self.nodes@.len() as int),
                    path@,
                ),
            decreases self.nodes@.len() - i,
        {
            let ghost rest = self.nodes@.subrange(i as int, self.nodes@.len() as int);
            assert(rest[0] == self.nodes@[i as int]);
            if same_text(self.nodes[i].path.as_str(), path) {
                return Some(&self.nodes[i]);
            }
            assert(rest.drop_first() =~= self.nodes@.subrange(i + 1, self.nodes@.len() as int));
            i += 1;
        }
        None
    }
}

/// Settings of one scan.
#[derive(Clone, Debug)]
pub struct ScanConfig {
    /// Absolute directories whose trees are walked for project artifacts.
    pub roots: Vec<String>,
    /// Minimum age in days of a project artifact; 0 switches the age filter off.
    pub min_age_days: u64,
    /// Deepest directory level below a root whose entries are examined; a
    /// root is level 0.
    pub max_depth: u32,
    /// How many of the most recent derived-data and archive directories stay.
    pub keep_latest_derived: usize,
    /// How many of the most recent download-cache directories stay.
    pub keep_latest_cache: usize,
    /// Paths that are skipped together with everything below them.
    pub exclude_paths: Vec<String>,
}

/// One file or directory that may be removed.
#[derive(Debug)]
pub struct Candidate {
    pub path: String,
    /// The resolved form of `path`, by which duplicates are recognised.
    pub canonical: String,
    /// Bytes that removal reclaims; never 0 in a scan's result.
    pub size_bytes: u64,
    pub category: String,
    pub reason: String,
    /// Time of last modification, in nanoseconds since the Unix epoch.
    pub last_used: Option<i128>,
}

/// A [`Candidate`] as a mathematical value.
pub ghost struct CandidateView {
    pub path: Seq<char>,
    pub canonical: Seq<char>,
    pub size_bytes: u64,
    pub category: Seq<char>,
    pub reason: Seq<char>,
    pub last_used: Option<i128>,
}

impl View for Candidate {
    type V = CandidateView;

    open spec fn view(&self) -> CandidateView {
        CandidateView {
            path: self.path@,
            canonical: self.canonical@,
            size_bytes: self.size_bytes,
            category: self.category@,
            reason: self.reason@,
            last_used: self.last_used,
        }
    }
}

impl Clone for Candidate {
    fn clone(&self) -> (copy: Candidate)
        ensures
            copy@ == self@,
    {
        Candidate {
            path: self.path.clone(),
            canonical: self.canonical.clone(),
            size_bytes: self.size_bytes,
            category: self.category.clone(),
            reason: self.reason.clone(),
            last_used: self.last_used,
        }
    }
}

/// The views of a list of candidates.
pub open spec fn candidate_views(list: Seq<Candidate>) -> Seq<CandidateView> {
    list.map_values(|c: Candidate| c@)
}

impl Candidate {
    /// The path as text.
    pub fn display_name(&self) -> (name: String)
        ensures
            name@ == self.path@,
    {
        self.path.clone()
    }
}

} // verus!
