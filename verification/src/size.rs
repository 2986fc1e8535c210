//! How many bytes a path holds.
use crate::model::{FsNode, NodeKind};
use vstd::prelude::*;

verus! {

/// What one listed entry adds to the size of the directory that lists it:
/// nothing for a link or for an entry whose metadata cannot be read, the
/// whole subtree for a directory, its length for anything else.
pub open spec fn entry_size(entry: FsNode) -> nat
    decreases entry,
{
    match entry.meta {
        None => 0,
        Some(meta) => match meta.kind {
            NodeKind::Symlink => 0,
            NodeKind::Directory => match entry.entries {
                None => 0,
                Some(list) => entries_size(list, list@.len()),
            },
            NodeKind::Other => meta.len as nat,
        },
    }
}

/// The sizes of the first `count` entries of `list`, added up.
pub open spec fn entries_size(list: Vec<FsNode>, count: nat) -> nat
    decreases list, count,
{
    if count == 0 || count > list@.len() {
        0
    } else {
        entries_size(list, (count - 1) as nat) + entry_size(list@[count - 1])
    }
}

/// The bytes below a directory; 0 where it cannot be listed.
pub open spec fn listing_size(dir: FsNode) -> nat {
    match dir.entries {
        None => 0,
        Some(list) => entries_size(list, list@.len()),
    }
}

/// The bytes that a path holds: 0 where its metadata cannot be read, the
/// bytes below it for a directory, otherwise its own length (also for a
/// link, which is measured and not followed).
pub open spec fn measured_size(node: FsNode) -> nat {
    match node.meta {
        None => 0,
        Some(meta) => if meta.kind == NodeKind::Directory {
            listing_size(node)
        } else {
            meta.len as nat
        },
    }
}

/// `amount` as a `u64`, stopping at the largest one.
pub open spec fn capped(amount: nat) -> u64 {
    if amount > u64::MAX {
        u64::MAX
    } else {
        amount as u64
    }
}

/// The bytes still to be counted below the directories on the work list.
spec fn pending_size(stack: Seq<&FsNode>) -> nat
    decreases stack.len(),
{
    if stack.len() == 0 {
        0
    } else {
        pending_size(stack.drop_last()) + listing_size(*stack.last())
    }
}

/// The number of nodes in a tree.
spec fn node_weight(node: FsNode) -> nat
    decreases node,
{
    match node.entries {
        None => 1,
        Some(list) => 1 + entries_weight(list, list@.len()),
    }
}

spec fn entries_weight(list: Vec<FsNode>, count: nat) -> nat
    decreases list, count,
{
    if count == 0 || count > list@.len() {
        0
    } else {
        entries_weight(list, (count - 1) as nat) + node_weight(list@[count - 1])
    }
}

/// The number of nodes below and including the directories on the work list.
spec fn pending_weight(stack: Seq<&FsNode>) -> nat
    decreases stack.len(),
{
    if stack.len() == 0 {
        0
    } else {
        pending_weight(stack.drop_last()) + node_weight(*stack.last())
    }
}

/// Adds up the bytes that `node` holds, without recursion and without
/// following links. The sum stops at `u64::MAX`.
pub fn calculate_size(node: &FsNode) -> (size: u64)
    ensures
        size == capped(measured_size(*node)),
{
    let meta = match node.meta {
        Some(meta) => meta,
        None => {
            return 0;
        },
    };
    match meta.kind {
        NodeKind::Directory => {},
        _ => {
            return meta.len;
        },
    }
    let mut total: u64 = 0;
    let ghost mut exact: nat = 0;
    let mut stack: Vec<&FsNode> = Vec::new();
    stack.push(node);
    assert(stack@.drop_last() =~= Seq::<&FsNode>::empty());
    assert(pending_size(stack@.drop_last()) == 0);
    while stack.len() > 0
        invariant
            exact + pending_size(stack@) == listing_size(*node),
            total == capped(exact),
        decreases pending_weight(stack@),
    {
        let ghost before = stack@;
        let current = stack.pop().unwrap();
        assert(stack@ =~= before.drop_last());
        match &current.entries {
            None => {},
            Some(list) => {
                let mut i: usize = 0;
                while i < list.len()
                    invariant
                        i <= list@.len(),
                        exact + pending_size(stack@) + entries_size(*list, list@.len())
                            == listing_size(*node) + entries_size(*list, i as nat),
                        pending_weight(stack@) + entries_weight(*list, list@.len()) + 1
                            <= pending_weight(before) + entries_weight(*list, i as nat),
                        total == capped(exact),
                    decreases list@.len() - i,
                {
                    let entry = &list[i];
                    let ghost held = stack@;
                    assert(entries_size(*list, (i + 1) as nat) == entries_size(*list, i as nat)
                        + entry_size(*entry));
                    match entry.meta {
                        None => {},
                        Some(entry_meta) => match entry_meta.kind {
                            NodeKind::Symlink => {},
                            NodeKind::Directory => {
                                stack.push(entry);
                                assert(stack@.drop_last() =~= held);
                            },
                            NodeKind::Other => {
                                total = if entry_meta.len > u64::MAX - total {
                                    u64::MAX
                                } else {
                                    total + entry_meta.len
                                };
                                proof {
                                    exact = exact + entry_meta.len as nat;
                                }
                            },
                        },
                    }
                    i += 1;
                }
            },
        }
    }
    total
}

} // verus!
