//! Bounded-depth directory size aggregation.
//!
//! The background worker sums a directory tree that has been enumerated into
//! plain values: entry names, file sizes, and child lists. Recursion depth
//! is capped for bounded worst-case latency; at the cap only the immediate
//! file children are counted. Known volatile system-metadata directories are
//! skipped, and sizes are added with saturation so an overflow can never
//! wrap silently. An unreadable entry is simply absent from the enumeration
//! and so contributes zero.

use vstd::prelude::*;

use crate::text::{eq_ci, starts_with_ci, str_eq_ci, str_starts_with_ci};

verus! {

/// One enumerated filesystem entry: a file with its size, or a directory
/// with its enumerated children.
pub enum FsEntry {
    File { name: String, size: u64 },
    Dir { name: String, children: Vec<FsEntry> },
}

/// A mathematical total clamped to what a `u64` can report: saturating
/// addition never lets a sum wrap.
pub open spec fn capped(n: nat) -> nat {
    if n > u64::MAX {
        u64::MAX as nat
    } else {
        n
    }
}

/// Directory names that the traversal never descends into.
pub open spec fn spec_volatile_dir(name: Seq<char>) -> bool {
    ||| starts_with_ci(name, "$"@)
    ||| eq_ci(name, "system volume information"@)
    ||| eq_ci(name, "windows"@)
}

/// The exact total the bounded walk counts below a list of siblings: every
/// file contributes its size; a directory contributes its own walk one
/// level deeper, or nothing once the depth is exhausted or when its name is
/// volatile.
pub open spec fn spec_tree_size(entries: Seq<FsEntry>, depth: nat) -> nat
    decreases depth, entries.len(),
{
    if entries.len() == 0 {
        0
    } else {
        let head: nat = match entries[0] {
            FsEntry::File { name, size } => size as nat,
            FsEntry::Dir { name, children } => if depth == 0 || spec_volatile_dir(name@) {
                0
            } else {
                spec_tree_size(children@, (depth - 1) as nat)
            },
        };
        head + spec_tree_size(entries.drop_first(), depth)
    }
}

/// The sum of the immediate file children alone: what the walk reports at
/// depth zero.
pub open spec fn spec_files_size(entries: Seq<FsEntry>) -> nat
    decreases entries.len(),
{
    if entries.len() == 0 {
        0
    } else {
        (match entries[0] {
            FsEntry::File { name, size } => size as nat,
            FsEntry::Dir { .. } => 0,
        }) + spec_files_size(entries.drop_first())
    }
}

/// At depth zero the walk counts exactly the immediate file sizes: no
/// directory contributes anything.
pub proof fn lemma_depth_zero_is_shallow(entries: Seq<FsEntry>)
    ensures
        spec_tree_size(entries, 0) == spec_files_size(entries),
    decreases entries.len(),
{
    if entries.len() > 0 {
        lemma_depth_zero_is_shallow(entries.drop_first());
    }
}

/// Should the walk skip this directory?
fn is_volatile_dir(name: &str) -> (r: bool)
    ensures
        r == spec_volatile_dir(name@),
{
    str_starts_with_ci(name, "$") || str_eq_ci(name, "system volume information") || str_eq_ci(
        name,
        "windows",
    )
}

/// Sum a directory's enumerated children down to `max_depth` further
/// levels, saturating at `u64::MAX` instead of wrapping.
pub fn calculate_dir_size_recursive_limited(entries: &Vec<FsEntry>, max_depth: u32) -> (r: u64)
    ensures
        r == capped(spec_tree_size(entries@, max_depth as nat)),
    decreases max_depth, entries@.len(),
{
    let ghost all = entries@;
    let mut total: u64 = 0;
    let n = entries.len();
    let mut i: usize = 0;
    while i < n
        invariant
            i <= n,
            n == all.len(),
            entries@ == all,
            total == capped(spec_tree_size(all.take(i as int), max_depth as nat)),
        decreases n - i,
    {
        let contribution: u64 = match &entries[i] {
            FsEntry::File { name, size } => *size,
            FsEntry::Dir { name, children } => {
                if max_depth == 0 || is_volatile_dir(name.as_str()) {
                    0
                } else {
                    calculate_dir_size_recursive_limited(children, max_depth - 1)
                }
            },
        };
        total = total.saturating_add(contribution);
        proof {
            lemma_tree_size_take_step(all, max_depth as nat, i as int);
        }
        i += 1;
    }
    proof {
        assert(all.take(n as int) =~= all);
    }
    total
}

/// Extending a prefix by one entry adds exactly that entry's contribution.
proof fn lemma_tree_size_take_step(entries: Seq<FsEntry>, depth: nat, i: int)
    requires
        0 <= i < entries.len(),
    ensures
        spec_tree_size(entries.take(i + 1), depth) == spec_tree_size(entries.take(i), depth)
            + (match entries[i] {
            FsEntry::File { name, size } => size as nat,
            FsEntry::Dir { name, children } => if depth == 0 || spec_volatile_dir(name@) {
                0
            } else {
                spec_tree_size(children@, (depth - 1) as nat)
            },
        }),
    decreases i,
{
    if i == 0 {
        assert(entries.take(1).drop_first() =~= entries.take(0));
        assert(entries.take(1)[0] == entries[0]);
    } else {
        lemma_tree_size_take_step(entries.drop_first(), depth, i - 1);
        assert(entries.take(i + 1).drop_first() =~= entries.drop_first().take(i));
        assert(entries.take(i).drop_first() =~= entries.drop_first().take(i - 1));
        assert(entries.take(i + 1)[0] == entries[0]);
        assert(entries.take(i)[0] == entries[0]);
        assert(entries.drop_first()[i - 1] == entries[i]);
    }
}

/// Sum only the immediate file children of a directory's enumeration.
pub fn calculate_dir_size_shallow(entries: &Vec<FsEntry>) -> (r: u64)
    ensures
        r == capped(spec_files_size(entries@)),
{
    proof {
        lemma_depth_zero_is_shallow(entries@);
    }
    calculate_dir_size_recursive_limited(entries, 0)
}

/// The depth every background computation uses: two levels, a deliberate
/// trade of full accuracy for bounded latency.
pub const SIZE_SCAN_DEPTH: u32 = 2;

/// Sum a directory's enumeration at the standard bounded depth.
pub fn calculate_dir_size_recursive(entries: &Vec<FsEntry>) -> (r: u64)
    ensures
        r == capped(spec_tree_size(entries@, SIZE_SCAN_DEPTH as nat)),
{
    calculate_dir_size_recursive_limited(entries, SIZE_SCAN_DEPTH)
}

} // verus!
