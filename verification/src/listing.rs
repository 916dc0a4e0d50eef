//! The directory listing: entries with their derived classification, and
//! the filtering and sorting that drive what the user sees.
//!
//! Sorting puts directories first, then orders by the chosen column;
//! comparisons are pinned down exactly so a sorted listing is stable across
//! refreshes.

use core::cmp::Ordering;
use vstd::prelude::*;
use vstd::seq_lib::*;

use crate::classify::{categorize_file, spec_categorize, FileCategory};
use crate::coordinator::SizeCoordinator;
use crate::text::{char_lower, contains_ci, lower, str_contains_ci};

verus! {

/// One filesystem entry as shown in a listing. The classification fields
/// are pure functions of path, name, kind and size.
pub struct FileItem {
    /// Absolute platform-native path: the identity key.
    pub path: String,
    /// Last path component.
    pub name: String,
    /// Bytes: exact for files; for directories 0 until resolved.
    pub size: u64,
    pub is_dir: bool,
    pub category: FileCategory,
    /// 0-100; higher means more worth keeping.
    pub usefulness: u32,
    /// Seconds since an arbitrary epoch; informational only.
    pub modified: Option<u64>,
    /// Number of immediate children, when known (directories only).
    pub child_count: Option<usize>,
}

/// The column a listing is ordered by.
#[derive(Clone, Copy, PartialEq, Eq, Structural)]
pub enum SortColumn {
    Name,
    Size,
    Category,
    Usefulness,
}

/// The direction a listing is ordered in.
#[derive(Clone, Copy, PartialEq, Eq, Structural)]
pub enum SortDirection {
    Ascending,
    Descending,
}

/// Categories ordered from most to least worth keeping.
pub open spec fn category_rank(c: FileCategory) -> int {
    match c {
        FileCategory::MustKeep => 0,
        FileCategory::System => 1,
        FileCategory::Regular => 2,
        FileCategory::Useless => 3,
        FileCategory::Unknown => 4,
    }
}

/// An ordering turned around.
pub open spec fn spec_reverse(o: Ordering) -> Ordering {
    match o {
        Ordering::Less => Ordering::Greater,
        Ordering::Equal => Ordering::Equal,
        Ordering::Greater => Ordering::Less,
    }
}

/// Two integers compared.
pub open spec fn spec_int_cmp(x: int, y: int) -> Ordering {
    if x < y {
        Ordering::Less
    } else if x > y {
        Ordering::Greater
    } else {
        Ordering::Equal
    }
}

/// Case-insensitive lexicographic comparison of two names.
pub open spec fn lex_cmp_ci(a: Seq<char>, b: Seq<char>) -> Ordering
    decreases a.len(),
{
    if a.len() == 0 && b.len() == 0 {
        Ordering::Equal
    } else if a.len() == 0 {
        Ordering::Less
    } else if b.len() == 0 {
        Ordering::Greater
    } else if lower(a[0]) < lower(b[0]) {
        Ordering::Less
    } else if lower(a[0]) > lower(b[0]) {
        Ordering::Greater
    } else {
        lex_cmp_ci(a.drop_first(), b.drop_first())
    }
}

/// The chosen column's ordering, ascending.
pub open spec fn spec_key_cmp(a: FileItem, b: FileItem, column: SortColumn) -> Ordering {
    match column {
        SortColumn::Name => lex_cmp_ci(a.name@, b.name@),
        SortColumn::Size => spec_int_cmp(a.size as int, b.size as int),
        SortColumn::Category => spec_int_cmp(category_rank(a.category), category_rank(b.category)),
        SortColumn::Usefulness => spec_int_cmp(a.usefulness as int, b.usefulness as int),
    }
}

/// The full listing order: directories always before files, then the
/// column's order, reversed when descending.
pub open spec fn spec_compare(a: FileItem, b: FileItem, column: SortColumn, ascending: bool) -> Ordering {
    if a.is_dir && !b.is_dir {
        Ordering::Less
    } else if !a.is_dir && b.is_dir {
        Ordering::Greater
    } else if ascending {
        spec_key_cmp(a, b, column)
    } else {
        spec_reverse(spec_key_cmp(a, b, column))
    }
}

/// `a` may stand at or before `b` in a sorted listing.
pub open spec fn le(a: FileItem, b: FileItem, column: SortColumn, ascending: bool) -> bool {
    spec_compare(a, b, column, ascending) != Ordering::Greater
}

/// The listing is in order.
pub open spec fn sorted(s: Seq<FileItem>, column: SortColumn, ascending: bool) -> bool {
    forall|i: int, j: int| 0 <= i < j < s.len() ==> le(#[trigger] s[i], #[trigger] s[j], column, ascending)
}

/// Swapping the arguments turns the comparison around.
pub proof fn lemma_lex_flip(a: Seq<char>, b: Seq<char>)
    ensures
        lex_cmp_ci(b, a) == spec_reverse(lex_cmp_ci(a, b)),
    decreases a.len(),
{
    if a.len() > 0 && b.len() > 0 && lower(a[0]) == lower(b[0]) {
        lemma_lex_flip(a.drop_first(), b.drop_first());
    }
}

/// The name order is transitive.
pub proof fn lemma_lex_trans(a: Seq<char>, b: Seq<char>, c: Seq<char>)
    requires
        lex_cmp_ci(a, b) != Ordering::Greater,
        lex_cmp_ci(b, c) != Ordering::Greater,
    ensures
        lex_cmp_ci(a, c) != Ordering::Greater,
    decreases a.len(),
{
    if a.len() > 0 && b.len() > 0 && c.len() > 0 {
        if lower(a[0]) == lower(b[0]) && lower(b[0]) == lower(c[0]) {
            lemma_lex_trans(a.drop_first(), b.drop_first(), c.drop_first());
        }
    }
}

/// Swapping the arguments turns the whole listing order around, so any two
/// entries are comparable.
pub proof fn lemma_compare_flip(a: FileItem, b: FileItem, column: SortColumn, ascending: bool)
    ensures
        spec_compare(b, a, column, ascending) == spec_reverse(spec_compare(a, b, column, ascending)),
{
    if column == SortColumn::Name {
        lemma_lex_flip(a.name@, b.name@);
    }
}

/// The listing order is transitive.
pub proof fn lemma_compare_trans(
    a: FileItem,
    b: FileItem,
    c: FileItem,
    column: SortColumn,
    ascending: bool,
)
    requires
        le(a, b, column, ascending),
        le(b, c, column, ascending),
    ensures
        le(a, c, column, ascending),
{
    if a.is_dir == b.is_dir && b.is_dir == c.is_dir && column == SortColumn::Name {
        if ascending {
            lemma_lex_trans(a.name@, b.name@, c.name@);
        } else {
            lemma_lex_flip(a.name@, b.name@);
            lemma_lex_flip(b.name@, c.name@);
            lemma_lex_trans(c.name@, b.name@, a.name@);
            lemma_lex_flip(a.name@, c.name@);
        }
    }
}

/// Compare names from position `i` on, ignoring case.
fn lex_cmp_from(a: &str, b: &str, i: usize) -> (r: Ordering)
    requires
        i <= a@.len(),
        i <= b@.len(),
    ensures
        r == lex_cmp_ci(a@.skip(i as int), b@.skip(i as int)),
    decreases a@.len() - i,
{
    let na = a.unicode_len();
    let nb = b.unicode_len();
    if i == na && i == nb {
        Ordering::Equal
    } else if i == na {
        Ordering::Less
    } else if i == nb {
        Ordering::Greater
    } else {
        let ca = char_lower(a.get_char(i));
        let cb = char_lower(b.get_char(i));
        if ca < cb {
            Ordering::Less
        } else if ca > cb {
            Ordering::Greater
        } else {
            let r = lex_cmp_from(a, b, i + 1);
            proof {
                assert(a@.skip(i as int).drop_first() =~= a@.skip(i + 1));
                assert(b@.skip(i as int).drop_first() =~= b@.skip(i + 1));
                assert(a@.skip(i as int)[0] == a@[i as int]);
                assert(b@.skip(i as int)[0] == b@[i as int]);
            }
            r
        }
    }
}

/// Compare two listing entries: directories first, then the chosen column,
/// reversed when descending.
pub fn compare_file_items(a: &FileItem, b: &FileItem, sort_column: SortColumn, ascending: bool) -> (r: Ordering)
    ensures
        r == spec_compare(*a, *b, sort_column, ascending),
{
    if a.is_dir && !b.is_dir {
        return Ordering::Less;
    }
    if !a.is_dir && b.is_dir {
        return Ordering::Greater;
    }
    let key = match sort_column {
        SortColumn::Name => {
            let r = lex_cmp_from(a.name.as_str(), b.name.as_str(), 0);
            proof {
                assert(a.name@.skip(0) =~= a.name@);
                assert(b.name@.skip(0) =~= b.name@);
            }
            r
        },
        SortColumn::Size => {
            if a.size < b.size {
                Ordering::Less
            } else if a.size > b.size {
                Ordering::Greater
            } else {
                Ordering::Equal
            }
        },
        SortColumn::Category => {
            let ra = category_index(a.category);
            let rb = category_index(b.category);
            if ra < rb {
                Ordering::Less
            } else if ra > rb {
                Ordering::Greater
            } else {
                Ordering::Equal
            }
        },
        SortColumn::Usefulness => {
            if a.usefulness < b.usefulness {
                Ordering::Less
            } else if a.usefulness > b.usefulness {
                Ordering::Greater
            } else {
                Ordering::Equal
            }
        },
    };
    if ascending {
        key
    } else {
        match key {
            Ordering::Less => Ordering::Greater,
            Ordering::Equal => Ordering::Equal,
            Ordering::Greater => Ordering::Less,
        }
    }
}

/// The rank a category sorts by.
fn category_index(c: FileCategory) -> (r: u8)
    ensures
        r == category_rank(c),
{
    match c {
        FileCategory::MustKeep => 0,
        FileCategory::System => 1,
        FileCategory::Regular => 2,
        FileCategory::Useless => 3,
        FileCategory::Unknown => 4,
    }
}

/// An exact copy of a listing entry.
fn clone_item(item: &FileItem) -> (r: FileItem)
    ensures
        r == *item,
{
    FileItem {
        path: item.path.clone(),
        name: item.name.clone(),
        size: item.size,
        is_dir: item.is_dir,
        category: item.category,
        usefulness: item.usefulness,
        modified: item.modified,
        child_count: item.child_count,
    }
}

/// Inserting an element anywhere adds exactly it to the multiset.
proof fn lemma_insert_to_multiset(s: Seq<FileItem>, pos: int, x: FileItem)
    requires
        0 <= pos <= s.len(),
    ensures
        s.insert(pos, x).to_multiset() =~= s.to_multiset().insert(x),
{
    broadcast use vstd::seq_lib::group_to_multiset_ensures;

    let t = s.insert(pos, x);
    assert(t.remove(pos) =~= s);
    assert(t[pos] == x);
    assert(t.contains(x));
    assert(t.remove(pos).to_multiset() =~= t.to_multiset().remove(x));
}

/// Sort a listing in place: afterwards it holds the same entries, in
/// order.
pub fn sort_file_items(items: &mut Vec<FileItem>, sort_column: SortColumn, direction: SortDirection)
    ensures
        final(items)@.to_multiset() == old(items)@.to_multiset(),
        sorted(final(items)@, sort_column, direction == SortDirection::Ascending),
{
    let ascending = match direction {
        SortDirection::Ascending => true,
        SortDirection::Descending => false,
    };
    let ghost ms0 = items@.to_multiset();
    let mut out: Vec<FileItem> = Vec::new();
    proof {
        broadcast use vstd::seq_lib::group_to_multiset_ensures;
    }
    while items.len() > 0
        invariant
            out@.to_multiset().add(items@.to_multiset()) =~= ms0,
            sorted(out@, sort_column, ascending),
        decreases items@.len(),
    {
        let ghost pre = items@;
        // Taking entries front to back and inserting each after its equals
        // keeps tied entries in their incoming order.
        let x = items.remove(0);
        proof {
            broadcast use vstd::seq_lib::group_to_multiset_ensures;

            assert(x == pre[0]);
            assert(items@.to_multiset() =~= pre.to_multiset().remove(x));
        }
        let pos = insertion_point(&out, &x, sort_column, ascending);
        let ghost before = out@;
        out.insert(pos, x);
        proof {
            lemma_insert_to_multiset(before, pos as int, x);
            assert forall|i: int, j: int| 0 <= i < j < out@.len() implies le(
                #[trigger] out@[i],
                #[trigger] out@[j],
                sort_column,
                ascending,
            ) by {
                if i < pos && j == pos {
                } else if i == pos && j > pos {
                    lemma_compare_flip(before[j - 1], x, sort_column, ascending);
                } else if i < pos && j > pos {
                } else if j < pos {
                } else if i > pos {
                }
            }
            assert(out@.to_multiset().add(items@.to_multiset()) =~= ms0);
        }
    }
    proof {
        broadcast use vstd::seq_lib::group_to_multiset_ensures;

        assert(items@.to_multiset().len() == 0);
        assert(out@.to_multiset().add(items@.to_multiset()) =~= out@.to_multiset());
    }
    *items = out;
}

/// The first position whose entry must come after `x`.
fn insertion_point(out: &Vec<FileItem>, x: &FileItem, sort_column: SortColumn, ascending: bool) -> (pos: usize)
    requires
        sorted(out@, sort_column, ascending),
    ensures
        pos <= out@.len(),
        forall|p: int| 0 <= p < pos ==> le(#[trigger] out@[p], *x, sort_column, ascending),
        forall|q: int|
            pos <= q < out@.len() ==> !le(#[trigger] out@[q], *x, sort_column, ascending),
{
    let n = out.len();
    let mut pos: usize = 0;
    while pos < n
        invariant
            pos <= n,
            n == out@.len(),
            sorted(out@, sort_column, ascending),
            forall|p: int| 0 <= p < pos ==> le(#[trigger] out@[p], *x, sort_column, ascending),
        decreases n - pos,
    {
        let c = compare_file_items(&out[pos], x, sort_column, ascending);
        let is_gt = match c {
            Ordering::Greater => true,
            _ => false,
        };
        if is_gt {
            proof {
                assert forall|q: int|
                    pos <= q < out@.len() implies !le(
                    #[trigger] out@[q],
                    *x,
                    sort_column,
                    ascending,
                ) by {
                    if q > pos {
                        if le(out@[q], *x, sort_column, ascending) {
                            lemma_compare_flip(out@[pos as int], *x, sort_column, ascending);
                            lemma_compare_flip(out@[q], *x, sort_column, ascending);
                            lemma_compare_trans(
                                out@[pos as int],
                                out@[q],
                                *x,
                                sort_column,
                                ascending,
                            );
                        }
                    }
                }
            }
            return pos;
        }
        pos += 1;
    }
    pos
}

/// Does an entry's name match the search query?
pub open spec fn matches_query(item: FileItem, q: Seq<char>) -> bool {
    contains_ci(item.name@, q)
}

/// Keep the entries whose name contains the query, ignoring case; an empty
/// query keeps everything.
pub fn filter_items(items: &[FileItem], query: &str) -> (r: Vec<FileItem>)
    ensures
        query@.len() == 0 ==> r@ == items@,
        query@.len() > 0 ==> r@ == items@.filter(|it: FileItem| matches_query(it, query@)),
{
    let n = items.len();
    let mut out: Vec<FileItem> = Vec::new();
    if query.unicode_len() == 0 {
        let mut i: usize = 0;
        while i < n
            invariant
                i <= n,
                n == items@.len(),
                out@ == items@.take(i as int),
            decreases n - i,
        {
            let e = clone_item(&items[i]);
            out.push(e);
            proof {
                assert(out@ =~= items@.take(i + 1));
            }
            i += 1;
        }
        proof {
            assert(items@.take(n as int) =~= items@);
        }
        return out;
    }
    let ghost pred = |it: FileItem| matches_query(it, query@);
    let mut i: usize = 0;
    while i < n
        invariant
            i <= n,
            n == items@.len(),
            out@ == items@.take(i as int).filter(|it: FileItem| matches_query(it, query@)),
        decreases n - i,
    {
        proof {
            reveal(Seq::filter);
            assert(items@.take(i + 1).drop_last() =~= items@.take(i as int));
            assert(items@.take(i + 1).last() == items@[i as int]);
            assert(items@.take(i + 1).filter(|it: FileItem| matches_query(it, query@))
                == if matches_query(items@[i as int], query@) {
                items@.take(i as int).filter(|it: FileItem| matches_query(it, query@)).push(
                    items@[i as int],
                )
            } else {
                items@.take(i as int).filter(|it: FileItem| matches_query(it, query@))
            });
        }
        if str_contains_ci(items[i].name.as_str(), query) {
            let e = clone_item(&items[i]);
            proof {
                assert(e =~= items@[i as int]);
            }
            out.push(e);
        }
        i += 1;
    }
    proof {
        assert(items@.take(n as int) =~= items@);
    }
    out
}

/// Does an entry's name or full path match the search query?
pub open spec fn matches_browse_query(item: FileItem, q: Seq<char>) -> bool {
    contains_ci(item.name@, q) || contains_ci(item.path@, q)
}

/// The entries the browser should show for a query: everything for an
/// empty query, otherwise those whose name or path contains it.
pub open spec fn spec_browse_selection(items: Seq<FileItem>, q: Seq<char>) -> Seq<FileItem> {
    if q.len() == 0 {
        items
    } else {
        items.filter(|it: FileItem| matches_browse_query(it, q))
    }
}

/// Filter by the search query (against name or full path) and sort: what
/// the browser displays.
pub fn apply_filter_and_sort(
    items: &Vec<FileItem>,
    query: &str,
    sort_column: SortColumn,
    direction: SortDirection,
) -> (r: Vec<FileItem>)
    ensures
        r@.to_multiset() == spec_browse_selection(items@, query@).to_multiset(),
        sorted(r@, sort_column, direction == SortDirection::Ascending),
{
    let n = items.len();
    let mut kept: Vec<FileItem> = Vec::new();
    if query.unicode_len() == 0 {
        let mut i: usize = 0;
        while i < n
            invariant
                i <= n,
                n == items@.len(),
                kept@ == items@.take(i as int),
            decreases n - i,
        {
            let e = clone_item(&items[i]);
            kept.push(e);
            proof {
                assert(kept@ =~= items@.take(i + 1));
            }
            i += 1;
        }
        proof {
            assert(items@.take(n as int) =~= items@);
        }
    } else {
        let mut i: usize = 0;
        while i < n
            invariant
                i <= n,
                n == items@.len(),
                kept@ == items@.take(i as int).filter(
                    |it: FileItem| matches_browse_query(it, query@),
                ),
            decreases n - i,
        {
            proof {
                reveal(Seq::filter);
                assert(items@.take(i + 1).drop_last() =~= items@.take(i as int));
                assert(items@.take(i + 1).last() == items@[i as int]);
                assert(items@.take(i + 1).filter(|it: FileItem| matches_browse_query(it, query@))
                    == if matches_browse_query(items@[i as int], query@) {
                    items@.take(i as int).filter(
                        |it: FileItem| matches_browse_query(it, query@),
                    ).push(items@[i as int])
                } else {
                    items@.take(i as int).filter(|it: FileItem| matches_browse_query(it, query@))
                });
            }
            if str_contains_ci(items[i].name.as_str(), query) || str_contains_ci(
                items[i].path.as_str(),
                query,
            ) {
                let e = clone_item(&items[i]);
                proof {
                    assert(e =~= items@[i as int]);
                }
                kept.push(e);
            }
            i += 1;
        }
        proof {
            assert(items@.take(n as int) =~= items@);
        }
    }
    sort_file_items(&mut kept, sort_column, direction);
    kept
}

/// Build one listing entry from enumerated metadata: the classification
/// fields are derived, everything else is carried through.
pub fn build_entry(
    path: String,
    name: String,
    is_dir: bool,
    size: u64,
    modified: Option<u64>,
    child_count: Option<usize>,
) -> (r: FileItem)
    ensures
        r.path == path,
        r.name == name,
        r.size == size,
        r.is_dir == is_dir,
        r.modified == modified,
        r.child_count == child_count,
        r.category == spec_categorize(path@, name@, is_dir, size).0,
        r.usefulness == spec_categorize(path@, name@, is_dir, size).1,
{
    let (category, usefulness) = categorize_file(path.as_str(), name.as_str(), is_dir, size);
    FileItem { path, name, size, is_dir, category, usefulness, modified, child_count }
}

/// After completed sizes drain in, refresh every displayed directory entry
/// whose path now has a cached size; nothing else changes.
pub fn apply_cached_sizes(items: &mut Vec<FileItem>, coordinator: &SizeCoordinator)
    requires
        coordinator.wf(),
    ensures
        final(items)@.len() == old(items)@.len(),
        forall|i: int|
            0 <= i < old(items)@.len() ==> final(items)@[i] == (if old(items)@[i].is_dir
                && coordinator.cached().contains_key(old(items)@[i].path@) {
                (FileItem {
                    size: coordinator.cached()[old(items)@[i].path@],
                    ..old(items)@[i]
                })
            } else {
                old(items)@[i]
            }),
{
    let ghost s0 = items@;
    let n = items.len();
    let mut i: usize = 0;
    while i < n
        invariant
            i <= n,
            n == s0.len(),
            items@.len() == s0.len(),
            coordinator.wf(),
            forall|j: int|
                i <= j < s0.len() ==> items@[j] == #[trigger] s0[j],
            forall|j: int|
                0 <= j < i ==> items@[j] == (if s0[j].is_dir && coordinator.cached().contains_key(
                    (#[trigger] s0[j]).path@,
                ) {
                    (FileItem { size: coordinator.cached()[s0[j].path@], ..s0[j] })
                } else {
                    s0[j]
                }),
        decreases n - i,
    {
        if items[i].is_dir {
            match coordinator.peek_cached(items[i].path.as_str()) {
                Some(bytes) => {
                    let mut e = clone_item(&items[i]);
                    e.size = bytes;
                    items[i] = e;
                },
                None => {},
            }
        }
        i += 1;
    }
}

} // verus!
