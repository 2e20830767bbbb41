//! Putting the entries of a listing in order.
use crate::items::{is_dir_type, item_views, precedes, PathItem, PathItemView, SortKey};
use crate::string_map::StringMap;
use crate::text::same;
use vstd::prelude::*;
use vstd::string::*;

verus! {

/// Whether a key orders entries without contradictions: of two entries at most one comes before the
/// other, and what does not come after something else does not come after what follows it.
pub open spec fn consistent(items: Seq<PathItemView>, key: SortKey) -> bool {
    &&& forall|i: int, j: int|
        0 <= i < items.len() && 0 <= j < items.len() && #[trigger] precedes(items[i], items[j], key)
            ==> !precedes(items[j], items[i], key)
    &&& forall|i: int, j: int, k: int|
        0 <= i < items.len() && 0 <= j < items.len() && 0 <= k < items.len()
            && !#[trigger] precedes(items[j], items[i], key) && !#[trigger] precedes(
            items[k],
            items[j],
            key,
        ) ==> !precedes(items[k], items[i], key)
}

/// Whether the entry at one position goes before the entry at another: by the key, and of two entries
/// that the key does not tell apart, the one that stood first.
pub open spec fn goes_before(items: Seq<PathItemView>, key: SortKey, i: int, j: int) -> bool {
    precedes(items[i], items[j], key) || (!precedes(items[j], items[i], key) && i < j)
}

/// Whether every later position holds an entry that goes after the earlier ones.
pub open spec fn in_order(items: Seq<PathItemView>, key: SortKey, positions: Seq<usize>) -> bool {
    forall|a: int, b: int|
        0 <= a < b < positions.len() ==> goes_before(
            items,
            key,
            #[trigger] positions[a] as int,
            #[trigger] positions[b] as int,
        )
}

/// Whether the positions of directories come before those of files.
pub open spec fn directories_first(items: Seq<PathItemView>, positions: Seq<usize>) -> bool {
    forall|a: int, b: int|
        0 <= a < b < positions.len() && is_dir_type(
            items[#[trigger] positions[b] as int].path_type,
        ) ==> is_dir_type(items[#[trigger] positions[a] as int].path_type)
}

/// Whether positions are those from `lo` to `hi`, each once.
pub open spec fn rearranges(positions: Seq<usize>, lo: int, hi: int) -> bool {
    &&& positions.len() == hi - lo
    &&& positions.no_duplicates()
    &&& forall|a: int| 0 <= a < positions.len() ==> lo <= #[trigger] positions[a] < hi
}

/// The entries at positions.
pub open spec fn picked(items: Seq<PathItemView>, positions: Seq<usize>) -> Seq<PathItemView> {
    positions.map_values(|p: usize| items[p as int])
}

/// Whether a list holds the entries of another one, each once, directories before files, and in order
/// where the key orders them without contradictions.
pub open spec fn sorted_from(
    before: Seq<PathItemView>,
    after: Seq<PathItemView>,
    key: SortKey,
) -> bool {
    exists|positions: Seq<usize>| #[trigger]
        rearranges(positions, 0, before.len() as int) && after == picked(before, positions)
            && directories_first(before, positions) && (consistent(before, key) ==> in_order(
            before,
            key,
            positions,
        ))
}

/// Going before is transitive.
proof fn lemma_goes_before(items: Seq<PathItemView>, key: SortKey, i: int, j: int, k: int)
    requires
        consistent(items, key),
        0 <= i < items.len(),
        0 <= j < items.len(),
        0 <= k < items.len(),
        goes_before(items, key, i, j),
        goes_before(items, key, j, k),
    ensures
        goes_before(items, key, i, k),
{
    assert(!precedes(items[j], items[i], key));
    assert(!precedes(items[k], items[j], key));
    assert(!precedes(items[k], items[i], key));
    if !precedes(items[i], items[k], key) {
        if precedes(items[i], items[j], key) {
            assert(precedes(items[k], items[j], key) || !precedes(items[i], items[j], key));
        } else if precedes(items[j], items[k], key) {
            assert(!precedes(items[j], items[k], key) || precedes(items[j], items[i], key));
        }
    }
}

/// What two runs of positions have been merged to so far: `i` of the left run and `j` of the right
/// run.
spec fn merging(left: Seq<usize>, right: Seq<usize>, out: Seq<usize>, i: int, j: int) -> bool {
    &&& 0 <= i <= left.len()
    &&& 0 <= j <= right.len()
    &&& out.len() == i + j
    &&& forall|a: int|
        0 <= a < out.len() ==> left.take(i).contains(#[trigger] out[a]) || right.take(j).contains(
            out[a],
        )
    &&& out.no_duplicates()
}

/// Whether what has been merged goes before what is left of a run.
spec fn ahead(
    items: Seq<PathItemView>,
    key: SortKey,
    out: Seq<usize>,
    run: Seq<usize>,
    from: int,
) -> bool {
    forall|a: int, b: int|
        0 <= a < out.len() && from <= b < run.len() ==> goes_before(
            items,
            key,
            #[trigger] out[a] as int,
            #[trigger] run[b] as int,
        )
}

/// Whether what has been merged holds only directories where a directory is left of a run.
spec fn directories_ahead(
    items: Seq<PathItemView>,
    out: Seq<usize>,
    run: Seq<usize>,
    from: int,
) -> bool {
    forall|a: int, b: int|
        0 <= a < out.len() && from <= b < run.len() && is_dir_type(
            items[#[trigger] run[b] as int].path_type,
        ) ==> is_dir_type(items[#[trigger] out[a] as int].path_type)
}

/// Taking the next position of a run, where it holds a directory if the next one of the other run
/// does, keeps directories before files.
proof fn lemma_directory_step(
    items: Seq<PathItemView>,
    run: Seq<usize>,
    other: Seq<usize>,
    out: Seq<usize>,
    i: int,
    j: int,
)
    requires
        0 <= i < run.len(),
        0 <= j <= other.len(),
        directories_first(items, run),
        directories_first(items, other),
        directories_first(items, out),
        directories_ahead(items, out, run, i),
        directories_ahead(items, out, other, j),
        j < other.len() && is_dir_type(items[other[j] as int].path_type) ==> is_dir_type(
            items[run[i] as int].path_type,
        ),
    ensures
        directories_first(items, out.push(run[i])),
        directories_ahead(items, out.push(run[i]), run, i + 1),
        directories_ahead(items, out.push(run[i]), other, j),
{
    let next = out.push(run[i]);
    assert forall|a: int, b: int|
        0 <= a < b < next.len() && is_dir_type(items[#[trigger] next[b] as int].path_type) implies
        is_dir_type(items[#[trigger] next[a] as int].path_type) by {
        assert(next[a] == out[a]);
        if b < out.len() {
            assert(next[b] == out[b]);
        } else {
            assert(next[b] == run[i]);
        }
    }
    assert forall|a: int, b: int|
        0 <= a < next.len() && i + 1 <= b < run.len() && is_dir_type(
            items[#[trigger] run[b] as int].path_type,
        ) implies is_dir_type(items[#[trigger] next[a] as int].path_type) by {
        if a < out.len() {
            assert(next[a] == out[a]);
        } else {
            assert(next[a] == run[i]);
        }
    }
    assert forall|a: int, b: int|
        0 <= a < next.len() && j <= b < other.len() && is_dir_type(
            items[#[trigger] other[b] as int].path_type,
        ) implies is_dir_type(items[#[trigger] next[a] as int].path_type) by {
        if a < out.len() {
            assert(next[a] == out[a]);
        } else {
            assert(next[a] == run[i]);
            assert(is_dir_type(items[other[j] as int].path_type));
        }
    }
}

/// The positions of two runs, one after the other, in one run in order.
fn merge(
    items: &Vec<PathItem>,
    key: SortKey,
    left: &Vec<usize>,
    right: &Vec<usize>,
    Ghost(lo): Ghost<int>,
    Ghost(mid): Ghost<int>,
    Ghost(hi): Ghost<int>,
) -> (r: Vec<usize>)
    requires
        0 <= lo <= mid <= hi <= items@.len(),
        rearranges(left@, lo, mid),
        rearranges(right@, mid, hi),
        consistent(item_views(items@), key) ==> in_order(item_views(items@), key, left@),
        consistent(item_views(items@), key) ==> in_order(item_views(items@), key, right@),
        directories_first(item_views(items@), left@),
        directories_first(item_views(items@), right@),
    ensures
        rearranges(r@, lo, hi),
        directories_first(item_views(items@), r@),
        consistent(item_views(items@), key) ==> in_order(item_views(items@), key, r@),
{
    let ghost views = item_views(items@);
    let mut out: Vec<usize> = Vec::new();
    let mut i: usize = 0;
    let mut j: usize = 0;
    while i < left.len() || j < right.len()
        invariant
            views == item_views(items@),
            0 <= lo <= mid <= hi <= items@.len(),
            rearranges(left@, lo, mid),
            rearranges(right@, mid, hi),
            i <= left@.len(),
            j <= right@.len(),
            out@.len() == i + j,
            out@.no_duplicates(),
            forall|a: int|
                0 <= a < out@.len() ==> left@.take(i as int).contains(#[trigger] out@[a])
                    || right@.take(j as int).contains(out@[a]),
            consistent(views, key) ==> in_order(views, key, left@),
            consistent(views, key) ==> in_order(views, key, right@),
            consistent(views, key) ==> in_order(views, key, out@),
            consistent(views, key) ==> ahead(views, key, out@, left@, i as int),
            consistent(views, key) ==> ahead(views, key, out@, right@, j as int),
            directories_first(views, left@),
            directories_first(views, right@),
            directories_first(views, out@),
            directories_ahead(views, out@, left@, i as int),
            directories_ahead(views, out@, right@, j as int),
        decreases left.len() - i + right.len() - j,
    {
        let take_left: bool = if i >= left.len() {
            false
        } else if j >= right.len() {
            true
        } else {
            !items[right[j]].is_before(&items[left[i]], key)
        };
        let ghost old_out = out@;
        if take_left {
            proof {
                lemma_merge_left(left@, right@, out@, i as int, j as int, lo, mid, hi);
                if j < right@.len() {
                    assert(!precedes(
                        views[right@[j as int] as int],
                        views[left@[i as int] as int],
                        key,
                    ));
                }
                lemma_directory_step(views, left@, right@, out@, i as int, j as int);
                if consistent(views, key) {
                    if j < right@.len() {
                        assert(goes_before(views, key, left@[i as int] as int, right@[j as int] as int));
                    }
                    lemma_step(views, key, left@, right@, out@, i as int, j as int);
                }
            }
            out.push(left[i]);
            i = i + 1;
        } else {
            proof {
                lemma_merge_right(left@, right@, out@, i as int, j as int, lo, mid, hi);
                if i < left@.len() {
                    assert(precedes(
                        views[right@[j as int] as int],
                        views[left@[i as int] as int],
                        key,
                    ));
                }
                lemma_directory_step(views, right@, left@, out@, j as int, i as int);
                if consistent(views, key) {
                    if i < left@.len() {
                        assert(goes_before(views, key, right@[j as int] as int, left@[i as int] as int));
                    }
                    lemma_step(views, key, right@, left@, out@, j as int, i as int);
                }
            }
            out.push(right[j]);
            j = j + 1;
        }
    }
    assert forall|a: int| 0 <= a < out@.len() implies lo <= #[trigger] out@[a] < hi by {
        if left@.take(i as int).contains(out@[a]) {
            let b = choose|b: int| 0 <= b < i && left@.take(i as int)[b] == out@[a];
            assert(left@[b] == out@[a]);
        } else {
            let b = choose|b: int| 0 <= b < j && right@.take(j as int)[b] == out@[a];
            assert(right@[b] == out@[a]);
        }
    }
    out
}

/// Taking the next position of the left run keeps what has been merged free of duplicates.
proof fn lemma_merge_left(
    left: Seq<usize>,
    right: Seq<usize>,
    out: Seq<usize>,
    i: int,
    j: int,
    lo: int,
    mid: int,
    hi: int,
)
    requires
        rearranges(left, lo, mid),
        rearranges(right, mid, hi),
        merging(left, right, out, i, j),
        i < left.len(),
    ensures
        merging(left, right, out.push(left[i]), i + 1, j),
{
    assert forall|c: int| 0 <= c < out.len() implies #[trigger] out[c] != left[i] by {
        if left.take(i).contains(out[c]) {
            let b = choose|b: int| 0 <= b < i && left.take(i)[b] == out[c];
            assert(left[b] == out[c]);
        } else {
            let b = choose|b: int| 0 <= b < j && right.take(j)[b] == out[c];
            assert(right[b] == out[c]);
        }
    }
    let next = out.push(left[i]);
    assert forall|a: int| 0 <= a < next.len() implies left.take(i + 1).contains(#[trigger] next[a])
        || right.take(j).contains(next[a]) by {
        if a < out.len() {
            assert(next[a] == out[a]);
            if left.take(i).contains(out[a]) {
                let b = choose|b: int| 0 <= b < i && left.take(i)[b] == out[a];
                assert(left.take(i + 1)[b] == out[a]);
            }
        } else {
            assert(left.take(i + 1)[i] == left[i]);
        }
    }
}

/// Taking the next position of the right run keeps what has been merged free of duplicates.
proof fn lemma_merge_right(
    left: Seq<usize>,
    right: Seq<usize>,
    out: Seq<usize>,
    i: int,
    j: int,
    lo: int,
    mid: int,
    hi: int,
)
    requires
        rearranges(left, lo, mid),
        rearranges(right, mid, hi),
        merging(left, right, out, i, j),
        j < right.len(),
    ensures
        merging(left, right, out.push(right[j]), i, j + 1),
{
    assert forall|c: int| 0 <= c < out.len() implies #[trigger] out[c] != right[j] by {
        if left.take(i).contains(out[c]) {
            let b = choose|b: int| 0 <= b < i && left.take(i)[b] == out[c];
            assert(left[b] == out[c]);
        } else {
            let b = choose|b: int| 0 <= b < j && right.take(j)[b] == out[c];
            assert(right[b] == out[c]);
        }
    }
    let next = out.push(right[j]);
    assert forall|a: int| 0 <= a < next.len() implies left.take(i).contains(#[trigger] next[a])
        || right.take(j + 1).contains(next[a]) by {
        if a < out.len() {
            assert(next[a] == out[a]);
            if right.take(j).contains(out[a]) {
                let b = choose|b: int| 0 <= b < j && right.take(j)[b] == out[a];
                assert(right.take(j + 1)[b] == out[a]);
            }
        } else {
            assert(right.take(j + 1)[j] == right[j]);
        }
    }
}

/// Taking the next position of a run, where it goes before the next one of the other run, keeps what
/// has been merged in order and ahead of what is left.
proof fn lemma_step(
    items: Seq<PathItemView>,
    key: SortKey,
    run: Seq<usize>,
    other: Seq<usize>,
    out: Seq<usize>,
    i: int,
    j: int,
)
    requires
        consistent(items, key),
        0 <= i < run.len(),
        0 <= j <= other.len(),
        forall|a: int| 0 <= a < run.len() ==> #[trigger] run[a] < items.len(),
        forall|a: int| 0 <= a < other.len() ==> #[trigger] other[a] < items.len(),
        in_order(items, key, run),
        in_order(items, key, other),
        in_order(items, key, out),
        ahead(items, key, out, run, i),
        ahead(items, key, out, other, j),
        j < other.len() ==> goes_before(items, key, run[i] as int, other[j] as int),
    ensures
        in_order(items, key, out.push(run[i])),
        ahead(items, key, out.push(run[i]), run, i + 1),
        ahead(items, key, out.push(run[i]), other, j),
{
    let next = out.push(run[i]);
    assert forall|a: int, b: int| 0 <= a < b < next.len() implies goes_before(
        items,
        key,
        #[trigger] next[a] as int,
        #[trigger] next[b] as int,
    ) by {
        assert(next[a] == out[a]);
        if b < out.len() {
            assert(next[b] == out[b]);
        }
    }
    assert forall|a: int, b: int| 0 <= a < next.len() && i + 1 <= b < run.len() implies goes_before(
        items,
        key,
        #[trigger] next[a] as int,
        #[trigger] run[b] as int,
    ) by {
        if a < out.len() {
            assert(next[a] == out[a]);
        } else {
            assert(next[a] == run[i]);
        }
    }
    assert forall|a: int, b: int| 0 <= a < next.len() && j <= b < other.len() implies goes_before(
        items,
        key,
        #[trigger] next[a] as int,
        #[trigger] other[b] as int,
    ) by {
        if a < out.len() {
            assert(next[a] == out[a]);
        } else {
            assert(next[a] == run[i]);
            if b > j {
                lemma_goes_before(items, key, run[i] as int, other[j] as int, other[b] as int);
            }
        }
    }
}

/// The positions from `lo` to `hi`, in the order of the entries there.
fn sort_positions(items: &Vec<PathItem>, key: SortKey, lo: usize, hi: usize) -> (r: Vec<usize>)
    requires
        lo <= hi <= items@.len(),
    ensures
        rearranges(r@, lo as int, hi as int),
        directories_first(item_views(items@), r@),
        consistent(item_views(items@), key) ==> in_order(item_views(items@), key, r@),
    decreases hi - lo,
{
    let mut out: Vec<usize> = Vec::new();
    if hi - lo == 0 {
        return out;
    }
    if hi - lo == 1 {
        out.push(lo);
        return out;
    }
    let mid: usize = lo + (hi - lo) / 2;
    let left = sort_positions(items, key, lo, mid);
    let right = sort_positions(items, key, mid, hi);
    merge(items, key, &left, &right, Ghost(lo as int), Ghost(mid as int), Ghost(hi as int))
}

/// Puts entries in order by a key. Entries that the key does not tell apart stay in the order in
/// which they were.
pub fn sort_by_key(items: &mut Vec<PathItem>, key: SortKey)
    ensures
        sorted_from(item_views(old(items)@), item_views(final(items)@), key),
{
    let ghost before = item_views(items@);
    let positions = sort_positions(items, key, 0, items.len());
    let ghost all = picked(before, positions@);
    let mut out: Vec<PathItem> = Vec::new();
    let mut i: usize = 0;
    while i < positions.len()
        invariant
            i <= positions.len(),
            before == item_views(items@),
            all == picked(before, positions@),
            rearranges(positions@, 0, items@.len() as int),
            item_views(out@) == all.take(i as int),
        decreases positions.len() - i,
    {
        let ghost had = item_views(out@);
        out.push(items[positions[i]].copy());
        proof {
            assert(item_views(out@) =~= had.push(all[i as int]));
            assert(all.take(i as int + 1) =~= all.take(i as int).push(all[i as int]));
        }
        i = i + 1;
    }
    proof {
        assert(all.take(i as int) =~= all);
        assert(rearranges(positions@, 0, before.len() as int));
        assert(sorted_from(before, item_views(out@), key));
    }
    *items = out;
}

/// Every position is among rearranged ones.
proof fn lemma_rearranged_covers(positions: Seq<usize>, n: int, i: int)
    requires
        rearranges(positions, 0, n),
        0 <= i < n,
    ensures
        exists|a: int| 0 <= a < positions.len() && #[trigger] positions[a] == i,
{
    if forall|a: int| 0 <= a < positions.len() ==> #[trigger] positions[a] != i {
        let all = positions.map_values(|p: usize| p as int);
        assert(all.no_duplicates()) by {
            assert forall|a: int, b: int| 0 <= a < all.len() && 0 <= b < all.len() && a != b implies all[a]
                != all[b] by {
                assert(positions[a] != positions[b]);
            }
        }
        all.unique_seq_to_set();
        vstd::set_lib::lemma_int_range(0, n);
        let range = vstd::set_lib::set_int_range(0, n).remove(i);
        assert(all.to_set().subset_of(range)) by {
            assert forall|x: int| all.to_set().contains(x) implies range.contains(x) by {
                let a = choose|a: int| 0 <= a < all.len() && all[a] == x;
                assert(positions[a] == x);
            }
        }
        vstd::set_lib::lemma_len_subset(all.to_set(), range);
    }
}

/// Sorting keeps the entries: the sorted list is as long, and holds every entry of the list and no
/// other.
pub proof fn law_sorting_keeps_entries(
    before: Seq<PathItemView>,
    after: Seq<PathItemView>,
    key: SortKey,
)
    requires
        sorted_from(before, after, key),
    ensures
        after.len() == before.len(),
        forall|i: int| 0 <= i < before.len() ==> after.contains(#[trigger] before[i]),
        forall|i: int| 0 <= i < after.len() ==> before.contains(#[trigger] after[i]),
{
    let positions = choose|positions: Seq<usize>| #[trigger]
        rearranges(positions, 0, before.len() as int) && after == picked(before, positions)
            && directories_first(before, positions) && (consistent(before, key) ==> in_order(
            before,
            key,
            positions,
        ));
    assert forall|i: int| 0 <= i < before.len() implies after.contains(#[trigger] before[i]) by {
        lemma_rearranged_covers(positions, before.len() as int, i);
        let a = choose|a: int| 0 <= a < positions.len() && #[trigger] positions[a] == i;
        assert(after[a] == before[i]);
    }
    assert forall|i: int| 0 <= i < after.len() implies before.contains(#[trigger] after[i]) by {
        assert(after[i] == before[positions[i] as int]);
    }
}

/// Times and sizes order entries without contradictions.
pub proof fn law_numbers_order_consistently(items: Seq<PathItemView>, key: SortKey)
    requires
        key == SortKey::Mtime || key == SortKey::Size,
    ensures
        consistent(items, key),
{
}

/// In a sorted list no entry comes strictly after one that follows it, where the key orders entries
/// without contradictions.
pub proof fn law_sorted_is_in_order(before: Seq<PathItemView>, after: Seq<PathItemView>, key: SortKey)
    requires
        sorted_from(before, after, key),
        consistent(before, key),
    ensures
        forall|i: int, j: int|
            0 <= i < j < after.len() ==> !precedes(#[trigger] after[j], #[trigger] after[i], key),
{
    let positions = choose|positions: Seq<usize>| #[trigger]
        rearranges(positions, 0, before.len() as int) && after == picked(before, positions)
            && directories_first(before, positions) && (consistent(before, key) ==> in_order(
            before,
            key,
            positions,
        ));
    assert forall|i: int, j: int| 0 <= i < j < after.len() implies !precedes(
        #[trigger] after[j],
        #[trigger] after[i],
        key,
    ) by {
        assert(goes_before(before, key, positions[i] as int, positions[j] as int));
        assert(after[i] == before[positions[i] as int]);
        assert(after[j] == before[positions[j] as int]);
    }
}

/// In a sorted list directories come before files.
pub proof fn law_directories_come_first(
    before: Seq<PathItemView>,
    after: Seq<PathItemView>,
    key: SortKey,
)
    requires
        sorted_from(before, after, key),
    ensures
        forall|i: int, j: int|
            0 <= i < j < after.len() && is_dir_type((#[trigger] after[j]).path_type) ==> is_dir_type(
                (#[trigger] after[i]).path_type,
            ),
{
    let positions = choose|positions: Seq<usize>| #[trigger]
        rearranges(positions, 0, before.len() as int) && after == picked(before, positions)
            && directories_first(before, positions) && (consistent(before, key) ==> in_order(
            before,
            key,
            positions,
        ));
    assert forall|i: int, j: int|
        0 <= i < j < after.len() && is_dir_type((#[trigger] after[j]).path_type) implies is_dir_type(
        (#[trigger] after[i]).path_type,
    ) by {
        assert(after[i] == before[positions[i] as int]);
        assert(after[j] == before[positions[j] as int]);
    }
}

/// By what the query asks a listing to be ordered; nothing where it asks for an order that there is
/// not.
pub open spec fn key_of(query: Map<Seq<char>, Seq<char>>) -> Option<SortKey> {
    if !query.contains_key("sort"@) {
        Some(SortKey::Name)
    } else if query["sort"@] == "name"@ {
        Some(SortKey::Name)
    } else if query["sort"@] == "mtime"@ {
        Some(SortKey::Mtime)
    } else if query["sort"@] == "size"@ {
        Some(SortKey::Size)
    } else {
        None
    }
}

/// Whether the query asks for the listing in reverse.
pub open spec fn is_reversed(query: Map<Seq<char>, Seq<char>>) -> bool {
    query.contains_key("sort"@) && query.contains_key("order"@) && query["order"@] == "desc"@
}

/// Whether a listing is arranged as the query asks.
pub open spec fn arranged(
    before: Seq<PathItemView>,
    after: Seq<PathItemView>,
    query: Map<Seq<char>, Seq<char>>,
) -> bool {
    let forward = if is_reversed(query) {
        after.reverse()
    } else {
        after
    };
    match key_of(query) {
        Some(key) => sorted_from(before, forward, key),
        None => forward == before,
    }
}

/// Turns a list round.
fn reverse_items(items: &mut Vec<PathItem>)
    ensures
        item_views(final(items)@) == item_views(old(items)@).reverse(),
{
    let mut out: Vec<PathItem> = Vec::new();
    let mut i: usize = items.len();
    while i > 0
        invariant
            i <= items.len(),
            item_views(out@) == item_views(items@).skip(i as int).reverse(),
        decreases i,
    {
        let ghost had = item_views(out@);
        out.push(items[i - 1].copy());
        proof {
            let all = item_views(items@);
            assert(item_views(out@) =~= had.push(all[i - 1]));
            assert(all.skip(i - 1).reverse() =~= all.skip(i as int).reverse().push(all[i - 1]));
        }
        i = i - 1;
    }
    assert(item_views(items@).skip(0) =~= item_views(items@));
    *items = out;
}

/// Arranges a listing as the query asks.
pub fn arrange(items: &mut Vec<PathItem>, query: &StringMap)
    ensures
        arranged(item_views(old(items)@), item_views(final(items)@), query@),
{
    let ghost before = item_views(items@);
    match query.get("sort") {
        Some(sort) => {
            if same(sort, "name") {
                sort_by_key(items, SortKey::Name);
            } else if same(sort, "mtime") {
                sort_by_key(items, SortKey::Mtime);
            } else if same(sort, "size") {
                sort_by_key(items, SortKey::Size);
            }
            let descending = match query.get("order") {
                Some(order) => same(order, "desc"),
                None => false,
            };
            if descending {
                let ghost forward = item_views(items@);
                reverse_items(items);
                assert(item_views(items@).reverse() =~= forward);
            }
        },
        None => {
            sort_by_key(items, SortKey::Name);
        },
    }
}

} // verus!
