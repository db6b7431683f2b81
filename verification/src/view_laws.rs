//! What holds of the view whatever the documents are: what a search
//! selects, that recomputing settles at once, and how sorting, turning the
//! direction and unsorting relate.

use crate::app::{
    cursor_follows, doc_matches, match_flags, matching_entries, refreshed_entries, SortDirection,
};
use crate::data_structures::Document;
use crate::matching::lemma_true_positions;
use crate::sorting::{
    doc_at, is_arranged, is_sorted, lemma_sorted_views_equal, precedes, same_members,
};
use crate::text::lemma_lex_irreflexive;
use crate::ui::UIBlockType;
use vstd::prelude::*;

verus! {

/// The other direction.
pub open spec fn opposite(dir: SortDirection) -> SortDirection {
    match dir {
        SortDirection::Up => SortDirection::Down,
        SortDirection::Down => SortDirection::Up,
    }
}

/// A search selects exactly the documents it finds: every entry of the
/// result matches, no document outside it does, and the entries stand in
/// the order of the index, each once.
pub proof fn lemma_search_sound_and_complete(
    docs: Seq<Document>,
    ty: UIBlockType,
    search: Seq<char>,
)
    requires
        docs.len() <= usize::MAX,
    ensures
        forall|h: usize|
            matching_entries(docs, ty, search).contains(h) <==> (h < docs.len() && doc_matches(
                docs[h as int],
                ty,
                search,
            )),
        forall|j: int, k: int|
            0 <= j < k < matching_entries(docs, ty, search).len() ==> matching_entries(
                docs,
                ty,
                search,
            )[j] < matching_entries(docs, ty, search)[k],
{
    let flags = match_flags(docs, ty, search);
    let hits = matching_entries(docs, ty, search);
    lemma_true_positions(flags);
    assert forall|h: usize| hits.contains(h) <==> (h < docs.len() && doc_matches(
        docs[h as int],
        ty,
        search,
    )) by {
        if hits.contains(h) {
            let k = choose|k: int| 0 <= k < hits.len() && hits[k] == h;
            assert(flags[hits[k] as int]);
        }
        if h < docs.len() && doc_matches(docs[h as int], ty, search) {
            assert(flags[h as int]);
        }
    }
}

/// Recomputing the view a second time, with the same search text and the
/// same field, changes nothing.
pub proof fn lemma_refresh_idempotent(
    docs: Seq<Document>,
    current: Seq<usize>,
    ty: UIBlockType,
    search: Seq<char>,
)
    ensures
        refreshed_entries(docs, refreshed_entries(docs, current, ty, search), ty, search)
            == refreshed_entries(docs, current, ty, search),
{
}

/// A view sorted one way and read backwards is sorted the other way.
pub proof fn lemma_reverse_sorted(
    docs: Seq<Document>,
    field: Option<UIBlockType>,
    dir: SortDirection,
    items: Seq<usize>,
)
    requires
        is_sorted(docs, field, dir, items),
    ensures
        is_sorted(docs, field, opposite(dir), items.reverse()),
{
    let back = items.reverse();
    assert forall|i: int, j: int| 0 <= i < j < back.len() implies precedes(
        docs,
        field,
        opposite(dir),
        #[trigger] back[i],
        #[trigger] back[j],
    ) by {
        let n = items.len();
        assert(precedes(docs, field, dir, items[n - 1 - j], items[n - 1 - i]));
    }
}

/// Sorting a view and then sorting it in the other direction gives the
/// first result read backwards.
pub proof fn lemma_turned_sort_is_reverse(
    docs: Seq<Document>,
    field: Option<UIBlockType>,
    dir: SortDirection,
    from: Seq<usize>,
    first: Seq<usize>,
    second: Seq<usize>,
)
    requires
        is_arranged(docs, field, dir, from, first),
        is_arranged(docs, field, opposite(dir), first, second),
    ensures
        second == first.reverse(),
{
    let back = first.reverse();
    lemma_reverse_sorted(docs, field, dir, first);
    assert forall|h: usize| second.contains(h) <==> back.contains(h) by {
        if first.contains(h) {
            let k = choose|k: int| 0 <= k < first.len() && first[k] == h;
            assert(back[first.len() - 1 - k] == h);
        }
        if back.contains(h) {
            let k = choose|k: int| 0 <= k < back.len() && back[k] == h;
            assert(first[first.len() - 1 - k] == h);
        }
    }
    lemma_sorted_views_equal(docs, field, opposite(dir), second, back);
}

/// Unsorting gives the documents of the view by rising identifier, whatever
/// order the view was in: two views with the same documents unsort to the
/// same view.
pub proof fn lemma_unsort_forgets_order(
    docs: Seq<Document>,
    one: Seq<usize>,
    other: Seq<usize>,
    one_unsorted: Seq<usize>,
    other_unsorted: Seq<usize>,
)
    requires
        same_members(one, other),
        is_arranged(docs, None, SortDirection::Up, one, one_unsorted),
        is_arranged(docs, None, SortDirection::Up, other, other_unsorted),
    ensures
        one_unsorted == other_unsorted,
        forall|i: int, j: int|
            0 <= i < j < one_unsorted.len() ==> doc_at(docs, #[trigger] one_unsorted[i]).item_data.itemId
                <= doc_at(docs, #[trigger] one_unsorted[j]).item_data.itemId,
{
    assert forall|h: usize| one_unsorted.contains(h) <==> other_unsorted.contains(h) by {
        assert(one_unsorted.contains(h) <==> one.contains(h));
        assert(other.contains(h) <==> one.contains(h));
        assert(other_unsorted.contains(h) <==> other.contains(h));
    }
    lemma_sorted_views_equal(docs, None, SortDirection::Up, one_unsorted, other_unsorted);
    assert forall|i: int, j: int| 0 <= i < j < one_unsorted.len() implies doc_at(
        docs,
        #[trigger] one_unsorted[i],
    ).item_data.itemId <= doc_at(docs, #[trigger] one_unsorted[j]).item_data.itemId by {
        assert(precedes(docs, None, SortDirection::Up, one_unsorted[i], one_unsorted[j]));
        lemma_lex_irreflexive(Seq::<char>::empty());
    }
}

/// A reordering keeps the selected document selected: the cursor that
/// follows it is on the same handle as before.
pub proof fn lemma_cursor_keeps_document(
    before: Seq<usize>,
    selected: usize,
    after: Seq<usize>,
    moved: Option<usize>,
)
    requires
        selected < before.len(),
        same_members(before, after),
        cursor_follows(before, Some(selected), after, moved),
    ensures
        moved is Some,
        moved->0 < after.len(),
        after[moved->0 as int] == before[selected as int],
        forall|j: int| 0 <= j < after.len() && after[j] == before[selected as int] ==> j == moved->0,
{
}

} // verus!
