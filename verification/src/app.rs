//! The state of one session: the document index, its filtered and sorted
//! view with the selection cursor, and the pane that has focus.

use crate::collection_tree::{attach_order, library_ids, unresolved, BuildError, CollectionTree};
use crate::data_structures::{cursor_within, Collection, Document, StatefulList, YEAR_CHARS};
use crate::matching::{
    fuzzy_accepts, lemma_true_positions, select_hits, skim_accepts, true_positions,
};
use crate::sorting::{all_wf, handles_within, is_arranged, position_of, sort_entries};
use crate::ui::{UIBlock, UIBlockType};
use vstd::prelude::*;

verus! {

/// The direction of a sort: `Up` rises, `Down` falls.
#[derive(Debug, Copy, Clone, PartialEq, Eq, Structural)]
pub enum SortDirection {
    Up,
    Down,
}

/// The document is found by `search` under the field `ty`: the text shown
/// for it fuzzy-matches the search text.
pub open spec fn doc_matches(doc: Document, ty: UIBlockType, search: Seq<char>) -> bool {
    skim_accepts(doc.header_text(ty), search)
}

/// For each document of the index, whether `search` finds it.
pub open spec fn match_flags(docs: Seq<Document>, ty: UIBlockType, search: Seq<char>) -> Seq<bool> {
    Seq::new(docs.len(), |i: int| doc_matches(docs[i], ty, search))
}

/// The handles of the documents that `search` finds, in the order of the
/// index.
pub open spec fn matching_entries(docs: Seq<Document>, ty: UIBlockType, search: Seq<char>) -> Seq<
    usize,
> {
    true_positions(match_flags(docs, ty, search))
}

/// The handles of an index of `n` documents, in its order.
pub open spec fn all_entries(n: nat) -> Seq<usize> {
    Seq::new(n, |i: int| i as usize)
}

/// The view after the search text or the field has changed. A search text
/// selects the documents it finds. Without one the view goes back to the
/// whole index, unless it holds the whole index already: then it stays.
pub open spec fn refreshed_entries(
    docs: Seq<Document>,
    current: Seq<usize>,
    ty: UIBlockType,
    search: Seq<char>,
) -> Seq<usize> {
    if search.len() > 0 {
        matching_entries(docs, ty, search)
    } else if current.len() < docs.len() {
        all_entries(docs.len())
    } else {
        current
    }
}

/// The cursor on the first entry of a view of `len` entries, or nowhere in
/// an empty one.
pub open spec fn first_cursor(len: nat) -> Option<usize> {
    if len == 0 {
        None
    } else {
        Some(0usize)
    }
}

/// The cursor `after` a reordering is on the document it was on `before`;
/// where it was on none, it is on the first entry.
pub open spec fn cursor_follows(
    before: Seq<usize>,
    selected: Option<usize>,
    after: Seq<usize>,
    moved: Option<usize>,
) -> bool {
    if selected is Some && selected->0 < before.len() {
        moved matches Some(j) && j < after.len() && after[j as int] == before[selected->0 as int]
    } else {
        moved == first_cursor(after.len())
    }
}

/// The block with or without focus.
pub open spec fn with_focus(block: UIBlock, on: bool) -> UIBlock {
    UIBlock { ratio: block.ratio, ty: block.ty, activated: on }
}

/// The position of the first block of the kind `ty`, or the number of
/// blocks where there is none.
pub open spec fn block_position(blocks: Seq<UIBlock>, ty: UIBlockType) -> int
    decreases blocks.len(),
{
    if blocks.len() == 0 {
        0
    } else {
        let before = block_position(blocks.drop_last(), ty);
        if before < blocks.len() - 1 || blocks.last().ty == ty {
            before
        } else {
            blocks.len() as int
        }
    }
}

/// What `block_position` finds.
pub proof fn lemma_block_position(blocks: Seq<UIBlock>, ty: UIBlockType)
    ensures
        0 <= block_position(blocks, ty) <= blocks.len(),
        forall|k: int| 0 <= k < block_position(blocks, ty) ==> (#[trigger] blocks[k]).ty != ty,
        block_position(blocks, ty) < blocks.len() ==> blocks[block_position(blocks, ty)].ty == ty,
    decreases blocks.len(),
{
    if blocks.len() > 0 {
        let front = blocks.drop_last();
        lemma_block_position(front, ty);
        assert forall|k: int| 0 <= k < block_position(blocks, ty) implies (#[trigger] blocks[k]).ty
            != ty by {
            if k < front.len() {
                assert(front[k] == blocks[k]);
            }
        }
    }
}

/// The handles of an index of `n` documents.
pub fn all_handles(n: usize) -> (r: Vec<usize>)
    ensures
        r@ == all_entries(n as nat),
{
    let mut r: Vec<usize> = Vec::new();
    let mut i: usize = 0;
    while i < n
        invariant
            i <= n,
            r@ == all_entries(i as nat),
        decreases n - i,
    {
        r.push(i);
        assert(r@ =~= all_entries((i + 1) as nat));
        i += 1;
    }
    r
}

/// The state of a session.
pub struct App {
    /// The search text.
    pub search_input: String,
    /// The document index, in the order in which the documents were loaded.
    pub documents: Vec<Document>,
    /// The view: handles into `documents`, and the cursor.
    pub filtered_documents: StatefulList<usize>,
    /// The collection records, and the cursor of the collection pane.
    pub collections: StatefulList<Collection>,
    /// The forest of collections.
    pub collection_tree: CollectionTree,
    /// The position in `ui_blocks` of the pane that has focus.
    pub active_block_idx: usize,
    /// The position of the pane from which the search was entered.
    pub previous_block_idx: usize,
    /// Whether a sort was asked for.
    pub sorted: bool,
    pub show_popup: bool,
    /// The field that the search text is matched against.
    pub sort_by_type: UIBlockType,
    pub error_message: String,
    pub sort_direction: SortDirection,
    /// The panes, from left to right.
    pub ui_blocks: Vec<UIBlock>,
}

impl Default for App {
    fn default() -> (app: App)
        ensures
            app.search_input@.len() == 0,
            app.documents@.len() == 0,
            app.filtered_documents.items@.len() == 0,
            app.filtered_documents.selected is None,
            app.collections.items@.len() == 0,
            app.collections.selected is None,
            app.collection_tree.nodes@.len() == 0,
            app.collection_tree.edges@.len() == 0,
            app.active_block_idx == 1,
            app.previous_block_idx == 1,
            !app.sorted,
            !app.show_popup,
            app.sort_by_type == UIBlockType::Title,
            app.error_message@.len() == 0,
            app.sort_direction == SortDirection::Up,
            app.ui_blocks@.len() == 0,
            app.view_wf(),
    {
        App {
            sort_direction: SortDirection::Up,
            search_input: String::new(),
            documents: Vec::new(),
            error_message: String::new(),
            collections: StatefulList { selected: None, items: Vec::new() },
            filtered_documents: StatefulList { selected: None, items: Vec::new() },
            collection_tree: CollectionTree::new(),
            active_block_idx: 1,
            previous_block_idx: 1,
            sort_by_type: UIBlockType::Title,
            ui_blocks: Vec::new(),
            sorted: false,
            show_popup: false,
        }
    }
}

impl App {
    /// The view is a view of the index: every document can show its year,
    /// the view holds handles of the index, none twice, the cursor is on an
    /// entry or nowhere, and the search field is a document attribute.
    pub open spec fn view_wf(&self) -> bool {
        &&& all_wf(self.documents@)
        &&& handles_within(self.documents@, self.filtered_documents.items@)
        &&& self.filtered_documents.items@.no_duplicates()
        &&& cursor_within(self.filtered_documents.selected, self.filtered_documents.items@.len())
        &&& self.sort_by_type.searchable()
    }

    /// One of the panes has focus.
    pub open spec fn focus_wf(&self) -> bool {
        self.active_block_idx < self.ui_blocks@.len()
    }

    /// The kind of the pane that has focus.
    pub open spec fn active_type(&self) -> UIBlockType {
        self.ui_blocks@[self.active_block_idx as int].ty
    }

    /// The field that a sort goes by: that of the pane with focus, or the
    /// title where that pane shows no document attribute.
    pub open spec fn sort_field(&self) -> UIBlockType {
        if self.active_type().searchable() {
            self.active_type()
        } else {
            UIBlockType::Title
        }
    }

    /// Nothing but the view differs between the two states.
    pub open spec fn same_but_view(&self, other: &App) -> bool {
        &&& self.search_input == other.search_input
        &&& self.documents == other.documents
        &&& self.collections == other.collections
        &&& self.collection_tree == other.collection_tree
        &&& self.active_block_idx == other.active_block_idx
        &&& self.previous_block_idx == other.previous_block_idx
        &&& self.sorted == other.sorted
        &&& self.show_popup == other.show_popup
        &&& self.sort_by_type == other.sort_by_type
        &&& self.error_message == other.error_message
        &&& self.sort_direction == other.sort_direction
        &&& self.ui_blocks == other.ui_blocks
    }

    /// Nothing but the panes and the focus differs between the two states.
    pub open spec fn same_but_focus(&self, other: &App) -> bool {
        &&& self.search_input == other.search_input
        &&& self.documents == other.documents
        &&& self.filtered_documents == other.filtered_documents
        &&& self.collections == other.collections
        &&& self.collection_tree == other.collection_tree
        &&& self.previous_block_idx == other.previous_block_idx
        &&& self.sorted == other.sorted
        &&& self.show_popup == other.show_popup
        &&& self.sort_by_type == other.sort_by_type
        &&& self.error_message == other.error_message
        &&& self.sort_direction == other.sort_direction
    }

    /// Makes the session ready once the records are loaded: builds the
    /// forest from the collection records, which leave the collection list
    /// as they are attached, marks the pane that has focus, and computes
    /// the view. Where the forest cannot be completed the error is handed
    /// on, and panes and view are left as they were.
    pub fn finish_loading(&mut self) -> (r: Result<(), BuildError>)
        requires
            old(self).view_wf(),
            old(self).focus_wf(),
            old(self).collection_tree.nodes@.len() == 0,
            old(self).collection_tree.edges@.len() == 0,
        ensures
            final(self).view_wf(),
            final(self).focus_wf(),
            final(self).collection_tree.wf(),
            final(self).collection_tree.is_forest_of(
                library_ids(old(self).collections.items@),
                attach_order(old(self).collections.items@),
            ),
            final(self).collections.items@ == unresolved(old(self).collections.items@),
            final(self).collections.selected == old(self).collections.selected,
            r is Ok <==> unresolved(old(self).collections.items@).len() == 0,
            r matches Err(e) ==> e == (BuildError::UnresolvedParent {
                collection_id: unresolved(old(self).collections.items@)[0].collectionId,
            }),
            final(self).search_input == old(self).search_input,
            final(self).documents == old(self).documents,
            final(self).active_block_idx == old(self).active_block_idx,
            final(self).previous_block_idx == old(self).previous_block_idx,
            final(self).sorted == old(self).sorted,
            final(self).show_popup == old(self).show_popup,
            final(self).sort_by_type == old(self).sort_by_type,
            final(self).error_message == old(self).error_message,
            final(self).sort_direction == old(self).sort_direction,
            r is Err ==> final(self).ui_blocks == old(self).ui_blocks && final(self).filtered_documents == old(self).filtered_documents,
            r is Ok ==> final(self).ui_blocks@ == old(self).ui_blocks@.update(
                old(self).active_block_idx as int,
                with_focus(old(self).ui_blocks@[old(self).active_block_idx as int], true),
            ) && final(self).filtered_documents.items@ == refreshed_entries(
                old(self).documents@,
                old(self).filtered_documents.items@,
                old(self).sort_by_type,
                old(self).search_input@,
            ) && final(self).filtered_documents.selected == first_cursor(
                final(self).filtered_documents.items@.len(),
            ),
    {
        let built = self.collection_tree.build_collection_tree(&mut self.collections.items);
        match built {
            Ok(()) => {
                self.refresh_active_block();
                self.update_filtered_doc();
                Ok(())
            },
            Err(e) => Err(e),
        }
    }

    /// Tells whether the session is in order: whether `view_wf` and
    /// `focus_wf` hold of it.
    pub fn is_well_formed(&self) -> (ok: bool)
        ensures
            ok == (self.view_wf() && self.focus_wf()),
    {
        if self.active_block_idx >= self.ui_blocks.len() || !self.sort_by_type.is_searchable() {
            return false;
        }
        if let Some(i) = self.filtered_documents.selected {
            if i >= self.filtered_documents.items.len() {
                return false;
            }
        }
        let n = self.documents.len();
        let mut seen: Vec<bool> = Vec::new();
        let mut d: usize = 0;
        while d < n
            invariant
                d <= n,
                n == self.documents@.len(),
                seen@.len() == d,
                forall|k: int| 0 <= k < d ==> !(#[trigger] seen@[k]),
                forall|k: int| 0 <= k < d ==> (#[trigger] self.documents@[k]).wf(),
            decreases n - d,
        {
            if self.documents[d].item_data.pubdate.as_str().unicode_len() < YEAR_CHARS {
                return false;
            }
            seen.push(false);
            d += 1;
        }
        let mut k: usize = 0;
        while k < self.filtered_documents.items.len()
            invariant
                k <= self.filtered_documents.items@.len(),
                n == self.documents@.len(),
                seen@.len() == n,
                forall|j: int| 0 <= j < k ==> (#[trigger] self.filtered_documents.items@[j]) < n,
                forall|a: int, b: int|
                    0 <= a < b < k ==> self.filtered_documents.items@[a]
                        != self.filtered_documents.items@[b],
                forall|h: int|
                    0 <= h < n ==> (#[trigger] seen@[h] <==> exists|j: int|
                        0 <= j < k && #[trigger] self.filtered_documents.items@[j] == h),
            decreases self.filtered_documents.items@.len() - k,
        {
            let h = self.filtered_documents.items[k];
            if h >= n {
                return false;
            }
            if seen[h] {
                proof {
                    let j = choose|j: int|
                        0 <= j < k && #[trigger] self.filtered_documents.items@[j] == h;
                    assert(self.filtered_documents.items@[j] == self.filtered_documents.items@[k as int]);
                }
                return false;
            }
            let ghost before = seen@;
            seen.set(h, true);
            proof {
                assert forall|g: int| 0 <= g < n implies (#[trigger] seen@[g] <==> exists|j: int|
                    0 <= j < k + 1 && #[trigger] self.filtered_documents.items@[j] == g) by {
                    if g == h {
                        assert(self.filtered_documents.items@[k as int] == g);
                    } else {
                        assert(seen@[g] == before[g]);
                        if before[g] {
                            let j = choose|j: int|
                                0 <= j < k && #[trigger] self.filtered_documents.items@[j] == g;
                            assert(self.filtered_documents.items@[j] == g);
                        }
                    }
                }
            }
            k += 1;
        }
        true
    }

    /// A tick of the clock changes nothing.
    pub fn update_on_tick(&self) {
    }

    /// Asks for a sort, or for the other direction. The first request sorts
    /// in rising order; each further one turns the direction round.
    pub fn toggle_sorted(&mut self)
        ensures
            final(self).sorted,
            final(self).sort_direction == (if !old(self).sorted || old(self).sort_direction
                == SortDirection::Down {
                SortDirection::Up
            } else {
                SortDirection::Down
            }),
            final(self).search_input == old(self).search_input,
            final(self).documents == old(self).documents,
            final(self).filtered_documents == old(self).filtered_documents,
            final(self).collections == old(self).collections,
            final(self).collection_tree == old(self).collection_tree,
            final(self).active_block_idx == old(self).active_block_idx,
            final(self).previous_block_idx == old(self).previous_block_idx,
            final(self).show_popup == old(self).show_popup,
            final(self).sort_by_type == old(self).sort_by_type,
            final(self).error_message == old(self).error_message,
            final(self).ui_blocks == old(self).ui_blocks,
    {
        if !self.sorted {
            self.sorted = true;
            self.sort_direction = SortDirection::Up;
        } else if self.sort_direction == SortDirection::Up {
            self.sort_direction = SortDirection::Down;
        } else {
            self.sort_direction = SortDirection::Up;
        }
    }

    /// Puts the view in the order of `field` and the sort direction, and
    /// keeps the cursor on the document it was on.
    fn arrange(&mut self, field: Option<UIBlockType>, dir: SortDirection)
        requires
            old(self).view_wf(),
        ensures
            final(self).view_wf(),
            final(self).same_but_view(old(self)),
            is_arranged(
                old(self).documents@,
                field,
                dir,
                old(self).filtered_documents.items@,
                final(self).filtered_documents.items@,
            ),
            cursor_follows(
                old(self).filtered_documents.items@,
                old(self).filtered_documents.selected,
                final(self).filtered_documents.items@,
                final(self).filtered_documents.selected,
            ),
    {
        let ghost before = self.filtered_documents.items@;
        let chosen: Option<usize> = match self.filtered_documents.selected {
            Some(i) => Some(self.filtered_documents.items[i]),
            None => None,
        };
        let sorted = sort_entries(&self.documents, &self.filtered_documents.items, field, dir);
        let moved: Option<usize> = match chosen {
            Some(h) => {
                proof {
                    assert(before.contains(h));
                }
                position_of(&sorted, h)
            },
            None => if sorted.len() > 0 {
                Some(0)
            } else {
                None
            },
        };
        self.filtered_documents.items = sorted;
        self.filtered_documents.selected = moved;
    }

    /// Sorts the view by the field of the pane that has focus, or by title
    /// where that pane shows no document attribute, in the sort direction.
    /// Documents with the same text stand by identifier. The view keeps its
    /// documents, and the cursor stays on the document it was on.
    pub fn sort_documents(&mut self)
        requires
            old(self).view_wf(),
            old(self).focus_wf(),
        ensures
            final(self).view_wf(),
            final(self).same_but_view(old(self)),
            is_arranged(
                old(self).documents@,
                Some(old(self).sort_field()),
                old(self).sort_direction,
                old(self).filtered_documents.items@,
                final(self).filtered_documents.items@,
            ),
            cursor_follows(
                old(self).filtered_documents.items@,
                old(self).filtered_documents.selected,
                final(self).filtered_documents.items@,
                final(self).filtered_documents.selected,
            ),
    {
        let ty = self.ui_blocks[self.active_block_idx].ty;
        let field = if ty.is_searchable() {
            ty
        } else {
            UIBlockType::Title
        };
        let dir = self.sort_direction;
        self.arrange(Some(field), dir);
    }

    /// Puts the view back in the natural order, by rising document
    /// identifier. The view keeps its documents, and the cursor stays on the
    /// document it was on.
    pub fn unsort_documents(&mut self)
        requires
            old(self).view_wf(),
        ensures
            final(self).view_wf(),
            final(self).same_but_view(old(self)),
            is_arranged(
                old(self).documents@,
                None,
                SortDirection::Up,
                old(self).filtered_documents.items@,
                final(self).filtered_documents.items@,
            ),
            cursor_follows(
                old(self).filtered_documents.items@,
                old(self).filtered_documents.selected,
                final(self).filtered_documents.items@,
                final(self).filtered_documents.selected,
            ),
    {
        self.arrange(None, SortDirection::Up);
    }

    /// The handle of the document under the cursor.
    pub fn get_selected_doc(&self) -> (r: Option<usize>)
        ensures
            r == (if self.filtered_documents.selected is Some
                && self.filtered_documents.selected->0 < self.filtered_documents.items@.len() {
                Some(
                    self.filtered_documents.items@[self.filtered_documents.selected->0 as int],
                )
            } else {
                None
            }),
    {
        match self.filtered_documents.selected {
            Some(idx) => if idx < self.filtered_documents.items.len() {
                Some(self.filtered_documents.items[idx])
            } else {
                None
            },
            None => None,
        }
    }

    /// Recomputes the view from the index after a change of the search text
    /// or of the search field. With a search text the view holds exactly the
    /// documents whose text under the search field fuzzy-matches it, in the
    /// order of the index. Without one it goes back to the whole index,
    /// unless it holds every document already. The cursor goes to the first
    /// entry.
    pub fn update_filtered_doc(&mut self)
        requires
            old(self).view_wf(),
        ensures
            final(self).view_wf(),
            final(self).same_but_view(old(self)),
            final(self).filtered_documents.items@ == refreshed_entries(
                old(self).documents@,
                old(self).filtered_documents.items@,
                old(self).sort_by_type,
                old(self).search_input@,
            ),
            final(self).filtered_documents.selected == first_cursor(
                final(self).filtered_documents.items@.len(),
            ),
            old(self).search_input@.len() > 0 ==> forall|h: usize|
                final(self).filtered_documents.items@.contains(h) <==> (h < old(self).documents@.len() && doc_matches(
                    old(self).documents@[h as int],
                    old(self).sort_by_type,
                    old(self).search_input@,
                )),
    {
        let ghost docs = self.documents@;
        let ghost search = self.search_input@;
        let ty = self.sort_by_type;
        if !self.search_input.as_str().is_empty() {
            let mut found: Vec<bool> = Vec::new();
            let mut i: usize = 0;
            while i < self.documents.len()
                invariant
                    i <= self.documents@.len(),
                    found@.len() == i,
                    all_wf(self.documents@),
                    ty.searchable(),
                    self.documents@ == docs,
                    self.search_input@ == search,
                    forall|k: int|
                        0 <= k < i ==> (#[trigger] found@[k]) == doc_matches(docs[k], ty, search),
                decreases self.documents@.len() - i,
            {
                let entry = self.documents[i].build_header_for_block_type(ty);
                found.push(fuzzy_accepts(entry.as_str(), self.search_input.as_str()));
                i += 1;
            }
            let hits = select_hits(&found);
            proof {
                let flags = match_flags(docs, ty, search);
                assert(found@ =~= flags);
                lemma_true_positions(flags);
                assert forall|h: usize| hits@.contains(h) <==> (h < docs.len() && doc_matches(
                    docs[h as int],
                    ty,
                    search,
                )) by {
                    if hits@.contains(h) {
                        let k = choose|k: int| 0 <= k < hits@.len() && hits@[k] == h;
                        assert(flags[hits@[k] as int]);
                    }
                    if h < docs.len() && doc_matches(docs[h as int], ty, search) {
                        assert(flags[h as int]);
                    }
                }
            }
            self.filtered_documents.items = hits;
        } else if self.filtered_documents.items.len() < self.documents.len() {
            self.filtered_documents.items = all_handles(self.documents.len());
        }
        self.filtered_documents.selected = if self.filtered_documents.items.len() > 0 {
            Some(0)
        } else {
            None
        };
    }

    /// The pane that has focus.
    pub fn get_active_block(&self) -> (r: &UIBlock)
        requires
            self.focus_wf(),
        ensures
            *r == self.ui_blocks@[self.active_block_idx as int],
    {
        &self.ui_blocks[self.active_block_idx]
    }

    /// The position of the first pane of the kind `ty`.
    pub fn find_block(&self, ty: UIBlockType) -> (r: Option<usize>)
        ensures
            r matches Some(k) ==> k == block_position(self.ui_blocks@, ty) && k
                < self.ui_blocks@.len(),
            r is None ==> block_position(self.ui_blocks@, ty) == self.ui_blocks@.len(),
    {
        proof {
            lemma_block_position(self.ui_blocks@, ty);
        }
        let mut k: usize = 0;
        while k < self.ui_blocks.len()
            invariant
                k <= self.ui_blocks@.len(),
                forall|j: int| 0 <= j < k ==> (#[trigger] self.ui_blocks@[j]).ty != ty,
                0 <= block_position(self.ui_blocks@, ty) <= self.ui_blocks@.len(),
                forall|j: int|
                    0 <= j < block_position(self.ui_blocks@, ty) ==> (#[trigger] self.ui_blocks@[j]).ty
                        != ty,
                block_position(self.ui_blocks@, ty) < self.ui_blocks@.len()
                    ==> self.ui_blocks@[block_position(self.ui_blocks@, ty)].ty == ty,
            decreases self.ui_blocks@.len() - k,
        {
            if self.ui_blocks[k].ty == ty {
                return Some(k);
            }
            k += 1;
        }
        None
    }

    /// The first pane of the kind `ty`.
    pub fn get_block_with_type(&self, ty: UIBlockType) -> (r: &UIBlock)
        requires
            block_position(self.ui_blocks@, ty) < self.ui_blocks@.len(),
        ensures
            *r == self.ui_blocks@[block_position(self.ui_blocks@, ty)],
    {
        match self.find_block(ty) {
            Some(k) => &self.ui_blocks[k],
            None => vstd::pervasive::unreached(),
        }
    }

    /// Marks the pane that has focus as active.
    pub fn refresh_active_block(&mut self)
        requires
            old(self).focus_wf(),
        ensures
            final(self).same_but_focus(old(self)),
            final(self).active_block_idx == old(self).active_block_idx,
            final(self).ui_blocks@ == old(self).ui_blocks@.update(
                old(self).active_block_idx as int,
                with_focus(old(self).ui_blocks@[old(self).active_block_idx as int], true),
            ),
    {
        self.mark(self.active_block_idx, true);
    }

    /// Sets the focus mark of the pane at `at`.
    fn mark(&mut self, at: usize, on: bool)
        requires
            at < old(self).ui_blocks@.len(),
        ensures
            final(self).same_but_focus(old(self)),
            final(self).active_block_idx == old(self).active_block_idx,
            final(self).ui_blocks@ == old(self).ui_blocks@.update(
                at as int,
                with_focus(old(self).ui_blocks@[at as int], on),
            ),
    {
        let block = self.ui_blocks[at];
        self.ui_blocks.set(at, UIBlock { ratio: block.ratio, ty: block.ty, activated: on });
    }

    /// Moves the focus from the pane that has it to the pane at `to`.
    pub fn move_focus(&mut self, to: usize)
        requires
            old(self).focus_wf(),
            to < old(self).ui_blocks@.len(),
        ensures
            final(self).same_but_focus(old(self)),
            final(self).active_block_idx == to,
            final(self).ui_blocks@ == focus_moved(
                old(self).ui_blocks@,
                old(self).active_block_idx as int,
                to as int,
            ),
    {
        self.mark(self.active_block_idx, false);
        self.active_block_idx = to;
        self.mark(to, true);
    }

    /// Moves the focus one pane to the right. On the last pane nothing
    /// changes.
    pub fn select_next_block(&mut self)
        requires
            old(self).focus_wf(),
        ensures
            final(self).same_but_focus(old(self)),
            final(self).focus_wf(),
            old(self).active_block_idx + 1 < old(self).ui_blocks@.len() ==> final(self).active_block_idx == old(self).active_block_idx + 1 && final(self).ui_blocks@
                == focus_moved(
                old(self).ui_blocks@,
                old(self).active_block_idx as int,
                old(self).active_block_idx + 1,
            ),
            old(self).active_block_idx + 1 >= old(self).ui_blocks@.len() ==> final(self).active_block_idx == old(self).active_block_idx && final(self).ui_blocks == old(self).ui_blocks,
    {
        let cur_idx = self.active_block_idx;
        if cur_idx < self.ui_blocks.len() - 1 {
            self.move_focus(cur_idx + 1);
        }
    }

    /// Moves the focus one pane to the left. On the first pane nothing
    /// changes.
    pub fn select_prev_block(&mut self)
        requires
            old(self).focus_wf(),
        ensures
            final(self).same_but_focus(old(self)),
            final(self).focus_wf(),
            old(self).active_block_idx > 0 ==> final(self).active_block_idx == old(self).active_block_idx - 1 && final(self).ui_blocks@ == focus_moved(
                old(self).ui_blocks@,
                old(self).active_block_idx as int,
                old(self).active_block_idx - 1,
            ),
            old(self).active_block_idx == 0 ==> final(self).active_block_idx == 0 && final(self).ui_blocks == old(self).ui_blocks,
    {
        let cur_idx = self.active_block_idx;
        if cur_idx > 0 {
            self.move_focus(cur_idx - 1);
        }
    }

    /// Gives the focus to the first pane of the kind `ty`.
    pub fn set_active_block_with_type(&mut self, ty: UIBlockType)
        requires
            old(self).focus_wf(),
            block_position(old(self).ui_blocks@, ty) < old(self).ui_blocks@.len(),
        ensures
            final(self).same_but_focus(old(self)),
            final(self).focus_wf(),
            final(self).active_block_idx == block_position(old(self).ui_blocks@, ty),
            final(self).ui_blocks@ == focus_moved(
                old(self).ui_blocks@,
                old(self).active_block_idx as int,
                block_position(old(self).ui_blocks@, ty),
            ),
    {
        match self.find_block(ty) {
            Some(to) => {
                self.move_focus(to);
            },
            None => {
                assert(false);
            },
        }
    }
}

/// The panes after the focus has gone from the pane at `from` to the pane
/// at `to`: the first loses its mark, the second gets it, and each keeps its
/// kind and its width.
pub open spec fn focus_moved(blocks: Seq<UIBlock>, from: int, to: int) -> Seq<UIBlock> {
    let cleared = blocks.update(from, with_focus(blocks[from], false));
    cleared.update(to, with_focus(cleared[to], true))
}

} // verus!
