//! What each key does to the session.

use crate::app::{
    block_position, cursor_follows, first_cursor, focus_moved, lemma_block_position,
    refreshed_entries, App, SortDirection,
};
use crate::data_structures::{cursor_after, cursor_before, Attachment, Document};
use crate::event::{Action, AttachmentLocation, Key};
use crate::sorting::{handles_within, is_arranged};
use crate::text::{has_infix, str_contains, string_pop, string_push};
use crate::ui::UIBlockType;
use vstd::prelude::*;

verus! {

/// The number of characters in front of the file name in the stored path of
/// an attachment: the storage mark and its colon.
pub const STORAGE_MARK_CHARS: usize = 8;

/// The attachment is a PDF: its content type names `pdf`.
pub open spec fn is_pdf(att: Attachment) -> bool {
    att.contentType matches Some(ty) && has_infix(ty@, "pdf"@)
}

/// The position of the first PDF among the attachments, or their number
/// where there is none.
pub open spec fn first_pdf(attachments: Seq<Attachment>) -> int
    decreases attachments.len(),
{
    if attachments.len() == 0 {
        0
    } else {
        let before = first_pdf(attachments.drop_last());
        if before < attachments.len() - 1 || is_pdf(attachments.last()) {
            before
        } else {
            attachments.len() as int
        }
    }
}

/// What `first_pdf` finds.
pub proof fn lemma_first_pdf(attachments: Seq<Attachment>)
    ensures
        0 <= first_pdf(attachments) <= attachments.len(),
        forall|k: int| 0 <= k < first_pdf(attachments) ==> !is_pdf(#[trigger] attachments[k]),
        first_pdf(attachments) < attachments.len() ==> is_pdf(attachments[first_pdf(attachments)]),
    decreases attachments.len(),
{
    if attachments.len() > 0 {
        let front = attachments.drop_last();
        lemma_first_pdf(front);
        assert forall|k: int| 0 <= k < first_pdf(attachments) implies !is_pdf(
            #[trigger] attachments[k],
        ) by {
            if k < front.len() {
                assert(front[k] == attachments[k]);
            }
        }
    }
}

/// The attachment can be found on disk: it has a key, and a stored path
/// that is long enough to hold the storage mark.
pub open spec fn has_location(att: Attachment) -> bool {
    &&& att.key is Some
    &&& att.path is Some
    &&& att.path->0@.len() >= STORAGE_MARK_CHARS
}

/// The handle of the document under the cursor.
pub open spec fn selected_handle(app: &App) -> Option<usize> {
    if app.filtered_documents.selected is Some && app.filtered_documents.selected->0
        < app.filtered_documents.items@.len() {
        Some(app.filtered_documents.items@[app.filtered_documents.selected->0 as int])
    } else {
        None
    }
}

/// The attachment that Enter opens: the first PDF of the document under the
/// cursor, if that PDF can be found on disk.
pub open spec fn opening_target(app: &App) -> Option<Attachment> {
    match selected_handle(app) {
        Some(h) => match app.documents@[h as int].attachments {
            Some(list) => {
                let at = first_pdf(list.items@);
                if at < list.items@.len() && has_location(list.items@[at]) {
                    Some(list.items@[at])
                } else {
                    None
                }
            },
            None => None,
        },
        None => None,
    }
}

/// The attachment to open on Enter: the first PDF of the document under the
/// cursor, by its key and by its stored path without the storage mark.
/// There is none where no document is selected, where the document has no
/// PDF, or where that PDF has no key or no usable path.
pub fn handle_enter(app: &App) -> (r: Option<AttachmentLocation>)
    requires
        handles_within(app.documents@, app.filtered_documents.items@),
    ensures
        r is Some <==> opening_target(app) is Some,
        r matches Some(loc) ==> loc.key@ == opening_target(app)->0.key->0@ && loc.file@
            == opening_target(app)->0.path->0@.skip(STORAGE_MARK_CHARS as int),
{
    let h = match app.get_selected_doc() {
        Some(h) => h,
        None => {
            return None;
        },
    };
    let list = match &app.documents[h].attachments {
        Some(list) => list,
        None => {
            return None;
        },
    };
    proof {
        lemma_first_pdf(list.items@);
    }
    let mut a: usize = 0;
    while a < list.items.len()
        invariant
            a <= list.items@.len(),
            selected_handle(app) == Some(h),
            app.documents@[h as int].attachments == Some(*list),
            forall|k: int| 0 <= k < a ==> !is_pdf(#[trigger] list.items@[k]),
            0 <= first_pdf(list.items@) <= list.items@.len(),
            forall|k: int|
                0 <= k < first_pdf(list.items@) ==> !is_pdf(#[trigger] list.items@[k]),
            first_pdf(list.items@) < list.items@.len() ==> is_pdf(
                list.items@[first_pdf(list.items@)],
            ),
        decreases list.items@.len() - a,
    {
        let att = &list.items[a];
        let pdf = match &att.contentType {
            Some(ty) => str_contains(ty.as_str(), "pdf"),
            None => false,
        };
        if pdf {
            assert(a == first_pdf(list.items@));
            return match (&att.key, &att.path) {
                (Some(key), Some(path)) => {
                    let chars = path.as_str().unicode_len();
                    if chars >= STORAGE_MARK_CHARS {
                        let file = path.as_str().substring_char(STORAGE_MARK_CHARS, chars);
                        assert(file@ =~= path@.skip(STORAGE_MARK_CHARS as int));
                        Some(
                            AttachmentLocation {
                                key: key.clone(),
                                file: String::from_str(file),
                            },
                        )
                    } else {
                        None
                    }
                },
                _ => None,
            };
        }
        a += 1;
    }
    None
}

/// The parts of the session that an operation may change.
pub struct Touched {
    pub search: bool,
    pub documents: bool,
    pub view: bool,
    pub collections: bool,
    pub focus: bool,
    pub sorting: bool,
    pub field: bool,
    pub remembered: bool,
}

/// Nothing is touched.
pub open spec fn nothing() -> Touched {
    Touched {
        search: false,
        documents: false,
        view: false,
        collections: false,
        focus: false,
        sorting: false,
        field: false,
        remembered: false,
    }
}

/// Every part of the session that is not named in `touched` is in `post`
/// what it was in `pre`.
pub open spec fn untouched(pre: &App, post: &App, touched: Touched) -> bool {
    &&& !touched.search ==> post.search_input == pre.search_input
    &&& !touched.documents ==> post.documents == pre.documents
    &&& !touched.view ==> post.filtered_documents == pre.filtered_documents
    &&& !touched.collections ==> post.collections == pre.collections
    &&& !touched.focus ==> post.active_block_idx == pre.active_block_idx && post.ui_blocks
        == pre.ui_blocks
    &&& !touched.sorting ==> post.sorted == pre.sorted && post.sort_direction == pre.sort_direction
    &&& !touched.field ==> post.sort_by_type == pre.sort_by_type
    &&& !touched.remembered ==> post.previous_block_idx == pre.previous_block_idx
    &&& post.collection_tree == pre.collection_tree
    &&& post.show_popup == pre.show_popup
    &&& post.error_message == pre.error_message
}

/// The view of `post` is the view of `pre` recomputed for the search text
/// and the search field of `post`, with the cursor on its first entry.
pub open spec fn view_refreshed(pre: &App, post: &App) -> bool {
    &&& post.filtered_documents.items@ == refreshed_entries(
        pre.documents@,
        pre.filtered_documents.items@,
        post.sort_by_type,
        post.search_input@,
    )
    &&& post.filtered_documents.selected == first_cursor(post.filtered_documents.items@.len())
}

/// The cursor of the pane that has focus went one step, forward or back:
/// that of the collection list in the collection pane, that of the view in
/// every other pane.
pub open spec fn cursor_stepped(pre: &App, post: &App, forward: bool) -> bool {
    if pre.active_type() == UIBlockType::Collections {
        &&& untouched(pre, post, Touched { collections: true, ..nothing() })
        &&& post.collections.items == pre.collections.items
        &&& post.collections.selected == (if forward {
            cursor_after(pre.collections.selected, pre.collections.items@.len())
        } else {
            cursor_before(pre.collections.selected, pre.collections.items@.len())
        })
    } else {
        &&& untouched(pre, post, Touched { view: true, ..nothing() })
        &&& post.filtered_documents.items == pre.filtered_documents.items
        &&& post.filtered_documents.selected == (if forward {
            cursor_after(pre.filtered_documents.selected, pre.filtered_documents.items@.len())
        } else {
            cursor_before(pre.filtered_documents.selected, pre.filtered_documents.items@.len())
        })
    }
}

/// The pane to the right of the one that has focus, or that one if it is the
/// last.
pub open spec fn pane_right(pre: &App) -> int {
    if pre.active_block_idx + 1 < pre.ui_blocks@.len() {
        pre.active_block_idx + 1
    } else {
        pre.active_block_idx as int
    }
}

/// The pane to the left of the one that has focus, or that one if it is the
/// first.
pub open spec fn pane_left(pre: &App) -> int {
    if pre.active_block_idx > 0 {
        pre.active_block_idx - 1
    } else {
        0
    }
}

/// The focus went to the pane at `to`, and the view was recomputed. Where
/// `to` is the pane that had focus, the panes are as they were.
pub open spec fn pane_changed(pre: &App, post: &App, to: int) -> bool {
    &&& untouched(pre, post, Touched { focus: true, view: true, ..nothing() })
    &&& post.active_block_idx == to
    &&& post.ui_blocks@ == (if to == pre.active_block_idx {
        pre.ui_blocks@
    } else {
        focus_moved(pre.ui_blocks@, pre.active_block_idx as int, to)
    })
    &&& view_refreshed(pre, post)
}

/// The search text became `text`, and the view was recomputed.
pub open spec fn search_edited(pre: &App, post: &App, text: Seq<char>) -> bool {
    &&& untouched(pre, post, Touched { search: true, view: true, ..nothing() })
    &&& post.search_input@ == text
    &&& view_refreshed(pre, post)
}

/// The search text without its last character; an empty text stays empty.
pub open spec fn without_last(text: Seq<char>) -> Seq<char> {
    if text.len() > 0 {
        text.drop_last()
    } else {
        text
    }
}

/// The direction of the sort after one more request: rising on the first,
/// turned round on each further one.
pub open spec fn next_direction(pre: &App) -> SortDirection {
    if !pre.sorted || pre.sort_direction == SortDirection::Down {
        SortDirection::Up
    } else {
        SortDirection::Down
    }
}

/// A sort was asked for: the view stands in the order of the sort field
/// and the new direction, with the cursor on the document it was on.
pub open spec fn resorted(pre: &App, post: &App) -> bool {
    &&& untouched(pre, post, Touched { sorting: true, view: true, ..nothing() })
    &&& post.sorted
    &&& post.sort_direction == next_direction(pre)
    &&& is_arranged(
        pre.documents@,
        Some(pre.sort_field()),
        next_direction(pre),
        pre.filtered_documents.items@,
        post.filtered_documents.items@,
    )
    &&& cursor_follows(
        pre.filtered_documents.items@,
        pre.filtered_documents.selected,
        post.filtered_documents.items@,
        post.filtered_documents.selected,
    )
}

/// The document `after` is `before` with its attachments shown if they were
/// hidden and hidden if they were shown.
pub open spec fn is_toggled(before: Document, after: Document) -> bool {
    &&& after.toggled == !before.toggled
    &&& after.item_data == before.item_data
    &&& after.creators == before.creators
    &&& after.attachments == before.attachments
}

/// The document under the cursor was toggled; without one nothing changed.
pub open spec fn selection_toggled(pre: &App, post: &App) -> bool {
    &&& untouched(pre, post, Touched { documents: true, ..nothing() })
    &&& post.documents@.len() == pre.documents@.len()
    &&& forall|d: int|
        0 <= d < pre.documents@.len() ==> if selected_handle(pre) is Some && selected_handle(
            pre,
        )->0 == d {
            is_toggled(pre.documents@[d], #[trigger] post.documents@[d])
        } else {
            post.documents@[d] == pre.documents@[d]
        }
}

/// The search was entered from the pane that has focus: that pane is
/// remembered, the search field is its field, or the title where it shows
/// no document attribute, and the focus is on the input pane. Where the
/// search field changed, the view was recomputed. Without an input pane
/// nothing changed.
pub open spec fn search_entered(pre: &App, post: &App) -> bool {
    let input = block_position(pre.ui_blocks@, UIBlockType::Input);
    if input < pre.ui_blocks@.len() {
        &&& untouched(
            pre,
            post,
            Touched { field: true, focus: true, remembered: true, view: true, ..nothing() },
        )
        &&& post.sort_by_type == pre.sort_field()
        &&& post.previous_block_idx == pre.active_block_idx
        &&& post.active_block_idx == input
        &&& post.ui_blocks@ == focus_moved(pre.ui_blocks@, pre.active_block_idx as int, input)
        &&& if pre.sort_field() != pre.sort_by_type {
            view_refreshed(pre, post)
        } else {
            post.filtered_documents == pre.filtered_documents
        }
    } else {
        untouched(pre, post, nothing())
    }
}

/// The search was left: from the input pane the focus went back to the
/// pane that was remembered when the search was entered. From another
/// pane, or where no such pane is remembered, nothing changed.
pub open spec fn search_left(pre: &App, post: &App) -> bool {
    if pre.active_type() == UIBlockType::Input && pre.previous_block_idx < pre.ui_blocks@.len() {
        &&& untouched(pre, post, Touched { focus: true, ..nothing() })
        &&& post.active_block_idx == pre.previous_block_idx
        &&& post.ui_blocks@ == focus_moved(
            pre.ui_blocks@,
            pre.active_block_idx as int,
            pre.previous_block_idx as int,
        )
    } else {
        untouched(pre, post, nothing())
    }
}

/// A character was typed: into the search text in the input pane;
/// elsewhere a space toggles the document under the cursor, a slash enters
/// the search, and any other character does nothing.
pub open spec fn typed(pre: &App, post: &App, c: char) -> bool {
    if pre.active_type() == UIBlockType::Input {
        search_edited(pre, post, pre.search_input@.push(c))
    } else if c == ' ' {
        selection_toggled(pre, post)
    } else if c == '/' {
        search_entered(pre, post)
    } else {
        untouched(pre, post, nothing())
    }
}

/// What a key does to the session.
pub open spec fn key_effect(pre: &App, key: Key, post: &App) -> bool {
    match key {
        Key::Down => cursor_stepped(pre, post, true),
        Key::Up => cursor_stepped(pre, post, false),
        Key::Right => pane_changed(pre, post, pane_right(pre)),
        Key::Left => pane_changed(pre, post, pane_left(pre)),
        Key::Backspace => search_edited(pre, post, without_last(pre.search_input@)),
        Key::Ctrl(c) => if c == 's' {
            resorted(pre, post)
        } else {
            untouched(pre, post, nothing())
        },
        Key::Char(c) => typed(pre, post, c),
        Key::Esc => search_left(pre, post),
        _ => untouched(pre, post, nothing()),
    }
}

impl App {
    /// Moves the cursor of the pane that has focus one step forward.
    pub fn move_cursor_down(&mut self)
        requires
            old(self).view_wf(),
            old(self).focus_wf(),
        ensures
            cursor_stepped(old(self), final(self), true),
            final(self).view_wf(),
            final(self).focus_wf(),
    {
        if self.ui_blocks[self.active_block_idx].ty == UIBlockType::Collections {
            self.collections.next();
        } else {
            self.filtered_documents.next();
        }
    }

    /// Moves the cursor of the pane that has focus one step back.
    pub fn move_cursor_up(&mut self)
        requires
            old(self).view_wf(),
            old(self).focus_wf(),
        ensures
            cursor_stepped(old(self), final(self), false),
            final(self).view_wf(),
            final(self).focus_wf(),
    {
        if self.ui_blocks[self.active_block_idx].ty == UIBlockType::Collections {
            self.collections.previous();
        } else {
            self.filtered_documents.previous();
        }
    }

    /// Moves the focus one pane to the right and recomputes the view.
    pub fn focus_right(&mut self)
        requires
            old(self).view_wf(),
            old(self).focus_wf(),
        ensures
            pane_changed(old(self), final(self), pane_right(old(self))),
            final(self).view_wf(),
            final(self).focus_wf(),
    {
        self.select_next_block();
        self.update_filtered_doc();
    }

    /// Moves the focus one pane to the left and recomputes the view.
    pub fn focus_left(&mut self)
        requires
            old(self).view_wf(),
            old(self).focus_wf(),
        ensures
            pane_changed(old(self), final(self), pane_left(old(self))),
            final(self).view_wf(),
            final(self).focus_wf(),
    {
        self.select_prev_block();
        self.update_filtered_doc();
    }

    /// Appends a character to the search text and recomputes the view.
    pub fn push_search_char(&mut self, c: char)
        requires
            old(self).view_wf(),
        ensures
            search_edited(old(self), final(self), old(self).search_input@.push(c)),
            final(self).view_wf(),
    {
        string_push(&mut self.search_input, c);
        self.update_filtered_doc();
    }

    /// Removes the last character of the search text and recomputes the
    /// view.
    pub fn pop_search_char(&mut self)
        requires
            old(self).view_wf(),
        ensures
            search_edited(old(self), final(self), without_last(old(self).search_input@)),
            final(self).view_wf(),
    {
        let _ = string_pop(&mut self.search_input);
        self.update_filtered_doc();
    }

    /// Asks for a sort, or for the other direction, and sorts the view.
    pub fn toggle_sort(&mut self)
        requires
            old(self).view_wf(),
            old(self).focus_wf(),
        ensures
            resorted(old(self), final(self)),
            final(self).view_wf(),
            final(self).focus_wf(),
    {
        self.toggle_sorted();
        self.sort_documents();
    }

    /// Shows or hides the attachments of the document under the cursor.
    pub fn toggle_selected_doc(&mut self)
        requires
            old(self).view_wf(),
        ensures
            selection_toggled(old(self), final(self)),
            final(self).view_wf(),
    {
        if let Some(h) = self.get_selected_doc() {
            self.documents[h].toggle();
        }
    }

    /// Enters the search from the pane that has focus.
    pub fn enter_search(&mut self)
        requires
            old(self).view_wf(),
            old(self).focus_wf(),
        ensures
            search_entered(old(self), final(self)),
            final(self).view_wf(),
            final(self).focus_wf(),
    {
        proof {
            lemma_block_position(self.ui_blocks@, UIBlockType::Input);
        }
        if self.find_block(UIBlockType::Input).is_some() {
            let ty = self.ui_blocks[self.active_block_idx].ty;
            let field = if ty.is_searchable() {
                ty
            } else {
                UIBlockType::Title
            };
            let changed = field != self.sort_by_type;
            self.sort_by_type = field;
            self.previous_block_idx = self.active_block_idx;
            self.set_active_block_with_type(UIBlockType::Input);
            if changed {
                self.update_filtered_doc();
            }
        }
    }

    /// Leaves the search: from the input pane the focus goes back to the
    /// pane from which the search was entered.
    pub fn leave_search(&mut self)
        requires
            old(self).view_wf(),
            old(self).focus_wf(),
        ensures
            search_left(old(self), final(self)),
            final(self).view_wf(),
            final(self).focus_wf(),
    {
        if self.ui_blocks[self.active_block_idx].ty == UIBlockType::Input {
            let back = self.previous_block_idx;
            if back < self.ui_blocks.len() {
                self.move_focus(back);
            }
        }
    }

    /// Applies a key to the session and tells the input loop what to do
    /// next. Control-c quits. Enter asks for the attachment of
    /// `handle_enter` to be opened. Every other key changes the session as
    /// `key_effect` says, and the loop goes on.
    pub fn handle_key(&mut self, key: Key) -> (action: Action)
        requires
            old(self).view_wf(),
            old(self).focus_wf(),
        ensures
            key_effect(old(self), key, final(self)),
            final(self).view_wf(),
            final(self).focus_wf(),
            action is Quit <==> key == Key::Ctrl('c'),
            action is Open <==> key == Key::Enter && opening_target(old(self)) is Some,
            action matches Action::Open(loc) ==> loc.key@ == opening_target(old(self))->0.key->0@
                && loc.file@ == opening_target(old(self))->0.path->0@.skip(
                STORAGE_MARK_CHARS as int,
            ),
    {
        match key {
            Key::Down => {
                self.move_cursor_down();
            },
            Key::Up => {
                self.move_cursor_up();
            },
            Key::Right => {
                self.focus_right();
            },
            Key::Left => {
                self.focus_left();
            },
            Key::Backspace => {
                self.pop_search_char();
            },
            Key::Ctrl(c) => {
                if c == 'c' {
                    return Action::Quit;
                }
                if c == 's' {
                    self.toggle_sort();
                }
            },
            Key::Char(c) => {
                if self.ui_blocks[self.active_block_idx].ty == UIBlockType::Input {
                    self.push_search_char(c);
                } else if c == ' ' {
                    self.toggle_selected_doc();
                } else if c == '/' {
                    self.enter_search();
                }
            },
            Key::Esc => {
                self.leave_search();
            },
            Key::Enter => {
                if let Some(loc) = handle_enter(self) {
                    return Action::Open(loc);
                }
            },
            _ => {},
        }
        Action::Continue
    }
}

} // verus!
