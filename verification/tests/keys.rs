use zotero_tui::app::{App, SortDirection};
use zotero_tui::collection_tree::BuildError;
use zotero_tui::data_structures::{documents_from_items, Attachment, Collection, ItemData};
use zotero_tui::event::{Action, AttachmentLocation, Key};
use zotero_tui::handler::handle_enter;
use zotero_tui::ui::{standard_blocks, UIBlock, UIBlockType};

fn item(id: i64, title: &str, pubdate: &str) -> ItemData {
    ItemData {
        itemId: id,
        title: title.to_string(),
        abstracttext: String::new(),
        pubdate: pubdate.to_string(),
        key: format!("K{}", id),
    }
}

fn attachment(ty: Option<&str>, path: Option<&str>, key: Option<&str>) -> Attachment {
    Attachment {
        contentType: ty.map(|s| s.to_string()),
        path: path.map(|s| s.to_string()),
        key: key.map(|s| s.to_string()),
    }
}

fn col(id: i64, parent: Option<i64>, lib: i64) -> Collection {
    Collection {
        collectionId: id,
        collectionName: format!("c{}", id),
        parentCollectionId: parent,
        libraryId: lib,
    }
}

fn started(items: Vec<ItemData>) -> App {
    let mut app = App::default();
    app.ui_blocks = standard_blocks();
    app.documents = documents_from_items(items).unwrap();
    assert_eq!(app.finish_loading(), Ok(()));
    app
}

fn two_docs() -> App {
    started(vec![item(1, "Alpha", "2001"), item(2, "Beta", "1999")])
}

fn ids(app: &App) -> Vec<i64> {
    app.filtered_documents.items.iter().map(|h| app.documents[*h].item_data.itemId).collect()
}

fn active(app: &App) -> Vec<bool> {
    app.ui_blocks.iter().map(|b| b.activated).collect()
}

fn press(app: &mut App, keys: &[Key]) {
    for key in keys {
        assert_eq!(app.handle_key(*key), Action::Continue);
    }
}

#[test]
fn loading_marks_the_pane_and_fills_the_view() {
    let app = two_docs();
    assert_eq!(app.active_block_idx, 1);
    assert_eq!(active(&app), vec![false, true, false, false, false]);
    assert_eq!(app.filtered_documents.items, vec![0, 1]);
    assert_eq!(app.filtered_documents.selected, Some(0));
    assert_eq!(app.get_active_block().ty, UIBlockType::Collections);
}

#[test]
fn loading_builds_the_forest_and_empties_the_collection_list() {
    let mut app = App::default();
    app.ui_blocks = standard_blocks();
    app.collections.items = vec![col(2, Some(1), 1), col(1, None, 1)];
    assert_eq!(app.finish_loading(), Ok(()));
    assert!(app.collections.items.is_empty());
    assert_eq!(app.collection_tree.nodes.len(), 3);
    assert_eq!(app.collection_tree.get_node_children(0), vec![1]);
    assert_eq!(app.collection_tree.get_node_children(1), vec![2]);
}

#[test]
fn loading_fails_on_an_unresolved_parent() {
    let mut app = App::default();
    app.ui_blocks = standard_blocks();
    app.documents = documents_from_items(vec![item(1, "a", "2000")]).unwrap();
    app.collections.items = vec![col(10, None, 1), col(11, Some(10), 1), col(12, Some(99), 1)];
    assert_eq!(app.finish_loading(), Err(BuildError::UnresolvedParent { collection_id: 12 }));
    assert_eq!(app.collections.items, vec![col(12, Some(99), 1)]);
    assert_eq!(app.collection_tree.nodes.len(), 3);
    assert_eq!(active(&app), vec![false; 5]);
    assert!(app.filtered_documents.items.is_empty());
}

#[test]
fn scenario_through_the_keyboard() {
    let mut app = two_docs();
    assert_eq!(ids(&app), vec![1, 2]);
    press(&mut app, &[Key::Char('/'), Key::Char('a'), Key::Char('l')]);
    assert_eq!(app.search_input, "al");
    assert_eq!(app.sort_by_type, UIBlockType::Title);
    assert_eq!(ids(&app), vec![1]);
    press(&mut app, &[Key::Backspace, Key::Backspace]);
    assert_eq!(app.search_input, "");
    assert_eq!(ids(&app), vec![1, 2]);
    press(&mut app, &[Key::Esc]);
    assert_eq!(app.get_active_block().ty, UIBlockType::Collections);
    press(&mut app, &[Key::Right, Key::Right, Key::Right]);
    assert_eq!(app.get_active_block().ty, UIBlockType::Year);
    press(&mut app, &[Key::Ctrl('s')]);
    assert_eq!(ids(&app), vec![2, 1]);
    press(&mut app, &[Key::Ctrl('s')]);
    assert_eq!(ids(&app), vec![1, 2]);
}

#[test]
fn control_c_quits_and_changes_nothing() {
    let mut app = two_docs();
    assert_eq!(app.handle_key(Key::Ctrl('c')), Action::Quit);
    assert_eq!(app.filtered_documents.items, vec![0, 1]);
    assert_eq!(app.active_block_idx, 1);
    assert!(!app.sorted);
}

#[test]
fn keys_without_meaning_change_nothing() {
    let mut app = two_docs();
    press(&mut app, &[Key::Tab, Key::Home, Key::Alt('s'), Key::Ctrl('x'), Key::Unknown, Key::Char('q')]);
    assert_eq!(app.search_input, "");
    assert_eq!(app.filtered_documents.items, vec![0, 1]);
    assert_eq!(app.filtered_documents.selected, Some(0));
    assert_eq!(app.active_block_idx, 1);
    assert!(!app.sorted);
    assert!(!app.documents[0].toggled);
}

#[test]
fn focus_moves_between_the_panes_without_wrapping() {
    let mut app = two_docs();
    press(&mut app, &[Key::Left]);
    assert_eq!(app.active_block_idx, 0);
    assert_eq!(active(&app), vec![true, false, false, false, false]);
    press(&mut app, &[Key::Left]);
    assert_eq!(app.active_block_idx, 0);
    assert_eq!(active(&app), vec![true, false, false, false, false]);
    press(&mut app, &[Key::Right, Key::Right, Key::Right, Key::Right]);
    assert_eq!(app.active_block_idx, 4);
    assert_eq!(active(&app), vec![false, false, false, false, true]);
    press(&mut app, &[Key::Right]);
    assert_eq!(app.active_block_idx, 4);
    assert_eq!(active(&app), vec![false, false, false, false, true]);
}

#[test]
fn pane_functions_move_the_mark() {
    let mut app = App::default();
    app.ui_blocks = standard_blocks();
    app.refresh_active_block();
    assert_eq!(active(&app), vec![false, true, false, false, false]);
    app.select_next_block();
    assert_eq!(app.active_block_idx, 2);
    assert_eq!(active(&app), vec![false, false, true, false, false]);
    app.select_prev_block();
    app.select_prev_block();
    app.select_prev_block();
    assert_eq!(app.active_block_idx, 0);
    app.set_active_block_with_type(UIBlockType::Creator);
    assert_eq!(app.active_block_idx, 3);
    assert_eq!(active(&app), vec![false, false, false, true, false]);
    app.set_active_block_with_type(UIBlockType::Creator);
    assert_eq!(active(&app), vec![false, false, false, true, false]);
    assert_eq!(
        *app.get_block_with_type(UIBlockType::Title),
        UIBlock { ratio: 50, ty: UIBlockType::Title, activated: false }
    );
    assert_eq!(app.find_block(UIBlockType::Year), Some(4));
    assert_eq!(app.find_block(UIBlockType::Menu), None);
    assert_eq!(app.ui_blocks.iter().map(|b| b.ratio).collect::<Vec<usize>>(), vec![10, 20, 50, 20, 10]);
}

#[test]
fn slash_remembers_the_field_and_escape_goes_back() {
    let mut app = two_docs();
    press(&mut app, &[Key::Right, Key::Right]);
    assert_eq!(app.get_active_block().ty, UIBlockType::Creator);
    press(&mut app, &[Key::Char('/')]);
    assert_eq!(app.sort_by_type, UIBlockType::Creator);
    assert_eq!(app.get_active_block().ty, UIBlockType::Input);
    press(&mut app, &[Key::Char('u'), Key::Char('n')]);
    assert_eq!(ids(&app), vec![1, 2]);
    press(&mut app, &[Key::Char('x')]);
    assert!(ids(&app).is_empty());
    press(&mut app, &[Key::Esc]);
    assert_eq!(app.get_active_block().ty, UIBlockType::Creator);
    assert_eq!(app.search_input, "unx");
    // Escape outside the input pane does nothing
    press(&mut app, &[Key::Esc]);
    assert_eq!(app.get_active_block().ty, UIBlockType::Creator);
}

#[test]
fn slash_from_the_collection_pane_searches_titles() {
    let mut app = two_docs();
    app.sort_by_type = UIBlockType::Year;
    press(&mut app, &[Key::Char('/')]);
    assert_eq!(app.sort_by_type, UIBlockType::Title);
    assert_eq!(app.previous_block_idx, 1);
    press(&mut app, &[Key::Char('/'), Key::Char(' ')]);
    assert_eq!(app.search_input, "/ ");
    press(&mut app, &[Key::Esc]);
    assert_eq!(app.get_active_block().ty, UIBlockType::Collections);
    assert_eq!(app.sort_by_type, UIBlockType::Title);
}

#[test]
fn entering_the_search_recomputes_the_view_when_the_field_changes() {
    let mut app = two_docs();
    app.search_input = "19".to_string();
    app.update_filtered_doc();
    assert!(ids(&app).is_empty());
    press(&mut app, &[Key::Right, Key::Right, Key::Right]);
    assert_eq!(app.get_active_block().ty, UIBlockType::Year);
    assert!(ids(&app).is_empty());
    press(&mut app, &[Key::Char('/')]);
    assert_eq!(app.sort_by_type, UIBlockType::Year);
    assert_eq!(ids(&app), vec![2]);
    assert_eq!(app.filtered_documents.selected, Some(0));
    press(&mut app, &[Key::Esc]);
    assert_eq!(app.get_active_block().ty, UIBlockType::Year);
    // the field stays: entering again leaves view and cursor alone
    app.filtered_documents.selected = None;
    press(&mut app, &[Key::Char('/')]);
    assert_eq!(app.filtered_documents.selected, None);
}

#[test]
fn slash_without_an_input_pane_changes_nothing() {
    let mut app = App::default();
    app.ui_blocks = vec![
        UIBlock { ratio: 50, ty: UIBlockType::Collections, activated: false },
        UIBlock { ratio: 50, ty: UIBlockType::Year, activated: false },
    ];
    app.refresh_active_block();
    press(&mut app, &[Key::Char('/')]);
    assert_eq!(app.sort_by_type, UIBlockType::Title);
    assert_eq!(app.active_block_idx, 1);
}

#[test]
fn typing_and_erasing_edit_the_search_text() {
    let mut app = two_docs();
    press(&mut app, &[Key::Char('/'), Key::Char('B'), Key::Char('\u{e9}')]);
    assert_eq!(app.search_input, "B\u{e9}");
    press(&mut app, &[Key::Backspace]);
    assert_eq!(app.search_input, "B");
    assert_eq!(ids(&app), vec![2]);
    press(&mut app, &[Key::Backspace, Key::Backspace]);
    assert_eq!(app.search_input, "");
    assert_eq!(ids(&app), vec![1, 2]);
    app.push_search_char('e');
    assert_eq!(app.search_input, "e");
    assert_eq!(ids(&app), vec![2]);
    app.pop_search_char();
    assert_eq!(app.search_input, "");
}

#[test]
fn arrows_move_the_cursor_of_the_pane_in_focus() {
    let mut app = two_docs();
    app.collections.items = vec![col(1, None, 1), col(2, None, 1), col(3, None, 1)];
    press(&mut app, &[Key::Down, Key::Down]);
    assert_eq!(app.collections.selected, Some(1));
    assert_eq!(app.filtered_documents.selected, Some(0));
    press(&mut app, &[Key::Up, Key::Up]);
    assert_eq!(app.collections.selected, Some(2));
    press(&mut app, &[Key::Right]);
    press(&mut app, &[Key::Down]);
    assert_eq!(app.filtered_documents.selected, Some(1));
    press(&mut app, &[Key::Down]);
    assert_eq!(app.filtered_documents.selected, Some(0));
    press(&mut app, &[Key::Up]);
    assert_eq!(app.filtered_documents.selected, Some(1));
    assert_eq!(app.collections.selected, Some(2));
}

#[test]
fn space_toggles_the_selected_document() {
    let mut app = two_docs();
    press(&mut app, &[Key::Right, Key::Down, Key::Char(' ')]);
    assert!(!app.documents[0].toggled);
    assert!(app.documents[1].toggled);
    press(&mut app, &[Key::Char(' ')]);
    assert!(!app.documents[1].toggled);
    app.toggle_selected_doc();
    assert!(app.documents[1].toggled);
    app.filtered_documents.selected = None;
    app.toggle_selected_doc();
    assert!(app.documents[1].toggled);
    assert!(!app.documents[0].toggled);
}

#[test]
fn control_s_sorts_and_then_turns() {
    let mut app = started(vec![item(1, "b", "2000"), item(2, "c", "2000"), item(3, "a", "2000")]);
    press(&mut app, &[Key::Right, Key::Ctrl('s')]);
    assert!(app.sorted);
    assert_eq!(app.sort_direction, SortDirection::Up);
    assert_eq!(ids(&app), vec![3, 1, 2]);
    press(&mut app, &[Key::Ctrl('s')]);
    assert_eq!(app.sort_direction, SortDirection::Down);
    assert_eq!(ids(&app), vec![2, 1, 3]);
}

#[test]
fn enter_opens_the_first_pdf() {
    let mut app = two_docs();
    app.documents[0].add_attachments(vec![
        attachment(Some("text/html"), Some("storage:page.html"), Some("HTML")),
        attachment(None, Some("storage:none.pdf"), Some("NONE")),
        attachment(Some("application/pdf"), Some("storage:paper one.pdf"), Some("ABCD")),
        attachment(Some("application/pdf"), Some("storage:other.pdf"), Some("EFGH")),
    ]);
    let want = AttachmentLocation { key: "ABCD".to_string(), file: "paper one.pdf".to_string() };
    assert_eq!(handle_enter(&app), Some(AttachmentLocation { key: "ABCD".to_string(), file: "paper one.pdf".to_string() }));
    assert_eq!(app.handle_key(Key::Enter), Action::Open(want));
    press(&mut app, &[Key::Right, Key::Down]);
    assert_eq!(handle_enter(&app), None);
    assert_eq!(app.handle_key(Key::Enter), Action::Continue);
}

#[test]
fn enter_without_selection_or_pdf_does_nothing() {
    let mut app = two_docs();
    assert_eq!(handle_enter(&app), None);
    app.documents[0].add_attachments(vec![attachment(Some("text/plain"), Some("storage:a.txt"), Some("A"))]);
    assert_eq!(handle_enter(&app), None);
    app.documents[1].add_attachments(vec![attachment(Some("application/pdf"), Some("storage:b.pdf"), Some("B"))]);
    assert_eq!(handle_enter(&app), None);
    app.filtered_documents.selected = None;
    assert_eq!(handle_enter(&app), None);
    app.filtered_documents.selected = Some(1);
    assert_eq!(
        handle_enter(&app),
        Some(AttachmentLocation { key: "B".to_string(), file: "b.pdf".to_string() })
    );
}

#[test]
fn enter_needs_a_key_and_a_path_that_holds_the_storage_mark() {
    let mut app = two_docs();
    app.documents[0].add_attachments(vec![attachment(Some("application/pdf"), Some("storage:"), Some("K"))]);
    assert_eq!(handle_enter(&app), Some(AttachmentLocation { key: "K".to_string(), file: String::new() }));
    app.documents[0].attachments = None;
    app.documents[0].add_attachments(vec![
        attachment(Some("application/pdf"), Some("short"), Some("K")),
        attachment(Some("application/pdf"), Some("storage:good.pdf"), Some("K")),
    ]);
    assert_eq!(handle_enter(&app), None);
    app.documents[0].attachments = None;
    app.documents[0].add_attachments(vec![attachment(Some("application/pdf"), None, Some("K"))]);
    assert_eq!(handle_enter(&app), None);
    app.documents[0].attachments = None;
    app.documents[0].add_attachments(vec![attachment(Some("application/pdf"), Some("storage:a.pdf"), None)]);
    assert_eq!(handle_enter(&app), None);
    app.documents[0].attachments = None;
    app.documents[0].add_attachments(vec![attachment(Some("x-pdf-like"), Some("storage:\u{e9}.pdf"), Some("K"))]);
    assert_eq!(
        handle_enter(&app),
        Some(AttachmentLocation { key: "K".to_string(), file: "\u{e9}.pdf".to_string() })
    );
}
