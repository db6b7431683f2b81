use zotero_tui::data_structures::{
    documents_from_items, step_back, step_forward, Attachment, Creator, Document, ItemData,
    LoadError, StatefulList, StatefulTable,
};
use zotero_tui::ui::{
    cursor_column, document_rows, search_cursor_column, selected_row, standard_blocks, TableRow,
    UIBlock, UIBlockType,
};

fn item(id: i64, title: &str, pubdate: &str) -> ItemData {
    ItemData {
        itemId: id,
        title: title.to_string(),
        abstracttext: String::new(),
        pubdate: pubdate.to_string(),
        key: format!("K{}", id),
    }
}

fn creator(first: Option<&str>, last: Option<&str>) -> Creator {
    Creator { firstName: first.map(|s| s.to_string()), lastName: last.map(|s| s.to_string()) }
}

fn attachment(ty: Option<&str>, path: Option<&str>, key: Option<&str>) -> Attachment {
    Attachment {
        contentType: ty.map(|s| s.to_string()),
        path: path.map(|s| s.to_string()),
        key: key.map(|s| s.to_string()),
    }
}

fn doc_with(creators: Vec<Creator>) -> Document {
    let mut doc = Document::new(item(1, "A Title", "2004-05-06")).unwrap();
    doc.creators = creators;
    doc
}

#[test]
fn test_get_all_item_data() {
    let all_items = vec![item(1, "Alpha", "2001-00-00"), item(2, "Beta", "1999-10-01")];
    let mut all_docs = documents_from_items(all_items).unwrap();
    all_docs[0].add_creators(vec![creator(Some("Ada"), Some("Lovelace"))]);
    all_docs[1].add_creators(Vec::new());
    all_docs[0].add_attachments(vec![attachment(Some("application/pdf"), Some("storage:a.pdf"), Some("AB"))]);
    all_docs[1].add_attachments(Vec::new());
    println!("{:?}", all_docs);
    assert_eq!(all_docs.len(), 2);
    assert_eq!(all_docs[0].creators, vec![creator(Some("Ada"), Some("Lovelace"))]);
    assert_eq!(all_docs[1].creators, vec![Creator::default()]);
    assert_eq!(all_docs[0].attachments.as_ref().unwrap().items.len(), 1);
    assert!(all_docs[1].attachments.is_none());
}

#[test]
fn documents_keep_the_order_of_the_records() {
    let docs = documents_from_items(vec![
        item(7, "g", "2007"),
        item(3, "c", "2003"),
        item(5, "e", "2005"),
    ])
    .unwrap();
    let ids: Vec<i64> = docs.iter().map(|d| d.item_data.itemId).collect();
    assert_eq!(ids, vec![7, 3, 5]);
    for d in &docs {
        assert!(d.creators.is_empty());
        assert!(d.attachments.is_none());
        assert!(!d.toggled);
    }
}

#[test]
fn short_pubdate_is_a_load_error() {
    assert_eq!(
        Document::new(item(4, "t", "199")).err(),
        Some(LoadError::PubdateTooShort { item_id: 4 })
    );
    assert_eq!(Document::new(item(4, "t", "")).err(), Some(LoadError::PubdateTooShort { item_id: 4 }));
    assert!(Document::new(item(4, "t", "1999")).is_ok());
}

#[test]
fn first_short_pubdate_is_the_one_reported() {
    let r = documents_from_items(vec![
        item(1, "a", "2001"),
        item(2, "b", "20"),
        item(3, "c", "1"),
    ]);
    assert_eq!(r.err(), Some(LoadError::PubdateTooShort { item_id: 2 }));
}

#[test]
fn pubdate_length_counts_characters_not_bytes() {
    // three characters in more than four bytes
    assert_eq!(
        Document::new(item(9, "t", "\u{e9}\u{e9}\u{e9}")).err(),
        Some(LoadError::PubdateTooShort { item_id: 9 })
    );
    let doc = Document::new(item(9, "t", "\u{e9}\u{e9}\u{e9}\u{e9}x")).unwrap();
    assert_eq!(doc.get_year(), "\u{e9}\u{e9}\u{e9}\u{e9}");
}

#[test]
fn year_is_the_first_four_characters() {
    let doc = Document::new(item(1, "A Title", "2004-05-06")).unwrap();
    assert_eq!(doc.get_year(), "2004");
    assert_eq!(doc.get_title(), "A Title");
    assert_eq!(doc.get_cmp_str_for_block_type(UIBlockType::Year), "2004");
    assert_eq!(doc.build_header_for_block_type(UIBlockType::Year), "2004");
    assert_eq!(doc.get_cmp_str_for_block_type(UIBlockType::Title), "A Title");
    assert_eq!(doc.build_header_for_block_type(UIBlockType::Title), "A Title");
}

#[test]
fn toggle_flips_the_expanded_flag() {
    let mut doc = Document::new(item(1, "A", "2004")).unwrap();
    assert!(!doc.toggled);
    doc.toggle();
    assert!(doc.toggled);
    doc.toggle();
    assert!(!doc.toggled);
}

#[test]
fn document_without_creator_has_the_unknown_author() {
    let doc = doc_with(Vec::new());
    assert_eq!(doc.get_cmp_str_for_block_type(UIBlockType::Creator), "Unknown author(s)");
    assert_eq!(doc.build_header_for_block_type(UIBlockType::Creator), "Unknown author(s)");
    let unknown = Creator::default();
    assert_eq!(unknown.firstName.as_deref(), Some("Unknown author(s)"));
    assert_eq!(unknown.lastName, None);
}

#[test]
fn creator_with_both_names() {
    let doc = doc_with(vec![creator(Some("Ada"), Some("Lovelace")), creator(Some("X"), Some("Y"))]);
    assert_eq!(doc.get_cmp_str_for_block_type(UIBlockType::Creator), "Ada");
    assert_eq!(doc.build_header_for_block_type(UIBlockType::Creator), "Ada Lovelace");
}

#[test]
fn creator_with_blank_first_name_goes_by_last_name() {
    for first in [Some(""), Some("  "), Some(" \t\u{a0}"), None] {
        let doc = doc_with(vec![creator(first, Some("Lovelace"))]);
        assert_eq!(doc.get_cmp_str_for_block_type(UIBlockType::Creator), "Lovelace");
        assert_eq!(doc.build_header_for_block_type(UIBlockType::Creator), "Lovelace");
    }
}

#[test]
fn creator_with_first_name_only_and_with_no_name() {
    let doc = doc_with(vec![creator(Some("Ada"), None)]);
    assert_eq!(doc.get_cmp_str_for_block_type(UIBlockType::Creator), "Ada");
    assert_eq!(doc.build_header_for_block_type(UIBlockType::Creator), "Ada");
    let doc = doc_with(vec![creator(None, None)]);
    assert_eq!(doc.get_cmp_str_for_block_type(UIBlockType::Creator), "");
    assert_eq!(doc.build_header_for_block_type(UIBlockType::Creator), "");
}

#[test]
fn a_field_that_is_no_attribute_gives_no_sort_text() {
    let doc = doc_with(Vec::new());
    assert_eq!(doc.get_cmp_str_for_block_type(UIBlockType::Collections), "");
    assert_eq!(doc.get_cmp_str_for_block_type(UIBlockType::Menu), "");
    assert_eq!(doc.get_cmp_str_for_block_type(UIBlockType::Input), "");
}

#[test]
fn creators_are_appended_in_order() {
    let mut doc = doc_with(vec![creator(Some("A"), None)]);
    doc.add_creators(vec![creator(Some("B"), None), creator(Some("C"), None)]);
    let firsts: Vec<Option<String>> = doc.creators.iter().map(|c| c.firstName.clone()).collect();
    assert_eq!(firsts, vec![Some("A".to_string()), Some("B".to_string()), Some("C".to_string())]);
}

#[test]
fn attachments_replace_only_when_there_are_some() {
    let mut doc = doc_with(Vec::new());
    doc.add_attachments(vec![attachment(None, None, None), attachment(None, Some("p"), None)]);
    assert_eq!(doc.attachments.as_ref().unwrap().items.len(), 2);
    assert_eq!(doc.attachments.as_ref().unwrap().selected, None);
    doc.add_attachments(Vec::new());
    assert_eq!(doc.attachments.as_ref().unwrap().items.len(), 2);
}

#[test]
fn list_cursor_steps_forward_and_wraps() {
    let mut list = StatefulList::with_items(vec!['a', 'b', 'c']);
    assert_eq!(list.selected, None);
    list.next();
    assert_eq!(list.selected, Some(0));
    list.next();
    assert_eq!(list.selected, Some(1));
    list.next();
    assert_eq!(list.selected, Some(2));
    list.next();
    assert_eq!(list.selected, Some(0));
    assert_eq!(list.items, vec!['a', 'b', 'c']);
}

#[test]
fn list_cursor_steps_back_and_wraps() {
    let mut list = StatefulList::with_items(vec!['a', 'b', 'c']);
    list.previous();
    assert_eq!(list.selected, Some(0));
    list.previous();
    assert_eq!(list.selected, Some(2));
    list.previous();
    assert_eq!(list.selected, Some(1));
    list.unselect();
    assert_eq!(list.selected, None);
}

#[test]
fn cursor_of_an_empty_list_stays_nowhere() {
    let mut list: StatefulList<u8> = StatefulList::with_items(Vec::new());
    list.next();
    assert_eq!(list.selected, None);
    list.previous();
    assert_eq!(list.selected, None);
    list.selected = Some(3);
    list.next();
    assert_eq!(list.selected, None);
}

#[test]
fn cursor_outside_the_list_comes_back_inside() {
    assert_eq!(step_forward(Some(7), 3), Some(0));
    assert_eq!(step_back(Some(7), 3), Some(2));
    assert_eq!(step_back(Some(3), 3), Some(2));
    assert_eq!(step_forward(Some(1), 2), Some(0));
    assert_eq!(step_forward(Some(0), 1), Some(0));
    assert_eq!(step_back(Some(0), 1), Some(0));
    assert_eq!(step_forward(None, 0), None);
    assert_eq!(step_back(None, 0), None);
}

#[test]
fn table_cursor_moves_like_the_list_cursor() {
    let list: StatefulList<u8> = StatefulTable::with_items(vec![1, 2]);
    assert_eq!(list.selected, None);
    let mut table = StatefulTable { selected: None, items: vec![1, 2] };
    table.next();
    assert_eq!(table.selected, Some(0));
    table.next();
    assert_eq!(table.selected, Some(1));
    table.next();
    assert_eq!(table.selected, Some(0));
    table.previous();
    assert_eq!(table.selected, Some(1));
    table.unselect();
    assert_eq!(table.selected, None);
    table.previous();
    assert_eq!(table.selected, Some(0));
}

#[test]
fn block_types_that_can_be_searched() {
    assert!(UIBlockType::Title.is_searchable());
    assert!(UIBlockType::Creator.is_searchable());
    assert!(UIBlockType::Year.is_searchable());
    assert!(!UIBlockType::Menu.is_searchable());
    assert!(!UIBlockType::Input.is_searchable());
    assert!(!UIBlockType::Collections.is_searchable());
}

#[test]
fn block_type_headings() {
    assert_eq!(UIBlockType::Menu.to_string(), "Menu");
    assert_eq!(UIBlockType::Input.to_string(), "Input");
    assert_eq!(UIBlockType::Title.to_string(), "Title");
    assert_eq!(UIBlockType::Creator.to_string(), "Creator");
    assert_eq!(UIBlockType::Year.to_string(), "Year");
    assert_eq!(UIBlockType::Collections.to_string(), "Collections");
}

#[test]
fn standard_panes() {
    assert_eq!(
        standard_blocks(),
        vec![
            UIBlock { ratio: 10, ty: UIBlockType::Input, activated: false },
            UIBlock { ratio: 20, ty: UIBlockType::Collections, activated: false },
            UIBlock { ratio: 50, ty: UIBlockType::Title, activated: false },
            UIBlock { ratio: 20, ty: UIBlockType::Creator, activated: false },
            UIBlock { ratio: 10, ty: UIBlockType::Year, activated: false },
        ]
    );
}

#[test]
fn rows_of_collapsed_documents_are_one_each() {
    let docs = documents_from_items(vec![item(1, "a", "2001"), item(2, "b", "2002")]).unwrap();
    let rows = document_rows(&docs, &vec![1, 0]);
    assert_eq!(
        rows,
        vec![TableRow { entry: 0, attachment: None }, TableRow { entry: 1, attachment: None }]
    );
    assert!(document_rows(&docs, &Vec::new()).is_empty());
}

#[test]
fn expanded_document_shows_its_attachments_with_a_path() {
    let mut docs =
        documents_from_items(vec![item(1, "a", "2001"), item(2, "b", "2002"), item(3, "c", "2003")])
            .unwrap();
    docs[1].add_attachments(vec![
        attachment(Some("application/pdf"), Some("storage:x.pdf"), Some("K")),
        attachment(Some("text/html"), None, Some("L")),
        attachment(None, Some("storage:y.txt"), None),
    ]);
    docs[2].add_attachments(vec![attachment(None, Some("storage:z"), None)]);
    docs[1].toggle();
    // the view shows documents 2, 1, 0 in that order; only document 1 is expanded
    let rows = document_rows(&docs, &vec![2, 1, 0]);
    assert_eq!(
        rows,
        vec![
            TableRow { entry: 0, attachment: None },
            TableRow { entry: 1, attachment: None },
            TableRow { entry: 1, attachment: Some(0) },
            TableRow { entry: 1, attachment: Some(2) },
            TableRow { entry: 2, attachment: None },
        ]
    );
}

#[test]
fn cursor_row_is_the_own_row_of_the_selected_entry() {
    let rows = vec![
        TableRow { entry: 0, attachment: None },
        TableRow { entry: 1, attachment: None },
        TableRow { entry: 1, attachment: Some(0) },
        TableRow { entry: 1, attachment: Some(2) },
        TableRow { entry: 2, attachment: None },
    ];
    assert_eq!(selected_row(&rows, Some(0)), Some(0));
    assert_eq!(selected_row(&rows, Some(1)), Some(1));
    assert_eq!(selected_row(&rows, Some(2)), Some(4));
    assert_eq!(selected_row(&rows, Some(3)), None);
    assert_eq!(selected_row(&rows, None), None);
    assert_eq!(selected_row(&Vec::new(), Some(0)), None);
}

#[test]
fn creator_names_given_whether_the_first_name_counts() {
    let both = creator(Some("Ada"), Some("Lovelace"));
    assert!(both.first_name_counts());
    assert_eq!(both.sort_name_with(true), "Ada");
    assert_eq!(both.sort_name_with(false), "Lovelace");
    assert_eq!(both.display_name_with(true), "Ada Lovelace");
    assert_eq!(both.display_name_with(false), "Lovelace");
    let first_only = creator(Some("Ada"), None);
    assert_eq!(first_only.sort_name_with(true), "Ada");
    assert_eq!(first_only.sort_name_with(false), "");
    assert_eq!(first_only.display_name_with(true), "Ada");
    assert_eq!(first_only.display_name_with(false), "");
    let last_only = creator(None, Some("Lovelace"));
    assert!(!last_only.first_name_counts());
    assert_eq!(last_only.sort_name_with(true), "Lovelace");
    assert_eq!(last_only.display_name_with(true), "Lovelace");
    assert!(!creator(Some(" \t"), Some("L")).first_name_counts());
    assert!(!creator(Some(""), None).first_name_counts());
}

#[test]
fn cursor_column_is_one_past_the_text() {
    assert_eq!(cursor_column(1, 0), 2);
    assert_eq!(cursor_column(1, 5), 7);
    assert_eq!(cursor_column(0, 65534), 65535);
    assert_eq!(cursor_column(0, 65535), 65535);
    assert_eq!(cursor_column(65535, 0), 65535);
    assert_eq!(cursor_column(65000, 534), 65535);
    assert_eq!(cursor_column(65000, 535), 65535);
    assert_eq!(cursor_column(3, usize::MAX), 65535);
}

#[test]
fn search_cursor_counts_columns_not_characters() {
    assert_eq!(search_cursor_column("", 1), 2);
    assert_eq!(search_cursor_column("abc", 1), 5);
    // two wide characters take four columns
    assert_eq!(search_cursor_column("\u{4e2d}\u{6587}", 1), 6);
    // a combining mark takes none
    assert_eq!(search_cursor_column("e\u{301}", 0), 2);
}
