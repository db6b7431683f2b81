//! The panes of the screen and what the renderer is handed: the rows of the
//! document table and of the collection pane.

use crate::collection_tree::{CollectionNode, CollectionNodeValue, CollectionTree};
use crate::data_structures::{Attachment, Document};
use crate::sorting::handles_within;
use crate::text::{display_width, str_width};
use vstd::prelude::*;

verus! {

/// The kind of a pane. `Title`, `Creator` and `Year` are the document
/// attribute columns.
#[derive(Debug, Clone, Copy, PartialEq, Eq, Structural)]
pub enum UIBlockType {
    Menu,
    Input,
    Title,
    Creator,
    Year,
    Collections,
}

/// One pane: its share of the width, its kind, and whether it has focus.
#[derive(Debug, Clone, Copy, PartialEq, Eq)]
pub struct UIBlock {
    pub ratio: usize,
    pub ty: UIBlockType,
    pub activated: bool,
}

impl UIBlockType {
    /// The pane shows a document attribute that can be searched and sorted by.
    pub open spec fn searchable(self) -> bool {
        self == UIBlockType::Title || self == UIBlockType::Creator || self == UIBlockType::Year
    }

    /// The heading of the pane.
    pub open spec fn heading(self) -> Seq<char> {
        match self {
            UIBlockType::Menu => "Menu"@,
            UIBlockType::Input => "Input"@,
            UIBlockType::Title => "Title"@,
            UIBlockType::Creator => "Creator"@,
            UIBlockType::Year => "Year"@,
            UIBlockType::Collections => "Collections"@,
        }
    }

    /// Tells whether documents can be searched and sorted by this pane.
    pub fn is_searchable(&self) -> (r: bool)
        ensures
            r == self.searchable(),
    {
        match self {
            UIBlockType::Menu | UIBlockType::Input | UIBlockType::Collections => false,
            _ => true,
        }
    }

    /// The heading of the pane, as a string.
    pub fn to_string(&self) -> (r: String)
        ensures
            r@ == self.heading(),
    {
        match self {
            UIBlockType::Menu => String::from_str("Menu"),
            UIBlockType::Input => String::from_str("Input"),
            UIBlockType::Title => String::from_str("Title"),
            UIBlockType::Creator => String::from_str("Creator"),
            UIBlockType::Year => String::from_str("Year"),
            UIBlockType::Collections => String::from_str("Collections"),
        }
    }
}

/// The panes of the screen from left to right, with their share of the
/// width: the search input, the collections, and the columns for title,
/// creator and year. None has focus yet.
pub fn standard_blocks() -> (blocks: Vec<UIBlock>)
    ensures
        blocks@ == seq![
            UIBlock { ratio: 10, ty: UIBlockType::Input, activated: false },
            UIBlock { ratio: 20, ty: UIBlockType::Collections, activated: false },
            UIBlock { ratio: 50, ty: UIBlockType::Title, activated: false },
            UIBlock { ratio: 20, ty: UIBlockType::Creator, activated: false },
            UIBlock { ratio: 10, ty: UIBlockType::Year, activated: false },
        ],
{
    let mut blocks: Vec<UIBlock> = Vec::new();
    blocks.push(UIBlock { ratio: 10, ty: UIBlockType::Input, activated: false });
    blocks.push(UIBlock { ratio: 20, ty: UIBlockType::Collections, activated: false });
    blocks.push(UIBlock { ratio: 50, ty: UIBlockType::Title, activated: false });
    blocks.push(UIBlock { ratio: 20, ty: UIBlockType::Creator, activated: false });
    blocks.push(UIBlock { ratio: 10, ty: UIBlockType::Year, activated: false });
    assert(blocks@ =~= seq![
        UIBlock { ratio: 10, ty: UIBlockType::Input, activated: false },
        UIBlock { ratio: 20, ty: UIBlockType::Collections, activated: false },
        UIBlock { ratio: 50, ty: UIBlockType::Title, activated: false },
        UIBlock { ratio: 20, ty: UIBlockType::Creator, activated: false },
        UIBlock { ratio: 10, ty: UIBlockType::Year, activated: false },
    ]);
    blocks
}

/// The column of the terminal cursor in the input line: one past the end
/// of a text of `width` columns that begins right of the border at
/// `origin`. A text that runs past the last column leaves the cursor there.
pub open spec fn cursor_column_at(origin: u16, width: usize) -> u16 {
    if origin + width + 1 <= u16::MAX {
        (origin + width + 1) as u16
    } else {
        u16::MAX
    }
}

/// The column of the terminal cursor behind a text of `width` columns.
pub fn cursor_column(origin: u16, width: usize) -> (r: u16)
    ensures
        r == cursor_column_at(origin, width),
{
    let room = u16::MAX - origin;
    if width < room as usize {
        origin + width as u16 + 1
    } else {
        u16::MAX
    }
}

/// The column of the terminal cursor behind the search text.
pub fn search_cursor_column(search: &str, origin: u16) -> (r: u16)
    ensures
        r == cursor_column_at(origin, display_width(search@)),
{
    cursor_column(origin, str_width(search))
}

/// A row of the document table. `entry` is the position in the view of the
/// document that the row belongs to. A row with `attachment` set shows that
/// attachment of the document; a row without shows the document itself.
#[derive(Debug, Clone, Copy, PartialEq, Eq)]
pub struct TableRow {
    pub entry: usize,
    pub attachment: Option<usize>,
}

/// A row of the collection pane: a node of the forest and how deep it is
/// shown, a library at depth 0.
#[derive(Debug, Clone, Copy, PartialEq, Eq)]
pub struct PaneRow {
    pub node: usize,
    pub depth: usize,
}

/// The rows for the attachments of the entry `entry`: one for each
/// attachment that has a path, in the order of the attachments.
pub open spec fn attachment_rows(entry: usize, attachments: Seq<Attachment>) -> Seq<TableRow>
    decreases attachments.len(),
{
    if attachments.len() == 0 {
        Seq::empty()
    } else {
        let before = attachment_rows(entry, attachments.drop_last());
        if attachments.last().path is Some {
            before.push(TableRow { entry, attachment: Some((attachments.len() - 1) as usize) })
        } else {
            before
        }
    }
}

/// The rows of one entry: the row of the document, then, if the document is
/// expanded, the rows of its attachments.
pub open spec fn entry_rows(entry: usize, doc: Document) -> Seq<TableRow> {
    let own = seq![TableRow { entry, attachment: None }];
    if doc.toggled && doc.attachments is Some {
        own + attachment_rows(entry, doc.attachments->0.items@)
    } else {
        own
    }
}

/// The rows of the table for a view: those of its entries, in the order of
/// the view.
pub open spec fn table_rows(docs: Seq<Document>, items: Seq<usize>) -> Seq<TableRow>
    decreases items.len(),
{
    if items.len() == 0 {
        Seq::empty()
    } else {
        table_rows(docs, items.drop_last()) + entry_rows(
            (items.len() - 1) as usize,
            docs[items.last() as int],
        )
    }
}

/// Every row of the table belongs to an entry of the view, and the rows
/// follow the entries.
pub proof fn lemma_table_rows(docs: Seq<Document>, items: Seq<usize>)
    requires
        items.len() <= usize::MAX,
    ensures
        forall|r: int|
            0 <= r < table_rows(docs, items).len() ==> (#[trigger] table_rows(docs, items)[r]).entry
                < items.len(),
        forall|q: int, r: int|
            0 <= q <= r < table_rows(docs, items).len() ==> (#[trigger] table_rows(
                docs,
                items,
            )[q]).entry <= (#[trigger] table_rows(docs, items)[r]).entry,
        items.len() <= table_rows(docs, items).len(),
    decreases items.len(),
{
    if items.len() > 0 {
        let entry = (items.len() - 1) as usize;
        let front = table_rows(docs, items.drop_last());
        let all = table_rows(docs, items);
        lemma_table_rows(docs, items.drop_last());
        let doc = docs[items.last() as int];
        if doc.attachments is Some {
            lemma_attachment_rows(entry, doc.attachments->0.items@);
        }
        assert forall|r: int| 0 <= r < all.len() implies (if r < front.len() {
            all[r] == front[r] && all[r].entry < entry
        } else {
            (#[trigger] all[r]).entry == entry
        }) by {
            if r >= front.len() {
                assert(all[r] == entry_rows(entry, doc)[r - front.len()]);
            }
        }
        assert forall|q: int, r: int| 0 <= q <= r < all.len() implies (#[trigger] all[q]).entry
            <= (#[trigger] all[r]).entry by {
            if r < front.len() {
                assert(front[q].entry <= front[r].entry);
            }
        }
    }
}

/// Every attachment row belongs to the entry it was made for.
pub proof fn lemma_attachment_rows(entry: usize, attachments: Seq<Attachment>)
    ensures
        forall|r: int|
            0 <= r < attachment_rows(entry, attachments).len() ==> (#[trigger] attachment_rows(
                entry,
                attachments,
            )[r]).entry == entry,
    decreases attachments.len(),
{
    if attachments.len() > 0 {
        lemma_attachment_rows(entry, attachments.drop_last());
    }
}

/// The rows of the document table: for each entry of the view the row of
/// its document and, below it, one row for each attachment with a path if
/// the document is expanded. Each row names its entry, so that a row of the
/// screen leads back to its document.
pub fn document_rows(docs: &Vec<Document>, items: &Vec<usize>) -> (rows: Vec<TableRow>)
    requires
        handles_within(docs@, items@),
    ensures
        rows@ == table_rows(docs@, items@),
        forall|r: int| 0 <= r < rows@.len() ==> (#[trigger] rows@[r]).entry < items@.len(),
{
    let mut rows: Vec<TableRow> = Vec::new();
    let mut e: usize = 0;
    while e < items.len()
        invariant
            e <= items@.len(),
            handles_within(docs@, items@),
            rows@ == table_rows(docs@, items@.take(e as int)),
        decreases items@.len() - e,
    {
        let doc = &docs[items[e]];
        let ghost shown = rows@;
        proof {
            assert(items@.take(e + 1).drop_last() =~= items@.take(e as int));
        }
        rows.push(TableRow { entry: e, attachment: None });
        if doc.toggled {
            if let Some(list) = &doc.attachments {
                let mut a: usize = 0;
                while a < list.items.len()
                    invariant
                        a <= list.items@.len(),
                        rows@ == shown + seq![TableRow { entry: e, attachment: None }]
                            + attachment_rows(e, list.items@.take(a as int)),
                    decreases list.items@.len() - a,
                {
                    proof {
                        assert(list.items@.take(a + 1).drop_last() =~= list.items@.take(a as int));
                    }
                    if list.items[a].path.is_some() {
                        rows.push(TableRow { entry: e, attachment: Some(a) });
                    }
                    a += 1;
                }
                proof {
                    assert(list.items@.take(a as int) =~= list.items@);
                }
            }
        }
        proof {
            assert(rows@ =~= shown + entry_rows(e, *doc));
        }
        e += 1;
    }
    proof {
        assert(items@.take(e as int) =~= items@);
        lemma_table_rows(docs@, items@);
    }
    rows
}

/// The row of the table that shows the document of the entry `entry`
/// itself.
pub open spec fn is_own_row(row: TableRow, entry: usize) -> bool {
    row.entry == entry && row.attachment is None
}

/// The row of the screen on which the cursor of the view stands: the first
/// row that shows the selected entry itself. There is none where nothing is
/// selected or the table does not show the entry.
pub fn selected_row(rows: &Vec<TableRow>, selected: Option<usize>) -> (r: Option<usize>)
    ensures
        selected is None ==> r is None,
        r matches Some(at) ==> selected is Some && at < rows@.len() && is_own_row(
            rows@[at as int],
            selected->0,
        ) && forall|q: int| 0 <= q < at ==> !is_own_row(#[trigger] rows@[q], selected->0),
        r is None && selected is Some ==> forall|q: int|
            0 <= q < rows@.len() ==> !is_own_row(#[trigger] rows@[q], selected->0),
{
    let entry = match selected {
        Some(entry) => entry,
        None => {
            return None;
        },
    };
    let mut at: usize = 0;
    while at < rows.len()
        invariant
            at <= rows@.len(),
            selected == Some(entry),
            forall|q: int| 0 <= q < at ==> !is_own_row(#[trigger] rows@[q], entry),
        decreases rows@.len() - at,
    {
        if rows[at].entry == entry && rows[at].attachment.is_none() {
            return Some(at);
        }
        at += 1;
    }
    None
}

/// The node at `node` holds a collection that names no parent.
pub open spec fn is_top_collection(nodes: Seq<CollectionNode>, node: usize) -> bool {
    &&& node < nodes.len()
    &&& nodes[node as int].value matches CollectionNodeValue::Collection(col)
    &&& col.parentCollectionId is None
}

/// The node at `node` holds a collection whose parent has the identifier
/// `parent`.
pub open spec fn is_sub_collection(nodes: Seq<CollectionNode>, node: usize, parent: i64) -> bool {
    &&& node < nodes.len()
    &&& nodes[node as int].value matches CollectionNodeValue::Collection(col)
    &&& col.parentCollectionId == Some(parent)
}

/// The rows, at depth 2, of those of `children` that hold a collection with
/// the parent `parent`.
pub open spec fn sub_rows(nodes: Seq<CollectionNode>, children: Seq<usize>, parent: i64) -> Seq<
    PaneRow,
>
    decreases children.len(),
{
    if children.len() == 0 {
        Seq::empty()
    } else {
        let before = sub_rows(nodes, children.drop_last(), parent);
        if is_sub_collection(nodes, children.last(), parent) {
            before.push(PaneRow { node: children.last(), depth: 2 })
        } else {
            before
        }
    }
}

/// The rows below a library: for each of `children` that holds a collection
/// without a parent, its row at depth 1 and the rows of its own children.
pub open spec fn top_rows(tree: &CollectionTree, children: Seq<usize>) -> Seq<PaneRow>
    decreases children.len(),
{
    if children.len() == 0 {
        Seq::empty()
    } else {
        let before = top_rows(tree, children.drop_last());
        let child = children.last();
        if is_top_collection(tree.nodes@, child) {
            before.push(PaneRow { node: child, depth: 1 }) + sub_rows(
                tree.nodes@,
                tree.children_of(child),
                tree.nodes@[child as int].value->Collection_0.collectionId,
            )
        } else {
            before
        }
    }
}

/// The rows of the collection pane for the libraries `roots`: each library
/// at depth 0, followed by the rows below it.
pub open spec fn pane_rows(tree: &CollectionTree, roots: Seq<usize>) -> Seq<PaneRow>
    decreases roots.len(),
{
    if roots.len() == 0 {
        Seq::empty()
    } else {
        pane_rows(tree, roots.drop_last()).push(PaneRow { node: roots.last(), depth: 0 })
            + top_rows(tree, tree.children_of(roots.last()))
    }
}

/// The rows of the collection pane: every library, below it its
/// collections without a parent, and below each of those its own children.
/// Deeper collections are not shown.
pub fn collection_rows(tree: &CollectionTree) -> (rows: Vec<PaneRow>)
    ensures
        rows@ == pane_rows(tree, tree.library_nodes()),
{
    let roots = tree.get_library_nodes();
    let mut rows: Vec<PaneRow> = Vec::new();
    let mut r: usize = 0;
    while r < roots.len()
        invariant
            r <= roots@.len(),
            rows@ == pane_rows(tree, roots@.take(r as int)),
        decreases roots@.len() - r,
    {
        proof {
            assert(roots@.take(r + 1).drop_last() =~= roots@.take(r as int));
        }
        let ghost shown = rows@.push(PaneRow { node: roots@[r as int], depth: 0 });
        rows.push(PaneRow { node: roots[r], depth: 0 });
        let children = tree.get_node_children(roots[r]);
        let mut c: usize = 0;
        while c < children.len()
            invariant
                c <= children@.len(),
                rows@ == shown + top_rows(tree, children@.take(c as int)),
            decreases children@.len() - c,
        {
            proof {
                assert(children@.take(c + 1).drop_last() =~= children@.take(c as int));
            }
            let child = children[c];
            if child < tree.nodes.len() {
                if let CollectionNodeValue::Collection(col) = &tree.nodes[child].value {
                    if col.parentCollectionId.is_none() {
                        let ghost above = rows@.push(PaneRow { node: child, depth: 1 });
                        rows.push(PaneRow { node: child, depth: 1 });
                        let grand = tree.get_node_children(child);
                        let mut g: usize = 0;
                        while g < grand.len()
                            invariant
                                g <= grand@.len(),
                                rows@ == above + sub_rows(
                                    tree.nodes@,
                                    grand@.take(g as int),
                                    col.collectionId,
                                ),
                            decreases grand@.len() - g,
                        {
                            proof {
                                assert(grand@.take(g + 1).drop_last() =~= grand@.take(g as int));
                            }
                            let sub = grand[g];
                            if sub < tree.nodes.len() {
                                if let CollectionNodeValue::Collection(below) =
                                    &tree.nodes[sub].value {
                                    if below.parentCollectionId == Some(col.collectionId) {
                                        rows.push(PaneRow { node: sub, depth: 2 });
                                    }
                                }
                            }
                            g += 1;
                        }
                        proof {
                            assert(grand@.take(g as int) =~= grand@);
                        }
                    }
                }
            }
            proof {
                assert(rows@ =~= shown + top_rows(tree, children@.take(c + 1)));
            }
            c += 1;
        }
        proof {
            assert(children@.take(c as int) =~= children@);
        }
        r += 1;
    }
    proof {
        assert(roots@.take(r as int) =~= roots@);
    }
    rows
}

} // verus!
