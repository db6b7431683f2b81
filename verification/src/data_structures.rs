//! The records of the database as the library holds them, and a list with a
//! selection cursor.

use crate::text::{is_blank, str_is_blank};
use crate::ui::UIBlockType;
use vstd::prelude::*;

verus! {

/// The number of leading characters of a publication date that make the year.
pub const YEAR_CHARS: usize = 4;

/// What stands for the author of a document that has no creator.
pub open spec fn unknown_author() -> Seq<char> {
    "Unknown author(s)"@
}

/// Where the cursor of a list of `len` items goes on a step forward: to the
/// next item, from the last item or from nowhere to the first, and nowhere
/// in an empty list.
pub open spec fn cursor_after(selected: Option<usize>, len: nat) -> Option<usize> {
    if len == 0 {
        None
    } else {
        match selected {
            Some(i) => if i + 1 >= len {
                Some(0usize)
            } else {
                Some((i + 1) as usize)
            },
            None => Some(0usize),
        }
    }
}

/// Where the cursor of a list of `len` items goes on a step back: to the
/// item before, from the first item to the last, from nowhere to the first,
/// and nowhere in an empty list.
pub open spec fn cursor_before(selected: Option<usize>, len: nat) -> Option<usize> {
    if len == 0 {
        None
    } else {
        match selected {
            Some(i) => if i == 0 || i >= len {
                Some((len - 1) as usize)
            } else {
                Some((i - 1) as usize)
            },
            None => Some(0usize),
        }
    }
}

/// The cursor is nowhere or on an item of a list of `len` items.
pub open spec fn cursor_within(selected: Option<usize>, len: nat) -> bool {
    match selected {
        Some(i) => i < len,
        None => true,
    }
}

/// A list and the position of its selected item.
#[derive(Debug)]
pub struct StatefulList<T> {
    pub selected: Option<usize>,
    pub items: Vec<T>,
}

/// A table and the position of its selected row.
#[derive(Debug)]
pub struct StatefulTable<T> {
    pub selected: Option<usize>,
    pub items: Vec<T>,
}

impl<T> StatefulTable<T> {
    /// A list over `items` with nothing selected.
    pub fn with_items(items: Vec<T>) -> (r: StatefulList<T>)
        ensures
            r.items == items,
            r.selected is None,
    {
        StatefulList { selected: None, items }
    }

    /// Moves the cursor one row forward, wrapping at the end.
    pub fn next(&mut self)
        ensures
            final(self).items == old(self).items,
            final(self).selected == cursor_after(old(self).selected, old(self).items@.len()),
            cursor_within(final(self).selected, final(self).items@.len()),
    {
        let len = self.items.len();
        self.selected = step_forward(self.selected, len);
    }

    /// Moves the cursor one row back, wrapping at the start.
    pub fn previous(&mut self)
        ensures
            final(self).items == old(self).items,
            final(self).selected == cursor_before(old(self).selected, old(self).items@.len()),
            cursor_within(final(self).selected, final(self).items@.len()),
    {
        let len = self.items.len();
        self.selected = step_back(self.selected, len);
    }

    /// Takes the cursor off the table.
    pub fn unselect(&mut self)
        ensures
            final(self).items == old(self).items,
            final(self).selected is None,
    {
        self.selected = None;
    }
}

impl<T> StatefulList<T> {
    /// A list over `items` with nothing selected.
    pub fn with_items(items: Vec<T>) -> (r: StatefulList<T>)
        ensures
            r.items == items,
            r.selected is None,
    {
        StatefulList { selected: None, items }
    }

    /// Moves the cursor one item forward, wrapping at the end.
    pub fn next(&mut self)
        ensures
            final(self).items == old(self).items,
            final(self).selected == cursor_after(old(self).selected, old(self).items@.len()),
            cursor_within(final(self).selected, final(self).items@.len()),
    {
        let len = self.items.len();
        self.selected = step_forward(self.selected, len);
    }

    /// Moves the cursor one item back, wrapping at the start.
    pub fn previous(&mut self)
        ensures
            final(self).items == old(self).items,
            final(self).selected == cursor_before(old(self).selected, old(self).items@.len()),
            cursor_within(final(self).selected, final(self).items@.len()),
    {
        let len = self.items.len();
        self.selected = step_back(self.selected, len);
    }

    /// Takes the cursor off the list.
    pub fn unselect(&mut self)
        ensures
            final(self).items == old(self).items,
            final(self).selected is None,
    {
        self.selected = None;
    }
}

/// The cursor after a step forward in a list of `len` items.
pub fn step_forward(selected: Option<usize>, len: usize) -> (r: Option<usize>)
    ensures
        r == cursor_after(selected, len as nat),
        cursor_within(r, len as nat),
{
    if len == 0 {
        None
    } else {
        match selected {
            Some(i) => if i >= len - 1 {
                Some(0)
            } else {
                Some(i + 1)
            },
            None => Some(0),
        }
    }
}

/// The cursor after a step back in a list of `len` items.
pub fn step_back(selected: Option<usize>, len: usize) -> (r: Option<usize>)
    ensures
        r == cursor_before(selected, len as nat),
        cursor_within(r, len as nat),
{
    if len == 0 {
        None
    } else {
        match selected {
            Some(i) => if i == 0 || i >= len {
                Some(len - 1)
            } else {
                Some(i - 1)
            },
            None => Some(0),
        }
    }
}

/// The fields of a document as the database gives them.
#[derive(Debug, PartialEq, Eq)]
#[allow(non_snake_case)]
pub struct ItemData {
    pub itemId: i64,
    pub title: String,
    pub abstracttext: String,
    pub pubdate: String,
    pub key: String,
}

/// A library: the root of one tree of collections.
#[derive(Debug, PartialEq, Eq)]
#[allow(non_snake_case)]
pub struct Library {
    pub libraryId: i64,
    pub libraryName: String,
}

/// A collection record: a named group of documents inside a library, below
/// another collection or directly below the library.
#[derive(Debug, PartialEq, Eq)]
#[allow(non_snake_case)]
pub struct Collection {
    pub collectionId: i64,
    pub collectionName: String,
    pub parentCollectionId: Option<i64>,
    pub libraryId: i64,
}

/// A file that belongs to a document.
#[derive(Debug, PartialEq, Eq)]
#[allow(non_snake_case)]
pub struct Attachment {
    pub contentType: Option<String>,
    pub path: Option<String>,
    pub key: Option<String>,
}

/// An author of a document.
#[derive(Debug, PartialEq, Eq)]
#[allow(non_snake_case)]
pub struct Creator {
    pub firstName: Option<String>,
    pub lastName: Option<String>,
}

/// A copy of a text that may be missing.
fn copy_text(text: &Option<String>) -> (r: Option<String>)
    ensures
        r == *text,
{
    match text {
        Some(t) => Some(t.clone()),
        None => None,
    }
}

impl Clone for Attachment {
    fn clone(&self) -> (r: Self)
        ensures
            r == *self,
    {
        Attachment {
            contentType: copy_text(&self.contentType),
            path: copy_text(&self.path),
            key: copy_text(&self.key),
        }
    }
}

impl Clone for Creator {
    fn clone(&self) -> (r: Self)
        ensures
            r == *self,
    {
        Creator { firstName: copy_text(&self.firstName), lastName: copy_text(&self.lastName) }
    }
}

impl Clone for ItemData {
    fn clone(&self) -> (r: Self)
        ensures
            r == *self,
    {
        ItemData {
            itemId: self.itemId,
            title: self.title.clone(),
            abstracttext: self.abstracttext.clone(),
            pubdate: self.pubdate.clone(),
            key: self.key.clone(),
        }
    }
}

impl Clone for Collection {
    fn clone(&self) -> (r: Self)
        ensures
            r == *self,
    {
        Collection {
            collectionId: self.collectionId,
            collectionName: self.collectionName.clone(),
            parentCollectionId: self.parentCollectionId,
            libraryId: self.libraryId,
        }
    }
}

impl Creator {
    /// The creator that stands in for a missing one.
    pub open spec fn is_unknown(&self) -> bool {
        &&& self.firstName matches Some(name)
        &&& name@ == unknown_author()
        &&& self.lastName is None
    }

    /// The first name counts: it is there and not blank.
    pub open spec fn has_first_name(&self) -> bool {
        self.firstName matches Some(first) && !is_blank(first@)
    }

    /// The name to sort by, given whether the first name counts: the first
    /// name if it does, else the last name, else nothing.
    pub open spec fn sort_name_given(&self, has_first: bool) -> Seq<char> {
        match self.firstName {
            Some(first) if has_first => first@,
            _ => match self.lastName {
                Some(last) => last@,
                None => Seq::empty(),
            },
        }
    }

    /// The name to show, given whether the first name counts: first and last
    /// name with a space between, or the one there is.
    pub open spec fn display_name_given(&self, has_first: bool) -> Seq<char> {
        match self.firstName {
            Some(first) if has_first => match self.lastName {
                Some(last) => first@ + " "@ + last@,
                None => first@,
            },
            _ => match self.lastName {
                Some(last) => last@,
                None => Seq::empty(),
            },
        }
    }

    /// The name a document is sorted by under this creator.
    pub open spec fn sort_name(&self) -> Seq<char> {
        self.sort_name_given(self.has_first_name())
    }

    /// The name shown for this creator.
    pub open spec fn display_name(&self) -> Seq<char> {
        self.display_name_given(self.has_first_name())
    }

    /// Tells whether the creator has a first name that is not blank.
    pub fn first_name_counts(&self) -> (r: bool)
        ensures
            r == self.has_first_name(),
    {
        match &self.firstName {
            Some(first) => !str_is_blank(first.as_str()),
            None => false,
        }
    }

    /// The name to sort by, given whether the first name counts.
    pub fn sort_name_with(&self, has_first: bool) -> (r: &str)
        ensures
            r@ == self.sort_name_given(has_first),
    {
        proof {
            reveal_strlit("");
            assert(""@ =~= Seq::<char>::empty());
        }
        match (&self.firstName, &self.lastName) {
            (Some(first), _) if has_first => first.as_str(),
            (_, Some(last)) => last.as_str(),
            (_, None) => "",
        }
    }

    /// The name to show, given whether the first name counts.
    pub fn display_name_with(&self, has_first: bool) -> (r: String)
        ensures
            r@ == self.display_name_given(has_first),
    {
        let mut ret = String::new();
        let mut shown_first = false;
        if let Some(first) = &self.firstName {
            if has_first {
                shown_first = true;
                ret.append(first.as_str());
            }
        }
        if let Some(last) = &self.lastName {
            if shown_first {
                ret.append(" ");
            }
            ret.append(last.as_str());
        }
        assert(ret@ =~= self.display_name_given(has_first));
        ret
    }
}

impl Default for Creator {
    fn default() -> (r: Self)
        ensures
            r.is_unknown(),
    {
        Creator { firstName: Some(String::from_str("Unknown author(s)")), lastName: None }
    }
}

/// A record the database should not have held.
#[derive(Debug, Clone, Copy, PartialEq, Eq, Structural)]
pub enum LoadError {
    /// The publication date of this document has fewer characters than a year.
    PubdateTooShort { item_id: i64 },
}

/// A document of the index: its record, its creators in order, its
/// attachments, and whether its attachments are shown.
#[derive(Debug)]
pub struct Document {
    pub item_data: ItemData,
    pub creators: Vec<Creator>,
    pub attachments: Option<StatefulList<Attachment>>,
    pub toggled: bool,
}

impl Document {
    /// The publication date is long enough to hold a year.
    pub open spec fn wf(&self) -> bool {
        self.item_data.pubdate@.len() >= YEAR_CHARS
    }

    /// The year: the leading characters of the publication date.
    pub open spec fn year(&self) -> Seq<char> {
        self.item_data.pubdate@.subrange(0, YEAR_CHARS as int)
    }

    /// The text the document is sorted by under its primary creator.
    pub open spec fn creator_sort_text(&self) -> Seq<char> {
        if self.creators@.len() == 0 {
            unknown_author()
        } else {
            self.creators@[0].sort_name()
        }
    }

    /// The text shown for the primary creator.
    pub open spec fn creator_display_text(&self) -> Seq<char> {
        if self.creators@.len() == 0 {
            unknown_author()
        } else {
            self.creators@[0].display_name()
        }
    }

    /// The text the document is ordered by under a field. A field that is no
    /// document attribute gives the empty text, which leaves the order to the
    /// document identifier.
    pub open spec fn sort_text(&self, ty: UIBlockType) -> Seq<char> {
        match ty {
            UIBlockType::Title => self.item_data.title@,
            UIBlockType::Creator => self.creator_sort_text(),
            UIBlockType::Year => self.year(),
            _ => Seq::empty(),
        }
    }

    /// The text shown, and searched, for the document under a field.
    pub open spec fn header_text(&self, ty: UIBlockType) -> Seq<char> {
        match ty {
            UIBlockType::Title => self.item_data.title@,
            UIBlockType::Creator => self.creator_display_text(),
            UIBlockType::Year => self.year(),
            _ => Seq::empty(),
        }
    }

    /// A document over a record, with no creators and no attachments yet, or
    /// the error that the record's publication date cannot hold a year.
    pub fn new(item_data: ItemData) -> (r: Result<Document, LoadError>)
        ensures
            r is Ok <==> item_data.pubdate@.len() >= YEAR_CHARS,
            r matches Ok(doc) ==> doc.item_data == item_data && doc.creators@.len() == 0
                && doc.attachments is None && !doc.toggled && doc.wf(),
            r matches Err(e) ==> e == (LoadError::PubdateTooShort { item_id: item_data.itemId }),
    {
        if item_data.pubdate.as_str().unicode_len() < YEAR_CHARS {
            Err(LoadError::PubdateTooShort { item_id: item_data.itemId })
        } else {
            Ok(Document { item_data, creators: Vec::new(), attachments: None, toggled: false })
        }
    }

    /// Shows the attachments if they were hidden, hides them if they were shown.
    pub fn toggle(&mut self)
        ensures
            final(self).toggled == !old(self).toggled,
            final(self).item_data == old(self).item_data,
            final(self).creators == old(self).creators,
            final(self).attachments == old(self).attachments,
    {
        self.toggled = !self.toggled;
    }

    /// The title.
    pub fn get_title(&self) -> (r: &str)
        ensures
            r@ == self.item_data.title@,
    {
        self.item_data.title.as_str()
    }

    /// The year of publication.
    pub fn get_year(&self) -> (r: &str)
        requires
            self.wf(),
        ensures
            r@ == self.year(),
    {
        self.item_data.pubdate.as_str().substring_char(0, YEAR_CHARS)
    }

    /// The text to order the document by under the field `ty`.
    pub fn get_cmp_str_for_block_type(&self, ty: UIBlockType) -> (r: &str)
        requires
            ty == UIBlockType::Year ==> self.wf(),
        ensures
            r@ == self.sort_text(ty),
    {
        proof {
            reveal_strlit("");
        }
        match ty {
            UIBlockType::Title => self.get_title(),
            UIBlockType::Creator => {
                if self.creators.len() == 0 {
                    "Unknown author(s)"
                } else {
                    let first_author = &self.creators[0];
                    first_author.sort_name_with(first_author.first_name_counts())
                }
            },
            UIBlockType::Year => self.get_year(),
            _ => {
                assert(""@ =~= Seq::<char>::empty());
                ""
            },
        }
    }

    /// The text to show and search for the document under the attribute `ty`.
    pub fn build_header_for_block_type(&self, ty: UIBlockType) -> (r: String)
        requires
            ty.searchable(),
            ty == UIBlockType::Year ==> self.wf(),
        ensures
            r@ == self.header_text(ty),
    {
        match ty {
            UIBlockType::Title => self.get_title().to_owned(),
            UIBlockType::Creator => {
                if self.creators.len() == 0 {
                    String::from_str("Unknown author(s)")
                } else {
                    let first_author = &self.creators[0];
                    first_author.display_name_with(first_author.first_name_counts())
                }
            },
            _ => self.get_year().to_owned(),
        }
    }

    /// Takes the creators the database holds for the document, in their
    /// order; where it holds none, the unknown creator stands in.
    pub fn add_creators(&mut self, records: Vec<Creator>)
        ensures
            final(self).item_data == old(self).item_data,
            final(self).attachments == old(self).attachments,
            final(self).toggled == old(self).toggled,
            records@.len() > 0 ==> final(self).creators@ == old(self).creators@ + records@,
            records@.len() == 0 ==> final(self).creators@.len() == old(self).creators@.len() + 1
                && final(self).creators@.drop_last() == old(self).creators@
                && final(self).creators@.last().is_unknown(),
    {
        let mut records = records;
        if records.len() > 0 {
            self.creators.append(&mut records);
        } else {
            self.creators.push(Creator::default());
        }
    }

    /// Takes the attachments the database holds for the document; where it
    /// holds none, the document is left as it is.
    pub fn add_attachments(&mut self, records: Vec<Attachment>)
        ensures
            final(self).item_data == old(self).item_data,
            final(self).creators == old(self).creators,
            final(self).toggled == old(self).toggled,
            records@.len() == 0 ==> final(self).attachments == old(self).attachments,
            records@.len() > 0 ==> (final(self).attachments matches Some(list) && list.items
                == records && list.selected is None),
    {
        if records.len() > 0 {
            self.attachments = Some(StatefulList::with_items(records));
        }
    }
}

/// The first position of `items` whose publication date cannot hold a year,
/// or the length of `items` where there is none.
pub open spec fn first_short_pubdate(items: Seq<ItemData>) -> int
    decreases items.len(),
{
    if items.len() == 0 {
        0
    } else {
        let before = first_short_pubdate(items.drop_last());
        if before < items.len() - 1 || items.last().pubdate@.len() < YEAR_CHARS {
            before
        } else {
            items.len() as int
        }
    }
}

/// The documents of the index, one for each record and in the order of the
/// records, or the error of the first record whose publication date cannot
/// hold a year.
pub fn documents_from_items(items: Vec<ItemData>) -> (r: Result<Vec<Document>, LoadError>)
    ensures
        0 <= first_short_pubdate(items@) <= items@.len(),
        forall|i: int|
            0 <= i < first_short_pubdate(items@) ==> (#[trigger] items@[i]).pubdate@.len()
                >= YEAR_CHARS,
        first_short_pubdate(items@) < items@.len() ==> items@[first_short_pubdate(
            items@,
        )].pubdate@.len() < YEAR_CHARS,
        r is Ok <==> first_short_pubdate(items@) == items@.len(),
        r matches Ok(docs) ==> docs@.len() == items@.len() && forall|i: int|
            0 <= i < docs@.len() ==> (#[trigger] docs@[i]).item_data == items@[i]
                && docs@[i].creators@.len() == 0 && docs@[i].attachments is None
                && !docs@[i].toggled && docs@[i].wf(),
        r matches Err(e) ==> e == (LoadError::PubdateTooShort {
            item_id: items@[first_short_pubdate(items@)].itemId,
        }),
{
    let mut docs: Vec<Document> = Vec::new();
    let mut i: usize = 0;
    while i < items.len()
        invariant
            i <= items@.len(),
            first_short_pubdate(items@.take(i as int)) == i,
            forall|k: int| 0 <= k < i ==> (#[trigger] items@[k]).pubdate@.len() >= YEAR_CHARS,
            docs@.len() == i,
            forall|k: int|
                0 <= k < i ==> (#[trigger] docs@[k]).item_data == items@[k]
                    && docs@[k].creators@.len() == 0 && docs@[k].attachments is None
                    && !docs@[k].toggled && docs@[k].wf(),
        decreases items@.len() - i,
    {
        assert(items@.take(i + 1).drop_last() =~= items@.take(i as int));
        match Document::new(items[i].clone()) {
            Ok(doc) => {
                docs.push(doc);
            },
            Err(e) => {
                proof {
                    lemma_first_short_stays(items@, i + 1);
                }
                return Err(e);
            },
        }
        i += 1;
    }
    assert(items@.take(i as int) =~= items@);
    Ok(docs)
}

/// Once a prefix of `items` holds a short publication date, the first one of
/// the whole is the first one of the prefix.
pub proof fn lemma_first_short_stays(items: Seq<ItemData>, n: int)
    requires
        0 <= n <= items.len(),
        first_short_pubdate(items.take(n)) < n,
    ensures
        first_short_pubdate(items) == first_short_pubdate(items.take(n)),
    decreases items.len() - n,
{
    if n < items.len() {
        assert(items.take(n + 1).drop_last() =~= items.take(n));
        lemma_first_short_stays(items, n + 1);
    } else {
        assert(items.take(n) =~= items);
    }
}

} // verus!
