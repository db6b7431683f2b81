//! The forest of collections: one root for each library, the collections
//! below them, built from records that name their parent and may come in any
//! order.

use crate::collection_laws::{can_be_ordered, lemma_build_keeps_all, lemma_builds_iff_ordered};
use crate::data_structures::{Collection, Library};
use crate::matching::{lemma_true_positions, true_positions};
use vstd::prelude::*;
use vstd::std_specs::convert::FromSpecImpl;

verus! {

/// What a node of the forest stands for.
#[derive(Debug, PartialEq, Eq)]
pub enum CollectionNodeValue {
    Collection(Collection),
    Library(Library),
}

/// A node of the forest.
#[derive(Debug, PartialEq, Eq)]
pub struct CollectionNode {
    pub value: CollectionNodeValue,
    pub selected: bool,
}

/// An edge of the forest, from a parent to one of its children. Both ends
/// are positions in the forest's list of nodes.
#[derive(Debug, Clone, Copy, PartialEq, Eq)]
pub struct CollectionTreeEdge {
    pub src: usize,
    pub dst: usize,
}

/// The forest: its nodes, and the edges between them. A node is known by its
/// position in `nodes`.
#[derive(Debug)]
pub struct CollectionTree {
    pub edges: Vec<CollectionTreeEdge>,
    pub nodes: Vec<CollectionNode>,
}

/// Why a forest could not be completed.
#[derive(Debug, Clone, Copy, PartialEq, Eq, Structural)]
pub enum BuildError {
    /// The parent of this collection is not among the collections of its
    /// library, or only through a cycle.
    UnresolvedParent { collection_id: i64 },
}

impl From<Collection> for CollectionNode {
    fn from(collection: Collection) -> (node: Self) {
        CollectionNode { value: CollectionNodeValue::Collection(collection), selected: false }
    }
}

impl FromSpecImpl<Collection> for CollectionNode {
    open spec fn obeys_from_spec() -> bool {
        true
    }

    open spec fn from_spec(collection: Collection) -> Self {
        CollectionNode { value: CollectionNodeValue::Collection(collection), selected: false }
    }
}

impl CollectionNode {
    /// The node is the root of the library `id`.
    pub open spec fn is_library(&self, id: i64) -> bool {
        self.value matches CollectionNodeValue::Library(lib) && lib.libraryId == id
    }

    /// The node holds a collection with the identifier `id`.
    pub open spec fn is_collection(&self, id: i64) -> bool {
        self.value matches CollectionNodeValue::Collection(col) && col.collectionId == id
    }

    /// The node holds a collection with the identifier `id` of the library
    /// `library`.
    pub open spec fn is_collection_of(&self, id: i64, library: i64) -> bool {
        self.value matches CollectionNodeValue::Collection(col) && col.collectionId == id
            && col.libraryId == library
    }

    /// `child` may hang below this node: it holds a collection, and this node
    /// is the root of its library if it names no parent, else its parent.
    pub open spec fn may_hold(&self, child: &CollectionNode) -> bool {
        child.value matches CollectionNodeValue::Collection(col) && match self.value {
            CollectionNodeValue::Library(lib) => col.parentCollectionId is None && lib.libraryId
                == col.libraryId,
            CollectionNodeValue::Collection(parent) => is_parent_of(parent, col),
        }
    }
}

impl CollectionTree {
    /// A forest without nodes.
    pub fn new() -> (tree: Self)
        ensures
            tree.nodes@.len() == 0,
            tree.edges@.len() == 0,
    {
        CollectionTree { edges: Vec::new(), nodes: Vec::new() }
    }

    /// The roots of the forest: the library nodes, in the order of `nodes`.
    pub open spec fn library_nodes(&self) -> Seq<usize> {
        true_positions(root_flags(self.nodes@))
    }

    /// The roots of the forest: the library nodes, in the order of `nodes`.
    pub fn get_library_nodes(&self) -> (roots: Vec<usize>)
        ensures
            roots@ == self.library_nodes(),
            forall|k: int|
                0 <= k < roots@.len() ==> (#[trigger] roots@[k]) < self.nodes@.len()
                    && self.nodes@[roots@[k] as int].value is Library,
            forall|j: int, k: int| 0 <= j < k < roots@.len() ==> roots@[j] < roots@[k],
            forall|n: int|
                0 <= n < self.nodes@.len() && (#[trigger] self.nodes@[n]).value is Library
                    ==> roots@.contains(n as usize),
    {
        let mut roots: Vec<usize> = Vec::new();
        let mut n: usize = 0;
        while n < self.nodes.len()
            invariant
                n <= self.nodes@.len(),
                roots@ == true_positions(root_flags(self.nodes@.take(n as int))),
            decreases self.nodes@.len() - n,
        {
            assert(root_flags(self.nodes@.take(n + 1)).drop_last() =~= root_flags(
                self.nodes@.take(n as int),
            ));
            if let CollectionNodeValue::Library(_) = &self.nodes[n].value {
                roots.push(n);
            }
            n += 1;
        }
        proof {
            assert(self.nodes@.take(n as int) =~= self.nodes@);
            let flags = root_flags(self.nodes@);
            lemma_true_positions(flags);
            assert forall|m: int|
                0 <= m < self.nodes@.len() && (#[trigger] self.nodes@[m]).value is Library implies roots@.contains(
                m as usize,
            ) by {
                assert(flags[m]);
            }
        }
        roots
    }

    /// The children of `node`: the far ends of the edges that leave it, in
    /// the order of `edges`.
    pub fn get_node_children(&self, node: usize) -> (children: Vec<usize>)
        ensures
            children@ == self.children_of(node),
    {
        let mut children: Vec<usize> = Vec::new();
        let mut e: usize = 0;
        while e < self.edges.len()
            invariant
                e <= self.edges@.len(),
                children@ == edge_ends(self.edges@.take(e as int), node),
            decreases self.edges@.len() - e,
        {
            assert(self.edges@.take(e + 1).drop_last() =~= self.edges@.take(e as int));
            if self.edges[e].src == node {
                children.push(self.edges[e].dst);
            }
            e += 1;
        }
        assert(self.edges@.take(e as int) =~= self.edges@);
        children
    }

    /// The first node that holds a collection with the identifier `id`.
    pub fn get_collection(&self, id: i64) -> (found: Option<usize>)
        ensures
            found matches Some(n) ==> n < self.nodes@.len() && self.nodes@[n as int].is_collection(
                id,
            ) && forall|m: int| 0 <= m < n ==> !(#[trigger] self.nodes@[m]).is_collection(id),
            found is None ==> forall|m: int|
                0 <= m < self.nodes@.len() ==> !(#[trigger] self.nodes@[m]).is_collection(id),
    {
        let mut n: usize = 0;
        while n < self.nodes.len()
            invariant
                n <= self.nodes@.len(),
                forall|m: int| 0 <= m < n ==> !(#[trigger] self.nodes@[m]).is_collection(id),
            decreases self.nodes@.len() - n,
        {
            if let CollectionNodeValue::Collection(col) = &self.nodes[n].value {
                if col.collectionId == id {
                    return Some(n);
                }
            }
            n += 1;
        }
        None
    }

    /// The root of the library `id`.
    pub fn get_library(&self, id: i64) -> (found: Option<usize>)
        ensures
            found matches Some(n) ==> n < self.nodes@.len() && self.nodes@[n as int].is_library(id)
                && forall|m: int| 0 <= m < n ==> !(#[trigger] self.nodes@[m]).is_library(id),
            found is None ==> forall|m: int|
                0 <= m < self.nodes@.len() ==> !(#[trigger] self.nodes@[m]).is_library(id),
    {
        let mut n: usize = 0;
        while n < self.nodes.len()
            invariant
                n <= self.nodes@.len(),
                forall|m: int| 0 <= m < n ==> !(#[trigger] self.nodes@[m]).is_library(id),
            decreases self.nodes@.len() - n,
        {
            if let CollectionNodeValue::Library(lib) = &self.nodes[n].value {
                if lib.libraryId == id {
                    return Some(n);
                }
            }
            n += 1;
        }
        None
    }

    /// The forest is made of the roots of the libraries `libs`, in that
    /// order, then of the collections `attached`, in that order, each with
    /// one edge from the node it hangs below.
    pub open spec fn is_forest_of(&self, libs: Seq<i64>, attached: Seq<Collection>) -> bool {
        &&& self.nodes@.len() == libs.len() + attached.len()
        &&& self.edges@.len() == attached.len()
        &&& forall|n: int| 0 <= n < libs.len() ==> is_library_root(#[trigger] self.nodes@[n], libs[n])
        &&& forall|n: int|
            libs.len() <= n < self.nodes@.len() ==> (#[trigger] self.nodes@[n]).value
                == CollectionNodeValue::Collection(attached[n - libs.len()])
                && !self.nodes@[n].selected
        &&& forall|k: int|
            0 <= k < attached.len() ==> (#[trigger] self.edges@[k]).dst == libs.len() + k
                && self.edges@[k].src == parent_slot(libs, attached, k)
    }

    /// The nodes and edges make a forest: every edge runs from a node to a
    /// later one that may hang below it, every collection hangs below
    /// exactly one node, and no two roots stand for the same library.
    pub open spec fn wf(&self) -> bool {
        &&& forall|e: int|
            0 <= e < self.edges@.len() ==> (#[trigger] self.edges@[e]).src < self.edges@[e].dst
                < self.nodes@.len() && self.nodes@[self.edges@[e].src as int].may_hold(
                &self.nodes@[self.edges@[e].dst as int],
            )
        &&& forall|d: int, e: int|
            0 <= d < e < self.edges@.len() ==> (#[trigger] self.edges@[d]).dst
                != (#[trigger] self.edges@[e]).dst
        &&& forall|n: int|
            0 <= n < self.nodes@.len() && (#[trigger] self.nodes@[n]).value is Collection
                ==> exists|e: int|
                0 <= e < self.edges@.len() && (#[trigger] self.edges@[e]).dst == n
        &&& forall|m: int, n: int|
            0 <= m < n < self.nodes@.len() ==> !((#[trigger] self.nodes@[m]).value matches CollectionNodeValue::Library(
                a,
            ) && (#[trigger] self.nodes@[n]).value matches CollectionNodeValue::Library(b)
                && a.libraryId == b.libraryId)
    }

    /// The first node that holds the collection `id` of the library `library`.
    fn find_parent(&self, id: i64, library: i64) -> (found: Option<usize>)
        ensures
            found matches Some(n) ==> n < self.nodes@.len() && self.nodes@[n as int].is_collection_of(
                id,
                library,
            ) && forall|m: int| 0 <= m < n ==> !(#[trigger] self.nodes@[m]).is_collection_of(id, library),
            found is None ==> forall|m: int|
                0 <= m < self.nodes@.len() ==> !(#[trigger] self.nodes@[m]).is_collection_of(
                    id,
                    library,
                ),
    {
        let mut n: usize = 0;
        while n < self.nodes.len()
            invariant
                n <= self.nodes@.len(),
                forall|m: int| 0 <= m < n ==> !(#[trigger] self.nodes@[m]).is_collection_of(id, library),
            decreases self.nodes@.len() - n,
        {
            if let CollectionNodeValue::Collection(col) = &self.nodes[n].value {
                if col.collectionId == id && col.libraryId == library {
                    return Some(n);
                }
            }
            n += 1;
        }
        None
    }

    /// One pass over the records: those that resolve are attached, the
    /// others are left in `collections`.
    fn attach_pass(
        &mut self,
        collections: &mut Vec<Collection>,
        Ghost(libs): Ghost<Seq<i64>>,
        Ghost(attached): Ghost<Seq<Collection>>,
    )
        requires
            old(self).is_forest_of(libs, attached),
            forall|j: int|
                0 <= j < old(collections)@.len() ==> libs.contains(
                    (#[trigger] old(collections)@[j]).libraryId,
                ),
        ensures
            final(self).is_forest_of(libs, scan(attached, old(collections)@).0),
            final(collections)@ == scan(attached, old(collections)@).1,
    {
        let ghost recs = collections@;
        let mut kept: Vec<Collection> = Vec::new();
        let mut i: usize = 0;
        while i < collections.len()
            invariant
                i <= recs.len(),
                collections@ == recs,
                forall|j: int| 0 <= j < recs.len() ==> libs.contains((#[trigger] recs[j]).libraryId),
                self.is_forest_of(libs, scan(attached, recs.take(i as int)).0),
                kept@ == scan(attached, recs.take(i as int)).1,
            decreases recs.len() - i,
        {
            let rec = collections[i].clone();
            let ghost att = scan(attached, recs.take(i as int)).0;
            let ghost grown = att.push(rec);
            proof {
                assert(recs.take(i + 1).drop_last() =~= recs.take(i as int));
                assert(recs.take(i + 1).last() == rec);
                assert(libs.contains(recs[i as int].libraryId));
                lemma_first_parent(att, rec);
                lemma_library_slot(libs, rec.libraryId);
                assert(grown.take(att.len() as int) =~= att);
            }
            let slot = match rec.parentCollectionId {
                None => self.get_library(rec.libraryId),
                Some(parent) => self.find_parent(parent, rec.libraryId),
            };
            proof {
                let want = parent_slot(libs, grown, att.len() as int);
                if rec.parentCollectionId is None {
                    let at = library_slot(libs, rec.libraryId);
                    assert(is_library_root(self.nodes@[at], libs[at]));
                    assert(slot == Some(at as usize));
                } else {
                    let at = first_parent(att, rec);
                    if at < att.len() {
                        assert(self.nodes@[libs.len() + at].value == CollectionNodeValue::Collection(
                            att[at],
                        ));
                        assert(slot == Some((libs.len() + at) as usize));
                    } else {
                        assert forall|m: int| 0 <= m < self.nodes@.len() implies !(#[trigger] self.nodes@[m]).is_collection_of(
                            rec.parentCollectionId->0,
                            rec.libraryId,
                        ) by {
                            if m >= libs.len() {
                                assert(!is_parent_of(att[m - libs.len()], rec));
                            }
                        }
                        assert(slot is None);
                    }
                }
                assert(slot is Some <==> resolves(att, rec));
                assert(slot matches Some(h) ==> h == want);
            }
            match slot {
                Some(src) => {
                    let dst = self.nodes.len();
                    self.nodes.push(CollectionNode::from(rec));
                    self.edges.push(CollectionTreeEdge { src, dst });
                    proof {
                        assert forall|k: int| 0 <= k < grown.len() implies (#[trigger] self.edges@[k]).dst
                            == libs.len() + k && self.edges@[k].src == parent_slot(libs, grown, k) by {
                            if k < att.len() {
                                assert(grown.take(k) =~= att.take(k));
                                assert(grown[k] == att[k]);
                            }
                        }
                    }
                },
                None => {
                    kept.push(rec);
                },
            }
            i += 1;
        }
        proof {
            assert(recs.take(i as int) =~= recs);
        }
        *collections = kept;
    }

    /// Builds the forest from the collection records. A root is made for
    /// each library that a record names. Then the records are gone through
    /// in passes: a record without a parent is attached below the root of
    /// its library, one with a parent below the first attached collection of
    /// its library that carries the parent's identifier, and one whose
    /// parent is not attached yet waits for a later pass. Attached records
    /// leave `collections`. When a pass attaches nothing, the records that
    /// are left hang on a missing parent or on each other: the first of them
    /// is reported, and the forest holds what could be attached.
    pub fn build_collection_tree(&mut self, collections: &mut Vec<Collection>) -> (r: Result<
        (),
        BuildError,
    >)
        requires
            old(self).nodes@.len() == 0,
            old(self).edges@.len() == 0,
        ensures
            final(self).is_forest_of(
                library_ids(old(collections)@),
                attach_order(old(collections)@),
            ),
            final(self).wf(),
            final(collections)@ == unresolved(old(collections)@),
            r is Ok <==> unresolved(old(collections)@).len() == 0,
            r is Ok <==> can_be_ordered(old(collections)@),
            r matches Err(e) ==> e == (BuildError::UnresolvedParent {
                collection_id: unresolved(old(collections)@)[0].collectionId,
            }),
            attach_order(old(collections)@).to_multiset().add(
                unresolved(old(collections)@).to_multiset(),
            ) == old(collections)@.to_multiset(),
    {
        let ghost recs = collections@;
        let ghost libs = library_ids(recs);
        let mut i: usize = 0;
        while i < collections.len()
            invariant
                i <= recs.len(),
                collections@ == recs,
                self.is_forest_of(library_ids(recs.take(i as int)), Seq::empty()),
            decreases recs.len() - i,
        {
            let id = collections[i].libraryId;
            let ghost seen = library_ids(recs.take(i as int));
            proof {
                assert(recs.take(i + 1).drop_last() =~= recs.take(i as int));
            }
            let known = self.get_library(id);
            proof {
                if seen.contains(id) {
                    let k = choose|k: int| 0 <= k < seen.len() && seen[k] == id;
                    assert(is_library_root(self.nodes@[k], seen[k]));
                }
            }
            if known.is_none() {
                self.nodes.push(
                    CollectionNode {
                        value: CollectionNodeValue::Library(
                            Library { libraryId: id, libraryName: String::from_str("Test") },
                        ),
                        selected: false,
                    },
                );
            }
            i += 1;
        }
        let ghost mut attached: Seq<Collection> = Seq::empty();
        proof {
            assert(recs.take(i as int) =~= recs);
            lemma_library_ids(recs);
        }
        loop
            invariant
                recs == old(collections)@,
                libs == library_ids(recs),
                libs.no_duplicates(),
                self.is_forest_of(libs, attached),
                parents_first(attached),
                forall|k: int| 0 <= k < attached.len() ==> libs.contains((#[trigger] attached[k]).libraryId),
                forall|j: int|
                    0 <= j < collections@.len() ==> libs.contains((#[trigger] collections@[j]).libraryId),
                settle(attached, collections@) == settle(Seq::empty(), recs),
            decreases collections@.len(),
        {
            let before = collections.len();
            if before == 0 {
                proof {
                    assert(collections@ =~= Seq::empty());
                    assert(settle(attached, collections@) == (attached, collections@));
                    lemma_forest_wf(self, libs, attached);
                    lemma_build_keeps_all(recs);
                    lemma_builds_iff_ordered(recs);
                }
                return Ok(());
            }
            let ghost waiting = collections@;
            let ghost earlier = attached;
            self.attach_pass(collections, Ghost(libs), Ghost(attached));
            proof {
                lemma_scan_shape(earlier, waiting);
                attached = scan(earlier, waiting).0;
                assert(scan(earlier, waiting) == (attached, collections@));
                assert forall|k: int| 0 <= k < attached.len() implies libs.contains(
                    (#[trigger] attached[k]).libraryId,
                ) by {
                    if k < earlier.len() {
                        assert(attached.take(earlier.len() as int)[k] == attached[k]);
                    } else {
                        let j = choose|j: int| 0 <= j < waiting.len() && waiting[j] == attached[k];
                        assert(libs.contains(waiting[j].libraryId));
                    }
                }
                assert forall|j: int| 0 <= j < collections@.len() implies libs.contains(
                    (#[trigger] collections@[j]).libraryId,
                ) by {
                    let w = choose|w: int| 0 <= w < waiting.len() && waiting[w] == collections@[j];
                    assert(libs.contains(waiting[w].libraryId));
                }
            }
            let after = collections.len();
            if after == 0 {
                proof {
                    lemma_forest_wf(self, libs, attached);
                    lemma_build_keeps_all(recs);
                    lemma_builds_iff_ordered(recs);
                }
                return Ok(());
            }
            if after == before {
                proof {
                    lemma_forest_wf(self, libs, attached);
                    lemma_build_keeps_all(recs);
                    lemma_builds_iff_ordered(recs);
                }
                return Err(BuildError::UnresolvedParent { collection_id: collections[0].collectionId });
            }
        }
    }

    /// The children of `node` in the order of the edges.
    pub open spec fn children_of(&self, node: usize) -> Seq<usize> {
        edge_ends(self.edges@, node)
    }
}

/// For each node, whether it is the root of a library.
pub open spec fn root_flags(nodes: Seq<CollectionNode>) -> Seq<bool> {
    Seq::new(nodes.len(), |n: int| nodes[n].value is Library)
}

/// The display name of every library root: the records carry no name for
/// their library.
pub open spec fn library_name() -> Seq<char> {
    "Test"@
}

/// `parent` is the collection that `child` names as its parent, and both
/// belong to one library.
pub open spec fn is_parent_of(parent: Collection, child: Collection) -> bool {
    child.parentCollectionId == Some(parent.collectionId) && parent.libraryId == child.libraryId
}

/// The position in `attached` of the first parent of `rec`, or the length of
/// `attached` where it holds none.
pub open spec fn first_parent(attached: Seq<Collection>, rec: Collection) -> int
    decreases attached.len(),
{
    if attached.len() == 0 {
        0
    } else {
        let before = first_parent(attached.drop_last(), rec);
        if before < attached.len() - 1 || is_parent_of(attached.last(), rec) {
            before
        } else {
            attached.len() as int
        }
    }
}

/// `rec` can be attached once the collections of `attached` are: it has no
/// parent, or its parent is among them.
pub open spec fn resolves(attached: Seq<Collection>, rec: Collection) -> bool {
    rec.parentCollectionId is None || first_parent(attached, rec) < attached.len()
}

/// Every collection of `order` comes after its parent.
pub open spec fn parents_first(order: Seq<Collection>) -> bool {
    forall|k: int| 0 <= k < order.len() ==> resolves(order.take(k), #[trigger] order[k])
}

/// The library identifiers of `recs`, each once, in the order in which they
/// first occur.
pub open spec fn library_ids(recs: Seq<Collection>) -> Seq<i64>
    decreases recs.len(),
{
    if recs.len() == 0 {
        Seq::empty()
    } else {
        let before = library_ids(recs.drop_last());
        if before.contains(recs.last().libraryId) {
            before
        } else {
            before.push(recs.last().libraryId)
        }
    }
}

/// The position of `id` in `libs`, or the length of `libs` where it is missing.
pub open spec fn library_slot(libs: Seq<i64>, id: i64) -> int
    decreases libs.len(),
{
    if libs.len() == 0 {
        0
    } else {
        let before = library_slot(libs.drop_last(), id);
        if before < libs.len() - 1 || libs.last() == id {
            before
        } else {
            libs.len() as int
        }
    }
}

/// One pass over `recs`, in order, with the collections of `attached`
/// already in the forest: a record that resolves is attached at once, so
/// that a later record of the same pass may hang below it; the others are
/// kept. The result is the attached collections and the kept records.
pub open spec fn scan(attached: Seq<Collection>, recs: Seq<Collection>) -> (
    Seq<Collection>,
    Seq<Collection>,
)
    decreases recs.len(),
{
    if recs.len() == 0 {
        (attached, Seq::empty())
    } else {
        let before = scan(attached, recs.drop_last());
        if resolves(before.0, recs.last()) {
            (before.0.push(recs.last()), before.1)
        } else {
            (before.0, before.1.push(recs.last()))
        }
    }
}

/// Passes over the records until none is left or a pass attaches none. The
/// result is the attached collections, in the order in which they were
/// attached, and the records that could not be.
pub open spec fn settle(attached: Seq<Collection>, recs: Seq<Collection>) -> (
    Seq<Collection>,
    Seq<Collection>,
)
    decreases recs.len(),
{
    let pass = scan(attached, recs);
    if 0 < pass.1.len() < recs.len() {
        settle(pass.0, pass.1)
    } else {
        pass
    }
}

/// The collections of `recs` that find their place in the forest, in the
/// order in which the builder attaches them.
pub open spec fn attach_order(recs: Seq<Collection>) -> Seq<Collection> {
    settle(Seq::empty(), recs).0
}

/// The records of `recs` that find no place in the forest, in their order.
pub open spec fn unresolved(recs: Seq<Collection>) -> Seq<Collection> {
    settle(Seq::empty(), recs).1
}

/// The node is the root that the builder makes for the library `id`.
pub open spec fn is_library_root(node: CollectionNode, id: i64) -> bool {
    &&& node.value matches CollectionNodeValue::Library(lib)
    &&& lib.libraryId == id
    &&& lib.libraryName@ == library_name()
    &&& !node.selected
}

/// The node under which the `k`-th attached collection hangs: the root of
/// its library if it has no parent, else the first of the collections
/// attached before it that is its parent.
pub open spec fn parent_slot(libs: Seq<i64>, attached: Seq<Collection>, k: int) -> int {
    if attached[k].parentCollectionId is None {
        library_slot(libs, attached[k].libraryId)
    } else {
        libs.len() + first_parent(attached.take(k), attached[k])
    }
}

/// What `first_parent` finds.
pub proof fn lemma_first_parent(attached: Seq<Collection>, rec: Collection)
    ensures
        0 <= first_parent(attached, rec) <= attached.len(),
        forall|k: int|
            0 <= k < first_parent(attached, rec) ==> !is_parent_of(#[trigger] attached[k], rec),
        first_parent(attached, rec) < attached.len() ==> is_parent_of(
            attached[first_parent(attached, rec)],
            rec,
        ),
    decreases attached.len(),
{
    if attached.len() > 0 {
        let front = attached.drop_last();
        lemma_first_parent(front, rec);
        assert forall|k: int| 0 <= k < first_parent(attached, rec) implies !is_parent_of(
            #[trigger] attached[k],
            rec,
        ) by {
            if k < front.len() {
                assert(front[k] == attached[k]);
            }
        }
    }
}

/// What `library_slot` finds.
pub proof fn lemma_library_slot(libs: Seq<i64>, id: i64)
    ensures
        0 <= library_slot(libs, id) <= libs.len(),
        forall|k: int| 0 <= k < library_slot(libs, id) ==> #[trigger] libs[k] != id,
        library_slot(libs, id) < libs.len() ==> libs[library_slot(libs, id)] == id,
    decreases libs.len(),
{
    if libs.len() > 0 {
        let front = libs.drop_last();
        lemma_library_slot(front, id);
        assert forall|k: int| 0 <= k < library_slot(libs, id) implies #[trigger] libs[k] != id by {
            if k < front.len() {
                assert(front[k] == libs[k]);
            }
        }
    }
}

/// `library_ids` names every library of the records, each once.
pub proof fn lemma_library_ids(recs: Seq<Collection>)
    ensures
        library_ids(recs).no_duplicates(),
        forall|i: int| 0 <= i < recs.len() ==> library_ids(recs).contains((#[trigger] recs[i]).libraryId),
        forall|k: int|
            #![trigger library_ids(recs)[k]]
            0 <= k < library_ids(recs).len() ==> exists|i: int|
                0 <= i < recs.len() && (#[trigger] recs[i]).libraryId == library_ids(recs)[k],
    decreases recs.len(),
{
    if recs.len() > 0 {
        let front = recs.drop_last();
        let before = library_ids(front);
        let all = library_ids(recs);
        lemma_library_ids(front);
        assert forall|i: int| 0 <= i < recs.len() implies all.contains((#[trigger] recs[i]).libraryId) by {
            if i < recs.len() - 1 {
                assert(front[i] == recs[i]);
                let k = choose|k: int| 0 <= k < before.len() && before[k] == recs[i].libraryId;
                assert(all[k] == recs[i].libraryId);
            } else if before.contains(recs.last().libraryId) {
            } else {
                assert(all[all.len() - 1] == recs[i].libraryId);
            }
        }
        assert forall|k: int| #![trigger all[k]] 0 <= k < all.len() implies exists|i: int|
            0 <= i < recs.len() && (#[trigger] recs[i]).libraryId == all[k] by {
            if k < before.len() {
                let i = choose|i: int| 0 <= i < front.len() && (#[trigger] front[i]).libraryId == before[k];
                assert(recs[i].libraryId == all[k]);
            } else {
                assert(recs[recs.len() - 1].libraryId == all[k]);
            }
        }
    }
}

/// A pass moves every record either into the forest or into what is kept.
pub proof fn lemma_scan_shape(attached: Seq<Collection>, recs: Seq<Collection>)
    ensures
        scan(attached, recs).0.len() + scan(attached, recs).1.len() == attached.len() + recs.len(),
        attached.len() <= scan(attached, recs).0.len(),
        scan(attached, recs).0.take(attached.len() as int) == attached,
        parents_first(attached) ==> parents_first(scan(attached, recs).0),
        forall|j: int|
            0 <= j < scan(attached, recs).1.len() ==> recs.contains(#[trigger] scan(attached, recs).1[j]),
        forall|j: int|
            attached.len() <= j < scan(attached, recs).0.len() ==> recs.contains(
                #[trigger] scan(attached, recs).0[j],
            ),
    decreases recs.len(),
{
    if recs.len() == 0 {
        assert(attached.take(attached.len() as int) =~= attached);
    } else {
        let front = recs.drop_last();
        let before = scan(attached, front);
        let after = scan(attached, recs);
        lemma_scan_shape(attached, front);
        assert(after.0.take(attached.len() as int) =~= before.0.take(attached.len() as int));
        if parents_first(attached) {
            assert forall|k: int| 0 <= k < after.0.len() implies resolves(
                after.0.take(k),
                #[trigger] after.0[k],
            ) by {
                if k < before.0.len() {
                    assert(after.0.take(k) =~= before.0.take(k));
                    assert(after.0[k] == before.0[k]);
                } else {
                    assert(after.0.take(k) =~= before.0);
                }
            }
        }
        assert forall|j: int| 0 <= j < after.1.len() implies recs.contains(#[trigger] after.1[j]) by {
            if j < before.1.len() {
                let i = choose|i: int| 0 <= i < front.len() && front[i] == before.1[j];
                assert(recs[i] == after.1[j]);
            } else {
                assert(recs[recs.len() - 1] == after.1[j]);
            }
        }
        assert forall|j: int| attached.len() <= j < after.0.len() implies recs.contains(
            #[trigger] after.0[j],
        ) by {
            if j < before.0.len() {
                let i = choose|i: int| 0 <= i < front.len() && front[i] == before.0[j];
                assert(recs[i] == after.0[j]);
            } else {
                assert(recs[recs.len() - 1] == after.0[j]);
            }
        }
    }
}

/// A forest laid out by the builder is well formed.
pub proof fn lemma_forest_wf(tree: &CollectionTree, libs: Seq<i64>, attached: Seq<Collection>)
    requires
        tree.is_forest_of(libs, attached),
        parents_first(attached),
        libs.no_duplicates(),
        forall|k: int| 0 <= k < attached.len() ==> libs.contains((#[trigger] attached[k]).libraryId),
    ensures
        tree.wf(),
{
    assert forall|e: int| 0 <= e < tree.edges@.len() implies (#[trigger] tree.edges@[e]).src
        < tree.edges@[e].dst < tree.nodes@.len() && tree.nodes@[tree.edges@[e].src as int].may_hold(
        &tree.nodes@[tree.edges@[e].dst as int],
    ) by {
        let child = attached[e];
        assert(tree.nodes@[libs.len() + e].value == CollectionNodeValue::Collection(child));
        assert(libs.contains(child.libraryId));
        lemma_library_slot(libs, child.libraryId);
        if child.parentCollectionId is None {
            let at = library_slot(libs, child.libraryId);
            assert(is_library_root(tree.nodes@[at], libs[at]));
        } else {
            let at = first_parent(attached.take(e), child);
            lemma_first_parent(attached.take(e), child);
            assert(resolves(attached.take(e), child));
            assert(attached.take(e)[at] == attached[at]);
            assert(tree.nodes@[libs.len() + at].value == CollectionNodeValue::Collection(attached[at]));
        }
    }
    assert forall|n: int|
        0 <= n < tree.nodes@.len() && (#[trigger] tree.nodes@[n]).value is Collection implies exists|
        e: int,
    |
        0 <= e < tree.edges@.len() && (#[trigger] tree.edges@[e]).dst == n by {
        if n < libs.len() {
            assert(is_library_root(tree.nodes@[n], libs[n]));
        } else {
            assert(tree.edges@[n - libs.len()].dst == n);
        }
    }
    assert forall|m: int, n: int| 0 <= m < n < tree.nodes@.len() implies !((#[trigger] tree.nodes@[m]).value matches CollectionNodeValue::Library(
        a,
    ) && (#[trigger] tree.nodes@[n]).value matches CollectionNodeValue::Library(b) && a.libraryId
        == b.libraryId) by {
        if n < libs.len() {
            assert(is_library_root(tree.nodes@[m], libs[m]));
            assert(is_library_root(tree.nodes@[n], libs[n]));
        }
    }
}

/// The far ends of the edges of `edges` that leave `node`, in order.
pub open spec fn edge_ends(edges: Seq<CollectionTreeEdge>, node: usize) -> Seq<usize>
    decreases edges.len(),
{
    if edges.len() == 0 {
        Seq::empty()
    } else {
        let before = edge_ends(edges.drop_last(), node);
        if edges.last().src == node {
            before.push(edges.last().dst)
        } else {
            before
        }
    }
}

} // verus!
