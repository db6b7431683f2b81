use zotero_tui::collection_tree::{
    BuildError, CollectionNode, CollectionNodeValue, CollectionTree, CollectionTreeEdge,
};
use zotero_tui::data_structures::Collection;
use zotero_tui::ui::{collection_rows, PaneRow};

fn col(id: i64, parent: Option<i64>, lib: i64) -> Collection {
    Collection {
        collectionId: id,
        collectionName: format!("c{}", id),
        parentCollectionId: parent,
        libraryId: lib,
    }
}

fn collection_ids(tree: &CollectionTree) -> Vec<i64> {
    let mut ids = Vec::new();
    for node in &tree.nodes {
        if let CollectionNodeValue::Collection(c) = &node.value {
            ids.push(c.collectionId);
        }
    }
    ids
}

fn parent_of(tree: &CollectionTree, node: usize) -> Vec<usize> {
    tree.edges.iter().filter(|e| e.dst == node).map(|e| e.src).collect()
}

#[test]
fn test_build_collection_tree() {
    let mut tree = CollectionTree::new();
    let mut records = vec![col(3, Some(2), 1), col(2, Some(1), 1), col(1, None, 1), col(7, None, 4)];
    let built = tree.build_collection_tree(&mut records);
    assert_eq!(built, Ok(()));
    let roots = tree.get_library_nodes();
    println!("{:?}", roots);
    assert_eq!(roots, vec![0, 1]);
    assert!(records.is_empty());
}

#[test]
fn new_tree_is_empty() {
    let tree = CollectionTree::new();
    assert!(tree.nodes.is_empty());
    assert!(tree.edges.is_empty());
    assert!(tree.get_library_nodes().is_empty());
    assert_eq!(tree.get_collection(1), None);
    assert_eq!(tree.get_library(1), None);
    assert!(tree.get_node_children(0).is_empty());
}

#[test]
fn empty_record_set_builds_empty_forest() {
    let mut tree = CollectionTree::new();
    let mut records: Vec<Collection> = Vec::new();
    assert_eq!(tree.build_collection_tree(&mut records), Ok(()));
    assert!(tree.nodes.is_empty());
    assert!(tree.edges.is_empty());
}

#[test]
fn one_root_per_library_in_order_of_first_use() {
    let mut tree = CollectionTree::new();
    let mut records = vec![col(1, None, 9), col(2, None, 3), col(3, None, 9), col(4, None, 5)];
    assert_eq!(tree.build_collection_tree(&mut records), Ok(()));
    let roots = tree.get_library_nodes();
    assert_eq!(roots, vec![0, 1, 2]);
    let mut libs = Vec::new();
    for r in &roots {
        match &tree.nodes[*r].value {
            CollectionNodeValue::Library(l) => {
                libs.push(l.libraryId);
                assert_eq!(l.libraryName, "Test");
            }
            CollectionNodeValue::Collection(_) => panic!("a root must be a library"),
        }
        assert!(!tree.nodes[*r].selected);
    }
    assert_eq!(libs, vec![9, 3, 5]);
    assert_eq!(tree.get_library(3), Some(1));
    assert_eq!(tree.get_library(4), None);
}

#[test]
fn children_before_parents_need_more_passes() {
    let mut tree = CollectionTree::new();
    let mut records = vec![col(3, Some(2), 1), col(2, Some(1), 1), col(1, None, 1)];
    assert_eq!(tree.build_collection_tree(&mut records), Ok(()));
    assert!(records.is_empty());
    // the first pass attaches 1, the second 2, the third 3
    assert_eq!(collection_ids(&tree), vec![1, 2, 3]);
    assert_eq!(
        tree.edges,
        vec![
            CollectionTreeEdge { src: 0, dst: 1 },
            CollectionTreeEdge { src: 1, dst: 2 },
            CollectionTreeEdge { src: 2, dst: 3 },
        ]
    );
}

#[test]
fn parents_before_children_attach_in_one_pass() {
    let mut tree = CollectionTree::new();
    let mut records = vec![col(1, None, 1), col(2, Some(1), 1), col(3, Some(2), 1), col(4, Some(1), 1)];
    assert_eq!(tree.build_collection_tree(&mut records), Ok(()));
    assert_eq!(collection_ids(&tree), vec![1, 2, 3, 4]);
    assert_eq!(tree.get_node_children(0), vec![1]);
    assert_eq!(tree.get_node_children(1), vec![2, 4]);
    assert_eq!(tree.get_node_children(2), vec![3]);
    assert!(tree.get_node_children(3).is_empty());
    assert_eq!(tree.get_collection(3), Some(3));
    assert_eq!(tree.get_collection(5), None);
}

#[test]
fn every_record_is_in_exactly_one_node() {
    let mut tree = CollectionTree::new();
    let given = vec![
        col(5, Some(4), 2),
        col(1, None, 1),
        col(4, None, 2),
        col(2, Some(1), 1),
        col(6, Some(5), 2),
        col(3, Some(2), 1),
    ];
    let mut records: Vec<Collection> = given.iter().map(|c| c.clone()).collect();
    assert_eq!(tree.build_collection_tree(&mut records), Ok(()));
    assert!(records.is_empty());
    let mut ids = collection_ids(&tree);
    assert_eq!(ids.len(), given.len());
    ids.sort();
    assert_eq!(ids, vec![1, 2, 3, 4, 5, 6]);
    // each collection node equals its record and hangs below exactly one node
    for (n, node) in tree.nodes.iter().enumerate() {
        match &node.value {
            CollectionNodeValue::Collection(c) => {
                assert!(given.iter().any(|g| g == c));
                let parents = parent_of(&tree, n);
                assert_eq!(parents.len(), 1);
                assert!(parents[0] < n);
                match (&tree.nodes[parents[0]].value, c.parentCollectionId) {
                    (CollectionNodeValue::Library(l), None) => assert_eq!(l.libraryId, c.libraryId),
                    (CollectionNodeValue::Collection(p), Some(pid)) => {
                        assert_eq!(p.collectionId, pid);
                        assert_eq!(p.libraryId, c.libraryId);
                    }
                    _ => panic!("a collection hangs below the wrong kind of node"),
                }
            }
            CollectionNodeValue::Library(_) => assert!(parent_of(&tree, n).is_empty()),
        }
    }
}

#[test]
fn dangling_parent_is_reported_and_the_rest_is_built() {
    let mut tree = CollectionTree::new();
    let mut records = vec![col(10, None, 1), col(11, Some(10), 1), col(12, Some(99), 1)];
    let built = tree.build_collection_tree(&mut records);
    assert_eq!(built, Err(BuildError::UnresolvedParent { collection_id: 12 }));
    assert_eq!(records, vec![col(12, Some(99), 1)]);
    assert_eq!(tree.get_library_nodes(), vec![0]);
    assert_eq!(collection_ids(&tree), vec![10, 11]);
    assert_eq!(tree.get_node_children(0), vec![1]);
    assert_eq!(tree.get_node_children(1), vec![2]);
    assert_eq!(tree.get_collection(12), None);
}

#[test]
fn cycle_is_reported_and_not_looped_on() {
    let mut tree = CollectionTree::new();
    let mut records = vec![col(1, Some(2), 1), col(2, Some(1), 1), col(3, None, 1)];
    let built = tree.build_collection_tree(&mut records);
    assert_eq!(built, Err(BuildError::UnresolvedParent { collection_id: 1 }));
    assert_eq!(records, vec![col(1, Some(2), 1), col(2, Some(1), 1)]);
    assert_eq!(collection_ids(&tree), vec![3]);
}

#[test]
fn self_parent_is_reported() {
    let mut tree = CollectionTree::new();
    let mut records = vec![col(1, Some(1), 1)];
    assert_eq!(
        tree.build_collection_tree(&mut records),
        Err(BuildError::UnresolvedParent { collection_id: 1 })
    );
    assert_eq!(tree.nodes.len(), 1);
    assert!(tree.edges.is_empty());
}

#[test]
fn parent_in_another_library_does_not_resolve() {
    let mut tree = CollectionTree::new();
    let mut records = vec![col(1, None, 1), col(2, Some(1), 2)];
    assert_eq!(
        tree.build_collection_tree(&mut records),
        Err(BuildError::UnresolvedParent { collection_id: 2 })
    );
    assert_eq!(records, vec![col(2, Some(1), 2)]);
    assert_eq!(tree.get_library_nodes(), vec![0, 1]);
    assert_eq!(collection_ids(&tree), vec![1]);
}

#[test]
fn descendants_of_a_dangling_record_are_left_too() {
    let mut tree = CollectionTree::new();
    let mut records = vec![col(3, Some(2), 1), col(1, None, 1), col(2, Some(50), 1)];
    assert_eq!(
        tree.build_collection_tree(&mut records),
        Err(BuildError::UnresolvedParent { collection_id: 3 })
    );
    assert_eq!(records, vec![col(3, Some(2), 1), col(2, Some(50), 1)]);
    assert_eq!(collection_ids(&tree), vec![1]);
}

#[test]
fn node_from_collection_is_not_selected() {
    let node = CollectionNode::from(col(4, Some(1), 2));
    assert_eq!(node.value, CollectionNodeValue::Collection(col(4, Some(1), 2)));
    assert!(!node.selected);
}

#[test]
fn pane_rows_show_two_levels_below_each_library() {
    let mut tree = CollectionTree::new();
    let mut records = vec![
        col(1, None, 1),
        col(2, Some(1), 1),
        col(3, Some(2), 1),
        col(4, None, 2),
        col(5, None, 1),
    ];
    assert_eq!(tree.build_collection_tree(&mut records), Ok(()));
    // nodes: 0 = library 1, 1 = library 2, 2..6 = collections 1, 2, 3, 4, 5
    let rows = collection_rows(&tree);
    assert_eq!(
        rows,
        vec![
            PaneRow { node: 0, depth: 0 },
            PaneRow { node: 2, depth: 1 },
            PaneRow { node: 3, depth: 2 },
            PaneRow { node: 6, depth: 1 },
            PaneRow { node: 1, depth: 0 },
            PaneRow { node: 5, depth: 1 },
        ]
    );
}
