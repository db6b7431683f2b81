//! What holds of the forest builder on every set of records: which records
//! it attaches, when it completes the forest, and when it must give up.

use crate::collection_tree::{
    attach_order, first_parent, is_parent_of, lemma_first_parent, lemma_scan_shape, parents_first,
    resolves, scan, settle, unresolved,
};
use crate::data_structures::Collection;
use vstd::multiset::{group_multiset_axioms, Multiset};
use vstd::prelude::*;
use vstd::seq_lib::{to_multiset_build, to_multiset_contains};

verus! {

/// The records can be put in an order in which every record comes after its
/// parent: every parent named is a record of the same library, and no record
/// is its own ancestor.
pub open spec fn can_be_ordered(recs: Seq<Collection>) -> bool {
    exists|order: Seq<Collection>|
        #[trigger] order.to_multiset() == recs.to_multiset() && parents_first(order)
}

/// The records of `group` wait for each other: each names a parent, and
/// every record that could be that parent is in the group too. A record
/// whose parent is missing forms such a group alone; so do the records of a
/// cycle.
pub open spec fn is_stranded(recs: Seq<Collection>, group: Set<Collection>) -> bool {
    &&& exists|i: int| 0 <= i < recs.len() && group.contains(#[trigger] recs[i])
    &&& forall|i: int|
        0 <= i < recs.len() && group.contains(#[trigger] recs[i])
            ==> recs[i].parentCollectionId is Some
    &&& forall|i: int, j: int|
        0 <= i < recs.len() && 0 <= j < recs.len() && group.contains(#[trigger] recs[i])
            && is_parent_of(#[trigger] recs[j], recs[i]) ==> group.contains(recs[j])
}

/// A record that has a parent among `attached` resolves.
proof fn lemma_parent_resolves(attached: Seq<Collection>, at: int, rec: Collection)
    requires
        0 <= at < attached.len(),
        is_parent_of(attached[at], rec),
    ensures
        resolves(attached, rec),
{
    lemma_first_parent(attached, rec);
}

/// A pass keeps every record, with no more and no fewer copies: what is
/// attached and what is kept after it is what was attached and what was
/// waiting before it.
proof fn lemma_scan_keeps_all(attached: Seq<Collection>, recs: Seq<Collection>)
    ensures
        scan(attached, recs).0.to_multiset().add(scan(attached, recs).1.to_multiset())
            == attached.to_multiset().add(recs.to_multiset()),
    decreases recs.len(),
{
    broadcast use group_multiset_axioms;

    let after = scan(attached, recs);
    let total = after.0.to_multiset().add(after.1.to_multiset());
    let given = attached.to_multiset().add(recs.to_multiset());
    if recs.len() == 0 {
        assert forall|x: Collection| total.count(x) == given.count(x) by {
            to_multiset_contains(after.1, x);
            to_multiset_contains(recs, x);
        }
    } else {
        let front = recs.drop_last();
        let last = recs.last();
        let before = scan(attached, front);
        lemma_scan_keeps_all(attached, front);
        assert(recs =~= front.push(last));
        to_multiset_build(front, last);
        to_multiset_build(before.0, last);
        to_multiset_build(before.1, last);
        assert forall|x: Collection| total.count(x) == given.count(x) by {
            assert(before.0.to_multiset().add(before.1.to_multiset()).count(x)
                == attached.to_multiset().add(front.to_multiset()).count(x));
            assert(recs.to_multiset().count(x) == front.to_multiset().count(x)
                + Multiset::singleton(last).count(x));
            if resolves(before.0, last) {
                assert(after.0.to_multiset().count(x) == before.0.to_multiset().count(x)
                    + Multiset::singleton(last).count(x));
            } else {
                assert(after.1.to_multiset().count(x) == before.1.to_multiset().count(x)
                    + Multiset::singleton(last).count(x));
            }
        }
    }
    assert(total =~= given);
}

/// A pass that keeps as many records as it was given has attached none: no
/// record resolved.
proof fn lemma_scan_stuck(attached: Seq<Collection>, recs: Seq<Collection>)
    requires
        scan(attached, recs).1.len() == recs.len(),
    ensures
        scan(attached, recs) == (attached, recs),
        forall|i: int| 0 <= i < recs.len() ==> !resolves(attached, #[trigger] recs[i]),
    decreases recs.len(),
{
    if recs.len() == 0 {
        assert(recs =~= Seq::empty());
    } else {
        let front = recs.drop_last();
        lemma_scan_shape(attached, front);
        lemma_scan_stuck(attached, front);
        assert(recs =~= front.push(recs.last()));
        assert forall|i: int| 0 <= i < recs.len() implies !resolves(attached, #[trigger] recs[i]) by {
            if i < front.len() {
                assert(front[i] == recs[i]);
            }
        }
    }
}

/// What the passes leave: the collections attached before stay in front,
/// in an order that puts parents first if it did before; no record is lost
/// or doubled; and none of the records left over resolves.
proof fn lemma_settle(attached: Seq<Collection>, recs: Seq<Collection>)
    ensures
        attached.len() <= settle(attached, recs).0.len(),
        settle(attached, recs).0.take(attached.len() as int) == attached,
        parents_first(attached) ==> parents_first(settle(attached, recs).0),
        settle(attached, recs).0.to_multiset().add(settle(attached, recs).1.to_multiset())
            == attached.to_multiset().add(recs.to_multiset()),
        forall|j: int|
            0 <= j < settle(attached, recs).1.len() ==> !resolves(
                settle(attached, recs).0,
                #[trigger] settle(attached, recs).1[j],
            ),
    decreases recs.len(),
{
    let pass = scan(attached, recs);
    lemma_scan_shape(attached, recs);
    lemma_scan_keeps_all(attached, recs);
    if 0 < pass.1.len() < recs.len() {
        lemma_settle(pass.0, pass.1);
        let end = settle(pass.0, pass.1);
        assert(end.0.take(attached.len() as int) =~= end.0.take(pass.0.len() as int).take(
            attached.len() as int,
        ));
        assert(end.0.to_multiset().add(end.1.to_multiset()) =~= attached.to_multiset().add(
            recs.to_multiset(),
        ));
    } else if pass.1.len() == recs.len() {
        lemma_scan_stuck(attached, recs);
    }
}

/// Every record is accounted for, once: the attached collections and the
/// records left over are together the records given. The attached
/// collections stand parents first, and no record left over resolves.
pub proof fn lemma_build_keeps_all(recs: Seq<Collection>)
    ensures
        attach_order(recs).to_multiset().add(unresolved(recs).to_multiset()) == recs.to_multiset(),
        attach_order(recs).len() + unresolved(recs).len() == recs.len(),
        parents_first(attach_order(recs)),
        forall|j: int|
            0 <= j < unresolved(recs).len() ==> !resolves(
                attach_order(recs),
                #[trigger] unresolved(recs)[j],
            ),
        forall|x: Collection|
            recs.contains(x) <==> attach_order(recs).contains(x) || unresolved(recs).contains(x),
{
    broadcast use group_multiset_axioms;

    let none = Seq::<Collection>::empty();
    lemma_settle(none, recs);
    assert(attach_order(recs).to_multiset().add(unresolved(recs).to_multiset())
        =~= recs.to_multiset()) by {
        assert forall|x: Collection| none.to_multiset().count(x) == 0 by {
            to_multiset_contains(none, x);
        }
    }
    attach_order(recs).to_multiset_ensures();
    unresolved(recs).to_multiset_ensures();
    recs.to_multiset_ensures();
    assert forall|x: Collection|
        recs.contains(x) <==> attach_order(recs).contains(x) || unresolved(recs).contains(x) by {
        to_multiset_contains(recs, x);
        to_multiset_contains(attach_order(recs), x);
        to_multiset_contains(unresolved(recs), x);
    }
}

/// In an order that puts parents first, no collection before position `upto`
/// is among records of which none resolves against `attached`, as long as
/// every collection of the order is attached or among those records.
proof fn lemma_none_left_before(
    order: Seq<Collection>,
    attached: Seq<Collection>,
    left: Seq<Collection>,
    upto: int,
)
    requires
        parents_first(order),
        0 <= upto <= order.len(),
        forall|k: int|
            0 <= k < order.len() ==> attached.contains(#[trigger] order[k]) || left.contains(order[k]),
        forall|j: int| 0 <= j < left.len() ==> !resolves(attached, #[trigger] left[j]),
    ensures
        forall|k: int| 0 <= k < upto ==> !left.contains(#[trigger] order[k]),
    decreases upto,
{
    if upto > 0 {
        lemma_none_left_before(order, attached, left, upto - 1);
        let rec = order[upto - 1];
        if left.contains(rec) {
            let before = order.take(upto - 1);
            assert(resolves(before, rec));
            lemma_first_parent(before, rec);
            let at = first_parent(before, rec);
            assert(before[at] == order[at]);
            assert(!left.contains(order[at]));
            let a = choose|a: int| 0 <= a < attached.len() && attached[a] == order[at];
            lemma_parent_resolves(attached, a, rec);
            assert(false);
        }
    }
}

/// Records that can be put parents first are all attached: the builder
/// leaves none over, and the collections of the forest are the records
/// given, each once.
pub proof fn lemma_ordered_records_build(recs: Seq<Collection>, order: Seq<Collection>)
    requires
        order.to_multiset() == recs.to_multiset(),
        parents_first(order),
    ensures
        unresolved(recs).len() == 0,
        attach_order(recs).to_multiset() == recs.to_multiset(),
{
    broadcast use group_multiset_axioms;

    let attached = attach_order(recs);
    let left = unresolved(recs);
    lemma_build_keeps_all(recs);
    assert forall|k: int| 0 <= k < order.len() implies attached.contains(#[trigger] order[k])
        || left.contains(order[k]) by {
        to_multiset_contains(order, order[k]);
        to_multiset_contains(recs, order[k]);
    }
    lemma_none_left_before(order, attached, left, order.len() as int);
    if left.len() > 0 {
        assert(left.contains(left[0]));
        to_multiset_contains(order, left[0]);
        to_multiset_contains(recs, left[0]);
        let k = choose|k: int| 0 <= k < order.len() && order[k] == left[0];
        assert(!left.contains(order[k]));
    }
    assert(left =~= Seq::empty());
    assert(attached.to_multiset() =~= recs.to_multiset()) by {
        assert forall|x: Collection| left.to_multiset().count(x) == 0 by {
            to_multiset_contains(left, x);
        }
    }
}

/// The builder completes the forest exactly for the records that can be put
/// parents first.
pub proof fn lemma_builds_iff_ordered(recs: Seq<Collection>)
    ensures
        unresolved(recs).len() == 0 <==> can_be_ordered(recs),
{
    broadcast use group_multiset_axioms;

    if can_be_ordered(recs) {
        let order = choose|order: Seq<Collection>|
            #[trigger] order.to_multiset() == recs.to_multiset() && parents_first(order);
        lemma_ordered_records_build(recs, order);
    }
    if unresolved(recs).len() == 0 {
        lemma_build_keeps_all(recs);
        let left = unresolved(recs);
        assert(attach_order(recs).to_multiset() =~= recs.to_multiset()) by {
            assert forall|x: Collection| left.to_multiset().count(x) == 0 by {
                to_multiset_contains(left, x);
            }
        }
    }
}

/// No collection of a stranded group is among the first `upto` collections
/// of an order that puts parents first and holds records of `recs` only.
proof fn lemma_group_not_before(
    recs: Seq<Collection>,
    group: Set<Collection>,
    order: Seq<Collection>,
    upto: int,
)
    requires
        is_stranded(recs, group),
        parents_first(order),
        0 <= upto <= order.len(),
        forall|k: int| 0 <= k < order.len() ==> recs.contains(#[trigger] order[k]),
    ensures
        forall|k: int| 0 <= k < upto ==> !group.contains(#[trigger] order[k]),
    decreases upto,
{
    if upto > 0 {
        lemma_group_not_before(recs, group, order, upto - 1);
        let rec = order[upto - 1];
        if group.contains(rec) {
            let i = choose|i: int| 0 <= i < recs.len() && recs[i] == rec;
            let before = order.take(upto - 1);
            assert(resolves(before, rec));
            lemma_first_parent(before, rec);
            let at = first_parent(before, rec);
            assert(before[at] == order[at]);
            assert(recs.contains(order[at]));
            let j = choose|j: int| 0 <= j < recs.len() && recs[j] == order[at];
            assert(is_parent_of(recs[j], recs[i]));
            assert(group.contains(recs[j]));
            assert(false);
        }
    }
}

/// Records that wait for each other are never attached: the builder gives
/// up, and every one of them is among the records left over.
pub proof fn lemma_stranded_records_fail(recs: Seq<Collection>, group: Set<Collection>)
    requires
        is_stranded(recs, group),
    ensures
        unresolved(recs).len() > 0,
        forall|i: int|
            0 <= i < recs.len() && group.contains(#[trigger] recs[i]) ==> unresolved(recs).contains(
                recs[i],
            ),
{
    let attached = attach_order(recs);
    lemma_build_keeps_all(recs);
    assert forall|k: int| 0 <= k < attached.len() implies recs.contains(#[trigger] attached[k]) by {
        assert(attached.contains(attached[k]));
    }
    lemma_group_not_before(recs, group, attached, attached.len() as int);
    assert forall|i: int| 0 <= i < recs.len() && group.contains(#[trigger] recs[i]) implies unresolved(
        recs,
    ).contains(recs[i]) by {
        assert(recs.contains(recs[i]));
        if attached.contains(recs[i]) {
            let k = choose|k: int| 0 <= k < attached.len() && attached[k] == recs[i];
            assert(!group.contains(attached[k]));
        }
    }
    let i = choose|i: int| 0 <= i < recs.len() && group.contains(#[trigger] recs[i]);
    assert(unresolved(recs).contains(recs[i]));
}

/// A record whose parent is no record of its library is left over.
pub proof fn lemma_dangling_parent_fails(recs: Seq<Collection>, i: int)
    requires
        0 <= i < recs.len(),
        recs[i].parentCollectionId is Some,
        forall|j: int| 0 <= j < recs.len() ==> !is_parent_of(#[trigger] recs[j], recs[i]),
    ensures
        unresolved(recs).contains(recs[i]),
        !can_be_ordered(recs),
{
    let group = Set::<Collection>::empty().insert(recs[i]);
    assert(group.contains(recs[i]));
    lemma_stranded_records_fail(recs, group);
    lemma_builds_iff_ordered(recs);
}

} // verus!
