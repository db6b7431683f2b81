//! The order of the documents in the view: by the text of a field, then by
//! document identifier, then by place in the index, rising or falling.

use crate::app::SortDirection;
use crate::data_structures::Document;
use crate::text::{
    lemma_lex_asymmetric, lemma_lex_irreflexive, lemma_lex_total, lemma_lex_transitive, lex_lt,
    str_lt,
};
use crate::ui::UIBlockType;
use vstd::prelude::*;

verus! {

/// The document that the handle `h` stands for.
pub open spec fn doc_at(docs: Seq<Document>, h: usize) -> Document {
    docs[h as int]
}

/// Every handle of `items` stands for a document of `docs`.
pub open spec fn handles_within(docs: Seq<Document>, items: Seq<usize>) -> bool {
    forall|k: int| 0 <= k < items.len() ==> (#[trigger] items[k]) < docs.len()
}

/// Every document of `docs` has a publication date that holds a year.
pub open spec fn all_wf(docs: Seq<Document>) -> bool {
    forall|d: int| 0 <= d < docs.len() ==> (#[trigger] docs[d]).wf()
}

/// The text that the document `h` is ordered by: that of the field, or
/// nothing where the order is the natural one.
pub open spec fn key_text(docs: Seq<Document>, field: Option<UIBlockType>, h: usize) -> Seq<char> {
    match field {
        Some(ty) => doc_at(docs, h).sort_text(ty),
        None => Seq::empty(),
    }
}

/// The natural order: by document identifier, and by place in the index
/// where two documents share one.
pub open spec fn natural_before(docs: Seq<Document>, a: usize, b: usize) -> bool {
    doc_at(docs, a).item_data.itemId < doc_at(docs, b).item_data.itemId || (doc_at(
        docs,
        a,
    ).item_data.itemId == doc_at(docs, b).item_data.itemId && a < b)
}

/// `a` comes before `b` in the rising order of `field`: by text, and in the
/// natural order where the texts are the same.
pub open spec fn rises(docs: Seq<Document>, field: Option<UIBlockType>, a: usize, b: usize) -> bool {
    lex_lt(key_text(docs, field, a), key_text(docs, field, b)) || (key_text(docs, field, a)
        == key_text(docs, field, b) && natural_before(docs, a, b))
}

/// `a` comes before `b` in the order of `field` and `dir`. The falling order
/// is the rising one turned round.
pub open spec fn precedes(
    docs: Seq<Document>,
    field: Option<UIBlockType>,
    dir: SortDirection,
    a: usize,
    b: usize,
) -> bool {
    match dir {
        SortDirection::Up => rises(docs, field, a, b),
        SortDirection::Down => rises(docs, field, b, a),
    }
}

/// The handles stand in the order of `field` and `dir`.
pub open spec fn is_sorted(
    docs: Seq<Document>,
    field: Option<UIBlockType>,
    dir: SortDirection,
    items: Seq<usize>,
) -> bool {
    forall|i: int, j: int|
        0 <= i < j < items.len() ==> precedes(docs, field, dir, #[trigger] items[i], #[trigger] items[j])
}

/// The two views hold the same handles, each once.
pub open spec fn same_members(from: Seq<usize>, to: Seq<usize>) -> bool {
    &&& to.len() == from.len()
    &&& to.no_duplicates()
    &&& forall|h: usize| to.contains(h) <==> from.contains(h)
}

/// `to` is `from` put in the order of `field` and `dir`: the same handles,
/// each once, sorted.
pub open spec fn is_arranged(
    docs: Seq<Document>,
    field: Option<UIBlockType>,
    dir: SortDirection,
    from: Seq<usize>,
    to: Seq<usize>,
) -> bool {
    same_members(from, to) && is_sorted(docs, field, dir, to)
}

/// Of two different handles one comes before the other.
pub proof fn lemma_precedes_total(
    docs: Seq<Document>,
    field: Option<UIBlockType>,
    dir: SortDirection,
    a: usize,
    b: usize,
)
    requires
        a != b,
    ensures
        precedes(docs, field, dir, a, b) || precedes(docs, field, dir, b, a),
{
    lemma_lex_total(key_text(docs, field, a), key_text(docs, field, b));
}

/// No handle comes before itself, and no two come before each other.
pub proof fn lemma_precedes_asymmetric(
    docs: Seq<Document>,
    field: Option<UIBlockType>,
    dir: SortDirection,
    a: usize,
    b: usize,
)
    ensures
        !(precedes(docs, field, dir, a, b) && precedes(docs, field, dir, b, a)),
{
    lemma_lex_asymmetric(key_text(docs, field, a), key_text(docs, field, b));
    lemma_lex_irreflexive(key_text(docs, field, a));
}

/// The order is transitive.
pub proof fn lemma_precedes_transitive(
    docs: Seq<Document>,
    field: Option<UIBlockType>,
    dir: SortDirection,
    a: usize,
    b: usize,
    c: usize,
)
    requires
        precedes(docs, field, dir, a, b),
        precedes(docs, field, dir, b, c),
    ensures
        precedes(docs, field, dir, a, c),
{
    let ka = key_text(docs, field, a);
    let kb = key_text(docs, field, b);
    let kc = key_text(docs, field, c);
    match dir {
        SortDirection::Up => {
            if lex_lt(ka, kb) && lex_lt(kb, kc) {
                lemma_lex_transitive(ka, kb, kc);
            }
        },
        SortDirection::Down => {
            if lex_lt(kc, kb) && lex_lt(kb, ka) {
                lemma_lex_transitive(kc, kb, ka);
            }
        },
    }
}

/// Two sorted views with the same members are the same view: the order
/// leaves no choice.
pub proof fn lemma_sorted_views_equal(
    docs: Seq<Document>,
    field: Option<UIBlockType>,
    dir: SortDirection,
    a: Seq<usize>,
    b: Seq<usize>,
)
    requires
        is_sorted(docs, field, dir, a),
        is_sorted(docs, field, dir, b),
        a.len() == b.len(),
        forall|h: usize| a.contains(h) <==> b.contains(h),
    ensures
        a == b,
    decreases a.len(),
{
    if a.len() == 0 {
        assert(a =~= b);
    } else {
        assert(a.contains(a[0]));
        assert(b.contains(b[0]));
        let j = choose|j: int| 0 <= j < b.len() && b[j] == a[0];
        let i = choose|i: int| 0 <= i < a.len() && a[i] == b[0];
        if j > 0 && i > 0 {
            assert(precedes(docs, field, dir, b[0], b[j]));
            assert(precedes(docs, field, dir, a[0], a[i]));
            lemma_precedes_asymmetric(docs, field, dir, a[0], b[0]);
        }
        assert(a[0] == b[0]);
        let ta = a.drop_first();
        let tb = b.drop_first();
        assert forall|h: usize| ta.contains(h) <==> tb.contains(h) by {
            if ta.contains(h) {
                let k = choose|k: int| 0 <= k < ta.len() && ta[k] == h;
                assert(a[k + 1] == h);
                assert(precedes(docs, field, dir, a[0], a[k + 1]));
                lemma_precedes_asymmetric(docs, field, dir, a[0], a[0]);
                assert(b.contains(h));
                let m = choose|m: int| 0 <= m < b.len() && b[m] == h;
                assert(tb[m - 1] == h);
            }
            if tb.contains(h) {
                let k = choose|k: int| 0 <= k < tb.len() && tb[k] == h;
                assert(b[k + 1] == h);
                assert(precedes(docs, field, dir, b[0], b[k + 1]));
                lemma_precedes_asymmetric(docs, field, dir, b[0], b[0]);
                assert(a.contains(h));
                let m = choose|m: int| 0 <= m < a.len() && a[m] == h;
                assert(ta[m - 1] == h);
            }
        }
        assert forall|i: int, j: int| 0 <= i < j < ta.len() implies precedes(
            docs,
            field,
            dir,
            #[trigger] ta[i],
            #[trigger] ta[j],
        ) by {
            assert(precedes(docs, field, dir, a[i + 1], a[j + 1]));
        }
        assert forall|i: int, j: int| 0 <= i < j < tb.len() implies precedes(
            docs,
            field,
            dir,
            #[trigger] tb[i],
            #[trigger] tb[j],
        ) by {
            assert(precedes(docs, field, dir, b[i + 1], b[j + 1]));
        }
        lemma_sorted_views_equal(docs, field, dir, ta, tb);
        assert(a =~= seq![a[0]] + ta);
        assert(b =~= seq![b[0]] + tb);
    }
}

/// Putting a view in order has one result only.
pub proof fn lemma_arrangement_unique(
    docs: Seq<Document>,
    field: Option<UIBlockType>,
    dir: SortDirection,
    from: Seq<usize>,
    a: Seq<usize>,
    b: Seq<usize>,
)
    requires
        is_arranged(docs, field, dir, from, a),
        is_arranged(docs, field, dir, from, b),
    ensures
        a == b,
{
    lemma_sorted_views_equal(docs, field, dir, a, b);
}

/// What a view holds after one more handle is put in.
pub proof fn lemma_insert_members(s: Seq<usize>, p: int, x: usize)
    requires
        0 <= p <= s.len(),
    ensures
        forall|h: usize| s.insert(p, x).contains(h) <==> (h == x || s.contains(h)),
        s.no_duplicates() && !s.contains(x) ==> s.insert(p, x).no_duplicates(),
{
    let t = s.insert(p, x);
    assert forall|h: usize| t.contains(h) <==> (h == x || s.contains(h)) by {
        if t.contains(h) {
            let k = choose|k: int| 0 <= k < t.len() && t[k] == h;
            if k < p {
                assert(s[k] == h);
            } else if k > p {
                assert(s[k - 1] == h);
            }
        }
        if h == x {
            assert(t[p] == h);
        }
        if s.contains(h) {
            let k = choose|k: int| 0 <= k < s.len() && s[k] == h;
            if k < p {
                assert(t[k] == h);
            } else {
                assert(t[k + 1] == h);
            }
        }
    }
    if s.no_duplicates() && !s.contains(x) {
        assert forall|i: int, j: int| 0 <= i < t.len() && 0 <= j < t.len() && i != j implies t[i]
            != t[j] by {
            let a = if i < p {
                i
            } else {
                i - 1
            };
            let b = if j < p {
                j
            } else {
                j - 1
            };
            if i != p && j != p {
                assert(t[i] == s[a] && t[j] == s[b]);
            } else if i == p {
                assert(t[j] == s[b]);
                assert(s.contains(s[b]));
            } else {
                assert(t[i] == s[a]);
                assert(s.contains(s[a]));
            }
        }
    }
}

/// Tells whether the document `a` comes before the document `b` in the
/// rising order of `field`.
fn comes_first(docs: &Vec<Document>, field: Option<UIBlockType>, a: usize, b: usize) -> (r: bool)
    requires
        a < docs@.len(),
        b < docs@.len(),
        all_wf(docs@),
    ensures
        r == rises(docs@, field, a, b),
{
    let first = &docs[a];
    let second = &docs[b];
    let natural = first.item_data.itemId < second.item_data.itemId || (first.item_data.itemId
        == second.item_data.itemId && a < b);
    match field {
        Some(ty) => {
            let left = first.get_cmp_str_for_block_type(ty);
            let right = second.get_cmp_str_for_block_type(ty);
            proof {
                lemma_lex_total(left@, right@);
                lemma_lex_asymmetric(left@, right@);
                lemma_lex_irreflexive(left@);
            }
            if str_lt(left, right) {
                true
            } else if str_lt(right, left) {
                false
            } else {
                natural
            }
        },
        None => {
            proof {
                lemma_lex_irreflexive(Seq::<char>::empty());
            }
            natural
        },
    }
}

/// Tells whether the document `a` comes before the document `b` in the
/// order of `field` and `dir`.
pub fn entry_precedes(
    docs: &Vec<Document>,
    field: Option<UIBlockType>,
    dir: SortDirection,
    a: usize,
    b: usize,
) -> (r: bool)
    requires
        a < docs@.len(),
        b < docs@.len(),
        all_wf(docs@),
    ensures
        r == precedes(docs@, field, dir, a, b),
{
    match dir {
        SortDirection::Up => comes_first(docs, field, a, b),
        SortDirection::Down => comes_first(docs, field, b, a),
    }
}

/// The place at which `x` goes into the sorted view `out`.
fn insertion_place(
    docs: &Vec<Document>,
    out: &Vec<usize>,
    field: Option<UIBlockType>,
    dir: SortDirection,
    x: usize,
) -> (p: usize)
    requires
        x < docs@.len(),
        all_wf(docs@),
        handles_within(docs@, out@),
        is_sorted(docs@, field, dir, out@),
        !out@.contains(x),
    ensures
        p <= out@.len(),
        forall|k: int| 0 <= k < p ==> precedes(docs@, field, dir, #[trigger] out@[k], x),
        forall|k: int| p <= k < out@.len() ==> precedes(docs@, field, dir, x, #[trigger] out@[k]),
{
    let mut lo: usize = 0;
    let mut hi: usize = out.len();
    while lo < hi
        invariant
            lo <= hi <= out@.len(),
            x < docs@.len(),
            all_wf(docs@),
            handles_within(docs@, out@),
            is_sorted(docs@, field, dir, out@),
            !out@.contains(x),
            forall|k: int| 0 <= k < lo ==> precedes(docs@, field, dir, #[trigger] out@[k], x),
            forall|k: int| hi <= k < out@.len() ==> precedes(docs@, field, dir, x, #[trigger] out@[k]),
        decreases hi - lo,
    {
        let mid = lo + (hi - lo) / 2;
        let at = out[mid];
        if entry_precedes(docs, field, dir, x, at) {
            proof {
                assert forall|k: int| mid <= k < out@.len() implies precedes(
                    docs@,
                    field,
                    dir,
                    x,
                    #[trigger] out@[k],
                ) by {
                    if k > mid {
                        assert(precedes(docs@, field, dir, out@[mid as int], out@[k]));
                        lemma_precedes_transitive(docs@, field, dir, x, at, out@[k]);
                    }
                }
            }
            hi = mid;
        } else {
            proof {
                assert(out@.contains(at));
                lemma_precedes_total(docs@, field, dir, x, at);
                assert forall|k: int| 0 <= k < mid + 1 implies precedes(
                    docs@,
                    field,
                    dir,
                    #[trigger] out@[k],
                    x,
                ) by {
                    if k < mid {
                        assert(precedes(docs@, field, dir, out@[k], out@[mid as int]));
                        lemma_precedes_transitive(docs@, field, dir, out@[k], at, x);
                    }
                }
            }
            lo = mid + 1;
        }
    }
    lo
}

/// The view `items` put in the order of `field` and `dir`.
pub fn sort_entries(
    docs: &Vec<Document>,
    items: &Vec<usize>,
    field: Option<UIBlockType>,
    dir: SortDirection,
) -> (out: Vec<usize>)
    requires
        handles_within(docs@, items@),
        items@.no_duplicates(),
        all_wf(docs@),
    ensures
        is_arranged(docs@, field, dir, items@, out@),
        handles_within(docs@, out@),
{
    let mut out: Vec<usize> = Vec::new();
    let mut i: usize = 0;
    while i < items.len()
        invariant
            i <= items@.len(),
            handles_within(docs@, items@),
            items@.no_duplicates(),
            all_wf(docs@),
            out@.len() == i,
            out@.no_duplicates(),
            forall|h: usize| out@.contains(h) <==> items@.take(i as int).contains(h),
            is_sorted(docs@, field, dir, out@),
            handles_within(docs@, out@),
        decreases items@.len() - i,
    {
        let x = items[i];
        proof {
            if out@.contains(x) {
                let k = choose|k: int| 0 <= k < i && items@.take(i as int)[k] == x;
                assert(items@[k] == items@[i as int]);
            }
        }
        let p = insertion_place(docs, &out, field, dir, x);
        let ghost before = out@;
        out.insert(p, x);
        proof {
            lemma_insert_members(before, p as int, x);
            assert forall|h: usize| out@.contains(h) <==> items@.take(i + 1).contains(h) by {
                let grown = items@.take(i + 1);
                let front = items@.take(i as int);
                assert(before.contains(h) <==> front.contains(h));
                assert(out@ == before.insert(p as int, x));
                assert(out@.contains(h) <==> (h == x || before.contains(h)));
                if grown.contains(h) {
                    let k = choose|k: int| 0 <= k < grown.len() && grown[k] == h;
                    if k < i {
                        assert(front[k] == h);
                    }
                }
                if front.contains(h) {
                    let k = choose|k: int| 0 <= k < front.len() && front[k] == h;
                    assert(grown[k] == h);
                }
                if h == x {
                    assert(grown[i as int] == h);
                }
            }
            assert forall|a: int, b: int| 0 <= a < b < out@.len() implies precedes(
                docs@,
                field,
                dir,
                #[trigger] out@[a],
                #[trigger] out@[b],
            ) by {
                let ia = if a < p {
                    a
                } else {
                    a - 1
                };
                let ib = if b < p {
                    b
                } else {
                    b - 1
                };
                if a != p && b != p {
                    assert(out@[a] == before[ia] && out@[b] == before[ib]);
                } else if a == p {
                    assert(out@[b] == before[ib]);
                } else {
                    assert(out@[a] == before[ia]);
                }
            }
            assert forall|k: int| 0 <= k < out@.len() implies (#[trigger] out@[k]) < docs@.len() by {
                if k < p {
                    assert(out@[k] == before[k]);
                } else if k > p {
                    assert(out@[k] == before[k - 1]);
                }
            }
        }
        i += 1;
    }
    proof {
        assert(items@.take(i as int) =~= items@);
    }
    out
}

/// The place of the handle `h` in `items`.
pub fn position_of(items: &Vec<usize>, h: usize) -> (r: Option<usize>)
    ensures
        r matches Some(k) ==> k < items@.len() && items@[k as int] == h && forall|j: int|
            0 <= j < k ==> items@[j] != h,
        r is None ==> !items@.contains(h),
{
    let mut k: usize = 0;
    while k < items.len()
        invariant
            k <= items@.len(),
            forall|j: int| 0 <= j < k ==> items@[j] != h,
        decreases items@.len() - k,
    {
        if items[k] == h {
            return Some(k);
        }
        k += 1;
    }
    None
}

} // verus!
