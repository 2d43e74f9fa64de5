//! Sorting the boxes of a frame by their place in the stack.
use crate::extract::{
    glyphs_of, law_glyphs_follow_the_stack, law_sprites_follow_the_stack, sprites_of, DefaultImage,
    TextNodeItem, TextureAtlas, UiNodeItem, UiNodeType,
};
use crate::quad::PlacedNode;
use crate::scalar::Scalar;
use vstd::prelude::*;

verus! {

/// Whether a box lies at place `k` of the stack.
pub open spec fn at_place(k: usize) -> spec_fn(PlacedNode) -> bool {
    |p: PlacedNode| p.node.stack_index == k
}

/// Whether the boxes are in the order of the stack, from the bottom up.
pub open spec fn is_sorted(s: Seq<PlacedNode>) -> bool {
    forall|i: int, j: int|
        0 <= i < j < s.len() ==> (#[trigger] s[i]).node.stack_index <= (
        #[trigger] s[j]).node.stack_index
}

/// Whether `after` holds the boxes of `before` in the order of the stack, those at one place in
/// the order that they had before.
pub open spec fn is_stable_sort_of(before: Seq<PlacedNode>, after: Seq<PlacedNode>) -> bool {
    &&& after.len() == before.len()
    &&& is_sorted(after)
    &&& forall|k: usize| #[trigger] after.filter(at_place(k)) == before.filter(at_place(k))
}

proof fn lemma_filter_push(s: Seq<PlacedNode>, p: PlacedNode, k: usize)
    ensures
        s.push(p).filter(at_place(k)) == if p.node.stack_index == k {
            s.filter(at_place(k)).push(p)
        } else {
            s.filter(at_place(k))
        },
{
    reveal(Seq::filter);
    assert(s.push(p).drop_last() =~= s);
}

proof fn lemma_filter_none(s: Seq<PlacedNode>, k: usize)
    requires
        forall|i: int| 0 <= i < s.len() ==> (#[trigger] s[i]).node.stack_index != k,
    ensures
        s.filter(at_place(k)) == Seq::<PlacedNode>::empty(),
    decreases s.len(),
{
    reveal(Seq::filter);
    if s.len() > 0 {
        lemma_filter_none(s.drop_last(), k);
    }
}

/// Merges two sorted runs; among the boxes at one place those of `left` come first.
fn merge(left: &Vec<PlacedNode>, right: &Vec<PlacedNode>) -> (r: Vec<PlacedNode>)
    requires
        is_sorted(left@),
        is_sorted(right@),
        left@.len() + right@.len() <= usize::MAX,
    ensures
        is_stable_sort_of(left@ + right@, r@),
{
    let mut merged: Vec<PlacedNode> = Vec::new();
    let mut i: usize = 0;
    let mut j: usize = 0;
    proof {
        assert(left@.take(0) + right@.take(0) =~= merged@);
    }
    while i < left.len() || j < right.len()
        invariant
            i <= left@.len(),
            j <= right@.len(),
            is_sorted(left@),
            is_sorted(right@),
            left@.len() + right@.len() <= usize::MAX,
            merged@.len() == i + j,
            is_sorted(merged@),
            forall|m: int, l: int|
                0 <= m < merged@.len() && i <= l < left@.len() ==> (
                #[trigger] merged@[m]).node.stack_index <= (#[trigger] left@[l]).node.stack_index,
            forall|m: int, l: int|
                0 <= m < merged@.len() && j <= l < right@.len() ==> (
                #[trigger] merged@[m]).node.stack_index <= (#[trigger] right@[l]).node.stack_index,
            forall|m: int, l: int|
                0 <= m < j && i <= l < left@.len() ==> (#[trigger] right@[m]).node.stack_index < (
                #[trigger] left@[l]).node.stack_index,
            forall|k: usize| #[trigger]
                merged@.filter(at_place(k)) == left@.take(i as int).filter(at_place(k))
                    + right@.take(j as int).filter(at_place(k)),
        decreases left@.len() + right@.len() - i - j,
    {
        let ghost before = merged@;
        if i < left.len() && (j >= right.len() || left[i].node.stack_index
            <= right[j].node.stack_index) {
            let next = left[i];
            merged.push(next);
            proof {
                assert(left@.take(i + 1) =~= left@.take(i as int).push(next));
                assert forall|k: usize| #[trigger]
                    merged@.filter(at_place(k)) == left@.take(i + 1).filter(at_place(k))
                        + right@.take(j as int).filter(at_place(k)) by {
                    lemma_filter_push(before, next, k);
                    lemma_filter_push(left@.take(i as int), next, k);
                    assert(before.filter(at_place(k)) == left@.take(i as int).filter(at_place(k))
                        + right@.take(j as int).filter(at_place(k)));
                    if next.node.stack_index == k {
                        lemma_filter_none(right@.take(j as int), k);
                        assert(merged@.filter(at_place(k)) =~= left@.take(i + 1).filter(at_place(k))
                            + right@.take(j as int).filter(at_place(k)));
                    }
                }
            }
            i = i + 1;
        } else {
            let next = right[j];
            merged.push(next);
            proof {
                assert(right@.take(j + 1) =~= right@.take(j as int).push(next));
                assert forall|k: usize| #[trigger]
                    merged@.filter(at_place(k)) == left@.take(i as int).filter(at_place(k))
                        + right@.take(j + 1).filter(at_place(k)) by {
                    lemma_filter_push(before, next, k);
                    lemma_filter_push(right@.take(j as int), next, k);
                    assert(before.filter(at_place(k)) == left@.take(i as int).filter(at_place(k))
                        + right@.take(j as int).filter(at_place(k)));
                    assert(merged@.filter(at_place(k)) =~= left@.take(i as int).filter(at_place(k))
                        + right@.take(j + 1).filter(at_place(k)));
                }
            }
            j = j + 1;
        }
    }
    proof {
        assert(left@.take(i as int) =~= left@);
        assert(right@.take(j as int) =~= right@);
        assert forall|k: usize| #[trigger]
            merged@.filter(at_place(k)) == (left@ + right@).filter(at_place(k)) by {
            Seq::filter_distributes_over_add(left@, right@, at_place(k));
        }
    }
    merged
}

/// The boxes from `start` up to `end`, sorted.
fn sorted_run(nodes: &Vec<PlacedNode>, start: usize, end: usize) -> (r: Vec<PlacedNode>)
    requires
        start <= end <= nodes@.len(),
    ensures
        is_stable_sort_of(nodes@.subrange(start as int, end as int), r@),
    decreases end - start,
{
    if end - start <= 1 {
        let mut run: Vec<PlacedNode> = Vec::new();
        if start < end {
            run.push(nodes[start]);
        }
        assert(run@ =~= nodes@.subrange(start as int, end as int));
        run
    } else {
        let middle: usize = start + (end - start) / 2;
        let left = sorted_run(nodes, start, middle);
        let right = sorted_run(nodes, middle, end);
        let r = merge(&left, &right);
        proof {
            let a = nodes@.subrange(start as int, middle as int);
            let b = nodes@.subrange(middle as int, end as int);
            assert(nodes@.subrange(start as int, end as int) =~= a + b);
            assert forall|k: usize| #[trigger]
                r@.filter(at_place(k)) == (a + b).filter(at_place(k)) by {
                Seq::filter_distributes_over_add(a, b, at_place(k));
                Seq::filter_distributes_over_add(left@, right@, at_place(k));
                assert(left@.filter(at_place(k)) == a.filter(at_place(k)));
                assert(right@.filter(at_place(k)) == b.filter(at_place(k)));
            }
        }
        r
    }
}

/// Sorts the boxes by their place in the stack, starting from the deepest, and leaves those at
/// one place in their order.
pub fn sort_by_stack_index(nodes: &mut Vec<PlacedNode>)
    ensures
        is_stable_sort_of(old(nodes)@, final(nodes)@),
{
    let end: usize = nodes.len();
    let sorted = sorted_run(nodes, 0, end);
    proof {
        assert(nodes@.subrange(0, end as int) =~= nodes@);
    }
    *nodes = sorted;
}

/// The order of the boxes is fixed: two stable sorts of one sequence are equal.
pub proof fn law_stable_sort_is_unique(
    before: Seq<PlacedNode>,
    first: Seq<PlacedNode>,
    second: Seq<PlacedNode>,
)
    requires
        is_stable_sort_of(before, first),
        is_stable_sort_of(before, second),
    ensures
        first == second,
{
    assert forall|k: usize| #[trigger]
        first.filter(at_place(k)) == second.filter(at_place(k)) by {
        assert(first.filter(at_place(k)) == before.filter(at_place(k)));
        assert(second.filter(at_place(k)) == before.filter(at_place(k)));
    }
    lemma_sorted_unique(first, second);
}

proof fn lemma_sorted_unique(a: Seq<PlacedNode>, b: Seq<PlacedNode>)
    requires
        is_sorted(a),
        is_sorted(b),
        a.len() == b.len(),
        forall|k: usize| #[trigger] a.filter(at_place(k)) == b.filter(at_place(k)),
    ensures
        a == b,
    decreases a.len(),
{
    if a.len() > 0 {
        let (x, y) = (a.last(), b.last());
        let (c, d) = (a.drop_last(), b.drop_last());
        assert(a =~= c.push(x) && b =~= d.push(y));
        let (m, n) = (x.node.stack_index, y.node.stack_index);
        lemma_filter_push(c, x, m);
        lemma_filter_push(c, x, n);
        lemma_filter_push(d, y, m);
        lemma_filter_push(d, y, n);
        assert(a.filter(at_place(m)) == b.filter(at_place(m)));
        assert(a.filter(at_place(n)) == b.filter(at_place(n)));
        if m > n {
            lemma_filter_none(b, m);
            assert(a.filter(at_place(m)).len() > 0);
        } else if n > m {
            lemma_filter_none(a, n);
            assert(b.filter(at_place(n)).len() > 0);
        }
        assert(a.filter(at_place(m)).last() == x && b.filter(at_place(m)).last() == y);
        assert forall|k: usize| #[trigger] c.filter(at_place(k)) == d.filter(at_place(k)) by {
            lemma_filter_push(c, x, k);
            lemma_filter_push(d, y, k);
            assert(a.filter(at_place(k)) == b.filter(at_place(k)));
            if k == m {
                assert(c.filter(at_place(k)) =~= c.filter(at_place(k)).push(x).drop_last());
                assert(d.filter(at_place(k)) =~= d.filter(at_place(k)).push(y).drop_last());
            }
        }
        lemma_sorted_unique(c, d);
    }
}

/// A box occurs as often as among the boxes at its place.
proof fn lemma_count_at_place(s: Seq<PlacedNode>, p: PlacedNode)
    ensures
        s.to_multiset().count(p) == s.filter(at_place(p.node.stack_index)).to_multiset().count(p),
    decreases s.len(),
{
    broadcast use vstd::seq_lib::group_to_multiset_ensures;

    let k = p.node.stack_index;
    if s.len() == 0 {
        lemma_filter_none(s, k);
        assert(s =~= Seq::<PlacedNode>::empty());
    } else {
        let rest = s.drop_last();
        lemma_count_at_place(rest, p);
        lemma_filter_push(rest, s.last(), k);
        assert(s =~= rest.push(s.last()));
    }
}

/// Sorting keeps the boxes.
pub(crate) proof fn lemma_sort_keeps_boxes(before: Seq<PlacedNode>, after: Seq<PlacedNode>)
    requires
        is_stable_sort_of(before, after),
    ensures
        before.to_multiset() == after.to_multiset(),
{
    assert forall|p: PlacedNode| #[trigger]
        before.to_multiset().count(p) == after.to_multiset().count(p) by {
        lemma_count_at_place(before, p);
        lemma_count_at_place(after, p);
        assert(after.filter(at_place(p.node.stack_index)) == before.filter(
            at_place(p.node.stack_index),
        ));
    }
    assert(before.to_multiset() =~= after.to_multiset());
}

/// Two boxes at one place appear among the boxes at that place in the same order.
proof fn lemma_filter_keeps_order(s: Seq<PlacedNode>, k: usize, i: int, j: int) -> (r: (int, int))
    requires
        0 <= i < j < s.len(),
        s[i].node.stack_index == k,
        s[j].node.stack_index == k,
    ensures
        0 <= r.0 < r.1 < s.filter(at_place(k)).len(),
        s.filter(at_place(k))[r.0] == s[i],
        s.filter(at_place(k))[r.1] == s[j],
    decreases s.len(),
{
    reveal(Seq::filter);
    let t = s.drop_last();
    if j < s.len() - 1 {
        lemma_filter_keeps_order(t, k, i, j)
    } else {
        t.lemma_filter_contains(at_place(k), i);
        let a = choose|a: int|
            0 <= a < t.filter(at_place(k)).len() && t.filter(at_place(k))[a] == t[i];
        (a, t.filter(at_place(k)).len() as int)
    }
}

/// A box that passed the filter was there before.
proof fn lemma_filter_element(s: Seq<PlacedNode>, k: usize, a: int) -> (i: int)
    requires
        0 <= a < s.filter(at_place(k)).len(),
    ensures
        0 <= i < s.len(),
        s.filter(at_place(k))[a] == s[i],
{
    assert(s.filter(at_place(k)).contains(s.filter(at_place(k))[a]));
    s.lemma_filter_contains_rev(at_place(k), s.filter(at_place(k))[a]);
    choose|i: int| 0 <= i < s.len() && s[i] == s.filter(at_place(k))[a]
}

/// Once the boxes that a frame extracts are sorted, they follow the stack from the bottom up, and
/// at each place the box of the node comes before the glyphs of its text.
pub proof fn law_text_is_drawn_over_its_node(
    stack: Seq<Option<UiNodeItem>>,
    texts: Seq<Option<TextNodeItem>>,
    default_image: DefaultImage,
    atlases: Seq<TextureAtlas>,
    scale_factor: Scalar,
    before: Seq<PlacedNode>,
    after: Seq<PlacedNode>,
)
    requires
        stack.len() <= usize::MAX,
        texts.len() <= usize::MAX,
        before.map_values(|p: PlacedNode| p.node) == sprites_of(stack, default_image, scale_factor)
            + glyphs_of(texts, atlases, scale_factor),
        is_stable_sort_of(before, after),
    ensures
        forall|i: int, j: int|
            #![trigger after[i], after[j]]
            0 <= i < j < after.len() ==> {
                ||| after[i].node.stack_index < after[j].node.stack_index
                ||| after[i].node.stack_index == after[j].node.stack_index
                    && after[j].node.node_type == UiNodeType::Text
            },
{
    let sprites = sprites_of(stack, default_image, scale_factor);
    let glyphs = glyphs_of(texts, atlases, scale_factor);
    law_sprites_follow_the_stack(stack, default_image, scale_factor);
    law_glyphs_follow_the_stack(texts, atlases, scale_factor);
    let nodes = before.map_values(|p: PlacedNode| p.node);
    let n = sprites.len() as int;
    let low = before.take(n);
    let high = before.skip(n);
    assert(before.len() == nodes.len());
    assert(before =~= low + high);
    assert forall|i: int| 0 <= i < low.len() implies (#[trigger] low[i]).node == sprites[i]
        && low[i].node.node_type == UiNodeType::Sprite by {
        assert(nodes[i] == before[i].node);
    }
    assert forall|i: int| 0 <= i < high.len() implies (#[trigger] high[i]).node == glyphs[i]
        && high[i].node.node_type == UiNodeType::Text by {
        assert(nodes[n + i] == before[n + i].node);
    }
    assert forall|i: int, j: int|
        #![trigger after[i], after[j]]
        0 <= i < j < after.len() implies {
        ||| after[i].node.stack_index < after[j].node.stack_index
        ||| after[i].node.stack_index == after[j].node.stack_index && after[j].node.node_type
            == UiNodeType::Text
    } by {
        let k = after[i].node.stack_index;
        assert(k <= after[j].node.stack_index);
        if after[j].node.stack_index == k {
            let (a, b) = lemma_filter_keeps_order(after, k, i, j);
            Seq::filter_distributes_over_add(low, high, at_place(k));
            assert(after.filter(at_place(k)) == before.filter(at_place(k)));
            let (f, g) = (low.filter(at_place(k)), high.filter(at_place(k)));
            assert(f.len() <= 1) by {
                if f.len() >= 2 {
                    lemma_filter_single(low, k);
                }
            }
            if b < f.len() {
            } else {
                let e = lemma_filter_element(high, k, b - f.len());
                assert(high[e].node.node_type == UiNodeType::Text);
            }
        }
    }
}

/// Where no two boxes lie at one place, at most one lies at each.
proof fn lemma_filter_single(s: Seq<PlacedNode>, k: usize)
    requires
        forall|i: int, j: int|
            0 <= i < j < s.len() ==> (#[trigger] s[i]).node.stack_index < (
            #[trigger] s[j]).node.stack_index,
    ensures
        s.filter(at_place(k)).len() <= 1,
    decreases s.len(),
{
    reveal(Seq::filter);
    if s.len() > 0 {
        lemma_filter_single(s.drop_last(), k);
        if s.last().node.stack_index == k {
            lemma_filter_none(s.drop_last(), k);
        }
    }
}

/// Two filters that let the same boxes pass give the same.
pub(crate) proof fn lemma_filter_same(
    s: Seq<PlacedNode>,
    f: spec_fn(PlacedNode) -> bool,
    g: spec_fn(PlacedNode) -> bool,
)
    requires
        forall|p: PlacedNode| #[trigger] f(p) == g(p),
    ensures
        s.filter(f) == s.filter(g),
    decreases s.len(),
{
    reveal(Seq::filter);
    if s.len() > 0 {
        lemma_filter_same(s.drop_last(), f, g);
    }
}

/// Sorting keeps the boxes and puts them in the order of the stack from the bottom up, and the boxes at
/// one place keep their order.
pub proof fn law_sorted_boxes_follow_the_stack(
    before: Seq<PlacedNode>,
    after: Seq<PlacedNode>,
    place: spec_fn(PlacedNode) -> bool,
    k: usize,
)
    requires
        is_stable_sort_of(before, after),
        forall|p: PlacedNode| #[trigger] place(p) == (p.node.stack_index == k),
    ensures
        after.len() == before.len(),
        after.to_multiset() == before.to_multiset(),
        forall|i: int, j: int|
            0 <= i < j < after.len() ==> (#[trigger] after[i]).node.stack_index <= (
            #[trigger] after[j]).node.stack_index,
        after.filter(place) == before.filter(place),
{
    lemma_sort_keeps_boxes(before, after);
    lemma_filter_same(after, place, at_place(k));
    lemma_filter_same(before, place, at_place(k));
    assert(after.filter(at_place(k)) == before.filter(at_place(k)));
}

} // verus!
