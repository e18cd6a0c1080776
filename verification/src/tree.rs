//! Fork-Choice Tree Filter: materializes the subtree of retained blocks
//! reachable from a root, and derives the chain heads of that subtree.

use vstd::prelude::*;
use crate::types::{
    ApiError, BeaconHead, Block, Root, StoreRead, StoreSnapshot, lemma_table_lookup_index,
    table_lookup, unique_keys,
};
use crate::accessor::{find_block, spec_checkpoint_root};

verus! {

/// Whether the blocks table retains an entry for `r`.
pub open spec fn present(m: Seq<(Root, Block)>, r: Root) -> bool {
    table_lookup(m, r) is Some
}

/// `c` is a parent-linked descent through retained blocks: it starts at
/// `root`, every root on it is retained, and each later block names the
/// root before it as parent.
pub open spec fn is_chain(m: Seq<(Root, Block)>, root: Root, c: Seq<Root>) -> bool {
    &&& c.len() > 0
    &&& c[0] == root
    &&& forall|i: int| 0 <= i < c.len() ==> present(m, #[trigger] c[i])
    &&& forall|i: int|
        1 <= i < c.len() ==> table_lookup(m, #[trigger] c[i])->Some_0.parent_root == c[i - 1]
}

/// `r` is a descendant of `root` that the store still retains, reached
/// through retained ancestors only; absent blocks end a branch.
pub open spec fn reachable(m: Seq<(Root, Block)>, root: Root, r: Root) -> bool {
    exists|c: Seq<Root>| is_chain(m, root, c) && c.last() == r
}

/// The tree filter's retention predicate over one table entry.
pub open spec fn reach_filter(m: Seq<(Root, Block)>, root: Root) -> spec_fn((Root, Block)) -> bool {
    |e: (Root, Block)| reachable(m, root, e.0)
}

/// The filtered block tree: the table entries reachable from `root`,
/// in table order.
pub open spec fn spec_filtered_tree(m: Seq<(Root, Block)>, root: Root) -> Seq<(Root, Block)> {
    m.filter(reach_filter(m, root))
}

/// In a table with unique keys, every entry is what lookup by its key
/// finds.
proof fn lemma_lookup_of_entry(t: Seq<(Root, Block)>, i: int)
    requires
        unique_keys(t),
        0 <= i < t.len(),
    ensures
        table_lookup(t, t[i].0) == Some(t[i].1),
    decreases t.len(),
{
    if i == 0 {
    } else {
        assert(t[0].0 != t[i].0);
        assert(unique_keys(t.drop_first())) by {
            assert(forall|a: int, b: int|
                0 <= a < b < t.drop_first().len() ==> t.drop_first()[a] == t[a + 1]
                    && t.drop_first()[b] == t[b + 1]);
        }
        lemma_lookup_of_entry(t.drop_first(), i - 1);
        assert(t.drop_first()[i - 1] == t[i]);
    }
}

/// A sequence of distinct retained roots cannot outnumber the table.
proof fn lemma_distinct_present_bound(t: Seq<(Root, Block)>, v: Seq<Root>)
    requires
        v.no_duplicates(),
        forall|r: Root| #[trigger] v.contains(r) ==> present(t, r),
    ensures
        v.len() <= t.len(),
{
    let keys = t.map_values(|e: (Root, Block)| e.0);
    v.unique_seq_to_set();
    assert forall|r: Root| v.to_set().contains(r) implies keys.to_set().contains(r) by {
        assert(v.contains(r));
        lemma_table_lookup_index(t, r);
        let i = choose|i: int|
            0 <= i < t.len() && #[trigger] t[i].0 == r && t[i].1 == table_lookup(t, r)->Some_0;
        assert(keys[i] == r);
        assert(keys.contains(r));
    }
    vstd::set_lib::lemma_len_subset(v.to_set(), keys.to_set());
    keys.lemma_cardinality_of_set();
}

/// Every chain through a table stays inside a set of roots that holds
/// the chain's start and is closed under retained children.
proof fn lemma_chain_in_closed(t: Seq<(Root, Block)>, root: Root, v: Seq<Root>, c: Seq<Root>)
    requires
        unique_keys(t),
        is_chain(t, root, c),
        present(t, root) ==> v.contains(root),
        forall|j: int|
            0 <= j < t.len() && v.contains(#[trigger] t[j].1.parent_root) ==> v.contains(t[j].0),
    ensures
        v.contains(c.last()),
    decreases c.len(),
{
    if c.len() == 1 {
        assert(present(t, c[0]));
    } else {
        let sub = c.drop_last();
        assert(is_chain(t, root, sub)) by {
            assert(forall|i: int| 0 <= i < sub.len() ==> sub[i] == c[i]);
        }
        lemma_chain_in_closed(t, root, v, sub);
        let last = c.last();
        assert(present(t, last));
        lemma_table_lookup_index(t, last);
        let j = choose|j: int|
            0 <= j < t.len() && #[trigger] t[j].0 == last && t[j].1 == table_lookup(t, last)->Some_0;
        assert(t[j].1.parent_root == c[c.len() - 2]);
        assert(sub.last() == c[c.len() - 2]);
        assert(v.contains(t[j].1.parent_root));
    }
}

/// Collects the roots reachable from `root` (worklist traversal with a
/// visited set, each root visited once), then keeps the table entries
/// so reached, in table order.
#[verifier::rlimit(100)]
fn collect_tree<'a>(t: &'a Vec<(Root, Block)>, root: Root) -> (out: Vec<(Root, &'a Block)>)
    requires
        unique_keys(t@),
    ensures
        out@.len() == spec_filtered_tree(t@, root).len(),
        forall|i: int|
            0 <= i < out@.len() ==> (#[trigger] out@[i]).0 == spec_filtered_tree(t@, root)[i].0
                && *out@[i].1 == spec_filtered_tree(t@, root)[i].1,
{
    let mut visited: Vec<Root> = Vec::new();
    let mut work: Vec<Root> = Vec::new();
    match find_block(t, &root) {
        Some(_) => {
            visited.push(root);
            work.push(root);
            proof {
                let c0 = seq![root];
                assert(is_chain(t@, root, c0) && c0.last() == root);
            }
        },
        None => {},
    }
    while work.len() > 0
        invariant
            unique_keys(t@),
            visited@.no_duplicates(),
            work@.no_duplicates(),
            forall|r: Root| #[trigger] work@.contains(r) ==> visited@.contains(r),
            forall|r: Root|
                #[trigger] visited@.contains(r) ==> present(t@, r) && reachable(t@, root, r),
            present(t@, root) ==> visited@.contains(root),
            !present(t@, root) ==> visited@.len() == 0,
            visited@.len() <= t@.len(),
            forall|j: int|
                0 <= j < t@.len() && visited@.contains(#[trigger] t@[j].1.parent_root)
                    && !work@.contains(t@[j].1.parent_root) ==> visited@.contains(t@[j].0),
        decreases t@.len() - visited@.len(), work@.len(),
    {
        let ghost v0 = visited@;
        let ghost w0 = work@;
        let w = work.pop().unwrap();
        proof {
            assert(w == w0.last());
            assert(work@ =~= w0.drop_last());
            assert(!work@.contains(w)) by {
                if work@.contains(w) {
                    let k = choose|k: int| 0 <= k < work@.len() && work@[k] == w;
                    assert(w0[k] == w && w0[w0.len() - 1] == w);
                }
            }
            assert(w0.contains(w)) by { assert(w0[w0.len() - 1] == w); }
            assert(visited@.contains(w));
            assert(work@.no_duplicates()) by {
                assert(forall|a: int| 0 <= a < work@.len() ==> work@[a] == w0[a]);
            }
            assert forall|r: Root| #[trigger] work@.contains(r) implies visited@.contains(r) by {
                let k = choose|k: int| 0 <= k < work@.len() && work@[k] == r;
                assert(w0[k] == r);
                assert(w0.contains(r));
            }
            assert forall|r: Root| #[trigger] w0.contains(r) && r != w implies work@.contains(
                r,
            ) by {
                let k = choose|k: int| 0 <= k < w0.len() && w0[k] == r;
                assert(k != w0.len() - 1);
                assert(work@[k] == r);
            }
        }
        let mut j: usize = 0;
        while j < t.len()
            invariant
                unique_keys(t@),
                0 <= j <= t@.len(),
                visited@.no_duplicates(),
                work@.no_duplicates(),
                visited@.contains(w),
                !work@.contains(w),
                reachable(t@, root, w),
                forall|r: Root| #[trigger] work@.contains(r) ==> visited@.contains(r),
                forall|r: Root|
                    #[trigger] visited@.contains(r) ==> present(t@, r) && reachable(t@, root, r),
                present(t@, root) ==> visited@.contains(root),
                visited@.len() <= t@.len(),
                forall|r: Root| #[trigger] v0.contains(r) ==> visited@.contains(r),
                visited@.len() - v0.len() == work@.len() - (w0.len() - 1),
                visited@.len() >= v0.len(),
                forall|k: int|
                    0 <= k < t@.len() && visited@.contains(#[trigger] t@[k].1.parent_root)
                        && !work@.contains(t@[k].1.parent_root) && t@[k].1.parent_root != w
                        ==> visited@.contains(t@[k].0),
                forall|k: int|
                    0 <= k < j && t@[k].1.parent_root == w ==> visited@.contains(#[trigger] t@[k].0),
            decreases t@.len() - j,
        {
            if t[j].1.parent_root == w {
                if !contains_root(&visited, &t[j].0) {
                    let ghost vpre = visited@;
                    let ghost wpre = work@;
                    proof {
                        lemma_lookup_of_entry(t@, j as int);
                        assert(present(t@, t@[j as int].0));
                        let c = choose|c: Seq<Root>| is_chain(t@, root, c) && c.last() == w;
                        let c2 = c.push(t@[j as int].0);
                        assert(is_chain(t@, root, c2) && c2.last() == t@[j as int].0) by {
                            assert(forall|i: int| 0 <= i < c.len() ==> c2[i] == c[i]);
                            assert(c2[c2.len() - 1] == t@[j as int].0);
                            assert(table_lookup(t@, c2[c2.len() - 1])->Some_0.parent_root == w);
                        }
                        assert(reachable(t@, root, t@[j as int].0));
                    }
                    visited.push(t[j].0);
                    work.push(t[j].0);
                    proof {
                        broadcast use vstd::seq_lib::group_seq_properties;

                        let x = t@[j as int].0;
                        assert(!wpre.contains(x));
                        assert(visited@.no_duplicates()) by {
                            assert forall|a: int, b: int|
                                0 <= a < b < visited@.len() implies visited@[a] != visited@[b] by {
                                if b == visited@.len() - 1 {
                                    assert(visited@[b] == x);
                                    assert(vpre.contains(vpre[a])) by { assert(vpre[a] == vpre[a]); }
                                }
                            }
                        }
                        assert(work@.no_duplicates()) by {
                            assert forall|a: int, b: int|
                                0 <= a < b < work@.len() implies work@[a] != work@[b] by {
                                if b == work@.len() - 1 {
                                    assert(work@[b] == x);
                                    assert(wpre.contains(wpre[a])) by { assert(wpre[a] == wpre[a]); }
                                }
                            }
                        }
                        assert forall|r: Root| #[trigger] visited@.contains(r) implies present(
                            t@,
                            r,
                        ) && reachable(t@, root, r) by {
                            if r != x {
                                assert(vpre.contains(r));
                            }
                        }
                        lemma_distinct_present_bound(t@, visited@);
                    }
                }
            }
            j = j + 1;
        }
    }
    proof {
        assert forall|r: Root| reachable(t@, root, r) implies visited@.contains(r) by {
            let c = choose|c: Seq<Root>| is_chain(t@, root, c) && c.last() == r;
            lemma_chain_in_closed(t@, root, visited@, c);
        }
    }
    let mut out: Vec<(Root, &Block)> = Vec::new();
    let mut i: usize = 0;
    proof {
        reveal(Seq::filter);
        assert(t@.take(0) =~= Seq::<(Root, Block)>::empty());
    }
    while i < t.len()
        invariant
            0 <= i <= t@.len(),
            forall|r: Root| #[trigger] visited@.contains(r) <==> reachable(t@, root, r),
            out@.len() == t@.take(i as int).filter(reach_filter(t@, root)).len(),
            forall|k: int|
                0 <= k < out@.len() ==> (#[trigger] out@[k]).0 == t@.take(i as int).filter(
                    reach_filter(t@, root),
                )[k].0 && *out@[k].1 == t@.take(i as int).filter(reach_filter(t@, root))[k].1,
        decreases t@.len() - i,
    {
        let keep = contains_root(&visited, &t[i].0);
        proof {
            reveal(Seq::filter);
            assert(t@.take(i as int + 1).drop_last() =~= t@.take(i as int));
            assert(t@.take(i as int + 1).last() == t@[i as int]);
            assert(reach_filter(t@, root)(t@[i as int]) == reachable(t@, root, t@[i as int].0));
        }
        if keep {
            out.push((t[i].0, &t[i].1));
        }
        i = i + 1;
    }
    proof {
        assert(t@.take(t@.len() as int) =~= t@);
    }
    out
}

fn contains_root(v: &Vec<Root>, x: &Root) -> (r: bool)
    ensures
        r == v@.contains(*x),
{
    let mut i: usize = 0;
    while i < v.len()
        invariant
            0 <= i <= v@.len(),
            forall|j: int| 0 <= j < i ==> v@[j] != *x,
        decreases v@.len() - i,
    {
        if v[i] == *x {
            assert(v@.contains(*x)) by { assert(v@[i as int] == *x); }
            return true;
        }
        i = i + 1;
    }
    false
}

/// Filters the store's block tree from `root`: every retained block
/// reachable as a descendant, each visited exactly once, the store
/// read-only throughout. A failed blocks table surfaces as
/// `InternalError`.
pub fn filter_block_tree<'a>(s: &'a StoreSnapshot, root: Root) -> (r: Result<
    Vec<(Root, &'a Block)>,
    ApiError,
>)
    requires
        s.blocks_wf(),
    ensures
        match r {
            Ok(m) => match s.blocks {
                StoreRead::Found(t) => m@.len() == spec_filtered_tree(t@, root).len()
                    && forall|i: int|
                    0 <= i < m@.len() ==> (#[trigger] m@[i]).0 == spec_filtered_tree(t@, root)[i].0
                        && *m@[i].1 == spec_filtered_tree(t@, root)[i].1,
                StoreRead::Absent => m@.len() == 0,
                StoreRead::Failed => false,
            },
            Err(e) => s.blocks is Failed && e == ApiError::InternalError,
        },
{
    match &s.blocks {
        StoreRead::Found(t) => Ok(collect_tree(t, root)),
        StoreRead::Absent => Ok(Vec::new()),
        StoreRead::Failed => Err(ApiError::InternalError),
    }
}

/// Whether some entry other than the one at `i` names the root of the
/// entry at `i` as its parent.
pub open spec fn spec_referenced_by_other(m: Seq<(Root, Block)>, i: int) -> bool {
    exists|j: int| 0 <= j < m.len() && j != i && (#[trigger] m[j]).1.parent_root == m[i].0
}

/// The entry at `i` is a head of the mapping: no other block of the
/// mapping has its root as parent-root.
pub open spec fn spec_is_head(m: Seq<(Root, Block)>, i: int) -> bool {
    !spec_referenced_by_other(m, i)
}

/// The head drawn from one mapping entry.
pub open spec fn spec_head_of(e: (Root, Block)) -> BeaconHead {
    BeaconHead { root: e.1.root, slot: e.1.slot }
}

/// Heads among the first `k` entries of the mapping, in mapping order.
pub open spec fn spec_heads_prefix(m: Seq<(Root, Block)>, k: int) -> Seq<BeaconHead>
    decreases k,
{
    if k <= 0 {
        Seq::empty()
    } else {
        let rest = spec_heads_prefix(m, k - 1);
        if spec_is_head(m, k - 1) {
            rest.push(spec_head_of(m[k - 1]))
        } else {
            rest
        }
    }
}

/// The heads of a filtered mapping, in mapping order.
pub open spec fn spec_heads(m: Seq<(Root, Block)>) -> Seq<BeaconHead> {
    spec_heads_prefix(m, m.len() as int)
}

/// Lexicographic order on roots, most significant limb first.
pub open spec fn root_le(a: Root, b: Root) -> bool {
    if a.w0 != b.w0 {
        a.w0 < b.w0
    } else if a.w1 != b.w1 {
        a.w1 < b.w1
    } else if a.w2 != b.w2 {
        a.w2 < b.w2
    } else {
        a.w3 <= b.w3
    }
}

/// Head order: by slot, then by root, for reproducible output.
pub open spec fn head_le(a: BeaconHead, b: BeaconHead) -> bool {
    a.slot < b.slot || (a.slot == b.slot && root_le(a.root, b.root))
}

/// Insertion of `x` into `s` before the first element it precedes.
pub open spec fn spec_insert_sorted(x: BeaconHead, s: Seq<BeaconHead>) -> Seq<BeaconHead>
    decreases s.len(),
{
    if s.len() == 0 {
        seq![x]
    } else if head_le(x, s.first()) {
        seq![x] + s
    } else {
        seq![s.first()] + spec_insert_sorted(x, s.drop_first())
    }
}

/// Insertion sort of a head sequence, processed left to right.
pub open spec fn spec_sort_heads(s: Seq<BeaconHead>) -> Seq<BeaconHead>
    decreases s.len(),
{
    if s.len() == 0 {
        Seq::empty()
    } else {
        spec_insert_sorted(s.last(), spec_sort_heads(s.drop_last()))
    }
}

/// Ascending under the head order.
pub open spec fn heads_sorted(s: Seq<BeaconHead>) -> bool {
    forall|i: int, j: int| 0 <= i < j < s.len() ==> head_le(#[trigger] s[i], #[trigger] s[j])
}

/// Inserting at the first position whose element `x` precedes yields
/// the insertion spec.
proof fn lemma_insert_sorted_split(x: BeaconHead, s: Seq<BeaconHead>, p: int)
    requires
        0 <= p <= s.len(),
        forall|k: int| 0 <= k < p ==> !head_le(x, #[trigger] s[k]),
        p < s.len() ==> head_le(x, s[p]),
    ensures
        spec_insert_sorted(x, s) == s.take(p) + seq![x] + s.skip(p),
    decreases s.len(),
{
    if s.len() == 0 {
        assert(spec_insert_sorted(x, s) =~= s.take(p) + seq![x] + s.skip(p));
    } else if p == 0 {
        assert(head_le(x, s.first()));
        assert(spec_insert_sorted(x, s) =~= s.take(0) + seq![x] + s.skip(0));
    } else {
        assert(!head_le(x, s[0]));
        let d = s.drop_first();
        assert(forall|k: int| 0 <= k < p - 1 ==> d[k] == s[k + 1]);
        assert(p - 1 < d.len() ==> head_le(x, d[p - 1]));
        lemma_insert_sorted_split(x, d, p - 1);
        assert(spec_insert_sorted(x, s) == seq![s.first()] + (d.take(p - 1) + seq![x] + d.skip(p
            - 1)));
        assert(seq![s.first()] + (d.take(p - 1) + seq![x] + d.skip(p - 1)) =~= s.take(p) + seq![x]
            + s.skip(p));
    }
}

/// Membership is preserved by sorted insertion.
proof fn lemma_insert_sorted_contains(x: BeaconHead, s: Seq<BeaconHead>, h: BeaconHead)
    ensures
        spec_insert_sorted(x, s).contains(h) <==> (h == x || s.contains(h)),
    decreases s.len(),
{
    broadcast use vstd::seq_lib::group_seq_properties;

    if s.len() == 0 {
        assert(spec_insert_sorted(x, s)[0] == x);
    } else if head_le(x, s.first()) {
    } else {
        lemma_insert_sorted_contains(x, s.drop_first(), h);
        assert((seq![s.first()] + spec_insert_sorted(x, s.drop_first())).contains(h) <==> (h
            == s.first() || spec_insert_sorted(x, s.drop_first()).contains(h)));
        assert(s.contains(h) <==> (h == s.first() || s.drop_first().contains(h))) by {
            if s.contains(h) {
                let k = choose|k: int| 0 <= k < s.len() && s[k] == h;
                if k > 0 {
                    assert(s.drop_first()[k - 1] == h);
                }
            }
            if s.drop_first().contains(h) {
                let k = choose|k: int| 0 <= k < s.drop_first().len() && s.drop_first()[k] == h;
                assert(s[k + 1] == h);
            }
        }
    }
}

/// The head order is total.
proof fn lemma_head_le_total(a: BeaconHead, b: BeaconHead)
    ensures
        head_le(a, b) || head_le(b, a),
{
}

/// Sorted insertion keeps a sequence sorted.
proof fn lemma_insert_sorted_sorted(x: BeaconHead, s: Seq<BeaconHead>)
    requires
        heads_sorted(s),
    ensures
        heads_sorted(spec_insert_sorted(x, s)),
    decreases s.len(),
{
    if s.len() == 0 {
    } else if head_le(x, s.first()) {
        let out = seq![x] + s;
        assert forall|i: int, j: int| 0 <= i < j < out.len() implies head_le(out[i], out[j]) by {
            if i == 0 {
                if j > 0 {
                    assert(out[j] == s[j - 1]);
                    if j == 1 {
                    } else {
                        assert(head_le(s.first(), s[j - 1]));
                        lemma_head_le_trans(x, s.first(), s[j - 1]);
                    }
                }
            } else {
                assert(out[i] == s[i - 1] && out[j] == s[j - 1]);
            }
        }
    } else {
        assert(heads_sorted(s.drop_first())) by {
            assert(forall|i: int, j: int|
                0 <= i < j < s.drop_first().len() ==> s.drop_first()[i] == s[i + 1]
                    && s.drop_first()[j] == s[j + 1]);
        }
        lemma_insert_sorted_sorted(x, s.drop_first());
        let rest = spec_insert_sorted(x, s.drop_first());
        let out = seq![s.first()] + rest;
        lemma_head_le_total(x, s.first());
        assert forall|i: int, j: int| 0 <= i < j < out.len() implies head_le(out[i], out[j]) by {
            if i == 0 {
                assert(out[j] == rest[j - 1]);
                lemma_insert_sorted_contains(x, s.drop_first(), rest[j - 1]);
                if rest[j - 1] == x {
                    assert(head_le(s.first(), x));
                } else {
                    assert(s.drop_first().contains(rest[j - 1]));
                    let k = choose|k: int|
                        0 <= k < s.drop_first().len() && s.drop_first()[k] == rest[j - 1];
                    assert(s[k + 1] == rest[j - 1]);
                    assert(head_le(s[0], s[k + 1]));
                }
            } else {
                assert(out[i] == rest[i - 1] && out[j] == rest[j - 1]);
            }
        }
    }
}

/// The head order is transitive.
proof fn lemma_head_le_trans(a: BeaconHead, b: BeaconHead, c: BeaconHead)
    requires
        head_le(a, b),
        head_le(b, c),
    ensures
        head_le(a, c),
{
}

/// Law: sorting preserves membership, so the head-definition law holds
/// of the sorted output as well.
pub proof fn lemma_sort_heads_contains(s: Seq<BeaconHead>, h: BeaconHead)
    ensures
        spec_sort_heads(s).contains(h) <==> s.contains(h),
    decreases s.len(),
{
    broadcast use vstd::seq_lib::group_seq_properties;

    if s.len() == 0 {
    } else {
        lemma_sort_heads_contains(s.drop_last(), h);
        lemma_insert_sorted_contains(s.last(), spec_sort_heads(s.drop_last()), h);
        assert(s.contains(h) <==> (h == s.last() || s.drop_last().contains(h))) by {
            if s.contains(h) {
                let k = choose|k: int| 0 <= k < s.len() && s[k] == h;
                if k < s.len() - 1 {
                    assert(s.drop_last()[k] == h);
                }
            }
        }
    }
}

/// Law: the sorted head sequence is ascending by slot, then root.
pub proof fn lemma_sort_heads_sorted(s: Seq<BeaconHead>)
    ensures
        heads_sorted(spec_sort_heads(s)),
    decreases s.len(),
{
    if s.len() > 0 {
        lemma_sort_heads_sorted(s.drop_last());
        lemma_insert_sorted_sorted(s.last(), spec_sort_heads(s.drop_last()));
    }
}

/// Law: a block of the mapping yields a head iff no other block of the
/// mapping names its root as parent. Holds of any mapping whose keys
/// are unique and key each block by its own root, as the tree filter
/// guarantees.
pub proof fn lemma_head_definition(m: Seq<(Root, Block)>, i: int)
    requires
        unique_keys(m),
        forall|k: int| 0 <= k < m.len() ==> (#[trigger] m[k]).1.root == m[k].0,
        0 <= i < m.len(),
    ensures
        spec_heads(m).contains(spec_head_of(m[i])) <==> spec_is_head(m, i),
{
    lemma_heads_prefix_contains(m, m.len() as int, spec_head_of(m[i]));
    if spec_heads(m).contains(spec_head_of(m[i])) {
        let j = choose|j: int|
            0 <= j < m.len() && #[trigger] spec_is_head(m, j) && spec_head_of(m[i])
                == spec_head_of(m[j]);
        assert(m[j].1.root == m[j].0 && m[i].1.root == m[i].0);
        assert(m[j].0 == m[i].0);
        assert(j == i);
    }
}

/// Membership in the head sequence names a witness entry.
proof fn lemma_heads_prefix_contains(m: Seq<(Root, Block)>, k: int, h: BeaconHead)
    requires
        k <= m.len(),
    ensures
        spec_heads_prefix(m, k).contains(h) <==> exists|j: int|
            0 <= j < k && #[trigger] spec_is_head(m, j) && h == spec_head_of(m[j]),
    decreases k,
{
    broadcast use vstd::seq_lib::group_seq_properties;

    if k <= 0 {
    } else {
        lemma_heads_prefix_contains(m, k - 1, h);
        let rest = spec_heads_prefix(m, k - 1);
        if spec_heads_prefix(m, k).contains(h) {
            if spec_is_head(m, k - 1) && h == spec_head_of(m[k - 1]) {
            } else {
                assert(rest.contains(h)) by {
                    if spec_is_head(m, k - 1) {
                        let p = choose|p: int|
                            0 <= p < spec_heads_prefix(m, k).len() && spec_heads_prefix(m, k)[p]
                                == h;
                        assert(p < rest.len());
                    }
                }
            }
        }
        if exists|j: int| 0 <= j < k && #[trigger] spec_is_head(m, j) && h == spec_head_of(m[j]) {
            let j = choose|j: int|
                0 <= j < k && #[trigger] spec_is_head(m, j) && h == spec_head_of(m[j]);
            if j == k - 1 {
                assert(spec_heads_prefix(m, k) == rest.push(h));
            } else {
                assert(rest.contains(h));
                let p = choose|p: int| 0 <= p < rest.len() && rest[p] == h;
                assert(spec_heads_prefix(m, k)[p] == h);
            }
        }
    }
}

/// Law: the tree filter and the head derivation are functions of the
/// snapshot alone; two runs over the same table and root agree exactly.
pub proof fn lemma_tree_filter_idempotent(
    m: Seq<(Root, Block)>,
    root: Root,
    first: Seq<(Root, Block)>,
    second: Seq<(Root, Block)>,
)
    requires
        first == spec_filtered_tree(m, root),
        second == spec_filtered_tree(m, root),
    ensures
        first == second,
        spec_sort_heads(spec_heads(first)) == spec_sort_heads(spec_heads(second)),
{
}

/// The mapping as value entries, with each borrowed block read through.
pub open spec fn deref_entries(s: Seq<(Root, &Block)>) -> Seq<(Root, Block)> {
    Seq::new(s.len(), |i: int| (s[i].0, *s[i].1))
}

fn head_le_exec(a: &BeaconHead, b: &BeaconHead) -> (r: bool)
    ensures
        r == head_le(*a, *b),
{
    if a.slot < b.slot {
        true
    } else if a.slot == b.slot {
        if a.root.w0 != b.root.w0 {
            a.root.w0 < b.root.w0
        } else if a.root.w1 != b.root.w1 {
            a.root.w1 < b.root.w1
        } else if a.root.w2 != b.root.w2 {
            a.root.w2 < b.root.w2
        } else {
            a.root.w3 <= b.root.w3
        }
    } else {
        false
    }
}

fn is_referenced_by_other(m: &Vec<(Root, &Block)>, i: usize) -> (b: bool)
    requires
        i < m@.len(),
    ensures
        b == spec_referenced_by_other(deref_entries(m@), i as int),
{
    let r = m[i].0;
    let mut j: usize = 0;
    while j < m.len()
        invariant
            0 <= j <= m@.len(),
            i < m@.len(),
            r == deref_entries(m@)[i as int].0,
            forall|k: int|
                0 <= k < j && k != i ==> (#[trigger] deref_entries(m@)[k]).1.parent_root != r,
        decreases m@.len() - j,
    {
        if j != i && m[j].1.parent_root == r {
            assert(deref_entries(m@)[j as int].1.parent_root == r);
            return true;
        }
        j = j + 1;
    }
    false
}

fn sort_heads(v: &Vec<BeaconHead>) -> (r: Vec<BeaconHead>)
    ensures
        r@ == spec_sort_heads(v@),
{
    let mut out: Vec<BeaconHead> = Vec::new();
    let mut i: usize = 0;
    proof {
        assert(v@.take(0) =~= Seq::<BeaconHead>::empty());
    }
    while i < v.len()
        invariant
            0 <= i <= v@.len(),
            out@ == spec_sort_heads(v@.take(i as int)),
        decreases v@.len() - i,
    {
        let x = v[i];
        let mut p: usize = 0;
        while p < out.len() && !head_le_exec(&x, &out[p])
            invariant
                0 <= p <= out@.len(),
                forall|k: int| 0 <= k < p ==> !head_le(x, #[trigger] out@[k]),
            decreases out@.len() - p,
        {
            p = p + 1;
        }
        let ghost pre = out@;
        out.insert(p, x);
        proof {
            lemma_insert_sorted_split(x, pre, p as int);
            assert(out@ =~= pre.take(p as int) + seq![x] + pre.skip(p as int));
            assert(v@.take(i as int + 1).drop_last() =~= v@.take(i as int));
            assert(v@.take(i as int + 1).last() == v@[i as int]);
        }
        i = i + 1;
    }
    proof {
        assert(v@.take(v@.len() as int) =~= v@);
    }
    out
}

/// Derives the chain heads of a filtered mapping: the blocks whose
/// root never appears as a parent-root within the mapping, sorted by
/// slot then root for reproducible output.
pub fn block_tree_heads(m: &Vec<(Root, &Block)>) -> (r: Vec<BeaconHead>)
    ensures
        r@ == spec_sort_heads(spec_heads(deref_entries(m@))),
{
    let ghost full = deref_entries(m@);
    let mut heads: Vec<BeaconHead> = Vec::new();
    let mut i: usize = 0;
    while i < m.len()
        invariant
            0 <= i <= m@.len(),
            full == deref_entries(m@),
            heads@ == spec_heads_prefix(full, i as int),
        decreases m@.len() - i,
    {
        if !is_referenced_by_other(m, i) {
            heads.push(BeaconHead { root: m[i].1.root, slot: m[i].1.slot });
            assert(BeaconHead { root: m@[i as int].1.root, slot: m@[i as int].1.slot }
                == spec_head_of(full[i as int]));
        }
        i = i + 1;
    }
    sort_heads(&heads)
}

/// What the heads read yields on snapshot `s`: the sorted heads of the
/// block tree filtered from the justified checkpoint.
pub open spec fn spec_beacon_heads(s: StoreSnapshot) -> Result<Seq<BeaconHead>, ApiError> {
    match spec_checkpoint_root(s.justified_checkpoint) {
        Ok(root) => match s.blocks {
            StoreRead::Found(t) => Ok(spec_sort_heads(spec_heads(spec_filtered_tree(t@, root)))),
            StoreRead::Absent => Ok(Seq::empty()),
            StoreRead::Failed => Err(ApiError::InternalError),
        },
        Err(e) => Err(e),
    }
}

/// Reads the justified checkpoint, filters the block tree under it, and
/// reports the chain heads.
pub fn get_beacon_heads(s: &StoreSnapshot) -> (r: Result<Vec<BeaconHead>, ApiError>)
    requires
        s.blocks_wf(),
    ensures
        match r {
            Ok(h) => spec_beacon_heads(*s) == Ok::<Seq<BeaconHead>, ApiError>(h@),
            Err(e) => spec_beacon_heads(*s) == Err::<Seq<BeaconHead>, ApiError>(e),
        },
{
    let root = match crate::accessor::get_block_root_from_id(crate::types::BlockId::Justified, s) {
        Ok(root) => root,
        Err(e) => {
            return Err(e);
        },
    };
    match &s.blocks {
        StoreRead::Found(t) => {
            let tree = collect_tree(t, root);
            proof {
                assert(deref_entries(tree@) =~= spec_filtered_tree(t@, root));
            }
            Ok(block_tree_heads(&tree))
        },
        StoreRead::Absent => Ok(Vec::new()),
        StoreRead::Failed => Err(ApiError::InternalError),
    }
}

} // verus!
