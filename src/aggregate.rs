use vstd::prelude::*;

use vstd::multiset::Multiset;

use crate::table::rows_view;

verus! {

broadcast use {vstd::seq_lib::group_to_multiset_ensures, vstd::multiset::group_multiset_axioms};

/// The rows of one complexity value: the value text of each of them. Their
/// mean is taken over these values.
#[derive(Debug, PartialEq, Eq)]
pub struct Group {
    pub complexity: u64,
    pub values: Vec<Vec<u8>>,
}

/// A group's values as plain sequences.
pub open spec fn values_view(g: Group) -> Seq<Seq<u8>> {
    g.values@.map_values(|v: Vec<u8>| v@)
}

/// The value of `r` when it has complexity `c`, as a multiset of at most one.
pub open spec fn value_if(r: (u64, Seq<u8>), c: u64) -> Multiset<Seq<u8>> {
    if r.0 == c {
        Multiset::singleton(r.1)
    } else {
        Multiset::empty()
    }
}

/// The values of the rows of complexity `c`.
pub open spec fn values_of(rows: Seq<(u64, Seq<u8>)>, c: u64) -> Multiset<Seq<u8>>
    decreases rows.len(),
{
    if rows.len() == 0 {
        Multiset::empty()
    } else {
        values_of(rows.drop_last(), c).add(value_if(rows.last(), c))
    }
}

pub open spec fn has_key(groups: Seq<Group>, c: u64) -> bool {
    exists|i: int| 0 <= i < groups.len() && (#[trigger] groups[i]).complexity == c
}

/// `groups` holds one group for each complexity value found in `rows`, in
/// strictly increasing complexity, each with the values of that
/// complexity's rows.
pub open spec fn is_grouping(rows: Seq<(u64, Seq<u8>)>, groups: Seq<Group>) -> bool {
    &&& forall|i: int, j: int|
        0 <= i < j < groups.len() ==> (#[trigger] groups[i]).complexity < (
        #[trigger] groups[j]).complexity
    &&& forall|i: int|
        0 <= i < groups.len() ==> {
            &&& values_view(#[trigger] groups[i]).to_multiset() == values_of(
                rows,
                groups[i].complexity,
            )
            &&& groups[i].values@.len() > 0
        }
    &&& forall|k: int| 0 <= k < rows.len() ==> has_key(groups, (#[trigger] rows[k]).0)
}

proof fn lemma_values_remove(s: Seq<(u64, Seq<u8>)>, k: int, c: u64)
    requires
        0 <= k < s.len(),
    ensures
        values_of(s, c) == values_of(s.remove(k), c).add(value_if(s[k], c)),
    decreases s.len(),
{
    if k == s.len() - 1 {
        assert(s.remove(k) =~= s.drop_last());
    } else {
        lemma_values_remove(s.drop_last(), k, c);
        assert(s.remove(k).drop_last() =~= s.drop_last().remove(k));
        assert(s.remove(k).last() == s.last());
        assert(values_of(s, c) =~= values_of(s.remove(k), c).add(value_if(s[k], c)));
    }
}

proof fn lemma_values_permutation(a: Seq<(u64, Seq<u8>)>, b: Seq<(u64, Seq<u8>)>, c: u64)
    requires
        a.to_multiset() == b.to_multiset(),
    ensures
        values_of(a, c) == values_of(b, c),
    decreases a.len(),
{
    if a.len() == 0 {
        assert(b.to_multiset().len() == 0);
        assert(b.len() == 0);
    } else {
        let x = a.last();
        let a0 = a.drop_last();
        assert(a0.push(x) == a);
        assert(a.to_multiset() == a0.to_multiset().insert(x));
        assert(b.to_multiset().count(x) > 0);
        assert(b.contains(x));
        let k = choose|k: int| 0 <= k < b.len() && b[k] == x;
        let b0 = b.remove(k);
        assert(b0.to_multiset() == b.to_multiset().remove(x));
        assert(b0.to_multiset() =~= a0.to_multiset());
        lemma_values_permutation(a0, b0, c);
        lemma_values_remove(b, k, c);
    }
}

proof fn lemma_values_present(rows: Seq<(u64, Seq<u8>)>, c: u64)
    ensures
        values_of(rows, c).len() > 0 ==> exists|k: int|
            0 <= k < rows.len() && (#[trigger] rows[k]).0 == c,
    decreases rows.len(),
{
    if rows.len() > 0 {
        let init = rows.drop_last();
        lemma_values_present(init, c);
        if values_of(init, c).len() > 0 {
            let k = choose|k: int| 0 <= k < init.len() && (#[trigger] init[k]).0 == c;
            assert(rows[k] == init[k]);
        }
        if rows.last().0 == c {
            assert(rows[rows.len() - 1].0 == c);
        }
    }
}

proof fn lemma_sorted_keys_unique(g1: Seq<Group>, g2: Seq<Group>)
    requires
        forall|i: int, j: int|
            0 <= i < j < g1.len() ==> (#[trigger] g1[i]).complexity < (#[trigger] g1[j]).complexity,
        forall|i: int, j: int|
            0 <= i < j < g2.len() ==> (#[trigger] g2[i]).complexity < (#[trigger] g2[j]).complexity,
        forall|c: u64| has_key(g1, c) <==> has_key(g2, c),
    ensures
        g1.len() == g2.len(),
        forall|i: int| 0 <= i < g1.len() ==> (#[trigger] g1[i]).complexity == g2[i].complexity,
    decreases g1.len(),
{
    if g1.len() == 0 {
        if g2.len() > 0 {
            assert(has_key(g2, g2[0].complexity));
        }
    } else {
        assert(has_key(g1, g1[0].complexity));
        assert(g2.len() > 0);
        assert(has_key(g2, g2[0].complexity));
        let j = choose|j: int| 0 <= j < g2.len() && (#[trigger] g2[j]).complexity == g1[0].complexity;
        let i = choose|i: int| 0 <= i < g1.len() && (#[trigger] g1[i]).complexity == g2[0].complexity;
        if j > 0 {
            assert(g2[0].complexity < g2[j].complexity);
        }
        if i > 0 {
            assert(g1[0].complexity < g1[i].complexity);
        }
        assert(g1[0].complexity == g2[0].complexity);
        let r1 = g1.drop_first();
        let r2 = g2.drop_first();
        assert forall|c: u64| has_key(r1, c) <==> has_key(r2, c) by {
            if has_key(r1, c) {
                let a = choose|a: int| 0 <= a < r1.len() && (#[trigger] r1[a]).complexity == c;
                assert(g1[a + 1].complexity == c);
                assert(has_key(g1, c));
                let b = choose|b: int| 0 <= b < g2.len() && (#[trigger] g2[b]).complexity == c;
                assert(g1[0].complexity < g1[a + 1].complexity);
                assert(b != 0);
                assert(r2[b - 1].complexity == c);
            }
            if has_key(r2, c) {
                let a = choose|a: int| 0 <= a < r2.len() && (#[trigger] r2[a]).complexity == c;
                assert(g2[a + 1].complexity == c);
                assert(has_key(g2, c));
                let b = choose|b: int| 0 <= b < g1.len() && (#[trigger] g1[b]).complexity == c;
                assert(g2[0].complexity < g2[a + 1].complexity);
                assert(b != 0);
                assert(r1[b - 1].complexity == c);
            }
        }
        lemma_sorted_keys_unique(r1, r2);
        assert forall|i: int| 0 <= i < g1.len() implies (#[trigger] g1[i]).complexity
            == g2[i].complexity by {
            if i > 0 {
                assert(g1[i] == r1[i - 1]);
                assert(g2[i] == r2[i - 1]);
            }
        }
    }
}

proof fn lemma_keys_are_row_keys(rows: Seq<(u64, Seq<u8>)>, g: Seq<Group>, c: u64)
    requires
        is_grouping(rows, g),
    ensures
        has_key(g, c) <==> values_of(rows, c).len() > 0,
{
    lemma_values_present(rows, c);
    if values_of(rows, c).len() > 0 {
        let k = choose|k: int| 0 <= k < rows.len() && (#[trigger] rows[k]).0 == c;
        assert(has_key(g, rows[k].0));
    }
    if has_key(g, c) {
        let i = choose|i: int| 0 <= i < g.len() && (#[trigger] g[i]).complexity == c;
        assert(values_view(g[i]).len() > 0);
        assert(values_view(g[i]).to_multiset().len() > 0);
    }
}

/// Grouping does not depend on the order of the rows: two orderings of the
/// same rows have groups of the same complexities, in the same order, each
/// with the same values.
pub proof fn lemma_grouping_order_independent(
    rows1: Seq<(u64, Seq<u8>)>,
    rows2: Seq<(u64, Seq<u8>)>,
    g1: Seq<Group>,
    g2: Seq<Group>,
)
    requires
        rows1.to_multiset() == rows2.to_multiset(),
        is_grouping(rows1, g1),
        is_grouping(rows2, g2),
    ensures
        g1.len() == g2.len(),
        forall|i: int|
            0 <= i < g1.len() ==> (#[trigger] g1[i]).complexity == g2[i].complexity && values_view(
                g1[i],
            ).to_multiset() == values_view(g2[i]).to_multiset(),
{
    assert forall|c: u64| values_of(rows1, c) == values_of(rows2, c) by {
        lemma_values_permutation(rows1, rows2, c);
    }
    assert forall|c: u64| has_key(g1, c) <==> has_key(g2, c) by {
        lemma_keys_are_row_keys(rows1, g1, c);
        lemma_keys_are_row_keys(rows2, g2, c);
    }
    lemma_sorted_keys_unique(g1, g2);
}

/// Groups rows by complexity: one group per complexity value present, in
/// increasing complexity, with the values of its rows.
pub fn aggregate(rows: &Vec<(u64, Vec<u8>)>) -> (r: Vec<Group>)
    ensures
        is_grouping(rows_view(rows@), r@),
        rows@.len() == 0 ==> r@.len() == 0,
{
    let ghost rv = rows_view(rows@);
    let mut groups: Vec<Group> = Vec::new();
    let mut i: usize = 0;
    while i < rows.len()
        invariant
            0 <= i <= rows@.len(),
            rv == rows_view(rows@),
            is_grouping(rv.take(i as int), groups@),
        decreases rows@.len() - i,
    {
        let c = rows[i].0;
        let v = rows[i].1.clone();
        let ghost before = rv.take(i as int);
        let ghost after = rv.take(i + 1);
        let ghost old_groups = groups@;
        proof {
            assert(v@ =~= rows@[i as int].1@);
            assert(rv[i as int] == (c, v@));
            assert(after.drop_last() =~= before);
            assert(after.last() == (c, v@));
            assert forall|d: u64|
                values_of(after, d) == values_of(before, d).add(value_if((c, v@), d)) by {}
        }
        let mut pos: usize = 0;
        while pos < groups.len() && groups[pos].complexity < c
            invariant
                0 <= pos <= groups@.len(),
                groups@ == old_groups,
                forall|q: int| 0 <= q < pos ==> (#[trigger] groups@[q]).complexity < c,
            decreases groups@.len() - pos,
        {
            pos = pos + 1;
        }
        if pos < groups.len() && groups[pos].complexity == c {
            let mut g = groups.remove(pos);
            let ghost old_g = g;
            g.values.push(v);
            let ghost new_g = g;
            groups.insert(pos, g);
            proof {
                assert(groups@ =~= old_groups.update(pos as int, new_g));
                assert(values_view(new_g) =~= values_view(old_g).push(v@));
                assert(values_view(new_g).to_multiset() =~= values_of(after, c));
                assert forall|q: int| 0 <= q < groups@.len() implies {
                    &&& values_view(#[trigger] groups@[q]).to_multiset() == values_of(
                        after,
                        groups@[q].complexity,
                    )
                    &&& groups@[q].values@.len() > 0
                } by {
                    if q != pos {
                        assert(groups@[q] == old_groups[q]);
                        assert(values_of(after, groups@[q].complexity) =~= values_of(
                            before,
                            groups@[q].complexity,
                        ));
                    }
                }
                assert forall|k: int| 0 <= k < after.len() implies has_key(
                    groups@,
                    (#[trigger] after[k]).0,
                ) by {
                    if k < before.len() {
                        assert(after[k] == before[k]);
                        assert(has_key(old_groups, before[k].0));
                        let w = choose|w: int|
                            0 <= w < old_groups.len() && (#[trigger] old_groups[w]).complexity
                                == before[k].0;
                        assert(groups@[w].complexity == before[k].0);
                    } else {
                        assert(groups@[pos as int].complexity == c);
                    }
                }
            }
        } else {
            proof {
                lemma_values_present(before, c);
                if values_of(before, c).len() > 0 {
                    let k = choose|k: int| 0 <= k < before.len() && (#[trigger] before[k]).0 == c;
                    assert(has_key(old_groups, before[k].0));
                    let w = choose|w: int|
                        0 <= w < old_groups.len() && (#[trigger] old_groups[w]).complexity == c;
                    if w > pos {
                        assert(old_groups[pos as int].complexity < old_groups[w].complexity);
                    }
                }
                assert(values_of(before, c) =~= Multiset::empty());
            }
            let mut vals: Vec<Vec<u8>> = Vec::new();
            vals.push(v);
            let new_g = Group { complexity: c, values: vals };
            proof {
                assert(values_view(new_g) =~= seq![v@]);
                assert(seq![v@] =~= Seq::<Seq<u8>>::empty().push(v@));
                assert(values_view(new_g).to_multiset() =~= values_of(after, c));
            }
            groups.insert(pos, new_g);
            proof {
                assert forall|q: int| 0 <= q < groups@.len() implies {
                    &&& values_view(#[trigger] groups@[q]).to_multiset() == values_of(
                        after,
                        groups@[q].complexity,
                    )
                    &&& groups@[q].values@.len() > 0
                } by {
                    if q != pos {
                        let o = if q < pos {
                            q
                        } else {
                            q - 1
                        };
                        assert(groups@[q] == old_groups[o]);
                        assert(old_groups[o].complexity != c) by {
                            if o >= pos {
                                if o > pos {
                                    assert(old_groups[pos as int].complexity
                                        < old_groups[o].complexity);
                                }
                            }
                        }
                        assert(values_of(after, groups@[q].complexity) =~= values_of(
                            before,
                            groups@[q].complexity,
                        ));
                    }
                }
                assert forall|k: int| 0 <= k < after.len() implies has_key(
                    groups@,
                    (#[trigger] after[k]).0,
                ) by {
                    if k < before.len() {
                        assert(after[k] == before[k]);
                        assert(has_key(old_groups, before[k].0));
                        let w = choose|w: int|
                            0 <= w < old_groups.len() && (#[trigger] old_groups[w]).complexity
                                == before[k].0;
                        if w < pos {
                            assert(groups@[w] == old_groups[w]);
                        } else {
                            assert(groups@[w + 1] == old_groups[w]);
                        }
                    } else {
                        assert(groups@[pos as int].complexity == c);
                    }
                }
                assert forall|a: int, b: int|
                    0 <= a < b < groups@.len() implies (#[trigger] groups@[a]).complexity < (
                    #[trigger] groups@[b]).complexity by {
                    if pos < old_groups.len() && b > pos {
                        assert(old_groups[pos as int].complexity > c);
                    }
                    if a > pos {
                        assert(old_groups[a - 1].complexity < old_groups[b - 1].complexity);
                    } else if a < pos && b > pos {
                        assert(old_groups[b - 1].complexity >= old_groups[pos as int].complexity);
                    }
                }
            }
        }
        i = i + 1;
    }
    proof {
        assert(rv.take(i as int) =~= rv);
        if rows@.len() == 0 && groups@.len() > 0 {
            assert(values_view(groups@[0]).to_multiset() == values_of(rv, groups@[0].complexity));
            assert(values_of(rv, groups@[0].complexity).len() == 0);
            assert(values_view(groups@[0]).len() > 0);
        }
    }
    groups
}

} // verus!
