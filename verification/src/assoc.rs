use vstd::prelude::*;

verus! {

/// The mapping an ordered run of (key, value) pairs builds up when each
/// pair is inserted in turn: a later pair with the same key wins.
pub open spec fn map_of_pairs<K, V>(ps: Seq<(K, V)>) -> Map<K, V>
    decreases ps.len(),
{
    if ps.len() == 0 {
        Map::empty()
    } else {
        map_of_pairs(ps.drop_last()).insert(ps.last().0, ps.last().1)
    }
}

/// No two pairs share a key.
pub open spec fn unique_keys<K, V>(ps: Seq<(K, V)>) -> bool {
    forall|i: int, j: int| 0 <= i < j < ps.len() ==> ps[i].0 != ps[j].0
}

pub proof fn lemma_map_of_pairs_get<K, V>(ps: Seq<(K, V)>, i: int)
    requires
        unique_keys(ps),
        0 <= i < ps.len(),
    ensures
        map_of_pairs(ps).contains_key(ps[i].0),
        map_of_pairs(ps)[ps[i].0] == ps[i].1,
    decreases ps.len(),
{
    if i < ps.len() - 1 {
        assert(unique_keys(ps.drop_last())) by {
            assert(forall|a: int, b: int|
                0 <= a < b < ps.len() - 1 ==> ps.drop_last()[a] == ps[a] && ps.drop_last()[b]
                    == ps[b]);
        }
        assert(ps.drop_last()[i] == ps[i]);
        lemma_map_of_pairs_get(ps.drop_last(), i);
        assert(ps[i].0 != ps.last().0);
    }
}

pub proof fn lemma_map_of_pairs_absent<K, V>(ps: Seq<(K, V)>, k: K)
    requires
        forall|i: int| 0 <= i < ps.len() ==> ps[i].0 != k,
    ensures
        !map_of_pairs(ps).contains_key(k),
    decreases ps.len(),
{
    if ps.len() > 0 {
        assert(forall|i: int|
            0 <= i < ps.len() - 1 ==> ps.drop_last()[i] == ps[i] && ps[i].0 != k);
        lemma_map_of_pairs_absent(ps.drop_last(), k);
    }
}

pub proof fn lemma_map_of_pairs_update<K, V>(ps: Seq<(K, V)>, i: int, v: V)
    requires
        unique_keys(ps),
        0 <= i < ps.len(),
    ensures
        map_of_pairs(ps.update(i, (ps[i].0, v))) == map_of_pairs(ps).insert(ps[i].0, v),
    decreases ps.len(),
{
    let k = ps[i].0;
    let u = ps.update(i, (k, v));
    if i == ps.len() - 1 {
        assert(u.drop_last() =~= ps.drop_last());
        assert(u.last() == (k, v));
        assert(map_of_pairs(ps.drop_last()).insert(k, ps[i].1).insert(k, v) =~= map_of_pairs(
            ps.drop_last(),
        ).insert(k, v));
    } else {
        assert(unique_keys(ps.drop_last())) by {
            assert(forall|a: int, b: int|
                0 <= a < b < ps.len() - 1 ==> ps.drop_last()[a] == ps[a] && ps.drop_last()[b]
                    == ps[b]);
        }
        assert(ps.drop_last()[i] == ps[i]);
        lemma_map_of_pairs_update(ps.drop_last(), i, v);
        assert(u.drop_last() =~= ps.drop_last().update(i, (k, v)));
        assert(u.last() == ps.last());
        assert(k != ps.last().0);
        assert(map_of_pairs(ps.drop_last()).insert(k, v).insert(ps.last().0, ps.last().1)
            =~= map_of_pairs(ps.drop_last()).insert(ps.last().0, ps.last().1).insert(k, v));
    }
}

/// With no key repeated, the map holds exactly one binding per pair.
pub proof fn lemma_map_of_pairs_card<K, V>(ps: Seq<(K, V)>)
    requires
        unique_keys(ps),
    ensures
        map_of_pairs(ps).dom().finite(),
        map_of_pairs(ps).dom().len() == ps.len(),
    decreases ps.len(),
{
    if ps.len() > 0 {
        assert(unique_keys(ps.drop_last())) by {
            assert(forall|a: int, b: int|
                0 <= a < b < ps.len() - 1 ==> ps.drop_last()[a] == ps[a] && ps.drop_last()[b]
                    == ps[b]);
        }
        lemma_map_of_pairs_card(ps.drop_last());
        assert(forall|i: int| 0 <= i < ps.len() - 1 ==> ps.drop_last()[i] == ps[i]);
        lemma_map_of_pairs_absent(ps.drop_last(), ps.last().0);
    }
}

/// `m` with every pair of `ps` inserted in turn.
pub open spec fn insert_all<K, V>(m: Map<K, V>, ps: Seq<(K, V)>) -> Map<K, V>
    decreases ps.len(),
{
    if ps.len() == 0 {
        m
    } else {
        insert_all(m, ps.drop_last()).insert(ps.last().0, ps.last().1)
    }
}

pub proof fn lemma_insert_all_concat<K, V>(m: Map<K, V>, a: Seq<(K, V)>, b: Seq<(K, V)>)
    ensures
        insert_all(m, a + b) == insert_all(insert_all(m, a), b),
    decreases b.len(),
{
    if b.len() == 0 {
        assert(a + b =~= a);
    } else {
        lemma_insert_all_concat(m, a, b.drop_last());
        assert((a + b).drop_last() =~= a + b.drop_last());
        assert((a + b).last() == b.last());
    }
}

pub proof fn lemma_insert_all_from_empty<K, V>(ps: Seq<(K, V)>)
    ensures
        insert_all(Map::<K, V>::empty(), ps) == map_of_pairs(ps),
    decreases ps.len(),
{
    if ps.len() > 0 {
        lemma_insert_all_from_empty(ps.drop_last());
    }
}

} // verus!
