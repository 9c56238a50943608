//! Association lists: sequences of key and value pairs, read as maps.
use vstd::prelude::*;

verus! {

/// The map that the pairs of `list` make up. Of two pairs with one key the
/// later one counts.
pub open spec fn assoc<K, V>(list: Seq<(K, V)>) -> Map<K, V>
    decreases list.len(),
{
    if list.len() == 0 {
        Map::empty()
    } else {
        assoc(list.drop_last()).insert(list.last().0, list.last().1)
    }
}

/// No key occurs twice in `list`.
pub open spec fn distinct_keys<K, V>(list: Seq<(K, V)>) -> bool {
    forall|i: int, j: int| 0 <= i < j < list.len() ==> list[i].0 != list[j].0
}

/// The keys of `list`, in its order.
pub open spec fn keys<K, V>(list: Seq<(K, V)>) -> Seq<K> {
    Seq::new(list.len(), |i: int| list[i].0)
}

/// The map holds the keys of the list and no other.
pub proof fn lemma_assoc_dom<K, V>(list: Seq<(K, V)>, k: K)
    ensures
        assoc(list).contains_key(k) <==> exists|i: int| 0 <= i < list.len() && list[i].0 == k,
    decreases list.len(),
{
    if list.len() > 0 {
        let front = list.drop_last();
        lemma_assoc_dom(front, k);
        if assoc(list).contains_key(k) {
            if list.last().0 == k {
                assert(list[list.len() - 1].0 == k);
            } else {
                let i = choose|i: int| 0 <= i < front.len() && front[i].0 == k;
                assert(list[i].0 == k);
            }
        }
        if exists|i: int| 0 <= i < list.len() && list[i].0 == k {
            let i = choose|i: int| 0 <= i < list.len() && list[i].0 == k;
            if i < list.len() - 1 {
                assert(front[i].0 == k);
            }
        }
    }
}

/// A key that the list does not hold is not in the map.
pub proof fn lemma_assoc_absent<K, V>(list: Seq<(K, V)>, k: K)
    requires
        forall|i: int| 0 <= i < list.len() ==> list[i].0 != k,
    ensures
        !assoc(list).contains_key(k),
{
    lemma_assoc_dom(list, k);
}

/// Where no key occurs twice, the map gives each key the value it stands with.
pub proof fn lemma_assoc_get<K, V>(list: Seq<(K, V)>, i: int)
    requires
        distinct_keys(list),
        0 <= i < list.len(),
    ensures
        assoc(list).contains_key(list[i].0),
        assoc(list)[list[i].0] == list[i].1,
    decreases list.len(),
{
    if i < list.len() - 1 {
        let front = list.drop_last();
        assert(front[i] == list[i]);
        assert(distinct_keys(front)) by {
            assert forall|a: int, b: int| 0 <= a < b < front.len() implies front[a].0
                != front[b].0 by {
                assert(front[a] == list[a] && front[b] == list[b]);
            }
        }
        lemma_assoc_get(front, i);
    }
}

/// Replacing the value of the pair at `i` is an insertion under its key.
pub proof fn lemma_assoc_update<K, V>(list: Seq<(K, V)>, i: int, v: V)
    requires
        distinct_keys(list),
        0 <= i < list.len(),
    ensures
        assoc(list.update(i, (list[i].0, v))) == assoc(list).insert(list[i].0, v),
        distinct_keys(list.update(i, (list[i].0, v))),
    decreases list.len(),
{
    let k = list[i].0;
    let new = list.update(i, (k, v));
    let front = list.drop_last();
    assert(distinct_keys(new)) by {
        assert forall|a: int, b: int| 0 <= a < b < new.len() implies new[a].0 != new[b].0 by {
            assert(new[a].0 == list[a].0 && new[b].0 == list[b].0);
        }
    }
    if i == list.len() - 1 {
        assert(new.drop_last() =~= front);
        assert(assoc(new) =~= assoc(list).insert(k, v));
    } else {
        assert(distinct_keys(front)) by {
            assert forall|a: int, b: int| 0 <= a < b < front.len() implies front[a].0
                != front[b].0 by {
                assert(front[a] == list[a] && front[b] == list[b]);
            }
        }
        assert(front[i] == list[i]);
        lemma_assoc_update(front, i, v);
        assert(new.drop_last() =~= front.update(i, (k, v)));
        assert(new.last() == list.last());
        assert(list.last().0 != k);
        assert(assoc(new) =~= assoc(list).insert(k, v));
    }
}

/// Adding a pair at the end is an insertion under its key.
pub proof fn lemma_assoc_push<K, V>(list: Seq<(K, V)>, k: K, v: V)
    ensures
        assoc(list.push((k, v))) == assoc(list).insert(k, v),
        distinct_keys(list) && !assoc(list).contains_key(k) ==> distinct_keys(list.push((k, v))),
{
    let new = list.push((k, v));
    assert(new.drop_last() =~= list);
    if distinct_keys(list) && !assoc(list).contains_key(k) {
        assert forall|a: int, b: int| 0 <= a < b < new.len() implies new[a].0 != new[b].0 by {
            if b == list.len() {
                lemma_assoc_dom(list, k);
                assert(new[a].0 == list[a].0);
            } else {
                assert(new[a] == list[a] && new[b] == list[b]);
            }
        }
    }
}

/// The keys of a list without a repeated key are the domain of its map, each of
/// them once.
pub proof fn lemma_keys<K, V>(list: Seq<(K, V)>)
    requires
        distinct_keys(list),
    ensures
        keys(list).no_duplicates(),
        keys(list).to_set() == assoc(list).dom(),
{
    let ks = keys(list);
    assert forall|k: K| ks.to_set().contains(k) <==> assoc(list).dom().contains(k) by {
        lemma_assoc_dom(list, k);
        if ks.to_set().contains(k) {
            let i = choose|i: int| 0 <= i < ks.len() && ks[i] == k;
            assert(list[i].0 == k);
        }
        if assoc(list).dom().contains(k) {
            let i = choose|i: int| 0 <= i < list.len() && list[i].0 == k;
            assert(ks[i] == k);
        }
    }
    assert(ks.to_set() =~= assoc(list).dom());
}

} // verus!
