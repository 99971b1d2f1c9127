//! Lists of (name, value) pairs read as maps: the map a list stands for, and
//! how it changes when a pair is replaced or added.
use vstd::prelude::*;

verus! {

/// The map that a list of (key, value) pairs stands for; a later pair wins.
pub open spec fn assoc_map<V>(es: Seq<(Seq<char>, V)>) -> Map<Seq<char>, V>
    decreases es.len(),
{
    if es.len() == 0 {
        Map::empty()
    } else {
        assoc_map(es.drop_last()).insert(es.last().0, es.last().1)
    }
}

/// No key occurs twice among the pairs.
pub open spec fn keys_distinct<V>(es: Seq<(Seq<char>, V)>) -> bool {
    forall|i: int, j: int| 0 <= i < j < es.len() ==> es[i].0 != es[j].0
}

/// The keys of the map are the keys of the pairs.
pub proof fn lemma_assoc_domain<V>(es: Seq<(Seq<char>, V)>, k: Seq<char>)
    ensures
        assoc_map(es).contains_key(k) <==> exists|i: int| 0 <= i < es.len() && es[i].0 == k,
    decreases es.len(),
{
    if es.len() > 0 {
        let init = es.drop_last();
        lemma_assoc_domain(init, k);
        if assoc_map(es).contains_key(k) && es.last().0 != k {
            let i = choose|i: int| 0 <= i < init.len() && init[i].0 == k;
            assert(es[i] == init[i]);
        }
        if exists|i: int| 0 <= i < es.len() && es[i].0 == k {
            let i = choose|i: int| 0 <= i < es.len() && es[i].0 == k;
            if i < init.len() {
                assert(init[i] == es[i]);
            }
        }
    }
}

/// Without the last pair the keys are still distinct, and the last key is not among them.
pub proof fn lemma_assoc_prefix<V>(es: Seq<(Seq<char>, V)>)
    requires
        keys_distinct(es),
        es.len() > 0,
    ensures
        keys_distinct(es.drop_last()),
        !assoc_map(es.drop_last()).contains_key(es.last().0),
{
    let init = es.drop_last();
    assert forall|a: int, b: int| 0 <= a < b < init.len() implies init[a].0 != init[b].0 by {
        assert(init[a] == es[a] && init[b] == es[b]);
    }
    lemma_assoc_domain(init, es.last().0);
    if assoc_map(init).contains_key(es.last().0) {
        let i = choose|i: int| 0 <= i < init.len() && init[i].0 == es.last().0;
        assert(init[i] == es[i]);
    }
}

/// With distinct keys, each pair's key maps to that pair's value.
pub proof fn lemma_assoc_value<V>(es: Seq<(Seq<char>, V)>, i: int)
    requires
        keys_distinct(es),
        0 <= i < es.len(),
    ensures
        assoc_map(es).contains_key(es[i].0),
        assoc_map(es)[es[i].0] == es[i].1,
    decreases es.len(),
{
    let init = es.drop_last();
    if i < es.len() - 1 {
        lemma_assoc_prefix(es);
        assert(init[i] == es[i]);
        lemma_assoc_value(init, i);
    }
}

/// Replacing the value of a pair replaces it in the map.
pub proof fn lemma_assoc_update<V>(es: Seq<(Seq<char>, V)>, i: int, v: V)
    requires
        keys_distinct(es),
        0 <= i < es.len(),
    ensures
        keys_distinct(es.update(i, (es[i].0, v))),
        assoc_map(es.update(i, (es[i].0, v))) == assoc_map(es).insert(es[i].0, v),
    decreases es.len(),
{
    let new = es.update(i, (es[i].0, v));
    assert forall|a: int, b: int| 0 <= a < b < new.len() implies new[a].0 != new[b].0 by {
        assert(new[a].0 == es[a].0 && new[b].0 == es[b].0);
    }
    let init = es.drop_last();
    lemma_assoc_prefix(es);
    if i == es.len() - 1 {
        assert(new.drop_last() =~= init);
        assert(assoc_map(new) =~= assoc_map(es).insert(es[i].0, v));
    } else {
        lemma_assoc_update(init, i, v);
        assert(new.drop_last() =~= init.update(i, (init[i].0, v)));
        assert(init[i] == es[i]);
        assert(assoc_map(new) =~= assoc_map(es).insert(es[i].0, v));
    }
}

/// Adding a pair with a new key adds it to the map and keeps the keys distinct.
pub proof fn lemma_assoc_push<V>(es: Seq<(Seq<char>, V)>, k: Seq<char>, v: V)
    requires
        keys_distinct(es),
        !assoc_map(es).contains_key(k),
    ensures
        keys_distinct(es.push((k, v))),
        assoc_map(es.push((k, v))) == assoc_map(es).insert(k, v),
{
    let new = es.push((k, v));
    lemma_assoc_domain(es, k);
    assert forall|a: int, b: int| 0 <= a < b < new.len() implies new[a].0 != new[b].0 by {
        assert(new[a] == es[a]);
        if b < es.len() {
            assert(new[b] == es[b]);
        }
    }
    assert(new.drop_last() =~= es);
}

/// With distinct keys the map has as many keys as there are pairs.
pub proof fn lemma_assoc_len<V>(es: Seq<(Seq<char>, V)>)
    requires
        keys_distinct(es),
    ensures
        assoc_map(es).len() == es.len(),
        assoc_map(es).dom().finite(),
    decreases es.len(),
{
    if es.len() > 0 {
        lemma_assoc_prefix(es);
        lemma_assoc_len(es.drop_last());
    }
}

} // verus!
