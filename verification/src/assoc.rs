use vstd::prelude::*;

verus! {

/// The map that an association list stands for: later entries override
/// earlier ones with the same key.
pub open spec fn assoc_map<K, V>(entries: Seq<(K, V)>) -> Map<K, V>
    decreases entries.len(),
{
    if entries.len() == 0 {
        Map::empty()
    } else {
        assoc_map(entries.drop_last()).insert(entries.last().0, entries.last().1)
    }
}

/// No key occurs twice.
pub open spec fn keys_distinct<K, V>(entries: Seq<(K, V)>) -> bool {
    forall|i: int, j: int|
        0 <= i < entries.len() && 0 <= j < entries.len() && i != j ==> #[trigger] entries[i].0
            != #[trigger] entries[j].0
}

pub proof fn lemma_assoc_dom<K, V>(entries: Seq<(K, V)>, k: K)
    ensures
        assoc_map(entries).dom().contains(k) <==> exists|i: int|
            0 <= i < entries.len() && #[trigger] entries[i].0 == k,
    decreases entries.len(),
{
    if entries.len() > 0 {
        let init = entries.drop_last();
        lemma_assoc_dom(init, k);
        if assoc_map(init).dom().contains(k) {
            let i = choose|i: int| 0 <= i < init.len() && #[trigger] init[i].0 == k;
            assert(entries[i].0 == k);
        }
        if exists|i: int| 0 <= i < entries.len() && #[trigger] entries[i].0 == k {
            let i = choose|i: int| 0 <= i < entries.len() && #[trigger] entries[i].0 == k;
            if i < entries.len() - 1 {
                assert(init[i].0 == k);
            }
        }
    }
}

pub proof fn lemma_assoc_index<K, V>(entries: Seq<(K, V)>, i: int)
    requires
        keys_distinct(entries),
        0 <= i < entries.len(),
    ensures
        assoc_map(entries).dom().contains(entries[i].0),
        assoc_map(entries)[entries[i].0] == entries[i].1,
    decreases entries.len(),
{
    lemma_assoc_dom(entries, entries[i].0);
    if i < entries.len() - 1 {
        let init = entries.drop_last();
        assert(init[i] == entries[i]);
        assert(keys_distinct(init)) by {
            assert forall|a: int, b: int|
                0 <= a < init.len() && 0 <= b < init.len() && a != b implies #[trigger] init[a].0
                    != #[trigger] init[b].0 by {
                assert(init[a] == entries[a] && init[b] == entries[b]);
            }
        }
        lemma_assoc_index(init, i);
        assert(entries[entries.len() - 1].0 != entries[i].0);
    }
}

pub proof fn lemma_assoc_update<K, V>(entries: Seq<(K, V)>, i: int, v: V)
    requires
        keys_distinct(entries),
        0 <= i < entries.len(),
    ensures
        keys_distinct(entries.update(i, (entries[i].0, v))),
        assoc_map(entries.update(i, (entries[i].0, v))) == assoc_map(entries).insert(entries[i].0, v),
{
    let e2 = entries.update(i, (entries[i].0, v));
    assert(keys_distinct(e2)) by {
        assert forall|a: int, b: int|
            0 <= a < e2.len() && 0 <= b < e2.len() && a != b implies #[trigger] e2[a].0
                != #[trigger] e2[b].0 by {
            assert(e2[a].0 == entries[a].0 && e2[b].0 == entries[b].0);
        }
    }
    let m1 = assoc_map(e2);
    let m2 = assoc_map(entries).insert(entries[i].0, v);
    assert forall|k: K| m1.dom().contains(k) <==> m2.dom().contains(k) by {
        lemma_assoc_dom(e2, k);
        lemma_assoc_dom(entries, k);
        if exists|j: int| 0 <= j < e2.len() && #[trigger] e2[j].0 == k {
            let j = choose|j: int| 0 <= j < e2.len() && #[trigger] e2[j].0 == k;
            assert(entries[j].0 == k);
        }
        if exists|j: int| 0 <= j < entries.len() && #[trigger] entries[j].0 == k {
            let j = choose|j: int| 0 <= j < entries.len() && #[trigger] entries[j].0 == k;
            assert(e2[j].0 == k);
        }
    }
    assert forall|k: K| #[trigger] m1.dom().contains(k) implies m1[k] == m2[k] by {
        lemma_assoc_dom(e2, k);
        let j = choose|j: int| 0 <= j < e2.len() && #[trigger] e2[j].0 == k;
        lemma_assoc_index(e2, j);
        if j != i {
            lemma_assoc_index(entries, j);
        }
    }
    assert(m1 =~= m2);
}

pub proof fn lemma_assoc_push<K, V>(entries: Seq<(K, V)>, k: K, v: V)
    requires
        keys_distinct(entries),
        !assoc_map(entries).dom().contains(k),
    ensures
        keys_distinct(entries.push((k, v))),
        assoc_map(entries.push((k, v))) == assoc_map(entries).insert(k, v),
{
    let e2 = entries.push((k, v));
    assert(e2.drop_last() =~= entries);
    lemma_assoc_dom(entries, k);
    assert forall|a: int, b: int|
        0 <= a < e2.len() && 0 <= b < e2.len() && a != b implies #[trigger] e2[a].0
            != #[trigger] e2[b].0 by {
        if a < entries.len() && b < entries.len() {
            assert(e2[a] == entries[a] && e2[b] == entries[b]);
        } else if a < entries.len() {
            assert(e2[a] == entries[a]);
        } else {
            assert(e2[b] == entries[b]);
        }
    }
}

} // verus!
