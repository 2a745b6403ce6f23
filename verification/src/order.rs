use vstd::prelude::*;

verus! {

/// A sorted list of ids with `id` put in behind every id whose key is not
/// above its own.
pub open spec fn insert_by_key(sorted: Seq<u32>, key: spec_fn(u32) -> int, id: u32) -> Seq<u32>
    decreases sorted.len(),
{
    if sorted.len() == 0 {
        seq![id]
    } else if key(sorted.last()) <= key(id) {
        sorted.push(id)
    } else {
        insert_by_key(sorted.drop_last(), key, id).push(sorted.last())
    }
}

/// The ids of `source` in ascending order of their keys; ids with equal keys
/// keep the order that they have in `source`.
pub open spec fn sorted_by_key(source: Seq<u32>, key: spec_fn(u32) -> int) -> Seq<u32>
    decreases source.len(),
{
    if source.len() == 0 {
        Seq::empty()
    } else {
        insert_by_key(sorted_by_key(source.drop_last(), key), key, source.last())
    }
}

/// Whether the keys of a list of ids never fall from one id to the next.
pub open spec fn ascending(list: Seq<u32>, key: spec_fn(u32) -> int) -> bool {
    forall|a: int, b: int| 0 <= a < b < list.len() ==> key(list[a]) <= key(list[b])
}

/// Putting an id in at position `at` is what `insert_by_key` does, where
/// every id from `at` on has a larger key and the id before `at`, if there is
/// one, has not.
pub proof fn lemma_insert_at(sorted: Seq<u32>, key: spec_fn(u32) -> int, id: u32, at: int)
    requires
        0 <= at <= sorted.len(),
        forall|k: int| at <= k < sorted.len() ==> key(sorted[k]) > key(id),
        at > 0 ==> key(sorted[at - 1]) <= key(id),
    ensures
        insert_by_key(sorted, key, id) == sorted.insert(at, id),
    decreases sorted.len(),
{
    if sorted.len() == 0 {
        assert(sorted.insert(at, id) =~= seq![id]);
    } else if at == sorted.len() {
        assert(sorted.insert(at, id) =~= sorted.push(id));
    } else {
        let front = sorted.drop_last();
        lemma_insert_at(front, key, id, at);
        assert(front.insert(at, id).push(sorted.last()) =~= sorted.insert(at, id));
    }
}

/// Where `insert_by_key` puts an id: at a position `at` such that the list
/// before `at` and the list from `at` on are those of the old list.
pub proof fn lemma_insert_place(sorted: Seq<u32>, key: spec_fn(u32) -> int, id: u32) -> (at: int)
    requires
        ascending(sorted, key),
    ensures
        0 <= at <= sorted.len(),
        insert_by_key(sorted, key, id) == sorted.insert(at, id),
        forall|k: int| at <= k < sorted.len() ==> key(sorted[k]) > key(id),
        forall|k: int| 0 <= k < at ==> key(sorted[k]) <= key(id),
    decreases sorted.len(),
{
    if sorted.len() == 0 {
        assert(sorted.insert(0, id) =~= seq![id]);
        0
    } else if key(sorted.last()) <= key(id) {
        assert(sorted.insert(sorted.len() as int, id) =~= sorted.push(id));
        assert forall|k: int| 0 <= k < sorted.len() implies key(sorted[k]) <= key(id) by {
            if k < sorted.len() - 1 {
                assert(key(sorted[k]) <= key(sorted[sorted.len() - 1]));
            }
        }
        sorted.len() as int
    } else {
        let front = sorted.drop_last();
        assert(ascending(front, key)) by {
            assert forall|a: int, b: int| 0 <= a < b < front.len() implies key(front[a]) <= key(
                front[b],
            ) by {
                assert(front[a] == sorted[a] && front[b] == sorted[b]);
            }
        }
        let at = lemma_insert_place(front, key, id);
        assert(front.insert(at, id).push(sorted.last()) =~= sorted.insert(at, id));
        assert forall|k: int| at <= k < sorted.len() implies key(sorted[k]) > key(id) by {
            if k < front.len() {
                assert(front[k] == sorted[k]);
            }
        }
        assert forall|k: int| 0 <= k < at implies key(sorted[k]) <= key(id) by {
            assert(front[k] == sorted[k]);
        }
        at
    }
}

/// The sorted list is in ascending order of the keys.
pub proof fn lemma_sorted_ascending(source: Seq<u32>, key: spec_fn(u32) -> int)
    ensures
        ascending(sorted_by_key(source, key), key),
    decreases source.len(),
{
    if source.len() > 0 {
        let before = sorted_by_key(source.drop_last(), key);
        lemma_sorted_ascending(source.drop_last(), key);
        let id = source.last();
        let at = lemma_insert_place(before, key, id);
        let after = before.insert(at, id);
        assert forall|a: int, b: int| 0 <= a < b < after.len() implies key(after[a]) <= key(
            after[b],
        ) by {
            if b < at {
                assert(after[a] == before[a] && after[b] == before[b]);
            } else if b == at {
                assert(after[a] == before[a]);
            } else if a < at {
                assert(after[a] == before[a] && after[b] == before[b - 1]);
                assert(key(before[a]) <= key(id) && key(id) < key(before[b - 1]));
            } else if a == at {
                assert(after[b] == before[b - 1]);
            } else {
                assert(after[a] == before[a - 1] && after[b] == before[b - 1]);
            }
        }
    }
}

/// The sorted list holds the ids of the source, each as often as the source
/// holds it.
pub proof fn lemma_sorted_same_ids(source: Seq<u32>, key: spec_fn(u32) -> int)
    ensures
        sorted_by_key(source, key).to_multiset() == source.to_multiset(),
        sorted_by_key(source, key).len() == source.len(),
    decreases source.len(),
{
    broadcast use vstd::seq_lib::group_to_multiset_ensures;

    if source.len() > 0 {
        let front = source.drop_last();
        let before = sorted_by_key(front, key);
        lemma_sorted_same_ids(front, key);
        lemma_sorted_ascending(front, key);
        let id = source.last();
        let at = lemma_insert_place(before, key, id);
        let after = before.insert(at, id);
        assert(after.remove(at) =~= before);
        assert(after.to_multiset().remove(id) =~= before.to_multiset());
        assert(after.to_multiset() =~= before.to_multiset().insert(id)) by {
            assert(after.to_multiset().count(id) > 0) by {
                assert(after[at] == id);
                assert(after.contains(id));
            }
        }
        assert(source =~= front.push(id));
        assert(source.to_multiset() =~= front.to_multiset().insert(id));
    } else {
        assert(sorted_by_key(source, key) =~= source);
    }
}

/// Whether `list` keeps, among ids with equal keys, the order that the ids
/// have in `source`.
pub open spec fn keeps_ties(list: Seq<u32>, source: Seq<u32>, key: spec_fn(u32) -> int) -> bool {
    forall|a: int, b: int|
        0 <= a < b < list.len() && key(list[a]) == key(list[b]) ==> source.index_of(list[a])
            < source.index_of(list[b])
}

/// In a source without repeated ids, the sorted list holds every id of the
/// source and no other, none twice, and ids with equal keys stand in it in
/// the order of the source.
pub proof fn lemma_sorted_stable(source: Seq<u32>, key: spec_fn(u32) -> int)
    requires
        source.no_duplicates(),
    ensures
        sorted_by_key(source, key).no_duplicates(),
        forall|id: u32| sorted_by_key(source, key).contains(id) <==> source.contains(id),
        keeps_ties(sorted_by_key(source, key), source, key),
    decreases source.len(),
{
    let result = sorted_by_key(source, key);
    if source.len() > 0 {
        let front = source.drop_last();
        let before = sorted_by_key(front, key);
        let id = source.last();
        assert(front.no_duplicates());
        lemma_sorted_stable(front, key);
        lemma_sorted_ascending(front, key);
        let at = lemma_insert_place(before, key, id);
        let after = before.insert(at, id);
        assert(!front.contains(id)) by {
            if front.contains(id) {
                let j = choose|j: int| 0 <= j < front.len() && front[j] == id;
                assert(source[j] == source[source.len() - 1]);
            }
        }
        assert(forall|k: int| 0 <= k < source.len() ==> source.index_of(#[trigger] source[k]) == k)
            by {
            assert forall|k: int| 0 <= k < source.len() implies source.index_of(
                #[trigger] source[k],
            ) == k by {
                source.index_of_first_ensures(source[k]);
                let found = source.index_of(source[k]);
                assert(source.contains(source[k]));
                assert(0 <= found < source.len() && source[found] == source[k]);
            }
        }
        assert(forall|k: int| 0 <= k < front.len() ==> front.index_of(#[trigger] front[k]) == k)
            by {
            assert forall|k: int| 0 <= k < front.len() implies front.index_of(
                #[trigger] front[k],
            ) == k by {
                let found = front.index_of(front[k]);
                assert(front.contains(front[k]));
                assert(0 <= found < front.len() && front[found] == front[k]);
            }
        }
        assert forall|other: u32| after.contains(other) <==> source.contains(other) by {
            if after.contains(other) {
                let k = choose|k: int| 0 <= k < after.len() && after[k] == other;
                if k < at {
                    assert(before[k] == other);
                    assert(before.contains(other));
                } else if k > at {
                    assert(before[k - 1] == other);
                    assert(before.contains(other));
                }
                if other != id {
                    assert(front.contains(other));
                    let j = choose|j: int| 0 <= j < front.len() && front[j] == other;
                    assert(source[j] == other);
                } else {
                    assert(source[source.len() - 1] == other);
                }
            }
            if source.contains(other) {
                let j = choose|j: int| 0 <= j < source.len() && source[j] == other;
                if j == source.len() - 1 {
                    assert(after[at] == other);
                } else {
                    assert(front[j] == other);
                    assert(front.contains(other));
                    assert(before.contains(other));
                    let k = choose|k: int| 0 <= k < before.len() && before[k] == other;
                    if k < at {
                        assert(after[k] == other);
                    } else {
                        assert(after[k + 1] == other);
                    }
                }
            }
        }
        assert forall|a: int, b: int|
            0 <= a < after.len() && 0 <= b < after.len() && a != b implies after[a]
            != after[b] by {
            let ka = if a < at {
                a
            } else {
                a - 1
            };
            let kb = if b < at {
                b
            } else {
                b - 1
            };
            if a != at {
                assert(after[a] == before[ka]);
                assert(before.contains(before[ka]));
            }
            if b != at {
                assert(after[b] == before[kb]);
                assert(before.contains(before[kb]));
            }
        }
        assert forall|a: int, b: int|
            0 <= a < b < after.len() && key(after[a]) == key(after[b]) implies source.index_of(
            after[a],
        ) < source.index_of(after[b]) by {
            let ka = if a < at {
                a
            } else {
                a - 1
            };
            let kb = if b < at {
                b
            } else {
                b - 1
            };
            if a != at {
                assert(after[a] == before[ka]);
                assert(before.contains(before[ka]));
                assert(front.contains(after[a]));
                let j = choose|j: int| 0 <= j < front.len() && front[j] == after[a];
                assert(source[j] == after[a]);
                assert(source.index_of(source[j]) == j);
                assert(front.index_of(front[j]) == j);
            }
            if b != at {
                assert(after[b] == before[kb]);
                assert(before.contains(before[kb]));
                assert(front.contains(after[b]));
                let j = choose|j: int| 0 <= j < front.len() && front[j] == after[b];
                assert(source[j] == after[b]);
                assert(source.index_of(source[j]) == j);
                assert(front.index_of(front[j]) == j);
            }
            if a == at {
                assert(key(before[kb]) > key(id));
            } else if b == at {
                assert(source.index_of(source[source.len() - 1]) == source.len() - 1);
            } else {
                assert(ka < kb);
                assert(front.index_of(before[ka]) < front.index_of(before[kb]));
            }
        }
    } else {
        assert(result =~= source);
    }
}

/// Every id of the sorted list is an id of the source.
pub proof fn lemma_sorted_from_source(source: Seq<u32>, key: spec_fn(u32) -> int, i: int)
    requires
        0 <= i < sorted_by_key(source, key).len(),
    ensures
        source.contains(sorted_by_key(source, key)[i]),
{
    broadcast use vstd::seq_lib::group_to_multiset_ensures;

    let sorted = sorted_by_key(source, key);
    lemma_sorted_same_ids(source, key);
    assert(sorted.contains(sorted[i]));
    assert(sorted.to_multiset().count(sorted[i]) > 0);
}

/// Two tests that agree on every element of a list filter it alike.
pub proof fn lemma_filter_agrees(
    list: Seq<u32>,
    first: spec_fn(u32) -> bool,
    second: spec_fn(u32) -> bool,
)
    requires
        forall|i: int| 0 <= i < list.len() ==> first(list[i]) == second(list[i]),
    ensures
        list.filter(first) == list.filter(second),
    decreases list.len(),
{
    if list.len() > 0 {
        let front = list.drop_last();
        assert forall|i: int| 0 <= i < front.len() implies first(front[i]) == second(front[i]) by {
            assert(front[i] == list[i]);
        }
        lemma_filter_agrees(front, first, second);
        assert(list =~= front.push(list.last()));
        front.lemma_filter_push(list.last(), first);
        front.lemma_filter_push(list.last(), second);
        assert(first(list[list.len() - 1]) == second(list[list.len() - 1]));
    } else {
        assert(list.filter(first) =~= list.filter(second));
    }
}

/// Two keys that agree on an id and on every id of a sorted list put the id
/// in at the same place.
pub proof fn lemma_insert_agrees(
    sorted: Seq<u32>,
    first: spec_fn(u32) -> int,
    second: spec_fn(u32) -> int,
    id: u32,
)
    requires
        first(id) == second(id),
        forall|i: int| 0 <= i < sorted.len() ==> first(sorted[i]) == second(sorted[i]),
    ensures
        insert_by_key(sorted, first, id) == insert_by_key(sorted, second, id),
    decreases sorted.len(),
{
    if sorted.len() > 0 {
        let front = sorted.drop_last();
        assert(first(sorted[sorted.len() - 1]) == second(sorted[sorted.len() - 1]));
        assert forall|i: int| 0 <= i < front.len() implies first(front[i]) == second(front[i]) by {
            assert(front[i] == sorted[i]);
        }
        lemma_insert_agrees(front, first, second, id);
    }
}

/// Two keys that agree on every id of a list sort the list alike.
pub proof fn lemma_sorted_agrees(
    source: Seq<u32>,
    first: spec_fn(u32) -> int,
    second: spec_fn(u32) -> int,
)
    requires
        forall|i: int| 0 <= i < source.len() ==> first(source[i]) == second(source[i]),
    ensures
        sorted_by_key(source, first) == sorted_by_key(source, second),
    decreases source.len(),
{
    if source.len() > 0 {
        let front = source.drop_last();
        assert forall|i: int| 0 <= i < front.len() implies first(front[i]) == second(front[i]) by {
            assert(front[i] == source[i]);
        }
        lemma_sorted_agrees(front, first, second);
        let sorted = sorted_by_key(front, first);
        assert forall|i: int| 0 <= i < sorted.len() implies first(sorted[i]) == second(
            sorted[i],
        ) by {
            lemma_sorted_from_source(front, first, i);
            let j = choose|j: int| 0 <= j < front.len() && front[j] == sorted[i];
            assert(source[j] == sorted[i]);
        }
        assert(first(source[source.len() - 1]) == second(source[source.len() - 1]));
        lemma_insert_agrees(sorted, first, second, source.last());
    }
}

/// Ascending keys and kept ties leave no choice: two lists without repeated
/// ids that hold the same ids, have ascending keys and keep the ties of one
/// source are the same list.
pub proof fn lemma_order_is_unique(
    first: Seq<u32>,
    second: Seq<u32>,
    source: Seq<u32>,
    key: spec_fn(u32) -> int,
)
    requires
        first.no_duplicates(),
        second.no_duplicates(),
        forall|id: u32| first.contains(id) <==> second.contains(id),
        ascending(first, key),
        ascending(second, key),
        keeps_ties(first, source, key),
        keeps_ties(second, source, key),
    ensures
        first == second,
    decreases first.len(),
{
    if first.len() == 0 {
        if second.len() > 0 {
            assert(second.contains(second[0]));
        }
        assert(first =~= second);
    } else {
        let a = first.last();
        assert(first[first.len() - 1] == a);
        assert(first.contains(a));
        assert(second.contains(a));
        let b = second.last();
        assert(second[second.len() - 1] == b);
        assert(second.contains(b));
        assert(first.contains(b));
        if a != b {
            let j = choose|j: int| 0 <= j < second.len() && second[j] == a;
            let i = choose|i: int| 0 <= i < first.len() && first[i] == b;
            assert(key(second[j]) <= key(second[second.len() - 1]));
            assert(key(first[i]) <= key(first[first.len() - 1]));
            assert(source.index_of(second[j]) < source.index_of(second[second.len() - 1]));
            assert(source.index_of(first[i]) < source.index_of(first[first.len() - 1]));
        }
        let front = first.drop_last();
        let other = second.drop_last();
        assert forall|id: u32| front.contains(id) <==> other.contains(id) by {
            if front.contains(id) {
                let i = choose|i: int| 0 <= i < front.len() && front[i] == id;
                assert(first[i] == id);
                assert(first.contains(id));
                let j = choose|j: int| 0 <= j < second.len() && second[j] == id;
                assert(j < second.len() - 1);
                assert(other[j] == id);
            }
            if other.contains(id) {
                let j = choose|j: int| 0 <= j < other.len() && other[j] == id;
                assert(second[j] == id);
                assert(second.contains(id));
                let i = choose|i: int| 0 <= i < first.len() && first[i] == id;
                assert(i < first.len() - 1);
                assert(front[i] == id);
            }
        }
        assert(ascending(front, key)) by {
            assert forall|i: int, j: int| 0 <= i < j < front.len() implies key(front[i]) <= key(
                front[j],
            ) by {
                assert(front[i] == first[i] && front[j] == first[j]);
            }
        }
        assert(ascending(other, key)) by {
            assert forall|i: int, j: int| 0 <= i < j < other.len() implies key(other[i]) <= key(
                other[j],
            ) by {
                assert(other[i] == second[i] && other[j] == second[j]);
            }
        }
        assert(keeps_ties(front, source, key)) by {
            assert forall|i: int, j: int|
                0 <= i < j < front.len() && key(front[i]) == key(front[j]) implies source.index_of(
                front[i],
            ) < source.index_of(front[j]) by {
                assert(front[i] == first[i] && front[j] == first[j]);
            }
        }
        assert(keeps_ties(other, source, key)) by {
            assert forall|i: int, j: int|
                0 <= i < j < other.len() && key(other[i]) == key(other[j]) implies source.index_of(
                other[i],
            ) < source.index_of(other[j]) by {
                assert(other[i] == second[i] && other[j] == second[j]);
            }
        }
        lemma_order_is_unique(front, other, source, key);
        assert(first =~= front.push(a));
        assert(second =~= other.push(b));
    }
}

/// The sorted list is the only list that holds the ids of a source without
/// repeated ids, none twice, in ascending order of their keys and with the
/// ties kept.
pub proof fn lemma_sorted_is_the_stable_sort(
    list: Seq<u32>,
    source: Seq<u32>,
    key: spec_fn(u32) -> int,
)
    requires
        source.no_duplicates(),
        list.no_duplicates(),
        forall|id: u32| list.contains(id) <==> source.contains(id),
        ascending(list, key),
        keeps_ties(list, source, key),
    ensures
        list == sorted_by_key(source, key),
{
    lemma_sorted_stable(source, key);
    lemma_sorted_ascending(source, key);
    lemma_order_is_unique(list, sorted_by_key(source, key), source, key);
}

} // verus!
