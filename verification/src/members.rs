use vstd::prelude::*;

verus! {

/// The test that every id but `id` passes.
pub open spec fn differs_from(id: u32) -> spec_fn(u32) -> bool {
    |other: u32| other != id
}

/// A list of ids without the id `id`, the others in their order.
pub open spec fn without(list: Seq<u32>, id: u32) -> Seq<u32> {
    list.filter(differs_from(id))
}

/// A list of ids with `id` at its end, unless the list already holds it.
pub open spec fn with(list: Seq<u32>, id: u32) -> Seq<u32> {
    if list.contains(id) {
        list
    } else {
        list.push(id)
    }
}

/// Taking an id out of a list that does not hold it changes nothing.
pub proof fn lemma_without_absent(list: Seq<u32>, id: u32)
    requires
        !list.contains(id),
    ensures
        without(list, id) == list,
    decreases list.len(),
{
    let keep = differs_from(id);
    if list.len() > 0 {
        let front = list.drop_last();
        assert(forall|k: int| 0 <= k < front.len() ==> front[k] == list[k]);
        assert(!front.contains(id));
        lemma_without_absent(front, id);
        assert(list.last() == list[list.len() - 1]);
        assert(keep(list.last()));
        assert(front.push(list.last()) =~= list);
        front.lemma_filter_push(list.last(), keep);
    } else {
        assert(without(list, id) =~= list);
    }
}

/// What holds of a list after an id was taken out: the id is gone and every
/// other id stays.
pub proof fn lemma_without_contains(list: Seq<u32>, id: u32)
    ensures
        !without(list, id).contains(id),
        forall|other: u32|
            other != id ==> (without(list, id).contains(other) <==> list.contains(other)),
        without(list, id).len() <= list.len(),
{
    let keep = differs_from(id);
    let rest = without(list, id);
    list.lemma_filter_len(keep);
    if rest.contains(id) {
        let k = choose|k: int| 0 <= k < rest.len() && rest[k] == id;
        list.lemma_filter_pred(keep, k);
    }
    assert forall|other: u32| other != id implies (rest.contains(other) <==> list.contains(
        other,
    )) by {
        if rest.contains(other) {
            list.lemma_filter_contains_rev(keep, other);
        }
        if list.contains(other) {
            let j = choose|j: int| 0 <= j < list.len() && list[j] == other;
            list.lemma_filter_contains(keep, j);
        }
    }
}

/// A list that held no id twice still holds none twice after an id was taken
/// out.
pub proof fn lemma_without_no_duplicates(list: Seq<u32>, id: u32)
    requires
        list.no_duplicates(),
    ensures
        without(list, id).no_duplicates(),
    decreases list.len(),
{
    let keep = differs_from(id);
    let rest = without(list, id);
    if list.len() > 0 {
        let front = list.drop_last();
        let last = list.last();
        let front_rest = without(front, id);
        lemma_without_no_duplicates(front, id);
        assert(list =~= front.push(last));
        front.lemma_filter_push(last, keep);
        if keep(last) {
            assert(!front_rest.contains(last)) by {
                if front_rest.contains(last) {
                    front.lemma_filter_contains_rev(keep, last);
                    let j = choose|j: int| 0 <= j < front.len() && front[j] == last;
                    assert(list[j] == list[list.len() - 1]);
                }
            }
            assert(rest =~= front_rest.push(last));
            assert forall|a: int, b: int|
                0 <= a < rest.len() && 0 <= b < rest.len() && a != b implies rest[a]
                != rest[b] by {
                if a < front_rest.len() {
                    assert(front_rest[a] == rest[a]);
                }
                if b < front_rest.len() {
                    assert(front_rest[b] == rest[b]);
                }
            }
        }
    }
}

/// Whether a list of ids holds `id`.
pub fn contains(list: &Vec<u32>, id: u32) -> (found: bool)
    ensures
        found == list@.contains(id),
{
    let mut i: usize = 0;
    while i < list.len()
        invariant
            i <= list.len(),
            forall|k: int| 0 <= k < i ==> list@[k] != id,
        decreases list.len() - i,
    {
        if list[i] == id {
            return true;
        }
        i += 1;
    }
    false
}

/// Puts `id` at the end of a list of ids, unless the list already holds it;
/// says whether the list changed.
pub fn insert(list: &mut Vec<u32>, id: u32) -> (added: bool)
    ensures
        final(list)@ == with(old(list)@, id),
        added == !old(list)@.contains(id),
{
    if contains(list, id) {
        false
    } else {
        list.push(id);
        true
    }
}

/// Takes every occurrence of `id` out of a list of ids and keeps the others
/// in their order; says whether the list held the id.
pub fn remove(list: &mut Vec<u32>, id: u32) -> (removed: bool)
    ensures
        final(list)@ == without(old(list)@, id),
        removed == old(list)@.contains(id),
{
    if !contains(list, id) {
        proof {
            lemma_without_absent(list@, id);
        }
        return false;
    }
    let mut kept: Vec<u32> = Vec::new();
    let mut i: usize = 0;
    while i < list.len()
        invariant
            i <= list.len(),
            kept@ == without(list@.take(i as int), id),
        decreases list.len() - i,
    {
        proof {
            assert(list@.take(i + 1) =~= list@.take(i as int).push(list@[i as int]));
            list@.take(i as int).lemma_filter_push(list@[i as int], differs_from(id));
        }
        if list[i] != id {
            kept.push(list[i]);
        }
        i += 1;
    }
    proof {
        assert(list@.take(list@.len() as int) =~= list@);
    }
    *list = kept;
    true
}

} // verus!
