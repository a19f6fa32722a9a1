use vstd::prelude::*;

verus! {

/// The parts one behind the other, or nothing if a part is missing.
pub open spec fn gather<T>(parts: Seq<Option<Seq<T>>>) -> Option<Seq<T>>
    decreases parts.len(),
{
    if parts.len() == 0 {
        Some(Seq::empty())
    } else {
        match (gather(parts.drop_last()), parts.last()) {
            (Some(head), Some(tail)) => Some(head + tail),
            _ => None,
        }
    }
}

/// The parts one behind the other.
pub open spec fn chain<T>(parts: Seq<Seq<T>>) -> Seq<T>
    decreases parts.len(),
{
    if parts.len() == 0 {
        Seq::empty()
    } else {
        chain(parts.drop_last()) + parts.last()
    }
}

/// `head` followed by `tail`, if there is a `tail`.
pub open spec fn prepend<T>(head: Seq<T>, tail: Option<Seq<T>>) -> Option<Seq<T>> {
    match tail {
        Some(tail) => Some(head + tail),
        None => None,
    }
}

/// How far `pos` is from `end`, if it lies before it.
pub open spec fn gap(end: int, pos: int) -> nat {
    if pos < end {
        (end - pos) as nat
    } else {
        0
    }
}

/// Whether `i` is the first position at which `key` stands in `keys`.
pub open spec fn is_first_key(keys: Seq<nat>, key: nat, i: int) -> bool {
    0 <= i < keys.len() && keys[i] == key && forall|j: int| 0 <= j < i ==> keys[j] != key
}

/// The first position at which `key` stands in `keys`, if it stands there at all.
pub open spec fn first_key(keys: Seq<nat>, key: nat) -> Option<int> {
    if exists|i: int| is_first_key(keys, key, i) {
        Some(choose|i: int| is_first_key(keys, key, i))
    } else {
        None
    }
}

/// A first position is the first position.
pub proof fn lemma_first_key_found(keys: Seq<nat>, key: nat, i: int)
    requires
        is_first_key(keys, key, i),
    ensures
        first_key(keys, key) == Some(i),
{
    let found = choose|k: int| is_first_key(keys, key, k);
    if found < i {
    } else if i < found {
    }
}

/// A key that stands nowhere has no first position.
pub proof fn lemma_first_key_absent(keys: Seq<nat>, key: nat)
    requires
        forall|j: int| 0 <= j < keys.len() ==> keys[j] != key,
    ensures
        first_key(keys, key) is None,
{
}

/// A key that stands somewhere has a first position.
pub proof fn lemma_first_key_present(keys: Seq<nat>, key: nat, j: int)
    requires
        0 <= j < keys.len(),
        keys[j] == key,
    ensures
        first_key(keys, key) is Some,
    decreases j,
{
    if forall|k: int| 0 <= k < j ==> keys[k] != key {
        assert(is_first_key(keys, key, j));
    } else {
        let k = choose|k: int| 0 <= k < j && keys[k] == key;
        lemma_first_key_present(keys, key, k);
    }
}

/// Gathering one part more appends that part.
pub proof fn lemma_gather_next<T>(parts: Seq<Option<Seq<T>>>, j: int)
    requires
        0 <= j < parts.len(),
    ensures
        gather(parts.take(j + 1)) == match (gather(parts.take(j)), parts[j]) {
            (Some(head), Some(tail)) => Some(head + tail),
            _ => None,
        },
{
    assert(parts.take(j + 1).drop_last() =~= parts.take(j));
}

/// Gathering no part gives the empty sequence, and gathering all parts is gathering.
pub proof fn lemma_gather_ends<T>(parts: Seq<Option<Seq<T>>>)
    ensures
        gather(parts.take(0)) == Some(Seq::<T>::empty()),
        gather(parts.take(parts.len() as int)) == gather(parts),
{
    assert(parts.take(parts.len() as int) =~= parts);
}

/// Where a part of the first `j` is missing, nothing is gathered.
pub proof fn lemma_gather_missing<T>(parts: Seq<Option<Seq<T>>>, j: int)
    requires
        0 <= j <= parts.len(),
        gather(parts.take(j)) is None,
    ensures
        gather(parts) is None,
    decreases parts.len() - j,
{
    if j < parts.len() {
        lemma_gather_next(parts, j);
        lemma_gather_missing(parts, j + 1);
    } else {
        assert(parts.take(j) =~= parts);
    }
}

/// Filtering one item more appends that item if it passes.
pub proof fn lemma_filter_next<T>(items: Seq<T>, pred: spec_fn(T) -> bool, j: int)
    requires
        0 <= j < items.len(),
    ensures
        items.take(j + 1).filter(pred) == if pred(items[j]) {
            items.take(j).filter(pred).push(items[j])
        } else {
            items.take(j).filter(pred)
        },
{
    reveal(Seq::filter);
    assert(items.take(j + 1).drop_last() =~= items.take(j));
}

/// Filtering no item gives the empty sequence, and filtering all items is filtering.
pub proof fn lemma_filter_ends<T>(items: Seq<T>, pred: spec_fn(T) -> bool)
    ensures
        items.take(0).filter(pred) == Seq::<T>::empty(),
        items.take(items.len() as int).filter(pred) == items.filter(pred),
{
    reveal(Seq::filter);
    assert(items.take(items.len() as int) =~= items);
}

/// Chaining one part more appends that part.
pub proof fn lemma_chain_next<T>(parts: Seq<Seq<T>>, j: int)
    requires
        0 <= j < parts.len(),
    ensures
        chain(parts.take(j + 1)) == chain(parts.take(j)) + parts[j],
{
    assert(parts.take(j + 1).drop_last() =~= parts.take(j));
}

/// Chaining no part gives the empty sequence, and chaining all parts is chaining.
pub proof fn lemma_chain_ends<T>(parts: Seq<Seq<T>>)
    ensures
        chain(parts.take(0)) == Seq::<T>::empty(),
        chain(parts.take(parts.len() as int)) == chain(parts),
{
    assert(parts.take(parts.len() as int) =~= parts);
}

} // verus!
