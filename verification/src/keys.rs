//! Sequences of textual keys in which no key occurs twice: the model of the
//! catalog's food ids and of the ledger's dates.

use vstd::prelude::*;

verus! {

/// No key occurs at two positions.
pub open spec fn distinct(keys: Seq<Seq<char>>) -> bool {
    forall|i: int, j: int| 0 <= i < j < keys.len() ==> keys[i] != keys[j]
}

/// Whether `k` is one of `keys`.
pub open spec fn holds(keys: Seq<Seq<char>>, k: Seq<char>) -> bool {
    exists|i: int| 0 <= i < keys.len() && #[trigger] keys[i] == k
}

/// A position at which `keys` holds `k`, if there is one. Among distinct keys
/// it is the only one.
pub open spec fn find(keys: Seq<Seq<char>>, k: Seq<char>) -> Option<int> {
    if holds(keys, k) {
        Some(choose|i: int| 0 <= i < keys.len() && #[trigger] keys[i] == k)
    } else {
        None
    }
}

/// Among distinct keys, `find` gives the position at which the key stands.
pub proof fn lemma_find_at(keys: Seq<Seq<char>>, k: Seq<char>, i: int)
    requires
        distinct(keys),
        0 <= i < keys.len(),
        keys[i] == k,
    ensures
        find(keys, k) == Some(i),
{
    assert(holds(keys, k));
}

/// What `find` returns is a position of the key.
pub proof fn lemma_find_is_position(keys: Seq<Seq<char>>, k: Seq<char>)
    ensures
        match find(keys, k) {
            Some(i) => 0 <= i < keys.len() && keys[i] == k,
            None => forall|i: int| 0 <= i < keys.len() ==> #[trigger] keys[i] != k,
        },
{
}

/// Adding a key that is not held keeps the keys distinct.
pub proof fn lemma_push_distinct(keys: Seq<Seq<char>>, k: Seq<char>)
    requires
        distinct(keys),
        !holds(keys, k),
    ensures
        distinct(keys.push(k)),
{
    let longer = keys.push(k);
    assert forall|i: int, j: int| 0 <= i < j < longer.len() implies longer[i] != longer[j] by {
        if j == keys.len() {
            assert(keys[i] != k);
        }
    }
}

} // verus!
