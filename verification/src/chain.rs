//! Chains of keys: the order in which linked nodes follow each other, told without the
//! nodes. A chain grows and shrinks at its ends only, and the lemmas here say which keys are
//! on it afterwards.

use vstd::prelude::*;

verus! {

/// The key that follows position `i` of `chain`, if any does.
pub open spec fn key_after(chain: Seq<usize>, i: int) -> Option<usize> {
    if i + 1 < chain.len() {
        Some(chain[i + 1])
    } else {
        None
    }
}

/// The key that precedes position `i` of `chain`, if any does.
pub open spec fn key_before(chain: Seq<usize>, i: int) -> Option<usize> {
    if 0 < i {
        Some(chain[i - 1])
    } else {
        None
    }
}

/// The key at which `chain` starts, if it has one.
pub open spec fn first_key(chain: Seq<usize>) -> Option<usize> {
    if chain.len() > 0 {
        Some(chain[0])
    } else {
        None
    }
}

/// The key at which `chain` ends, if it has one.
pub open spec fn last_key(chain: Seq<usize>) -> Option<usize> {
    if chain.len() > 0 {
        Some(chain[chain.len() - 1])
    } else {
        None
    }
}

/// With `key` put before its first key, the chain holds `key` and what it held; if it held
/// no key twice and `key` is new to it, it still holds none twice.
pub proof fn lemma_first_added(chain: Seq<usize>, key: usize)
    ensures
        forall|k: usize| #[trigger] (seq![key] + chain).contains(k) <==> k == key || chain.contains(k),
        chain.no_duplicates() && !chain.contains(key) ==> (seq![key] + chain).no_duplicates(),
{
    let longer = seq![key] + chain;
    assert forall|k: usize| #[trigger] longer.contains(k) <==> k == key || chain.contains(k) by {
        if longer.contains(k) {
            let j = choose|j: int| 0 <= j < longer.len() && longer[j] == k;
            if j > 0 {
                assert(chain[j - 1] == k);
            }
        }
        if chain.contains(k) {
            let j = choose|j: int| 0 <= j < chain.len() && chain[j] == k;
            assert(longer[j + 1] == k);
        }
        if k == key {
            assert(longer[0] == k);
        }
    }
    if chain.no_duplicates() && !chain.contains(key) {
        assert forall|i: int, j: int| 0 <= i < longer.len() && 0 <= j < longer.len() && i != j
            implies longer[i] != longer[j] by {
            if i > 0 {
                assert(chain.contains(chain[i - 1]));
            }
            if j > 0 {
                assert(chain.contains(chain[j - 1]));
            }
        }
    }
}

/// With `key` put behind its last key, the chain holds `key` and what it held; if it held
/// no key twice and `key` is new to it, it still holds none twice.
pub proof fn lemma_last_added(chain: Seq<usize>, key: usize)
    ensures
        forall|k: usize| #[trigger] chain.push(key).contains(k) <==> k == key || chain.contains(k),
        chain.no_duplicates() && !chain.contains(key) ==> chain.push(key).no_duplicates(),
{
    let longer = chain.push(key);
    assert forall|k: usize| #[trigger] longer.contains(k) <==> k == key || chain.contains(k) by {
        if chain.contains(k) {
            let j = choose|j: int| 0 <= j < chain.len() && chain[j] == k;
            assert(longer[j] == k);
        }
        if k == key {
            assert(longer[chain.len() as int] == k);
        }
    }
    if chain.no_duplicates() && !chain.contains(key) {
        assert forall|i: int, j: int| 0 <= i < longer.len() && 0 <= j < longer.len() && i != j
            implies longer[i] != longer[j] by {
            if i < chain.len() {
                assert(chain.contains(chain[i]));
            }
            if j < chain.len() {
                assert(chain.contains(chain[j]));
            }
        }
    }
}

/// Without its first key, a chain that held no key twice holds what it held but that key,
/// and none twice.
pub proof fn lemma_first_removed(chain: Seq<usize>)
    requires
        chain.len() > 0,
        chain.no_duplicates(),
    ensures
        forall|k: usize| #[trigger] chain.drop_first().contains(k) <==> k != chain[0] && chain.contains(k),
        chain.drop_first().no_duplicates(),
{
    let shorter = chain.drop_first();
    assert forall|k: usize| #[trigger] shorter.contains(k) <==> k != chain[0] && chain.contains(
        k,
    ) by {
        if shorter.contains(k) {
            let j = choose|j: int| 0 <= j < shorter.len() && shorter[j] == k;
            assert(chain[j + 1] == k);
        }
        if chain.contains(k) && k != chain[0] {
            let j = choose|j: int| 0 <= j < chain.len() && chain[j] == k;
            assert(shorter[j - 1] == k);
        }
    }
}

} // verus!
