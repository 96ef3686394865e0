//! Lists used as ordered sets and maps: where a key first occurs, and whether any
//! occurs twice.

use vstd::prelude::*;

verus! {

/// The first position of `key` among `keys`, if it is there.
pub open spec fn index_of<K>(keys: Seq<K>, key: K) -> Option<int>
    decreases keys.len(),
{
    if keys.len() == 0 {
        None
    } else {
        match index_of(keys.drop_last(), key) {
            Some(i) => Some(i),
            None => if keys.last() == key {
                Some(keys.len() - 1)
            } else {
                None
            },
        }
    }
}

/// `index_of` finds a position that holds the key, and none before it does; it
/// finds none exactly where the key is absent.
pub proof fn lemma_index_of<K>(keys: Seq<K>, key: K)
    ensures
        match index_of(keys, key) {
            Some(i) => 0 <= i < keys.len() && keys[i] == key && forall|j: int|
                0 <= j < i ==> keys[j] != key,
            None => forall|j: int| 0 <= j < keys.len() ==> keys[j] != key,
        },
        index_of(keys, key) is Some <==> keys.contains(key),
    decreases keys.len(),
{
    if keys.len() > 0 {
        let front = keys.drop_last();
        lemma_index_of(front, key);
        assert forall|j: int| 0 <= j < front.len() implies front[j] == keys[j] by {}
        match index_of(front, key) {
            Some(i) => {
                assert(keys[i] == key);
                assert forall|j: int| 0 <= j < i implies keys[j] != key by {
                    assert(front[j] == keys[j]);
                }
            },
            None => {
                assert forall|j: int| 0 <= j < keys.len() - 1 implies keys[j] != key by {
                    assert(front[j] == keys[j]);
                }
                if keys.last() != key {
                    assert forall|j: int| 0 <= j < keys.len() implies keys[j] != key by {
                        if j < keys.len() - 1 {
                            assert(front[j] == keys[j]);
                        }
                    }
                }
            },
        }
    }
    match index_of(keys, key) {
        Some(i) => {
            assert(keys[i] == key);
        },
        None => {
            if keys.contains(key) {
                let j = choose|j: int| 0 <= j < keys.len() && keys[j] == key;
                assert(keys[j] != key);
            }
        },
    }
}

/// Whether no key occurs twice.
pub open spec fn distinct<K>(keys: Seq<K>) -> bool {
    forall|i: int, j: int| 0 <= i < j < keys.len() ==> keys[i] != keys[j]
}

/// Among keys of which none occurs twice, a key is found in a prefix exactly where
/// the prefix reaches it, and then at its own position.
pub proof fn lemma_index_of_distinct<K>(keys: Seq<K>, n: int, j: int)
    requires
        distinct(keys),
        0 <= n <= keys.len(),
        0 <= j < keys.len(),
    ensures
        index_of(keys.take(n), keys[j]) == if j < n {
            Some(j)
        } else {
            None::<int>
        },
{
    let front = keys.take(n);
    lemma_index_of(front, keys[j]);
    match index_of(front, keys[j]) {
        Some(i) => {
            assert(front[i] == keys[i]);
            assert(i == j);
        },
        None => {
            if j < n {
                assert(front[j] == keys[j]);
            }
        },
    }
}

/// Two lists in which no key occurs twice, and which share no key, make one such
/// list.
pub proof fn lemma_distinct_joined<K>(front: Seq<K>, back: Seq<K>)
    requires
        distinct(front),
        distinct(back),
        forall|i: int| 0 <= i < back.len() ==> !front.contains(#[trigger] back[i]),
    ensures
        distinct(front + back),
{
    let all = front + back;
    assert forall|i: int, j: int| 0 <= i < j < all.len() implies all[i] != all[j] by {
        if j < front.len() {
        } else if i >= front.len() {
            assert(back[i - front.len()] != back[j - front.len()]);
        } else {
            assert(!front.contains(back[j - front.len()]));
            assert(front[i] != back[j - front.len()]);
        }
    }
}

/// What `index_of` finds in a prefix, it finds in the whole.
pub proof fn lemma_index_of_prefix<K>(keys: Seq<K>, n: int, key: K)
    requires
        0 <= n <= keys.len(),
        index_of(keys.take(n), key) is Some,
    ensures
        index_of(keys, key) == index_of(keys.take(n), key),
    decreases keys.len() - n,
{
    if n < keys.len() {
        assert(keys.take(n + 1).drop_last() =~= keys.take(n));
        lemma_index_of_prefix(keys, n + 1, key);
    } else {
        assert(keys.take(n) =~= keys);
    }
}

/// A key is in two lists put together exactly where it is in one of them.
pub proof fn lemma_contains_either<K>(front: Seq<K>, back: Seq<K>, key: K)
    ensures
        (front + back).contains(key) == (front.contains(key) || back.contains(key)),
{
    if front.contains(key) {
        let i = choose|i: int| 0 <= i < front.len() && front[i] == key;
        assert((front + back)[i] == key);
    }
    if back.contains(key) {
        let i = choose|i: int| 0 <= i < back.len() && back[i] == key;
        assert((front + back)[front.len() + i] == key);
    }
    if (front + back).contains(key) {
        let i = choose|i: int| 0 <= i < (front + back).len() && (front + back)[i] == key;
        if i < front.len() {
            assert(front[i] == key);
        } else {
            assert(back[i - front.len()] == key);
        }
    }
}

} // verus!
