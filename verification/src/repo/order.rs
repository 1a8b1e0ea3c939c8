//! Sorting by a text key, equal keys staying in the order in which they came.

use vstd::prelude::*;

verus! {

/// Whether `a` comes before `b`, or is `b`, in the order of the dictionary:
/// the texts are compared character by character, by code point, and a text
/// comes before every longer text that begins with it.
pub open spec fn lex_le(a: Seq<char>, b: Seq<char>) -> bool
    decreases a.len(),
{
    if a.len() == 0 {
        true
    } else if b.len() == 0 {
        false
    } else if a[0] != b[0] {
        a[0] < b[0]
    } else {
        lex_le(a.drop_first(), b.drop_first())
    }
}

/// Of two texts one comes before the other, or they are the same.
pub proof fn lemma_lex_le_total(a: Seq<char>, b: Seq<char>)
    ensures
        lex_le(a, b) || lex_le(b, a),
    decreases a.len(),
{
    if a.len() > 0 && b.len() > 0 && a[0] == b[0] {
        lemma_lex_le_total(a.drop_first(), b.drop_first());
    }
}

/// What comes before a text comes before all that the text comes before.
pub proof fn lemma_lex_le_transitive(a: Seq<char>, b: Seq<char>, c: Seq<char>)
    requires
        lex_le(a, b),
        lex_le(b, c),
    ensures
        lex_le(a, c),
    decreases a.len(),
{
    if a.len() > 0 && b.len() > 0 && c.len() > 0 && a[0] == b[0] && b[0] == c[0] {
        lemma_lex_le_transitive(a.drop_first(), b.drop_first(), c.drop_first());
    }
}

/// Two texts each of which comes before the other, or is it, are the same.
pub proof fn lemma_lex_le_antisymmetric(a: Seq<char>, b: Seq<char>)
    requires
        lex_le(a, b),
        lex_le(b, a),
    ensures
        a == b,
    decreases a.len(),
{
    if a.len() > 0 && b.len() > 0 {
        lemma_lex_le_antisymmetric(a.drop_first(), b.drop_first());
        assert(a =~= seq![a[0]] + a.drop_first());
        assert(b =~= seq![b[0]] + b.drop_first());
    } else {
        assert(a =~= b);
    }
}

/// Whether `a` comes before `b`, or is `b`, in the order of the dictionary.
pub fn chars_le(a: &[char], b: &[char]) -> (le: bool)
    ensures
        le == lex_le(a@, b@),
{
    let mut k: usize = 0;
    assert(a@.skip(0) =~= a@ && b@.skip(0) =~= b@);
    while k < a.len() && k < b.len() && a[k] == b[k]
        invariant
            k <= a.len(),
            k <= b.len(),
            lex_le(a@, b@) == lex_le(a@.skip(k as int), b@.skip(k as int)),
        decreases a.len() - k,
    {
        assert(a@.skip(k as int).drop_first() =~= a@.skip(k as int + 1));
        assert(b@.skip(k as int).drop_first() =~= b@.skip(k as int + 1));
        k += 1;
    }
    if k >= a.len() {
        true
    } else if k >= b.len() {
        false
    } else {
        a[k] < b[k]
    }
}

/// The first place in `order` whose key is not before `key`, or the length
/// of `order`: where an item with `key` that came before all those of `order`
/// has to stand.
pub open spec fn place_for(keys: Seq<Seq<char>>, order: Seq<int>, key: Seq<char>, from: int) -> int
    decreases order.len() - from,
{
    if from >= order.len() {
        order.len() as int
    } else if lex_le(key, keys[order[from]]) {
        from
    } else {
        place_for(keys, order, key, from + 1)
    }
}

/// The items from `k` on in the order of their keys: at each place the index
/// of the item that stands there. Items with equal keys stand in the order of
/// their indices.
pub open spec fn order_from(keys: Seq<Seq<char>>, k: int) -> Seq<int>
    decreases keys.len() - k,
{
    if k >= keys.len() {
        Seq::empty()
    } else {
        let rest = order_from(keys, k + 1);
        rest.insert(place_for(keys, rest, keys[k], 0), k)
    }
}

/// All items in the order of their keys.
pub open spec fn stable_order(keys: Seq<Seq<char>>) -> Seq<int> {
    order_from(keys, 0)
}

/// The place for a key lies behind every key that comes before it, and at a
/// key that does not.
pub proof fn lemma_place_for(keys: Seq<Seq<char>>, order: Seq<int>, key: Seq<char>, from: int)
    requires
        0 <= from <= order.len(),
    ensures
        from <= place_for(keys, order, key, from) <= order.len(),
        forall|p: int|
            from <= p < place_for(keys, order, key, from) ==> !lex_le(key, keys[#[trigger] order[p]]),
        place_for(keys, order, key, from) < order.len() ==> lex_le(
            key,
            keys[order[place_for(keys, order, key, from)]],
        ),
    decreases order.len() - from,
{
    if from < order.len() && !lex_le(key, keys[order[from]]) {
        lemma_place_for(keys, order, key, from + 1);
    }
}

/// Whether `order` ranks the items from `k` on: it names each of them once
/// and no other, keys do not fall along it, and of two equal keys the one
/// with the smaller index stands first.
pub open spec fn ranks(keys: Seq<Seq<char>>, k: int, order: Seq<int>) -> bool {
    &&& order.len() == keys.len() - k
    &&& forall|p: int| 0 <= p < order.len() ==> k <= #[trigger] order[p] < keys.len()
    &&& forall|p: int, q: int|
        0 <= p < q < order.len() ==> #[trigger] order[p] != #[trigger] order[q]
    &&& forall|p: int, q: int|
        0 <= p < q < order.len() ==> lex_le(
            keys[#[trigger] order[p]],
            keys[#[trigger] order[q]],
        )
    &&& forall|p: int, q: int|
        0 <= p < q < order.len() && keys[#[trigger] order[p]] == keys[#[trigger] order[q]]
            ==> order[p] < order[q]
}

/// The order of the keys names every item once, keys do not fall along it,
/// and items with equal keys keep the order in which they came.
pub proof fn lemma_order_from_ranks(keys: Seq<Seq<char>>, k: int)
    requires
        0 <= k <= keys.len(),
    ensures
        ranks(keys, k, order_from(keys, k)),
    decreases keys.len() - k,
{
    if k < keys.len() {
        let rest = order_from(keys, k + 1);
        lemma_order_from_ranks(keys, k + 1);
        let at = place_for(keys, rest, keys[k], 0);
        lemma_place_for(keys, rest, keys[k], 0);
        let order = rest.insert(at, k);
        assert forall|p: int, q: int| 0 <= p < q < order.len() implies lex_le(
            keys[#[trigger] order[p]],
            keys[#[trigger] order[q]],
        ) by {
            if q == at {
                assert(order[p] == rest[p]);
                lemma_lex_le_total(keys[k], keys[rest[p]]);
            } else if p == at {
                assert(order[q] == rest[q - 1]);
                if q - 1 > at {
                    assert(lex_le(keys[rest[at]], keys[rest[q - 1]]));
                    lemma_lex_le_transitive(keys[k], keys[rest[at]], keys[rest[q - 1]]);
                }
            } else {
                let p_in_rest = if p < at {
                    p
                } else {
                    p - 1
                };
                let q_in_rest = if q < at {
                    q
                } else {
                    q - 1
                };
                assert(order[p] == rest[p_in_rest] && order[q] == rest[q_in_rest]);
            }
        }
        assert forall|p: int, q: int|
            0 <= p < q < order.len() && keys[#[trigger] order[p]]
                == keys[#[trigger] order[q]] implies order[p] < order[q] by {
            if q == at {
                assert(order[p] == rest[p]);
                assert(!lex_le(keys[k], keys[rest[p]]));
                lemma_lex_le_total(keys[k], keys[k]);
            } else if p == at {
                assert(order[q] == rest[q - 1]);
            } else {
                let p_in_rest = if p < at {
                    p
                } else {
                    p - 1
                };
                let q_in_rest = if q < at {
                    q
                } else {
                    q - 1
                };
                assert(order[p] == rest[p_in_rest] && order[q] == rest[q_in_rest]);
            }
        }
        assert forall|p: int, q: int| 0 <= p < q < order.len() implies #[trigger] order[p]
            != #[trigger] order[q] by {
            let p_in_rest = if p < at {
                p
            } else {
                p - 1
            };
            let q_in_rest = if q < at {
                q
            } else {
                q - 1
            };
            if p != at && q != at {
                assert(order[p] == rest[p_in_rest] && order[q] == rest[q_in_rest]);
            } else if p == at {
                assert(order[q] == rest[q_in_rest]);
            } else {
                assert(order[p] == rest[p_in_rest]);
            }
        }
        assert forall|p: int| 0 <= p < order.len() implies k <= #[trigger] order[p]
            < keys.len() by {
            if p < at {
                assert(order[p] == rest[p]);
            } else if p > at {
                assert(order[p] == rest[p - 1]);
            }
        }
    }
}

/// The texts that `keys` hold.
pub open spec fn key_texts(keys: Seq<Vec<char>>) -> Seq<Seq<char>> {
    keys.map_values(|key: Vec<char>| key@)
}

/// Sorts `items` by `keys`, which holds the key of each item at the item's
/// index. Keys are compared as `lex_le` says; items with equal keys keep their
/// order.
pub fn sort_by_keys<T>(items: Vec<T>, keys: Vec<Vec<char>>) -> (sorted: Vec<T>)
    requires
        items@.len() == keys@.len(),
    ensures
        sorted@.len() == items@.len(),
        forall|p: int|
            0 <= p < sorted@.len() ==> sorted@[p] == items@[stable_order(key_texts(keys@))[p]],
{
    let ghost all_keys = key_texts(keys@);
    let ghost all_items = items@;
    let mut items = items;
    let mut keys = keys;
    let mut sorted: Vec<T> = Vec::new();
    let mut sorted_keys: Vec<Vec<char>> = Vec::new();
    while items.len() > 0
        invariant
            items@.len() == keys@.len(),
            items@.len() <= all_items.len(),
            all_keys.len() == all_items.len(),
            items@ == all_items.take(items@.len() as int),
            key_texts(keys@) == all_keys.take(keys@.len() as int),
            sorted@.len() == all_items.len() - items@.len(),
            sorted_keys@.len() == sorted@.len(),
            forall|p: int|
                0 <= p < sorted@.len() ==> #[trigger] sorted@[p] == all_items[order_from(
                    all_keys,
                    items@.len() as int,
                )[p]],
            forall|p: int|
                0 <= p < sorted@.len() ==> (#[trigger] sorted_keys@[p])@ == all_keys[order_from(
                    all_keys,
                    items@.len() as int,
                )[p]],
            order_from(all_keys, items@.len() as int).len() == sorted@.len(),
        decreases items.len(),
    {
        let ghost k = items@.len() - 1;
        let ghost rest = order_from(all_keys, k + 1);
        proof {
            lemma_order_from_ranks(all_keys, k + 1);
            lemma_place_for(all_keys, rest, all_keys[k], 0);
            assert(key_texts(keys@)[k] == keys@[k]@);
        }
        let item = items.pop().unwrap();
        let key = keys.pop().unwrap();
        assert(key@ == all_keys[k]);
        let mut at: usize = 0;
        while at < sorted_keys.len() && !chars_le(key.as_slice(), sorted_keys[at].as_slice())
            invariant
                at <= sorted_keys@.len(),
                sorted_keys@.len() == rest.len(),
                key@ == all_keys[k],
                forall|p: int|
                    0 <= p < sorted_keys@.len() ==> (#[trigger] sorted_keys@[p])@
                        == all_keys[rest[p]],
                place_for(all_keys, rest, all_keys[k], 0) == place_for(
                    all_keys,
                    rest,
                    all_keys[k],
                    at as int,
                ),
            decreases sorted_keys.len() - at,
        {
            at += 1;
        }
        assert(at as int == place_for(all_keys, rest, all_keys[k], 0)) by {
            if at < sorted_keys@.len() {
                assert(sorted_keys@[at as int]@ == all_keys[rest[at as int]]);
            }
        }
        let ghost sorted_before = sorted@;
        let ghost keys_before = sorted_keys@;
        sorted.insert(at, item);
        sorted_keys.insert(at, key);
        proof {
            let order = rest.insert(at as int, k);
            assert(order == order_from(all_keys, k));
            assert(items@ =~= all_items.take(k));
            assert(key_texts(keys@) =~= all_keys.take(k));
            assert forall|p: int| 0 <= p < sorted@.len() implies #[trigger] sorted@[p]
                == all_items[order[p]] by {
                if p < at {
                    assert(sorted@[p] == sorted_before[p]);
                } else if p > at {
                    assert(sorted@[p] == sorted_before[p - 1]);
                }
            }
            assert forall|p: int| 0 <= p < sorted@.len() implies (#[trigger] sorted_keys@[p])@
                == all_keys[order[p]] by {
                if p < at {
                    assert(sorted_keys@[p] == keys_before[p]);
                } else if p > at {
                    assert(sorted_keys@[p] == keys_before[p - 1]);
                }
            }
        }
    }
    sorted
}

} // verus!
