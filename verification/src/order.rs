//! Stable sorting by text keys.

use crate::text::{lex_less, text_less, views};
use vstd::prelude::*;

verus! {

/// Whether item `a` stands before item `b` when items are sorted by key and items with equal keys
/// keep their order.
pub open spec fn sorts_before(keys: Seq<Seq<char>>, a: int, b: int) -> bool {
    lex_less(keys[a], keys[b]) || (keys[a] == keys[b] && a < b)
}

/// Whether `order` lists the items from `low` up to `high` in stable key order, each of them once.
pub open spec fn is_stable_run(
    keys: Seq<Seq<char>>,
    order: Seq<usize>,
    low: int,
    high: int,
) -> bool {
    &&& order.len() == high - low
    &&& forall|i: int| 0 <= i < order.len() ==> low <= #[trigger] order[i] < high
    &&& forall|i: int, j: int|
        0 <= i < j < order.len() ==> sorts_before(
            keys,
            #[trigger] order[i] as int,
            #[trigger] order[j] as int,
        )
    &&& forall|k: usize| low <= k < high ==> #[trigger] order.contains(k)
}

/// Whether `order` lists all the items in stable key order.
pub open spec fn is_stable_order(keys: Seq<Seq<char>>, order: Seq<usize>) -> bool {
    is_stable_run(keys, order, 0, keys.len() as int)
}

proof fn lemma_sorts_before_transitive(keys: Seq<Seq<char>>, a: int, b: int, c: int)
    requires
        sorts_before(keys, a, b),
        sorts_before(keys, b, c),
    ensures
        sorts_before(keys, a, c),
{
    if lex_less(keys[a], keys[b]) && lex_less(keys[b], keys[c]) {
        crate::text::lemma_lex_transitive(keys[a], keys[b], keys[c]);
    }
}

/// Merges two sorted runs.
fn merge_runs(
    keys: &[String],
    left: &Vec<usize>,
    right: &Vec<usize>,
    Ghost(low): Ghost<int>,
    Ghost(middle): Ghost<int>,
    Ghost(high): Ghost<int>,
) -> (order: Vec<usize>)
    requires
        0 <= low <= middle <= high <= keys@.len(),
        is_stable_run(views(keys@), left@, low, middle),
        is_stable_run(views(keys@), right@, middle, high),
    ensures
        is_stable_run(views(keys@), order@, low, high),
{
    let ghost texts = views(keys@);
    let mut order: Vec<usize> = Vec::new();
    let mut l: usize = 0;
    let mut r: usize = 0;
    while l < left.len() || r < right.len()
        invariant
            texts == views(keys@),
            0 <= low <= middle <= high <= keys@.len(),
            is_stable_run(texts, left@, low, middle),
            is_stable_run(texts, right@, middle, high),
            l <= left@.len(),
            r <= right@.len(),
            order@.len() == l + r,
            forall|i: int| 0 <= i < order@.len() ==> low <= #[trigger] order@[i] < high,
            forall|i: int, j: int|
                0 <= i < j < order@.len() ==> sorts_before(
                    texts,
                    #[trigger] order@[i] as int,
                    #[trigger] order@[j] as int,
                ),
            forall|i: int, j: int|
                0 <= i < order@.len() && l <= j < left@.len() ==> sorts_before(
                    texts,
                    #[trigger] order@[i] as int,
                    #[trigger] left@[j] as int,
                ),
            forall|i: int, j: int|
                0 <= i < order@.len() && r <= j < right@.len() ==> sorts_before(
                    texts,
                    #[trigger] order@[i] as int,
                    #[trigger] right@[j] as int,
                ),
            forall|i: int| 0 <= i < l ==> order@.contains(#[trigger] left@[i]),
            forall|i: int| 0 <= i < r ==> order@.contains(#[trigger] right@[i]),
        decreases left@.len() - l + right@.len() - r,
    {
        let ghost before = order@;
        let take_left: bool = if l >= left.len() {
            false
        } else if r >= right.len() {
            true
        } else {
            let ghost x = left@[l as int] as int;
            let ghost y = right@[r as int] as int;
            proof {
                crate::text::lemma_lex_total(texts[x], texts[y]);
            }
            !text_less(keys[right[r]].as_str(), keys[left[l]].as_str())
        };
        let next: usize = if take_left {
            left[l]
        } else {
            right[r]
        };
        proof {
            if take_left {
                assert forall|j: int| r <= j < right@.len() implies sorts_before(
                    texts,
                    next as int,
                    #[trigger] right@[j] as int,
                ) by {
                    assert(sorts_before(texts, next as int, right@[r as int] as int));
                    if j > r {
                        lemma_sorts_before_transitive(
                            texts,
                            next as int,
                            right@[r as int] as int,
                            right@[j] as int,
                        );
                    }
                }
            } else {
                assert forall|j: int| l <= j < left@.len() implies sorts_before(
                    texts,
                    next as int,
                    #[trigger] left@[j] as int,
                ) by {
                    assert(sorts_before(texts, next as int, left@[l as int] as int));
                    if j > l {
                        lemma_sorts_before_transitive(
                            texts,
                            next as int,
                            left@[l as int] as int,
                            left@[j] as int,
                        );
                    }
                }
            }
        }
        order.push(next);
        assert(order@[before.len() as int] == next);
        assert(forall|x: usize| before.contains(x) ==> order@.contains(x)) by {
            assert forall|x: usize| before.contains(x) implies order@.contains(x) by {
                let i = choose|i: int| 0 <= i < before.len() && before[i] == x;
                assert(order@[i] == x);
            }
        }
        if take_left {
            l += 1;
        } else {
            r += 1;
        }
    }
    assert forall|k: usize| low <= k < high implies #[trigger] order@.contains(k) by {
        if k < middle {
            assert(left@.contains(k));
        } else {
            assert(right@.contains(k));
        }
    }
    order
}

/// Sorts the items from `low` up to `high`.
fn sort_run(keys: &[String], low: usize, high: usize) -> (order: Vec<usize>)
    requires
        low <= high <= keys@.len(),
    ensures
        is_stable_run(views(keys@), order@, low as int, high as int),
    decreases high - low,
{
    let mut order: Vec<usize> = Vec::new();
    if high - low == 0 {
        return order;
    }
    if high - low == 1 {
        order.push(low);
        assert(order@[0] == low);
        return order;
    }
    let middle: usize = low + (high - low) / 2;
    let left = sort_run(keys, low, middle);
    let right = sort_run(keys, middle, high);
    merge_runs(
        keys,
        &left,
        &right,
        Ghost(low as int),
        Ghost(middle as int),
        Ghost(high as int),
    )
}

/// Lists the items in the order in which a stable sort by key puts them.
pub fn stable_order(keys: &[String]) -> (order: Vec<usize>)
    ensures
        is_stable_order(views(keys@), order@),
{
    sort_run(keys, 0, keys.len())
}

/// The texts in lexicographic order.
pub open spec fn sorted_texts(texts: Seq<Seq<char>>) -> Seq<Seq<char>> {
    let order = choose|order: Seq<usize>| is_stable_order(texts, order);
    Seq::new(texts.len(), |i: int| texts[order[i] as int])
}

/// Sorts texts.
pub fn sort_texts(texts: &[String]) -> (sorted: Vec<String>)
    ensures
        views(sorted@) == sorted_texts(views(texts@)),
{
    let ghost all = views(texts@);
    let order = stable_order(texts);
    let mut sorted: Vec<String> = Vec::new();
    for i in 0..order.len()
        invariant
            all == views(texts@),
            is_stable_order(all, order@),
            views(sorted@) == Seq::new(i as nat, |k: int| all[order@[k] as int]),
    {
        let ghost before = views(sorted@);
        sorted.push(texts[order[i]].clone());
        assert(views(sorted@) == before.push(all[order@[i as int] as int]));
        assert(views(sorted@) == Seq::new((i + 1) as nat, |k: int| all[order@[k] as int]));
    }
    proof {
        let chosen = choose|order: Seq<usize>| is_stable_order(all, order);
        law_stable_order_is_unique(all, chosen, order@);
        assert(views(sorted@) == sorted_texts(all));
    }
    sorted
}

/// There is only one stable order.
pub proof fn law_stable_order_is_unique(
    keys: Seq<Seq<char>>,
    first: Seq<usize>,
    second: Seq<usize>,
)
    requires
        keys.len() <= usize::MAX,
        is_stable_order(keys, first),
        is_stable_order(keys, second),
    ensures
        first == second,
{
    assert forall|i: int| 0 <= i < keys.len() implies first[i] == second[i] by {
        lemma_orders_agree(keys, first, second, i);
    }
}

proof fn lemma_orders_agree(
    keys: Seq<Seq<char>>,
    first: Seq<usize>,
    second: Seq<usize>,
    i: int,
)
    requires
        keys.len() <= usize::MAX,
        is_stable_order(keys, first),
        is_stable_order(keys, second),
        0 <= i < keys.len(),
    ensures
        first[i] == second[i],
    decreases i,
{
    assert(second.contains(first[i]));
    assert(first.contains(second[i]));
    let p = choose|p: int| 0 <= p < second.len() && second[p] == first[i];
    let q = choose|q: int| 0 <= q < first.len() && first[q] == second[i];
    if p < i {
        lemma_orders_agree(keys, first, second, p);
        lemma_not_before_itself(keys, first[p] as int, first[i] as int);
    } else if q < i {
        lemma_orders_agree(keys, first, second, q);
        lemma_not_before_itself(keys, second[q] as int, second[i] as int);
    } else if p > i && q > i {
        assert(sorts_before(keys, second[i] as int, second[p] as int));
        assert(sorts_before(keys, first[i] as int, first[q] as int));
        lemma_sorts_before_transitive(keys, first[i] as int, second[i] as int, first[i] as int);
        lemma_not_before_itself(keys, first[i] as int, first[i] as int);
    }
}

proof fn lemma_not_before_itself(keys: Seq<Seq<char>>, a: int, b: int)
    requires
        sorts_before(keys, a, b),
    ensures
        a != b,
{
    crate::text::lemma_lex_irreflexive(keys[a]);
}

/// In a run that is in order there is a place that parts the items up to `key` from those after it.
proof fn lemma_place_for_key(
    keys: Seq<Seq<char>>,
    order: Seq<usize>,
    high: int,
    key: Seq<char>,
) -> (place: int)
    requires
        0 <= high <= keys.len(),
        is_stable_run(keys, order, 0, high),
    ensures
        0 <= place <= order.len(),
        forall|i: int|
            0 <= i < place ==> !lex_less(key, keys[#[trigger] order[i] as int]),
        forall|i: int|
            place <= i < order.len() ==> lex_less(key, keys[#[trigger] order[i] as int]),
{
    lemma_place_below(keys, order, high, key, order.len() as int)
}

proof fn lemma_place_below(
    keys: Seq<Seq<char>>,
    order: Seq<usize>,
    high: int,
    key: Seq<char>,
    from: int,
) -> (place: int)
    requires
        0 <= high <= keys.len(),
        is_stable_run(keys, order, 0, high),
        0 <= from <= order.len(),
        forall|i: int|
            from <= i < order.len() ==> lex_less(key, keys[#[trigger] order[i] as int]),
    ensures
        0 <= place <= order.len(),
        forall|i: int|
            0 <= i < place ==> !lex_less(key, keys[#[trigger] order[i] as int]),
        forall|i: int|
            place <= i < order.len() ==> lex_less(key, keys[#[trigger] order[i] as int]),
    decreases from,
{
    if from == 0 {
        0
    } else if lex_less(key, keys[order[from - 1] as int]) {
        lemma_place_below(keys, order, high, key, from - 1)
    } else {
        assert forall|i: int| 0 <= i < from implies !lex_less(
            key,
            keys[#[trigger] order[i] as int],
        ) by {
            let a = order[i] as int;
            let b = order[from - 1] as int;
            if i < from - 1 && lex_less(key, keys[a]) {
                assert(sorts_before(keys, a, b));
                if lex_less(keys[a], keys[b]) {
                    crate::text::lemma_lex_transitive(key, keys[a], keys[b]);
                }
            }
        }
        from
    }
}

/// The first items of every list of keys have a stable order.
pub proof fn lemma_stable_run_exists(keys: Seq<Seq<char>>, high: int)
    requires
        0 <= high <= keys.len() <= usize::MAX,
    ensures
        exists|order: Seq<usize>| is_stable_run(keys, order, 0, high),
    decreases high,
{
    if high == 0 {
        assert(is_stable_run(keys, Seq::<usize>::empty(), 0, 0));
    } else {
        lemma_stable_run_exists(keys, high - 1);
        let below = high - 1;
        let front = choose|order: Seq<usize>| is_stable_run(keys, order, 0, below);
        let last = (high - 1) as usize;
        let place = lemma_place_for_key(keys, front, high - 1, keys[high - 1]);
        let order = front.insert(place, last);
        assert forall|i: int, j: int| 0 <= i < j < order.len() implies sorts_before(
            keys,
            #[trigger] order[i] as int,
            #[trigger] order[j] as int,
        ) by {
            if i != place && j != place {
                let a = if i < place {
                    i
                } else {
                    i - 1
                };
                let b = if j < place {
                    j
                } else {
                    j - 1
                };
                assert(order[i] == front[a] && order[j] == front[b]);
            } else if j == place {
                assert(order[i] == front[i]);
                crate::text::lemma_lex_total(keys[front[i] as int], keys[high - 1]);
            } else {
                assert(order[j] == front[j - 1]);
            }
        }
        assert forall|k: usize| 0 <= k < high implies #[trigger] order.contains(k) by {
            if k == last {
                assert(order[place] == k);
            } else {
                assert(front.contains(k));
                let i = choose|i: int| 0 <= i < front.len() && front[i] == k;
                if i < place {
                    assert(order[i] == k);
                } else {
                    assert(order[i + 1] == k);
                }
            }
        }
        assert forall|i: int| 0 <= i < order.len() implies 0 <= #[trigger] order[i] < high by {
            if i < place {
                assert(order[i] == front[i]);
            } else if i > place {
                assert(order[i] == front[i - 1]);
            }
        }
        assert(is_stable_run(keys, order, 0, high));
    }
}

/// Sorting keeps the texts: it adds none and loses none.
pub proof fn law_sorting_keeps_the_texts(texts: Seq<Seq<char>>)
    requires
        texts.len() <= usize::MAX,
    ensures
        sorted_texts(texts).len() == texts.len(),
        forall|text: Seq<char>| #[trigger]
            sorted_texts(texts).contains(text) <==> texts.contains(text),
        forall|i: int, j: int|
            0 <= i < j < texts.len() ==> !lex_less(
                #[trigger] sorted_texts(texts)[j],
                #[trigger] sorted_texts(texts)[i],
            ),
{
    lemma_stable_run_exists(texts, texts.len() as int);
    let high = texts.len() as int;
    let witness = choose|order: Seq<usize>| is_stable_run(texts, order, 0, high);
    assert(is_stable_order(texts, witness));
    let order = choose|order: Seq<usize>| is_stable_order(texts, order);
    let sorted = sorted_texts(texts);
    assert forall|text: Seq<char>| #[trigger] sorted.contains(text) <==> texts.contains(text) by {
        if sorted.contains(text) {
            let i = choose|i: int| 0 <= i < sorted.len() && sorted[i] == text;
            assert(texts[order[i] as int] == text);
        }
        if texts.contains(text) {
            let k = choose|k: int| 0 <= k < texts.len() && texts[k] == text;
            assert(order.contains(k as usize));
            let i = choose|i: int| 0 <= i < order.len() && order[i] == k as usize;
            assert(sorted[i] == text);
        }
    }
    assert forall|i: int, j: int| 0 <= i < j < texts.len() implies !lex_less(
        #[trigger] sorted[j],
        #[trigger] sorted[i],
    ) by {
        let a = order[i] as int;
        let b = order[j] as int;
        assert(sorts_before(texts, a, b));
        if lex_less(texts[b], texts[a]) {
            if lex_less(texts[a], texts[b]) {
                crate::text::lemma_lex_transitive(texts[a], texts[b], texts[a]);
            }
            crate::text::lemma_lex_irreflexive(texts[a]);
        }
    }
}

/// Different texts are in strictly ascending order once they are sorted.
pub proof fn law_different_texts_ascend(texts: Seq<Seq<char>>)
    requires
        texts.len() <= usize::MAX,
        texts.no_duplicates(),
    ensures
        forall|i: int, j: int|
            0 <= i < j < texts.len() ==> lex_less(
                #[trigger] sorted_texts(texts)[i],
                #[trigger] sorted_texts(texts)[j],
            ),
{
    let high = texts.len() as int;
    lemma_stable_run_exists(texts, high);
    let witness = choose|order: Seq<usize>| is_stable_run(texts, order, 0, high);
    assert(is_stable_order(texts, witness));
    let order = choose|order: Seq<usize>| is_stable_order(texts, order);
    let sorted = sorted_texts(texts);
    assert forall|i: int, j: int| 0 <= i < j < texts.len() implies lex_less(
        #[trigger] sorted[i],
        #[trigger] sorted[j],
    ) by {
        assert(sorts_before(texts, order[i] as int, order[j] as int));
    }
}

/// A stable order lists every item once, by ascending keys, and items with equal keys as they came.
pub proof fn law_stable_order_keeps_equal_keys_in_place(
    keys: Seq<Seq<char>>,
    order: Seq<usize>,
    i: int,
    j: int,
)
    requires
        is_stable_order(keys, order),
        0 <= i < j < order.len(),
    ensures
        order.len() == keys.len(),
        order[i] < keys.len() && order[j] < keys.len(),
        order[i] != order[j],
        !lex_less(keys[order[j] as int], keys[order[i] as int]),
        keys[order[i] as int] == keys[order[j] as int] ==> order[i] < order[j],
{
    let a = order[i] as int;
    let b = order[j] as int;
    assert(sorts_before(keys, a, b));
    crate::text::lemma_lex_irreflexive(keys[a]);
    if lex_less(keys[b], keys[a]) && lex_less(keys[a], keys[b]) {
        crate::text::lemma_lex_transitive(keys[a], keys[b], keys[a]);
    }
}

/// Whether texts are others in another order: each is taken from its own place.
pub open spec fn is_rearranged(
    texts: Seq<Seq<char>>,
    sorted: Seq<Seq<char>>,
    places: Seq<int>,
) -> bool {
    &&& places.len() == texts.len()
    &&& sorted.len() == texts.len()
    &&& forall|i: int|
        0 <= i < places.len() ==> 0 <= #[trigger] places[i] < texts.len() && sorted[i]
            == texts[places[i]]
    &&& forall|i: int, j: int|
        0 <= i < j < places.len() ==> #[trigger] places[i] != #[trigger] places[j]
}

/// Sorting only rearranges: every text comes from a place of its own, so that a text that stands
/// several times stays as often.
pub proof fn law_sorting_only_rearranges(texts: Seq<Seq<char>>)
    requires
        texts.len() <= usize::MAX,
    ensures
        exists|places: Seq<int>| is_rearranged(texts, sorted_texts(texts), places),
{
    let high = texts.len() as int;
    lemma_stable_run_exists(texts, high);
    let witness = choose|order: Seq<usize>| is_stable_run(texts, order, 0, high);
    assert(is_stable_order(texts, witness));
    let order = choose|order: Seq<usize>| is_stable_order(texts, order);
    let places = Seq::new(texts.len(), |i: int| order[i] as int);
    assert forall|i: int, j: int| 0 <= i < j < places.len() implies #[trigger] places[i]
        != #[trigger] places[j] by {
        law_stable_order_keeps_equal_keys_in_place(texts, order, i, j);
    }
    assert(is_rearranged(texts, sorted_texts(texts), places));
}

} // verus!
