//! Ranking by descending score.
//!
//! A ranking lists items highest score first; items with the same score keep
//! the order in which they came. The model takes the items one by one and lets
//! each pass every item that scores lower. The executable ranking sorts keys,
//! pairs of a score and a position, by merging.

use vstd::prelude::*;

verus! {

/// `ranked` with one more item: it stands behind every item that scores as
/// high or higher, and before the rest.
pub open spec fn inserted<T>(ranked: Seq<T>, item: T, score: spec_fn(T) -> int) -> Seq<T>
    decreases ranked.len(),
{
    if ranked.len() > 0 && score(ranked[0]) >= score(item) {
        seq![ranked[0]] + inserted(ranked.drop_first(), item, score)
    } else {
        seq![item] + ranked
    }
}

/// The items by descending score; items of equal score in the order in which
/// they stand in `items`.
pub open spec fn ranked<T>(items: Seq<T>, score: spec_fn(T) -> int) -> Seq<T>
    decreases items.len(),
{
    if items.len() == 0 {
        items
    } else {
        inserted(ranked(items.drop_last(), score), items.last(), score)
    }
}

/// Two rankings in one: at each step the higher head goes first, and the left
/// one where both score the same.
pub open spec fn merged<T>(left: Seq<T>, right: Seq<T>, score: spec_fn(T) -> int) -> Seq<T>
    decreases left.len() + right.len(),
{
    if left.len() == 0 {
        right
    } else if right.len() == 0 {
        left
    } else if score(left[0]) >= score(right[0]) {
        seq![left[0]] + merged(left.drop_first(), right, score)
    } else {
        seq![right[0]] + merged(left, right.drop_first(), score)
    }
}

/// No item scores higher than an item before it.
pub open spec fn descending<T>(items: Seq<T>, score: spec_fn(T) -> int) -> bool {
    forall|i: int, j: int| 0 <= i < j < items.len() ==> score(items[i]) >= score(items[j])
}

/// The items with score `level`.
pub open spec fn at_level<T>(score: spec_fn(T) -> int, level: int) -> spec_fn(T) -> bool {
    |item: T| score(item) == level
}

/// Where `item` comes to stand in `inserted`.
pub open spec fn slot<T>(ranked: Seq<T>, item: T, score: spec_fn(T) -> int) -> int
    decreases ranked.len(),
{
    if ranked.len() > 0 && score(ranked[0]) >= score(item) {
        1 + slot(ranked.drop_first(), item, score)
    } else {
        0
    }
}

/// `inserted` puts the item at its slot and leaves the others as they stand.
/// Before the slot every item scores as high as the new one or higher; in a
/// descending ranking every item from the slot on scores lower.
pub proof fn lemma_inserted<T>(ranked: Seq<T>, item: T, score: spec_fn(T) -> int)
    ensures
        0 <= slot(ranked, item, score) <= ranked.len(),
        inserted(ranked, item, score) == ranked.take(slot(ranked, item, score)).push(item)
            + ranked.skip(slot(ranked, item, score)),
        forall|i: int| 0 <= i < slot(ranked, item, score) ==> score(ranked[i]) >= score(item),
        descending(ranked, score) ==> forall|i: int|
            slot(ranked, item, score) <= i < ranked.len() ==> score(ranked[i]) < score(item),
    decreases ranked.len(),
{
    let at = slot(ranked, item, score);
    if ranked.len() > 0 && score(ranked[0]) >= score(item) {
        let rest = ranked.drop_first();
        lemma_inserted(rest, item, score);
        let below = slot(rest, item, score);
        assert(inserted(ranked, item, score) =~= ranked.take(at).push(item) + ranked.skip(at)) by {
            assert(ranked.take(at) =~= seq![ranked[0]] + rest.take(below));
            assert(ranked.skip(at) =~= rest.skip(below));
        }
        assert forall|i: int| 0 <= i < at implies score(ranked[i]) >= score(item) by {
            if i > 0 {
                assert(ranked[i] == rest[i - 1]);
            }
        }
        if descending(ranked, score) {
            assert(descending(rest, score)) by {
                assert forall|i: int, j: int| 0 <= i < j < rest.len() implies score(rest[i])
                    >= score(rest[j]) by {
                    assert(rest[i] == ranked[i + 1] && rest[j] == ranked[j + 1]);
                }
            }
            assert forall|i: int| at <= i < ranked.len() implies score(ranked[i]) < score(
                item,
            ) by {
                assert(ranked[i] == rest[i - 1]);
            }
        }
    } else {
        assert(inserted(ranked, item, score) =~= ranked.take(0).push(item) + ranked.skip(0));
    }
}

/// A ranking has the length of what it ranks.
pub proof fn lemma_ranked_len<T>(items: Seq<T>, score: spec_fn(T) -> int)
    ensures
        ranked(items, score).len() == items.len(),
    decreases items.len(),
{
    if items.len() > 0 {
        lemma_ranked_len(items.drop_last(), score);
        lemma_inserted(ranked(items.drop_last(), score), items.last(), score);
    }
}

/// A ranking is in descending order of score.
pub proof fn lemma_ranked_descending<T>(items: Seq<T>, score: spec_fn(T) -> int)
    ensures
        descending(ranked(items, score), score),
    decreases items.len(),
{
    if items.len() > 0 {
        let before = ranked(items.drop_last(), score);
        let item = items.last();
        lemma_ranked_descending(items.drop_last(), score);
        lemma_inserted(before, item, score);
        let at = slot(before, item, score);
        let after = ranked(items, score);
        assert forall|i: int, j: int| 0 <= i < j < after.len() implies score(after[i]) >= score(
            after[j],
        ) by {
            if j < at {
                assert(after[i] == before[i] && after[j] == before[j]);
            } else if j == at {
                assert(after[i] == before[i] && after[j] == item);
            } else if i < at {
                assert(after[i] == before[i] && after[j] == before[j - 1]);
            } else if i == at {
                assert(after[i] == item && after[j] == before[j - 1]);
            } else {
                assert(after[i] == before[i - 1] && after[j] == before[j - 1]);
            }
        }
    }
}

/// A ranking is stable: the items of any one score stand in it in the order
/// in which they came.
pub proof fn lemma_ranked_stable<T>(items: Seq<T>, score: spec_fn(T) -> int, level: int)
    ensures
        ranked(items, score).filter(at_level(score, level)) == items.filter(
            at_level(score, level),
        ),
    decreases items.len(),
{
    reveal(Seq::filter);
    if items.len() > 0 {
        let keep = at_level(score, level);
        let before = ranked(items.drop_last(), score);
        let item = items.last();
        lemma_ranked_stable(items.drop_last(), score, level);
        lemma_ranked_descending(items.drop_last(), score);
        lemma_inserted(before, item, score);
        let at = slot(before, item, score);
        let head = before.take(at);
        let tail = before.skip(at);
        assert(before =~= head + tail);
        Seq::filter_distributes_over_add(head, tail, keep);
        Seq::filter_distributes_over_add(head.push(item), tail, keep);
        assert(head.push(item).drop_last() =~= head);
        if keep(item) {
            assert(tail.filter(keep) =~= Seq::<T>::empty()) by {
                tail.lemma_filter_len(keep);
                if tail.filter(keep).len() > 0 {
                    tail.lemma_filter_pred(keep, 0);
                    tail.lemma_filter_contains_rev(keep, tail.filter(keep)[0]);
                    let k = choose|k: int| 0 <= k < tail.len() && tail[k] == tail.filter(keep)[0];
                    assert(tail[k] == before[at + k]);
                }
            }
            assert(head.filter(keep).push(item) + Seq::<T>::empty() =~= (head.filter(keep)
                + Seq::<T>::empty()).push(item));
        }
    }
}

/// A ranking holds each item as often as the items it ranks.
pub proof fn lemma_ranked_permutes<T>(items: Seq<T>, score: spec_fn(T) -> int)
    ensures
        ranked(items, score).to_multiset() == items.to_multiset(),
    decreases items.len(),
{
    if items.len() > 0 {
        let shorter = items.drop_last();
        let before = ranked(shorter, score);
        let item = items.last();
        lemma_ranked_permutes(shorter, score);
        lemma_inserted(before, item, score);
        let at = slot(before, item, score);
        let head = before.take(at);
        let tail = before.skip(at);
        assert(before =~= head + tail);
        assert(shorter.push(item) =~= items);
        vstd::seq_lib::lemma_multiset_commutative(head, tail);
        vstd::seq_lib::lemma_multiset_commutative(head.push(item), tail);
        vstd::seq_lib::to_multiset_build(head, item);
        vstd::seq_lib::to_multiset_build(shorter, item);
        assert(ranked(items, score).to_multiset() =~= items.to_multiset());
    }
}

/// A ranking holds the items it ranks, and no others.
pub proof fn lemma_ranked_contains<T>(items: Seq<T>, score: spec_fn(T) -> int, item: T)
    ensures
        ranked(items, score).contains(item) <==> items.contains(item),
{
    lemma_ranked_permutes(items, score);
    vstd::seq_lib::to_multiset_contains(ranked(items, score), item);
    vstd::seq_lib::to_multiset_contains(items, item);
}

/// Ranking the items of two sequences, one after the other, is merging their
/// rankings.
pub proof fn lemma_ranked_concat<T>(left: Seq<T>, right: Seq<T>, score: spec_fn(T) -> int)
    ensures
        ranked(left + right, score) == merged(ranked(left, score), ranked(right, score), score),
    decreases right.len(),
{
    if right.len() == 0 {
        assert(left + right =~= left);
        lemma_merged_empty(ranked(left, score), score);
    } else {
        let shorter = right.drop_last();
        assert((left + right).drop_last() =~= left + shorter);
        assert((left + right).last() == right.last());
        lemma_ranked_concat(left, shorter, score);
        lemma_inserted_merged(ranked(left, score), ranked(shorter, score), right.last(), score);
    }
}

/// Merging with nothing changes nothing.
pub proof fn lemma_merged_empty<T>(items: Seq<T>, score: spec_fn(T) -> int)
    ensures
        merged(items, Seq::<T>::empty(), score) == items,
        merged(Seq::<T>::empty(), items, score) == items,
{
}

/// An item inserted after a merge stands where it stands when it is inserted
/// into the right side before the merge.
proof fn lemma_inserted_merged<T>(left: Seq<T>, right: Seq<T>, item: T, score: spec_fn(T) -> int)
    ensures
        inserted(merged(left, right, score), item, score) == merged(
            left,
            inserted(right, item, score),
            score,
        ),
    decreases left.len() + right.len(),
{
    let grown = inserted(right, item, score);
    let both = merged(left, right, score);
    if left.len() == 0 {
        assert(both == right);
        assert(merged(left, grown, score) == grown);
    } else if right.len() == 0 {
        assert(both == left);
        assert(grown =~= seq![item]);
        assert(grown.drop_first() =~= right);
        if score(left[0]) >= score(item) {
            let rest = left.drop_first();
            lemma_inserted_merged(rest, right, item, score);
            lemma_merged_empty(rest, score);
            assert(right =~= Seq::<T>::empty());
            assert(merged(rest, right, score) == rest);
            assert(merged(left, grown, score) == seq![left[0]] + merged(rest, grown, score));
        } else {
            lemma_merged_empty(left, score);
            assert(right =~= Seq::<T>::empty());
            assert(merged(left, grown, score) == seq![item] + merged(left, right, score));
        }
    } else if score(left[0]) >= score(right[0]) {
        let rest = left.drop_first();
        assert(both == seq![left[0]] + merged(rest, right, score));
        assert(both[0] == left[0]);
        assert(both.drop_first() =~= merged(rest, right, score));
        if score(left[0]) >= score(item) {
            lemma_inserted_merged(rest, right, item, score);
            assert(score(grown[0]) <= score(left[0]));
            assert(merged(left, grown, score) == seq![left[0]] + merged(rest, grown, score));
        } else {
            assert(grown == seq![item] + right);
            assert(grown.drop_first() =~= right);
            assert(merged(left, grown, score) == seq![item] + merged(left, right, score));
        }
    } else {
        let rest = right.drop_first();
        assert(both == seq![right[0]] + merged(left, rest, score));
        assert(both[0] == right[0]);
        assert(both.drop_first() =~= merged(left, rest, score));
        if score(right[0]) >= score(item) {
            lemma_inserted_merged(left, rest, item, score);
            assert(grown == seq![right[0]] + inserted(rest, item, score));
            assert(grown.drop_first() =~= inserted(rest, item, score));
            assert(merged(left, grown, score) == seq![right[0]] + merged(
                left,
                inserted(rest, item, score),
                score,
            ));
        } else {
            assert(grown == seq![item] + right);
            assert(grown.drop_first() =~= right);
            assert(merged(left, grown, score) == seq![item] + merged(left, right, score));
        }
    }
}

/// A key: the score of an item and the position at which the item stands.
pub type Key = (i64, usize);

/// The score of a key.
pub open spec fn key_score() -> spec_fn(Key) -> int {
    |key: Key| key.0 as int
}

/// Merges two rankings of keys.
fn merge_keys(left: &Vec<Key>, right: &Vec<Key>) -> (out: Vec<Key>)
    ensures
        out@ == merged(left@, right@, key_score()),
{
    let mut out: Vec<Key> = Vec::new();
    let mut i: usize = 0;
    let mut j: usize = 0;
    assert(left@.skip(0) =~= left@ && right@.skip(0) =~= right@);
    while i < left.len() || j < right.len()
        invariant
            i <= left.len(),
            j <= right.len(),
            out@ + merged(left@.skip(i as int), right@.skip(j as int), key_score()) == merged(
                left@,
                right@,
                key_score(),
            ),
        decreases left.len() - i + right.len() - j,
    {
        let ghost l = left@.skip(i as int);
        let ghost r = right@.skip(j as int);
        let ghost rest = merged(l, r, key_score());
        let from_left = if i == left.len() {
            false
        } else if j == right.len() {
            true
        } else {
            left[i].0 >= right[j].0
        };
        if from_left {
            proof {
                assert(l.drop_first() =~= left@.skip(i + 1));
                if j == right.len() {
                    lemma_merged_empty(l, key_score());
                    lemma_merged_empty(l.drop_first(), key_score());
                    assert(rest =~= seq![l[0]] + merged(l.drop_first(), r, key_score()));
                }
                assert(out@.push(left@[i as int]) + merged(l.drop_first(), r, key_score())
                    =~= out@ + rest);
            }
            out.push(left[i]);
            i += 1;
        } else {
            proof {
                assert(r.drop_first() =~= right@.skip(j + 1));
                if i == left.len() {
                    lemma_merged_empty(r, key_score());
                    lemma_merged_empty(r.drop_first(), key_score());
                    assert(rest =~= seq![r[0]] + merged(l, r.drop_first(), key_score()));
                }
                assert(out@.push(right@[j as int]) + merged(l, r.drop_first(), key_score())
                    =~= out@ + rest);
            }
            out.push(right[j]);
            j += 1;
        }
    }
    assert(out@ + Seq::<Key>::empty() =~= out@);
    out
}

/// Ranks the keys `keys[from..to]`.
fn rank_range(keys: &Vec<Key>, from: usize, to: usize) -> (out: Vec<Key>)
    requires
        from <= to <= keys.len(),
    ensures
        out@ == ranked(keys@.subrange(from as int, to as int), key_score()),
    decreases to - from,
{
    let ghost part = keys@.subrange(from as int, to as int);
    if to - from == 0 {
        Vec::new()
    } else if to - from == 1 {
        let mut out: Vec<Key> = Vec::new();
        out.push(keys[from]);
        assert(ranked(part.drop_last(), key_score()) =~= Seq::<Key>::empty());
        assert(out@ =~= ranked(part, key_score()));
        out
    } else {
        let mid = from + (to - from) / 2;
        let left = rank_range(keys, from, mid);
        let right = rank_range(keys, mid, to);
        proof {
            let first = keys@.subrange(from as int, mid as int);
            let second = keys@.subrange(mid as int, to as int);
            assert(part =~= first + second);
            lemma_ranked_concat(first, second, key_score());
        }
        merge_keys(&left, &right)
    }
}

/// Ranks keys by descending score; keys of equal score keep their order.
pub fn rank_keys(keys: &Vec<Key>) -> (out: Vec<Key>)
    ensures
        out@ == ranked(keys@, key_score()),
{
    assert(keys@.subrange(0, keys.len() as int) =~= keys@);
    rank_range(keys, 0, keys.len())
}

} // verus!
