//! Aggregation: the language byte counts of many repositories are added up
//! per language, in the order in which the languages are first met, and
//! ranked by their totals.

use vstd::prelude::*;

verus! {

/// All pairs of all maps in one sequence: the maps in their order, the pairs
/// of each map in its order.
pub open spec fn pairs_in_order(maps: Seq<Seq<(Seq<char>, u64)>>) -> Seq<(Seq<char>, u64)>
    decreases maps.len(),
{
    if maps.len() == 0 {
        Seq::empty()
    } else {
        pairs_in_order(maps.drop_last()) + maps.last()
    }
}

/// True if some pair carries the language `name`.
pub open spec fn mentions(pairs: Seq<(Seq<char>, u64)>, name: Seq<char>) -> bool {
    exists|i: int| 0 <= i < pairs.len() && (#[trigger] pairs[i]).0 == name
}

/// The sum of the byte counts of all pairs that carry the language `name`.
pub open spec fn bytes_of(pairs: Seq<(Seq<char>, u64)>, name: Seq<char>) -> nat
    decreases pairs.len(),
{
    if pairs.len() == 0 {
        0
    } else if pairs.last().0 == name {
        bytes_of(pairs.drop_last(), name) + pairs.last().1 as nat
    } else {
        bytes_of(pairs.drop_last(), name)
    }
}

/// The position of the first pair that carries the language `name`. Meant
/// for a language that `pairs` mentions.
pub open spec fn first_seen(pairs: Seq<(Seq<char>, u64)>, name: Seq<char>) -> int
    decreases pairs.len(),
{
    if pairs.len() == 0 {
        0
    } else if mentions(pairs.drop_last(), name) {
        first_seen(pairs.drop_last(), name)
    } else {
        pairs.len() - 1
    }
}

/// True if every language's total fits the machine's byte counter.
pub open spec fn totals_fit(pairs: Seq<(Seq<char>, u64)>) -> bool {
    forall|name: Seq<char>| #[trigger] bytes_of(pairs, name) <= u64::MAX
}

/// Entries with their byte counts as natural numbers.
pub open spec fn counts(entries: Seq<(Seq<char>, u64)>) -> Seq<(Seq<char>, nat)> {
    Seq::new(entries.len(), |i: int| (entries[i].0, entries[i].1 as nat))
}

/// True if some tally is that of the language `name`.
pub open spec fn has_name(tallies: Seq<(Seq<char>, nat)>, name: Seq<char>) -> bool {
    exists|i: int| 0 <= i < tallies.len() && (#[trigger] tallies[i]).0 == name
}

/// True if no two tallies are of the same language.
pub open spec fn names_distinct(tallies: Seq<(Seq<char>, nat)>) -> bool {
    forall|i: int, j: int|
        0 <= i < j < tallies.len() ==> (#[trigger] tallies[i]).0 != (#[trigger] tallies[j]).0
}

/// True if the counts never rise from one entry to the next.
pub open spec fn is_ranked(entries: Seq<(Seq<char>, nat)>) -> bool {
    forall|i: int, j: int|
        0 <= i < j < entries.len() ==> (#[trigger] entries[i]).1 >= (#[trigger] entries[j]).1
}

/// The tallies after one more pair: `bytes` is added to the tally of `name`,
/// which is first made, at the end, where the language is new.
pub open spec fn tally(tallies: Seq<(Seq<char>, nat)>, name: Seq<char>, bytes: nat) -> Seq<
    (Seq<char>, nat),
> {
    if has_name(tallies, name) {
        Seq::new(
            tallies.len(),
            |i: int|
                if tallies[i].0 == name {
                    (name, tallies[i].1 + bytes)
                } else {
                    tallies[i]
                },
        )
    } else {
        tallies.push((name, bytes))
    }
}

/// The tallies of a sequence of pairs, taken in one after the other.
pub open spec fn tallied(pairs: Seq<(Seq<char>, u64)>) -> Seq<(Seq<char>, nat)>
    decreases pairs.len(),
{
    if pairs.len() == 0 {
        Seq::empty()
    } else {
        tally(tallied(pairs.drop_last()), pairs.last().0, pairs.last().1 as nat)
    }
}

/// Where an entry of `bytes` bytes goes into a ranking: right behind the
/// last entry whose count is at least `bytes`, at the front if there is none.
pub open spec fn slot(ranking: Seq<(Seq<char>, nat)>, bytes: nat) -> int
    decreases ranking.len(),
{
    if ranking.len() == 0 || ranking.last().1 >= bytes {
        ranking.len() as int
    } else {
        slot(ranking.drop_last(), bytes)
    }
}

/// A ranking with one more entry, put into its slot.
pub open spec fn place(ranking: Seq<(Seq<char>, nat)>, entry: (Seq<char>, nat)) -> Seq<
    (Seq<char>, nat),
> {
    ranking.insert(slot(ranking, entry.1), entry)
}

/// True if, of two entries with the same count, the one that stands first is
/// the one that `seen` puts first.
pub open spec fn ties_in_order(
    entries: Seq<(Seq<char>, nat)>,
    seen: spec_fn(Seq<char>) -> int,
) -> bool {
    forall|i: int, j: int|
        0 <= i < j < entries.len() && (#[trigger] entries[i]).1 == (#[trigger] entries[j]).1
            ==> seen(entries[i].0) < seen(entries[j].0)
}

/// True if `ranking` ranks the totals of `pairs`: it has one entry for each
/// language mentioned and for no other, each with the sum of the language's
/// bytes; the counts never rise; and of two languages with the same total
/// the one first seen in `pairs` stands first.
pub open spec fn is_ranking_of(
    ranking: Seq<(Seq<char>, nat)>,
    pairs: Seq<(Seq<char>, u64)>,
) -> bool {
    &&& names_distinct(ranking)
    &&& forall|name: Seq<char>| mentions(pairs, name) <==> #[trigger] has_name(ranking, name)
    &&& forall|i: int|
        0 <= i < ranking.len() ==> (#[trigger] ranking[i]).1 == bytes_of(pairs, ranking[i].0)
    &&& is_ranked(ranking)
    &&& ties_in_order(ranking, |name: Seq<char>| first_seen(pairs, name))
}

/// The entries ranked by count, greatest first; entries of one count keep
/// the order they came in.
pub open spec fn ranked(entries: Seq<(Seq<char>, nat)>) -> Seq<(Seq<char>, nat)>
    decreases entries.len(),
{
    if entries.len() == 0 {
        Seq::empty()
    } else {
        place(ranked(entries.drop_last()), entries.last())
    }
}

/// A language that no pair carries has no bytes.
pub proof fn lemma_unmentioned_has_no_bytes(pairs: Seq<(Seq<char>, u64)>, name: Seq<char>)
    requires
        !mentions(pairs, name),
    ensures
        bytes_of(pairs, name) == 0,
    decreases pairs.len(),
{
    if pairs.len() > 0 {
        let front = pairs.drop_last();
        assert(pairs[pairs.len() - 1].0 != name);
        assert(!mentions(front, name)) by {
            if mentions(front, name) {
                let i = choose|i: int| 0 <= i < front.len() && (#[trigger] front[i]).0 == name;
                assert(pairs[i].0 == name);
            }
        }
        lemma_unmentioned_has_no_bytes(front, name);
    }
}

/// `first_seen` is the position of a pair that carries the language, and no
/// pair before it does.
pub proof fn lemma_first_seen(pairs: Seq<(Seq<char>, u64)>, name: Seq<char>)
    requires
        mentions(pairs, name),
    ensures
        0 <= first_seen(pairs, name) < pairs.len(),
        pairs[first_seen(pairs, name)].0 == name,
        forall|j: int| 0 <= j < first_seen(pairs, name) ==> (#[trigger] pairs[j]).0 != name,
    decreases pairs.len(),
{
    let front = pairs.drop_last();
    if mentions(front, name) {
        lemma_first_seen(front, name);
        assert forall|j: int| 0 <= j < first_seen(pairs, name) implies (#[trigger] pairs[j]).0
            != name by {
            assert(front[j] == pairs[j]);
        }
    } else {
        let i = choose|i: int| 0 <= i < pairs.len() && (#[trigger] pairs[i]).0 == name;
        if i < pairs.len() - 1 {
            assert(front[i].0 == name);
        }
        assert forall|j: int| 0 <= j < pairs.len() - 1 implies (#[trigger] pairs[j]).0
            != name by {
            assert(front[j] == pairs[j]);
        }
    }
}

/// What one more pair changes: it adds its language to the languages
/// mentioned, and a language mentioned before it was first seen where it was.
pub proof fn lemma_one_more_pair(pairs: Seq<(Seq<char>, u64)>, name: Seq<char>)
    requires
        pairs.len() > 0,
    ensures
        mentions(pairs, name) <==> mentions(pairs.drop_last(), name) || pairs.last().0 == name,
        mentions(pairs.drop_last(), name) ==> first_seen(pairs, name) == first_seen(
            pairs.drop_last(),
            name,
        ),
{
    let front = pairs.drop_last();
    if mentions(front, name) {
        let i = choose|i: int| 0 <= i < front.len() && (#[trigger] front[i]).0 == name;
        assert(pairs[i].0 == name);
    }
    if pairs.last().0 == name {
        assert(pairs[pairs.len() - 1].0 == name);
    }
    if mentions(pairs, name) {
        let i = choose|i: int| 0 <= i < pairs.len() && (#[trigger] pairs[i]).0 == name;
        if i < pairs.len() - 1 {
            assert(front[i].0 == name);
        }
    }
}

/// What the tallies of a sequence of pairs hold: one tally for each language
/// mentioned and for no other, each with the sum of the language's bytes, in
/// the order in which the languages were first seen.
pub proof fn lemma_tallied(pairs: Seq<(Seq<char>, u64)>)
    ensures
        names_distinct(tallied(pairs)),
        forall|i: int|
            0 <= i < tallied(pairs).len() ==> mentions(pairs, (#[trigger] tallied(pairs)[i]).0)
                && tallied(pairs)[i].1 == bytes_of(pairs, tallied(pairs)[i].0),
        forall|name: Seq<char>| mentions(pairs, name) ==> #[trigger] has_name(tallied(pairs), name),
        forall|i: int, j: int|
            0 <= i < j < tallied(pairs).len() ==> first_seen(
                pairs,
                (#[trigger] tallied(pairs)[i]).0,
            ) < first_seen(pairs, (#[trigger] tallied(pairs)[j]).0),
    decreases pairs.len(),
{
    if pairs.len() > 0 {
        let front = pairs.drop_last();
        let last = pairs.last();
        let before = tallied(front);
        let after = tallied(pairs);
        lemma_tallied(front);
        assert(after == tally(before, last.0, last.1 as nat));
        if has_name(before, last.0) {
            let at = choose|i: int| 0 <= i < before.len() && (#[trigger] before[i]).0 == last.0;
            assert(mentions(front, before[at].0));
            assert forall|i: int| 0 <= i < after.len() implies (#[trigger] after[i]).0
                == before[i].0 by {}
            assert forall|i: int| 0 <= i < after.len() implies mentions(
                pairs,
                (#[trigger] after[i]).0,
            ) && after[i].1 == bytes_of(pairs, after[i].0) by {
                assert(mentions(front, before[i].0));
                lemma_one_more_pair(pairs, before[i].0);
            }
            assert forall|name: Seq<char>| mentions(pairs, name) implies #[trigger] has_name(
                after,
                name,
            ) by {
                lemma_one_more_pair(pairs, name);
                assert(has_name(before, name));
                let i = choose|i: int| 0 <= i < before.len() && (#[trigger] before[i]).0 == name;
                assert(after[i].0 == name);
            }
            assert forall|i: int, j: int| 0 <= i < j < after.len() implies first_seen(
                pairs,
                (#[trigger] after[i]).0,
            ) < first_seen(pairs, (#[trigger] after[j]).0) by {
                assert(mentions(front, before[i].0));
                assert(mentions(front, before[j].0));
                lemma_one_more_pair(pairs, before[i].0);
                lemma_one_more_pair(pairs, before[j].0);
            }
            assert(names_distinct(after)) by {
                assert forall|i: int, j: int| 0 <= i < j < after.len() implies (#[trigger] after[i]).0
                    != (#[trigger] after[j]).0 by {
                    assert(before[i].0 != before[j].0);
                }
            }
        } else {
            assert(!mentions(front, last.0));
            lemma_unmentioned_has_no_bytes(front, last.0);
            lemma_one_more_pair(pairs, last.0);
            assert(after == before.push((last.0, last.1 as nat)));
            assert forall|i: int| 0 <= i < after.len() implies mentions(
                pairs,
                (#[trigger] after[i]).0,
            ) && after[i].1 == bytes_of(pairs, after[i].0) by {
                if i < before.len() {
                    assert(after[i] == before[i]);
                    assert(mentions(front, before[i].0));
                    lemma_one_more_pair(pairs, before[i].0);
                    assert(before[i].0 != last.0);
                }
            }
            assert forall|name: Seq<char>| mentions(pairs, name) implies #[trigger] has_name(
                after,
                name,
            ) by {
                lemma_one_more_pair(pairs, name);
                if mentions(front, name) {
                    assert(has_name(before, name));
                    let i = choose|i: int|
                        0 <= i < before.len() && (#[trigger] before[i]).0 == name;
                    assert(after[i].0 == name);
                } else {
                    assert(after[before.len() as int].0 == name);
                }
            }
            assert forall|i: int, j: int| 0 <= i < j < after.len() implies first_seen(
                pairs,
                (#[trigger] after[i]).0,
            ) < first_seen(pairs, (#[trigger] after[j]).0) by {
                assert(after[i] == before[i]);
                assert(mentions(front, before[i].0));
                lemma_one_more_pair(pairs, before[i].0);
                lemma_first_seen(front, before[i].0);
                if j < before.len() {
                    assert(after[j] == before[j]);
                    assert(mentions(front, before[j].0));
                    lemma_one_more_pair(pairs, before[j].0);
                }
            }
            assert(names_distinct(after)) by {
                assert forall|i: int, j: int| 0 <= i < j < after.len() implies (#[trigger] after[i]).0
                    != (#[trigger] after[j]).0 by {
                    assert(after[i] == before[i]);
                    if j < before.len() {
                        assert(after[j] == before[j]);
                    }
                }
            }
        }
    }
}

/// The slot of an entry lies in the ranking or at its end; every entry from
/// the slot on has a smaller count, and in a ranking every entry before the
/// slot has a count at least as great.
pub proof fn lemma_slot(ranking: Seq<(Seq<char>, nat)>, bytes: nat)
    ensures
        0 <= slot(ranking, bytes) <= ranking.len(),
        forall|i: int|
            slot(ranking, bytes) <= i < ranking.len() ==> (#[trigger] ranking[i]).1 < bytes,
        slot(ranking, bytes) > 0 ==> ranking[slot(ranking, bytes) - 1].1 >= bytes,
        is_ranked(ranking) ==> forall|i: int|
            0 <= i < slot(ranking, bytes) ==> (#[trigger] ranking[i]).1 >= bytes,
    decreases ranking.len(),
{
    if ranking.len() == 0 || ranking.last().1 >= bytes {
        if is_ranked(ranking) {
            assert forall|i: int| 0 <= i < ranking.len() implies (#[trigger] ranking[i]).1
                >= bytes by {
                if i < ranking.len() - 1 {
                    assert(ranking[i].1 >= ranking[ranking.len() - 1].1);
                }
            }
        }
    } else {
        let front = ranking.drop_last();
        lemma_slot(front, bytes);
        assert forall|i: int| slot(ranking, bytes) <= i < ranking.len() implies (
        #[trigger] ranking[i]).1 < bytes by {
            if i < front.len() {
                assert(front[i] == ranking[i]);
            }
        }
        if slot(ranking, bytes) > 0 {
            assert(front[slot(ranking, bytes) - 1] == ranking[slot(ranking, bytes) - 1]);
        }
        if is_ranked(ranking) {
            assert(is_ranked(front)) by {
                assert forall|i: int, j: int| 0 <= i < j < front.len() implies (
                #[trigger] front[i]).1 >= (#[trigger] front[j]).1 by {
                    assert(ranking[i].1 >= ranking[j].1);
                }
            }
            assert forall|i: int| 0 <= i < slot(ranking, bytes) implies (#[trigger] ranking[i]).1
                >= bytes by {
                assert(front[i] == ranking[i]);
            }
        }
    }
}

/// Ranking rearranges: it keeps every entry as often as it came, and in the
/// result the counts never rise.
pub proof fn lemma_ranked_sorts(entries: Seq<(Seq<char>, nat)>)
    ensures
        ranked(entries).len() == entries.len(),
        ranked(entries).to_multiset() == entries.to_multiset(),
        forall|x: (Seq<char>, nat)| ranked(entries).contains(x) <==> entries.contains(x),
        is_ranked(ranked(entries)),
    decreases entries.len(),
{
    broadcast use vstd::seq_lib::group_to_multiset_ensures;

    if entries.len() > 0 {
        let front = entries.drop_last();
        let last = entries.last();
        let before = ranked(front);
        let after = ranked(entries);
        let at = slot(before, last.1);
        lemma_ranked_sorts(front);
        lemma_slot(before, last.1);
        assert(after == before.insert(at, last));
        assert(after.remove(at) =~= before);
        assert(after[at] == last);
        assert(after.contains(last));
        assert(after.to_multiset() =~= before.to_multiset().insert(last));
        assert(entries =~= front.push(last));
        assert(entries.to_multiset() =~= front.to_multiset().insert(last));
        assert(is_ranked(after)) by {
            assert forall|i: int, j: int| 0 <= i < j < after.len() implies (#[trigger] after[i]).1
                >= (#[trigger] after[j]).1 by {
                let bi = if i < at { i } else { i - 1 };
                let bj = if j < at { j } else { j - 1 };
                if i == at {
                    assert(after[j] == before[bj]);
                    assert(before[bj].1 < last.1);
                } else if j == at {
                    assert(after[i] == before[bi]);
                    assert(before[bi].1 >= last.1);
                } else {
                    assert(after[i] == before[bi]);
                    assert(after[j] == before[bj]);
                    assert(before[bi].1 >= before[bj].1);
                }
            }
        }
    }
    assert forall|x: (Seq<char>, nat)| ranked(entries).contains(x) <==> entries.contains(x) by {
        ranked(entries).to_multiset_ensures();
        entries.to_multiset_ensures();
        assert(ranked(entries).contains(x) <==> ranked(entries).to_multiset().count(x) > 0);
        assert(entries.contains(x) <==> entries.to_multiset().count(x) > 0);
    }
}

/// Ranking is stable. Where the entries stand in the order of `seen`, no
/// language twice, the ranking holds no language twice, and its entries with
/// the same count are still in the order of `seen`.
pub proof fn lemma_ranked_keeps_order(
    entries: Seq<(Seq<char>, nat)>,
    seen: spec_fn(Seq<char>) -> int,
)
    requires
        forall|i: int, j: int|
            0 <= i < j < entries.len() ==> seen((#[trigger] entries[i]).0) < seen(
                (#[trigger] entries[j]).0,
            ),
    ensures
        names_distinct(ranked(entries)),
        ties_in_order(ranked(entries), seen),
    decreases entries.len(),
{
    if entries.len() > 0 {
        let front = entries.drop_last();
        let last = entries.last();
        let before = ranked(front);
        let after = ranked(entries);
        let at = slot(before, last.1);
        assert forall|i: int, j: int| 0 <= i < j < front.len() implies seen(
            (#[trigger] front[i]).0,
        ) < seen((#[trigger] front[j]).0) by {
            assert(front[i] == entries[i]);
            assert(front[j] == entries[j]);
        }
        lemma_ranked_keeps_order(front, seen);
        lemma_ranked_sorts(front);
        lemma_slot(before, last.1);
        assert(after == before.insert(at, last));
        assert forall|i: int| 0 <= i < before.len() implies seen((#[trigger] before[i]).0) < seen(
            last.0,
        ) by {
            assert(before.contains(before[i]));
            assert(front.contains(before[i]));
            let m = choose|m: int| 0 <= m < front.len() && front[m] == before[i];
            assert(entries[m] == front[m]);
            assert(seen(entries[m].0) < seen(entries[entries.len() - 1].0));
        }
        assert(names_distinct(after)) by {
            assert forall|i: int, j: int| 0 <= i < j < after.len() implies (#[trigger] after[i]).0
                != (#[trigger] after[j]).0 by {
                let bi = if i < at { i } else { i - 1 };
                let bj = if j < at { j } else { j - 1 };
                if i == at {
                    assert(after[j] == before[bj]);
                    assert(seen(before[bj].0) < seen(last.0));
                } else if j == at {
                    assert(after[i] == before[bi]);
                    assert(seen(before[bi].0) < seen(last.0));
                } else {
                    assert(after[i] == before[bi]);
                    assert(after[j] == before[bj]);
                    assert(before[bi].0 != before[bj].0);
                }
            }
        }
        assert(ties_in_order(after, seen)) by {
            assert forall|i: int, j: int|
                0 <= i < j < after.len() && (#[trigger] after[i]).1 == (#[trigger] after[j]).1
                implies seen(after[i].0) < seen(after[j].0) by {
                let bi = if i < at { i } else { i - 1 };
                let bj = if j < at { j } else { j - 1 };
                if i == at {
                    assert(after[j] == before[bj]);
                    assert(before[bj].1 < last.1);
                } else if j == at {
                    assert(after[i] == before[bi]);
                    assert(seen(before[bi].0) < seen(last.0));
                } else {
                    assert(after[i] == before[bi]);
                    assert(after[j] == before[bj]);
                    assert(before[bi].1 == before[bj].1);
                }
            }
        }
    }
}

/// The ranked tallies of a sequence of pairs rank its totals.
pub proof fn lemma_ranked_tallies(pairs: Seq<(Seq<char>, u64)>)
    ensures
        is_ranking_of(ranked(tallied(pairs)), pairs),
{
    let tallies = tallied(pairs);
    let ranking = ranked(tallies);
    let seen = |name: Seq<char>| first_seen(pairs, name);
    lemma_tallied(pairs);
    assert forall|i: int, j: int| 0 <= i < j < tallies.len() implies seen(
        (#[trigger] tallies[i]).0,
    ) < seen((#[trigger] tallies[j]).0) by {}
    lemma_ranked_sorts(tallies);
    lemma_ranked_keeps_order(tallies, seen);
    assert forall|name: Seq<char>| mentions(pairs, name) <==> #[trigger] has_name(
        ranking,
        name,
    ) by {
        if mentions(pairs, name) {
            assert(has_name(tallies, name));
            let i = choose|i: int| 0 <= i < tallies.len() && (#[trigger] tallies[i]).0 == name;
            assert(tallies.contains(tallies[i]));
            assert(ranking.contains(tallies[i]));
            let m = choose|m: int| 0 <= m < ranking.len() && ranking[m] == tallies[i];
            assert(ranking[m].0 == name);
        }
        if has_name(ranking, name) {
            let m = choose|m: int| 0 <= m < ranking.len() && (#[trigger] ranking[m]).0 == name;
            assert(ranking.contains(ranking[m]));
            assert(tallies.contains(ranking[m]));
            let i = choose|i: int| 0 <= i < tallies.len() && tallies[i] == ranking[m];
            assert(mentions(pairs, tallies[i].0));
        }
    }
    assert forall|i: int| 0 <= i < ranking.len() implies (#[trigger] ranking[i]).1 == bytes_of(
        pairs,
        ranking[i].0,
    ) by {
        assert(ranking.contains(ranking[i]));
        assert(tallies.contains(ranking[i]));
        let m = choose|m: int| 0 <= m < tallies.len() && tallies[m] == ranking[i];
        assert(tallies[m].1 == bytes_of(pairs, tallies[m].0));
    }
}

/// True if `left` stands before `right` in any ranking of the totals of
/// `pairs`: its count is greater, or the counts are the same and its
/// language was seen first.
pub open spec fn stands_before(
    pairs: Seq<(Seq<char>, u64)>,
    left: (Seq<char>, nat),
    right: (Seq<char>, nat),
) -> bool {
    left.1 > right.1 || (left.1 == right.1 && first_seen(pairs, left.0) < first_seen(
        pairs,
        right.0,
    ))
}

proof fn lemma_same_entries_in_same_order(
    first: Seq<(Seq<char>, nat)>,
    second: Seq<(Seq<char>, nat)>,
    pairs: Seq<(Seq<char>, u64)>,
)
    requires
        forall|i: int, j: int|
            0 <= i < j < first.len() ==> stands_before(
                pairs,
                #[trigger] first[i],
                #[trigger] first[j],
            ),
        forall|i: int, j: int|
            0 <= i < j < second.len() ==> stands_before(
                pairs,
                #[trigger] second[i],
                #[trigger] second[j],
            ),
        forall|x: (Seq<char>, nat)| first.contains(x) <==> second.contains(x),
    ensures
        first == second,
    decreases first.len(),
{
    if first.len() == 0 {
        if second.len() > 0 {
            assert(second.contains(second[0]));
        }
        assert(first =~= second);
    } else {
        assert(first.contains(first[0]));
        let k = choose|k: int| 0 <= k < second.len() && second[k] == first[0];
        assert(second.contains(second[0]));
        let m = choose|m: int| 0 <= m < first.len() && first[m] == second[0];
        if k > 0 && m > 0 {
            assert(stands_before(pairs, second[0], second[k]));
            assert(stands_before(pairs, first[0], first[m]));
        }
        assert(first[0] == second[0]);
        let first_rest = first.drop_first();
        let second_rest = second.drop_first();
        assert forall|i: int, j: int| 0 <= i < j < first_rest.len() implies stands_before(
            pairs,
            #[trigger] first_rest[i],
            #[trigger] first_rest[j],
        ) by {
            assert(stands_before(pairs, first[i + 1], first[j + 1]));
        }
        assert forall|i: int, j: int| 0 <= i < j < second_rest.len() implies stands_before(
            pairs,
            #[trigger] second_rest[i],
            #[trigger] second_rest[j],
        ) by {
            assert(stands_before(pairs, second[i + 1], second[j + 1]));
        }
        assert forall|x: (Seq<char>, nat)| first_rest.contains(x) <==> second_rest.contains(
            x,
        ) by {
            if first_rest.contains(x) {
                let i = choose|i: int| 0 <= i < first_rest.len() && first_rest[i] == x;
                assert(first[i + 1] == x);
                assert(stands_before(pairs, first[0], first[i + 1]));
                assert(first.contains(x));
                let j = choose|j: int| 0 <= j < second.len() && second[j] == x;
                assert(second_rest[j - 1] == x);
            }
            if second_rest.contains(x) {
                let i = choose|i: int| 0 <= i < second_rest.len() && second_rest[i] == x;
                assert(second[i + 1] == x);
                assert(stands_before(pairs, second[0], second[i + 1]));
                assert(second.contains(x));
                let j = choose|j: int| 0 <= j < first.len() && first[j] == x;
                assert(first_rest[j - 1] == x);
            }
        }
        lemma_same_entries_in_same_order(first_rest, second_rest, pairs);
        assert(first =~= seq![first[0]] + first_rest);
        assert(second =~= seq![second[0]] + second_rest);
    }
}

/// The totals of given pairs have one ranking only: whatever ranks them, in
/// whatever way, arrives at the same sequence.
pub proof fn lemma_ranking_is_unique(
    first: Seq<(Seq<char>, nat)>,
    second: Seq<(Seq<char>, nat)>,
    pairs: Seq<(Seq<char>, u64)>,
)
    requires
        is_ranking_of(first, pairs),
        is_ranking_of(second, pairs),
    ensures
        first == second,
{
    assert forall|x: (Seq<char>, nat)| first.contains(x) <==> second.contains(x) by {
        if first.contains(x) {
            let i = choose|i: int| 0 <= i < first.len() && first[i] == x;
            assert(has_name(first, first[i].0));
            assert(has_name(second, x.0));
            let m = choose|m: int| 0 <= m < second.len() && (#[trigger] second[m]).0 == x.0;
            assert(second[m] == x);
        }
        if second.contains(x) {
            let i = choose|i: int| 0 <= i < second.len() && second[i] == x;
            assert(has_name(second, second[i].0));
            assert(has_name(first, x.0));
            let m = choose|m: int| 0 <= m < first.len() && (#[trigger] first[m]).0 == x.0;
            assert(first[m] == x);
        }
    }
    lemma_same_entries_in_same_order(first, second, pairs);
}

/// The pairs of the first maps are the first pairs of all maps.
pub proof fn lemma_pairs_of_first_maps(maps: Seq<Seq<(Seq<char>, u64)>>, count: int)
    requires
        0 <= count <= maps.len(),
    ensures
        pairs_in_order(maps.take(count)).is_prefix_of(pairs_in_order(maps)),
        count < maps.len() ==> pairs_in_order(maps.take(count + 1)) == pairs_in_order(
            maps.take(count),
        ) + maps[count],
    decreases maps.len(),
{
    if count == maps.len() {
        assert(maps.take(count) =~= maps);
    } else {
        let front = maps.drop_last();
        assert(maps.take(count) =~= front.take(count));
        lemma_pairs_of_first_maps(front, count);
        assert(maps.take(count + 1).drop_last() =~= maps.take(count));
        assert(maps.take(count + 1).last() == maps[count]);
    }
}

/// Pairs taken in so far never weigh more than all pairs.
pub proof fn lemma_bytes_of_first_pairs(
    first: Seq<(Seq<char>, u64)>,
    pairs: Seq<(Seq<char>, u64)>,
    name: Seq<char>,
)
    requires
        first.is_prefix_of(pairs),
    ensures
        bytes_of(first, name) <= bytes_of(pairs, name),
    decreases pairs.len(),
{
    if first.len() == pairs.len() {
        assert(first =~= pairs);
    } else {
        assert(first.is_prefix_of(pairs.drop_last()));
        lemma_bytes_of_first_pairs(first, pairs.drop_last(), name);
    }
}

/// Takes one pair into the tallies: adds `bytes` to the tally of `language`,
/// which is first made, at the end, where the language is new. Where the sum
/// would not fit the counter, nothing changes and the result is `false`.
pub fn add_bytes(tallies: &mut Vec<(String, u64)>, language: &String, bytes: u64) -> (fits: bool)
    requires
        names_distinct(counts(old(tallies).deep_view())),
    ensures
        fits <==> forall|i: int|
            0 <= i < old(tallies).len() && (#[trigger] old(tallies)[i]).0@ == language@
                ==> old(tallies)[i].1 + bytes <= u64::MAX,
        fits ==> counts(final(tallies).deep_view()) == tally(
            counts(old(tallies).deep_view()),
            language@,
            bytes as nat,
        ),
        !fits ==> *final(tallies) == *old(tallies),
{
    let ghost before = counts(tallies.deep_view());
    let mut index: usize = 0;
    while index < tallies.len()
        invariant
            index <= tallies.len(),
            *tallies == *old(tallies),
            before == counts(tallies.deep_view()),
            names_distinct(before),
            forall|i: int| 0 <= i < index ==> (#[trigger] tallies[i]).0@ != language@,
        decreases tallies.len() - index,
    {
        if tallies[index].0 == *language {
            let current: u64 = tallies[index].1;
            assert(before[index as int].0 == language@);
            assert(has_name(before, language@));
            if current > u64::MAX - bytes {
                return false;
            }
            tallies.set(index, (language.clone(), current + bytes));
            proof {
                assert forall|i: int|
                    0 <= i < old(tallies).len() && (#[trigger] old(tallies)[i]).0@
                        == language@ implies old(tallies)[i].1 + bytes <= u64::MAX by {
                    if i != index {
                        assert(before[i].0 == language@);
                        if i < index {
                            assert(before[i].0 != before[index as int].0);
                        } else {
                            assert(before[index as int].0 != before[i].0);
                        }
                    }
                }
                let after = counts(tallies.deep_view());
                let expected = tally(before, language@, bytes as nat);
                assert(after.len() == expected.len());
                assert forall|i: int| 0 <= i < after.len() implies after[i] == expected[i] by {
                    if i != index {
                        assert(tallies[i] == old(tallies)[i]);
                        if i < index {
                            assert(before[i].0 != before[index as int].0);
                        } else {
                            assert(before[index as int].0 != before[i].0);
                        }
                    }
                }
                assert(after =~= expected);
            }
            return true;
        }
        index = index + 1;
    }
    proof {
        assert(!has_name(before, language@)) by {
            if has_name(before, language@) {
                let i = choose|i: int| 0 <= i < before.len() && (#[trigger] before[i]).0 == language@;
                assert(tallies[i].0@ == language@);
            }
        }
    }
    tallies.push((language.clone(), bytes));
    proof {
        let after = counts(tallies.deep_view());
        let expected = before.push((language@, bytes as nat));
        assert(after.len() == expected.len());
        assert forall|i: int| 0 <= i < after.len() implies after[i] == expected[i] by {
            if i < old(tallies).len() {
                assert(tallies[i] == old(tallies)[i]);
            }
        }
        assert(after =~= expected);
    }
    true
}

/// Adds up the byte counts of all maps per language, the languages in the
/// order in which they are first met. There is no result where the total of
/// some language does not fit the counter.
pub fn tally_all(maps: &Vec<Vec<(String, u64)>>) -> (totals: Option<Vec<(String, u64)>>)
    ensures
        totals is Some <==> totals_fit(pairs_in_order(maps.deep_view())),
        totals is Some ==> counts(totals->0.deep_view()) == tallied(
            pairs_in_order(maps.deep_view()),
        ),
{
    let ghost model = maps.deep_view();
    let ghost all = pairs_in_order(model);
    let mut tallies: Vec<(String, u64)> = Vec::new();
    assert(counts(tallies.deep_view()) =~= tallied(pairs_in_order(model.take(0))));
    for m in 0..maps.len()
        invariant
            model == maps.deep_view(),
            all == pairs_in_order(model),
            counts(tallies.deep_view()) == tallied(pairs_in_order(model.take(m as int))),
    {
        let map = &maps[m];
        let ghost done = pairs_in_order(model.take(m as int));
        proof {
            assert(model[m as int] == map.deep_view());
            assert(done + model[m as int].take(0) =~= done);
            lemma_pairs_of_first_maps(model, m as int);
            lemma_pairs_of_first_maps(model, m as int + 1);
        }
        for k in 0..map.len()
            invariant
                model == maps.deep_view(),
                all == pairs_in_order(model),
                0 <= m < maps.len(),
                model[m as int] == map.deep_view(),
                done == pairs_in_order(model.take(m as int)),
                (done + model[m as int]).is_prefix_of(all),
                counts(tallies.deep_view()) == tallied(done + model[m as int].take(k as int)),
        {
            let pair = &map[k];
            let ghost taken = done + model[m as int].take(k as int);
            let ghost next = done + model[m as int].take(k as int + 1);
            let ghost name = pair.0@;
            proof {
                assert(model[m as int][k as int] == pair.deep_view());
                assert(next.drop_last() =~= taken);
                assert(next.last() == (name, pair.1));
                assert(next.is_prefix_of(all)) by {
                    assert(next =~= (done + model[m as int]).take(next.len() as int));
                    assert(next =~= all.take(next.len() as int));
                }
                lemma_tallied(taken);
                lemma_bytes_of_first_pairs(next, all, name);
            }
            let ghost before = counts(tallies.deep_view());
            let fits = add_bytes(&mut tallies, &pair.0, pair.1);
            if !fits {
                proof {
                    let i = choose|i: int|
                        0 <= i < tallies.len() && (#[trigger] tallies[i]).0@ == name && tallies[i].1
                            + pair.1 > u64::MAX;
                    assert(before[i].1 == bytes_of(taken, before[i].0));
                    assert(bytes_of(next, name) == bytes_of(taken, name) + pair.1);
                    assert(bytes_of(all, name) > u64::MAX);
                }
                return None;
            }
        }
        proof {
            assert(model[m as int].take(map.len() as int) =~= model[m as int]);
        }
    }
    proof {
        assert(model.take(maps.len() as int) =~= model);
        lemma_tallied(all);
        let held = counts(tallies.deep_view());
        assert forall|name: Seq<char>| #[trigger] bytes_of(all, name) <= u64::MAX by {
            if mentions(all, name) {
                assert(has_name(held, name));
                let i = choose|i: int| 0 <= i < held.len() && (#[trigger] held[i]).0 == name;
                assert(held[i].1 == bytes_of(all, held[i].0));
                assert(held[i].1 == tallies[i].1);
            } else {
                lemma_unmentioned_has_no_bytes(all, name);
            }
        }
    }
    Some(tallies)
}

/// Ranks entries by their counts, the greatest first. Entries of one count
/// keep the order they came in.
pub fn rank(entries: &Vec<(String, u64)>) -> (ranking: Vec<(String, u64)>)
    ensures
        counts(ranking.deep_view()) == ranked(counts(entries.deep_view())),
        counts(ranking.deep_view()).to_multiset() == counts(entries.deep_view()).to_multiset(),
        is_ranked(counts(ranking.deep_view())),
{
    let ghost model = counts(entries.deep_view());
    proof {
        lemma_ranked_sorts(model);
    }
    let mut ranking: Vec<(String, u64)> = Vec::new();
    assert(counts(ranking.deep_view()) =~= ranked(model.take(0)));
    for index in 0..entries.len()
        invariant
            model == counts(entries.deep_view()),
            counts(ranking.deep_view()) == ranked(model.take(index as int)),
    {
        let entry = &entries[index];
        let bytes: u64 = entry.1;
        let ghost before = counts(ranking.deep_view());
        let mut at: usize = ranking.len();
        assert(before.take(at as int) =~= before);
        while at > 0 && ranking[at - 1].1 < bytes
            invariant
                before == counts(ranking.deep_view()),
                at <= ranking.len(),
                slot(before, bytes as nat) == slot(before.take(at as int), bytes as nat),
            decreases at,
        {
            proof {
                assert(before.take(at as int).last() == before[at - 1]);
                assert(before.take(at as int).drop_last() =~= before.take(at - 1));
            }
            at = at - 1;
        }
        proof {
            if at > 0 {
                assert(before.take(at as int).last() == before[at - 1]);
                assert(before[at - 1].1 == ranking[at - 1].1);
            }
            assert(slot(before, bytes as nat) == at);
        }
        ranking.insert(at, (entry.0.clone(), bytes));
        proof {
            let after = counts(ranking.deep_view());
            let taken = model.take(index as int + 1);
            assert(taken.drop_last() =~= model.take(index as int));
            assert(taken.last() == (entry.0@, bytes as nat));
            let expected = before.insert(at as int, (entry.0@, bytes as nat));
            assert(after.len() == expected.len());
            assert forall|i: int| 0 <= i < after.len() implies after[i] == expected[i] by {
                if i < at {
                    assert(before[i] == expected[i]);
                } else if i > at {
                    assert(before[i - 1] == expected[i]);
                }
            }
            assert(after =~= expected);
        }
    }
    proof {
        assert(model.take(entries.len() as int) =~= model);
    }
    ranking
}

/// Aggregates the language byte counts of many repositories, one map each,
/// into one ranked distribution: one entry per language with the sum of its
/// bytes over all maps, the greatest total first, languages with the same
/// total in the order in which they are first met. There is no result where
/// the total of some language does not fit the counter.
pub fn try_aggregate(maps: &Vec<Vec<(String, u64)>>) -> (ranking: Option<Vec<(String, u64)>>)
    ensures
        ranking is Some <==> totals_fit(pairs_in_order(maps.deep_view())),
        ranking is Some ==> counts(ranking->0.deep_view()) == ranked(
            tallied(pairs_in_order(maps.deep_view())),
        ),
        ranking is Some ==> is_ranking_of(
            counts(ranking->0.deep_view()),
            pairs_in_order(maps.deep_view()),
        ),
{
    proof {
        lemma_ranked_tallies(pairs_in_order(maps.deep_view()));
    }
    match tally_all(maps) {
        Some(totals) => Some(rank(&totals)),
        None => None,
    }
}

/// Aggregates the language byte counts of many repositories, one map each,
/// into one ranked distribution: one entry per language with the sum of its
/// bytes over all maps, the greatest total first, languages with the same
/// total in the order in which they are first met.
pub fn aggregate(maps: &Vec<Vec<(String, u64)>>) -> (ranking: Vec<(String, u64)>)
    requires
        totals_fit(pairs_in_order(maps.deep_view())),
    ensures
        counts(ranking.deep_view()) == ranked(tallied(pairs_in_order(maps.deep_view()))),
        is_ranking_of(counts(ranking.deep_view()), pairs_in_order(maps.deep_view())),
{
    proof {
        lemma_ranked_tallies(pairs_in_order(maps.deep_view()));
    }
    let totals = tally_all(maps).unwrap();
    rank(&totals)
}

} // verus!
