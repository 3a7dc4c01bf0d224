//! The holdings of a portfolio as specifications see them: a list of names,
//! each with its weight in billionths, in which no name stands twice.

use vstd::prelude::*;

verus! {

/// The names of a list of names and weights, in order.
pub open spec fn names(list: Seq<(Seq<char>, nat)>) -> Seq<Seq<char>> {
    Seq::new(list.len(), |i: int| list[i].0)
}

/// The sum of the weights of a list of names and weights.
pub open spec fn weight_sum(list: Seq<(Seq<char>, nat)>) -> nat
    decreases list.len(),
{
    if list.len() == 0 {
        0
    } else {
        weight_sum(list.drop_last()) + list.last().1
    }
}

/// The weight that the list gives to `name`: the sum of the weights that
/// stand with that name.
pub open spec fn weight_of(list: Seq<(Seq<char>, nat)>, name: Seq<char>) -> nat
    decreases list.len(),
{
    if list.len() == 0 {
        0
    } else if list.last().0 == name {
        weight_of(list.drop_last(), name) + list.last().1
    } else {
        weight_of(list.drop_last(), name)
    }
}

/// Whether `name` stands in the list.
pub open spec fn holds(list: Seq<(Seq<char>, nat)>, name: Seq<char>) -> bool {
    exists|i: int| 0 <= i < list.len() && #[trigger] list[i].0 == name
}

/// A place at which `name` stands in the list, where it stands in it.
pub open spec fn place(list: Seq<(Seq<char>, nat)>, name: Seq<char>) -> int {
    choose|i: int| 0 <= i < list.len() && #[trigger] list[i].0 == name
}

/// No name stands twice in the list.
pub open spec fn distinct(list: Seq<(Seq<char>, nat)>) -> bool {
    forall|i: int, j: int|
        0 <= i < j < list.len() ==> #[trigger] list[i].0 != #[trigger] list[j].0
}

/// The holdings with the weight `weight` more for `name`: added to the
/// weight that the name has, in its place, where the holdings have the name
/// already, and as a holding of its own at the end where they do not.
pub open spec fn put(holdings: Seq<(Seq<char>, nat)>, name: Seq<char>, weight: nat) -> Seq<
    (Seq<char>, nat),
> {
    if holds(holdings, name) {
        let at = place(holdings, name);
        holdings.update(at, (name, holdings[at].1 + weight))
    } else {
        holdings.push((name, weight))
    }
}

/// The holdings that a list of entries comes to when they are put one after
/// the other: each name once, in the order of first mention, with the sum of
/// the weights that it was entered with.
pub open spec fn assembled(entries: Seq<(Seq<char>, nat)>) -> Seq<(Seq<char>, nat)>
    decreases entries.len(),
{
    if entries.len() == 0 {
        Seq::empty()
    } else {
        put(assembled(entries.drop_last()), entries.last().0, entries.last().1)
    }
}

/// The weight of a list with one more entry at its end.
pub proof fn lemma_weight_sum_push(list: Seq<(Seq<char>, nat)>, entry: (Seq<char>, nat))
    ensures
        weight_sum(list.push(entry)) == weight_sum(list) + entry.1,
{
    assert(list.push(entry).drop_last() =~= list);
}

/// The weight of a list with another entry in one of its places.
pub proof fn lemma_weight_sum_update(list: Seq<(Seq<char>, nat)>, i: int, entry: (Seq<char>, nat))
    requires
        0 <= i < list.len(),
    ensures
        weight_sum(list.update(i, entry)) == weight_sum(list) - list[i].1 + entry.1,
        list[i].1 <= weight_sum(list),
    decreases list.len(),
{
    if i == list.len() - 1 {
        assert(list.update(i, entry).drop_last() =~= list.drop_last());
    } else {
        assert(list.update(i, entry).drop_last() =~= list.drop_last().update(i, entry));
        lemma_weight_sum_update(list.drop_last(), i, entry);
    }
}

/// The weight of the first entries of a list: no more than that of the whole
/// list, and growing by each entry's weight.
pub proof fn lemma_weight_sum_bounds(list: Seq<(Seq<char>, nat)>, i: int)
    requires
        0 <= i <= list.len(),
    ensures
        weight_sum(list.take(i)) <= weight_sum(list),
        i < list.len() ==> weight_sum(list.take(i + 1)) == weight_sum(list.take(i)) + list[i].1,
    decreases list.len(),
{
    if list.len() == 0 {
        assert(list.take(i) =~= list);
    } else {
        if i == list.len() {
            assert(list.take(i) =~= list);
        } else {
            assert(list.take(i) =~= list.drop_last().take(i));
            lemma_weight_sum_bounds(list.drop_last(), i);
            assert(list.take(i + 1).drop_last() =~= list.take(i));
        }
    }
}

/// The weight that a list with one more entry at its end gives to a name.
proof fn lemma_weight_of_push(
    list: Seq<(Seq<char>, nat)>,
    entry: (Seq<char>, nat),
    name: Seq<char>,
)
    ensures
        weight_of(list.push(entry), name) == weight_of(list, name) + if entry.0 == name {
            entry.1
        } else {
            0
        },
{
    assert(list.push(entry).drop_last() =~= list);
}

/// The weight that a list gives to a name when the weight in one of its
/// places grows.
proof fn lemma_weight_of_update(
    list: Seq<(Seq<char>, nat)>,
    i: int,
    more: nat,
    name: Seq<char>,
)
    requires
        0 <= i < list.len(),
    ensures
        weight_of(list.update(i, (list[i].0, list[i].1 + more)), name) == weight_of(list, name)
            + if list[i].0 == name {
            more
        } else {
            0
        },
    decreases list.len(),
{
    let grown = list.update(i, (list[i].0, list[i].1 + more));
    if i == list.len() - 1 {
        assert(grown.drop_last() =~= list.drop_last());
    } else {
        assert(grown.drop_last() =~= list.drop_last().update(i, (list[i].0, list[i].1 + more)));
        lemma_weight_of_update(list.drop_last(), i, more, name);
    }
}

/// What putting a name does to holdings in which no name stands twice.
pub proof fn lemma_put(holdings: Seq<(Seq<char>, nat)>, name: Seq<char>, weight: nat)
    requires
        distinct(holdings),
    ensures
        distinct(put(holdings, name, weight)),
        holds(put(holdings, name, weight), name),
        forall|other: Seq<char>|
            holds(put(holdings, name, weight), other) <==> (holds(holdings, other) || other
                == name),
        weight_sum(put(holdings, name, weight)) == weight_sum(holdings) + weight,
        forall|other: Seq<char>|
            weight_of(put(holdings, name, weight), other) == weight_of(holdings, other) + if other
                == name {
                weight
            } else {
                0
            },
{
    let after = put(holdings, name, weight);
    if holds(holdings, name) {
        let at = place(holdings, name);
        lemma_weight_sum_update(holdings, at, (name, holdings[at].1 + weight));
        assert forall|i: int, j: int| 0 <= i < j < after.len() implies after[i].0 != after[j].0 by {
            assert(after[i].0 == holdings[i].0);
            assert(after[j].0 == holdings[j].0);
        }
        assert(after[at].0 == name);
        assert forall|other: Seq<char>| holds(after, other) <==> (holds(holdings, other) || other
            == name) by {
            if holds(after, other) {
                let i = choose|i: int| 0 <= i < after.len() && #[trigger] after[i].0 == other;
                assert(holdings[i].0 == other);
            }
            if holds(holdings, other) {
                let i = choose|i: int| 0 <= i < holdings.len() && #[trigger] holdings[i].0 == other;
                assert(after[i].0 == other);
            }
        }
        assert forall|other: Seq<char>|
            weight_of(after, other) == weight_of(holdings, other) + if other == name {
                weight
            } else {
                0
            } by {
            lemma_weight_of_update(holdings, at, weight, other);
        }
    } else {
        lemma_weight_sum_push(holdings, (name, weight));
        assert forall|i: int, j: int| 0 <= i < j < after.len() implies after[i].0 != after[j].0 by {
            if j == holdings.len() {
                assert(holdings[i].0 != name);
            } else {
                assert(after[i].0 == holdings[i].0);
                assert(after[j].0 == holdings[j].0);
            }
        }
        assert(after[holdings.len() as int].0 == name);
        assert forall|other: Seq<char>| holds(after, other) <==> (holds(holdings, other) || other
            == name) by {
            if holds(after, other) {
                let i = choose|i: int| 0 <= i < after.len() && #[trigger] after[i].0 == other;
                if i < holdings.len() {
                    assert(holdings[i].0 == other);
                }
            }
            if holds(holdings, other) {
                let i = choose|i: int| 0 <= i < holdings.len() && #[trigger] holdings[i].0 == other;
                assert(after[i].0 == other);
            }
        }
        assert forall|other: Seq<char>|
            weight_of(after, other) == weight_of(holdings, other) + if other == name {
                weight
            } else {
                0
            } by {
            lemma_weight_of_push(holdings, (name, weight), other);
        }
    }
}

/// What a list of entries is assembled to: holdings without a name twice,
/// with the names of the entries and no others, and of the same weight.
pub proof fn lemma_assembled(entries: Seq<(Seq<char>, nat)>)
    ensures
        distinct(assembled(entries)),
        forall|name: Seq<char>| holds(assembled(entries), name) <==> holds(entries, name),
        weight_sum(assembled(entries)) == weight_sum(entries),
    decreases entries.len(),
{
    if entries.len() > 0 {
        let before = entries.drop_last();
        let last = entries.last();
        lemma_assembled(before);
        lemma_put(assembled(before), last.0, last.1);
        assert forall|name: Seq<char>| holds(assembled(entries), name) <==> holds(
            entries,
            name,
        ) by {
            if holds(entries, name) {
                let i = choose|i: int| 0 <= i < entries.len() && #[trigger] entries[i].0 == name;
                if i < before.len() {
                    assert(before[i].0 == name);
                }
            }
            if holds(before, name) {
                let i = choose|i: int| 0 <= i < before.len() && #[trigger] before[i].0 == name;
                assert(entries[i].0 == name);
            }
            assert(entries[entries.len() - 1].0 == last.0);
        }
    }
}

/// The weights of the holdings come to what the weights of the entries come
/// to, whether or not a name was entered more than once.
pub proof fn law_holdings_weigh_what_was_entered(entries: Seq<(Seq<char>, nat)>)
    ensures
        weight_sum(assembled(entries)) == weight_sum(entries),
{
    lemma_assembled(entries);
}

/// A name is held with the sum of the weights that it was entered with.
pub proof fn law_a_name_is_held_with_the_sum_of_its_weights(
    entries: Seq<(Seq<char>, nat)>,
    name: Seq<char>,
)
    ensures
        weight_of(assembled(entries), name) == weight_of(entries, name),
    decreases entries.len(),
{
    if entries.len() > 0 {
        let before = entries.drop_last();
        let last = entries.last();
        law_a_name_is_held_with_the_sum_of_its_weights(before, name);
        lemma_assembled(before);
        lemma_put(assembled(before), last.0, last.1);
    }
}

/// Among holdings in which no name stands twice, the weight given to a name
/// is the weight of the one holding of that name.
pub proof fn law_the_weight_of_a_name_is_that_of_its_holding(
    holdings: Seq<(Seq<char>, nat)>,
    i: int,
)
    requires
        distinct(holdings),
        0 <= i < holdings.len(),
    ensures
        weight_of(holdings, holdings[i].0) == holdings[i].1,
    decreases holdings.len(),
{
    let before = holdings.drop_last();
    let name = holdings[i].0;
    assert(distinct(before)) by {
        assert forall|a: int, b: int| 0 <= a < b < before.len() implies before[a].0
            != before[b].0 by {
            assert(holdings[a].0 != holdings[b].0);
        }
    }
    if i == holdings.len() - 1 {
        assert forall|k: int| 0 <= k < before.len() implies (#[trigger] before[k]).0 != name by {
            assert(holdings[k].0 != holdings[i].0);
        }
        lemma_weight_of_absent(before, name);
    } else {
        assert(holdings[i].0 != holdings[holdings.len() - 1].0);
        assert(before[i] == holdings[i]);
        law_the_weight_of_a_name_is_that_of_its_holding(before, i);
    }
}

/// A list gives no weight to a name that does not stand in it.
proof fn lemma_weight_of_absent(list: Seq<(Seq<char>, nat)>, name: Seq<char>)
    requires
        forall|k: int| 0 <= k < list.len() ==> (#[trigger] list[k]).0 != name,
    ensures
        weight_of(list, name) == 0,
    decreases list.len(),
{
    if list.len() > 0 {
        assert(list[list.len() - 1].0 != name);
        let before = list.drop_last();
        assert forall|k: int| 0 <= k < before.len() implies (#[trigger] before[k]).0 != name by {
            assert(list[k].0 != name);
        }
        lemma_weight_of_absent(list.drop_last(), name);
    }
}

/// Entries in which no name stands twice are held as they were entered.
pub proof fn law_distinct_entries_are_held_as_entered(entries: Seq<(Seq<char>, nat)>)
    requires
        distinct(entries),
    ensures
        assembled(entries) == entries,
    decreases entries.len(),
{
    if entries.len() > 0 {
        let before = entries.drop_last();
        let last = entries.last();
        assert(distinct(before)) by {
            assert forall|i: int, j: int| 0 <= i < j < before.len() implies before[i].0
                != before[j].0 by {
                assert(entries[i].0 != entries[j].0);
            }
        }
        law_distinct_entries_are_held_as_entered(before);
        if holds(before, last.0) {
            let at = place(before, last.0);
            assert(entries[at].0 != entries[entries.len() - 1].0);
        }
        assert(before.push(last) =~= entries);
    } else {
        assert(assembled(entries) =~= entries);
    }
}

/// The holdings assembled of a list of entries are as many as the entries
/// have names that differ.
pub proof fn law_one_holding_for_each_name(entries: Seq<(Seq<char>, nat)>)
    ensures
        distinct(assembled(entries)),
        names(assembled(entries)).to_set() == names(entries).to_set(),
        assembled(entries).len() == names(entries).to_set().len(),
{
    let holdings = assembled(entries);
    lemma_assembled(entries);
    assert forall|name: Seq<char>| names(holdings).contains(name) <==> holds(holdings, name) by {
        if names(holdings).contains(name) {
            let i = choose|i: int| 0 <= i < names(holdings).len() && names(holdings)[i] == name;
            assert(holdings[i].0 == name);
        }
        if holds(holdings, name) {
            let i = choose|i: int| 0 <= i < holdings.len() && #[trigger] holdings[i].0 == name;
            assert(names(holdings)[i] == name);
        }
    }
    assert forall|name: Seq<char>| names(entries).contains(name) <==> holds(entries, name) by {
        if names(entries).contains(name) {
            let i = choose|i: int| 0 <= i < names(entries).len() && names(entries)[i] == name;
            assert(entries[i].0 == name);
        }
        if holds(entries, name) {
            let i = choose|i: int| 0 <= i < entries.len() && #[trigger] entries[i].0 == name;
            assert(names(entries)[i] == name);
        }
    }
    assert forall|name: Seq<char>|
        names(holdings).to_set().contains(name) <==> names(entries).to_set().contains(name) by {
        assert(names(holdings).contains(name) <==> holds(holdings, name));
        assert(names(entries).contains(name) <==> holds(entries, name));
    }
    assert(names(holdings).to_set() =~= names(entries).to_set());
    assert(names(holdings).no_duplicates()) by {
        let listed = names(holdings);
        assert forall|i: int, j: int|
            0 <= i < listed.len() && 0 <= j < listed.len() && i != j implies listed[i]
            != listed[j] by {
            if i < j {
                assert(holdings[i].0 != holdings[j].0);
            } else {
                assert(holdings[j].0 != holdings[i].0);
            }
        }
    }
    names(holdings).unique_seq_to_set();
}

} // verus!
