//! Grouping a list of keys: which keys occur, how often, and where first.
//! Both histograms of a report are built on this.

use vstd::prelude::*;

verus! {

/// One key of a list, with how often it occurs and where it occurs first.
#[derive(Clone, Copy, Debug, PartialEq, Eq, Structural)]
pub struct Group {
    pub key: u64,
    /// How many entries of the list hold the key.
    pub amount: usize,
    /// The index of the first entry that holds the key.
    pub first: usize,
}

/// How many entries of `keys` are `key`.
pub open spec fn occurrences(keys: Seq<u64>, key: u64) -> nat
    decreases keys.len(),
{
    if keys.len() == 0 {
        0
    } else {
        occurrences(keys.drop_last(), key) + if keys.last() == key {
            1nat
        } else {
            0nat
        }
    }
}

/// `first` is the lowest index at which `keys` holds `key`.
pub open spec fn is_first(keys: Seq<u64>, key: u64, first: int) -> bool {
    &&& 0 <= first < keys.len()
    &&& keys[first] == key
    &&& forall|j: int| 0 <= j < first ==> keys[j] != key
}

/// Some group of `groups` is for `key`.
pub open spec fn has_group(groups: Seq<Group>, key: u64) -> bool {
    exists|g: int| 0 <= g < groups.len() && (#[trigger] groups[g]).key == key
}

/// The keys of `groups` rise strictly.
pub open spec fn ascending(groups: Seq<Group>) -> bool {
    forall|a: int, b: int|
        0 <= a < b < groups.len() ==> (#[trigger] groups[a]).key < (#[trigger] groups[b]).key
}

/// The amounts of `groups`, added up.
pub open spec fn amounts(groups: Seq<Group>) -> nat
    decreases groups.len(),
{
    if groups.len() == 0 {
        0
    } else {
        amounts(groups.drop_last()) + groups.last().amount as nat
    }
}

/// `groups` is the grouping of `keys`: one group for each key that occurs,
/// in rising order of the keys, each with the number of occurrences of its
/// key and the index of the first. Every entry of the list is counted in
/// exactly one group, so the amounts add up to the length of the list.
pub open spec fn is_grouping(groups: Seq<Group>, keys: Seq<u64>) -> bool {
    &&& ascending(groups)
    &&& amounts(groups) == keys.len()
    &&& forall|g: int|
        0 <= g < groups.len() ==> (#[trigger] groups[g]).amount == occurrences(keys, groups[g].key)
            && is_first(keys, groups[g].key, groups[g].first as int)
    &&& forall|i: int| 0 <= i < keys.len() ==> has_group(groups, #[trigger] keys[i])
}

/// The grouping of `keys`. A list has exactly one: [`group`] computes it,
/// and [`lemma_grouping_unique`] shows that there is no other.
pub open spec fn grouping(keys: Seq<u64>) -> Seq<Group> {
    choose|groups: Seq<Group>| is_grouping(groups, keys)
}

/// A key occurs as often as it has places in the list.
pub proof fn lemma_occurrences(keys: Seq<u64>, key: u64)
    ensures
        occurrences(keys, key) <= keys.len(),
        occurrences(keys, key) > 0 <==> exists|i: int| 0 <= i < keys.len() && keys[i] == key,
    decreases keys.len(),
{
    if keys.len() > 0 {
        let front = keys.drop_last();
        lemma_occurrences(front, key);
        if occurrences(keys, key) > 0 {
            if keys.last() == key {
                assert(keys[keys.len() - 1] == key);
            } else {
                let i = choose|i: int| 0 <= i < front.len() && front[i] == key;
                assert(keys[i] == key);
            }
        }
        if exists|i: int| 0 <= i < keys.len() && keys[i] == key {
            let i = choose|i: int| 0 <= i < keys.len() && keys[i] == key;
            if i < front.len() {
                assert(front[i] == key);
            }
        }
    }
}

/// One more entry adds one occurrence of its key and none of another.
pub proof fn lemma_occurrences_push(keys: Seq<u64>, entry: u64, key: u64)
    ensures
        occurrences(keys.push(entry), key) == occurrences(keys, key) + if entry == key {
            1nat
        } else {
            0nat
        },
{
    assert(keys.push(entry).drop_last() =~= keys);
}

/// The amounts of two lists of groups, one after the other, add up.
pub proof fn lemma_amounts_concat(front: Seq<Group>, back: Seq<Group>)
    ensures
        amounts(front + back) == amounts(front) + amounts(back),
    decreases back.len(),
{
    if back.len() == 0 {
        assert(front + back =~= front);
    } else {
        lemma_amounts_concat(front, back.drop_last());
        assert((front + back).drop_last() =~= front + back.drop_last());
        assert((front + back).last() == back.last());
    }
}

/// Replacing one group changes the sum of the amounts by what left and
/// what came.
pub proof fn lemma_amounts_update(groups: Seq<Group>, at: int, group: Group)
    requires
        0 <= at < groups.len(),
    ensures
        amounts(groups.update(at, group)) + groups[at].amount == amounts(groups) + group.amount,
    decreases groups.len(),
{
    let changed = groups.update(at, group);
    if at == groups.len() - 1 {
        assert(changed.drop_last() =~= groups.drop_last());
    } else {
        lemma_amounts_update(groups.drop_last(), at, group);
        assert(changed.drop_last() =~= groups.drop_last().update(at, group));
    }
}

/// Putting one more group in adds its amount to the sum.
pub proof fn lemma_amounts_insert(groups: Seq<Group>, at: int, group: Group)
    requires
        0 <= at <= groups.len(),
    ensures
        amounts(groups.insert(at, group)) == amounts(groups) + group.amount,
{
    let front = groups.subrange(0, at);
    let back = groups.subrange(at, groups.len() as int);
    assert(groups =~= front + back);
    lemma_amounts_concat(front, back);
    lemma_amounts_concat(front.push(group), back);
    assert(front.push(group).drop_last() =~= front);
}

/// A list has one grouping only.
pub proof fn lemma_grouping_unique(first: Seq<Group>, second: Seq<Group>, keys: Seq<u64>)
    requires
        is_grouping(first, keys),
        is_grouping(second, keys),
    ensures
        first == second,
    decreases first.len(),
{
    lemma_same_keys(first, second, keys);
    assert forall|g: int| 0 <= g < first.len() implies first[g] == second[g] by {
        let a = first[g];
        let b = second[g];
        assert(a.key == b.key);
        assert(is_first(keys, a.key, a.first as int));
        assert(is_first(keys, b.key, b.first as int));
        if a.first < b.first {
            assert(keys[a.first as int] != b.key);
        } else if b.first < a.first {
            assert(keys[b.first as int] != a.key);
        }
    }
    assert(first =~= second);
}

/// Two groupings of one list have the same keys at the same places.
proof fn lemma_same_keys(first: Seq<Group>, second: Seq<Group>, keys: Seq<u64>)
    requires
        is_grouping(first, keys),
        is_grouping(second, keys),
    ensures
        first.len() == second.len(),
        forall|g: int| 0 <= g < first.len() ==> (#[trigger] first[g]).key == second[g].key,
{
    assert forall|g: int| 0 <= g < first.len() implies has_group(second, (#[trigger] first[g]).key) by {
        assert(is_first(keys, first[g].key, first[g].first as int));
        assert(has_group(second, keys[first[g].first as int]));
    }
    assert forall|g: int| 0 <= g < second.len() implies has_group(first, (#[trigger] second[g]).key) by {
        assert(is_first(keys, second[g].key, second[g].first as int));
        assert(has_group(first, keys[second[g].first as int]));
    }
    lemma_ascending_same_keys(first, second);
}

/// Two lists of groups with strictly rising keys, each holding every key of
/// the other, hold the same keys at the same places.
proof fn lemma_ascending_same_keys(first: Seq<Group>, second: Seq<Group>)
    requires
        ascending(first),
        ascending(second),
        forall|g: int| 0 <= g < first.len() ==> has_group(second, (#[trigger] first[g]).key),
        forall|g: int| 0 <= g < second.len() ==> has_group(first, (#[trigger] second[g]).key),
    ensures
        first.len() == second.len(),
        forall|g: int| 0 <= g < first.len() ==> (#[trigger] first[g]).key == second[g].key,
    decreases first.len(),
{
    if first.len() == 0 {
        if second.len() > 0 {
            assert(has_group(first, second[0].key));
        }
    } else {
        let top = first.last();
        assert(has_group(second, first[first.len() - 1].key));
        let at = choose|g: int| 0 <= g < second.len() && (#[trigger] second[g]).key == top.key;
        assert(has_group(first, second[second.len() - 1].key));
        let back = choose|g: int|
            0 <= g < first.len() && (#[trigger] first[g]).key == second.last().key;
        // The highest key of each list is a key of the other, so they are one key.
        assert(second.last().key <= top.key) by {
            if back < first.len() - 1 {
                assert(first[back].key < first[first.len() - 1].key);
            }
        }
        assert(top.key <= second.last().key) by {
            if at < second.len() - 1 {
                assert(second[at].key < second[second.len() - 1].key);
            }
        }
        let first_rest = first.drop_last();
        let second_rest = second.drop_last();
        assert forall|g: int| 0 <= g < first_rest.len() implies has_group(
            second_rest,
            (#[trigger] first_rest[g]).key,
        ) by {
            assert(first_rest[g] == first[g]);
            assert(has_group(second, first[g].key));
            let h = choose|h: int| 0 <= h < second.len() && (#[trigger] second[h]).key == first[g].key;
            assert(first[g].key < first[first.len() - 1].key);
            assert(h < second.len() - 1);
            assert(second_rest[h] == second[h]);
        }
        assert forall|g: int| 0 <= g < second_rest.len() implies has_group(
            first_rest,
            (#[trigger] second_rest[g]).key,
        ) by {
            assert(second_rest[g] == second[g]);
            assert(has_group(first, second[g].key));
            let h = choose|h: int| 0 <= h < first.len() && (#[trigger] first[h]).key == second[g].key;
            assert(second[g].key < second[second.len() - 1].key);
            assert(h < first.len() - 1);
            assert(first_rest[h] == first[h]);
        }
        assert(ascending(first_rest)) by {
            assert forall|a: int, b: int| 0 <= a < b < first_rest.len() implies (
            #[trigger] first_rest[a]).key < (#[trigger] first_rest[b]).key by {
                assert(first[a].key < first[b].key);
            }
        }
        assert(ascending(second_rest)) by {
            assert forall|a: int, b: int| 0 <= a < b < second_rest.len() implies (
            #[trigger] second_rest[a]).key < (#[trigger] second_rest[b]).key by {
                assert(second[a].key < second[b].key);
            }
        }
        lemma_ascending_same_keys(first_rest, second_rest);
        assert forall|g: int| 0 <= g < first.len() implies (#[trigger] first[g]).key
            == second[g].key by {
            if g < first.len() - 1 {
                assert(first_rest[g].key == second_rest[g].key);
            }
        }
    }
}

/// The groupings of two lists in which every key occurs as often have the
/// same keys with the same amounts, group by group. Where the keys first
/// occur is all they can differ in.
pub proof fn lemma_groupings_agree(
    first: Seq<Group>,
    first_keys: Seq<u64>,
    second: Seq<Group>,
    second_keys: Seq<u64>,
)
    requires
        is_grouping(first, first_keys),
        is_grouping(second, second_keys),
        forall|key: u64|
            #![trigger occurrences(first_keys, key)]
            #![trigger occurrences(second_keys, key)]
            occurrences(first_keys, key) == occurrences(second_keys, key),
    ensures
        first.len() == second.len(),
        forall|g: int|
            0 <= g < first.len() ==> (#[trigger] first[g]).key == second[g].key && first[g].amount
                == second[g].amount,
{
    assert forall|g: int| 0 <= g < first.len() implies has_group(
        second,
        (#[trigger] first[g]).key,
    ) by {
        let key = first[g].key;
        assert(is_first(first_keys, key, first[g].first as int));
        lemma_occurrences(first_keys, key);
        lemma_occurrences(second_keys, key);
        assert(occurrences(first_keys, key) == occurrences(second_keys, key));
        let i = choose|i: int| 0 <= i < second_keys.len() && second_keys[i] == key;
        assert(has_group(second, second_keys[i]));
    }
    assert forall|g: int| 0 <= g < second.len() implies has_group(
        first,
        (#[trigger] second[g]).key,
    ) by {
        let key = second[g].key;
        assert(is_first(second_keys, key, second[g].first as int));
        lemma_occurrences(first_keys, key);
        lemma_occurrences(second_keys, key);
        assert(occurrences(first_keys, key) == occurrences(second_keys, key));
        let i = choose|i: int| 0 <= i < first_keys.len() && first_keys[i] == key;
        assert(has_group(first, first_keys[i]));
    }
    lemma_ascending_same_keys(first, second);
    assert forall|g: int| 0 <= g < first.len() implies (#[trigger] first[g]).key == second[g].key
        && first[g].amount == second[g].amount by {
        assert(first[g].key == second[g].key);
        assert(first[g].amount == occurrences(first_keys, first[g].key));
        assert(second[g].amount == occurrences(second_keys, second[g].key));
        assert(occurrences(first_keys, first[g].key) == occurrences(second_keys, first[g].key));
    }
}

/// The position at which a group for `key` stands or would stand: that of
/// the first group whose key is not below `key`.
pub open spec fn position(groups: Seq<Group>, key: u64) -> int
    decreases groups.len(),
{
    if groups.len() == 0 {
        0
    } else if groups[0].key >= key {
        0
    } else {
        1 + position(groups.drop_first(), key)
    }
}

/// `at` is the position at which a group for `key` stands or would stand.
pub open spec fn is_position(groups: Seq<Group>, key: u64, at: int) -> bool {
    &&& 0 <= at <= groups.len()
    &&& forall|g: int| 0 <= g < at ==> (#[trigger] groups[g]).key < key
    &&& at < groups.len() ==> groups[at].key >= key
}

/// [`position`] is a position.
pub proof fn lemma_position(groups: Seq<Group>, key: u64)
    ensures
        is_position(groups, key, position(groups, key)),
    decreases groups.len(),
{
    if groups.len() > 0 && groups[0].key < key {
        let rest = groups.drop_first();
        lemma_position(rest, key);
        let at = position(groups, key);
        assert forall|g: int| 0 <= g < at implies (#[trigger] groups[g]).key < key by {
            if g > 0 {
                assert(rest[g - 1] == groups[g]);
            }
        }
        if at < groups.len() {
            assert(rest[at - 1] == groups[at]);
        }
    }
}

/// The groups after one more entry `key` at index `index` of the list: the
/// group of the key counts one more, or a new group of one is put in at
/// `at`, which is the position for the key.
pub open spec fn entered(groups: Seq<Group>, key: u64, index: nat, at: int) -> Seq<Group> {
    if at < groups.len() && groups[at].key == key {
        groups.update(
            at,
            Group { key, amount: (groups[at].amount + 1) as usize, first: groups[at].first },
        )
    } else {
        groups.insert(at, Group { key, amount: 1, first: index as usize })
    }
}

/// Entering one more key into the grouping of a list gives the grouping of
/// the list with that key at its end.
pub proof fn lemma_entered(before: Seq<Group>, seen: Seq<u64>, key: u64, at: int)
    requires
        is_grouping(before, seen),
        is_position(before, key, at),
        seen.len() < usize::MAX,
    ensures
        is_grouping(entered(before, key, seen.len(), at), seen.push(key)),
{
    let now = seen.push(key);
    let i = seen.len() as int;
    let groups = entered(before, key, seen.len(), at);
    assert forall|k: u64|
        occurrences(now, k) == occurrences(seen, k) + if key == k {
            1nat
        } else {
            0nat
        } by {
        lemma_occurrences_push(seen, key, k);
    }
    lemma_occurrences(seen, key);
    assert(forall|j: int| 0 <= j < i ==> now[j] == seen[j]);
    if at < before.len() && before[at].key == key {
        let found = before[at];
        lemma_amounts_update(
            before,
            at,
            Group { key, amount: (found.amount + 1) as usize, first: found.first },
        );
        assert forall|g: int| 0 <= g < groups.len() implies (#[trigger] groups[g]).amount
            == occurrences(now, groups[g].key) && is_first(
            now,
            groups[g].key,
            groups[g].first as int,
        ) by {
            assert(is_first(seen, before[g].key, before[g].first as int));
            if g != at {
                assert(before[g].key != key) by {
                    if g < at {
                        assert(before[g].key < before[at].key);
                    } else {
                        assert(before[at].key < before[g].key);
                    }
                }
            }
        }
        assert forall|j: int| 0 <= j < now.len() implies has_group(groups, #[trigger] now[j]) by {
            if j < i {
                assert(has_group(before, seen[j]));
                let g = choose|g: int| 0 <= g < before.len() && (#[trigger] before[g]).key == seen[j];
                assert(groups[g].key == now[j]);
            } else {
                assert(groups[at].key == now[j]);
            }
        }
        assert(ascending(groups)) by {
            assert forall|a: int, b: int| 0 <= a < b < groups.len() implies (#[trigger] groups[a]).key
                < (#[trigger] groups[b]).key by {
                assert(before[a].key < before[b].key);
            }
        }
    } else {
        before.insert_ensures(at, Group { key, amount: 1, first: i as usize });
        lemma_amounts_insert(before, at, Group { key, amount: 1, first: i as usize });
        // No group was for `key`, so `key` did not occur before.
        assert(!has_group(before, key)) by {
            if has_group(before, key) {
                let g = choose|g: int| 0 <= g < before.len() && (#[trigger] before[g]).key == key;
                if g < at {
                } else if g > at {
                    assert(before[at].key < before[g].key);
                }
            }
        }
        assert(occurrences(seen, key) == 0) by {
            if occurrences(seen, key) > 0 {
                let j = choose|j: int| 0 <= j < seen.len() && seen[j] == key;
                assert(has_group(before, seen[j]));
            }
        }
        assert forall|g: int| 0 <= g < groups.len() implies (#[trigger] groups[g]).amount
            == occurrences(now, groups[g].key) && is_first(
            now,
            groups[g].key,
            groups[g].first as int,
        ) by {
            if g < at {
                assert(groups[g] == before[g]);
                assert(is_first(seen, before[g].key, before[g].first as int));
            } else if g > at {
                assert(groups[g] == before[g - 1]);
                assert(is_first(seen, before[g - 1].key, before[g - 1].first as int));
                assert(before[g - 1].key != key) by {
                    if g - 1 > at {
                        assert(before[at].key < before[g - 1].key);
                    }
                }
            } else {
                assert forall|j: int| 0 <= j < i implies now[j] != key by {
                    assert(has_group(before, seen[j]));
                }
            }
        }
        assert forall|j: int| 0 <= j < now.len() implies has_group(groups, #[trigger] now[j]) by {
            if j < i {
                assert(has_group(before, seen[j]));
                let g = choose|g: int| 0 <= g < before.len() && (#[trigger] before[g]).key == seen[j];
                if g < at {
                    assert(groups[g].key == now[j]);
                } else {
                    assert(groups[g + 1] == before[g]);
                    assert(groups[g + 1].key == now[j]);
                }
            } else {
                assert(groups[at].key == now[j]);
            }
        }
        assert(ascending(groups)) by {
            assert forall|a: int, b: int| 0 <= a < b < groups.len() implies (#[trigger] groups[a]).key
                < (#[trigger] groups[b]).key by {
                let old_a = if a < at {
                    a
                } else {
                    a - 1
                };
                let old_b = if b < at {
                    b
                } else {
                    b - 1
                };
                if a != at && b != at {
                    assert(groups[a] == before[old_a]);
                    assert(groups[b] == before[old_b]);
                    assert(before[old_a].key < before[old_b].key);
                } else if a == at {
                    assert(groups[b] == before[b - 1]);
                    if b - 1 > at {
                        assert(before[at].key < before[b - 1].key);
                    }
                } else {
                    assert(groups[a] == before[a]);
                }
            }
        }
    }
}

/// Every list has a grouping, and [`grouping`] is it.
pub proof fn lemma_grouping_exists(keys: Seq<u64>)
    requires
        keys.len() <= usize::MAX,
    ensures
        is_grouping(grouping(keys), keys),
    decreases keys.len(),
{
    if keys.len() == 0 {
        assert(is_grouping(Seq::<Group>::empty(), keys));
    } else {
        let seen = keys.drop_last();
        let key = keys.last();
        lemma_grouping_exists(seen);
        let before = grouping(seen);
        lemma_position(before, key);
        lemma_entered(before, seen, key, position(before, key));
        assert(seen.push(key) =~= keys);
        assert(is_grouping(entered(before, key, seen.len(), position(before, key)), keys));
    }
}

/// Groups `keys`: see [`is_grouping`].
pub fn group(keys: &Vec<u64>) -> (groups: Vec<Group>)
    ensures
        is_grouping(groups@, keys@),
        groups@ == grouping(keys@),
{
    let mut groups: Vec<Group> = Vec::new();
    let mut i: usize = 0;
    assert(keys@.take(0) =~= Seq::<u64>::empty());
    while i < keys.len()
        invariant
            i <= keys.len(),
            is_grouping(groups@, keys@.take(i as int)),
        decreases keys.len() - i,
    {
        let key = keys[i];
        let ghost seen = keys@.take(i as int);
        let ghost before = groups@;
        let mut at: usize = 0;
        while at < groups.len() && groups[at].key < key
            invariant
                at <= groups.len(),
                groups@ == before,
                forall|g: int| 0 <= g < at ==> (#[trigger] groups[g]).key < key,
            decreases groups.len() - at,
        {
            at += 1;
        }
        proof {
            assert(keys@.take(i + 1) =~= seen.push(key));
            lemma_entered(before, seen, key, at as int);
            lemma_occurrences(seen, key);
        }
        if at < groups.len() && groups[at].key == key {
            let found = groups[at];
            groups.set(at, Group { key, amount: found.amount + 1, first: found.first });
        } else {
            groups.insert(at, Group { key, amount: 1, first: i });
        }
        assert(groups@ == entered(before, key, seen.len(), at as int));
        i += 1;
    }
    assert(keys@.take(keys.len() as int) =~= keys@);
    proof {
        lemma_grouping_unique(groups@, grouping(keys@), keys@);
    }
    groups
}

} // verus!
