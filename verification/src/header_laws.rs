use vstd::prelude::*;
use crate::headers::{
    appended, canonical, distinct_names, entries_of, group_entries, held, index_of, is_header_name,
    is_header_value, lemma_held_padded, lemma_index_of, padded, replaced, spelling,
};

verus! {

/// The entries that an iteration hands out for the values held under
/// `name`, in order.
pub open spec fn entries_under(
    values: Seq<(Seq<u8>, Seq<Seq<u8>>)>,
    casings: Seq<(Seq<u8>, Seq<Seq<u8>>)>,
    name: Seq<u8>,
) -> Seq<(Seq<u8>, Seq<u8>)> {
    Seq::new(held(values, name).len(), |k: int| (spelling(casings, name, k), held(values, name)[k]))
}

/// The groups after each of `items` has been added under `name`, in order.
pub open spec fn after_adds(groups: Seq<(Seq<u8>, Seq<Seq<u8>>)>, name: Seq<u8>, items: Seq<Seq<u8>>) -> Seq<
    (Seq<u8>, Seq<Seq<u8>>),
>
    decreases items.len(),
{
    if items.len() == 0 {
        groups
    } else {
        appended(after_adds(groups, name, items.drop_last()), name, items.last())
    }
}

/// The spellings after each of `names` has been recorded by an addition
/// under `key`, in order, beside the values `added`: before each record the
/// spellings are filled up to the number of values that the name has then.
pub open spec fn after_adds_spelled(
    values: Seq<(Seq<u8>, Seq<Seq<u8>>)>,
    casings: Seq<(Seq<u8>, Seq<Seq<u8>>)>,
    key: Seq<u8>,
    names: Seq<Seq<u8>>,
    added: Seq<Seq<u8>>,
) -> Seq<(Seq<u8>, Seq<Seq<u8>>)>
    decreases names.len(),
{
    if names.len() == 0 {
        casings
    } else {
        let earlier = after_adds_spelled(values, casings, key, names.drop_last(), added.drop_last());
        let valued = after_adds(values, key, added.drop_last());
        appended(padded(earlier, key, held(valued, key).len() as int), key, names.last())
    }
}

/// After a replacement a name holds the new value and nothing else.
pub proof fn lemma_held_replaced(groups: Seq<(Seq<u8>, Seq<Seq<u8>>)>, name: Seq<u8>, value: Seq<u8>)
    ensures
        held(replaced(groups, name, value), name) == seq![value],
        index_of(replaced(groups, name, value), name) == index_of(groups, name),
        replaced(groups, name, value).len() > index_of(groups, name),
{
    let after = replaced(groups, name, value);
    lemma_index_of(groups, name);
    lemma_index_of(after, name);
    let i = index_of(groups, name);
    let j = index_of(after, name);
    assert(after[i].0 == name);
    if j < i {
        assert(after[j].0 == groups[j].0);
    }
    if j > i {
        assert(after[i].0 != name);
    }
}

/// After an addition a name holds what it held, and the new value behind.
pub proof fn lemma_held_appended(groups: Seq<(Seq<u8>, Seq<Seq<u8>>)>, name: Seq<u8>, value: Seq<u8>)
    ensures
        held(appended(groups, name, value), name) == held(groups, name).push(value),
        index_of(appended(groups, name, value), name) == index_of(groups, name),
{
    let after = appended(groups, name, value);
    lemma_index_of(groups, name);
    lemma_index_of(after, name);
    let i = index_of(groups, name);
    let j = index_of(after, name);
    assert(after[i].0 == name);
    if j < i {
        assert(after[j].0 == groups[j].0);
    }
    if j > i {
        assert(after[i].0 != name);
    }
    assert(held(after, name) =~= held(groups, name).push(value));
}

/// After a run of additions a name holds what it held, and the new values
/// behind, in the order of the calls.
pub proof fn lemma_held_after_adds(groups: Seq<(Seq<u8>, Seq<Seq<u8>>)>, name: Seq<u8>, items: Seq<Seq<u8>>)
    ensures
        held(after_adds(groups, name, items), name) == held(groups, name) + items,
    decreases items.len(),
{
    if items.len() == 0 {
        assert(held(groups, name) + items =~= held(groups, name));
    } else {
        lemma_held_after_adds(groups, name, items.drop_last());
        lemma_held_appended(after_adds(groups, name, items.drop_last()), name, items.last());
        assert((held(groups, name) + items.drop_last()).push(items.last()) =~= held(groups, name) + items);
    }
}

/// In an iteration, the group of a name gives exactly the entries under
/// that name.
pub proof fn lemma_group_gives_entries_under(
    values: Seq<(Seq<u8>, Seq<Seq<u8>>)>,
    casings: Seq<(Seq<u8>, Seq<Seq<u8>>)>,
    name: Seq<u8>,
)
    requires
        index_of(values, name) < values.len(),
    ensures
        group_entries(casings, values[index_of(values, name)]) == entries_under(values, casings, name),
{
    lemma_index_of(values, name);
    assert(group_entries(casings, values[index_of(values, name)]) =~= entries_under(values, casings, name));
}

/// Setting a header leaves one entry under its name: the name exactly as
/// it was written, with the value exactly as it was given. Whatever the
/// name held before is gone, so setting it twice leaves one entry too, with
/// the second value.
pub proof fn law_set_leaves_one_entry(
    values: Seq<(Seq<u8>, Seq<Seq<u8>>)>,
    casings: Seq<(Seq<u8>, Seq<Seq<u8>>)>,
    name: Seq<u8>,
    value: Seq<u8>,
)
    requires
        is_header_name(name),
        is_header_value(value),
    ensures
        entries_under(
            replaced(values, canonical(name), value),
            replaced(casings, canonical(name), name),
            canonical(name),
        ) == seq![(name, value)],
{
    let key = canonical(name);
    lemma_held_replaced(values, key, value);
    lemma_held_replaced(casings, key, name);
    assert(entries_under(replaced(values, key, value), replaced(casings, key, name), key) =~= seq![
        (name, value),
    ]);
}

/// After a run of additions a name holds the spellings it held, then its
/// own canonical spelling for each value that had none, then the names as
/// the calls wrote them, in the order of the calls.
pub proof fn lemma_held_after_adds_spelled(
    values: Seq<(Seq<u8>, Seq<Seq<u8>>)>,
    casings: Seq<(Seq<u8>, Seq<Seq<u8>>)>,
    key: Seq<u8>,
    names: Seq<Seq<u8>>,
    added: Seq<Seq<u8>>,
)
    requires
        names.len() == added.len(),
        held(casings, key).len() <= held(values, key).len(),
    ensures
        held(after_adds_spelled(values, casings, key, names, added), key) == if names.len() == 0 {
            held(casings, key)
        } else {
            held(casings, key) + Seq::new(
                (held(values, key).len() - held(casings, key).len()) as nat,
                |j: int| key,
            ) + names
        },
    decreases names.len(),
{
    if names.len() > 0 {
        let had = held(casings, key);
        let fill = Seq::new((held(values, key).len() - had.len()) as nat, |j: int| key);
        let earlier = after_adds_spelled(values, casings, key, names.drop_last(), added.drop_last());
        let valued = after_adds(values, key, added.drop_last());
        let count = held(valued, key).len() as int;
        lemma_held_after_adds_spelled(values, casings, key, names.drop_last(), added.drop_last());
        lemma_held_after_adds(values, key, added.drop_last());
        lemma_held_padded(earlier, key, count);
        lemma_held_appended(padded(earlier, key, count), key, names.last());
        assert(held(padded(earlier, key, count), key) =~= had + fill + names.drop_last());
        assert((had + fill + names.drop_last()).push(names.last()) =~= had + fill + names);
    }
}

/// Adding headers whose names differ only in the case of their letters
/// gives one entry for each call, in the order of the calls, each under the
/// name exactly as that call wrote it, behind the entries that the name had,
/// which stay as they were. This holds where the name had no more spellings
/// recorded than it had values, as in new headers and in headers that
/// arrived without spellings.
pub proof fn law_adds_keep_each_spelling(
    values: Seq<(Seq<u8>, Seq<Seq<u8>>)>,
    casings: Seq<(Seq<u8>, Seq<Seq<u8>>)>,
    key: Seq<u8>,
    names: Seq<Seq<u8>>,
    added: Seq<Seq<u8>>,
)
    requires
        names.len() == added.len(),
        forall|i: int| 0 <= i < names.len() ==> canonical(#[trigger] names[i]) == key,
        held(casings, key).len() <= held(values, key).len(),
    ensures
        entries_under(
            after_adds(values, key, added),
            after_adds_spelled(values, casings, key, names, added),
            key,
        ) == entries_under(values, casings, key) + Seq::new(names.len(), |i: int| (names[i], added[i])),
{
    lemma_held_after_adds(values, key, added);
    lemma_held_after_adds_spelled(values, casings, key, names, added);
    assert(entries_under(
        after_adds(values, key, added),
        after_adds_spelled(values, casings, key, names, added),
        key,
    ) =~= entries_under(values, casings, key) + Seq::new(names.len(), |i: int| (names[i], added[i])));
}

/// The entries of two runs of groups, one after the other, are the entries
/// of the first followed by the entries of the second.
pub proof fn lemma_entries_of_concat(
    first: Seq<(Seq<u8>, Seq<Seq<u8>>)>,
    second: Seq<(Seq<u8>, Seq<Seq<u8>>)>,
    casings: Seq<(Seq<u8>, Seq<Seq<u8>>)>,
)
    ensures
        entries_of(first + second, casings) == entries_of(first, casings) + entries_of(second, casings),
    decreases second.len(),
{
    if second.len() == 0 {
        assert(first + second =~= first);
        assert(entries_of(first, casings) + entries_of(second, casings) =~= entries_of(first, casings));
    } else {
        lemma_entries_of_concat(first, second.drop_last(), casings);
        assert((first + second).drop_last() =~= first + second.drop_last());
        assert((first + second).last() == second.last());
        assert(entries_of(first + second, casings) =~= entries_of(first, casings) + entries_of(
            second,
            casings,
        ));
    }
}

/// In a full iteration the entries under a name stand together, and the
/// groups before and after them hold other names.
pub proof fn law_entries_under_a_name_stand_together(
    values: Seq<(Seq<u8>, Seq<Seq<u8>>)>,
    casings: Seq<(Seq<u8>, Seq<Seq<u8>>)>,
    name: Seq<u8>,
)
    requires
        distinct_names(values),
        index_of(values, name) < values.len(),
    ensures
        ({
            let at = index_of(values, name);
            let before = values.take(at);
            let after = values.skip(at + 1);
            &&& entries_of(values, casings) == entries_of(before, casings) + entries_under(values, casings, name)
                + entries_of(after, casings)
            &&& forall|j: int| 0 <= j < before.len() ==> (#[trigger] before[j]).0 != name
            &&& forall|j: int| 0 <= j < after.len() ==> (#[trigger] after[j]).0 != name
        }),
{
    let at = index_of(values, name);
    lemma_index_of(values, name);
    let before = values.take(at);
    let after = values.skip(at + 1);
    let middle = seq![values[at]];
    assert((before + middle) + after =~= values);
    lemma_entries_of_concat(before + middle, after, casings);
    lemma_entries_of_concat(before, middle, casings);
    lemma_group_gives_entries_under(values, casings, name);
    assert(middle.drop_last() =~= Seq::empty());
    assert(entries_of(middle.drop_last(), casings) =~= Seq::empty());
    assert(entries_of(middle, casings) =~= entries_under(values, casings, name));
    assert forall|j: int| 0 <= j < before.len() implies (#[trigger] before[j]).0 != name by {
        assert(before[j] == values[j]);
    }
    assert forall|j: int| 0 <= j < after.len() implies (#[trigger] after[j]).0 != name by {
        assert(after[j] == values[at + 1 + j]);
    }
}

/// Setting and adding keep the names of the groups distinct.
pub proof fn lemma_distinct_names_kept(groups: Seq<(Seq<u8>, Seq<Seq<u8>>)>, name: Seq<u8>, value: Seq<u8>)
    requires
        distinct_names(groups),
    ensures
        distinct_names(replaced(groups, name, value)),
        distinct_names(appended(groups, name, value)),
{
    lemma_index_of(groups, name);
    let at = index_of(groups, name);
    let set = replaced(groups, name, value);
    let added = appended(groups, name, value);
    assert forall|i: int, j: int| 0 <= i < set.len() && 0 <= j < set.len() && i != j implies (#[trigger] set[i]).0
        != (#[trigger] set[j]).0 by {
        if at < groups.len() {
            assert(set[i].0 == groups[i].0 && set[j].0 == groups[j].0);
        } else {
            if i < groups.len() {
                assert(set[i] == groups[i]);
            }
            if j < groups.len() {
                assert(set[j] == groups[j]);
            }
        }
    }
    assert forall|i: int, j: int|
        0 <= i < added.len() && 0 <= j < added.len() && i != j implies (#[trigger] added[i]).0 != (
    #[trigger] added[j]).0 by {
        if at < groups.len() {
            assert(added[i].0 == groups[i].0 && added[j].0 == groups[j].0);
        } else {
            if i < groups.len() {
                assert(added[i] == groups[i]);
            }
            if j < groups.len() {
                assert(added[j] == groups[j]);
            }
        }
    }
}

/// A run of additions keeps the names of the groups distinct, and leaves a
/// group for the name where it added anything.
pub proof fn lemma_after_adds_keeps_names(groups: Seq<(Seq<u8>, Seq<Seq<u8>>)>, name: Seq<u8>, items: Seq<Seq<u8>>)
    requires
        distinct_names(groups),
    ensures
        distinct_names(after_adds(groups, name, items)),
        items.len() > 0 ==> index_of(after_adds(groups, name, items), name) < after_adds(groups, name, items).len(),
    decreases items.len(),
{
    if items.len() > 0 {
        let earlier = after_adds(groups, name, items.drop_last());
        lemma_after_adds_keeps_names(groups, name, items.drop_last());
        lemma_distinct_names_kept(earlier, name, items.last());
        lemma_held_appended(earlier, name, items.last());
        lemma_index_of(earlier, name);
    }
}

/// After a header is set, a full iteration hands out one entry for its
/// name, the name as written with the value as given, and every other entry
/// comes from the group of another name.
pub proof fn law_set_in_a_full_iteration(
    values: Seq<(Seq<u8>, Seq<Seq<u8>>)>,
    casings: Seq<(Seq<u8>, Seq<Seq<u8>>)>,
    name: Seq<u8>,
    value: Seq<u8>,
)
    requires
        is_header_name(name),
        is_header_value(value),
        distinct_names(values),
    ensures
        ({
            let key = canonical(name);
            let set = replaced(values, key, value);
            let spelled = replaced(casings, key, name);
            let at = index_of(set, key);
            let before = set.take(at);
            let after = set.skip(at + 1);
            &&& at < set.len()
            &&& entries_of(set, spelled) == entries_of(before, spelled) + seq![(name, value)] + entries_of(
                after,
                spelled,
            )
            &&& forall|j: int| 0 <= j < before.len() ==> (#[trigger] before[j]).0 != key
            &&& forall|j: int| 0 <= j < after.len() ==> (#[trigger] after[j]).0 != key
        }),
{
    let key = canonical(name);
    let set = replaced(values, key, value);
    let spelled = replaced(casings, key, name);
    lemma_held_replaced(values, key, value);
    lemma_distinct_names_kept(values, key, value);
    law_set_leaves_one_entry(values, casings, name, value);
    law_entries_under_a_name_stand_together(set, spelled, key);
}

/// After headers are added under one name in different spellings, to
/// headers that had none of that name, a full iteration hands out one entry
/// for each call, together and in the order of the calls, each under the
/// name as that call wrote it; every other entry comes from the group of
/// another name.
pub proof fn law_adds_in_a_full_iteration(
    values: Seq<(Seq<u8>, Seq<Seq<u8>>)>,
    casings: Seq<(Seq<u8>, Seq<Seq<u8>>)>,
    key: Seq<u8>,
    names: Seq<Seq<u8>>,
    added: Seq<Seq<u8>>,
)
    requires
        names.len() == added.len(),
        names.len() > 0,
        forall|i: int| 0 <= i < names.len() ==> canonical(#[trigger] names[i]) == key,
        held(values, key).len() == 0,
        held(casings, key).len() == 0,
        distinct_names(values),
    ensures
        ({
            let all = after_adds(values, key, added);
            let spelled = after_adds_spelled(values, casings, key, names, added);
            let at = index_of(all, key);
            let before = all.take(at);
            let after = all.skip(at + 1);
            &&& at < all.len()
            &&& entries_of(all, spelled) == entries_of(before, spelled) + Seq::new(
                names.len(),
                |i: int| (names[i], added[i]),
            ) + entries_of(after, spelled)
            &&& forall|j: int| 0 <= j < before.len() ==> (#[trigger] before[j]).0 != key
            &&& forall|j: int| 0 <= j < after.len() ==> (#[trigger] after[j]).0 != key
        }),
{
    let all = after_adds(values, key, added);
    let spelled = after_adds_spelled(values, casings, key, names, added);
    lemma_after_adds_keeps_names(values, key, added);
    law_adds_keep_each_spelling(values, casings, key, names, added);
    law_entries_under_a_name_stand_together(all, spelled, key);
    assert(entries_under(values, casings, key) =~= Seq::empty());
    assert(entries_under(all, spelled, key) =~= Seq::new(names.len(), |i: int| (names[i], added[i])));
}

} // verus!
