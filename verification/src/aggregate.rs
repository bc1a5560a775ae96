//! Merging the named metrics of many rounds into one value per name.
//!
//! The names of the result are the names that any round reported, in the
//! order in which they first appeared. Under each name stands the median of
//! the values that were reported under it; rounds that did not report the
//! name do not count.

use crate::data::{samples_of, AdditionalData, MeasuredRound, Sample};
use crate::index_map::{
    keys_of, lookup, map_entries, map_get, map_insert, map_keys, map_new, texts,
};
use crate::order::{median_of, middle, sort};
use indexmap::IndexMap;
use vstd::prelude::*;

verus! {

/// The metrics of each sample, in order.
pub open spec fn data_of(samples: Seq<Sample>) -> Seq<Seq<(Seq<char>, AdditionalData)>> {
    samples.map_values(|s: Sample| s.data)
}

/// `seen`, followed by those of `keys` that are neither in `seen` nor earlier
/// in `keys`.
pub open spec fn with_new_keys(seen: Seq<Seq<char>>, keys: Seq<Seq<char>>) -> Seq<Seq<char>>
    decreases keys.len(),
{
    if keys.len() == 0 {
        seen
    } else {
        let before = with_new_keys(seen, keys.drop_last());
        if before.contains(keys.last()) {
            before
        } else {
            before.push(keys.last())
        }
    }
}

/// The names that occur in `rounds`, each once, in the order of their first
/// occurrence.
pub open spec fn first_seen_keys(rounds: Seq<Seq<(Seq<char>, AdditionalData)>>) -> Seq<Seq<char>>
    decreases rounds.len(),
{
    if rounds.len() == 0 {
        Seq::empty()
    } else {
        with_new_keys(first_seen_keys(rounds.drop_last()), keys_of(rounds.last()))
    }
}

/// The values that `rounds` hold under `key`, in the order of the rounds.
/// A round without the key contributes nothing.
pub open spec fn values_under(
    rounds: Seq<Seq<(Seq<char>, AdditionalData)>>,
    key: Seq<char>,
) -> Seq<AdditionalData>
    decreases rounds.len(),
{
    if rounds.len() == 0 {
        Seq::empty()
    } else {
        let before = values_under(rounds.drop_last(), key);
        match lookup(rounds.last(), key) {
            Some(value) => before.push(value),
            None => before,
        }
    }
}

/// For each of `keys`, the key with the median of the values under it.
pub open spec fn medians_under(
    rounds: Seq<Seq<(Seq<char>, AdditionalData)>>,
    keys: Seq<Seq<char>>,
) -> Seq<(Seq<char>, AdditionalData)> {
    keys.map_values(|key: Seq<char>| (key, median_of(values_under(rounds, key))))
}

/// The aggregate of `rounds`: every name that occurs, in first-seen order,
/// with the median of the values reported under it.
pub open spec fn aggregated(rounds: Seq<Seq<(Seq<char>, AdditionalData)>>) -> Seq<
    (Seq<char>, AdditionalData),
> {
    medians_under(rounds, first_seen_keys(rounds))
}

/// Adding new keys keeps what was seen, adds nothing twice, and adds exactly
/// the keys given.
pub proof fn lemma_with_new_keys(seen: Seq<Seq<char>>, keys: Seq<Seq<char>>)
    requires
        seen.no_duplicates(),
    ensures
        with_new_keys(seen, keys).no_duplicates(),
        forall|k: Seq<char>|
            with_new_keys(seen, keys).contains(k) <==> seen.contains(k) || keys.contains(k),
        seen.is_prefix_of(with_new_keys(seen, keys)),
    decreases keys.len(),
{
    if keys.len() > 0 {
        let before = with_new_keys(seen, keys.drop_last());
        lemma_with_new_keys(seen, keys.drop_last());
        let after = with_new_keys(seen, keys);
        assert forall|k: Seq<char>| after.contains(k) <==> seen.contains(k) || keys.contains(
            k,
        ) by {
            if keys.contains(k) {
                let i = choose|i: int| 0 <= i < keys.len() && keys[i] == k;
                if i < keys.len() - 1 {
                    assert(keys.drop_last()[i] == k);
                    assert(keys.drop_last().contains(k));
                }
            }
            if keys.drop_last().contains(k) {
                let i = choose|i: int| 0 <= i < keys.drop_last().len() && keys.drop_last()[i] == k;
                assert(keys[i] == k);
            }
            if before.contains(k) {
                let i = choose|i: int| 0 <= i < before.len() && before[i] == k;
                assert(after[i] == k);
            }
            if after.contains(k) && !before.contains(k) {
                let i = choose|i: int| 0 <= i < after.len() && after[i] == k;
                assert(i == before.len());
                assert(keys[keys.len() - 1] == k);
            }
            if k == keys.last() {
                assert(keys[keys.len() - 1] == k);
                if !before.contains(k) {
                    assert(after[before.len() as int] == k);
                }
            }
        }
    }
}

/// The first-seen names hold no name twice, and they are the names that some
/// round holds.
pub proof fn lemma_first_seen_keys(rounds: Seq<Seq<(Seq<char>, AdditionalData)>>)
    ensures
        first_seen_keys(rounds).no_duplicates(),
        forall|k: Seq<char>|
            first_seen_keys(rounds).contains(k) <==> exists|i: int|
                0 <= i < rounds.len() && #[trigger] keys_of(rounds[i]).contains(k),
    decreases rounds.len(),
{
    if rounds.len() > 0 {
        let earlier = rounds.drop_last();
        lemma_first_seen_keys(earlier);
        lemma_with_new_keys(first_seen_keys(earlier), keys_of(rounds.last()));
        assert forall|k: Seq<char>|
            first_seen_keys(rounds).contains(k) <==> exists|i: int|
                0 <= i < rounds.len() && #[trigger] keys_of(rounds[i]).contains(k) by {
            if first_seen_keys(earlier).contains(k) {
                let i = choose|i: int|
                    0 <= i < earlier.len() && #[trigger] keys_of(earlier[i]).contains(k);
                assert(keys_of(rounds[i]).contains(k));
            }
            if keys_of(rounds.last()).contains(k) {
                assert(keys_of(rounds[rounds.len() - 1]).contains(k));
            }
            if exists|i: int| 0 <= i < rounds.len() && #[trigger] keys_of(rounds[i]).contains(k) {
                let i = choose|i: int|
                    0 <= i < rounds.len() && #[trigger] keys_of(rounds[i]).contains(k);
                if i < rounds.len() - 1 {
                    assert(keys_of(earlier[i]).contains(k));
                }
            }
        }
    }
}

/// Later rounds add names after those that earlier rounds brought: the names
/// of the first `k` rounds begin the names of all rounds.
pub proof fn lemma_first_seen_keys_grow(rounds: Seq<Seq<(Seq<char>, AdditionalData)>>, k: int)
    requires
        0 <= k <= rounds.len(),
    ensures
        first_seen_keys(rounds.take(k)).is_prefix_of(first_seen_keys(rounds)),
    decreases rounds.len(),
{
    if k == rounds.len() {
        assert(rounds.take(k) =~= rounds);
    } else {
        let earlier = rounds.drop_last();
        assert(earlier.take(k) =~= rounds.take(k));
        lemma_first_seen_keys_grow(earlier, k);
        lemma_first_seen_keys(earlier);
        lemma_with_new_keys(first_seen_keys(earlier), keys_of(rounds.last()));
    }
}

/// The aggregate holds exactly the first-seen names, in their order, and
/// under each the median of the values that the rounds hold under it.
pub proof fn lemma_aggregated_entries(
    rounds: Seq<Seq<(Seq<char>, AdditionalData)>>,
    key: Seq<char>,
)
    ensures
        keys_of(aggregated(rounds)) == first_seen_keys(rounds),
        keys_of(aggregated(rounds)).no_duplicates(),
        first_seen_keys(rounds).contains(key) ==> lookup(aggregated(rounds), key) == Some(
            median_of(values_under(rounds, key)),
        ),
        !first_seen_keys(rounds).contains(key) ==> lookup(aggregated(rounds), key) is None,
{
    lemma_first_seen_keys(rounds);
    first_seen_keys(rounds).index_of_first_ensures(key);
}

/// A name is looked up with success exactly in the rounds that hold it.
pub proof fn lemma_lookup_finds_held_keys(
    entries: Seq<(Seq<char>, AdditionalData)>,
    key: Seq<char>,
)
    ensures
        lookup(entries, key) is Some <==> keys_of(entries).contains(key),
        lookup(entries, key) is Some ==> exists|i: int|
            0 <= i < entries.len() && entries[i] == (key, lookup(entries, key).unwrap()),
{
    keys_of(entries).index_of_first_ensures(key);
}

/// There are as many values under a name as rounds that hold the name: at
/// most one for each round, and at least one if any round holds it.
pub proof fn lemma_values_under_counts_rounds(
    rounds: Seq<Seq<(Seq<char>, AdditionalData)>>,
    key: Seq<char>,
)
    ensures
        values_under(rounds, key).len() == rounds.filter(
            |entries: Seq<(Seq<char>, AdditionalData)>| keys_of(entries).contains(key),
        ).len(),
        values_under(rounds, key).len() <= rounds.len(),
        first_seen_keys(rounds).contains(key) ==> values_under(rounds, key).len() > 0,
    decreases rounds.len(),
{
    reveal(Seq::filter);
    if rounds.len() > 0 {
        let earlier = rounds.drop_last();
        lemma_values_under_counts_rounds(earlier, key);
        lemma_lookup_finds_held_keys(rounds.last(), key);
        lemma_first_seen_keys(earlier);
        lemma_with_new_keys(first_seen_keys(earlier), keys_of(rounds.last()));
    }
}

/// Whether `keys` holds `key`.
fn holds_key(keys: &Vec<String>, key: &String) -> (found: bool)
    ensures
        found == texts(keys@).contains(key@),
{
    let mut i: usize = 0;
    while i < keys.len()
        invariant
            i <= keys.len(),
            forall|j: int| 0 <= j < i ==> texts(keys@)[j] != key@,
        decreases keys.len() - i,
    {
        if keys[i] == *key {
            assert(texts(keys@)[i as int] == key@);
            return true;
        }
        i += 1;
    }
    false
}

/// The names that occur in `rounds`, each once, in the order of their first
/// occurrence.
pub fn union_of_keys(rounds: &Vec<MeasuredRound>) -> (keys: Vec<String>)
    ensures
        texts(keys@) == first_seen_keys(data_of(samples_of(rounds@))),
{
    let ghost data = data_of(samples_of(rounds@));
    let mut keys: Vec<String> = Vec::new();
    let mut i: usize = 0;
    while i < rounds.len()
        invariant
            i <= rounds.len(),
            data == data_of(samples_of(rounds@)),
            texts(keys@) == first_seen_keys(data.take(i as int)),
        decreases rounds.len() - i,
    {
        let round_keys = map_keys(&rounds[i].additional_data);
        let ghost seen = first_seen_keys(data.take(i as int));
        let ghost names = keys_of(data[i as int]);
        let mut j: usize = 0;
        while j < round_keys.len()
            invariant
                j <= round_keys.len(),
                names == texts(round_keys@),
                texts(keys@) == with_new_keys(seen, names.take(j as int)),
            decreases round_keys.len() - j,
        {
            assert(names.take(j + 1).drop_last() =~= names.take(j as int));
            if !holds_key(&keys, &round_keys[j]) {
                keys.push(round_keys[j].clone());
            }
            j += 1;
        }
        assert(names.take(j as int) =~= names);
        assert(data.take(i + 1).drop_last() =~= data.take(i as int));
        i += 1;
    }
    assert(data.take(i as int) =~= data);
    keys
}

/// The values that `rounds` hold under `key`, in the order of the rounds.
pub fn values_for(rounds: &Vec<MeasuredRound>, key: &String) -> (values: Vec<AdditionalData>)
    ensures
        values@ == values_under(data_of(samples_of(rounds@)), key@),
{
    let ghost data = data_of(samples_of(rounds@));
    let mut values: Vec<AdditionalData> = Vec::new();
    let mut i: usize = 0;
    while i < rounds.len()
        invariant
            i <= rounds.len(),
            data == data_of(samples_of(rounds@)),
            values@ == values_under(data.take(i as int), key@),
        decreases rounds.len() - i,
    {
        assert(data.take(i + 1).drop_last() =~= data.take(i as int));
        match map_get(&rounds[i].additional_data, key) {
            Some(value) => {
                values.push(value);
            },
            None => {},
        }
        i += 1;
    }
    assert(data.take(i as int) =~= data);
    values
}

/// Merges the metrics of `rounds`: every name that occurs, in first-seen
/// order, with the median of the values reported under it.
pub fn aggregate(rounds: &Vec<MeasuredRound>) -> (merged: IndexMap<String, AdditionalData>)
    ensures
        map_entries(merged) == aggregated(data_of(samples_of(rounds@))),
{
    let ghost data = data_of(samples_of(rounds@));
    let keys = union_of_keys(rounds);
    let ghost names = texts(keys@);
    let mut merged = map_new();
    let mut i: usize = 0;
    proof {
        lemma_first_seen_keys(data);
    }
    while i < keys.len()
        invariant
            i <= keys.len(),
            data == data_of(samples_of(rounds@)),
            names == texts(keys@),
            names == first_seen_keys(data),
            names.no_duplicates(),
            map_entries(merged) == medians_under(data, names.take(i as int)),
        decreases keys.len() - i,
    {
        let ghost entries = map_entries(merged);
        let ghost name = names[i as int];
        let mut values = values_for(rounds, &keys[i]);
        proof {
            lemma_values_under_counts_rounds(data, name);
        }
        sort(&mut values);
        let median = middle(&values);
        map_insert(&mut merged, keys[i].clone(), median);
        proof {
            // the name is new to the map, so it goes to the end
            keys_of(entries).index_of_first_ensures(name);
        }
        i += 1;
    }
    merged
}

} // verus!
