//! Tables: keys with their values, no key twice, in the order in which the keys came up.

use vstd::prelude::*;

verus! {

/// The value of a key.
pub open spec fn value_at<K, V>(table: Seq<(K, V)>, key: K) -> Option<V>
    decreases table.len(),
{
    if table.len() == 0 {
        None
    } else if table[0].0 == key {
        Some(table[0].1)
    } else {
        value_at(table.skip(1), key)
    }
}

/// The table with this value for a key: in the place of its old one, or at the end.
pub open spec fn put<K, V>(table: Seq<(K, V)>, key: K, value: V) -> Seq<(K, V)>
    decreases table.len(),
{
    if table.len() == 0 {
        seq![(key, value)]
    } else if table[0].0 == key {
        seq![(key, value)] + table.skip(1)
    } else {
        seq![table[0]] + put(table.skip(1), key, value)
    }
}

/// Whether no key occurs twice.
pub open spec fn distinct<K, V>(table: Seq<(K, V)>) -> bool {
    forall|i: int, j: int|
        0 <= i < j < table.len() ==> (#[trigger] table[i]).0 != (#[trigger] table[j]).0
}

/// A key that does not occur has no value, and one that occurs has that of its first
/// place.
pub proof fn lemma_value_at<K, V>(table: Seq<(K, V)>, key: K)
    ensures
        value_at(table, key) is None ==> forall|i: int|
            0 <= i < table.len() ==> (#[trigger] table[i]).0 != key,
        value_at(table, key) matches Some(v) ==> exists|i: int|
            0 <= i < table.len() && #[trigger] table[i] == (key, v),
    decreases table.len(),
{
    if table.len() > 0 && table[0].0 != key {
        let rest = table.skip(1);
        lemma_value_at(rest, key);
        assert forall|i: int| 0 < i < table.len() implies #[trigger] table[i] == rest[i - 1] by {}
        if let Some(v) = value_at(rest, key) {
            let i = choose|i: int| 0 <= i < rest.len() && #[trigger] rest[i] == (key, v);
            assert(table[i + 1] == (key, v));
        }
    } else if table.len() > 0 {
        assert(table[0] == (key, table[0].1));
    }
}

/// Putting a value changes what its key has, and nothing else.
pub proof fn lemma_put<K, V>(table: Seq<(K, V)>, key: K, value: V)
    ensures
        value_at(put(table, key, value), key) == Some(value),
        forall|other: K|
            other != key ==> #[trigger] value_at(put(table, key, value), other) == value_at(
                table,
                other,
            ),
        distinct(table) ==> distinct(put(table, key, value)),
        forall|i: int|
            0 <= i < put(table, key, value).len() ==> (#[trigger] put(table, key, value)[i]).0
                == key || exists|j: int|
                0 <= j < table.len() && #[trigger] table[j] == put(table, key, value)[i],
    decreases table.len(),
{
    let all = put(table, key, value);
    if table.len() == 0 {
        assert(all.skip(1) =~= table);
    } else {
        let rest = table.skip(1);
        assert forall|i: int| 0 < i < table.len() implies #[trigger] table[i] == rest[i - 1] by {}
        if table[0].0 == key {
            assert(all.skip(1) =~= rest);
            assert forall|i: int| 0 < i < all.len() implies #[trigger] all[i] == table[i] by {}
            assert forall|other: K| other != key implies #[trigger] value_at(all, other)
                == value_at(table, other) by {}
        } else {
            lemma_put(rest, key, value);
            let more = put(rest, key, value);
            assert(all.skip(1) =~= more);
            assert forall|i: int| 0 < i < all.len() implies #[trigger] all[i] == more[i - 1] by {}
            assert forall|other: K| other != key implies #[trigger] value_at(all, other)
                == value_at(table, other) by {
                assert(value_at(more, other) == value_at(rest, other));
            }
            assert forall|i: int| 0 <= i < all.len() implies (#[trigger] all[i]).0 == key
                || exists|j: int| 0 <= j < table.len() && #[trigger] table[j] == all[i] by {
                if i == 0 {
                    assert(table[0] == all[0]);
                } else if all[i].0 != key {
                    let j = choose|j: int|
                        0 <= j < rest.len() && #[trigger] rest[j] == more[i - 1];
                    assert(table[j + 1] == all[i]);
                }
            }
            if distinct(table) {
                assert forall|i: int, j: int| 0 <= i < j < rest.len() implies (#[trigger] rest[i]).0
                    != (#[trigger] rest[j]).0 by {
                    assert(table[i + 1].0 != table[j + 1].0);
                }
                assert forall|i: int, j: int| 0 <= i < j < all.len() implies (#[trigger] all[i]).0
                    != (#[trigger] all[j]).0 by {
                    if i == 0 {
                        if all[j].0 != key {
                            let k = choose|k: int|
                                0 <= k < rest.len() && #[trigger] rest[k] == more[j - 1];
                            assert(table[0].0 != table[k + 1].0);
                        }
                    } else {
                        assert(more[i - 1].0 != more[j - 1].0);
                    }
                }
            }
        }
    }
}

} // verus!
