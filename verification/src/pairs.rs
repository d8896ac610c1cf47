//! Ordered lists of named values in which every name occurs once.

use vstd::prelude::*;

verus! {

/// Whether some entry of `list` is named `key`.
pub open spec fn has_key(list: Seq<(Seq<char>, Seq<char>)>, key: Seq<char>) -> bool {
    exists|i: int| 0 <= i < list.len() && (#[trigger] list[i]).0 == key
}

/// The position of an entry named `key`, where there is one.
pub open spec fn key_index(list: Seq<(Seq<char>, Seq<char>)>, key: Seq<char>) -> int {
    choose|i: int| 0 <= i < list.len() && (#[trigger] list[i]).0 == key
}

/// Whether no two entries of `list` share a name.
pub open spec fn distinct_keys(list: Seq<(Seq<char>, Seq<char>)>) -> bool {
    forall|i: int, j: int|
        0 <= i < j < list.len() ==> (#[trigger] list[i]).0 != (#[trigger] list[j]).0
}

/// The value that `list` gives to `key`, if any.
pub open spec fn lookup(list: Seq<(Seq<char>, Seq<char>)>, key: Seq<char>) -> Option<Seq<char>> {
    if has_key(list, key) {
        Some(list[key_index(list, key)].1)
    } else {
        None
    }
}

/// `list` with `key` set to `value`: an entry of that name keeps its place and takes the
/// new value, a new name goes to the end.
pub open spec fn upsert(list: Seq<(Seq<char>, Seq<char>)>, key: Seq<char>, value: Seq<char>) -> Seq<
    (Seq<char>, Seq<char>),
> {
    if has_key(list, key) {
        list.update(key_index(list, key), (key, value))
    } else {
        list.push((key, value))
    }
}

/// Setting a name keeps the names distinct, gives that name the new value and leaves
/// every other name as it was.
pub proof fn lemma_upsert(
    list: Seq<(Seq<char>, Seq<char>)>,
    key: Seq<char>,
    value: Seq<char>,
)
    requires
        distinct_keys(list),
    ensures
        distinct_keys(upsert(list, key, value)),
        lookup(upsert(list, key, value), key) == Some(value),
        forall|other: Seq<char>|
            other != key ==> #[trigger] lookup(upsert(list, key, value), other) == lookup(
                list,
                other,
            ),
{
    let next = upsert(list, key, value);
    if has_key(list, key) {
        let at = key_index(list, key);
        assert(next[at].0 == key);
        assert(has_key(next, key));
        assert(key_index(next, key) == at);
        assert forall|other: Seq<char>| other != key implies #[trigger] lookup(next, other)
            == lookup(list, other) by {
            if has_key(list, other) {
                let i = key_index(list, other);
                assert(next[i].0 == other);
                assert(has_key(next, other));
                assert(key_index(next, other) == i);
            } else {
                if has_key(next, other) {
                    let i = key_index(next, other);
                    assert(list[i].0 == other);
                }
            }
        }
    } else {
        let at = list.len() as int;
        assert(next[at].0 == key);
        assert(has_key(next, key));
        assert(key_index(next, key) == at);
        assert forall|other: Seq<char>| other != key implies #[trigger] lookup(next, other)
            == lookup(list, other) by {
            if has_key(list, other) {
                let i = key_index(list, other);
                assert(next[i].0 == other);
                assert(has_key(next, other));
                assert(key_index(next, other) == i);
            } else {
                if has_key(next, other) {
                    let i = key_index(next, other);
                    assert(list[i].0 == other);
                }
            }
        }
    }
}

/// Sets `key` to `value` in `list`.
pub fn upsert_pair(list: &mut Vec<(String, String)>, key: String, value: String)
    requires
        distinct_keys(old(list).deep_view()),
    ensures
        final(list).deep_view() == upsert(old(list).deep_view(), key@, value@),
        distinct_keys(final(list).deep_view()),
{
    let ghost before = list.deep_view();
    let mut i: usize = 0;
    while i < list.len()
        invariant
            i <= list.len(),
            list.deep_view() == before,
            before == old(list).deep_view(),
            distinct_keys(before),
            forall|k: int| 0 <= k < i ==> (#[trigger] before[k]).0 != key@,
        decreases list.len() - i,
    {
        assert(before[i as int].0 == list@[i as int].0@);
        if list[i].0 == key {
            proof {
                assert(has_key(before, key@));
                assert(key_index(before, key@) == i);
                lemma_upsert(before, key@, value@);
            }
            list[i] = (key, value);
            assert(list.deep_view() =~= upsert(before, key@, value@));
            return ;
        }
        i += 1;
    }
    proof {
        assert(!has_key(before, key@));
        lemma_upsert(before, key@, value@);
    }
    list.push((key, value));
    assert(list.deep_view() =~= upsert(before, key@, value@));
}

} // verus!
