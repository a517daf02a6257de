//! Small tables keyed by text: a vector of entries whose keys are distinct,
//! kept in the order they were first inserted.

use vstd::prelude::*;
use vstd::string::StringExecFns;

verus! {

/// The keys of a table, in order.
pub open spec fn keys_of<V>(entries: Seq<(String, V)>) -> Seq<Seq<char>> {
    entries.map_values(|e: (String, V)| e.0@)
}

/// Whether no key occurs twice.
pub open spec fn distinct_keys<V>(entries: Seq<(String, V)>) -> bool {
    keys_of(entries).no_duplicates()
}

/// Finds the entry with `key`.
pub fn index_of<V>(entries: &Vec<(String, V)>, key: &str) -> (r: Option<usize>)
    ensures
        r matches Some(i) ==> i < entries@.len() && entries@[i as int].0@ == key@,
        r is None <==> !keys_of(entries@).contains(key@),
{
    let wanted = String::from_str(key);
    let mut i: usize = 0;
    while i < entries.len()
        invariant
            wanted@ == key@,
            i <= entries@.len(),
            forall|j: int| 0 <= j < i ==> entries@[j].0@ != key@,
        decreases entries@.len() - i,
    {
        if entries[i].0 == wanted {
            assert(keys_of(entries@)[i as int] == key@);
            return Some(i);
        }
        i = i + 1;
    }
    proof {
        if keys_of(entries@).contains(key@) {
            let j = choose|j: int| 0 <= j < keys_of(entries@).len() && keys_of(entries@)[j] == key@;
            assert(entries@[j].0@ == key@);
        }
    }
    None
}

/// Whether some entry has `key`.
pub fn contains_key<V>(entries: &Vec<(String, V)>, key: &str) -> (r: bool)
    ensures
        r == keys_of(entries@).contains(key@),
{
    index_of(entries, key).is_some()
}

/// Sets the value of `key`: an existing entry keeps its place, a new one
/// goes last.
pub fn insert<V>(entries: &mut Vec<(String, V)>, key: String, value: V)
    requires
        distinct_keys(old(entries)@),
    ensures
        distinct_keys(final(entries)@),
        keys_of(old(entries)@).contains(key@) ==> exists|i: int|
            0 <= i < old(entries)@.len() && old(entries)@[i].0@ == key@ && final(entries)@ == old(
                entries,
            )@.update(i, (key, value)),
        !keys_of(old(entries)@).contains(key@) ==> final(entries)@ == old(entries)@.push(
            (key, value),
        ),
        forall|x: Seq<char>|
            #[trigger] keys_of(final(entries)@).contains(x) <==> (keys_of(old(entries)@).contains(x)
                || x == key@),
        exists|i: int|
            0 <= i < final(entries)@.len() && final(entries)@[i].0@ == key@ && final(entries)@[i].1
                == value,
        forall|j: int|
            0 <= j < final(entries)@.len() && (#[trigger] final(entries)@[j]).0@ != key@ ==> j < old(
                entries,
            )@.len() && final(entries)@[j] == old(entries)@[j],
{
    let ghost k = key@;
    match index_of(entries, key.as_str()) {
        Some(i) => {
            entries.set(i, (key, value));
            assert(entries@[i as int].0@ == k);
            assert(keys_of(entries@) =~= keys_of(old(entries)@));
            assert(keys_of(old(entries)@)[i as int] == k);
        },
        None => {
            entries.push((key, value));
            assert(entries@[old(entries)@.len() as int].0@ == k);
            let ghost ks = keys_of(old(entries)@);
            assert(keys_of(entries@) =~= ks.push(k));
            assert forall|x: Seq<char>| #[trigger] ks.push(k).contains(x) <==> (ks.contains(x)
                || x == k) by {
                if ks.push(k).contains(x) {
                    let j = choose|j: int| 0 <= j < ks.push(k).len() && ks.push(k)[j] == x;
                    if j < ks.len() {
                        assert(ks[j] == x);
                    }
                }
                if ks.contains(x) {
                    let j = choose|j: int| 0 <= j < ks.len() && ks[j] == x;
                    assert(ks.push(k)[j] == x);
                }
                if x == k {
                    assert(ks.push(k)[ks.len() as int] == x);
                }
            }
        },
    }
}

/// Removes the entry with `key`, if there is one; the others keep their order.
pub fn remove<V>(entries: &mut Vec<(String, V)>, key: &str)
    requires
        distinct_keys(old(entries)@),
    ensures
        distinct_keys(final(entries)@),
        !keys_of(old(entries)@).contains(key@) ==> final(entries)@ == old(entries)@,
        keys_of(old(entries)@).contains(key@) ==> exists|i: int|
            0 <= i < old(entries)@.len() && old(entries)@[i].0@ == key@ && final(entries)@ == old(
                entries,
            )@.remove(i),
        forall|k: Seq<char>|
            #[trigger] keys_of(final(entries)@).contains(k) <==> (keys_of(old(entries)@).contains(k)
                && k != key@),
        forall|j: int|
            0 <= j < final(entries)@.len() ==> old(entries)@.contains(#[trigger] final(entries)@[j]),
{
    match index_of(entries, key) {
        Some(i) => {
            let ghost before = entries@;
            entries.remove(i);
            proof {
                lemma_remove_key(before, i as int);
                assert forall|j: int| 0 <= j < entries@.len() implies before.contains(
                    #[trigger] entries@[j],
                ) by {
                    if j < i {
                        assert(before[j] == entries@[j]);
                    } else {
                        assert(before[j + 1] == entries@[j]);
                    }
                }
            }
        },
        None => {
            assert forall|j: int| 0 <= j < entries@.len() implies old(entries)@.contains(
                #[trigger] entries@[j],
            ) by {
                assert(old(entries)@[j] == entries@[j]);
            }
        },
    }
}

proof fn lemma_remove_key<V>(e: Seq<(String, V)>, i: int)
    requires
        distinct_keys(e),
        0 <= i < e.len(),
    ensures
        distinct_keys(e.remove(i)),
        forall|k: Seq<char>|
            #[trigger] keys_of(e.remove(i)).contains(k) <==> (keys_of(e).contains(k) && k != e[i].0@),
{
    let ks = keys_of(e);
    let rs = keys_of(e.remove(i));
    assert(rs =~= ks.remove(i));
    assert forall|k: Seq<char>| #[trigger] rs.contains(k) <==> (ks.contains(k) && k != ks[i]) by {
        if rs.contains(k) {
            let j = choose|j: int| 0 <= j < rs.len() && rs[j] == k;
            if j < i {
                assert(ks[j] == k);
            } else {
                assert(ks[j + 1] == k);
            }
        }
        if ks.contains(k) && k != ks[i] {
            let j = choose|j: int| 0 <= j < ks.len() && ks[j] == k;
            if j < i {
                assert(rs[j] == k);
            } else {
                assert(rs[j - 1] == k);
            }
        }
    }
}

} // verus!
