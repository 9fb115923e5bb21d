use vstd::prelude::*;

verus! {

/// A list of named entries as plain values: each name by its characters.
pub open spec fn entries<V>(list: Seq<(String, V)>) -> Seq<(Seq<char>, V)> {
    Seq::new(list.len(), |i: int| (list[i].0@, list[i].1))
}

/// Some entry carries `name`.
pub open spec fn has_name<V>(entries: Seq<(Seq<char>, V)>, name: Seq<char>) -> bool {
    exists|i: int| 0 <= i < entries.len() && (#[trigger] entries[i]).0 == name
}

/// Entry `i` carries `name` and no entry before it does.
pub open spec fn is_first<V>(entries: Seq<(Seq<char>, V)>, name: Seq<char>, i: int) -> bool {
    &&& 0 <= i < entries.len()
    &&& entries[i].0 == name
    &&& forall|j: int| 0 <= j < i ==> (#[trigger] entries[j]).0 != name
}

/// The place of the first entry that carries `name`.
pub open spec fn first_index<V>(entries: Seq<(Seq<char>, V)>, name: Seq<char>) -> int {
    choose|i: int| is_first(entries, name, i)
}

/// What the first entry that carries `name` holds.
pub open spec fn lookup<V>(entries: Seq<(Seq<char>, V)>, name: Seq<char>) -> V {
    entries[first_index(entries, name)].1
}

/// The list read as a map from names to values.
pub open spec fn as_map<V>(entries: Seq<(Seq<char>, V)>) -> Map<Seq<char>, V> {
    Map::new(|name: Seq<char>| has_name(entries, name), |name: Seq<char>| lookup(entries, name))
}

/// No name occurs twice.
pub open spec fn distinct_names<V>(entries: Seq<(Seq<char>, V)>) -> bool {
    forall|i: int, j: int|
        0 <= i < j < entries.len() ==> (#[trigger] entries[i]).0 != (#[trigger] entries[j]).0
}

/// The list after `name` is set to `value`: the entry that carries the name is
/// replaced where it stands, and a new name goes to the end.
pub open spec fn put<V>(entries: Seq<(Seq<char>, V)>, name: Seq<char>, value: V) -> Seq<
    (Seq<char>, V),
> {
    if has_name(entries, name) {
        entries.update(first_index(entries, name), (name, value))
    } else {
        entries.push((name, value))
    }
}

/// A name that occurs has a first occurrence, at or before any given one.
pub proof fn lemma_first_exists<V>(entries: Seq<(Seq<char>, V)>, name: Seq<char>, i: int)
    requires
        0 <= i < entries.len(),
        entries[i].0 == name,
    ensures
        is_first(entries, name, first_index(entries, name)),
        first_index(entries, name) <= i,
    decreases i,
{
    if exists|j: int| 0 <= j < i && (#[trigger] entries[j]).0 == name {
        let j = choose|j: int| 0 <= j < i && (#[trigger] entries[j]).0 == name;
        lemma_first_exists(entries, name, j);
    } else {
        assert(is_first(entries, name, i));
        let k = first_index(entries, name);
        assert(is_first(entries, name, k));
        if k > i {
            assert(entries[i].0 != name);
        }
    }
}

/// The first occurrence of a name is the only index that `is_first` admits.
pub proof fn lemma_first_unique<V>(entries: Seq<(Seq<char>, V)>, name: Seq<char>, i: int)
    requires
        is_first(entries, name, i),
    ensures
        has_name(entries, name),
        first_index(entries, name) == i,
{
    let k = first_index(entries, name);
    assert(is_first(entries, name, k));
    if k < i {
        assert(entries[k].0 != name);
    }
    if i < k {
        assert(entries[i].0 != name);
    }
}

/// `put` is insertion into the map, and keeps names apart.
pub proof fn lemma_put<V>(entries: Seq<(Seq<char>, V)>, name: Seq<char>, value: V)
    ensures
        as_map(put(entries, name, value)) == as_map(entries).insert(name, value),
        distinct_names(entries) ==> distinct_names(put(entries, name, value)),
        has_name(entries, name) ==> put(entries, name, value).len() == entries.len(),
        !has_name(entries, name) ==> put(entries, name, value).len() == entries.len() + 1,
{
    let after = put(entries, name, value);
    let at: int = if has_name(entries, name) {
        let i = choose|i: int| 0 <= i < entries.len() && (#[trigger] entries[i]).0 == name;
        lemma_first_exists(entries, name, i);
        first_index(entries, name)
    } else {
        entries.len() as int
    };
    assert(after.len() > at && after[at] == (name, value));
    assert forall|j: int| 0 <= j < after.len() && j != at implies #[trigger] after[j]
        == entries[j] by {}
    assert forall|j: int| 0 <= j < entries.len() && j != at implies #[trigger] entries[j]
        == after[j] by {}
    assert forall|j: int| 0 <= j < at implies (#[trigger] after[j]).0 != name by {
        assert(after[j] == entries[j]);
    }
    lemma_first_unique(after, name, at);
    assert forall|other: Seq<char>| other != name implies (has_name(after, other) <==> has_name(
        entries,
        other,
    )) && (has_name(entries, other) ==> lookup(after, other) == lookup(entries, other)) by {
        if has_name(entries, other) {
            let i = choose|i: int| 0 <= i < entries.len() && (#[trigger] entries[i]).0 == other;
            lemma_first_exists(entries, other, i);
            let k = first_index(entries, other);
            assert(after[k] == entries[k]);
            assert forall|j: int| 0 <= j < k implies (#[trigger] after[j]).0 != other by {
                if j != at {
                    assert(after[j] == entries[j]);
                }
            }
            lemma_first_unique(after, other, k);
        }
        if has_name(after, other) {
            let i = choose|i: int| 0 <= i < after.len() && (#[trigger] after[i]).0 == other;
            assert(i != at);
            assert(after[i] == entries[i]);
        }
    }
    assert(as_map(after) =~= as_map(entries).insert(name, value));
    if distinct_names(entries) {
        assert forall|i: int, j: int| 0 <= i < j < after.len() implies (#[trigger] after[i]).0 != (
        #[trigger] after[j]).0 by {
            if i != at && j != at {
                assert(after[i] == entries[i] && after[j] == entries[j]);
            } else if i == at {
                assert(after[j] == entries[j]);
                if has_name(entries, name) {
                    assert(entries[at].0 == name);
                }
            } else {
                assert(after[i] == entries[i]);
                if has_name(entries, name) {
                    assert(entries[at].0 == name);
                }
            }
        }
    }
}

/// Looks for the first entry that carries `name`.
pub fn find<V>(list: &Vec<(String, V)>, name: &String) -> (found: Option<usize>)
    ensures
        match found {
            Some(i) => is_first(entries(list@), name@, i as int),
            None => !has_name(entries(list@), name@),
        },
{
    let mut i: usize = 0;
    while i < list.len()
        invariant
            i <= list@.len(),
            forall|j: int| 0 <= j < i ==> (#[trigger] entries(list@)[j]).0 != name@,
        decreases list@.len() - i,
    {
        if list[i].0 == *name {
            assert(entries(list@)[i as int].0 == name@);
            return Some(i);
        }
        assert(entries(list@)[i as int].0 != name@);
        i += 1;
    }
    None
}

} // verus!
