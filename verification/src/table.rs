//! Named entries in order: lookups take the first entry of a name.
use vstd::prelude::*;
use vstd::string::*;

verus! {

use crate::chars::{lemma_text_order, text_less};

/// Position of the first entry of a name.
pub open spec fn first_at<T>(entries: Seq<(String, T)>, name: Seq<char>) -> Option<int>
    decreases entries.len(),
{
    if entries.len() == 0 {
        None
    } else {
        match first_at(entries.drop_last(), name) {
            Some(i) => Some(i),
            None => if entries.last().0@ == name {
                Some(entries.len() - 1)
            } else {
                None
            },
        }
    }
}

/// The value of the first entry of a name.
pub open spec fn lookup<T>(entries: Seq<(String, T)>, name: Seq<char>) -> Option<T> {
    match first_at(entries, name) {
        Some(i) => Some(entries[i].1),
        None => None,
    }
}

/// A position that `first_at` names lies in the table and carries the
/// name; none is named only when no entry carries it.
pub proof fn lemma_first_at<T>(entries: Seq<(String, T)>, name: Seq<char>)
    ensures
        match first_at(entries, name) {
            Some(i) => 0 <= i < entries.len() && entries[i].0@ == name && forall|j: int|
                0 <= j < i ==> (#[trigger] entries[j]).0@ != name,
            None => forall|j: int| 0 <= j < entries.len() ==> (#[trigger] entries[j]).0@ != name,
        },
    decreases entries.len(),
{
    if entries.len() > 0 {
        let front = entries.drop_last();
        lemma_first_at(front, name);
        assert forall|j: int| 0 <= j < front.len() implies front[j] == #[trigger] entries[j] by {}
    }
}

/// Entries before the first one of a name do not change where it is.
proof fn lemma_first_at_prefix<T>(entries: Seq<(String, T)>, name: Seq<char>, i: int)
    requires
        0 <= i < entries.len(),
        first_at(entries.take(i), name) is None,
        entries[i].0@ == name,
    ensures
        first_at(entries, name) == Some(i),
    decreases entries.len() - i,
{
    lemma_first_at(entries, name);
    lemma_first_at(entries.take(i), name);
    assert forall|j: int| 0 <= j < i implies (#[trigger] entries[j]).0@ != name by {
        assert(entries.take(i)[j] == entries[j]);
    }
    match first_at(entries, name) {
        Some(k) => {
            if k < i {
                assert(entries[k].0@ != name);
            } else if k > i {
                assert(entries[i].0@ != name);
            }
        },
        None => {
            assert(entries[i].0@ != name);
        },
    }
}

/// Entries stand in the order of their names, so no name occurs twice.
pub open spec fn names_ascend<T>(entries: Seq<(String, T)>) -> bool {
    forall|i: int, j: int|
        0 <= i < j < entries.len() ==> text_less(
            (#[trigger] entries[i]).0@,
            (#[trigger] entries[j]).0@,
        )
}

/// Where names ascend, every entry is found by its name.
pub proof fn lemma_entries_are_found<T>(entries: Seq<(String, T)>, i: int)
    requires
        names_ascend(entries),
        0 <= i < entries.len(),
    ensures
        first_at(entries, entries[i].0@) == Some(i),
        lookup(entries, entries[i].0@) == Some(entries[i].1),
{
    let name = entries[i].0@;
    lemma_first_at(entries, name);
    match first_at(entries, name) {
        Some(k) => {
            lemma_text_order(name, name, name);
            if k < i {
                assert(text_less(entries[k].0@, entries[i].0@));
            } else if i < k {
                assert(text_less(entries[i].0@, entries[k].0@));
            }
        },
        None => {
            assert(entries[i].0@ != name);
        },
    }
}

/// Find the first entry of a name.
pub fn find<T>(entries: &Vec<(String, T)>, name: &str) -> (r: Option<usize>)
    ensures
        match r {
            Some(i) => first_at(entries@, name@) == Some(i as int) && i < entries@.len(),
            None => first_at(entries@, name@) is None,
        },
{
    let mut i: usize = 0;
    while i < entries.len()
        invariant
            i <= entries@.len(),
            first_at(entries@.take(i as int), name@) is None,
        decreases entries@.len() - i,
    {
        if crate::text::same(entries[i].0.as_str(), name) {
            proof {
                lemma_first_at_prefix(entries@, name@, i as int);
            }
            return Some(i);
        }
        proof {
            assert(entries@.take(i + 1).drop_last() =~= entries@.take(i as int));
        }
        i = i + 1;
    }
    proof {
        assert(entries@.take(i as int) =~= entries@);
    }
    None
}

/// Whether a list of strings holds a name.
pub open spec fn listed(names: Seq<String>, name: Seq<char>) -> bool {
    exists|i: int| 0 <= i < names.len() && (#[trigger] names[i])@ == name
}

/// Whether a list of strings holds a name.
pub fn contains(names: &Vec<String>, name: &str) -> (r: bool)
    ensures
        r == listed(names@, name@),
{
    let mut i: usize = 0;
    while i < names.len()
        invariant
            i <= names@.len(),
            forall|j: int| 0 <= j < i ==> (#[trigger] names@[j])@ != name@,
        decreases names@.len() - i,
    {
        if crate::text::same(names[i].as_str(), name) {
            return true;
        }
        i = i + 1;
    }
    false
}

/// The texts of a list, with a separator between.
pub open spec fn interleaved(parts: Seq<Seq<char>>, sep: Seq<char>) -> Seq<char>
    decreases parts.len(),
{
    if parts.len() == 0 {
        Seq::empty()
    } else if parts.len() == 1 {
        parts[0]
    } else {
        interleaved(parts.drop_last(), sep) + sep + parts.last()
    }
}

/// The texts of strings.
pub open spec fn texts(list: Seq<String>) -> Seq<Seq<char>> {
    list.map_values(|s: String| s@)
}

/// Join strings with a separator between.
pub fn join(parts: &Vec<String>, sep: &str) -> (r: String)
    ensures
        r@ == interleaved(texts(parts@), sep@),
{
    let mut out = String::new();
    let ghost all = texts(parts@);
    let mut i: usize = 0;
    while i < parts.len()
        invariant
            i <= parts@.len(),
            all == texts(parts@),
            out@ == interleaved(all.take(i as int), sep@),
        decreases parts@.len() - i,
    {
        if i > 0 {
            out.append(sep);
        }
        out.append(parts[i].as_str());
        proof {
            let next = all.take(i + 1);
            assert(next.drop_last() =~= all.take(i as int));
            assert(next.last() == parts@[i as int]@);
            if i == 0 {
                assert(next[0] == parts@[0]@);
                assert(out@ =~= next[0]);
            }
        }
        i = i + 1;
    }
    proof {
        assert(all.take(i as int) =~= all);
    }
    out
}

} // verus!
