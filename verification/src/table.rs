//! A query string held in memory.
//!
//! The entries of a query string form a table that keeps their order and may
//! hold a key more than once. A host that keeps the table itself carries a
//! [`Request`] out on it with [`perform`]: setting a parameter creates or
//! overwrites it, deleting removes every occurrence.

use vstd::prelude::*;

use crate::host::{Request, RequestView};
use crate::token::{parameters_of, token_of, Entries, RawParameter};

verus! {

/// Some entry has the key `name`.
pub open spec fn has_key(entries: Entries, name: Seq<char>) -> bool {
    exists|i: int| 0 <= i < entries.len() && (#[trigger] entries[i]).0 == name
}

/// `at` is the place of the first entry with the key `name`.
pub open spec fn is_first_of(entries: Entries, name: Seq<char>, at: int) -> bool {
    &&& 0 <= at < entries.len()
    &&& entries[at].0 == name
    &&& forall|j: int| 0 <= j < at ==> (#[trigger] entries[j]).0 != name
}

/// The place of the first entry with the key `name`, where there is one.
pub open spec fn first_of(entries: Entries, name: Seq<char>) -> int {
    choose|at: int| is_first_of(entries, name, at)
}

/// The entries without those of the key `name`; the others keep their order.
pub open spec fn without_key(entries: Entries, name: Seq<char>) -> Entries
    decreases entries.len(),
{
    if entries.len() == 0 {
        entries
    } else if entries.last().0 == name {
        without_key(entries.drop_last(), name)
    } else {
        without_key(entries.drop_last(), name).push(entries.last())
    }
}

/// The entries with the key `name` set to `value`. The first entry of that
/// key takes the value and the later ones of that key leave; where no entry
/// has the key, the pair is added at the end.
pub open spec fn with_key(entries: Entries, name: Seq<char>, value: Seq<char>) -> Entries {
    if has_key(entries, name) {
        let at = first_of(entries, name);
        entries.take(at) + seq![(name, value)] + without_key(entries.skip(at + 1), name)
    } else {
        entries.push((name, value))
    }
}

/// The entries once `request` is carried out on them: setting and deleting a
/// parameter change them, and no other request concerns the query string.
pub open spec fn performed(entries: Entries, request: RequestView) -> Entries {
    match request {
        RequestView::SetParameter { name, value } => with_key(entries, name, value),
        RequestView::DeleteParameter { name } => without_key(entries, name),
        _ => entries,
    }
}

/// An entry with the key `name` has a first one, and only one place is the first.
pub proof fn lemma_first_of(entries: Entries, name: Seq<char>)
    requires
        has_key(entries, name),
    ensures
        is_first_of(entries, name, first_of(entries, name)),
        forall|at: int| is_first_of(entries, name, at) ==> at == first_of(entries, name),
{
    let some = choose|i: int| 0 <= i < entries.len() && (#[trigger] entries[i]).0 == name;
    assert(exists|at: int| is_first_of(entries, name, at)) by {
        lemma_least_place(entries, name, some);
    }
}

/// Below a place that holds the key `name` stands a first one.
proof fn lemma_least_place(entries: Entries, name: Seq<char>, some: int)
    requires
        0 <= some < entries.len(),
        entries[some].0 == name,
    ensures
        exists|at: int| is_first_of(entries, name, at),
    decreases some,
{
    if exists|j: int| 0 <= j < some && (#[trigger] entries[j]).0 == name {
        let j = choose|j: int| 0 <= j < some && (#[trigger] entries[j]).0 == name;
        lemma_least_place(entries, name, j);
    } else {
        assert(is_first_of(entries, name, some));
    }
}

/// Removes every entry with the key `name`. Without such an entry nothing changes.
pub fn delete_entries(entries: &mut Vec<RawParameter>, name: &str)
    ensures
        final(entries).deep_view() == without_key(old(entries).deep_view(), name@),
{
    let key = name.to_owned();
    let mut kept: Vec<RawParameter> = Vec::new();
    let mut i: usize = 0;
    while i < entries.len()
        invariant
            i <= entries.len(),
            key@ == name@,
            kept.deep_view() == without_key(entries.deep_view().take(i as int), name@),
        decreases entries.len() - i,
    {
        proof {
            let before = entries.deep_view().take(i as int);
            let next = entries.deep_view().take(i + 1);
            assert(next.drop_last() =~= before);
            assert(next.last() == entries[i as int]@);
        }
        if entries[i].key != key {
            let ghost earlier = kept.deep_view();
            kept.push(entries[i].clone());
            assert(kept.deep_view() =~= earlier.push(entries[i as int]@));
        }
        i = i + 1;
    }
    assert(entries.deep_view().take(i as int) =~= entries.deep_view());
    *entries = kept;
}

/// Sets the key `name` to `value`: the first entry of that key takes the
/// value and the later ones of that key leave; where no entry has the key, the
/// pair is added at the end.
pub fn set_entry(entries: &mut Vec<RawParameter>, name: &str, value: &str)
    ensures
        final(entries).deep_view() == with_key(old(entries).deep_view(), name@, value@),
{
    let key = name.to_owned();
    let ghost before = entries.deep_view();
    let mut first: usize = 0;
    while first < entries.len() && entries[first].key != key
        invariant
            first <= entries.len(),
            key@ == name@,
            forall|j: int| 0 <= j < first ==> (#[trigger] entries.deep_view()[j]).0 != name@,
        decreases entries.len() - first,
    {
        first = first + 1;
    }
    if first == entries.len() {
        assert(!has_key(before, name@));
        entries.push(RawParameter::new(name, value));
        assert(entries.deep_view() =~= before.push((name@, value@)));
        return ;
    }
    proof {
        assert(before[first as int].0 == name@);
        assert(is_first_of(before, name@, first as int));
        lemma_first_of(before, name@);
    }
    let mut kept: Vec<RawParameter> = Vec::new();
    let mut i: usize = 0;
    while i < first
        invariant
            i <= first < entries.len(),
            kept.deep_view() == entries.deep_view().take(i as int),
        decreases first - i,
    {
        let ghost earlier = kept.deep_view();
        kept.push(entries[i].clone());
        assert(kept.deep_view() =~= earlier.push(entries[i as int]@));
        assert(kept.deep_view() =~= entries.deep_view().take(i + 1));
        i = i + 1;
    }
    kept.push(RawParameter::new(name, value));
    i = first + 1;
    let ghost head = before.take(first as int) + seq![(name@, value@)];
    assert(kept.deep_view() =~= head);
    assert(before.subrange(first + 1, i as int) =~= Seq::empty());
    while i < entries.len()
        invariant
            first < i <= entries.len(),
            key@ == name@,
            before == entries.deep_view(),
            kept.deep_view() == head + without_key(before.subrange(first + 1, i as int), name@),
        decreases entries.len() - i,
    {
        proof {
            let next = before.subrange(first + 1, i + 1);
            assert(next.drop_last() =~= before.subrange(first + 1, i as int));
            assert(next.last() == entries[i as int]@);
        }
        if entries[i].key != key {
            let ghost earlier = kept.deep_view();
            kept.push(entries[i].clone());
            assert(kept.deep_view() =~= earlier.push(entries[i as int]@));
            assert(kept.deep_view() =~= head + without_key(before.subrange(first + 1, i + 1), name@));
        }
        i = i + 1;
    }
    assert(before.subrange(first + 1, i as int) =~= before.skip(first + 1));
    *entries = kept;
}

/// Carries `request` out on `entries`: a parameter is set or deleted, and
/// any other request leaves the entries as they are.
pub fn perform(entries: &mut Vec<RawParameter>, request: &Request)
    ensures
        final(entries).deep_view() == performed(old(entries).deep_view(), request@),
{
    match request {
        Request::SetParameter { name, value } => set_entry(entries, name.as_str(), value.as_str()),
        Request::DeleteParameter { name } => delete_entries(entries, name.as_str()),
        _ => {},
    }
}

/// Deleting leaves no entry of the key `name` and every other entry.
pub proof fn lemma_without(entries: Entries, name: Seq<char>)
    ensures
        !has_key(without_key(entries, name), name),
        without_key(entries, name).len() <= entries.len(),
        forall|i: int|
            0 <= i < entries.len() && (#[trigger] entries[i]).0 != name ==> without_key(
                entries,
                name,
            ).contains(entries[i]),
        forall|i: int|
            0 <= i < without_key(entries, name).len() ==> entries.contains(
                #[trigger] without_key(entries, name)[i],
            ),
    decreases entries.len(),
{
    if entries.len() > 0 {
        let front = entries.drop_last();
        let rest = without_key(front, name);
        let all = without_key(entries, name);
        lemma_without(front, name);
        assert forall|i: int| 0 <= i < entries.len() && (#[trigger] entries[i]).0
            != name implies all.contains(entries[i]) by {
            if i < front.len() {
                assert(front[i] == entries[i]);
                let j = choose|j: int| 0 <= j < rest.len() && rest[j] == front[i];
                assert(all[j] == entries[i]);
            } else {
                assert(all[all.len() - 1] == entries[i]);
            }
        }
        assert forall|i: int| 0 <= i < all.len() implies entries.contains(#[trigger] all[i]) by {
            if i < rest.len() {
                assert(front.contains(rest[i]));
                let j = choose|j: int| 0 <= j < front.len() && front[j] == rest[i];
                assert(entries[j] == all[i]);
            } else {
                assert(entries[entries.len() - 1] == all[i]);
            }
        }
    }
}

/// Deleting a key that no entry has changes nothing.
pub proof fn lemma_delete_absent(entries: Entries, name: Seq<char>)
    requires
        !has_key(entries, name),
    ensures
        without_key(entries, name) == entries,
    decreases entries.len(),
{
    if entries.len() > 0 {
        let front = entries.drop_last();
        assert(entries.last() == entries[entries.len() - 1]);
        assert forall|i: int| 0 <= i < front.len() implies (#[trigger] front[i]).0 != name by {
            assert(front[i] == entries[i]);
        }
        lemma_delete_absent(front, name);
        assert(front.push(entries.last()) =~= entries);
    }
}

/// Once a parameter is deleted, the argument list holds no token for it: each
/// token behind the path stands for an entry of another key.
pub proof fn lemma_deleted_parameter_has_no_token(
    path: Seq<char>,
    entries: Entries,
    name: Seq<char>,
)
    ensures
        ({
            let left = performed(entries, RequestView::DeleteParameter { name });
            let tokens = parameters_of(path, left);
            &&& tokens.len() == left.len() + 1
            &&& forall|i: int|
                0 <= i < left.len() ==> (#[trigger] left[i]).0 != name && tokens[i + 1]
                    == token_of(left[i].0, left[i].1)
        }),
{
    lemma_without(entries, name);
}

/// Deleting from two parts and joining them is deleting from the whole.
pub proof fn lemma_without_of_parts(
    front: Entries,
    back: Entries,
    name: Seq<char>,
)
    ensures
        without_key(front + back, name) == without_key(front, name) + without_key(back, name),
    decreases back.len(),
{
    if back.len() == 0 {
        assert(front + back =~= front);
        assert(without_key(front, name) + without_key(back, name) =~= without_key(front, name));
    } else {
        assert((front + back).drop_last() =~= front + back.drop_last());
        assert((front + back).last() == back.last());
        lemma_without_of_parts(front, back.drop_last(), name);
        assert(without_key(front + back, name) =~= without_key(front, name) + without_key(back, name));
    }
}

/// Deleting a key takes out an entry of that key, whatever stands behind it,
/// and leaves what stands before it where that holds no such entry.
proof fn lemma_without_around(
    head: Entries,
    entry: (Seq<char>, Seq<char>),
    tail: Entries,
    name: Seq<char>,
)
    requires
        entry.0 == name,
        !has_key(head, name),
    ensures
        without_key(head + seq![entry] + tail, name) == head + without_key(tail, name),
{
    let middle = seq![entry];
    lemma_without_of_parts(head + middle, tail, name);
    lemma_without_of_parts(head, middle, name);
    lemma_delete_absent(head, name);
    assert(without_key(middle, name) =~= Seq::empty()) by {
        assert(middle.drop_last() =~= Seq::empty());
        assert(without_key(middle.drop_last(), name) =~= Seq::empty());
    }
    assert(without_key(head + middle + tail, name) =~= head + without_key(tail, name));
}

/// The shape of a table in which `name` has just been set: up to `at` no
/// entry has the key, at `at` stands the pair, and behind it no entry has the key.
spec fn is_set_at(
    set: Entries,
    name: Seq<char>,
    value: Seq<char>,
    at: int,
) -> bool {
    &&& 0 <= at < set.len()
    &&& set[at] == (name, value)
    &&& !has_key(set.take(at), name)
    &&& !has_key(set.skip(at + 1), name)
}

/// Where the key is set, and what stands around it.
proof fn lemma_with_shape(entries: Entries, name: Seq<char>, value: Seq<char>)
    ensures
        ({
            let set = with_key(entries, name, value);
            let at = if has_key(entries, name) {
                first_of(entries, name)
            } else {
                entries.len() as int
            };
            &&& is_set_at(set, name, value, at)
            &&& set.take(at) == entries.take(at)
            &&& has_key(entries, name) ==> set.skip(at + 1) == without_key(entries.skip(at + 1), name)
            &&& !has_key(entries, name) ==> set.skip(at + 1) == Seq::<(Seq<char>, Seq<char>)>::empty()
        }),
{
    let set = with_key(entries, name, value);
    if has_key(entries, name) {
        lemma_first_of(entries, name);
        let at = first_of(entries, name);
        let tail = without_key(entries.skip(at + 1), name);
        lemma_without(entries.skip(at + 1), name);
        assert(set.take(at) =~= entries.take(at));
        assert(set.skip(at + 1) =~= tail);
        assert(!has_key(set.take(at), name)) by {
            assert forall|j: int| 0 <= j < at implies (#[trigger] set.take(at)[j]).0 != name by {
                assert(set.take(at)[j] == entries[j]);
            }
        }
    } else {
        let at = entries.len() as int;
        assert(set.take(at) =~= entries);
        assert(entries.take(at) =~= entries);
        assert(set.skip(at + 1) =~= Seq::empty());
    }
}

/// In a table of that shape the pair is the only entry of its key, and it is the first.
proof fn lemma_set_at(set: Entries, name: Seq<char>, value: Seq<char>, at: int)
    requires
        is_set_at(set, name, value, at),
    ensures
        has_key(set, name),
        first_of(set, name) == at,
        forall|i: int| 0 <= i < set.len() && (#[trigger] set[i]).0 == name ==> i == at,
        without_key(set, name) == set.take(at) + set.skip(at + 1),
{
    let head = set.take(at);
    let tail = set.skip(at + 1);
    assert forall|i: int| 0 <= i < set.len() && (#[trigger] set[i]).0 == name implies i == at by {
        if i < at {
            assert(head[i] == set[i]);
        } else if i > at {
            assert(tail[i - at - 1] == set[i]);
        }
    }
    assert(is_first_of(set, name, at));
    lemma_first_of(set, name);
    assert(set =~= head + seq![(name, value)] + tail);
    lemma_without_around(head, (name, value), tail, name);
    lemma_delete_absent(tail, name);
}

/// Setting a parameter creates it or overwrites it: afterwards exactly one
/// entry has the key, that entry holds the value, and the entries of all
/// other keys are there as before, in their order.
pub proof fn lemma_set_creates_or_overwrites(
    entries: Entries,
    name: Seq<char>,
    value: Seq<char>,
)
    ensures
        ({
            let set = with_key(entries, name, value);
            &&& has_key(set, name)
            &&& forall|i: int|
                0 <= i < set.len() && (#[trigger] set[i]).0 == name ==> set[i].1 == value && i
                    == first_of(set, name)
            &&& without_key(set, name) == without_key(entries, name)
        }),
{
    let set = with_key(entries, name, value);
    lemma_with_shape(entries, name, value);
    if has_key(entries, name) {
        let at = first_of(entries, name);
        lemma_first_of(entries, name);
        lemma_set_at(set, name, value, at);
        let head = entries.take(at);
        let tail = entries.skip(at + 1);
        assert(entries =~= head + seq![entries[at]] + tail);
        lemma_without_around(head, entries[at], tail, name);
    } else {
        let at = entries.len() as int;
        lemma_set_at(set, name, value, at);
        lemma_delete_absent(entries, name);
        assert(set.take(at) + set.skip(at + 1) =~= entries);
    }
}

/// Setting a parameter twice to the same value is setting it once.
pub proof fn lemma_set_twice(entries: Entries, name: Seq<char>, value: Seq<char>)
    ensures
        with_key(with_key(entries, name, value), name, value) == with_key(entries, name, value),
{
    let set = with_key(entries, name, value);
    lemma_with_shape(entries, name, value);
    let at = if has_key(entries, name) {
        first_of(entries, name)
    } else {
        entries.len() as int
    };
    lemma_set_at(set, name, value, at);
    lemma_delete_absent(set.skip(at + 1), name);
    assert(set =~= set.take(at) + seq![(name, value)] + set.skip(at + 1));
}

} // verus!
