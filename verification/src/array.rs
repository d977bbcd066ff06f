//! Runs of values, as arrays hold them.

use vstd::prelude::*;
use crate::value::items_view;
use crate::value::Value;

verus! {

/// Takes the value at `index` out of `items` and leaves nothing in its place.
pub fn take_value(items: &mut Vec<Value>, index: usize) -> (value: Value)
    requires
        index < old(items)@.len(),
    ensures
        value@ == old(items)@[index as int]@,
        final(items)@.len() == old(items)@.len(),
        forall|j: int|
            0 <= j < final(items)@.len() && j != index ==> final(items)@[j] == old(items)@[j],
{
    let mut taken = Value::Nothing;
    std::mem::swap(&mut items[index], &mut taken);
    taken
}

/// A copy of the values.
pub fn duplicate_items(items: &Vec<Value>) -> (copy: Vec<Value>)
    ensures
        items_view(copy@) == items_view(items@),
    decreases items, 1nat,
{
    let ghost all = items_view(items@);
    let mut copy: Vec<Value> = Vec::new();
    let mut i: usize = 0;
    while i < items.len()
        invariant
            i <= items@.len(),
            copy@.len() == i,
            all == items_view(items@),
            forall|j: int| 0 <= j < i ==> (#[trigger] copy@[j])@ == all[j],
        decreases items@.len() - i,
    {
        assert(all[i as int] == items@[i as int]@);
        copy.push(items[i].duplicate());
        i += 1;
    }
    assert(items_view(copy@) =~= all);
    copy
}

/// The values of `first` and then those of `second`.
pub fn concat(first: Vec<Value>, second: Vec<Value>) -> (both: Vec<Value>)
    ensures
        items_view(both@) == items_view(first@) + items_view(second@),
{
    let ghost head = items_view(first@);
    let ghost tail = items_view(second@);
    let mut both = first;
    let mut left = second;
    let mut i: usize = 0;
    while i < left.len()
        invariant
            i <= left@.len(),
            left@.len() == tail.len(),
            both@.len() == head.len() + i,
            head.len() == first@.len(),
            forall|j: int| 0 <= j < head.len() ==> (#[trigger] both@[j])@ == head[j],
            forall|j: int| 0 <= j < i ==> (#[trigger] both@[head.len() + j])@ == tail[j],
            forall|j: int| i <= j < left@.len() ==> (#[trigger] left@[j])@ == tail[j],
        decreases left@.len() - i,
    {
        let value = take_value(&mut left, i);
        both.push(value);
        i += 1;
    }
    proof {
        let joined = head + tail;
        assert(items_view(both@).len() == joined.len());
        assert forall|j: int| 0 <= j < joined.len() implies items_view(both@)[j] == joined[j] by {
            if j >= head.len() {
                assert(both@[head.len() + (j - head.len())]@ == tail[j - head.len()]);
            }
        }
        assert(items_view(both@) =~= joined);
    }
    both
}

} // verus!
