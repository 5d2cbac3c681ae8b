//! Helpers on vectors.

use vstd::prelude::*;

verus! {

/// The elements in the opposite order.
pub fn reversed<T>(items: Vec<T>) -> (result: Vec<T>)
    ensures
        result@ == items@.reverse(),
{
    let mut items = items;
    let ghost all = items@;
    let mut result: Vec<T> = Vec::new();
    while items.len() > 0
        invariant
            all == items@ + result@.reverse(),
        decreases items.len(),
    {
        let ghost before = items@;
        let ghost done = result@;
        let last = items.pop().unwrap();
        result.push(last);
        assert(before == items@.push(last));
        assert(result@.reverse() == seq![last] + done.reverse());
    }
    assert(result@ == all.reverse());
    result
}

} // verus!
