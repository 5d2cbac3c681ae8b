//! What the history holds after something was sent, and how it is listed.

use vstd::prelude::*;

use crate::history::{first_items, mode_label, one_line, pushed, shortened, without};
use crate::model::{HistoryView, SendMode};

verus! {

proof fn without_what_is_not_there(items: Seq<HistoryView>, item: HistoryView)
    requires
        !items.contains(item),
    ensures
        without(items, item) == items,
    decreases items.len(),
{
    if items.len() > 0 {
        let before = items.drop_last();
        assert(items[items.len() - 1] != item);
        assert(!before.contains(item)) by {
            if before.contains(item) {
                let i = choose|i: int| 0 <= i < before.len() && before[i] == item;
                assert(items[i] == item);
            }
        }
        without_what_is_not_there(before, item);
        assert(before.push(items.last()) == items);
    }
}

proof fn without_one(items: Seq<HistoryView>, k: int)
    requires
        items.no_duplicates(),
        0 <= k < items.len(),
    ensures
        without(items, items[k]) == items.remove(k),
    decreases items.len(),
{
    let item = items[k];
    let before = items.drop_last();
    assert(before.no_duplicates());
    if k == items.len() - 1 {
        assert(!before.contains(item)) by {
            if before.contains(item) {
                let i = choose|i: int| 0 <= i < before.len() && before[i] == item;
                assert(items[i] == items[k]);
            }
        }
        without_what_is_not_there(before, item);
        assert(items.remove(k) == before);
    } else {
        assert(items[items.len() - 1] != items[k]);
        without_one(before, k);
        assert(before[k] == item);
        assert(before.remove(k).push(items.last()) == items.remove(k));
    }
}

/// What is sent comes first. It leaves its old place, if it had one; otherwise the oldest of
/// fifty items leaves. All others stay, in their order.
pub proof fn what_is_sent_comes_first(items: Seq<HistoryView>, item: HistoryView)
    requires
        items.no_duplicates(),
        items.len() <= 50,
    ensures
        pushed(items, item)[0] == item,
        forall|k: int|
            0 <= k < items.len() && #[trigger] items[k] == item ==> pushed(items, item)
                == seq![item] + items.remove(k),
        !items.contains(item) && items.len() < 50 ==> pushed(items, item) == seq![item] + items,
        !items.contains(item) && items.len() == 50 ==> pushed(items, item) == seq![item]
            + items.drop_last(),
{
    if items.contains(item) {
        assert forall|k: int| 0 <= k < items.len() && #[trigger] items[k] == item implies pushed(
            items,
            item,
        ) == seq![item] + items.remove(k) by {
            without_one(items, k);
        }
        let k = choose|k: int| 0 <= k < items.len() && items[k] == item;
        assert(items[k] == item);
    } else {
        without_what_is_not_there(items, item);
        if items.len() == 50 {
            assert((seq![item] + items).take(50) == seq![item] + items.drop_last());
        }
    }
}

/// An item is listed by how it was sent and by its text, whose line ends are spaces: all of it
/// up to thirty-six characters, otherwise the first thirty-six and an ellipsis.
pub proof fn previews_begin_with_the_text(item: HistoryView)
    ensures
        ({
            let text = shortened(one_line(item.input));
            &&& item.input.len() <= 36 ==> text.len() == item.input.len()
            &&& item.input.len() > 36 ==> text.len() == 37 && text[36] == '…'
            &&& forall|i: int|
                0 <= i < item.input.len() && i < 36 ==> #[trigger] text[i] == if item.input[i]
                    == '\r' || item.input[i] == '\n' {
                    ' '
                } else {
                    item.input[i]
                }
        }),
        mode_label(SendMode::Text) == "文本"@,
        mode_label(SendMode::Hex) == "HEX"@,
        first_items(seq![item], 0) == Seq::<HistoryView>::empty(),
{
}

} // verus!
