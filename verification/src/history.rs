//! What was sent lately.

use vstd::prelude::*;

use crate::chars::{chars_of, string_of};
use crate::model::{HistoryItem, HistoryView, SendMode};

pub mod laws;

verus! {

pub const MAX_HISTORY: usize = 50;

/// How many characters of an item a preview shows.
pub const PREVIEW_CHARS: usize = 36;

pub open spec fn item_views(items: Seq<HistoryItem>) -> Seq<HistoryView> {
    Seq::new(items.len(), |i: int| items[i]@)
}

/// The items that are not a given one.
pub open spec fn without(items: Seq<HistoryView>, item: HistoryView) -> Seq<HistoryView>
    decreases items.len(),
{
    if items.len() == 0 {
        items
    } else if items.last() == item {
        without(items.drop_last(), item)
    } else {
        without(items.drop_last(), item).push(items.last())
    }
}

/// At most so many items, the first ones.
pub open spec fn first_items(items: Seq<HistoryView>, count: nat) -> Seq<HistoryView> {
    if items.len() <= count {
        items
    } else {
        items.take(count as int)
    }
}

/// A new item comes first, and no other like it stays.
pub open spec fn pushed(items: Seq<HistoryView>, item: HistoryView) -> Seq<HistoryView> {
    first_items(seq![item] + without(items, item), MAX_HISTORY as nat)
}

/// The last items sent, newest first, none of them twice.
#[derive(Debug)]
pub struct SendHistory {
    items: Vec<HistoryItem>,
}

impl SendHistory {
    pub closed spec fn inner(self) -> Seq<HistoryView> {
        item_views(self.items@)
    }

    #[verifier::type_invariant]
    spec fn wf(self) -> bool {
        self.inner().len() <= MAX_HISTORY && self.inner().no_duplicates()
    }

    pub fn new() -> (history: Self)
        ensures
            history.inner() == Seq::<HistoryView>::empty(),
    {
        let history = SendHistory { items: Vec::new() };
        assert(history.inner() =~= Seq::<HistoryView>::empty());
        history
    }

    pub fn items(&self) -> (items: &Vec<HistoryItem>)
        ensures
            item_views(items@) == self.inner(),
            items@.len() <= MAX_HISTORY,
            item_views(items@).no_duplicates(),
    {
        proof {
            use_type_invariant(self);
        }
        &self.items
    }

    pub fn clear(&mut self)
        ensures
            final(self).inner() == Seq::<HistoryView>::empty(),
    {
        *self = SendHistory::new();
    }

    /// Takes in what was sent.
    pub fn push(&mut self, item: HistoryItem)
        ensures
            final(self).inner() == pushed(old(self).inner(), item@),
    {
        proof {
            use_type_invariant(&*self);
            without_properties(self.inner(), item@);
        }
        let ghost before = self.inner();
        if self.items.len() > 0 && same_item(&self.items[0], &item) {
            proof {
                without_front(before);
            }
            return ;
        }
        let mut kept: Vec<HistoryItem> = Vec::new();
        let ghost sent = item@;
        kept.push(item);
        let mut i: usize = 0;
        assert(before.take(0) =~= Seq::<HistoryView>::empty());
        assert(item_views(kept@) =~= seq![sent] + without(before.take(0), sent));
        while i < self.items.len()
            invariant
                i <= self.items.len(),
                before == self.inner(),
                kept@.len() > 0,
                kept@[0]@ == sent,
                item_views(kept@) == seq![sent] + without(before.take(i as int), sent),
            decreases self.items.len() - i,
        {
            assert(before.take(i + 1).drop_last() == before.take(i as int));
            assert(before.take(i + 1).last() == self.items@[i as int]@);
            if !same_item(&self.items[i], &kept[0]) {
                let ghost so_far = kept@;
                kept.push(self.items[i].clone());
                assert(item_views(kept@) =~= item_views(so_far).push(before[i as int]));
                assert(item_views(kept@) =~= seq![sent] + without(before.take(i + 1), sent));
            }
            i += 1;
        }
        assert(before.take(i as int) == before);
        let ghost all = kept@;
        if kept.len() > MAX_HISTORY {
            kept.truncate(MAX_HISTORY);
        }
        assert(item_views(kept@) =~= pushed(before, sent));
        proof {
            pushed_is_distinct(before, sent);
        }
        *self = SendHistory { items: kept };
    }
}

fn same_item(a: &HistoryItem, b: &HistoryItem) -> (same: bool)
    ensures
        same == (a@ == b@),
{
    let same = a.mode == b.mode && a.input == b.input;
    assert(same ==> a@ =~= b@);
    same
}

proof fn without_properties(items: Seq<HistoryView>, item: HistoryView)
    ensures
        without(items, item).len() <= items.len(),
        forall|i: int|
            0 <= i < without(items, item).len() ==> #[trigger] without(items, item)[i] != item
                && items.contains(without(items, item)[i]),
        items.no_duplicates() ==> without(items, item).no_duplicates(),
        !items.contains(item) ==> without(items, item) == items,
    decreases items.len(),
{
    if items.len() > 0 {
        let front = items.drop_last();
        without_properties(front, item);
        let kept = without(items, item);
        assert forall|i: int| 0 <= i < kept.len() implies #[trigger] kept[i] != item
            && items.contains(kept[i]) by {
            if i < without(front, item).len() {
                let part = without(front, item);
                assert(kept[i] == part[i]);
                let k = choose|k: int| 0 <= k < front.len() && front[k] == part[i];
                assert(items[k] == kept[i]);
            } else {
                assert(items[items.len() - 1] == kept[i]);
            }
        }
        if items.no_duplicates() {
            assert(front.no_duplicates());
            let part = without(front, item);
            assert forall|i: int, j: int| 0 <= i < j < kept.len() implies kept[i] != kept[j] by {
                if j == part.len() {
                    assert(front.contains(part[i]));
                    let k = choose|k: int| 0 <= k < front.len() && front[k] == part[i];
                    assert(items[k] == kept[i]);
                    assert(kept[j] == items[items.len() - 1]);
                } else {
                    assert(kept[i] == part[i] && kept[j] == part[j]);
                }
            }
        }
        if !items.contains(item) {
            assert(!front.contains(item)) by {
                if front.contains(item) {
                    let k = choose|k: int| 0 <= k < front.len() && front[k] == item;
                    assert(items[k] == item);
                }
            }
            assert(items[items.len() - 1] != item);
            assert(front.push(items.last()) == items);
        }
    }
}

/// Taking the first item out of distinct ones leaves the others.
proof fn without_front(items: Seq<HistoryView>)
    requires
        items.len() > 0,
        items.no_duplicates(),
        items.len() <= MAX_HISTORY,
    ensures
        without(items, items[0]) == items.skip(1),
        pushed(items, items[0]) == items,
    decreases items.len(),
{
    let front = items.drop_last();
    if front.len() > 0 {
        without_front(front);
        assert(front.skip(1).push(items.last()) == items.skip(1));
        assert(items[items.len() - 1] != items[0]);
    } else {
        assert(without(front, items[0]) =~= items.skip(1));
    }
    assert(seq![items[0]] + items.skip(1) == items);
}

proof fn pushed_is_distinct(items: Seq<HistoryView>, item: HistoryView)
    requires
        items.no_duplicates(),
    ensures
        pushed(items, item).no_duplicates(),
        pushed(items, item).len() <= MAX_HISTORY,
{
    without_properties(items, item);
    let rest = without(items, item);
    let all = seq![item] + rest;
    assert forall|i: int, j: int| 0 <= i < j < all.len() implies all[i] != all[j] by {
        if i == 0 {
            assert(all[j] == rest[j - 1]);
        } else {
            assert(all[i] == rest[i - 1] && all[j] == rest[j - 1]);
        }
    }
}

/// What the history holds after items were sent, one after the other.
pub open spec fn after_sending(items: Seq<HistoryView>) -> Seq<HistoryView>
    decreases items.len(),
{
    if items.len() == 0 {
        items
    } else {
        pushed(after_sending(items.drop_last()), items.last())
    }
}

/// All items that were ever sent, by when they were sent last, the newest first.
pub open spec fn by_last_use(items: Seq<HistoryView>) -> Seq<HistoryView>
    decreases items.len(),
{
    if items.len() == 0 {
        items
    } else {
        seq![items.last()] + without(by_last_use(items.drop_last()), items.last())
    }
}

proof fn by_last_use_is_distinct(items: Seq<HistoryView>)
    ensures
        by_last_use(items).no_duplicates(),
    decreases items.len(),
{
    if items.len() > 0 {
        by_last_use_is_distinct(items.drop_last());
        let rest = by_last_use(items.drop_last());
        without_properties(rest, items.last());
        let kept = without(rest, items.last());
        let all = by_last_use(items);
        assert forall|i: int, j: int| 0 <= i < j < all.len() implies all[i] != all[j] by {
            if i == 0 {
                assert(all[j] == kept[j - 1]);
            } else {
                assert(all[i] == kept[i - 1] && all[j] == kept[j - 1]);
            }
        }
    }
}

proof fn without_concat(a: Seq<HistoryView>, b: Seq<HistoryView>, item: HistoryView)
    ensures
        without(a + b, item) == without(a, item) + without(b, item),
    decreases b.len(),
{
    if b.len() == 0 {
        assert(a + b == a);
    } else {
        assert((a + b).drop_last() == a + b.drop_last());
        without_concat(a, b.drop_last(), item);
        assert((without(a, item) + without(b.drop_last(), item)).push(b.last()) == without(a, item)
            + without(b.drop_last(), item).push(b.last()));
    }
}

proof fn without_one(items: Seq<HistoryView>, item: HistoryView)
    requires
        items.no_duplicates(),
        items.contains(item),
    ensures
        without(items, item).len() == items.len() - 1,
    decreases items.len(),
{
    let front = items.drop_last();
    if items.last() == item {
        assert(!front.contains(item)) by {
            if front.contains(item) {
                let k = choose|k: int| 0 <= k < front.len() && front[k] == item;
                assert(items[k] == items[items.len() - 1]);
            }
        }
        without_properties(front, item);
    } else {
        let k = choose|k: int| 0 <= k < items.len() && items[k] == item;
        assert(front[k] == item);
        assert(front.no_duplicates());
        without_one(front, item);
    }
}

/// The history holds the last items that were sent, each once, the newest first, and no more
/// than fit.
pub proof fn history_keeps_the_latest(items: Seq<HistoryView>)
    ensures
        after_sending(items) == first_items(by_last_use(items), MAX_HISTORY as nat),
        after_sending(items).no_duplicates(),
    decreases items.len(),
{
    by_last_use_is_distinct(items);
    if items.len() > 0 {
        let item = items.last();
        let earlier = items.drop_last();
        history_keeps_the_latest(earlier);
        by_last_use_is_distinct(earlier);
        let full = by_last_use(earlier);
        let held = after_sending(earlier);
        if full.len() > MAX_HISTORY {
            let rest = full.skip(MAX_HISTORY as int);
            assert(full == held + rest);
            without_concat(held, rest, item);
            without_properties(held, item);
            if held.contains(item) {
                without_one(held, item);
            }
            let a = seq![item] + without(held, item);
            let b = seq![item] + without(full, item);
            assert(b == a + without(rest, item));
            if held.contains(item) {
                assert(a.len() == MAX_HISTORY);
                assert(!rest.contains(item)) by {
                    if rest.contains(item) {
                        let j = choose|j: int| 0 <= j < rest.len() && rest[j] == item;
                        let i = choose|i: int| 0 <= i < held.len() && held[i] == item;
                        assert(full[i] == item);
                        assert(full[MAX_HISTORY + j] == item);
                    }
                }
                without_properties(rest, item);
                assert(b.take(MAX_HISTORY as int) == a);
            } else {
                assert(a.len() == MAX_HISTORY + 1);
                assert(b.take(MAX_HISTORY as int) == a.take(MAX_HISTORY as int));
            }
        }
    }
}

/// The text with its line breaks made spaces.
pub open spec fn one_line(text: Seq<char>) -> Seq<char> {
    Seq::new(
        text.len(),
        |i: int|
            if text[i] == '\r' || text[i] == '\n' {
                ' '
            } else {
                text[i]
            },
    )
}

/// A text of bounded length; an ellipsis stands for what is left out.
pub open spec fn shortened(text: Seq<char>) -> Seq<char> {
    if text.len() <= PREVIEW_CHARS {
        text
    } else {
        text.take(PREVIEW_CHARS as int).push('…')
    }
}

pub open spec fn mode_label(mode: SendMode) -> Seq<char> {
    match mode {
        SendMode::Text => "文本"@,
        SendMode::Hex => "HEX"@,
    }
}

/// How the history menu shows an item.
pub fn history_preview(item: &HistoryItem) -> (preview: String)
    ensures
        preview@ == mode_label(item.mode) + "  "@ + shortened(one_line(item.input@)),
{
    let mut chars = chars_of(item.input.as_str());
    let mut i: usize = 0;
    while i < chars.len()
        invariant
            i <= chars.len(),
            chars@.len() == item.input@.len(),
            forall|k: int| 0 <= k < i ==> #[trigger] chars@[k] == one_line(item.input@)[k],
            forall|k: int| i <= k < chars@.len() ==> #[trigger] chars@[k] == item.input@[k],
        decreases chars.len() - i,
    {
        let c = chars[i];
        if c == '\r' || c == '\n' {
            chars.set(i, ' ');
        }
        i += 1;
    }
    assert(chars@ =~= one_line(item.input@));
    let clipped = chars.len() > PREVIEW_CHARS;
    if clipped {
        chars.truncate(PREVIEW_CHARS);
        chars.push('…');
    }
    let mut preview = item.mode.label().to_owned();
    preview.append("  ");
    preview.append(string_of(chars.as_slice()).as_str());
    preview
}

/// A preview is a single line of bounded length, however long the item is.
pub proof fn previews_are_short_lines(item: HistoryView)
    ensures
        ({
            let preview = mode_label(item.mode) + "  "@ + shortened(one_line(item.input));
            &&& preview.len() <= 3 + 2 + PREVIEW_CHARS + 1
            &&& !preview.contains('\r')
            &&& !preview.contains('\n')
        }),
{
    reveal_strlit("文本");
    reveal_strlit("HEX");
    reveal_strlit("  ");
    let line = one_line(item.input);
    let short = shortened(line);
    assert forall|i: int| 0 <= i < short.len() implies #[trigger] short[i] != '\r' && short[i]
        != '\n' by {
        if i < line.len() && i < PREVIEW_CHARS {
            assert(short[i] == line[i]);
        }
    }
}

} // verus!
