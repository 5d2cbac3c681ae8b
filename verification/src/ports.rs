//! The order in which ports are offered: COM ports by number, then the others by name.

use vstd::prelude::*;

use crate::chars::{
    chars_of, decimal_digits_stand_for_the_number, decimal_text, number_of, string_of,
};
use crate::model::{decimal_value, decimal_value_grows, is_digit};
use crate::serial_worker::texts;

verus! {

/// The upper case of an ASCII letter; other characters stay.
pub open spec fn upper_char(c: char) -> char {
    if 'a' <= c <= 'z' {
        (c as int - 32) as char
    } else {
        c
    }
}

pub open spec fn upper(text: Seq<char>) -> Seq<char> {
    Seq::new(text.len(), |i: int| upper_char(text[i]))
}

pub open spec fn without_plus(text: Seq<char>) -> Seq<char> {
    if text.len() > 0 && text[0] == '+' {
        text.skip(1)
    } else {
        text
    }
}

pub open spec fn all_digits(text: Seq<char>) -> bool {
    forall|i: int| 0 <= i < text.len() ==> is_digit(#[trigger] text[i])
}

/// A number as it may be written: digits, with a plus sign before them or not.
pub open spec fn written_number(text: Seq<char>) -> Option<u32> {
    let digits = without_plus(text);
    if digits.len() > 0 && all_digits(digits) && decimal_value(digits) <= u32::MAX {
        Some(decimal_value(digits) as u32)
    } else {
        None
    }
}

/// The number in a name such as `COM7`; names without one come last.
pub open spec fn port_number(name: Seq<char>) -> u32 {
    let name = upper(name);
    if name.len() >= 3 && name.take(3) == seq!['C', 'O', 'M'] {
        match written_number(name.skip(3)) {
            Some(number) => number,
            None => u32::MAX,
        }
    } else {
        u32::MAX
    }
}

/// The order of texts, by their first difference.
pub open spec fn text_le(a: Seq<char>, b: Seq<char>) -> bool
    decreases a.len(),
{
    a.len() == 0 || b.len() > 0 && (a[0] < b[0] || a[0] == b[0] && text_le(a.skip(1), b.skip(1)))
}

/// A port comes before another, or their names differ at most in case.
pub open spec fn port_le(a: Seq<char>, b: Seq<char>) -> bool {
    port_number(a) < port_number(b) || port_number(a) == port_number(b) && text_le(
        upper(a),
        upper(b),
    )
}

/// Puts a name behind all that come before it or with it.
pub open spec fn inserted(names: Seq<Seq<char>>, name: Seq<char>) -> Seq<Seq<char>>
    decreases names.len(),
{
    if names.len() == 0 || port_le(names.last(), name) {
        names.push(name)
    } else {
        inserted(names.drop_last(), name).push(names.last())
    }
}

/// Names in the order of their ports. Of equal ones the first stays first.
pub open spec fn sorted_names(names: Seq<Seq<char>>) -> Seq<Seq<char>>
    decreases names.len(),
{
    if names.len() == 0 {
        names
    } else {
        inserted(sorted_names(names.drop_last()), names.last())
    }
}

pub fn uppercase(text: &str) -> (result: String)
    ensures
        result@ == upper(text@),
{
    let mut chars = chars_of(text);
    let mut i: usize = 0;
    while i < chars.len()
        invariant
            i <= chars.len(),
            chars.len() == text@.len(),
            forall|k: int| 0 <= k < i ==> #[trigger] chars@[k] == upper_char(text@[k]),
            forall|k: int| i <= k < chars@.len() ==> #[trigger] chars@[k] == text@[k],
        decreases chars.len() - i,
    {
        let c = chars[i];
        if 'a' <= c && c <= 'z' {
            let code: u8 = c as u8;
            chars.set(i, (code - 32) as char);
        }
        i += 1;
    }
    assert(chars@ =~= upper(text@));
    string_of(chars.as_slice())
}

fn parse_number(text: &Vec<char>) -> (number: Option<u32>)
    ensures
        number == written_number(text@),
{
    let start: usize = if text.len() > 0 && text[0] == '+' {
        1
    } else {
        0
    };
    let ghost digits = text@.skip(start as int);
    assert(text@.skip(0) == text@);
    if start == text.len() {
        return None;
    }
    let mut value: u64 = 0;
    let mut i: usize = start;
    let mut too_large = false;
    while i < text.len()
        invariant
            start <= i <= text.len(),
            digits == text@.skip(start as int),
            digits == without_plus(text@),
            forall|k: int| 0 <= k < i - start ==> is_digit(#[trigger] digits[k]),
            too_large ==> exists|k: int|
                0 <= k <= i - start && decimal_value(#[trigger] digits.take(k)) > u32::MAX,
            !too_large ==> value <= u32::MAX && value == decimal_value(digits.take(i - start)),
        decreases text.len() - i,
    {
        let c = text[i];
        assert(c == digits[i - start]);
        if c < '0' || c > '9' {
            assert(!all_digits(digits));
            return None;
        }
        if !too_large {
            assert(digits.take(i + 1 - start).drop_last() == digits.take(i - start));
            value = value * 10 + (c as u64 - '0' as u64);
            if value > u32::MAX as u64 {
                too_large = true;
            }
        }
        i += 1;
    }
    assert(digits.take(digits.len() as int) == digits);
    if too_large {
        proof {
            let k = choose|k: int|
                0 <= k <= digits.len() && decimal_value(#[trigger] digits.take(k)) > u32::MAX;
            decimal_value_grows(digits, k);
        }
        None
    } else {
        Some(value as u32)
    }
}

/// What ports are ordered by: their numbers, then their names in upper case.
pub fn port_sort_key(name: &str) -> (key: (u32, String))
    ensures
        key.0 == port_number(name@),
        key.1@ == upper(name@),
{
    let uppercase = uppercase(name);
    let mut chars = chars_of(uppercase.as_str());
    if chars.len() >= 3 && chars[0] == 'C' && chars[1] == 'O' && chars[2] == 'M' {
        assert(chars@.take(3) =~= seq!['C', 'O', 'M']);
        let rest = chars.split_off(3);
        assert(rest@ == upper(name@).skip(3));
        let number: u32 = match parse_number(&rest) {
            Some(number) => number,
            None => u32::MAX,
        };
        (number, uppercase)
    } else {
        assert(upper(name@).len() >= 3 ==> upper(name@).take(3) != seq!['C', 'O', 'M']) by {
            if upper(name@).take(3) == seq!['C', 'O', 'M'] {
                assert(upper(name@).take(3)[0] == 'C');
                assert(upper(name@).take(3)[1] == 'O');
                assert(upper(name@).take(3)[2] == 'M');
            }
        }
        (u32::MAX, uppercase)
    }
}

/// Whether a text comes before another or is the same.
pub fn text_not_after(a: &str, b: &str) -> (yes: bool)
    ensures
        yes == text_le(a@, b@),
{
    let left = chars_of(a);
    let right = chars_of(b);
    let mut i: usize = 0;
    assert(a@.skip(0) == a@);
    assert(b@.skip(0) == b@);
    while i < left.len() && i < right.len()
        invariant
            i <= left.len(),
            i <= right.len(),
            left@ == a@,
            right@ == b@,
            text_le(a@, b@) == text_le(a@.skip(i as int), b@.skip(i as int)),
        decreases left.len() - i,
    {
        assert(a@.skip(i as int).skip(1) == a@.skip(i + 1));
        assert(b@.skip(i as int).skip(1) == b@.skip(i + 1));
        if left[i] < right[i] {
            return true;
        }
        if left[i] > right[i] {
            return false;
        }
        i += 1;
    }
    i == left.len()
}

fn port_not_after(a: &str, b: &str) -> (yes: bool)
    ensures
        yes == port_le(a@, b@),
{
    let (number_a, name_a) = port_sort_key(a);
    let (number_b, name_b) = port_sort_key(b);
    number_a < number_b || number_a == number_b && text_not_after(name_a.as_str(), name_b.as_str())
}

/// Sorts ports by number and name.
pub fn sort_ports(names: Vec<String>) -> (sorted: Vec<String>)
    ensures
        texts(sorted@) == sorted_names(texts(names@)),
{
    let ghost all = texts(names@);
    let mut names = crate::lists::reversed(names);
    let ghost reversed = names@;
    let mut sorted: Vec<String> = Vec::new();
    assert(texts(sorted@) =~= sorted_names(all.take(0)));
    while names.len() > 0
        invariant
            all.len() == reversed.len(),
            names.len() <= reversed.len(),
            names@ == reversed.take(names.len() as int),
            forall|k: int| 0 <= k < all.len() ==> #[trigger] all[k] == reversed[all.len() - 1 - k]@,
            texts(sorted@) == sorted_names(all.take(all.len() - names.len())),
        decreases names.len(),
    {
        let ghost done = all.len() - names.len();
        let name = names.pop().unwrap();
        let mut at: usize = sorted.len();
        let ghost before = texts(sorted@);
        assert(before.take(at as int) == before);
        assert(before.skip(at as int) == Seq::<Seq<char>>::empty());
        assert(inserted(before, name@) + before.skip(at as int) == inserted(before, name@));
        while at > 0 && !port_not_after(sorted[at - 1].as_str(), name.as_str())
            invariant
                at <= sorted.len(),
                before == texts(sorted@),
                inserted(before, name@) == inserted(before.take(at as int), name@) + before.skip(
                    at as int,
                ),
            decreases at,
        {
            assert(before.take(at as int).last() == sorted@[at - 1]@);
            assert(before.take(at as int).drop_last() == before.take(at - 1));
            assert(inserted(before.take(at - 1), name@).push(before[at - 1]) + before.skip(at as int)
                =~= inserted(before.take(at - 1), name@) + before.skip(at - 1));
            at -= 1;
        }
        let ghost old_sorted = sorted@;
        sorted.insert(at, name);
        proof {
            if at > 0 {
                assert(before.take(at as int).last() == old_sorted[at - 1]@);
            }
            assert(inserted(before.take(at as int), name@) == before.take(at as int).push(name@));
            assert(texts(sorted@) =~= before.take(at as int).push(name@) + before.skip(at as int));
            assert(all.take(done + 1).drop_last() == all.take(done));
            assert(all.take(done + 1).last() == name@);
        }
    }
    assert(all.take(all.len() as int) == all);
    sorted
}

pub proof fn text_le_total(a: Seq<char>, b: Seq<char>)
    ensures
        text_le(a, b) || text_le(b, a),
    decreases a.len(),
{
    if a.len() > 0 && b.len() > 0 && a[0] == b[0] {
        text_le_total(a.skip(1), b.skip(1));
    }
}

pub proof fn text_le_transitive(a: Seq<char>, b: Seq<char>, c: Seq<char>)
    requires
        text_le(a, b),
        text_le(b, c),
    ensures
        text_le(a, c),
    decreases a.len(),
{
    if a.len() > 0 && b.len() > 0 && c.len() > 0 && a[0] == b[0] && b[0] == c[0] {
        text_le_transitive(a.skip(1), b.skip(1), c.skip(1));
    }
}

pub proof fn text_le_antisymmetric(a: Seq<char>, b: Seq<char>)
    requires
        text_le(a, b),
        text_le(b, a),
    ensures
        a == b,
    decreases a.len(),
{
    if a.len() > 0 && b.len() > 0 {
        text_le_antisymmetric(a.skip(1), b.skip(1));
        assert(a =~= seq![a[0]] + a.skip(1));
        assert(b =~= seq![b[0]] + b.skip(1));
    } else {
        assert(a =~= b);
    }
}

proof fn port_le_total(a: Seq<char>, b: Seq<char>)
    ensures
        port_le(a, b) || port_le(b, a),
{
    text_le_total(upper(a), upper(b));
}

proof fn port_le_transitive(a: Seq<char>, b: Seq<char>, c: Seq<char>)
    requires
        port_le(a, b),
        port_le(b, c),
    ensures
        port_le(a, c),
{
    if port_number(a) == port_number(b) && port_number(b) == port_number(c) {
        text_le_transitive(upper(a), upper(b), upper(c));
    }
}

/// None comes before one that stands earlier.
pub open spec fn in_port_order(names: Seq<Seq<char>>) -> bool {
    forall|i: int, j: int| 0 <= i < j < names.len() ==> port_le(#[trigger] names[i], #[trigger] names[j])
}

proof fn inserting_keeps_order(names: Seq<Seq<char>>, name: Seq<char>)
    requires
        in_port_order(names),
    ensures
        in_port_order(inserted(names, name)),
        inserted(names, name).len() == names.len() + 1,
        inserted(names, name).to_multiset() == names.to_multiset().insert(name),
        forall|i: int|
            0 <= i <= names.len() ==> #[trigger] inserted(names, name)[i] == name || names.contains(
                inserted(names, name)[i],
            ),
    decreases names.len(),
{
    broadcast use vstd::seq_lib::group_to_multiset_ensures;

    let all = inserted(names, name);
    if names.len() == 0 || port_le(names.last(), name) {
        assert forall|i: int, j: int| 0 <= i < j < all.len() implies port_le(
            #[trigger] all[i],
            #[trigger] all[j],
        ) by {
            if j == names.len() {
                if i < names.len() - 1 {
                    assert(port_le(names[i], names[names.len() - 1]));
                    port_le_transitive(names[i], names.last(), name);
                }
            } else {
                assert(port_le(names[i], names[j]));
            }
        }
        assert forall|i: int| 0 <= i <= names.len() implies #[trigger] all[i] == name
            || names.contains(all[i]) by {
            if i < names.len() {
                assert(all[i] == names[i]);
            }
        }
    } else {
        let front = names.drop_last();
        inserting_keeps_order(front, name);
        let rest = inserted(front, name);
        port_le_total(names.last(), name);
        assert(names == front.push(names.last()));
        assert forall|i: int, j: int| 0 <= i < j < all.len() implies port_le(
            #[trigger] all[i],
            #[trigger] all[j],
        ) by {
            if j == names.len() {
                assert(all[i] == rest[i]);
                if rest[i] != name {
                    assert(front.contains(rest[i]));
                    let k = choose|k: int| 0 <= k < front.len() && front[k] == rest[i];
                    assert(port_le(names[k], names[names.len() - 1]));
                }
            } else {
                assert(port_le(rest[i], rest[j]));
            }
        }
        assert forall|i: int| 0 <= i <= names.len() implies #[trigger] all[i] == name
            || names.contains(all[i]) by {
            if i < names.len() {
                assert(all[i] == rest[i]);
                if rest[i] != name {
                    let k = choose|k: int| 0 <= k < front.len() && front[k] == rest[i];
                    assert(names[k] == rest[i]);
                }
            } else {
                assert(all[i] == names[names.len() - 1]);
            }
        }
        assert(all.to_multiset() =~= names.to_multiset().insert(name));
    }
}

/// Sorting leaves every port in the list, as often as it was there, and puts them in order.
pub proof fn sorted_ports_are_in_order(names: Seq<Seq<char>>)
    ensures
        in_port_order(sorted_names(names)),
        sorted_names(names).to_multiset() == names.to_multiset(),
    decreases names.len(),
{
    broadcast use vstd::seq_lib::group_to_multiset_ensures;

    if names.len() > 0 {
        sorted_ports_are_in_order(names.drop_last());
        inserting_keeps_order(sorted_names(names.drop_last()), names.last());
        assert(names == names.drop_last().push(names.last()));
    }
}

/// The name of the port with a number.
pub open spec fn numbered_port(number: nat) -> Seq<char> {
    seq!['C', 'O', 'M'] + decimal_text(number)
}

proof fn a_numbered_port_has_its_number(number: u32)
    ensures
        port_number(numbered_port(number as nat)) == number,
        upper(numbered_port(number as nat)) == numbered_port(number as nat),
{
    let digits = decimal_text(number as nat);
    let name = numbered_port(number as nat);
    decimal_digits_stand_for_the_number(number as nat);
    assert forall|i: int| 0 <= i < name.len() implies upper_char(#[trigger] name[i]) == name[i] by {
        if i >= 3 {
            assert(name[i] == digits[i - 3]);
        }
    }
    assert(upper(name) == name);
    assert(name.take(3) == seq!['C', 'O', 'M']);
    assert(name.skip(3) == digits);
    assert forall|i: int| 0 <= i < digits.len() implies is_digit(#[trigger] digits[i]) by {}
    digits_have_their_value(digits);
}

proof fn digits_have_their_value(digits: Seq<char>)
    requires
        all_digits(digits),
    ensures
        decimal_value(digits) == number_of(digits),
        number_of(digits) >= 0,
    decreases digits.len(),
{
    if digits.len() > 0 {
        let before = digits.drop_last();
        assert forall|i: int| 0 <= i < before.len() implies is_digit(#[trigger] before[i]) by {
            assert(before[i] == digits[i]);
        }
        digits_have_their_value(before);
        assert(is_digit(digits[digits.len() - 1]));
    }
}

/// Ports are sorted by their numbers and not by their digits: a smaller number comes first, and a
/// name that is no numbered port comes behind all that are.
pub proof fn ports_are_sorted_by_number(a: u32, b: u32, other: Seq<char>)
    requires
        a < b < u32::MAX,
        upper(other).len() < 3 || upper(other).take(3) != seq!['C', 'O', 'M'],
    ensures
        port_le(numbered_port(a as nat), numbered_port(b as nat)),
        !port_le(numbered_port(b as nat), numbered_port(a as nat)),
        port_le(numbered_port(b as nat), other),
        !port_le(other, numbered_port(b as nat)),
{
    a_numbered_port_has_its_number(a);
    a_numbered_port_has_its_number(b);
}

/// Capitals and small letters of a name make no difference to its place.
pub proof fn capitals_do_not_matter(a: Seq<char>, b: Seq<char>)
    requires
        a.len() == b.len(),
        forall|i: int|
            0 <= i < a.len() ==> #[trigger] a[i] == b[i] || 'a' <= a[i] <= 'z' && b[i] as int
                == a[i] as int - 32,
    ensures
        port_le(a, b),
        port_le(b, a),
{
    assert forall|i: int| 0 <= i < a.len() implies #[trigger] upper(a)[i] == upper(b)[i] by {
        assert(a[i] == b[i] || 'a' <= a[i] <= 'z' && b[i] as int == a[i] as int - 32);
    }
    assert(upper(a) == upper(b));
    text_le_total(upper(a), upper(b));
}

/// Texts are in order if the first character in which they differ is, or if the first is the
/// beginning of the second.
pub proof fn texts_are_ordered_by_their_first_difference(a: Seq<char>, b: Seq<char>, n: int)
    requires
        0 <= n <= a.len(),
        n <= b.len(),
        a.take(n) == b.take(n),
    ensures
        n == a.len() ==> text_le(a, b),
        n == b.len() && n < a.len() ==> !text_le(a, b),
        n < a.len() && n < b.len() && a[n] < b[n] ==> text_le(a, b),
        n < a.len() && n < b.len() && a[n] > b[n] ==> !text_le(a, b),
    decreases n,
{
    if n > 0 {
        assert(a[0] == a.take(n)[0]);
        assert(b[0] == b.take(n)[0]);
        let (x, y) = (a.skip(1), b.skip(1));
        assert(x.take(n - 1) == a.take(n).skip(1));
        assert(y.take(n - 1) == b.take(n).skip(1));
        texts_are_ordered_by_their_first_difference(x, y, n - 1);
    }
}

} // verus!
