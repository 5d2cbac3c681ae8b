//! What highlighting rules do, said of texts, patterns and colours.

use vstd::prelude::*;
use vstd::utf8::encode_utf8;

use crate::chars::{
    is_space, text_bytes_is_encoded_len, trim, trimming_takes_the_spaces_at_both_ends,
};
use crate::formatting::input::is_hex_digit;
use crate::formatting::sending::{digits_stand_for, stands_for};
use crate::highlight::{
    color_value, compiled_view, early_error, enabled_views, first_style, late_error, rule_matches,
    HighlightRuleConfig, MatchMode, RuleView,
};
use crate::pattern::{regex_escaped, words_are_found_where_they_occur};
use crate::search::laws::{stands_at, word_is_somewhere};

verus! {

/// A colour is a number sign and six or eight HEX digits, two for each of red, green, blue and, if
/// it is there, the opacity; without it a colour is opaque. Spaces around it do not matter.
pub proof fn colours_are_pairs_of_digits(text: Seq<char>, hex: Seq<char>)
    requires
        trim(text) == seq!['#'] + hex,
        hex.len() == 6 || hex.len() == 8,
        forall|i: int| 0 <= i < hex.len() ==> is_hex_digit(#[trigger] hex[i]),
    ensures
        ({
            let color = color_value(text)->0;
            &&& color_value(text) is Some
            &&& stands_for(hex[0], color.red as int / 16)
            &&& stands_for(hex[1], color.red as int % 16)
            &&& stands_for(hex[2], color.green as int / 16)
            &&& stands_for(hex[3], color.green as int % 16)
            &&& stands_for(hex[4], color.blue as int / 16)
            &&& stands_for(hex[5], color.blue as int % 16)
            &&& hex.len() == 6 ==> color.alpha == 255
            &&& hex.len() == 8 ==> stands_for(hex[6], color.alpha as int / 16) && stands_for(
                hex[7],
                color.alpha as int % 16,
            )
        }),
{
    assert(trim(text).skip(1) == hex);
    assert forall|i: int| 0 <= i < hex.len() implies #[trigger] stands_for(
        hex[i],
        crate::formatting::input::digit_value(hex[i]),
    ) by {
        digits_stand_for(hex[i]);
    }
    assert(stands_for(hex[0], crate::formatting::input::digit_value(hex[0])));
    assert(stands_for(hex[1], crate::formatting::input::digit_value(hex[1])));
    assert(stands_for(hex[2], crate::formatting::input::digit_value(hex[2])));
    assert(stands_for(hex[3], crate::formatting::input::digit_value(hex[3])));
    assert(stands_for(hex[4], crate::formatting::input::digit_value(hex[4])));
    assert(stands_for(hex[5], crate::formatting::input::digit_value(hex[5])));
    if hex.len() == 8 {
        assert(stands_for(hex[6], crate::formatting::input::digit_value(hex[6])));
        assert(stands_for(hex[7], crate::formatting::input::digit_value(hex[7])));
    }
}

/// Nothing else is a colour.
pub proof fn other_texts_are_no_colours(text: Seq<char>)
    requires
        ({
            let value = trim(text);
            ||| value.len() != 7 && value.len() != 9
            ||| value[0] != '#'
            ||| exists|i: int| 1 <= i < value.len() && !is_hex_digit(#[trigger] value[i])
        }),
    ensures
        color_value(text) is None,
{
    let value = trim(text);
    if exists|i: int| 1 <= i < value.len() && !is_hex_digit(#[trigger] value[i]) {
        let i = choose|i: int| 1 <= i < value.len() && !is_hex_digit(#[trigger] value[i]);
        assert(value.skip(1)[i - 1] == value[i]);
    }
}

/// The rules that are switched on are used, in their order, and no others.
pub proof fn enabled_rules_are_used(rules: Seq<HighlightRuleConfig>)
    ensures
        enabled_views(rules) == rules.filter(|rule: HighlightRuleConfig| rule.enabled).map_values(
            |rule: HighlightRuleConfig| compiled_view(rule),
        ),
    decreases rules.len(),
{
    reveal(Seq::filter);
    if rules.len() > 0 {
        enabled_rules_are_used(rules.drop_last());
    }
    assert(enabled_views(rules) == rules.filter(
        |rule: HighlightRuleConfig| rule.enabled,
    ).map_values(|rule: HighlightRuleConfig| compiled_view(rule)));
}

/// A rule regards case if it says so, and looks for its pattern as an expression or as it stands.
pub proof fn rules_look_for_their_pattern(rule: HighlightRuleConfig)
    ensures
        compiled_view(rule).ignore_case == !rule.case_sensitive,
        rule.mode == MatchMode::Regex ==> compiled_view(rule).source == rule.pattern@,
        rule.mode == MatchMode::Contains ==> compiled_view(rule).source == regex_escaped(
            rule.pattern@,
        ),
        compiled_view(rule).style.underline == rule.underline,
        rule.foreground is None ==> compiled_view(rule).style.foreground is None,
        rule.background is None ==> compiled_view(rule).style.background is None,
        rule.foreground matches Some(text) ==> (color_value(text@) is Some ==> compiled_view(
            rule,
        ).style.foreground == color_value(text@)),
        rule.background matches Some(text) ==> (color_value(text@) is Some ==> compiled_view(
            rule,
        ).style.background == color_value(text@)),
{
}

/// A rule that looks for its pattern as it stands, with regard to case, matches exactly the texts
/// that hold the pattern somewhere.
pub proof fn rules_match_where_the_pattern_stands(rule: HighlightRuleConfig, text: Seq<char>)
    requires
        rule.mode == MatchMode::Contains,
        rule.case_sensitive,
        rule.pattern@.len() > 0,
        encode_utf8(text).len() <= usize::MAX,
    ensures
        rule_matches(compiled_view(rule), text) <==> exists|n: int| #[trigger]
            stands_at(rule.pattern@, text, n),
{
    words_are_found_where_they_occur(rule.pattern@, text);
    text_bytes_is_encoded_len(text);
    word_is_somewhere(rule.pattern@, text);
}

/// A text has the style of the first rule that matches it, and none if no rule does.
pub proof fn the_first_match_decides(rules: Seq<RuleView>, text: Seq<char>)
    ensures
        match first_style(rules, text) {
            Some(style) => exists|k: int|
                {
                    &&& 0 <= k < rules.len()
                    &&& rule_matches(#[trigger] rules[k], text)
                    &&& rules[k].style == style
                    &&& forall|i: int| 0 <= i < k ==> !rule_matches(#[trigger] rules[i], text)
                },
            None => forall|i: int| 0 <= i < rules.len() ==> !rule_matches(#[trigger] rules[i], text),
        },
    decreases rules.len(),
{
    if rules.len() > 0 {
        if rule_matches(rules[0], text) {
            assert(rules[0].style == first_style(rules, text)->0);
        } else {
            let rest = rules.skip(1);
            the_first_match_decides(rest, text);
            match first_style(rest, text) {
                Some(style) => {
                    let k = choose|k: int|
                        {
                            &&& 0 <= k < rest.len()
                            &&& rule_matches(#[trigger] rest[k], text)
                            &&& rest[k].style == style
                            &&& forall|i: int|
                                0 <= i < k ==> !rule_matches(#[trigger] rest[i], text)
                        };
                    assert(rules[k + 1] == rest[k]);
                    assert forall|i: int| 0 <= i < k + 1 implies !rule_matches(
                        #[trigger] rules[i],
                        text,
                    ) by {
                        if i > 0 {
                            assert(rest[i - 1] == rules[i]);
                        }
                    }
                },
                None => {
                    assert forall|i: int| 0 <= i < rules.len() implies !rule_matches(
                        #[trigger] rules[i],
                        text,
                    ) by {
                        if i > 0 {
                            assert(rest[i - 1] == rules[i]);
                        }
                    }
                },
            }
        }
    }
}

/// A rule is in order if it has a name and a pattern, its colours are colours, and it does
/// something to the text; otherwise it is refused.
pub proof fn rules_that_are_in_order(rule: HighlightRuleConfig, number: nat)
    ensures
        early_error(rule, number) is None <==> rule.pattern@.len() > 0 && exists|i: int|
            0 <= i < rule.name@.len() && !is_space(#[trigger] rule.name@[i]),
        late_error(rule) is None <==> {
            &&& rule.foreground matches Some(text) ==> color_value(text@) is Some
            &&& rule.background matches Some(text) ==> color_value(text@) is Some
            &&& rule.underline || rule.foreground is Some || rule.background is Some
        },
{
    let name = rule.name@;
    let (start, end) = trimming_takes_the_spaces_at_both_ends(name);
    if start < end {
        assert(!is_space(name[start]));
    }
}

} // verus!
