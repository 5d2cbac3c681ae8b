//! Highlight rules: the first rule that matches a row decides how the row looks.

use vstd::prelude::*;

use crate::chars::{decimal, decimal_text, string_of, trim, trimmed};
use crate::formatting::input::{digit_number, digit_value, is_hex_digit};
use crate::pattern::{
    compile, escape, is_match, regex_escaped, regex_ignores_case, regex_ranges,
    regex_refused, regex_source,
};

pub mod laws;

verus! {

pub const HIGHLIGHT_CONFIG_VERSION: u32 = 1;

pub const HIGHLIGHT_FILE_NAME: &'static str = "highlight.toml";

#[derive(Debug, Clone, Copy, PartialEq, Eq, Structural)]
pub enum MatchMode {
    Contains,
    Regex,
}

/// A rule as it is written down.
#[derive(Debug)]
pub struct HighlightRuleConfig {
    pub name: String,
    pub enabled: bool,
    pub mode: MatchMode,
    pub pattern: String,
    pub case_sensitive: bool,
    pub foreground: Option<String>,
    pub background: Option<String>,
    pub underline: bool,
}

impl Default for HighlightRuleConfig {
    fn default() -> (rule: Self)
        ensures
            rule.name@ == Seq::<char>::empty(),
            rule.enabled,
            rule.mode == MatchMode::Contains,
            rule.pattern@ == Seq::<char>::empty(),
            !rule.case_sensitive,
            rule.foreground is None,
            rule.background is None,
            !rule.underline,
    {
        HighlightRuleConfig {
            name: String::new(),
            enabled: true,
            mode: MatchMode::Contains,
            pattern: String::new(),
            case_sensitive: false,
            foreground: None,
            background: None,
            underline: false,
        }
    }
}

#[derive(Debug)]
pub struct HighlightConfig {
    pub version: u32,
    pub rules: Vec<HighlightRuleConfig>,
}

impl Default for HighlightConfig {
    fn default() -> (config: Self)
        ensures
            config.version == HIGHLIGHT_CONFIG_VERSION,
            config.rules@ == Seq::<HighlightRuleConfig>::empty(),
    {
        HighlightConfig { version: HIGHLIGHT_CONFIG_VERSION, rules: Vec::new() }
    }
}

/// A colour; `alpha` is its opacity.
#[derive(Debug, Clone, Copy, PartialEq, Eq, Structural)]
pub struct Color {
    pub red: u8,
    pub green: u8,
    pub blue: u8,
    pub alpha: u8,
}

#[derive(Debug, Clone, Copy, PartialEq, Eq, Structural)]
pub struct HighlightStyle {
    pub foreground: Option<Color>,
    pub background: Option<Color>,
    pub underline: bool,
}

#[derive(Debug)]
pub struct CompiledRule {
    matcher: regex::Regex,
    style: HighlightStyle,
}

/// What a compiled rule looks for, and how it makes rows look.
pub struct RuleView {
    pub source: Seq<char>,
    pub ignore_case: bool,
    pub style: HighlightStyle,
}

impl CompiledRule {
    pub closed spec fn inner(self) -> RuleView {
        RuleView {
            source: regex_source(self.matcher),
            ignore_case: regex_ignores_case(self.matcher),
            style: self.style,
        }
    }
}

pub open spec fn rule_views(rules: Seq<CompiledRule>) -> Seq<RuleView> {
    Seq::new(rules.len(), |i: int| rules[i].inner())
}

/// A rule finds something in a text.
pub open spec fn rule_matches(rule: RuleView, text: Seq<char>) -> bool {
    regex_ranges(rule.source, rule.ignore_case, text).len() > 0
}

/// The style of the first rule that matches.
pub open spec fn first_style(rules: Seq<RuleView>, text: Seq<char>) -> Option<HighlightStyle>
    decreases rules.len(),
{
    if rules.len() == 0 {
        None
    } else if rule_matches(rules[0], text) {
        Some(rules[0].style)
    } else {
        first_style(rules.skip(1), text)
    }
}

/// The byte that two HEX digits at a position stand for.
pub open spec fn pair_value(hex: Seq<char>, at: int) -> u8 {
    (digit_value(hex[at]) * 16 + digit_value(hex[at + 1])) as u8
}

/// The colour that `#RRGGBB` or `#RRGGBBAA` stands for, with spaces around it.
pub open spec fn color_value(text: Seq<char>) -> Option<Color> {
    let value = trim(text);
    let hex = value.skip(1);
    if value.len() > 0 && value[0] == '#' && (hex.len() == 6 || hex.len() == 8) && forall|i: int|
        0 <= i < hex.len() ==> is_hex_digit(#[trigger] hex[i]) {
        Some(
            Color {
                red: pair_value(hex, 0),
                green: pair_value(hex, 2),
                blue: pair_value(hex, 4),
                alpha: if hex.len() == 8 {
                    pair_value(hex, 6)
                } else {
                    255
                },
            },
        )
    } else {
        None
    }
}

fn parse_pair(hex: &Vec<char>, at: usize) -> (value: u8)
    requires
        at + 1 < hex@.len(),
        is_hex_digit(hex@[at as int]),
        is_hex_digit(hex@[at + 1]),
    ensures
        value == pair_value(hex@, at as int),
{
    assert(hex@.len() == hex.len());
    let first = digit_number(hex[at]);
    let second = digit_number(hex[at + 1]);
    first * 16 + second
}

pub fn parse_color(value: &str) -> (color: Option<Color>)
    ensures
        color == color_value(value@),
{
    let mut chars = trimmed(value);
    if chars.len() == 0 || chars[0] != '#' {
        return None;
    }
    let hex = chars.split_off(1);
    assert(hex@ == trim(value@).skip(1));
    if hex.len() != 6 && hex.len() != 8 {
        return None;
    }
    let mut i: usize = 0;
    while i < hex.len()
        invariant
            i <= hex@.len(),
            hex@ == trim(value@).skip(1),
            forall|k: int| 0 <= k < i ==> is_hex_digit(#[trigger] hex@[k]),
        decreases hex@.len() - i,
    {
        let c = hex[i];
        let is_digit = ('0' <= c && c <= '9') || ('a' <= c && c <= 'f') || ('A' <= c && c <= 'F');
        if !is_digit {
            assert(!is_hex_digit(trim(value@).skip(1)[i as int]));
            return None;
        }
        i += 1;
    }
    let alpha: u8 = if hex.len() == 8 {
        parse_pair(&hex, 6)
    } else {
        255
    };
    Some(
        Color {
            red: parse_pair(&hex, 0),
            green: parse_pair(&hex, 2),
            blue: parse_pair(&hex, 4),
            alpha,
        },
    )
}

/// The value of a colour that may be missing; `None` if it is there and is no colour.
pub open spec fn optional_color(value: Option<String>) -> Option<Option<Color>> {
    match value {
        None => Some(None),
        Some(text) => match color_value(text@) {
            Some(color) => Some(Some(color)),
            None => None,
        },
    }
}

/// What is said of a colour that is none.
pub open spec fn color_error(name: Seq<char>, field: Seq<char>) -> Seq<char> {
    "高亮规则“"@ + name + "”的 "@ + field + " 必须是 #RRGGBB 或 #RRGGBBAA"@
}

fn parse_optional_color(value: &Option<String>, rule_name: &str, field_name: &str) -> (result: Result<
    Option<Color>,
    String,
>)
    ensures
        match optional_color(*value) {
            Some(color) => result == Ok::<Option<Color>, String>(color),
            None => result matches Err(message) && message@ == color_error(
                rule_name@,
                field_name@,
            ),
        },
{
    match value {
        None => Ok(None),
        Some(text) => match parse_color(text.as_str()) {
            Some(color) => Ok(Some(color)),
            None => {
                let mut message = "高亮规则“".to_owned();
                message.append(rule_name);
                message.append("”的 ");
                message.append(field_name);
                message.append(" 必须是 #RRGGBB 或 #RRGGBBAA");
                Err(message)
            },
        },
    }
}

/// The expression that a rule looks for.
pub open spec fn rule_source(rule: HighlightRuleConfig) -> Seq<char> {
    match rule.mode {
        MatchMode::Contains => regex_escaped(rule.pattern@),
        MatchMode::Regex => rule.pattern@,
    }
}

/// What is wrong with a rule before its expression is compiled. `number` is its place in the
/// file.
pub open spec fn early_error(rule: HighlightRuleConfig, number: nat) -> Option<Seq<char>> {
    let name = trim(rule.name@);
    if name.len() == 0 {
        Some("第 "@ + decimal_text(number) + " 条高亮规则缺少 name"@)
    } else if rule.pattern@.len() == 0 {
        Some("高亮规则“"@ + name + "”的 pattern 不能为空"@)
    } else {
        None
    }
}

/// What is wrong with a rule whose expression compiles.
pub open spec fn late_error(rule: HighlightRuleConfig) -> Option<Seq<char>> {
    let name = trim(rule.name@);
    if optional_color(rule.foreground) is None {
        Some(color_error(name, "foreground"@))
    } else if optional_color(rule.background) is None {
        Some(color_error(name, "background"@))
    } else if rule.foreground is None && rule.background is None && !rule.underline {
        Some("高亮规则“"@ + name + "”至少需要 foreground、background 或 underline"@)
    } else {
        None
    }
}

/// What is said of an expression that does not compile.
pub open spec fn pattern_error(rule: HighlightRuleConfig, reason: Seq<char>) -> Seq<char> {
    "高亮规则“"@ + trim(rule.name@) + "”的表达式无效："@ + reason
}

/// How a rule makes rows look.
pub open spec fn rule_style(rule: HighlightRuleConfig) -> HighlightStyle {
    HighlightStyle {
        foreground: optional_color(rule.foreground)->0,
        background: optional_color(rule.background)->0,
        underline: rule.underline,
    }
}

/// The rule once compiled.
pub open spec fn compiled_view(rule: HighlightRuleConfig) -> RuleView {
    RuleView {
        source: rule_source(rule),
        ignore_case: !rule.case_sensitive,
        style: rule_style(rule),
    }
}

/// The rules that are switched on, compiled.
pub open spec fn enabled_views(rules: Seq<HighlightRuleConfig>) -> Seq<RuleView>
    decreases rules.len(),
{
    if rules.len() == 0 {
        Seq::empty()
    } else {
        let before = enabled_views(rules.drop_last());
        if rules.last().enabled {
            before.push(compiled_view(rules.last()))
        } else {
            before
        }
    }
}

/// A rule from what came of compiling its expression.
pub fn finish_rule(rule: &HighlightRuleConfig, compiled: Result<regex::Regex, String>) -> (result: Result<
    CompiledRule,
    String,
>)
    ensures
        match compiled {
            Err(reason) => result matches Err(message) && message@ == pattern_error(
                *rule,
                reason@,
            ),
            Ok(regex) => match late_error(*rule) {
                Some(error) => result matches Err(message) && message@ == error,
                None => result matches Ok(compiled) && compiled.inner() == (RuleView {
                    source: regex_source(regex),
                    ignore_case: regex_ignores_case(regex),
                    style: rule_style(*rule),
                }),
            },
        },
{
    let name = string_of(trimmed(rule.name.as_str()).as_slice());
    let matcher = match compiled {
        Ok(matcher) => matcher,
        Err(reason) => {
            let mut message = "高亮规则“".to_owned();
            message.append(name.as_str());
            message.append("”的表达式无效：");
            message.append(reason.as_str());
            return Err(message);
        },
    };
    let foreground = match parse_optional_color(&rule.foreground, name.as_str(), "foreground") {
        Ok(color) => color,
        Err(message) => return Err(message),
    };
    let background = match parse_optional_color(&rule.background, name.as_str(), "background") {
        Ok(color) => color,
        Err(message) => return Err(message),
    };
    if foreground.is_none() && background.is_none() && !rule.underline {
        let mut message = "高亮规则“".to_owned();
        message.append(name.as_str());
        message.append("”至少需要 foreground、background 或 underline");
        return Err(message);
    }
    Ok(
        CompiledRule {
            matcher,
            style: HighlightStyle { foreground, background, underline: rule.underline },
        },
    )
}

/// The expression of a rule was refused, and the message says why.
pub open spec fn pattern_fails(rule: HighlightRuleConfig, message: Seq<char>) -> bool {
    exists|reason: Seq<char>|
        {
            &&& message == #[trigger] pattern_error(rule, reason)
            &&& regex_refused(rule_source(rule), !rule.case_sensitive, reason)
        }
}

/// The rule at position `index` failed, and none before it.
pub open spec fn fails_at(config: HighlightConfig, index: int, message: Seq<char>) -> bool {
    let rule = config.rules@[index];
    &&& 0 <= index < config.rules@.len()
    &&& rule.enabled
    &&& forall|i: int|
        0 <= i < index && (#[trigger] config.rules@[i]).enabled ==> early_error(
            config.rules@[i],
            (i + 1) as nat,
        ) is None && late_error(config.rules@[i]) is None
    &&& match early_error(rule, (index + 1) as nat) {
        Some(error) => message == error,
        None => pattern_fails(rule, message) || (late_error(rule) matches Some(error) && message
            == error),
    }
}

/// The message tells what is wrong with the first rule that fails.
pub open spec fn some_rule_fails(config: HighlightConfig, message: Seq<char>) -> bool {
    exists|index: int| #[trigger] fails_at(config, index, message)
}

pub open spec fn version_error(version: u32) -> Seq<char> {
    "不支持的高亮配置版本 "@ + decimal_text(version as nat) + "，当前支持版本 "@
        + decimal_text(HIGHLIGHT_CONFIG_VERSION as nat)
}

#[derive(Debug)]
pub struct HighlightRules {
    path: String,
    rules: Vec<CompiledRule>,
}

impl HighlightRules {
    pub closed spec fn inner(self) -> Seq<RuleView> {
        rule_views(self.rules@)
    }

    pub closed spec fn spec_path(self) -> Seq<char> {
        self.path@
    }

    pub fn empty(path: String) -> (rules: Self)
        ensures
            rules.spec_path() == path@,
            rules.inner() == Seq::<RuleView>::empty(),
    {
        let rules = HighlightRules { path, rules: Vec::new() };
        assert(rules.inner() =~= Seq::<RuleView>::empty());
        rules
    }

    /// Compiles the rules that are switched on, or tells what is wrong with the first one that
    /// fails. Whether an expression compiles is up to the regular expression library.
    pub fn compile_config(path: String, config: HighlightConfig) -> (result: Result<Self, String>)
        ensures
            config.version != HIGHLIGHT_CONFIG_VERSION ==> (result matches Err(message) && message@
                == version_error(config.version)),
            config.version == HIGHLIGHT_CONFIG_VERSION ==> match result {
                Ok(rules) => {
                    &&& rules.spec_path() == path@
                    &&& rules.inner() == enabled_views(config.rules@)
                    &&& forall|i: int|
                        0 <= i < config.rules@.len() && (#[trigger] config.rules@[i]).enabled
                            ==> early_error(config.rules@[i], (i + 1) as nat) is None
                            && late_error(config.rules@[i]) is None
                },
                Err(message) => some_rule_fails(config, message@),
            },
    {
        if config.version != HIGHLIGHT_CONFIG_VERSION {
            let mut message = "不支持的高亮配置版本 ".to_owned();
            message.append(decimal(config.version as u64).as_str());
            message.append("，当前支持版本 ");
            message.append(decimal(HIGHLIGHT_CONFIG_VERSION as u64).as_str());
            return Err(message);
        }
        let mut rules: Vec<CompiledRule> = Vec::new();
        assert(rule_views(rules@) =~= Seq::<RuleView>::empty());
        assert(config.rules@.take(0) =~= Seq::<HighlightRuleConfig>::empty());
        let mut index: usize = 0;
        while index < config.rules.len()
            invariant
                index <= config.rules@.len(),
                config.version == HIGHLIGHT_CONFIG_VERSION,
                rule_views(rules@) == enabled_views(config.rules@.take(index as int)),
                forall|i: int|
                    0 <= i < index && (#[trigger] config.rules@[i]).enabled ==> early_error(
                        config.rules@[i],
                        (i + 1) as nat,
                    ) is None && late_error(config.rules@[i]) is None,
            decreases config.rules@.len() - index,
        {
            let rule = &config.rules[index];
            let number: usize = index + 1;
            let ghost at = index as int;
            assert(config.rules@.take(at + 1).drop_last() == config.rules@.take(at));
            if rule.enabled {
                match Self::compile_rule(rule, number) {
                    Ok(compiled) => {
                        let ghost before = rules@;
                        rules.push(compiled);
                        assert(rule_views(rules@) =~= rule_views(before).push(
                            compiled_view(*rule),
                        ));
                    },
                    Err(message) => {
                        assert(fails_at(config, at, message@));
                        assert(some_rule_fails(config, message@));
                        return Err(message);
                    },
                }
            }
            index += 1;
        }
        assert(config.rules@.take(index as int) == config.rules@);
        Ok(HighlightRules { path, rules })
    }

    /// Compiles one rule. `number` is its place in the file.
    fn compile_rule(rule: &HighlightRuleConfig, number: usize) -> (result: Result<
        CompiledRule,
        String,
    >)
        ensures
            match early_error(*rule, number as nat) {
                Some(error) => result matches Err(message) && message@ == error,
                None => match result {
                    Ok(compiled) => compiled.inner() == compiled_view(*rule) && late_error(*rule)
                        is None,
                    Err(message) => pattern_fails(*rule, message@) || (late_error(
                        *rule,
                    ) matches Some(error) && message@ == error),
                },
            },
    {
        let name = string_of(trimmed(rule.name.as_str()).as_slice());
        if name.as_str().is_empty() {
            let mut message = "第 ".to_owned();
            message.append(decimal(number as u64).as_str());
            message.append(" 条高亮规则缺少 name");
            return Err(message);
        }
        if rule.pattern.as_str().is_empty() {
            let mut message = "高亮规则“".to_owned();
            message.append(name.as_str());
            message.append("”的 pattern 不能为空");
            return Err(message);
        }
        let source = match rule.mode {
            MatchMode::Contains => escape(rule.pattern.as_str()),
            MatchMode::Regex => rule.pattern.clone(),
        };
        let compiled = compile(source.as_str(), !rule.case_sensitive);
        let ghost outcome = compiled;
        let result = finish_rule(rule, compiled);
        assert(outcome matches Err(reason) ==> result matches Err(message) && message@
            == pattern_error(*rule, reason@));
        result
    }

    pub fn len(&self) -> (len: usize)
        ensures
            len == self.inner().len(),
    {
        self.rules.len()
    }

    pub fn is_empty(&self) -> (empty: bool)
        ensures
            empty == (self.inner().len() == 0),
    {
        self.rules.is_empty()
    }

    pub fn path(&self) -> (path: &str)
        ensures
            path@ == self.spec_path(),
    {
        self.path.as_str()
    }

    /// How a row with this text looks: the first rule that matches decides.
    pub fn style_for(&self, text: &str) -> (style: Option<HighlightStyle>)
        ensures
            style == first_style(self.inner(), text@),
    {
        let ghost views = self.inner();
        let mut i: usize = 0;
        assert(views.skip(0) =~= views);
        while i < self.rules.len()
            invariant
                i <= self.rules@.len(),
                views == self.inner(),
                first_style(views, text@) == first_style(views.skip(i as int), text@),
            decreases self.rules@.len() - i,
        {
            let rule = &self.rules[i];
            assert(views.skip(i as int)[0] == rule.inner());
            if is_match(&rule.matcher, text) {
                return Some(rule.style);
            }
            assert(views.skip(i as int).skip(1) =~= views.skip(i + 1));
            i += 1;
        }
        None
    }
}

/// A rule that matches a row has no say in its style where an earlier one matches, too.
pub proof fn earlier_rules_win(rules: Seq<RuleView>, text: Seq<char>, first: int)
    requires
        0 <= first < rules.len(),
        rule_matches(rules[first], text),
        forall|i: int| 0 <= i < first ==> !rule_matches(#[trigger] rules[i], text),
    ensures
        first_style(rules, text) == Some(rules[first].style),
    decreases rules.len(),
{
    if first > 0 {
        assert(!rule_matches(rules[0], text));
        assert forall|i: int| 0 <= i < first - 1 implies !rule_matches(
            #[trigger] rules.skip(1)[i],
            text,
        ) by {
            assert(rules.skip(1)[i] == rules[i + 1]);
        }
        earlier_rules_win(rules.skip(1), text, first - 1);
    }
}

} // verus!
