use escom::highlight::{
    parse_color, Color, HighlightConfig, HighlightRuleConfig, HighlightRules, MatchMode,
};

fn rule(name: &str, pattern: &str) -> HighlightRuleConfig {
    HighlightRuleConfig {
        name: name.to_owned(),
        pattern: pattern.to_owned(),
        ..Default::default()
    }
}

fn config(rules: Vec<HighlightRuleConfig>) -> HighlightConfig {
    HighlightConfig {
        rules,
        ..Default::default()
    }
}

fn compile(rules: Vec<HighlightRuleConfig>) -> Result<HighlightRules, String> {
    HighlightRules::compile_config("highlight.toml".to_owned(), config(rules))
}

#[test]
fn contains_rules_honor_case_sensitivity_and_colors() {
    let rules = compile(vec![HighlightRuleConfig {
        case_sensitive: true,
        foreground: Some("#112233".to_owned()),
        background: Some("#44556677".to_owned()),
        ..rule("ready", "READY")
    }])
    .unwrap();

    assert!(rules.style_for("READY now").is_some());
    assert!(rules.style_for("ready now").is_none());
    let style = rules.style_for("READY").unwrap();
    assert_eq!(
        style.foreground,
        Some(Color {
            red: 0x11,
            green: 0x22,
            blue: 0x33,
            alpha: 0xFF
        })
    );
    assert_eq!(
        style.background,
        Some(Color {
            red: 0x44,
            green: 0x55,
            blue: 0x66,
            alpha: 0x77
        })
    );
}

#[test]
fn invalid_rules_report_actionable_errors() {
    let bad_regex = HighlightRuleConfig {
        mode: MatchMode::Regex,
        foreground: Some("#FFFFFF".to_owned()),
        ..rule("broken", "(")
    };
    assert!(compile(vec![bad_regex]).unwrap_err().contains("broken"));

    let bad_color = HighlightRuleConfig {
        foreground: Some("red".to_owned()),
        ..rule("color", "x")
    };
    assert!(compile(vec![bad_color]).unwrap_err().contains("#RRGGBB"));
}

#[test]
fn every_error_of_a_rule_is_told() {
    let nameless = HighlightRuleConfig {
        underline: true,
        ..rule("  ", "x")
    };
    assert_eq!(
        compile(vec![nameless]).unwrap_err(),
        "第 1 条高亮规则缺少 name"
    );
    let empty = HighlightRuleConfig {
        underline: true,
        ..rule(" a ", "")
    };
    assert_eq!(
        compile(vec![empty]).unwrap_err(),
        "高亮规则“a”的 pattern 不能为空"
    );
    assert_eq!(
        compile(vec![rule("a", "x")]).unwrap_err(),
        "高亮规则“a”至少需要 foreground、background 或 underline"
    );
    let bad_background = HighlightRuleConfig {
        background: Some("#12345".to_owned()),
        ..rule("a", "x")
    };
    assert_eq!(
        compile(vec![bad_background]).unwrap_err(),
        "高亮规则“a”的 background 必须是 #RRGGBB 或 #RRGGBBAA"
    );
    let old = HighlightConfig {
        version: 2,
        rules: Vec::new(),
    };
    assert_eq!(
        HighlightRules::compile_config(String::new(), old).unwrap_err(),
        "不支持的高亮配置版本 2，当前支持版本 1"
    );
}

#[test]
fn first_matching_rule_decides() {
    let underlined = HighlightRuleConfig {
        underline: true,
        ..rule("errors", "error")
    };
    let colored = HighlightRuleConfig {
        foreground: Some("#010203".to_owned()),
        ..rule("all", "e")
    };
    let switched_off = HighlightRuleConfig {
        enabled: false,
        ..rule("", "")
    };
    let rules = compile(vec![switched_off, underlined, colored]).unwrap();

    assert_eq!(rules.len(), 2);
    assert!(!rules.is_empty());
    assert_eq!(rules.path(), "highlight.toml");
    assert!(rules.style_for("ERROR").unwrap().underline);
    let style = rules.style_for("e").unwrap();
    assert!(!style.underline);
    assert!(style.foreground.is_some());
    assert!(rules.style_for("x").is_none());
}

#[test]
fn contains_rules_take_patterns_literally() {
    let rules = compile(vec![HighlightRuleConfig {
        underline: true,
        ..rule("dots", "a.c")
    }])
    .unwrap();
    assert!(rules.style_for("abc").is_none());
    assert!(rules.style_for("xA.Cx").is_some());
}

#[test]
fn colors_are_six_or_eight_digits() {
    assert_eq!(
        parse_color(" #FfA010 "),
        Some(Color {
            red: 255,
            green: 0xA0,
            blue: 0x10,
            alpha: 255
        })
    );
    assert_eq!(parse_color("#+1+2+3"), None);
    assert_eq!(parse_color("112233"), None);
    assert_eq!(parse_color("#1122"), None);
    assert_eq!(parse_color("#中中"), None);
    assert_eq!(parse_color(""), None);
}

#[test]
fn empty_rules_match_nothing() {
    let rules = HighlightRules::empty("p".to_owned());
    assert!(rules.is_empty());
    assert!(rules.style_for("anything").is_none());
}

#[test]
fn regex_rules_mark_whole_rows() {
    let errors = HighlightRuleConfig {
        mode: MatchMode::Regex,
        background: Some("#E5484D40".to_owned()),
        ..rule("错误", r"\b(ERROR|FATAL|PANIC|FAILED|FAILURE)\b|错误|失败")
    };
    let rules = compile(vec![errors]).unwrap();
    let style = rules.style_for("fatal: device failed").unwrap();
    assert_eq!(style.foreground, None);
    assert_eq!(style.background.unwrap().alpha, 0x40);
    assert!(rules.style_for("everything is fine").is_none());
}
