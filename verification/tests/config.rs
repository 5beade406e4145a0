use pigeon::config::color::{format_rgba_color, interpolate_color, parse_rgba_color, ColorConfig, GradientDirection};
use pigeon::config::history::{HistoryConfig, HistoryOverride};
use pigeon::config::overrides::NotificationStyleOverride;
use pigeon::config::profiles::{Profile, Rule, RuleAction};
use pigeon::config::style::{thickness_text, NotificationConfig, ProgressDirection, ThicknessText};
use pigeon::config::template::{NotificationTemplate, TemplateElement, TemplateError};
use pigeon::config::timeouts::{is_never, timeout_from_word, TimeoutConfig, TimeoutOverride, NEVER};
use pigeon::config::{ConfigError, PigeonConfig};
use pigeon::lexer::{LexError, Lexer, Token};
use pigeon::notification::{Notification, NotificationHints};
use pigeon::name_map::NameMap;
use pigeon::string_map::StringMap;
use pigeon::text::parse_u32;
use pigeon::cli::{set_active_profile, set_history_enabled, CliError};

fn notification(app_name: &str) -> Notification {
    Notification {
        id: 1,
        app_name: app_name.to_string(),
        app_icon: String::new(),
        summary: "Summary".to_string(),
        body: "Body".to_string(),
        img: None,
        actions: StringMap::new(),
        hints: NotificationHints::default(),
    }
}

fn rule_for(app_name: &str) -> Rule {
    Rule {
        action: None,
        app_name: Some(app_name.to_string()),
        desktop_entry: None,
        summary: None,
        body: None,
        category: None,
        stack_tag: None,
        urgency: None,
        transient: None,
        resident: None,
        hints: StringMap::new(),
        notification: NotificationStyleOverride::default(),
        history: HistoryOverride::default(),
    }
}

#[test]
fn lexer_splits_literals_and_fields() {
    let tokens = Lexer::new("Hi %name!").tokenize().unwrap();
    assert_eq!(
        tokens,
        vec![
            Token::Literal("Hi ".to_string()),
            Token::Identifier("name".to_string()),
            Token::Literal("!".to_string()),
        ]
    );
    let tokens = Lexer::new("100%% done").tokenize().unwrap();
    assert_eq!(tokens, vec![Token::Literal("100".to_string()), Token::Literal("% done".to_string())]);
    assert_eq!(Lexer::new("").tokenize().unwrap(), vec![]);
}

#[test]
fn lexer_reports_bad_markers_by_byte_position() {
    assert_eq!(Lexer::new("é%").tokenize(), Err(LexError::EmptyIdentifier { position: 2 }));
    assert_eq!(
        Lexer::new("a %1").tokenize(),
        Err(LexError::InvalidIdentifierStart { position: 2, found: '1' })
    );
}

#[test]
fn templates_resolve_detail_fields() {
    let template = NotificationTemplate::parse("[%u|%p|%c|%d|%S]").unwrap();
    let mut n = notification("app");
    assert_eq!(template.render(&n), "[||||]");
    n.hints.urgency = Some(1);
    n.hints.progress = Some(-5);
    n.hints.category = Some("im".to_string());
    n.hints.desktop_entry = Some("chat".to_string());
    n.hints.stack_tag = Some("tag".to_string());
    assert_eq!(template.render(&n), "[1|-5|im|chat|tag]");
    let runs = template.runs(&n);
    assert_eq!(runs.len(), 11);
    assert_eq!(runs[0].element, TemplateElement::Literal);
    assert_eq!(runs[1].element, TemplateElement::Details);
}

#[test]
fn template_errors_carry_their_cause() {
    assert!(matches!(NotificationTemplate::parse("%"), Err(TemplateError::Lex(LexError::EmptyIdentifier { position: 0 }))));
    assert!(!NotificationTemplate::parse("%s %b").unwrap().is_default_layout());
    assert!(NotificationTemplate::parse("%s\n%b").unwrap().is_default_layout());
}

#[test]
fn colours_parse_and_format_back() {
    assert_eq!(parse_rgba_color("#102030"), Ok([0x30, 0x20, 0x10, 0xff]));
    assert_eq!(parse_rgba_color("10203040"), Ok([0x30, 0x20, 0x10, 0x40]));
    assert_eq!(format_rgba_color([0x30, 0x20, 0x10, 0xff]), "#102030");
    assert_eq!(format_rgba_color([0x30, 0x20, 0x10, 0x40]), "#10203040");
    assert_eq!(parse_rgba_color(&format_rgba_color([1, 2, 3, 4])), Ok([1, 2, 3, 4]));
    assert_eq!(parse_rgba_color("#12345").unwrap_err(), "color must be #RRGGBB or #RRGGBBAA");
    assert_eq!(parse_rgba_color("#12345g").unwrap_err(), "color must contain only hexadecimal digits");
    assert_eq!(parse_rgba_color("#+1+2+3").unwrap_err(), "color must contain only hexadecimal digits");
    assert_eq!(parse_rgba_color("#AbCdEf"), Ok([0xef, 0xcd, 0xab, 0xff]));
}

#[test]
fn gradients_run_between_their_stops() {
    let gradient = ColorConfig::from_hex_list(&["#000000".to_string(), "#ffffff".to_string()]).unwrap();
    assert_eq!(gradient.at(0, 0, 11, 1, GradientDirection::Horizontal), [0, 0, 0, 255]);
    assert_eq!(gradient.at(10, 0, 11, 1, GradientDirection::Horizontal), [255, 255, 255, 255]);
    assert_eq!(gradient.at(5, 0, 11, 1, GradientDirection::Horizontal), [128, 128, 128, 255]);
    assert_eq!(gradient.at(5, 0, 11, 1, GradientDirection::Vertical), [0, 0, 0, 255]);
    assert_eq!(gradient.first(), [0, 0, 0, 255]);
    assert_eq!(ColorConfig::solid([1, 2, 3, 4]).at(7, 7, 9, 9, GradientDirection::Diagonal), [1, 2, 3, 4]);
    assert_eq!(
        ColorConfig::from_hex_list(&[]).err().unwrap(),
        "color array must contain at least one color"
    );
    assert_eq!(interpolate_color([0, 0, 0, 0], [255, 255, 255, 255], 1, 2), [128, 128, 128, 128]);
}

#[test]
fn timeout_overrides_replace_only_what_they_set() {
    let base = TimeoutConfig::default();
    assert_eq!(base, TimeoutConfig { low: 3000, normal: 5000, critical: NEVER });
    let o = TimeoutOverride { low: None, normal: Some(1), critical: None };
    assert!(!o.is_empty());
    assert_eq!(o.apply_to(&base), TimeoutConfig { low: 3000, normal: 1, critical: NEVER });
    assert!(TimeoutOverride::default().is_empty());
    assert_eq!(TimeoutOverride::default().apply_to(&base), base);
    assert_eq!(timeout_from_word("never"), Ok(NEVER));
    assert!(timeout_from_word("soon").is_err());
    assert!(is_never(NEVER));
}

#[test]
fn history_overrides_replace_the_setting() {
    let base = HistoryConfig { enabled: false };
    assert!(HistoryOverride::default().is_empty());
    assert!(!HistoryOverride::default().apply_to(&base).enabled);
    assert!(HistoryOverride { enabled: Some(true) }.apply_to(&base).enabled);
}

#[test]
fn empty_style_overrides_change_nothing() {
    let base = NotificationConfig::default();
    let resolved = NotificationStyleOverride::default().apply_to(&base);
    assert_eq!(resolved.corner_radius, base.corner_radius);
    assert_eq!(resolved.outer_padding, 16);
    assert_eq!(resolved.thumbnail, base.thumbnail);
    assert!(NotificationStyleOverride::default().is_empty());
    let mut o = NotificationStyleOverride::default();
    o.corner_radius = Some(2);
    o.progress.direction = Some(ProgressDirection::BottomToTop);
    let resolved = o.apply_to(&base);
    assert_eq!(resolved.corner_radius, 2);
    assert_eq!(resolved.progress.direction, ProgressDirection::BottomToTop);
}

#[test]
fn the_first_matching_rule_decides() {
    let mut profile = Profile::default();
    let mut block = rule_for("spam");
    block.action = Some(RuleAction::Block);
    let mut quiet = rule_for("spam");
    quiet.action = Some(RuleAction::Allow);
    profile.rules.push(block);
    profile.rules.push(quiet);
    assert_eq!(profile.action_for(&notification("spam")), RuleAction::Block);
    assert_eq!(profile.action_for(&notification("ham")), RuleAction::Allow);
    assert!(profile.matching_rule(&notification("ham")).is_none());
    assert!(rule_for("x").has_matcher());
    let mut empty = rule_for("x");
    empty.app_name = None;
    assert!(!empty.has_matcher());
    assert!(rule_for("spam").matches(&notification("spam")));
}

#[test]
fn presentation_comes_from_the_active_profile_and_its_rules() {
    let mut config = PigeonConfig::default();
    let presentation = config.presentation_for(&notification("app"));
    assert_eq!(presentation.action, RuleAction::Allow);
    assert_eq!(presentation.timeouts, TimeoutConfig::default());
    assert!(!presentation.history.enabled);

    let mut work = Profile::default();
    let mut rule = rule_for("chat");
    rule.action = Some(RuleAction::Block);
    rule.history = HistoryOverride { enabled: Some(true) };
    work.rules.push(rule);
    work.timeouts = TimeoutOverride { low: None, normal: Some(9), critical: None };
    config.profiles.insert_if_absent("work".to_string(), work);
    config.profile.active = "work".to_string();
    let config = config.into_loaded().ok().unwrap();

    let chat = config.presentation_for(&notification("chat"));
    assert_eq!(chat.action, RuleAction::Block);
    assert!(chat.history.enabled);
    assert_eq!(chat.timeouts.normal, 9);
    let other = config.presentation_for(&notification("other"));
    assert_eq!(other.action, RuleAction::Allow);
    assert!(!other.history.enabled);
}

#[test]
fn notifications_may_pick_their_profile_when_allowed() {
    let mut config = PigeonConfig::default();
    let mut quiet = Profile::default();
    quiet.default_action = RuleAction::Block;
    config.profiles.insert_if_absent("quiet".to_string(), quiet);
    let mut n = notification("app");
    n.hints.profile = Some("quiet".to_string());
    assert_eq!(config.presentation_for(&n).action, RuleAction::Allow);
    config.profile.allow_profile_override = true;
    assert_eq!(config.presentation_for(&n).action, RuleAction::Block);
    n.hints.profile = Some("missing".to_string());
    assert_eq!(config.presentation_for(&n).action, RuleAction::Allow);
}

#[test]
fn validation_reports_the_first_problem() {
    let mut config = PigeonConfig::default();
    assert!(config.validate().is_ok());
    assert!(config.profiles_are_implicit());
    config.notification.min_width = 0;
    assert!(matches!(config.validate(), Err(ConfigError::ZeroMinimumSize)));
    config.notification.min_width = 500;
    assert!(matches!(config.validate(), Err(ConfigError::MinWidthAboveMax)));
    config.notification.min_width = 100;
    config.notification.min_height = 1000;
    assert!(matches!(config.validate(), Err(ConfigError::MinHeightAboveMax)));
    config.notification.min_height = 10;
    config.profile.active = "nope".to_string();
    assert!(matches!(config.validate(), Err(ConfigError::UnknownActiveProfile(name)) if name == "nope"));
    config.profile.active = "default".to_string();
    let mut bad = Profile::default();
    let mut rule = rule_for("x");
    rule.app_name = None;
    bad.rules.push(rule);
    config.profiles.insert_if_absent("bad".to_string(), bad);
    assert!(matches!(
        config.validate(),
        Err(ConfigError::RuleWithoutMatcher { profile, index: 0 }) if profile == "bad"
    ));
    assert!(!config.profiles_are_implicit());
}

#[test]
fn thickness_reads_pixels_and_splits_off_percentages() {
    assert_eq!(thickness_text("5px"), Ok(ThicknessText::Pixels(5)));
    assert_eq!(thickness_text("+12px"), Ok(ThicknessText::Pixels(12)));
    assert_eq!(thickness_text("25%"), Ok(ThicknessText::Percent("25".to_string())));
    assert_eq!(thickness_text("12.5%"), Ok(ThicknessText::Percent("12.5".to_string())));
    assert_eq!(
        thickness_text("-3px"),
        Err("thickness must be a non-negative pixel value".to_string())
    );
    assert_eq!(
        thickness_text("4294967296px"),
        Err("thickness must be a non-negative pixel value".to_string())
    );
    assert_eq!(
        thickness_text("5"),
        Err("thickness must use px or % units, such as 5px or 100%".to_string())
    );
}

#[test]
fn decimal_text_reads_as_u32() {
    let chars = |s: &str| s.chars().collect::<Vec<char>>();
    assert_eq!(parse_u32(&chars("0")), Some(0));
    assert_eq!(parse_u32(&chars("4294967295")), Some(u32::MAX));
    assert_eq!(parse_u32(&chars("+7")), Some(7));
    assert_eq!(parse_u32(&chars("4294967296")), None);
    assert_eq!(parse_u32(&chars("")), None);
    assert_eq!(parse_u32(&chars("+")), None);
    assert_eq!(parse_u32(&chars("1a")), None);
}

#[test]
fn loading_adds_the_default_profile_then_validates() {
    let config = PigeonConfig { profiles: NameMap::new(), ..PigeonConfig::default() };
    let loaded = config.into_loaded().ok().unwrap();
    assert_eq!(loaded.profiles.len(), 1);
    assert!(loaded.profiles.contains_key("default"));
    assert_eq!(loaded.profile.active, "default");

    let mut unknown = PigeonConfig { profiles: NameMap::new(), ..PigeonConfig::default() };
    unknown.profile.active = "work".to_string();
    assert!(matches!(unknown.into_loaded(), Err(ConfigError::UnknownActiveProfile(name)) if name == "work"));

    let mut small = PigeonConfig::default();
    small.notification.min_height = 0;
    assert!(matches!(small.into_loaded(), Err(ConfigError::ZeroMinimumSize)));
}

#[test]
fn config_text_edits_keep_the_rest_of_the_file() {
    let source = "# my settings\n[history]\nenabled = false # off for now\n\n[profile]\nactive = \"default\"\n";
    let enabled = set_history_enabled(source, true).unwrap();
    assert!(enabled.starts_with("# my settings\n[history]\nenabled = true"));
    assert!(enabled.contains("[profile]\nactive = \"default\""));
    assert_ne!(enabled, source);

    let added = set_history_enabled("", false).unwrap();
    assert!(added.contains("history"));
    assert!(added.contains("enabled = false"));

    assert!(set_history_enabled("history = 5\n", true).is_none());
    assert!(set_history_enabled("[history\n", true).is_none());
}

#[test]
fn the_active_profile_is_set_only_to_a_known_profile() {
    let mut config = PigeonConfig::default();
    config.profiles.insert_if_absent("work".to_string(), Profile::default());
    let source = "[profile]\nactive = \"default\"\n";
    let text = set_active_profile(&config, source, "work").unwrap();
    assert!(text.contains("active = \"work\""));
    assert!(!text.contains("\"default\""));
    assert!(matches!(set_active_profile(&config, source, "play"), Err(CliError::UnknownProfile(name)) if name == "play"));
    assert!(matches!(set_active_profile(&config, "profile = [", "work"), Err(CliError::NotEditable)));
}
