use kwintool::config::{Config, ConfigError, Rule};
use kwintool::hocon::{parse, Value};

/// The rules of a configuration text: the `rules` array of objects, each
/// field read as the configuration file's schema reads it.
fn config(text: &str) -> Config {
    let root = parse(text).expect("valid config");
    let mut rules = Vec::new();
    if let Some(Value::Array(items)) = root.get("rules") {
        for item in items {
            let string = |key: &str| match item.get(key) {
                Some(Value::String(s)) => Some(s.clone()),
                None => None,
                other => panic!("unexpected {key}: {other:?}"),
            };
            let to_desktop = match item.get("to-desktop") {
                Some(Value::Integer(i)) => Some(*i as i8),
                None => None,
                other => panic!("unexpected to-desktop: {other:?}"),
            };
            rules.push(Rule {
                label: string("label"),
                class: string("class"),
                title: string("title"),
                to_desktop,
                to_screen: string("to-screen"),
                geometry: string("geometry"),
            });
        }
    }
    Config::new(rules)
}

fn rule() -> Rule {
    Rule {
        label: None,
        class: None,
        title: None,
        to_desktop: None,
        to_screen: None,
        geometry: None,
    }
}

#[test]
fn targets_lists_one_search_expression_per_rule_with_criteria() {
    let config = config(
        r#"
        rules = [
          { class = "google-chrome|firefox" }
          { class = mpv, title = ipcam1 }
          { geometry = "m" }               # no criteria -> skipped
        ]
        "#,
    );
    assert_eq!(
        config.targets().unwrap(),
        "class=google-chrome|firefox\nclass=mpv&&title=ipcam1",
    );
}

#[test]
fn action_for_merges_matching_rules_in_file_order() {
    let config = config(
        r#"
        rules = [
          { class = alacritty, to-desktop = 3 }
          { class = alacritty, geometry = "m" }
        ]
        "#,
    );
    // window arrives as caption:class; to-desktop is 1-based -> wire 2.
    assert_eq!(
        config.action_for("Terminal:alacritty").unwrap(),
        "desktop=2;geometry=m",
    );
}

#[test]
fn action_for_is_empty_when_nothing_matches() {
    let config = config(r#"rules = [ { class = mpv, geometry = "m" } ]"#);
    assert_eq!(config.action_for("Editor:code").unwrap(), "");
}

#[test]
fn title_criterion_matches_the_caption_half_only() {
    let config = config(r#"rules = [ { class = mpv, title = ipcam1, to-desktop = 1 } ]"#);
    assert_eq!(config.action_for("ipcam1 stream:mpv").unwrap(), "desktop=0");
    assert_eq!(config.action_for("ipcam2 stream:mpv").unwrap(), "");
}

#[test]
fn negated_class_becomes_not_equals_on_the_wire() {
    let config = config(r#"rules = [ { class = "!fleet" } ]"#);
    assert_eq!(config.targets().unwrap(), "class!=fleet");
}

#[test]
fn missing_config_body_yields_no_rules() {
    let config = config("rules = []");
    assert_eq!(config.targets().unwrap(), "");
    assert_eq!(config.action_for("x:y").unwrap(), "");
}

#[test]
fn class_is_taken_after_the_last_colon() {
    let config = Config::new(vec![Rule {
        class: Some("^code$".to_string()),
        title: Some("^a:b$".to_string()),
        to_screen: Some("DP-1".to_string()),
        ..rule()
    }]);
    assert_eq!(config.action_for("a:b:code").unwrap(), "screen=DP-1");
    assert_eq!(config.action_for("a:b:codex").unwrap(), "");
    // without a colon the whole text is the class and the caption is empty
    let by_class = Config::new(vec![Rule {
        class: Some("^code$".to_string()),
        to_desktop: Some(-1),
        ..rule()
    }]);
    assert_eq!(by_class.action_for("code").unwrap(), "desktop=-1");
}

#[test]
fn negated_patterns_invert_the_match() {
    let config = Config::new(vec![Rule {
        class: Some("!fleet".to_string()),
        geometry: Some("v".to_string()),
        ..rule()
    }]);
    assert_eq!(config.action_for("x:jetbrains").unwrap(), "geometry=v");
    assert_eq!(config.action_for("x:fleet").unwrap(), "");
}

#[test]
fn a_rule_without_criteria_never_applies() {
    let config = Config::new(vec![Rule {
        to_desktop: Some(2),
        ..rule()
    }]);
    assert_eq!(config.targets().unwrap(), "");
    assert_eq!(config.action_for("anything:at all").unwrap(), "");
}

#[test]
fn invalid_regex_is_reported() {
    let config = Config::new(vec![Rule {
        class: Some("(".to_string()),
        ..rule()
    }]);
    assert!(matches!(config.targets(), Err(ConfigError::Regex(_))));
    assert!(matches!(config.action_for("a:b"), Err(ConfigError::Regex(_))));
}

#[test]
fn invalid_geometry_of_a_matching_rule_is_reported() {
    let config = Config::new(vec![Rule {
        class: Some("b".to_string()),
        geometry: Some("q".to_string()),
        ..rule()
    }]);
    assert!(matches!(config.action_for("a:b"), Err(ConfigError::Geometry(_))));
    // a rule that does not match is not looked at further
    assert_eq!(config.action_for("a:c").unwrap(), "");
}

#[test]
fn rules_are_kept_in_file_order() {
    let config = Config::new(vec![
        Rule { class: Some("a".to_string()), ..rule() },
        Rule { title: Some("t".to_string()), ..rule() },
    ]);
    assert_eq!(config.rules().len(), 2);
    assert_eq!(config.targets().unwrap(), "class=a\ntitle=t");
}

#[test]
fn targets_depend_only_on_class_and_title() {
    let bare = Config::new(vec![
        Rule { class: Some("a".to_string()), ..rule() },
        Rule { title: Some("!t".to_string()), ..rule() },
    ]);
    let with_actions = Config::new(vec![
        Rule {
            label: Some("first".to_string()),
            class: Some("a".to_string()),
            to_desktop: Some(1),
            geometry: Some("not a geometry".to_string()),
            ..rule()
        },
        Rule { title: Some("!t".to_string()), to_screen: Some("DP".to_string()), ..rule() },
    ]);
    assert_eq!(bare.targets().unwrap(), "class=a\ntitle!=t");
    assert_eq!(with_actions.targets().unwrap(), bare.targets().unwrap());
}

#[test]
fn a_rule_applies_only_when_all_its_patterns_match() {
    let config = Config::new(vec![Rule {
        class: Some("^kitty$".to_string()),
        title: Some("vim".to_string()),
        to_screen: Some("DP".to_string()),
        ..rule()
    }]);
    assert_eq!(config.action_for("nvim - notes:kitty").unwrap(), "screen=DP");
    assert_eq!(config.action_for("htop:kitty").unwrap(), "");
    assert_eq!(config.action_for("nvim:konsole").unwrap(), "");
}

#[test]
fn rule_actions_never_activate() {
    let config = Config::new(vec![Rule {
        class: Some("x".to_string()),
        to_desktop: Some(-1),
        to_screen: Some("S".to_string()),
        geometry: Some("X5y6".to_string()),
        ..rule()
    }]);
    assert_eq!(config.action_for("c:x").unwrap(), "desktop=-1;screen=S;geometry=x5y6");
}

#[test]
fn an_unmatched_rule_with_a_bad_class_regex_hides_a_later_error() {
    // the class is checked first: a failing class match stops the rule there
    let config = Config::new(vec![Rule {
        class: Some("^a$".to_string()),
        title: Some("(".to_string()),
        ..rule()
    }]);
    assert_eq!(config.action_for("t:b").unwrap(), "");
    assert!(matches!(config.action_for("t:a"), Err(ConfigError::Regex(_))));
}
