use kwintool::cmd::Config;
use kwintool::model::{wire_desktop, Action, Pattern, Search};

fn program(name: &str) -> Config {
    Config {
        program: Some(name.to_string()),
        ..Config::default()
    }
}

fn text(s: &str) -> Option<String> {
    Some(s.to_string())
}

#[test]
fn name_defaults_to_program_name() {
    // kwintool dolphin
    assert_eq!(program("dolphin").command().unwrap(), "name=^dolphin$&&activate");
}

#[test]
fn explicit_class_overrides_program_name() {
    // kwintool -c konsole dolphin
    let config = Config {
        class: text("konsole"),
        ..program("dolphin")
    };
    assert_eq!(config.command().unwrap(), "class=konsole&&activate");
}

#[test]
fn negated_class_is_serialised_with_bang() {
    // kwintool --class !fleet
    let config = Config {
        class: text("!fleet"),
        ..Config::default()
    };
    assert_eq!(config.command().unwrap(), "class!=fleet&&activate");
}

#[test]
fn name_criterion_is_serialised() {
    // kwintool --name jetbrains
    let config = Config {
        name: text("jetbrains"),
        ..Config::default()
    };
    assert_eq!(config.command().unwrap(), "name=jetbrains&&activate");
}

#[test]
fn class_and_name_combine_with_negation() {
    // kwintool --class !fleet --name jetbrains
    let config = Config {
        class: text("!fleet"),
        name: text("jetbrains"),
        ..Config::default()
    };
    assert_eq!(config.command().unwrap(), "class!=fleet&&name=jetbrains&&activate");
}

#[test]
fn to_desktop_action_precedes_activate() {
    // The CLI is 1-based; desktop 1 becomes the 0-based wire index 0.
    let config = Config {
        to_desktop: Some(1),
        ..program("dolphin")
    };
    assert_eq!(config.command().unwrap(), "name=^dolphin$&&desktop=0;activate");
}

#[test]
fn to_desktop_all_uses_negative_index() {
    let config = Config {
        to_desktop: Some(-1),
        ..program("dolphin")
    };
    assert_eq!(config.command().unwrap(), "name=^dolphin$&&desktop=-1;activate");
}

#[test]
fn to_desktop_converts_one_based_cli_to_zero_based_wire() {
    let config = Config {
        to_desktop: Some(3),
        ..program("dolphin")
    };
    assert_eq!(config.command().unwrap(), "name=^dolphin$&&desktop=2;activate");
}

#[test]
fn title_criterion_is_serialised() {
    let config = Config {
        title: text("Vim"),
        ..Config::default()
    };
    assert_eq!(config.command().unwrap(), "title=Vim&&activate");
}

#[test]
fn to_screen_action_precedes_activate() {
    let config = Config {
        to_screen: text("edp"),
        ..program("dolphin")
    };
    assert_eq!(config.command().unwrap(), "name=^dolphin$&&screen=edp;activate");
}

#[test]
fn to_desktop_and_to_screen_keep_order() {
    let config = Config {
        to_desktop: Some(2),
        to_screen: text("edp"),
        ..program("dolphin")
    };
    assert_eq!(
        config.command().unwrap(),
        "name=^dolphin$&&desktop=1;screen=edp;activate",
    );
}

#[test]
fn desktop_criterion_is_serialised() {
    let config = Config {
        desktop: Some(2),
        ..Config::default()
    };
    assert_eq!(config.command().unwrap(), "desktop=1&&activate");
}

#[test]
fn desktop_filter_keeps_the_program_name_default() {
    let config = Config {
        desktop: Some(3),
        ..program("dolphin")
    };
    assert_eq!(config.command().unwrap(), "name=^dolphin$&&desktop=2&&activate");
}

#[test]
fn explicit_pattern_suppresses_the_program_class_default() {
    let config = Config {
        title: text("Vim"),
        ..program("vim")
    };
    assert_eq!(config.command().unwrap(), "title=Vim&&activate");
}

#[test]
fn geometry_action_is_serialised() {
    let config = Config {
        geometry: text("w60%x20%m"),
        ..program("dolphin")
    };
    assert_eq!(
        config.command().unwrap(),
        "name=^dolphin$&&geometry=w60%x20%m;activate",
    );
}

#[test]
fn invalid_geometry_is_rejected() {
    let config = Config {
        geometry: text("a3"),
        ..program("dolphin")
    };
    assert!(config.command().is_err());
}

#[test]
fn id_omits_the_activate_action() {
    let config = Config {
        id: true,
        ..program("dolphin")
    };
    assert_eq!(config.command().unwrap(), "name=^dolphin$&&");
}

#[test]
fn program_name_is_escaped_as_a_literal() {
    assert_eq!(
        program("org.kde.dolphin-2").command().unwrap(),
        "name=^org\\.kde\\.dolphin\\-2$&&activate",
    );
}

#[test]
fn everything_together_keeps_the_wire_order() {
    let config = Config {
        class: text("!fleet"),
        name: text("jet"),
        title: text("Main"),
        desktop: Some(-1),
        to_desktop: Some(0),
        to_screen: text("HDMI"),
        geometry: text("W10H20"),
        ..program("ignored")
    };
    assert_eq!(
        config.command().unwrap(),
        "class!=fleet&&name=jet&&title=Main&&desktop=-1&&desktop=0;screen=HDMI;geometry=w10h20;activate",
    );
}

#[test]
fn nothing_given_is_only_the_activation() {
    assert_eq!(Config::default().command().unwrap(), "activate");
    let with_id = Config {
        id: true,
        ..Config::default()
    };
    assert_eq!(with_id.command().unwrap(), "");
}

#[test]
fn search_and_actions_in_wire_order() {
    let config = Config {
        title: text("Vim"),
        class: text("gvim"),
        desktop: Some(1),
        to_screen: text("DP"),
        ..Config::default()
    };
    let search: Vec<String> = config.search().iter().map(|s| s.to_string()).collect();
    assert_eq!(search, vec!["class=gvim", "title=Vim", "desktop=0"]);
    let actions: Vec<String> = config.actions().unwrap().iter().map(|a| a.to_string()).collect();
    assert_eq!(actions, vec!["screen=DP", "activate"]);
}

#[test]
fn getters_return_the_options() {
    let config = Config {
        args: vec!["--new-window".to_string()],
        verbose: true,
        id: true,
        ..program("brave")
    };
    assert_eq!(config.program(), Some("brave"));
    assert_eq!(config.args(), &["--new-window".to_string()]);
    assert!(config.verbose());
    assert!(config.id());
}

#[test]
fn wire_desktop_shifts_only_positive_numbers() {
    assert_eq!(wire_desktop(1), 0);
    assert_eq!(wire_desktop(127), 126);
    assert_eq!(wire_desktop(0), 0);
    assert_eq!(wire_desktop(-1), -1);
    assert_eq!(wire_desktop(-128), -128);
}

#[test]
fn every_action_has_its_wire_text() {
    assert_eq!(Action::ToDesktop(-1).to_string(), "desktop=-1");
    assert_eq!(Action::ToScreen("eDP-1".to_string()).to_string(), "screen=eDP-1");
    assert_eq!(Action::NoBorder(true).to_string(), "noborder=true");
    assert_eq!(Action::Maximize(false).to_string(), "maximize=false");
    assert_eq!(Action::KeepBelow(true).to_string(), "keepbelow=true");
    assert_eq!(Action::Geometry(Vec::new()).to_string(), "geometry=");
    assert_eq!(Action::Activate.to_string(), "activate");
}

#[test]
fn every_search_has_its_wire_text() {
    assert_eq!(Search::Class(Pattern::new("a")).to_string(), "class=a");
    assert_eq!(Search::Name(Pattern::new("!b")).to_string(), "name!=b");
    assert_eq!(Search::Title(Pattern::new("!")).to_string(), "title!=");
    assert_eq!(Search::Desktop(-128).to_string(), "desktop=-128");
}

#[test]
fn the_script_is_needed_only_for_a_program_or_a_criterion() {
    assert!(!Config::default().needs_script());
    assert!(program("dolphin").needs_script());
    assert!(Config { desktop: Some(2), ..Config::default() }.needs_script());
    assert!(Config { title: text("Vim"), ..Config::default() }.needs_script());
    // actions alone ask nothing
    assert!(!Config { to_screen: text("DP"), geometry: text("m"), ..Config::default() }
        .needs_script());
}

#[test]
fn actions_are_the_requested_values_in_order() {
    let config = Config {
        to_desktop: Some(3),
        to_screen: text("HDMI"),
        geometry: text("w10%M"),
        ..program("kate")
    };
    assert_eq!(
        format!("{:?}", config.actions().unwrap()),
        "[ToDesktop(2), ToScreen(\"HDMI\"), Geometry([Width(Percent(10)), Maximize(Both)]), Activate]",
    );
    let with_id = Config { id: true, ..config };
    assert_eq!(
        format!("{:?}", with_id.actions().unwrap()),
        "[ToDesktop(2), ToScreen(\"HDMI\"), Geometry([Width(Percent(10)), Maximize(Both)])]",
    );
}
