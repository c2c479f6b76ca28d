use config_loader::options::choose_config_path;
use config_loader::options::colour_disabled;
use config_loader::options::colour_mode_named;
use config_loader::options::parse_colour_mode;
use config_loader::options::ColourMode;

fn path(s: &str) -> Option<String> {
    Some(s.to_string())
}

#[test]
fn colour_mode_is_read_in_any_case() {
    assert_eq!(parse_colour_mode("auto"), Some(ColourMode::Auto));
    assert_eq!(parse_colour_mode("Always"), Some(ColourMode::Always));
    assert_eq!(parse_colour_mode("NEVER"), Some(ColourMode::Never));
}

#[test]
fn other_text_is_no_colour_mode() {
    assert_eq!(parse_colour_mode(""), None);
    assert_eq!(parse_colour_mode("sometimes"), None);
    assert_eq!(parse_colour_mode(" auto"), None);
    assert_eq!(parse_colour_mode("auto "), None);
    assert_eq!(parse_colour_mode("nev"), None);
}

#[test]
fn colour_is_off_when_never_or_when_the_terminal_takes_none() {
    assert!(colour_disabled(ColourMode::Never, true));
    assert!(colour_disabled(ColourMode::Never, false));
    assert!(!colour_disabled(ColourMode::Always, true));
    assert!(!colour_disabled(ColourMode::Always, false));
    assert!(!colour_disabled(ColourMode::Auto, true));
    assert!(colour_disabled(ColourMode::Auto, false));
}

#[test]
fn command_line_goes_before_environment_before_default() {
    assert_eq!(choose_config_path(path("/cli"), path("/env"), path("/home")), path("/cli"));
    assert_eq!(choose_config_path(path("/cli"), None, None), path("/cli"));
    assert_eq!(choose_config_path(None, path("/env"), path("/home")), path("/env"));
    assert_eq!(choose_config_path(None, None, path("/home")), path("/home"));
    assert_eq!(choose_config_path::<String>(None, None, None), None);
}

#[test]
fn empty_path_on_the_command_line_still_counts() {
    assert_eq!(choose_config_path(path(""), path("/env"), None), path(""));
}

#[test]
fn name_of_a_colour_mode_is_read_as_written() {
    assert_eq!(colour_mode_named("auto"), Some(ColourMode::Auto));
    assert_eq!(colour_mode_named("always"), Some(ColourMode::Always));
    assert_eq!(colour_mode_named("never"), Some(ColourMode::Never));
    assert_eq!(colour_mode_named("Auto"), None);
    assert_eq!(colour_mode_named("NEVER"), None);
    assert_eq!(colour_mode_named(""), None);
    assert_eq!(colour_mode_named("autos"), None);
}

#[test]
fn path_may_be_of_any_type() {
    let argument: Option<std::path::PathBuf> = None;
    let environment = Some(std::path::PathBuf::from("/env"));
    let default = Some(std::path::PathBuf::from("/home"));
    assert_eq!(
        choose_config_path(argument, environment, default),
        Some(std::path::PathBuf::from("/env"))
    );
}
