use ciprobe::config::{Config, Credentials};
use ciprobe::error::Error;
use ciprobe::yaml_parser::YamlConfig;

const SAMPLE: &str = "\
# accepted versions
task_versions:
  build/compile:
    - \"2\"
    - '3'
  Deploy/Setup:
    - 1
  \"quoted name\":
    - 7

other_section:
  ignored:
    - 9
";

fn versions_of<'a>(config: &'a Config, name: &str) -> Vec<&'a str> {
    config.get_valid_versions(name)
}

fn config_message(result: Result<Config, Error>) -> String {
    match result {
        Err(Error::Config(msg)) => msg,
        Err(other) => panic!("another error: {:?}", other),
        Ok(_) => panic!("loaded"),
    }
}

#[test]
fn tasks_and_versions_are_read_in_order() {
    let yaml = YamlConfig::parse(SAMPLE).unwrap();
    let table = &yaml.task_versions;
    assert_eq!(table.len(), 3);
    assert_eq!(table.key_at(0), "build/compile");
    assert_eq!(table.key_at(1), "Deploy/Setup");
    assert_eq!(table.key_at(2), "quoted name");
    assert_eq!(table.value_at(0), &vec!["2".to_string(), "3".to_string()]);
    assert_eq!(table.value_at(1), &vec!["1".to_string()]);
    assert_eq!(table.value_at(2), &vec!["7".to_string()]);
    assert!(table.get("ignored").is_none());
}

#[test]
fn text_without_tasks_is_refused() {
    for text in ["", "task_versions:\n", "task_versions:\nname:\n  - 1\n", "name:\n  - 1\n"] {
        match YamlConfig::parse(text) {
            Err(Error::Config(msg)) => assert_eq!(msg, "No valid task versions found in config"),
            other => panic!("{:?}: {:?}", text, other.map(|c| c.task_versions.len())),
        }
    }
}

#[test]
fn text_without_section_is_refused() {
    match YamlConfig::load_from_file("tasks:\n  a:\n    - 1\n") {
        Err(Error::Config(msg)) => {
            assert_eq!(msg, "Invalid config file: missing task_versions section")
        }
        other => panic!("{:?}", other.map(|c| c.task_versions.len())),
    }
    assert!(YamlConfig::load_from_file(SAMPLE).is_ok());
}

#[test]
fn section_ends_at_a_line_that_is_not_deeper() {
    let yaml = YamlConfig::parse("  task_versions:\n    a:\n      - 1\n  b:\n    - 2\n    c:\n").unwrap();
    assert_eq!(yaml.task_versions.len(), 1);
    assert_eq!(yaml.task_versions.get("a"), Some(&vec!["1".to_string()]));
}

#[test]
fn section_may_be_opened_again() {
    let text = "task_versions:\n  a:\n    - 1\nx:\ntask_versions:\n  b:\n    - 2\n";
    let yaml = YamlConfig::parse(text).unwrap();
    assert_eq!(yaml.task_versions.len(), 2);
    assert_eq!(yaml.task_versions.get("b"), Some(&vec!["2".to_string()]));
}

#[test]
fn naming_a_task_again_forgets_its_versions() {
    let text = "task_versions:\n  a:\n    - 1\n  b:\n    - 2\n  a:\n    - 3\n";
    let yaml = YamlConfig::parse(text).unwrap();
    assert_eq!(yaml.task_versions.len(), 2);
    assert_eq!(yaml.task_versions.key_at(0), "a");
    assert_eq!(yaml.task_versions.get("a"), Some(&vec!["3".to_string()]));
    assert_eq!(yaml.task_versions.get("b"), Some(&vec!["2".to_string()]));
}

#[test]
fn versions_before_the_first_task_are_dropped() {
    let yaml = YamlConfig::parse("task_versions:\n  - 1\n  a:\n  - ''\n  - 2\n").unwrap();
    assert_eq!(yaml.task_versions.get("a"), Some(&vec!["2".to_string()]));
}

#[test]
fn quotes_colons_and_dashes_are_stripped() {
    let text = "task_versions:\n  'a b'::\n    -- \"1.0\"  \n    - ' 2 '\n  c :\n    - 3\r\n";
    let yaml = YamlConfig::parse(text).unwrap();
    assert_eq!(yaml.task_versions.key_at(0), "a b");
    assert_eq!(yaml.task_versions.get("a b"), Some(&vec!["1.0".to_string(), "2".to_string()]));
    assert_eq!(yaml.task_versions.key_at(1), "c");
    assert_eq!(yaml.task_versions.get("c"), Some(&vec!["3".to_string()]));
}

#[test]
fn a_task_line_must_end_with_its_colon() {
    let yaml = YamlConfig::parse("task_versions:\n  a: \n  - 1\n  b:\n").unwrap();
    assert_eq!(yaml.task_versions.len(), 1);
    assert_eq!(yaml.task_versions.key_at(0), "b");
}

#[test]
fn comments_and_empty_lines_are_passed_over() {
    let text = "task_versions:\n\n# note\n  a:\n      # deeper note\n\n    - 1\n";
    let yaml = YamlConfig::parse(text).unwrap();
    assert_eq!(yaml.task_versions.get("a"), Some(&vec!["1".to_string()]));
}

#[test]
fn indentation_counts_bytes() {
    // A no-break space takes two bytes, so the task is deeper than the
    // section although it is indented by one character.
    let text = " task_versions:\n\u{a0}a:\n\u{a0}- 1\n";
    let yaml = YamlConfig::parse(text).unwrap();
    assert_eq!(yaml.task_versions.get("a"), Some(&vec!["1".to_string()]));
}

#[test]
fn names_are_put_in_lowercase_when_loaded() {
    let config = Config::load(None, Some(SAMPLE)).unwrap();
    assert_eq!(versions_of(&config, "deploy/setup"), vec!["1"]);
    assert_eq!(versions_of(&config, "Deploy/Setup"), vec!["1"]);
    assert_eq!(versions_of(&config, "DEPLOY/SETUP"), vec!["1"]);
    assert_eq!(versions_of(&config, "Build/Compile"), vec!["2", "3"]);
    assert_eq!(versions_of(&config, "build/compile"), vec!["2", "3"]);
    assert_eq!(versions_of(&config, "unknown"), Vec::<&str>::new());
    let names: Vec<String> = config.get_all_tasks().iter().map(|t| t.to_string()).collect();
    assert_eq!(names, vec!["build/compile", "deploy/setup", "quoted name"]);
}

#[test]
fn the_later_of_two_names_that_agree_in_lowercase_wins() {
    let text = "task_versions:\n  Build:\n    - 1\n  other:\n    - 5\n  BUILD:\n    - 2\n";
    let config = Config::load(None, Some(text)).unwrap();
    assert_eq!(versions_of(&config, "build"), vec!["2"]);
    let names: Vec<String> = config.get_all_tasks().iter().map(|t| t.to_string()).collect();
    assert_eq!(names, vec!["build", "other"]);
}

#[test]
fn lowercase_is_that_of_the_standard_library() {
    let text = "task_versions:\n  ÄÖÜ/ΣΑΣ:\n    - 1\n";
    let config = Config::load(None, Some(text)).unwrap();
    assert_eq!(versions_of(&config, &"ÄÖÜ/ΣΑΣ".to_lowercase()), vec!["1"]);
    assert_eq!(versions_of(&config, "äöü/σας"), vec!["1"]);
}

#[test]
fn missing_file_is_a_configuration_error() {
    assert_eq!(
        config_message(Config::load(None, None)),
        "Config file not found at \"ciprobeconfig.yml\""
    );
    assert_eq!(
        config_message(Config::load(Some("conf/my.yml"), None)),
        "Config file not found at \"conf/my.yml\""
    );
    let odd = "a\"b\\c.yml";
    assert_eq!(
        config_message(Config::load(Some(odd), None)),
        format!("Config file not found at {:?}", std::path::Path::new(odd))
    );
    assert_eq!(
        ciprobe::config::not_found_error("\"x.yml\"").to_string(),
        "Configuration error: Config file not found at \"x.yml\""
    );
}

#[test]
fn undecodable_file_is_a_configuration_error() {
    assert_eq!(
        config_message(Config::load(None, Some("nothing of use"))),
        "Invalid config file: missing task_versions section"
    );
    assert_eq!(
        config_message(Config::load(None, Some("task_versions:\n"))),
        "No valid task versions found in config"
    );
}

#[test]
fn default_path_is_used_where_none_is_named() {
    assert_eq!(Config::path_or_default(None), "ciprobeconfig.yml");
    assert_eq!(Config::path_or_default(Some("x.yml")), "x.yml");
}

#[test]
fn credentials_hold_exactly_one_colon() {
    let c = Credentials::from_string("user:SECRET-REDACTED").unwrap();
    assert_eq!(c.username, "user");
    assert_eq!(c.token, "SECRET-REDACTED");
    let c = Credentials::from_string(":").unwrap();
    assert_eq!((c.username.as_str(), c.token.as_str()), ("", ""));
    for text in ["", "user", "a:b:c", "::"] {
        match Credentials::from_string(text) {
            Err(Error::Config(msg)) => {
                assert_eq!(msg, "Invalid credentials format. Expected 'username:token'")
            }
            other => panic!("{:?}: {:?}", text, other),
        }
    }
}

#[test]
fn credentials_of_the_command_line_come_first() {
    let c = Credentials::load(&Some("a:b".to_string()), Some("x".to_string()), Some("y".to_string()))
        .unwrap();
    assert_eq!((c.username.as_str(), c.token.as_str()), ("a", "b"));
    let c = Credentials::load(&None, Some("x".to_string()), Some("y".to_string())).unwrap();
    assert_eq!((c.username.as_str(), c.token.as_str()), ("x", "y"));
    assert!(Credentials::load(&Some("ab".to_string()), Some("x".to_string()), Some("y".to_string()))
        .is_err());
    for (user, token) in [(None, None), (Some("x".to_string()), None), (None, Some("y".to_string()))]
    {
        match Credentials::load(&None, user, token) {
            Err(Error::Config(msg)) => assert_eq!(
                msg,
                "Credentials not found. Please provide them via CLI or environment variables"
            ),
            other => panic!("{:?}", other),
        }
    }
}

#[test]
fn errors_are_shown_with_their_label() {
    assert_eq!(Error::Cli("a".to_string()).to_string(), "CLI error: a");
    assert_eq!(Error::Config("b".to_string()).to_string(), "Configuration error: b");
    assert_eq!(Error::Git("c".to_string()).to_string(), "Git error: c");
    assert_eq!(Error::Io("d".to_string()).to_string(), "IO error: d");
}
