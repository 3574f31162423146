use ciprobe::cli::{Cli, CliRequest};
use ciprobe::error::Error;

fn args(words: &[&str]) -> Vec<String> {
    words.iter().map(|w| w.to_string()).collect()
}

fn run(words: &[&str]) -> Cli {
    match Cli::parse(&args(words)) {
        Ok(CliRequest::Run(cli)) => cli,
        other => panic!("{:?}", other),
    }
}

fn refused(words: &[&str]) -> String {
    match Cli::parse(&args(words)) {
        Err(Error::Cli(msg)) => msg,
        other => panic!("{:?}", other),
    }
}

#[test]
fn arguments_are_read_in_any_order() {
    let cli = run(&["--verbose", "--config", "c.yml", "--repos", "a,b", "--credentials", "u:t"]);
    assert_eq!(cli.repos, "a,b");
    assert_eq!(cli.credentials.as_deref(), Some("u:t"));
    assert_eq!(cli.config_path.as_deref(), Some("c.yml"));
    assert!(cli.verbose);
    let cli = run(&["--repos", "a"]);
    assert_eq!(cli.repos, "a");
    assert_eq!(cli.credentials, None);
    assert_eq!(cli.config_path, None);
    assert!(!cli.verbose);
    assert!(run(&["-v", "--repos", "a"]).verbose);
}

#[test]
fn the_last_value_of_an_argument_counts() {
    let cli = run(&["--repos", "a", "--repos", "b", "--config", "x", "--config"]);
    assert_eq!(cli.repos, "b");
    assert_eq!(cli.config_path, None);
}

#[test]
fn an_argument_takes_whatever_follows_it() {
    let cli = run(&["--credentials", "--verbose", "--repos", "--help"]);
    assert_eq!(cli.credentials.as_deref(), Some("--verbose"));
    assert_eq!(cli.repos, "--help");
    assert!(!cli.verbose);
}

#[test]
fn repositories_are_required() {
    assert_eq!(refused(&[]), "--repos argument is required");
    assert_eq!(refused(&["--verbose"]), "--repos argument is required");
    assert_eq!(refused(&["--repos", ""]), "--repos argument is required");
    assert_eq!(refused(&["--repos"]), "--repos requires a value");
    assert_eq!(refused(&["--verbose", "--repos"]), "--repos requires a value");
}

#[test]
fn unknown_arguments_are_refused() {
    assert_eq!(refused(&["--repos", "a", "--fast"]), "Unknown argument: --fast");
    assert_eq!(refused(&["x", "--help"]), "Unknown argument: x");
    assert_eq!(refused(&[""]), "Unknown argument: ");
}

#[test]
fn help_and_version_end_the_reading() {
    assert!(matches!(Cli::parse(&args(&["--help"])), Ok(CliRequest::Help)));
    assert!(matches!(Cli::parse(&args(&["-h", "--bogus"])), Ok(CliRequest::Help)));
    assert!(matches!(Cli::parse(&args(&["--repos", "a", "-h"])), Ok(CliRequest::Help)));
    assert!(matches!(Cli::parse(&args(&["--version"])), Ok(CliRequest::Version)));
    assert!(matches!(Cli::parse(&args(&["-V", "-h"])), Ok(CliRequest::Version)));
    assert!(matches!(Cli::parse(&args(&["-v", "-V"])), Ok(CliRequest::Version)));
}

#[test]
fn usage_names_every_argument() {
    let usage = Cli::usage();
    assert_eq!(usage.len(), 8);
    assert_eq!(usage[0], "Usage: ciprobe [OPTIONS]");
    assert_eq!(usage[1], "");
    for word in ["--repos", "--credentials", "--config", "--verbose", "--help"] {
        assert!(usage.iter().any(|line| line.contains(word)), "{}", word);
    }
}

#[test]
fn repositories_are_split_at_commas() {
    let mut cli = Cli::default();
    cli.repos = " https://host/a.git , ,https://host/b,, c ".to_string();
    assert_eq!(cli.repositories().unwrap(), vec!["https://host/a.git", "https://host/b", "c"]);
    cli.repos = "one".to_string();
    assert_eq!(cli.repositories().unwrap(), vec!["one"]);
    for repos in ["", " ", ",", " , ,, "] {
        cli.repos = repos.to_string();
        match cli.repositories() {
            Err(Error::Cli(msg)) => assert_eq!(msg, "No repositories specified"),
            other => panic!("{:?}", other),
        }
    }
}
