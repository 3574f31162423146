use ciprobe::analyzer::{
    reconcile_repository, record_file_sightings, RepoAction, RepoAnalysis, RepoEvent, RepoState,
};
use ciprobe::config::Config;
use ciprobe::scanner::analyze_pipeline_file;
use ciprobe::string_map::StringSet;
use ciprobe::{TaskImplementation, TaskIssues};

fn registry(text: &str) -> Config {
    Config::load(None, Some(text)).unwrap()
}

fn keys(found: &StringSet) -> Vec<String> {
    (0..found.len()).map(|i| found.item_at(i).clone()).collect()
}

fn read_file(action: RepoAction) -> String {
    match action {
        RepoAction::ReadFile(path) => path,
        other => panic!("{:?}", other),
    }
}

#[test]
fn scan_reports_each_key_once_in_order() {
    let content = "\
steps:
  - task: build/compile@3
  # task: commented/out@1
  // task: also/commented@1
  - task: build/compile@2
  - task: build/compile@3
  - task: Deploy/Setup@1
  - task: broken@x
";
    let found = analyze_pipeline_file(content);
    assert_eq!(keys(&found), vec!["build/compile@3", "build/compile@2", "Deploy/Setup@1"]);
}

#[test]
fn scan_of_the_same_content_gives_the_same_keys() {
    let content = "task: a@1\r\ntask: b@2\ntask: a@1\n\n task:c@3";
    let first = analyze_pipeline_file(content);
    let second = analyze_pipeline_file(content);
    assert_eq!(keys(&first), keys(&second));
    assert_eq!(keys(&first), vec!["a@1", "b@2", "c@3"]);
}

#[test]
fn scan_of_nothing_finds_nothing() {
    assert!(analyze_pipeline_file("").is_empty());
    assert!(analyze_pipeline_file("\n\n# only comments\n").is_empty());
}

#[test]
fn one_file_with_a_valid_and_an_invalid_version() {
    let config = registry("task_versions:\n  build/compile:\n    - \"2\"\n");
    let mut issues = TaskIssues::default();
    let mut analysis = RepoAnalysis::start("R");
    assert!(matches!(analysis.pending_action(), RepoAction::Acquire));
    assert!(matches!(analysis.step(RepoEvent::Acquired, &mut issues, &config), RepoAction::Discover));
    let action = analysis.step(
        RepoEvent::Discovered(vec!["pipeline.yml".to_string()]),
        &mut issues,
        &config,
    );
    assert_eq!(read_file(action), "pipeline.yml");
    let content = "task: build/compile@3\ntask: build/compile@2\n".to_string();
    let action = analysis.step(RepoEvent::FileRead(content), &mut issues, &config);
    assert!(matches!(action, RepoAction::Finish));
    assert_eq!(analysis.state(), RepoState::Done);
    assert!(analysis.is_finished());

    assert_eq!(
        issues.all_implementations.get("build/compile"),
        Some(&vec![
            TaskImplementation::new("R", "3", "pipeline.yml"),
            TaskImplementation::new("R", "2", "pipeline.yml"),
        ])
    );
    let invalid = issues.invalid_states.get("build/compile").unwrap();
    assert_eq!(invalid.get("R"), Some(&vec![TaskImplementation::new("R", "3", "pipeline.yml")]));
    assert!(issues.repos_analyzed.contains("R"));
    assert!(!issues.repos_skipped.contains("R"));
    assert!(issues.missing_required_tasks.is_empty());
    assert!(issues.missing_states.is_empty());
}

#[test]
fn repository_without_pipeline_files_is_skipped() {
    let config = registry("task_versions:\n  build/compile:\n    - \"2\"\n");
    let mut issues = TaskIssues::default();
    let mut analysis = RepoAnalysis::start("R");
    analysis.step(RepoEvent::Acquired, &mut issues, &config);
    let action = analysis.step(RepoEvent::Discovered(Vec::new()), &mut issues, &config);
    assert!(matches!(action, RepoAction::Finish));
    assert_eq!(analysis.state(), RepoState::NoFilesSkipped);
    assert!(issues.repos_analyzed.contains("R"));
    assert!(issues.repos_skipped.contains("R"));
    assert!(issues.all_implementations.is_empty());
    assert!(issues.invalid_states.is_empty());
    assert!(issues.missing_states.is_empty());
    assert!(issues.missing_required_tasks.is_empty());
}

#[test]
fn casing_of_an_unconfigured_task_is_kept() {
    let config = registry("task_versions:\n  deploy/setup:\n    - 1\n");
    let mut issues = TaskIssues::default();
    let mut analysis = RepoAnalysis::start("R");
    analysis.step(RepoEvent::Acquired, &mut issues, &config);
    analysis.step(RepoEvent::Discovered(vec!["a.yml".to_string()]), &mut issues, &config);
    let content = "task: Deploy/Setup@1\ntask: Lint/All@4\n".to_string();
    analysis.step(RepoEvent::FileRead(content), &mut issues, &config);
    assert_eq!(
        issues.all_implementations.get("deploy/setup"),
        Some(&vec![TaskImplementation::new("R", "1", "a.yml")])
    );
    assert!(issues.invalid_states.is_empty());
    assert_eq!(issues.missing_states.len(), 1);
    assert_eq!(issues.missing_states.get("lint/all"), Some(&"Lint/All".to_string()));
}

#[test]
fn failed_acquisition_records_nothing() {
    let config = registry("task_versions:\n  a:\n    - 1\n");
    let mut issues = TaskIssues::default();
    let mut analysis = RepoAnalysis::start("R");
    let action = analysis.step(RepoEvent::AcquireFailed, &mut issues, &config);
    assert!(matches!(action, RepoAction::Finish));
    assert_eq!(analysis.state(), RepoState::AcquireFailed);
    assert!(issues.repos_analyzed.is_empty());
    assert!(issues.repos_skipped.is_empty());
    assert!(issues.missing_required_tasks.is_empty());
    // Later events change nothing.
    let action = analysis.step(RepoEvent::Acquired, &mut issues, &config);
    assert!(matches!(action, RepoAction::Finish));
    assert!(issues.repos_analyzed.is_empty());
}

#[test]
fn unreadable_file_ends_the_repository_without_reconciling() {
    let config = registry("task_versions:\n  a:\n    - 1\n  b:\n    - 1\n");
    let mut issues = TaskIssues::default();
    let mut analysis = RepoAnalysis::start("R");
    analysis.step(RepoEvent::Acquired, &mut issues, &config);
    let files = vec!["1.yml".to_string(), "2.yml".to_string(), "3.yml".to_string()];
    analysis.step(RepoEvent::Discovered(files), &mut issues, &config);
    let action = analysis.step(RepoEvent::FileRead("task: a@1".to_string()), &mut issues, &config);
    assert_eq!(read_file(action), "2.yml");
    let action = analysis.step(RepoEvent::FileUnreadable, &mut issues, &config);
    assert!(matches!(action, RepoAction::Finish));
    assert_eq!(analysis.state(), RepoState::ScanFailed);
    assert!(issues.repos_analyzed.contains("R"));
    assert_eq!(issues.all_implementations.get("a").map(|l| l.len()), Some(1));
    assert!(issues.missing_required_tasks.is_empty());
}

#[test]
fn failed_discovery_ends_the_repository() {
    let config = registry("task_versions:\n  a:\n    - 1\n");
    let mut issues = TaskIssues::default();
    let mut analysis = RepoAnalysis::start("R");
    analysis.step(RepoEvent::Acquired, &mut issues, &config);
    let action = analysis.step(RepoEvent::DiscoveryFailed, &mut issues, &config);
    assert!(matches!(action, RepoAction::Finish));
    assert_eq!(analysis.state(), RepoState::ScanFailed);
    assert!(issues.repos_analyzed.contains("R"));
    assert!(!issues.repos_skipped.contains("R"));
}

#[test]
fn event_that_is_not_awaited_changes_nothing() {
    let config = registry("task_versions:\n  a:\n    - 1\n");
    let mut issues = TaskIssues::default();
    let mut analysis = RepoAnalysis::start("R");
    let action = analysis.step(RepoEvent::FileRead("task: a@1".to_string()), &mut issues, &config);
    assert!(matches!(action, RepoAction::Acquire));
    assert_eq!(analysis.state(), RepoState::Acquire);
    let action = analysis.step(RepoEvent::Discovered(Vec::new()), &mut issues, &config);
    assert!(matches!(action, RepoAction::Acquire));
    assert!(issues.all_implementations.is_empty());
    assert!(issues.repos_skipped.is_empty());
}

#[test]
fn tasks_that_were_not_found_are_reported_after_the_last_file() {
    let config = registry("task_versions:\n  a:\n    - 1\n  b:\n    - 1\n  c:\n    - 1\n");
    let mut issues = TaskIssues::default();
    let mut analysis = RepoAnalysis::start("R");
    analysis.step(RepoEvent::Acquired, &mut issues, &config);
    let files = vec!["1.yml".to_string(), "2.yml".to_string()];
    analysis.step(RepoEvent::Discovered(files), &mut issues, &config);
    let action = analysis.step(RepoEvent::FileRead("task: c@1".to_string()), &mut issues, &config);
    assert_eq!(read_file(action), "2.yml");
    assert!(issues.missing_required_tasks.is_empty());
    let action = analysis.step(RepoEvent::FileRead("task: c@2\ntask: B@1".to_string()), &mut issues, &config);
    assert!(matches!(action, RepoAction::Finish));
    // `B` is a sighting of `b`: tasks are joined by their lowercase names.
    assert_eq!(issues.missing_required_tasks.get("R"), Some(&vec!["a".to_string()]));
    assert_eq!(
        issues.all_implementations.get("c"),
        Some(&vec![
            TaskImplementation::new("R", "1", "1.yml"),
            TaskImplementation::new("R", "2", "2.yml"),
        ])
    );
    assert_eq!(issues.all_implementations.get("b").map(|l| l.len()), Some(1));
}

#[test]
fn the_same_task_in_two_files_is_seen_twice() {
    let config = registry("task_versions:\n  a:\n    - 1\n");
    let mut issues = TaskIssues::default();
    let mut analysis = RepoAnalysis::start("R");
    analysis.step(RepoEvent::Acquired, &mut issues, &config);
    let files = vec!["1.yml".to_string(), "2.yml".to_string()];
    analysis.step(RepoEvent::Discovered(files), &mut issues, &config);
    analysis.step(RepoEvent::FileRead("task: a@1\ntask: a@1".to_string()), &mut issues, &config);
    analysis.step(RepoEvent::FileRead("task: a@1".to_string()), &mut issues, &config);
    assert_eq!(
        issues.all_implementations.get("a"),
        Some(&vec![
            TaskImplementation::new("R", "1", "1.yml"),
            TaskImplementation::new("R", "1", "2.yml"),
        ])
    );
    assert!(issues.missing_required_tasks.is_empty());
}

#[test]
fn keys_are_split_at_their_first_separator() {
    let config = registry("task_versions:\n  a:\n    - 1\n");
    let mut issues = TaskIssues::default();
    let mut found = StringSet::new();
    let mut keys = StringSet::new();
    keys.insert("a@1".to_string());
    keys.insert("x@2@3".to_string());
    keys.insert("no separator".to_string());
    keys.insert("@".to_string());
    record_file_sightings(&mut issues, &mut found, &keys, "R", "f.yml", &config);
    assert!(found.contains("a"));
    assert!(found.contains("x"));
    assert!(found.contains(""));
    assert_eq!(found.len(), 3);
    assert_eq!(
        issues.all_implementations.get("x"),
        Some(&vec![TaskImplementation::new("R", "2@3", "f.yml")])
    );
    assert_eq!(issues.all_implementations.get(""), Some(&vec![TaskImplementation::new("R", "", "f.yml")]));
}

#[test]
fn reconciling_reports_what_was_not_found() {
    let config = registry("task_versions:\n  a:\n    - 1\n  b:\n    - 1\n");
    let mut issues = TaskIssues::default();
    let mut found = StringSet::new();
    found.insert("b".to_string());
    reconcile_repository(&mut issues, "R", &found, &config);
    assert_eq!(issues.missing_required_tasks.get("R"), Some(&vec!["a".to_string()]));
}

fn perform(action: ciprobe::analyzer::RunAction) -> (String, RepoAction) {
    match action {
        ciprobe::analyzer::RunAction::Perform { repo_url, action } => (repo_url, action),
        other => panic!("{:?}", other),
    }
}

#[test]
fn repositories_are_analyzed_in_the_order_given() {
    let config = registry("task_versions:\n  a:\n    - 1\n  b:\n    - 1\n");
    let repos = vec!["first".to_string(), "second".to_string(), "third".to_string()];
    let mut run = ciprobe::analyzer::analyze_pipelines(repos);
    let (repo, action) = perform(run.pending_action());
    assert_eq!(repo, "first");
    assert!(matches!(action, RepoAction::Acquire));

    // The first repository cannot be acquired: the run goes on.
    let (repo, action) = perform(run.step(RepoEvent::AcquireFailed, &config));
    assert_eq!(repo, "second");
    assert!(matches!(action, RepoAction::Acquire));

    // The second holds no pipeline file.
    let (repo, action) = perform(run.step(RepoEvent::Acquired, &config));
    assert_eq!(repo, "second");
    assert!(matches!(action, RepoAction::Discover));
    let (repo, action) = perform(run.step(RepoEvent::Discovered(Vec::new()), &config));
    assert_eq!(repo, "third");
    assert!(matches!(action, RepoAction::Acquire));

    // The third holds one file.
    run.step(RepoEvent::Acquired, &config);
    let (repo, action) =
        perform(run.step(RepoEvent::Discovered(vec!["p.yml".to_string()]), &config));
    assert_eq!(repo, "third");
    assert_eq!(read_file(action), "p.yml");
    assert!(!run.is_finished());
    let action = run.step(RepoEvent::FileRead("task: a@1\ntask: c@1".to_string()), &config);
    assert!(matches!(action, ciprobe::analyzer::RunAction::Finish));
    assert!(run.is_finished());
    // Nothing is awaited any more.
    let action = run.step(RepoEvent::Acquired, &config);
    assert!(matches!(action, ciprobe::analyzer::RunAction::Finish));

    let issues = run.into_issues();
    assert!(!issues.repos_analyzed.contains("first"));
    assert!(issues.repos_analyzed.contains("second"));
    assert!(issues.repos_analyzed.contains("third"));
    assert_eq!(issues.repos_analyzed.len(), 2);
    assert!(issues.repos_skipped.contains("second"));
    assert_eq!(issues.repos_skipped.len(), 1);
    assert_eq!(issues.missing_required_tasks.len(), 1);
    assert_eq!(issues.missing_required_tasks.get("third"), Some(&vec!["b".to_string()]));
    assert_eq!(
        issues.all_implementations.get("a"),
        Some(&vec![TaskImplementation::new("third", "1", "p.yml")])
    );
    assert_eq!(issues.missing_states.get("c"), Some(&"c".to_string()));
}

#[test]
fn a_run_without_repositories_has_nothing_to_do() {
    let config = registry("task_versions:\n  a:\n    - 1\n");
    let mut run = ciprobe::analyzer::analyze_pipelines(Vec::new());
    assert!(run.is_finished());
    assert!(matches!(run.pending_action(), ciprobe::analyzer::RunAction::Finish));
    assert!(matches!(run.step(RepoEvent::Acquired, &config), ciprobe::analyzer::RunAction::Finish));
    assert!(run.issues().repos_analyzed.is_empty());
}

#[test]
fn a_task_that_is_used_in_another_case_is_not_missing() {
    let config = registry("task_versions:\n  Deploy/Setup:\n    - 1\n  other:\n    - 1\n");
    let mut issues = TaskIssues::default();
    let mut analysis = RepoAnalysis::start("R");
    analysis.step(RepoEvent::Acquired, &mut issues, &config);
    analysis.step(RepoEvent::Discovered(vec!["a.yml".to_string()]), &mut issues, &config);
    analysis.step(RepoEvent::FileRead("task: DEPLOY/setup@1".to_string()), &mut issues, &config);
    assert_eq!(issues.missing_required_tasks.get("R"), Some(&vec!["other".to_string()]));
    assert!(issues.invalid_states.is_empty());
    assert!(issues.missing_states.is_empty());
    assert_eq!(issues.all_implementations.get("deploy/setup").map(|l| l.len()), Some(1));
}

#[test]
fn found_names_are_kept_in_lowercase() {
    let config = registry("task_versions:\n  a:\n    - 1\n");
    let mut issues = TaskIssues::default();
    let mut found = StringSet::new();
    let mut keys = StringSet::new();
    keys.insert("Build/X@1".to_string());
    keys.insert("build/x@2".to_string());
    keys.insert("ÄB@3".to_string());
    record_file_sightings(&mut issues, &mut found, &keys, "R", "f.yml", &config);
    assert_eq!(found.len(), 2);
    assert!(found.contains("build/x"));
    assert!(found.contains("äb"));
    assert!(!found.contains("Build/X"));
}
