use ciprobe::config::Config;
use ciprobe::{SupportedTask, TaskImplementation, TaskIssues};
use std::str::FromStr;

fn registry() -> Config {
    let text = "task_versions:\n  build/compile:\n    - 2\n  Deploy/Setup:\n    - 1\n    - 1.5\n  empty:\n";
    Config::load(None, Some(text)).unwrap()
}

fn sighting(repo: &str, version: &str, file: &str) -> TaskImplementation {
    TaskImplementation::new(repo, version, file)
}

fn total(issues: &TaskIssues) -> usize {
    let map = &issues.all_implementations;
    (0..map.len()).map(|i| map.value_at(i).len()).sum()
}

#[test]
fn fresh_accumulator_is_empty() {
    let issues = TaskIssues::default();
    assert!(issues.missing_required_tasks.is_empty());
    assert!(issues.invalid_states.is_empty());
    assert!(issues.missing_states.is_empty());
    assert!(issues.all_implementations.is_empty());
    assert!(issues.repos_analyzed.is_empty());
    assert!(issues.repos_skipped.is_empty());
}

#[test]
fn listed_version_is_valid() {
    let config = registry();
    let mut issues = TaskIssues::default();
    issues.add_implementation("build/compile", "r", "2".to_string(), "f.yml".to_string(), &config);
    assert_eq!(issues.all_implementations.get("build/compile"), Some(&vec![sighting("r", "2", "f.yml")]));
    assert!(issues.invalid_states.is_empty());
    assert!(issues.missing_states.is_empty());
}

#[test]
fn unlisted_version_is_invalid() {
    let config = registry();
    let mut issues = TaskIssues::default();
    issues.add_implementation("build/compile", "r", "3".to_string(), "f.yml".to_string(), &config);
    assert_eq!(issues.all_implementations.get("build/compile"), Some(&vec![sighting("r", "3", "f.yml")]));
    let by_repo = issues.invalid_states.get("build/compile").unwrap();
    assert_eq!(by_repo.get("r"), Some(&vec![sighting("r", "3", "f.yml")]));
    assert!(issues.missing_states.is_empty());
}

#[test]
fn versions_are_compared_letter_for_letter() {
    let config = registry();
    let mut issues = TaskIssues::default();
    issues.add_implementation("build/compile", "r", "2.0".to_string(), "f.yml".to_string(), &config);
    issues.add_implementation("deploy/setup", "r", "1.5".to_string(), "f.yml".to_string(), &config);
    assert!(issues.invalid_states.get("build/compile").is_some());
    assert!(issues.invalid_states.get("deploy/setup").is_none());
}

#[test]
fn unknown_task_is_noted_under_the_name_as_written() {
    let config = registry();
    let mut issues = TaskIssues::default();
    issues.add_implementation("Lint/Check", "r", "1".to_string(), "f.yml".to_string(), &config);
    assert_eq!(issues.missing_states.get("lint/check"), Some(&"Lint/Check".to_string()));
    assert!(issues.missing_states.get("Lint/Check").is_none());
    assert!(issues.invalid_states.is_empty());
    assert_eq!(issues.all_implementations.get("lint/check"), Some(&vec![sighting("r", "1", "f.yml")]));
    issues.add_implementation("LINT/check", "r", "1".to_string(), "g.yml".to_string(), &config);
    assert_eq!(issues.missing_states.len(), 1);
    assert_eq!(issues.missing_states.get("lint/check"), Some(&"LINT/check".to_string()));
}

#[test]
fn task_without_versions_is_noted_as_unconfigured() {
    let config = registry();
    let mut issues = TaskIssues::default();
    issues.add_implementation("Empty", "r", "1".to_string(), "f.yml".to_string(), &config);
    assert_eq!(issues.missing_states.get("empty"), Some(&"Empty".to_string()));
    assert!(issues.invalid_states.is_empty());
}

#[test]
fn lookup_is_by_lowercase_name() {
    let config = registry();
    let mut issues = TaskIssues::default();
    issues.add_implementation("Deploy/Setup", "r", "1".to_string(), "f.yml".to_string(), &config);
    issues.add_implementation("DEPLOY/SETUP", "r", "9".to_string(), "f.yml".to_string(), &config);
    assert!(issues.missing_states.is_empty());
    assert_eq!(
        issues.all_implementations.get("deploy/setup"),
        Some(&vec![sighting("r", "1", "f.yml"), sighting("r", "9", "f.yml")])
    );
    assert!(issues.all_implementations.get("Deploy/Setup").is_none());
    let by_repo = issues.invalid_states.get("deploy/setup").unwrap();
    assert_eq!(by_repo.get("r"), Some(&vec![sighting("r", "9", "f.yml")]));
}

#[test]
fn every_sighting_is_counted_once() {
    let config = registry();
    let sightings = [
        ("build/compile", "a", "2", "1.yml"),
        ("build/compile", "a", "3", "1.yml"),
        ("Build/Compile", "b", "2", "2.yml"),
        ("unknown", "a", "1", "1.yml"),
        ("deploy/setup", "b", "7", "3.yml"),
        ("deploy/setup", "b", "7", "3.yml"),
    ];
    let mut forward = TaskIssues::default();
    for (n, (task, repo, version, file)) in sightings.iter().enumerate() {
        forward.add_implementation(task, repo, version.to_string(), file.to_string(), &config);
        assert_eq!(total(&forward), n + 1);
    }
    let mut backward = TaskIssues::default();
    for (task, repo, version, file) in sightings.iter().rev() {
        backward.add_implementation(task, repo, version.to_string(), file.to_string(), &config);
    }
    assert_eq!(total(&backward), sightings.len());
    assert_eq!(forward.all_implementations.len(), backward.all_implementations.len());
}

#[test]
fn invalid_sightings_are_kept_by_task_and_repository() {
    let mut issues = TaskIssues::default();
    issues.add_invalid_state("t", "a", "1".to_string(), "x.yml".to_string());
    issues.add_invalid_state("t", "b", "2".to_string(), "y.yml".to_string());
    issues.add_invalid_state("t", "a", "3".to_string(), "z.yml".to_string());
    issues.add_invalid_state("u", "a", "4".to_string(), "x.yml".to_string());
    assert_eq!(issues.invalid_states.len(), 2);
    let t = issues.invalid_states.get("t").unwrap();
    assert_eq!(t.len(), 2);
    assert_eq!(t.get("a"), Some(&vec![sighting("a", "1", "x.yml"), sighting("a", "3", "z.yml")]));
    assert_eq!(t.get("b"), Some(&vec![sighting("b", "2", "y.yml")]));
    let u = issues.invalid_states.get("u").unwrap();
    assert_eq!(u.get("a"), Some(&vec![sighting("a", "4", "x.yml")]));
    assert!(issues.all_implementations.is_empty());
}

#[test]
fn missing_tasks_are_kept_by_repository() {
    let mut issues = TaskIssues::default();
    issues.add_missing_task("a", "t1");
    issues.add_missing_task("b", "t1");
    issues.add_missing_task("a", "t2");
    assert_eq!(issues.missing_required_tasks.get("a"), Some(&vec!["t1".to_string(), "t2".to_string()]));
    assert_eq!(issues.missing_required_tasks.get("b"), Some(&vec!["t1".to_string()]));
    assert!(issues.missing_required_tasks.get("c").is_none());
}

#[test]
fn skipped_repository_counts_as_analyzed() {
    let mut issues = TaskIssues::default();
    issues.mark_analyzed("a");
    issues.mark_skipped("b");
    issues.mark_analyzed("a");
    assert!(issues.repos_analyzed.contains("a"));
    assert!(issues.repos_analyzed.contains("b"));
    assert!(!issues.repos_skipped.contains("a"));
    assert!(issues.repos_skipped.contains("b"));
    assert_eq!(issues.repos_analyzed.len(), 2);
    assert_eq!(issues.repos_skipped.len(), 1);
}

#[test]
fn supported_task_is_known_by_its_lowercase_name() {
    let task = SupportedTask::from_str("Build/Compile").unwrap();
    assert_eq!(task, SupportedTask::Default("build/compile".to_string()));
    assert_eq!(task.to_string(), "build/compile");
    assert_eq!(SupportedTask::from_name("ÀB"), SupportedTask::Default("àb".to_string()));
}
