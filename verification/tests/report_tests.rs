use ciprobe::config::Config;
use ciprobe::report::{
    count_items, count_nested_items, repo_has_issue, shown_task_name, summarize, valid_tasks,
    ReportSummary, ValidTask,
};
use ciprobe::utils::{is_pipeline_file_name, sanitize_file_path};
use ciprobe::TaskIssues;

fn registry() -> Config {
    let text = "task_versions:\n  build:\n    - 2\n  deploy:\n    - 1\n  lint:\n    - 1\n  test:\n    - 1\n";
    Config::load(None, Some(text)).unwrap()
}

fn record(issues: &mut TaskIssues, config: &Config, task: &str, repo: &str, version: &str) {
    issues.add_implementation(task, repo, version.to_string(), "f.yml".to_string(), config);
}

#[test]
fn fresh_accumulator_reports_nothing() {
    let issues = TaskIssues::default();
    assert_eq!(
        summarize(&issues),
        ReportSummary {
            repos_analyzed: 0,
            repos_skipped: 0,
            repos_with_issues: 0,
            missing_task_implementations: 0,
            invalid_state_implementations: 0,
        }
    );
    assert!(valid_tasks(&issues, &registry()).is_empty());
}

#[test]
fn summary_counts_what_was_recorded() {
    let config = registry();
    let mut issues = TaskIssues::default();
    for repo in ["clean", "invalid", "missing", "unconfigured", "both"] {
        issues.mark_analyzed(repo);
    }
    issues.mark_skipped("empty");
    record(&mut issues, &config, "build", "clean", "2");
    record(&mut issues, &config, "build", "invalid", "3");
    record(&mut issues, &config, "build", "invalid", "4");
    record(&mut issues, &config, "Unknown", "unconfigured", "1");
    record(&mut issues, &config, "deploy", "both", "9");
    issues.add_missing_task("missing", "lint");
    issues.add_missing_task("missing", "test");
    issues.add_missing_task("both", "lint");
    // Issues of a repository that was not reached, or was skipped, do not
    // make it a repository with issues.
    issues.add_missing_task("never-reached", "lint");
    issues.add_missing_task("empty", "lint");
    record(&mut issues, &config, "deploy", "never-reached", "9");

    assert_eq!(
        summarize(&issues),
        ReportSummary {
            repos_analyzed: 6,
            repos_skipped: 1,
            repos_with_issues: 4,
            missing_task_implementations: 5,
            invalid_state_implementations: 4,
        }
    );
    assert_eq!(count_items(&issues.missing_required_tasks), 5);
    assert_eq!(count_items(&issues.all_implementations), 6);
    assert_eq!(count_nested_items(&issues.invalid_states), 4);
    assert!(!repo_has_issue(&issues, "clean"));
    assert!(repo_has_issue(&issues, "invalid"));
    assert!(repo_has_issue(&issues, "missing"));
    assert!(repo_has_issue(&issues, "unconfigured"));
    assert!(repo_has_issue(&issues, "both"));
    assert!(repo_has_issue(&issues, "empty"));
    assert!(!repo_has_issue(&issues, "elsewhere"));
}

#[test]
fn valid_tasks_are_listed_in_the_order_of_the_registry() {
    let config = registry();
    let mut issues = TaskIssues::default();
    record(&mut issues, &config, "test", "https://host/org/b.git", "1");
    record(&mut issues, &config, "Test", "https://host/org/a", "1");
    record(&mut issues, &config, "test", "https://other/b", "1");
    record(&mut issues, &config, "build", "https://host/org/a", "2");
    record(&mut issues, &config, "deploy", "https://host/org/a", "1");
    record(&mut issues, &config, "deploy", "https://host/org/a", "7");
    record(&mut issues, &config, "unknown", "https://host/org/a", "1");
    assert_eq!(
        valid_tasks(&issues, &config),
        vec![
            ValidTask {
                task_name: "build".to_string(),
                version: "2".to_string(),
                repos: vec!["a".to_string()],
            },
            ValidTask {
                task_name: "test".to_string(),
                version: "1".to_string(),
                repos: vec!["b".to_string(), "a".to_string()],
            },
        ]
    );
}

#[test]
fn unconfigured_tasks_are_shown_as_written() {
    let config = registry();
    let mut issues = TaskIssues::default();
    record(&mut issues, &config, "New/Task", "r", "1");
    assert_eq!(shown_task_name(&issues, "new/task"), "New/Task");
    assert_eq!(shown_task_name(&issues, "build"), "build");
}

#[test]
fn sanitized_path_stays_below_its_directory() {
    assert_eq!(sanitize_file_path(""), "");
    assert_eq!(sanitize_file_path("a/b.yml"), "a/b.yml");
    assert_eq!(sanitize_file_path("/etc/passwd"), "etc/passwd");
    assert_eq!(sanitize_file_path("../../etc/passwd"), "etc/passwd");
    assert_eq!(sanitize_file_path("a/./b//c/../d/"), "a/b/c/d");
    assert_eq!(sanitize_file_path("./"), "");
    assert_eq!(sanitize_file_path(".."), "");
    assert_eq!(sanitize_file_path("..."), "...");
    assert_eq!(sanitize_file_path(".hidden/..x/y."), ".hidden/..x/y.");
    assert_eq!(sanitize_file_path("///"), "");
}

#[test]
fn sanitized_path_agrees_with_the_normal_components_of_the_standard_library() {
    for path in ["", "a", "/a/b", "../a", "a/../b", "./a/./b/", "a//b", "/", "..", "a/.../b"] {
        let expected: Vec<String> = std::path::Path::new(path)
            .components()
            .filter_map(|c| match c {
                std::path::Component::Normal(name) => Some(name.to_string_lossy().into_owned()),
                _ => None,
            })
            .collect();
        assert_eq!(sanitize_file_path(path), expected.join("/"), "{:?}", path);
    }
}

#[test]
fn pipeline_files_are_known_by_their_extension() {
    for name in [
        "azure-pipelines.yml",
        "build.yaml",
        ".gitlab-ci.yml",
        "a.b.yml",
        ".yml",
        ".yaml",
        "yml",
        "a.YML",
        "a.yml.bak",
        "a.yml.",
        "a.",
        "a.ymll",
        "a.yam",
        "",
        ".",
        "..yml",
        "a..yaml",
        "é.yml",
    ] {
        let expected = match std::path::Path::new(name).extension() {
            Some(ext) => ext == "yml" || ext == "yaml",
            None => false,
        };
        assert_eq!(is_pipeline_file_name(name), expected, "{:?}", name);
    }
    assert!(is_pipeline_file_name("azure-pipelines.yml"));
    assert!(is_pipeline_file_name(".gitlab-ci.yml"));
    assert!(!is_pipeline_file_name(".yml"));
    assert!(!is_pipeline_file_name("README.md"));
}
