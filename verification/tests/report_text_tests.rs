use ciprobe::config::Config;
use ciprobe::report::{
    generate_header, generate_invalid_states_section, generate_markdown_report,
    generate_missing_states_section, generate_summary_section, generate_valid_states_section,
    invalid_tasks, rest_or_whole, write_header, write_invalid_states_section, InvalidEntry,
    InvalidRepo, InvalidTask,
};
use ciprobe::TaskIssues;

fn registry() -> Config {
    let text = "task_versions:\n  build:\n    - 2\n    - 3\n  deploy:\n    - 1\n  test:\n    - 1\n";
    Config::load(None, Some(text)).unwrap()
}

fn record(issues: &mut TaskIssues, config: &Config, task: &str, repo: &str, version: &str, file: &str) {
    issues.add_implementation(task, repo, version.to_string(), file.to_string(), config);
}

fn sample() -> (Vec<String>, Config, TaskIssues) {
    let config = registry();
    let repos = vec![
        "https://host/org/alpha.git".to_string(),
        "https://host/org/beta".to_string(),
        "https://host/org/empty".to_string(),
    ];
    let mut issues = TaskIssues::default();
    issues.mark_analyzed(&repos[0]);
    issues.mark_analyzed(&repos[1]);
    issues.mark_skipped(&repos[2]);
    record(&mut issues, &config, "test", &repos[1], "1", "ci/test.yml");
    record(&mut issues, &config, "test", &repos[0], "1", "ci/test.yml");
    record(&mut issues, &config, "build", &repos[0], "2", "ci/build.yml");
    record(&mut issues, &config, "deploy", &repos[0], "7", "ci/deploy.yml");
    record(&mut issues, &config, "deploy", &repos[1], "8", "a.yml");
    record(&mut issues, &config, "deploy", &repos[1], "9", "b.yml");
    record(&mut issues, &config, "Zeta/Task", &repos[0], "1", "z.yml");
    record(&mut issues, &config, "Lint", &repos[0], "1", "l.yml");
    issues.add_missing_task(&repos[1], "build");
    (repos, config, issues)
}

#[test]
fn header_lists_the_repositories() {
    let (repos, _, issues) = sample();
    let mut md = "before\n".to_string();
    write_header(&mut md, &repos, &issues, "2024-05-06 07:08:09");
    assert_eq!(
        md,
        "before\n\
         # 📊 Pipeline Task Analysis Report\n\n\
         🕒 Generated on: 2024-05-06 07:08:09\n\n\
         ## 📚 Analyzed Repositories\n\n\
         - [alpha](https://host/org/alpha.git)\n\
         - [beta](https://host/org/beta)\n\
         \n\
         ## ⏭️ Skipped Repositories\n\n\
         - [empty](https://host/org/empty) (no pipeline files found)\n\
         \n"
    );
}

#[test]
fn header_without_skipped_repositories_has_no_list_of_them() {
    let issues = TaskIssues::default();
    let mut md = String::new();
    write_header(&mut md, &vec!["r".to_string()], &issues, "now");
    assert_eq!(
        md,
        "# 📊 Pipeline Task Analysis Report\n\n🕒 Generated on: now\n\n## 📚 Analyzed Repositories\n\n- [r](r)\n\n"
    );
}

#[test]
fn header_is_made_with_the_time_of_the_call() {
    let issues = TaskIssues::default();
    let mut md = String::new();
    generate_header(&mut md, &Vec::new(), &issues);
    let lines: Vec<&str> = md.lines().collect();
    assert_eq!(lines[0], "# 📊 Pipeline Task Analysis Report");
    let stamp = lines[2].strip_prefix("🕒 Generated on: ").unwrap();
    let shape: String =
        stamp.chars().map(|c| if c.is_ascii_digit() { '0' } else { c }).collect();
    assert_eq!(shape, "0000-00-00 00:00:00");
    assert_eq!(lines[4], "## 📚 Analyzed Repositories");
}

#[test]
fn summary_states_the_figures() {
    let (_, _, issues) = sample();
    let mut md = String::new();
    generate_summary_section(&mut md, &issues);
    assert_eq!(
        md,
        "## 📈 Summary\n\n\
         - 🏢 Total repositories analyzed: 3\n\
         - ⏭️ Skipped repositories: 1\n\
         - ⚠️ Repositories with issues: 2\n\
         - ❌ Total missing task implementations: 1\n\
         - ⚡ Total invalid state implementations: 3\n\
         \n"
    );
    let mut md = String::new();
    generate_summary_section(&mut md, &TaskIssues::default());
    assert_eq!(
        md,
        "## 📈 Summary\n\n\
         - 🏢 Total repositories analyzed: 0\n\
         - ⚠️ Repositories with issues: 0\n\
         - ❌ Total missing task implementations: 0\n\
         - ⚡ Total invalid state implementations: 0\n\
         \n"
    );
}

#[test]
fn valid_tasks_are_listed_in_the_order_of_the_dictionary() {
    let (_, config, issues) = sample();
    let mut md = String::new();
    generate_valid_states_section(&mut md, &issues, &config);
    assert_eq!(
        md,
        "## ✅ Valid Task States\n\n\
         - build v2 (alpha)\n\
         - test v1 (beta, alpha)\n\
         \n"
    );
    let mut md = String::new();
    generate_valid_states_section(&mut md, &TaskIssues::default(), &config);
    assert_eq!(md, "## ✅ Valid Task States\n\nNo tasks are currently in a valid state.\n\n");
}

#[test]
fn unconfigured_tasks_are_listed_as_written() {
    let (_, _, issues) = sample();
    let mut md = String::new();
    generate_missing_states_section(&mut md, &issues);
    assert_eq!(
        md,
        "## ❌ Tasks with Missing Valid States\n\n\
         - Lint\n\
         - Zeta/Task\n\
         \nConsider adding these tasks to your `ciprobeconfig.yml` with the appropriate valid versions.\n\n"
    );
}

#[test]
fn invalid_sightings_are_listed_by_task_and_repository() {
    let (_, config, issues) = sample();
    let mut md = String::new();
    generate_invalid_states_section(&mut md, &issues, &config);
    assert_eq!(
        md,
        "## ⚠️ Invalid Task States\n\n\
         ### 🔧 deploy (expected: 1)\n\n\
         #### 📁 [alpha](https://host/org/alpha.git)\n\n\
         - Version 7 in `ci/deploy.yml`\n\
         \n\
         #### 📁 [beta](https://host/org/beta)\n\n\
         - Version 8 in `a.yml`\n\
         - Version 9 in `b.yml`\n\
         \n"
    );
}

#[test]
fn invalid_sightings_are_shown_below_their_repository() {
    let config = registry();
    let mut issues = TaskIssues::default();
    record(&mut issues, &config, "build", "https://host/org/alpha.git", "9", "alpha/ci/build.yml");
    let tasks = invalid_tasks(&issues, &config);
    assert_eq!(
        tasks,
        vec![InvalidTask {
            shown_name: "build".to_string(),
            expected: vec!["2".to_string(), "3".to_string()],
            repos: vec![InvalidRepo {
                repo_url: "https://host/org/alpha.git".to_string(),
                entries: vec![InvalidEntry {
                    version: "9".to_string(),
                    shown_path: "ci/build.yml".to_string(),
                }],
            }],
        }]
    );
    let mut md = String::new();
    write_invalid_states_section(&mut md, &tasks);
    assert_eq!(
        md,
        "## ⚠️ Invalid Task States\n\n\
         ### 🔧 build (expected: 2 or 3)\n\n\
         #### 📁 [alpha](https://host/org/alpha.git)\n\n\
         - Version 9 in `ci/build.yml`\n\
         \n"
    );
    let mut md = String::new();
    write_invalid_states_section(&mut md, &Vec::new());
    assert_eq!(md, "## ⚠️ Invalid Task States\n\nNo invalid task states found.\n\n");
}

#[test]
fn report_holds_the_sections_that_have_something_to_show() {
    let (repos, config, issues) = sample();
    let md = generate_markdown_report(&repos, &config, &issues);
    let headings: Vec<&str> = md.lines().filter(|l| l.starts_with("## ")).collect();
    assert_eq!(
        headings,
        vec![
            "## 📚 Analyzed Repositories",
            "## ⏭️ Skipped Repositories",
            "## 📈 Summary",
            "## ✅ Valid Task States",
            "## ⚠️ Invalid Task States",
            "## ❌ Tasks with Missing Valid States",
        ]
    );
    let md = generate_markdown_report(&Vec::new(), &config, &TaskIssues::default());
    let headings: Vec<&str> = md.lines().filter(|l| l.starts_with("## ")).collect();
    assert_eq!(headings, vec!["## 📚 Analyzed Repositories", "## 📈 Summary"]);
    assert!(md.ends_with("- ⚡ Total invalid state implementations: 0\n\n"));
}

#[test]
fn a_path_is_shown_as_it_is_where_nothing_was_stripped() {
    assert_eq!(rest_or_whole(Some("ci/build.yml".to_string()), "alpha/ci/build.yml".to_string()), "ci/build.yml");
    assert_eq!(rest_or_whole(Some(String::new()), "alpha".to_string()), "");
    assert_eq!(rest_or_whole(None, "alpha/ci/build.yml".to_string()), "alpha/ci/build.yml");
}

#[test]
fn a_path_outside_its_repository_is_shown_whole() {
    let config = registry();
    let mut issues = TaskIssues::default();
    record(&mut issues, &config, "build", "https://host/org/alpha.git", "9", "beta/ci/build.yml");
    record(&mut issues, &config, "build", "https://host/org/alpha.git", "8", "/abs/alpha/b.yml");
    let tasks = invalid_tasks(&issues, &config);
    let shown: Vec<&str> =
        tasks[0].repos[0].entries.iter().map(|e| e.shown_path.as_str()).collect();
    assert_eq!(shown, vec!["beta/ci/build.yml", "/abs/alpha/b.yml"]);
}
