use ciprobe::collector::{collect_from_content, collected_task, PipelineFile};
use ciprobe::{CollectedTask, TaskImplementationCollector};

fn parts(task: &CollectedTask) -> (&str, &str, &str) {
    match task {
        CollectedTask::Regular { task_name, version, file_path } => {
            (task_name.as_str(), version.as_str(), file_path.as_str())
        }
    }
}

fn collected(content: &str) -> Vec<(String, String)> {
    collect_from_content(content, "f.yml")
        .unwrap()
        .iter()
        .map(|t| {
            let (name, version, _) = parts(t);
            (name.to_string(), version.to_string())
        })
        .collect()
}

fn pair(name: &str, version: &str) -> (String, String) {
    (name.to_string(), version.to_string())
}

#[test]
fn tasks_are_collected_line_by_line() {
    let content = "\
steps:
  - task: build/compile@3
  # task: commented/out@1
  // task: also/commented@1
  - task:Deploy_Setup@12
  - task: build/compile@3
  - script: echo task
";
    assert_eq!(
        collected(content),
        vec![pair("build/compile", "3"), pair("Deploy_Setup", "12"), pair("build/compile", "3")]
    );
}

#[test]
fn the_pattern_is_sought_anywhere_in_a_line() {
    assert_eq!(collected("x task: a@1 y"), vec![pair("a", "1")]);
    assert_eq!(collected("task: a@1 task: b@2"), vec![pair("a", "1")]);
    assert_eq!(collected("task: a@12abc"), vec![pair("a", "12")]);
    assert_eq!(collected("task: !! task:\t b/c@7"), vec![pair("b/c", "7")]);
}

#[test]
fn lines_without_the_pattern_give_nothing() {
    assert_eq!(collected(""), vec![]);
    assert_eq!(collected("task: a @1"), vec![]);
    assert_eq!(collected("task: a@ 1"), vec![]);
    assert_eq!(collected("task: @1"), vec![]);
    assert_eq!(collected("task a@1"), vec![]);
    assert_eq!(collected("   # task: a@1\n//task: b@2"), vec![]);
}

#[test]
fn the_file_is_noted_with_each_task() {
    let tasks = collect_from_content("task: a@1", "dir/pipeline.yml").unwrap();
    assert_eq!(tasks.len(), 1);
    assert_eq!(parts(&tasks[0]), ("a", "1", "dir/pipeline.yml"));
}

#[test]
fn groups_of_a_match_stand_for_a_task() {
    let groups = Some(vec![
        Some("task: a@1".to_string()),
        Some("a".to_string()),
        Some("1".to_string()),
    ]);
    let task = collected_task(&groups, "f.yml").unwrap();
    assert_eq!(parts(&task), ("a", "1", "f.yml"));
    assert!(collected_task(&None, "f.yml").is_none());
    assert!(collected_task(&Some(vec![]), "f.yml").is_none());
    assert!(collected_task(&Some(vec![Some("x".to_string()), Some("a".to_string())]), "f.yml")
        .is_none());
    let without_version = Some(vec![Some("x".to_string()), Some("a".to_string()), None]);
    assert!(collected_task(&without_version, "f.yml").is_none());
    let without_name = Some(vec![Some("x".to_string()), None, Some("1".to_string())]);
    assert!(collected_task(&without_name, "f.yml").is_none());
}

#[test]
fn files_are_collected_one_after_the_other() {
    let collector = TaskImplementationCollector::new("/work/repo".to_string(), "repo".to_string());
    assert_eq!(collector.repo_path, "/work/repo");
    assert_eq!(collector.repo_name, "repo");
    let files = vec![
        PipelineFile { path: "a.yml".to_string(), content: "task: x@1\ntask: y@2".to_string() },
        PipelineFile { path: "b.yml".to_string(), content: "# nothing".to_string() },
        PipelineFile { path: "c.yml".to_string(), content: "task: x@3".to_string() },
    ];
    let tasks = collector.collect(&files).unwrap();
    let found: Vec<(&str, &str, &str)> = tasks.iter().map(parts).collect();
    assert_eq!(found, vec![("x", "1", "a.yml"), ("y", "2", "a.yml"), ("x", "3", "c.yml")]);
    assert!(collector.collect(&Vec::new()).unwrap().is_empty());
}
