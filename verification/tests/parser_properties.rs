use ciprobe::line_parser::{parse_task_definition, TaskDefinition};

fn declared(name: &str, version: &str) -> Option<TaskDefinition> {
    Some(TaskDefinition { name: name.to_string(), version: version.to_string() })
}

#[test]
fn declaration_is_read_whatever_whitespace_surrounds_it() {
    let spaces = ["", " ", "   ", "\t", " \t ", "\u{a0}", "\u{2003} "];
    let names = ["a", "A9", "my_task", "build/compile", "_", "/", "x/y/z_0"];
    let versions = ["0", "1", "42", "007", "12345678901234567890"];
    for w in spaces {
        for name in names {
            for version in versions {
                let line = format!("{w}task:{w}{name}{w}@{w}{version}{w}");
                assert_eq!(parse_task_definition(&line), declared(name, version), "{:?}", line);
            }
        }
    }
}

#[test]
fn line_without_marker_declares_nothing() {
    for line in [
        "",
        "   ",
        "name@1",
        "tasks name@1",
        "task name@1",
        "Task: name@1",
        "TASK: name@1",
        "task :name@1",
        "- script: build@2",
        "other: name@123",
    ] {
        assert_eq!(parse_task_definition(line), None, "{:?}", line);
    }
}

#[test]
fn version_must_be_made_of_digits() {
    for line in [
        "task: name@",
        "task: name@ ",
        "task: name@abc",
        "task: name@1.0",
        "task: name@1 0",
        "task: name@v1",
        "task: name@1a",
        "task: name@-1",
        "task: name@+1",
        "task: name@٣",
        "task: name@1@2",
        "task: name@1 # latest",
    ] {
        assert_eq!(parse_task_definition(line), None, "{:?}", line);
    }
}

#[test]
fn name_must_be_made_of_name_characters() {
    for line in [
        "task: @1",
        "task:@1",
        "task:   @1",
        "task: invalid!name@123",
        "task: my task@1",
        "task: my-task@1",
        "task: my.task@1",
        "task: name:@1",
        "task: 'name'@1",
        "task: €@1",
    ] {
        assert_eq!(parse_task_definition(line), None, "{:?}", line);
    }
}

#[test]
fn comment_declares_nothing() {
    for line in [
        "# task: name@1",
        "#task: name@1",
        "   # task: name@1",
        "// task: name@1",
        "  //task: name@1",
        "\t#",
        "//",
    ] {
        assert_eq!(parse_task_definition(line), None, "{:?}", line);
    }
}

#[test]
fn a_single_slash_starts_no_comment() {
    assert_eq!(parse_task_definition("/ task: name@1"), declared("name", "1"));
}

#[test]
fn marker_may_stand_anywhere_in_the_line() {
    assert_eq!(parse_task_definition("- task: Build@2"), declared("Build", "2"));
    assert_eq!(parse_task_definition("  - task: a/b@10  "), declared("a/b", "10"));
    assert_eq!(parse_task_definition("xtask:name@3"), declared("name", "3"));
    assert_eq!(parse_task_definition("steps: [ task: n@1"), declared("n", "1"));
}

#[test]
fn the_first_marker_counts() {
    assert_eq!(parse_task_definition("task: task: name@1"), None);
    assert_eq!(parse_task_definition("task: a@1 task: b@2"), None);
    assert_eq!(parse_task_definition("task:task@1"), declared("task", "1"));
}

#[test]
fn the_first_separator_after_the_marker_counts() {
    assert_eq!(parse_task_definition("a@b task: name@7"), declared("name", "7"));
    assert_eq!(parse_task_definition("task: a@b@7"), None);
    assert_eq!(parse_task_definition("task: a@7@"), None);
}

#[test]
fn names_may_hold_letters_and_digits_of_any_script() {
    assert_eq!(parse_task_definition("task: Überprüfung@1"), declared("Überprüfung", "1"));
    assert_eq!(parse_task_definition("task: 構築/٣@12"), declared("構築/٣", "12"));
}

#[test]
fn casing_of_the_name_is_kept() {
    assert_eq!(parse_task_definition("task: Deploy/Setup@4"), declared("Deploy/Setup", "4"));
}
