use git_project::apply::apply_directive;
use git_project::apply::process_message;
use git_project::directive::parse_directives;
use git_project::resolve::resolve_project;
use git_project::resolve::DirectiveError;
use git_project::Column;
use git_project::GitProject;
use git_project::Id;
use git_project::Project;
use git_project::Task;

fn project_with_columns(id: &str, columns: &[&str], task_ids: &[&str]) -> Project {
    let mut builder = Project::new(id).name(id).description("a project");
    for cid in columns {
        builder = builder.column(Column::new(cid).name(cid).description("a column").build().unwrap());
    }
    for tid in task_ids {
        builder = builder.task(Task::new(tid).name("a task").description("about it").build().unwrap());
    }
    let mut project = builder.build().unwrap();
    for tid in task_ids {
        project.move_task_to_column(Id::new(tid), Id::new(columns[0]));
    }
    project
}

fn column_task_ids(board: &GitProject, project: usize, column_id: &str) -> Vec<String> {
    let column = board.projects()[project].column_with_id(&Id::new(column_id)).unwrap();
    column.tasks().iter().map(|id| id.to_text()).collect()
}

#[test]
fn a_transition_and_a_tag_change_run_in_document_order() {
    let mut board = GitProject::new()
        .project(project_with_columns("proj", &["new", "done"], &["my-task"]))
        .build()
        .unwrap();
    let result = process_message(&mut board, "[my-task: done] [my-task +urgent]");
    assert!(result.is_ok());
    assert!(column_task_ids(&board, 0, "new").is_empty());
    assert_eq!(column_task_ids(&board, 0, "done"), ["my-task"]);
    let task = board.projects()[0].task_with_id(&Id::new("my-task")).unwrap();
    assert_eq!(task.tags(), ["urgent".to_string()]);
}

#[test]
fn an_unknown_column_fails_and_leaves_the_board_alone() {
    let mut board = GitProject::new()
        .project(project_with_columns("alpha", &["new", "review"], &["t1"]))
        .build()
        .unwrap();
    let failure = process_message(&mut board, "[t1@alpha: done]").unwrap_err();
    match &failure.error {
        DirectiveError::UnknownColumn { project, column } => {
            assert_eq!(project.as_str(), "alpha");
            assert_eq!(column.as_str(), "done");
        },
        other => panic!("wrong error: {:?}", other),
    }
    assert_eq!(failure.command, "[t1@alpha: done]");
    assert_eq!(column_task_ids(&board, 0, "new"), ["t1"]);
}

#[test]
fn a_duplicated_task_identifier_is_ambiguous_without_a_project() {
    let mut board = GitProject::new()
        .project(project_with_columns("alpha", &["new", "done"], &["dup-id"]))
        .project(project_with_columns("beta", &["new", "done"], &["dup-id"]))
        .build()
        .unwrap();
    let failure = process_message(&mut board, "[dup-id: done]").unwrap_err();
    match &failure.error {
        DirectiveError::AmbiguousTask { task, candidates } => {
            assert_eq!(task.as_str(), "dup-id");
            let names: Vec<String> = candidates.iter().map(|id| id.to_text()).collect();
            assert_eq!(names, ["alpha", "beta"]);
        },
        other => panic!("wrong error: {:?}", other),
    }
    assert_eq!(column_task_ids(&board, 0, "new"), ["dup-id"]);
    assert_eq!(column_task_ids(&board, 1, "new"), ["dup-id"]);
}

#[test]
fn a_board_unique_task_resolves_without_a_project_reference() {
    let mut board = GitProject::new()
        .project(project_with_columns("alpha", &["new", "done"], &["solo"]))
        .project(project_with_columns("beta", &["new", "done"], &["other"]))
        .build()
        .unwrap();
    assert!(process_message(&mut board, "[solo: done]").is_ok());
    assert_eq!(column_task_ids(&board, 0, "done"), ["solo"]);
    assert_eq!(column_task_ids(&board, 1, "new"), ["other"]);
}

#[test]
fn the_column_filter_disambiguates_between_holders() {
    let mut board = GitProject::new()
        .project(project_with_columns("alpha", &["new", "review"], &["dup"]))
        .project(project_with_columns("beta", &["new", "done"], &["dup"]))
        .build()
        .unwrap();
    assert!(process_message(&mut board, "[dup: done]").is_ok());
    assert_eq!(column_task_ids(&board, 0, "new"), ["dup"]);
    assert_eq!(column_task_ids(&board, 1, "done"), ["dup"]);
}

#[test]
fn an_unknown_project_reference_fails() {
    let mut board = GitProject::new()
        .project(project_with_columns("alpha", &["new", "done"], &["t1"]))
        .build()
        .unwrap();
    let failure = process_message(&mut board, "[t1@gamma: done]").unwrap_err();
    match &failure.error {
        DirectiveError::UnknownProject { project } => assert_eq!(project.as_str(), "gamma"),
        other => panic!("wrong error: {:?}", other),
    }
}

#[test]
fn a_missing_task_fails_as_not_found() {
    let mut board = GitProject::new()
        .project(project_with_columns("alpha", &["new", "done"], &["t1"]))
        .build()
        .unwrap();
    let failure = process_message(&mut board, "[ghost: done]").unwrap_err();
    match &failure.error {
        DirectiveError::TaskNotFound { task } => assert_eq!(task.as_str(), "ghost"),
        other => panic!("wrong error: {:?}", other),
    }
}

#[test]
fn an_explicit_project_still_checks_task_membership() {
    let mut board = GitProject::new()
        .project(project_with_columns("alpha", &["new", "done"], &["t1"]))
        .build()
        .unwrap();
    let failure = process_message(&mut board, "[ghost@alpha: done]").unwrap_err();
    match &failure.error {
        DirectiveError::UnknownTask { project, task } => {
            assert_eq!(project.as_str(), "alpha");
            assert_eq!(task.as_str(), "ghost");
        },
        other => panic!("wrong error: {:?}", other),
    }
}

#[test]
fn tag_directives_find_the_task_without_a_column_filter() {
    let mut board = GitProject::new()
        .project(project_with_columns("alpha", &["new"], &["t1"]))
        .build()
        .unwrap();
    assert!(process_message(&mut board, "[t1 +bug +bug -missing]").is_ok());
    let task = board.projects()[0].task_with_id(&Id::new("t1")).unwrap();
    assert_eq!(task.tags(), ["bug".to_string()]);
    assert_eq!(column_task_ids(&board, 0, "new"), ["t1"]);
}

#[test]
fn later_directives_see_earlier_effects() {
    let mut board = GitProject::new()
        .project(project_with_columns("alpha", &["new", "done", "review"], &["t"]))
        .build()
        .unwrap();
    assert!(process_message(&mut board, "[t: done] [t is review]").is_ok());
    assert!(column_task_ids(&board, 0, "new").is_empty());
    assert!(column_task_ids(&board, 0, "done").is_empty());
    assert_eq!(column_task_ids(&board, 0, "review"), ["t"]);
}

#[test]
fn processing_stops_at_the_first_failure() {
    let mut board = GitProject::new()
        .project(project_with_columns("alpha", &["new", "done"], &["t", "u"]))
        .build()
        .unwrap();
    let failure = process_message(&mut board, "[t: done] [ghost: done] [u: done]").unwrap_err();
    assert_eq!(failure.command, "[ghost: done]");
    assert_eq!(column_task_ids(&board, 0, "done"), ["t"]);
    assert_eq!(column_task_ids(&board, 0, "new"), ["u"]);
}

#[test]
fn a_message_without_directives_changes_nothing() {
    let mut board = GitProject::new()
        .project(project_with_columns("alpha", &["new", "done"], &["t"]))
        .build()
        .unwrap();
    assert!(process_message(&mut board, "plain message\n\nwith details").is_ok());
    assert_eq!(column_task_ids(&board, 0, "new"), ["t"]);
}

#[test]
fn resolve_project_reports_each_outcome() {
    let board = GitProject::new()
        .project(project_with_columns("alpha", &["new", "done"], &["t"]))
        .project(project_with_columns("beta", &["new", "done"], &["t"]))
        .build()
        .unwrap();
    assert_eq!(
        resolve_project(&board, &Id::new("t"), None, Some(&Id::new("beta"))).unwrap(),
        1
    );
    assert!(matches!(
        resolve_project(&board, &Id::new("t"), None, Some(&Id::new("gamma"))).unwrap_err(),
        DirectiveError::UnknownProject { .. }
    ));
    assert!(matches!(
        resolve_project(&board, &Id::new("t"), None, None).unwrap_err(),
        DirectiveError::AmbiguousTask { .. }
    ));
    assert!(matches!(
        resolve_project(&board, &Id::new("nope"), None, None).unwrap_err(),
        DirectiveError::TaskNotFound { .. }
    ));
}

#[test]
fn apply_directive_carries_one_directive_out() {
    let mut board = GitProject::new()
        .project(project_with_columns("alpha", &["new", "done"], &["t"]))
        .build()
        .unwrap();
    let directives = parse_directives("[t: done]");
    assert_eq!(directives.len(), 1);
    assert!(apply_directive(&mut board, &directives[0]).is_ok());
    assert_eq!(column_task_ids(&board, 0, "done"), ["t"]);
}
