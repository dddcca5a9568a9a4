use git_project::Column;
use git_project::GitProject;
use git_project::Id;
use git_project::Project;
use git_project::Task;
use git_project::TaskID;
use git_project::setup::line_invokes_hook;
use git_project::setup::starter_board;

fn simple_task(id: &str) -> Task {
    Task::new(id).name("a task").description("about it").build().unwrap()
}

fn two_column_project(id: &str, task_ids: &[&str]) -> Project {
    let mut builder = Project::new(id)
        .name(id)
        .description("a project")
        .column(Column::new("new").name("New").description("fresh").build().unwrap())
        .column(Column::new("done").name("Done").description("finished").build().unwrap());
    for tid in task_ids {
        builder = builder.task(simple_task(tid));
    }
    let mut project = builder.build().unwrap();
    for tid in task_ids {
        project.move_task_to_column(Id::new(tid), Id::new("new"));
    }
    project
}

fn column_task_ids(project: &Project, column_id: &str) -> Vec<String> {
    let column = project.column_with_id(&Id::new(column_id)).unwrap();
    column.tasks().iter().map(|id| id.to_text()).collect()
}

#[test]
fn task_builder_requires_name_and_description() {
    assert!(Task::new("t").name("only a name").build().is_err());
    assert!(Task::new("t").description("only a description").build().is_err());
    let task = Task::new("t").name("n").description("d").build().unwrap();
    assert_eq!(task.id().as_str(), "t");
    assert_eq!(task.name(), "n");
    assert_eq!(task.description(), "d");
    assert!(task.assignee().is_none());
    assert!(task.tags().is_empty());
}

#[test]
fn task_trims_name_and_description() {
    let task = Task::new("t")
        .name("  spaced name \t")
        .description(" first line \n second line ")
        .build()
        .unwrap();
    assert_eq!(task.name(), "spaced name");
    assert_eq!(task.description(), "first line \n second line");
    assert_eq!(task.short_description(), "first line");
}

#[test]
fn task_tag_addition_is_idempotent() {
    let mut task = simple_task("t");
    task.add_tag("bug");
    task.add_tag("bug");
    assert_eq!(task.tags(), ["bug".to_string()]);
}

#[test]
fn task_tag_removal_when_absent_is_a_no_op() {
    let mut task = simple_task("t");
    task.add_tag("bug");
    task.remove_tag("feature");
    assert_eq!(task.tags(), ["bug".to_string()]);
    task.remove_tag("bug");
    assert!(task.tags().is_empty());
}

#[test]
fn task_builder_keeps_tags_and_assignee() {
    let task = Task::new("t")
        .name("n")
        .description("d")
        .tag("alpha")
        .tag("beta")
        .assignee("dev@example.com")
        .build()
        .unwrap();
    assert_eq!(task.tags(), ["alpha".to_string(), "beta".to_string()]);
    assert_eq!(task.assignee(), Some("dev@example.com"));
}

#[test]
fn column_lists_tasks_in_order() {
    let mut column = Column::new("c").name("C").description("d").build().unwrap();
    column.add_task_id(Id::new("a"));
    column.add_task(&simple_task("b"));
    assert_eq!(column.tasks().len(), 2);
    assert_eq!(column.tasks()[0].as_str(), "a");
    assert_eq!(column.tasks()[1].as_str(), "b");
    assert!(column.contains_task(&Id::new("a")));
    assert!(!column.contains_task(&Id::new("missing")));
    column.remove_task(&Id::new("a"));
    assert_eq!(column.tasks().len(), 1);
    assert_eq!(column.tasks()[0].as_str(), "b");
    let bare = column.without_tasks();
    assert_eq!(bare.id().as_str(), "c");
    assert_eq!(bare.name(), "C");
    assert!(bare.tasks().is_empty());
    assert_eq!(column.tasks().len(), 1);
}

#[test]
fn add_task_puts_the_task_in_exactly_one_column() {
    let mut project = two_column_project("p", &[]);
    assert!(project.add_task(simple_task("t"), 0));
    assert!(project.task_with_id(&Id::new("t")).is_some());
    assert_eq!(column_task_ids(&project, "new"), ["t"]);
    assert!(column_task_ids(&project, "done").is_empty());
}

#[test]
fn add_task_fails_on_a_duplicate_identifier() {
    let mut project = two_column_project("p", &["t"]);
    assert!(!project.add_task(simple_task("t"), 1));
    assert_eq!(project.tasks().len(), 1);
    assert_eq!(column_task_ids(&project, "new"), ["t"]);
    assert!(column_task_ids(&project, "done").is_empty());
}

#[test]
fn delete_task_removes_it_everywhere() {
    let mut project = two_column_project("p", &["t", "u"]);
    project.delete_task(&Id::new("t"));
    assert!(project.task_with_id(&Id::new("t")).is_none());
    assert_eq!(column_task_ids(&project, "new"), ["u"]);
    project.delete_task(&Id::new("t"));
    assert_eq!(project.tasks().len(), 1);
}

#[test]
fn move_task_to_column_is_idempotent() {
    let mut project = two_column_project("p", &["t", "u"]);
    project.move_task_to_column(Id::new("t"), Id::new("done"));
    let once_new = column_task_ids(&project, "new");
    let once_done = column_task_ids(&project, "done");
    project.move_task_to_column(Id::new("t"), Id::new("done"));
    assert_eq!(column_task_ids(&project, "new"), once_new);
    assert_eq!(column_task_ids(&project, "done"), once_done);
    assert_eq!(once_new, ["u"]);
    assert_eq!(once_done, ["t"]);
}

#[test]
fn move_task_to_unknown_column_unassigns_it() {
    let mut project = two_column_project("p", &["t"]);
    project.move_task_to_column(Id::new("t"), Id::new("nowhere"));
    assert!(column_task_ids(&project, "new").is_empty());
    assert!(column_task_ids(&project, "done").is_empty());
    assert!(project.task_with_id(&Id::new("t")).is_some());
}

#[test]
fn move_task_steps_between_columns() {
    let mut project = two_column_project("p", &["t"]);
    let task = project.task_with_id(&Id::new("t")).unwrap().clone();
    project.move_task(&task, 1);
    assert!(column_task_ids(&project, "new").is_empty());
    assert_eq!(column_task_ids(&project, "done"), ["t"]);
    project.move_task(&task, 5);
    assert_eq!(column_task_ids(&project, "done"), ["t"]);
    project.move_task(&task, -1);
    assert_eq!(column_task_ids(&project, "new"), ["t"]);
}

#[test]
fn replace_task_without_a_column_keeps_membership() {
    let mut project = two_column_project("p", &["t"]);
    let replacement = Task::new("t").name("renamed").description("d").build().unwrap();
    project.replace_task(&Id::new("t"), replacement, None);
    assert_eq!(column_task_ids(&project, "new"), ["t"]);
    assert_eq!(project.task_with_id(&Id::new("t")).unwrap().name(), "renamed");
}

#[test]
fn replace_task_with_a_column_moves_membership() {
    let mut project = two_column_project("p", &["t"]);
    let replacement = Task::new("t2").name("next").description("d").build().unwrap();
    project.replace_task(&Id::new("t"), replacement, Some(1));
    assert!(project.task_with_id(&Id::new("t")).is_none());
    assert!(column_task_ids(&project, "new").is_empty());
    assert_eq!(column_task_ids(&project, "done"), ["t2"]);
}

#[test]
fn column_of_task_finds_the_listing_column() {
    let mut project = two_column_project("p", &["t"]);
    let task = project.task_with_id(&Id::new("t")).unwrap().clone();
    assert_eq!(project.column_of_task(&task).unwrap().id().as_str(), "new");
    assert_eq!(project.column_index_of_task(&task), Some(0));
    project.move_task_to_column(Id::new("t"), Id::new("nowhere"));
    let task = project.task_with_id(&Id::new("t")).unwrap().clone();
    assert!(project.column_of_task(&task).is_none());
    assert!(project.column_index_of_task(&task).is_none());
}

#[test]
fn all_assignees_and_tags_are_deduplicated_in_first_seen_order() {
    let project = Project::new("p")
        .name("P")
        .description("d")
        .task(
            Task::new("a")
                .name("n")
                .description("d")
                .assignee("zoe@example.com")
                .tag("ui")
                .tag("bug")
                .build()
                .unwrap(),
        )
        .task(
            Task::new("b")
                .name("n")
                .description("d")
                .assignee("ann@example.com")
                .tag("bug")
                .build()
                .unwrap(),
        )
        .task(
            Task::new("c")
                .name("n")
                .description("d")
                .assignee("zoe@example.com")
                .build()
                .unwrap(),
        )
        .build()
        .unwrap();
    assert_eq!(
        project.all_assignees(),
        ["zoe@example.com".to_string(), "ann@example.com".to_string()]
    );
    assert_eq!(project.all_tags(), ["ui".to_string(), "bug".to_string()]);
}

#[test]
fn tasks_assigned_to_selects_by_assignee() {
    let project = Project::new("p")
        .name("P")
        .description("d")
        .task(Task::new("a").name("n").description("d").assignee("me@example.com").build().unwrap())
        .task(Task::new("b").name("n").description("d").build().unwrap())
        .task(Task::new("c").name("n").description("d").assignee("me@example.com").build().unwrap())
        .build()
        .unwrap();
    assert_eq!(project.tasks_assigned_to("me@example.com"), [0, 2]);
    assert!(project.tasks_assigned_to("nobody@example.com").is_empty());
}

#[test]
fn add_project_fails_on_a_duplicate_identifier() {
    let mut board = GitProject::new().build().unwrap();
    assert!(board.add_project(two_column_project("p", &[])));
    assert!(!board.add_project(two_column_project("p", &[])));
    assert_eq!(board.projects().len(), 1);
}

#[test]
fn replace_project_upserts_by_identifier() {
    let mut board = GitProject::new().project(two_column_project("p", &["t"])).build().unwrap();
    let replacement = Project::new("p").name("renamed").description("d").build().unwrap();
    board.replace_project("p", replacement);
    assert_eq!(board.projects().len(), 1);
    assert_eq!(board.projects()[0].name(), "renamed");
    board.replace_project("q", two_column_project("q", &[]));
    assert_eq!(board.projects().len(), 2);
    assert_eq!(board.projects()[1].id().as_str(), "q");
}

#[test]
fn identifiers_compare_by_text() {
    assert_eq!(Id::new("a"), Id::new("a"));
    assert_ne!(Id::new("a"), Id::new("b"));
    assert_eq!(Id::new("a").to_text(), "a");
    assert_eq!(TaskID::new("t").as_str(), "t");
}

#[test]
fn starter_board_has_the_welcome_task_in_progress() {
    let board = starter_board("demo", "me@example.com", "welcome text");
    assert_eq!(board.projects().len(), 1);
    let project = &board.projects()[0];
    assert_eq!(project.id().as_str(), "demo");
    assert_eq!(project.columns().len(), 3);
    assert_eq!(project.columns()[0].id().as_str(), "New");
    assert_eq!(project.columns()[1].id().as_str(), "In Progress");
    assert_eq!(project.columns()[2].id().as_str(), "Done");
    assert_eq!(column_task_ids(project, "In Progress"), ["git-project"]);
    let task = project.task_with_id(&Id::new("git-project")).unwrap();
    assert_eq!(task.assignee(), Some("me@example.com"));
    assert_eq!(task.tags(), ["meta".to_string()]);
    assert_eq!(task.description(), "welcome text");
}

#[test]
fn hook_lines_are_recognised_outside_comments() {
    assert!(line_invokes_hook("git project hook pre-commit $@", "pre-commit"));
    assert!(line_invokes_hook("  git project hook pre-commit", "pre-commit"));
    assert!(!line_invokes_hook("# git project hook pre-commit", "pre-commit"));
    assert!(!line_invokes_hook("git project hook post-commit", "pre-commit"));
    assert!(!line_invokes_hook("echo nothing here", "pre-commit"));
    assert!(line_invokes_hook("run; git project hook commit-msg $1 # note", "commit-msg"));
}
