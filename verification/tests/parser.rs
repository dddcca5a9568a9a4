use git_project::directive::parse_directives;
use git_project::directive::Directive;
use git_project::directive::DirectivePayload;

fn column_of(directive: &Directive) -> &str {
    match &directive.payload {
        DirectivePayload::MoveToColumn { column } => column.as_str(),
        DirectivePayload::ChangeTags { .. } => panic!("expected a transition"),
    }
}

fn ops_of(directive: &Directive) -> Vec<(bool, String)> {
    match &directive.payload {
        DirectivePayload::MoveToColumn { .. } => panic!("expected a tag change"),
        DirectivePayload::ChangeTags { ops } => {
            ops.iter().map(|op| (op.add, op.tag.clone())).collect()
        },
    }
}

#[test]
fn parses_a_colon_transition() {
    let directives = parse_directives("work done, see [my-task: done] for details");
    assert_eq!(directives.len(), 1);
    assert_eq!(directives[0].task.as_str(), "my-task");
    assert!(directives[0].project.is_none());
    assert_eq!(column_of(&directives[0]), "done");
    assert_eq!(directives[0].raw, "[my-task: done]");
}

#[test]
fn parses_an_is_transition() {
    let directives = parse_directives("[new-task is in-progress]");
    assert_eq!(directives.len(), 1);
    assert_eq!(directives[0].task.as_str(), "new-task");
    assert_eq!(column_of(&directives[0]), "in-progress");
}

#[test]
fn parses_an_explicit_project_reference() {
    let directives = parse_directives("[t1@alpha: done] and [t2@beta is review]");
    assert_eq!(directives.len(), 2);
    assert_eq!(directives[0].task.as_str(), "t1");
    assert_eq!(directives[0].project.as_ref().unwrap().as_str(), "alpha");
    assert_eq!(column_of(&directives[0]), "done");
    assert_eq!(directives[1].task.as_str(), "t2");
    assert_eq!(directives[1].project.as_ref().unwrap().as_str(), "beta");
    assert_eq!(column_of(&directives[1]), "review");
}

#[test]
fn parses_tag_changes_in_order() {
    let directives = parse_directives("[my-task@ios -blocked +important +ui]");
    assert_eq!(directives.len(), 1);
    assert_eq!(directives[0].task.as_str(), "my-task");
    assert_eq!(directives[0].project.as_ref().unwrap().as_str(), "ios");
    assert_eq!(
        ops_of(&directives[0]),
        [
            (false, "blocked".to_string()),
            (true, "important".to_string()),
            (true, "ui".to_string()),
        ]
    );
}

#[test]
fn keeps_document_order_across_forms() {
    let directives = parse_directives("[a +x] then [b: done] then [c is new]");
    assert_eq!(directives.len(), 3);
    assert_eq!(directives[0].task.as_str(), "a");
    assert_eq!(directives[1].task.as_str(), "b");
    assert_eq!(directives[2].task.as_str(), "c");
}

#[test]
fn tolerates_extra_spacing() {
    let directives = parse_directives("[t:   done] [u is    review]");
    assert_eq!(directives.len(), 2);
    assert_eq!(column_of(&directives[0]), "done");
    assert_eq!(column_of(&directives[1]), "review");
}

#[test]
fn skips_text_that_is_no_directive() {
    assert!(parse_directives("nothing to see here").is_empty());
    assert!(parse_directives("[not a directive]").is_empty());
    assert!(parse_directives("[]").is_empty());
    assert!(parse_directives("[t:]").is_empty());
    assert!(parse_directives("[t +]").is_empty());
    assert!(parse_directives("[t is]").is_empty());
    assert!(parse_directives("array[index] = 3; // [see: ").is_empty());
}

#[test]
fn an_empty_project_reference_is_no_directive() {
    assert!(parse_directives("[t@: done]").is_empty());
}

#[test]
fn keeps_the_raw_text_of_each_directive() {
    let directives = parse_directives("x [a@p -old +new] y [b is done] z");
    assert_eq!(directives[0].raw, "[a@p -old +new]");
    assert_eq!(directives[1].raw, "[b is done]");
}

#[test]
fn scans_past_an_unfinished_bracket() {
    let directives = parse_directives("[[t: done]");
    assert_eq!(directives.len(), 1);
    assert_eq!(directives[0].task.as_str(), "t");
}
