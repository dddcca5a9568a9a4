use vstd::prelude::*;
use crate::directive::directives_view;
use crate::directive::parse_directives;
use crate::directive::spec_parse;
use crate::directive::Directive;
use crate::directive::DirectivePayload;
use crate::directive::DirectivePayloadView;
use crate::directive::DirectiveView;
use crate::directive::ops_view;
use crate::directive::TagOpView;
use crate::git_project::GitProject;
use crate::git_project::GitProjectView;
use crate::id::Id;
use crate::resolve::lemma_resolve_in_range;
use crate::resolve::opt_ref_view;
use crate::resolve::resolve_project;
use crate::resolve::spec_resolve;
use crate::resolve::DirectiveError;
use crate::resolve::DirectiveErrorView;
use crate::strs::remove_all;
use crate::task::spec_add_tag;
use crate::task::TaskView;

verus! {

/// The column filter a directive supplies for resolution: a transition
/// constrains the search to projects that have its target column; a
/// tag change has no column to filter by.
pub open spec fn column_filter(d: DirectiveView) -> Option<Seq<char>> {
    match d.payload {
        DirectivePayloadView::MoveToColumn { column } => Option::Some(column),
        DirectivePayloadView::ChangeTags { ops } => Option::None,
    }
}

/// The tag set after the operations, applied in the order given.
pub open spec fn spec_apply_ops(tags: Seq<Seq<char>>, ops: Seq<TagOpView>) -> Seq<Seq<char>>
    decreases ops.len(),
{
    if ops.len() == 0 {
        tags
    } else {
        let rest = spec_apply_ops(tags, ops.drop_last());
        if ops.last().add {
            spec_add_tag(rest, ops.last().tag)
        } else {
            remove_all(rest, ops.last().tag)
        }
    }
}

/// Effect of one directive on the board: the board afterwards, and the
/// failure if the directive could not be carried out. A failed
/// directive leaves the board exactly as it was.
///
/// A transition is carried out only after the resolved project has
/// been seen to hold both the target column and the task, so a task is
/// never silently unassigned; a tag change rewrites the task's tags in
/// place, leaving column membership alone.
pub open spec fn spec_apply(b: GitProjectView, d: DirectiveView) -> (GitProjectView, Option<
    DirectiveErrorView,
>) {
    match spec_resolve(b, d.task, column_filter(d), d.project) {
        Result::Err(e) => (b, Option::Some(e)),
        Result::Ok(pi) => {
            let p = b.projects[pi];
            match d.payload {
                DirectivePayloadView::MoveToColumn { column } => {
                    if !p.has_column(column) {
                        (
                            b,
                            Option::Some(
                                DirectiveErrorView::UnknownColumn { project: p.id, column },
                            ),
                        )
                    } else if !p.has_task(d.task) {
                        (
                            b,
                            Option::Some(
                                DirectiveErrorView::UnknownTask { project: p.id, task: d.task },
                            ),
                        )
                    } else {
                        (
                            GitProjectView {
                                projects: b.projects.update(
                                    pi,
                                    p.spec_move_task_to_column(d.task, column),
                                ),
                            },
                            Option::None,
                        )
                    }
                },
                DirectivePayloadView::ChangeTags { ops } => {
                    if !p.has_task(d.task) {
                        (
                            b,
                            Option::Some(
                                DirectiveErrorView::UnknownTask { project: p.id, task: d.task },
                            ),
                        )
                    } else {
                        let t = p.tasks[p.task_index(d.task)];
                        let t2 = TaskView { tags: spec_apply_ops(t.tags, ops), ..t };
                        (
                            GitProjectView {
                                projects: b.projects.update(
                                    pi,
                                    p.spec_replace_task(d.task, t2, Option::None),
                                ),
                            },
                            Option::None,
                        )
                    }
                },
            }
        },
    }
}

/// Effect of a directive sequence: directives run in order, each over
/// the board the previous ones left; the first failure stops the run
/// and is reported with the raw text of the failing directive.
pub open spec fn run_directives(b: GitProjectView, ds: Seq<DirectiveView>) -> (GitProjectView, Option<
    (DirectiveErrorView, Seq<char>),
>)
    decreases ds.len(),
{
    if ds.len() == 0 {
        (b, Option::None)
    } else {
        let step = spec_apply(b, ds[0]);
        if step.1 is Some {
            (b, Option::Some((step.1->0, ds[0].raw)))
        } else {
            run_directives(step.0, ds.drop_first())
        }
    }
}

/// Effect of a whole message: its directives, in document order.
pub open spec fn spec_process(b: GitProjectView, s: Seq<char>) -> (GitProjectView, Option<
    (DirectiveErrorView, Seq<char>),
>) {
    run_directives(b, spec_parse(s))
}

/// A failed directive, with the raw matched text kept for diagnostics.
#[derive(Debug)]
pub struct ProcessFailure {
    pub error: DirectiveError,
    pub command: String,
}

/// Carries one resolved directive out on the board, exactly as
/// [`spec_apply`] describes; a failure leaves the board unchanged.
pub fn apply_directive(board: &mut GitProject, directive: &Directive) -> (r: Result<
    (),
    DirectiveError,
>)
    ensures
        final(board)@ == spec_apply(old(board)@, directive@).0,
        match r {
            Result::Ok(()) => spec_apply(old(board)@, directive@).1 is None,
            Result::Err(e) => spec_apply(old(board)@, directive@).1 == Option::Some(e@),
        },
{
    let column_ref: Option<&Id> = match &directive.payload {
        DirectivePayload::MoveToColumn { column } => Option::Some(column),
        DirectivePayload::ChangeTags { ops } => Option::None,
    };
    let project_ref: Option<&Id> = match &directive.project {
        Option::Some(p) => Option::Some(p),
        Option::None => Option::None,
    };
    proof {
        assert(opt_ref_view(column_ref) == column_filter(directive@));
        assert(opt_ref_view(project_ref) == directive@.project);
    }
    let pi = match resolve_project(board, &directive.task, column_ref, project_ref) {
        Result::Ok(i) => i,
        Result::Err(e) => {
            return Result::Err(e);
        },
    };
    proof {
        lemma_resolve_in_range(
            board@,
            directive@.task,
            column_filter(directive@),
            directive@.project,
        );
    }
    match &directive.payload {
        DirectivePayload::MoveToColumn { column } => {
            {
                let p = board.project_at(pi);
                if !p.contains_column_id(column) {
                    return Result::Err(
                        DirectiveError::UnknownColumn {
                            project: p.id().clone(),
                            column: column.clone(),
                        },
                    );
                }
                if !p.contains_task_id(&directive.task) {
                    return Result::Err(
                        DirectiveError::UnknownTask {
                            project: p.id().clone(),
                            task: directive.task.clone(),
                        },
                    );
                }
            }
            let mut p = board.take_project(pi);
            p.move_task_to_column(directive.task.clone(), column.clone());
            board.put_project(pi, p);
            proof {
                assert(board@.projects =~= old(board)@.projects.update(
                    pi as int,
                    old(board)@.projects[pi as int].spec_move_task_to_column(
                        directive@.task,
                        column@,
                    ),
                ));
                assert(board@ =~= spec_apply(old(board)@, directive@).0);
            }
            Result::Ok(())
        },
        DirectivePayload::ChangeTags { ops } => {
            let mut task = {
                let p = board.project_at(pi);
                match p.task_with_id(&directive.task) {
                    Option::Some(t) => t.clone(),
                    Option::None => {
                        return Result::Err(
                            DirectiveError::UnknownTask {
                                project: p.id().clone(),
                                task: directive.task.clone(),
                            },
                        );
                    },
                }
            };
            let ghost t0 = task@;
            let ghost opsv = ops_view(ops@);
            let m = ops.len();
            let mut k: usize = 0;
            proof {
                assert(spec_apply_ops(t0.tags, opsv.subrange(0, 0)) == t0.tags);
                assert(task@ =~= (TaskView { tags: spec_apply_ops(t0.tags, opsv.subrange(0, 0)), ..t0 }));
            }
            while k < m
                invariant
                    0 <= k <= m,
                    m == ops@.len(),
                    opsv == ops_view(ops@),
                    task@ == (TaskView {
                        tags: spec_apply_ops(t0.tags, opsv.subrange(0, k as int)),
                        ..t0
                    }),
                decreases m - k,
            {
                let op = &ops[k];
                proof {
                    assert(opsv[k as int] == ops@[k as int]@);
                    assert(opsv.subrange(0, k as int + 1).drop_last() =~= opsv.subrange(
                        0,
                        k as int,
                    ));
                }
                if op.add {
                    task.add_tag(op.tag.as_str());
                } else {
                    task.remove_tag(op.tag.as_str());
                }
                k = k + 1;
            }
            proof {
                assert(opsv.subrange(0, m as int) =~= opsv);
            }
            let mut p = board.take_project(pi);
            p.replace_task(&directive.task, task, Option::None);
            board.put_project(pi, p);
            proof {
                let pv = old(board)@.projects[pi as int];
                let t = pv.tasks[pv.task_index(directive@.task)];
                let t2 = TaskView { tags: spec_apply_ops(t.tags, opsv), ..t };
                assert(t0 == t);
                assert(board@.projects =~= old(board)@.projects.update(
                    pi as int,
                    pv.spec_replace_task(directive@.task, t2, Option::None),
                ));
                assert(board@ =~= spec_apply(old(board)@, directive@).0);
            }
            Result::Ok(())
        },
    }
}

/// Parses `message` and carries its directives out in document order,
/// stopping at the first failure, exactly as [`spec_process`]
/// describes. Directives already carried out when one fails stay
/// carried out; the failing one and everything after it leave no
/// trace.
pub fn process_message(board: &mut GitProject, message: &str) -> (r: Result<(), ProcessFailure>)
    ensures
        final(board)@ == spec_process(old(board)@, message@).0,
        match r {
            Result::Ok(()) => spec_process(old(board)@, message@).1 is None,
            Result::Err(f) => spec_process(old(board)@, message@).1 == Option::Some(
                (f.error@, f.command@),
            ),
        },
{
    let directives = parse_directives(message);
    let ghost ds = directives_view(directives@);
    let n = directives.len();
    let mut k: usize = 0;
    proof {
        assert(ds.skip(0) =~= ds);
    }
    while k < n
        invariant
            0 <= k <= n,
            n == directives@.len(),
            ds == directives_view(directives@),
            ds == spec_parse(message@),
            run_directives(old(board)@, ds) == run_directives(board@, ds.skip(k as int)),
        decreases n - k,
    {
        let d = &directives[k];
        proof {
            assert(ds[k as int] == directives@[k as int]@);
            assert(ds.skip(k as int)[0] == ds[k as int]);
            assert(ds.skip(k as int).drop_first() =~= ds.skip(k as int + 1));
        }
        match apply_directive(board, d) {
            Result::Ok(()) => {
                k = k + 1;
            },
            Result::Err(e) => {
                return Result::Err(ProcessFailure { error: e, command: d.raw.clone() });
            },
        }
    }
    proof {
        assert(ds.skip(n as int) =~= Seq::<DirectiveView>::empty());
    }
    Result::Ok(())
}

} // verus!
