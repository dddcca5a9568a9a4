use vstd::prelude::*;
use crate::column::ids_view;
use crate::git_project::find_project_from;
use crate::git_project::GitProject;
use crate::git_project::GitProjectView;
use crate::id::Id;
use crate::project::ProjectView;

verus! {

/// A directive that could not be carried out, and why. Each variant
/// carries the identifiers a caller needs for its diagnostic.
#[derive(Debug)]
pub enum DirectiveError {
    /// The directive named a project the board does not have.
    UnknownProject { project: Id },
    /// No project has the task (in combination with the column filter,
    /// if one applied).
    TaskNotFound { task: Id },
    /// Several projects could be meant; their identifiers are carried
    /// so the caller can invite disambiguation by `@project`.
    AmbiguousTask { task: Id, candidates: Vec<Id> },
    /// The resolved project has no column with this identifier.
    UnknownColumn { project: Id, column: Id },
    /// The resolved project has no task with this identifier.
    UnknownTask { project: Id, task: Id },
}

/// Mathematical model of a failed directive.
#[verifier::ext_equal]
pub ghost enum DirectiveErrorView {
    UnknownProject { project: Seq<char> },
    TaskNotFound { task: Seq<char> },
    AmbiguousTask { task: Seq<char>, candidates: Seq<Seq<char>> },
    UnknownColumn { project: Seq<char>, column: Seq<char> },
    UnknownTask { project: Seq<char>, task: Seq<char> },
}

impl View for DirectiveError {
    type V = DirectiveErrorView;

    open spec fn view(&self) -> DirectiveErrorView {
        match self {
            DirectiveError::UnknownProject { project } => DirectiveErrorView::UnknownProject {
                project: project@,
            },
            DirectiveError::TaskNotFound { task } => DirectiveErrorView::TaskNotFound {
                task: task@,
            },
            DirectiveError::AmbiguousTask { task, candidates } => DirectiveErrorView::AmbiguousTask {
                task: task@,
                candidates: ids_view(candidates@),
            },
            DirectiveError::UnknownColumn { project, column } => DirectiveErrorView::UnknownColumn {
                project: project@,
                column: column@,
            },
            DirectiveError::UnknownTask { project, task } => DirectiveErrorView::UnknownTask {
                project: project@,
                task: task@,
            },
        }
    }
}

/// Whether a project can be meant by a directive that names `task` and
/// carries `column` as a filter: it must have the task, and the column
/// where one was given.
pub open spec fn is_candidate(p: ProjectView, task: Seq<char>, column: Option<Seq<char>>) -> bool {
    p.has_task(task) && match column {
        Option::Some(c) => p.has_column(c),
        Option::None => true,
    }
}

/// The indices below `k` of the projects a directive could mean.
pub open spec fn candidates_upto(
    ps: Seq<ProjectView>,
    task: Seq<char>,
    column: Option<Seq<char>>,
    k: int,
) -> Seq<int>
    decreases k,
{
    if k <= 0 {
        Seq::empty()
    } else {
        candidates_upto(ps, task, column, k - 1) + if is_candidate(ps[k - 1], task, column) {
            seq![k - 1]
        } else {
            Seq::empty()
        }
    }
}

/// The candidate indices of the whole board, in order.
pub open spec fn candidates(
    b: GitProjectView,
    task: Seq<char>,
    column: Option<Seq<char>>,
) -> Seq<int> {
    candidates_upto(b.projects, task, column, b.projects.len() as int)
}

pub proof fn lemma_candidates_upto(
    ps: Seq<ProjectView>,
    task: Seq<char>,
    column: Option<Seq<char>>,
    k: int,
)
    requires
        0 <= k <= ps.len(),
    ensures
        forall|m: int|
            0 <= m < candidates_upto(ps, task, column, k).len() ==> 0 <= #[trigger] candidates_upto(
                ps,
                task,
                column,
                k,
            )[m] < k && is_candidate(ps[candidates_upto(ps, task, column, k)[m]], task, column),
        forall|i: int|
            0 <= i < k && is_candidate(#[trigger] ps[i], task, column) ==> candidates_upto(
                ps,
                task,
                column,
                k,
            ).contains(i),
        forall|m1: int, m2: int|
            0 <= m1 < m2 < candidates_upto(ps, task, column, k).len() ==> #[trigger] candidates_upto(
                ps,
                task,
                column,
                k,
            )[m1] < #[trigger] candidates_upto(ps, task, column, k)[m2],
    decreases k,
{
    if k > 0 {
        lemma_candidates_upto(ps, task, column, k - 1);
        let prev = candidates_upto(ps, task, column, k - 1);
        let cur = candidates_upto(ps, task, column, k);
        assert forall|i: int|
            0 <= i < k && is_candidate(#[trigger] ps[i], task, column) implies cur.contains(i) by {
            if i < k - 1 {
                let m = choose|m: int| 0 <= m < prev.len() && prev[m] == i;
                assert(cur[m] == i);
            } else {
                assert(cur[cur.len() - 1] == i);
            }
        }
    }
}

/// What resolution yields: the index of the single addressed project,
/// or the failure that stops the directive.
pub open spec fn spec_resolve(
    b: GitProjectView,
    task: Seq<char>,
    column: Option<Seq<char>>,
    project: Option<Seq<char>>,
) -> Result<int, DirectiveErrorView> {
    match project {
        Option::Some(pid) => {
            if b.has_project(pid) {
                Result::Ok(b.project_index(pid))
            } else {
                Result::Err(DirectiveErrorView::UnknownProject { project: pid })
            }
        },
        Option::None => {
            let cands = candidates(b, task, column);
            if cands.len() == 0 {
                Result::Err(DirectiveErrorView::TaskNotFound { task })
            } else if cands.len() == 1 {
                Result::Ok(cands[0])
            } else {
                Result::Err(
                    DirectiveErrorView::AmbiguousTask {
                        task,
                        candidates: cands.map_values(|i: int| b.projects[i].id),
                    },
                )
            }
        },
    }
}

/// Finds the single project a directive addresses.
///
/// With an explicit project identifier, that project is looked up and
/// anything else fails. Without one, the projects holding the task
/// (and the column, where a column filter applies) are gathered: none
/// fails as not found, several fail as ambiguous, exactly one resolves.
pub fn resolve_project(
    board: &GitProject,
    task_id: &Id,
    column_id: Option<&Id>,
    project_id: Option<&Id>,
) -> (r: Result<usize, DirectiveError>)
    ensures
        match r {
            Result::Ok(i) => spec_resolve(board@, task_id@, opt_ref_view(column_id), opt_ref_view(project_id))
                == Result::<int, DirectiveErrorView>::Ok(i as int),
            Result::Err(e) => spec_resolve(board@, task_id@, opt_ref_view(column_id), opt_ref_view(project_id))
                == Result::<int, DirectiveErrorView>::Err(e@),
        },
{
    let ghost colv = opt_ref_view(column_id);
    let n = board.project_count();
    match project_id {
        Option::Some(pid) => {
            let mut i: usize = 0;
            while i < n
                invariant
                    0 <= i <= n,
                    n == board@.projects.len(),
                    opt_ref_view(project_id) == Option::Some(pid@),
                    find_project_from(board@.projects, pid@, 0) == find_project_from(
                        board@.projects,
                        pid@,
                        i as int,
                    ),
                decreases n - i,
            {
                let p = board.project_at(i);
                if p.id() == pid {
                    proof {
                        assert(board@.projects[i as int].id == pid@);
                        assert(find_project_from(board@.projects, pid@, i as int) == i as int);
                        assert(board@.has_project(pid@));
                    }
                    return Result::Ok(i);
                }
                i = i + 1;
            }
            Result::Err(DirectiveError::UnknownProject { project: pid.clone() })
        },
        Option::None => {
            let mut found: Vec<usize> = Vec::new();
            let mut i: usize = 0;
            while i < n
                invariant
                    0 <= i <= n,
                    n == board@.projects.len(),
                    colv == opt_ref_view(column_id),
                    found@.map_values(|u: usize| u as int) == candidates_upto(
                        board@.projects,
                        task_id@,
                        colv,
                        i as int,
                    ),
                    forall|m: int| 0 <= m < found@.len() ==> (#[trigger] found@[m]) < i,
                decreases n - i,
            {
                let p = board.project_at(i);
                let mut ok = p.contains_task_id(task_id);
                if ok {
                    match column_id {
                        Option::Some(cid) => {
                            ok = p.contains_column_id(cid);
                        },
                        Option::None => {},
                    }
                }
                proof {
                    assert(ok == is_candidate(board@.projects[i as int], task_id@, colv));
                }
                if ok {
                    found.push(i);
                    proof {
                        assert(found@.map_values(|u: usize| u as int) =~= candidates_upto(
                            board@.projects,
                            task_id@,
                            colv,
                            i as int + 1,
                        ));
                    }
                } else {
                    proof {
                        assert(found@.map_values(|u: usize| u as int) =~= candidates_upto(
                            board@.projects,
                            task_id@,
                            colv,
                            i as int + 1,
                        ));
                    }
                }
                i = i + 1;
            }
            if found.len() == 0 {
                Result::Err(DirectiveError::TaskNotFound { task: task_id.clone() })
            } else if found.len() == 1 {
                let idx = found[0];
                Result::Ok(idx)
            } else {
                let ghost cands = candidates(board@, task_id@, colv);
                let mut names: Vec<Id> = Vec::new();
                let m = found.len();
                let mut k: usize = 0;
                proof {
                    lemma_candidates_upto(board@.projects, task_id@, colv, n as int);
                }
                while k < m
                    invariant
                        0 <= k <= m,
                        m == found@.len(),
                        n == board@.projects.len(),
                        forall|q: int| 0 <= q < m ==> 0 <= (#[trigger] found@[q]) < n,
                        ids_view(names@) == found@.subrange(0, k as int).map_values(
                            |u: usize| board@.projects[u as int].id,
                        ),
                    decreases m - k,
                {
                    let idx = found[k];
                    let p = board.project_at(idx);
                    let ghost pren = names@;
                    names.push(p.id().clone());
                    proof {
                        assert(names@ =~= pren.push(names@[pren.len() as int]));
                        assert(ids_view(names@) =~= ids_view(pren).push(
                            board@.projects[idx as int].id,
                        ));
                        assert(found@.subrange(0, k as int + 1) =~= found@.subrange(
                            0,
                            k as int,
                        ).push(found@[k as int]));
                        assert(ids_view(names@) =~= found@.subrange(0, k as int + 1).map_values(
                            |u: usize| board@.projects[u as int].id,
                        ));
                    }
                    k = k + 1;
                }
                proof {
                    assert(found@.subrange(0, m as int) =~= found@);
                    assert(ids_view(names@) =~= cands.map_values(|i: int| board@.projects[i].id));
                }
                Result::Err(
                    DirectiveError::AmbiguousTask { task: task_id.clone(), candidates: names },
                )
            }
        },
    }
}

/// A successful resolution always yields an index into the board.
pub proof fn lemma_resolve_in_range(
    b: GitProjectView,
    task: Seq<char>,
    column: Option<Seq<char>>,
    project: Option<Seq<char>>,
)
    ensures
        spec_resolve(b, task, column, project) matches Result::Ok(i) ==> 0 <= i
            < b.projects.len(),
{
    match project {
        Option::Some(pid) => {
            crate::git_project::lemma_find_project_from(b.projects, pid, 0);
        },
        Option::None => {
            let cands = candidates(b, task, column);
            if cands.len() >= 1 {
                lemma_candidates_upto(b.projects, task, column, b.projects.len() as int);
            }
        },
    }
}

/// View of an optional borrowed identifier.
pub open spec fn opt_ref_view(o: Option<&Id>) -> Option<Seq<char>> {
    match o {
        Option::Some(i) => Option::Some(i@),
        Option::None => Option::None,
    }
}

} // verus!
