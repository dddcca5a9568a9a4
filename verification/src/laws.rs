use vstd::prelude::*;
use crate::column::ColumnView;
use crate::git_project::GitProjectView;
use crate::project::distinct_seq;
use crate::project::find_col_from;
use crate::project::lemma_find_col_from;
use crate::project::lemma_find_task_from;
use crate::project::lemma_has_task_iff;
use crate::project::lemma_remove_all_distinct;
use crate::project::lemma_remove_tasks_distinct;
use crate::project::lemma_remove_tasks_gone;
use crate::project::lemma_remove_tasks_membership;
use crate::project::lemma_some_task_has_push;
use crate::project::remove_tasks;
use crate::project::some_task_has;
use crate::project::ProjectView;
use crate::strs::lemma_contains_push;
use crate::strs::lemma_remove_all_other;
use crate::resolve::candidates;
use crate::resolve::is_candidate;
use crate::resolve::lemma_candidates_upto;
use crate::resolve::spec_resolve;
use crate::resolve::DirectiveErrorView;
use crate::strs::count_occ;
use crate::strs::lemma_count_occ_contains;
use crate::strs::lemma_count_occ_push;
use crate::strs::lemma_remove_all_absent;
use crate::strs::lemma_remove_all_gone;
use crate::strs::lemma_remove_all_idempotent;
use crate::strs::lemma_remove_all_push;
use crate::strs::remove_all;
use crate::task::spec_add_tag;
use crate::task::TaskView;

verus! {

/// How many of the columns list `tid`.
pub open spec fn cols_holding(cs: Seq<ColumnView>, tid: Seq<char>) -> nat
    decreases cs.len(),
{
    if cs.len() == 0 {
        0
    } else {
        cols_holding(cs.drop_last(), tid) + if cs.last().tasks.contains(tid) {
            1nat
        } else {
            0nat
        }
    }
}

proof fn lemma_cols_holding_zero(cs: Seq<ColumnView>, tid: Seq<char>)
    requires
        forall|k: int| 0 <= k < cs.len() ==> !(#[trigger] cs[k]).tasks.contains(tid),
    ensures
        cols_holding(cs, tid) == 0,
    decreases cs.len(),
{
    if cs.len() > 0 {
        assert(cs.last() == cs[cs.len() - 1]);
        assert forall|k: int| 0 <= k < cs.drop_last().len() implies !(#[trigger] cs.drop_last()[k]).tasks.contains(
            tid,
        ) by {
            assert(cs.drop_last()[k] == cs[k]);
        }
        lemma_cols_holding_zero(cs.drop_last(), tid);
    }
}

proof fn lemma_cols_holding_single(cs: Seq<ColumnView>, tid: Seq<char>, ci: int)
    requires
        0 <= ci < cs.len(),
        cs[ci].tasks.contains(tid),
        forall|k: int| 0 <= k < cs.len() && k != ci ==> !(#[trigger] cs[k]).tasks.contains(tid),
    ensures
        cols_holding(cs, tid) == 1,
    decreases cs.len(),
{
    assert(cs.last() == cs[cs.len() - 1]);
    assert forall|k: int| 0 <= k < cs.drop_last().len() && k != ci implies !(#[trigger] cs.drop_last()[k]).tasks.contains(
        tid,
    ) by {
        assert(cs.drop_last()[k] == cs[k]);
    }
    if ci == cs.len() - 1 {
        lemma_cols_holding_zero(cs.drop_last(), tid);
    } else {
        lemma_cols_holding_single(cs.drop_last(), tid, ci);
    }
}

/// Moving a task to a column is idempotent: moving it again to the
/// same column leaves the project exactly as one move left it.
pub proof fn lemma_move_task_to_column_idempotent(p: ProjectView, tid: Seq<char>, cid: Seq<char>)
    ensures
        p.spec_move_task_to_column(tid, cid).spec_move_task_to_column(tid, cid)
            == p.spec_move_task_to_column(tid, cid),
{
    let q = p.spec_move_task_to_column(tid, cid);
    let cleaned1 = p.cleaned_columns(tid);
    let j = find_col_from(cleaned1, cid, 0);
    lemma_find_col_from(cleaned1, cid, 0);
    let cleaned2 = q.cleaned_columns(tid);
    assert forall|k: int| 0 <= k < cleaned1.len() implies cleaned2[k] == cleaned1[k] by {
        lemma_remove_all_idempotent(p.columns[k].tasks, tid);
        if k == j && j < cleaned1.len() {
            lemma_remove_all_push(remove_all(p.columns[k].tasks, tid), tid, tid);
            assert(cleaned2[k] =~= cleaned1[k]);
        } else {
            assert(cleaned2[k] =~= cleaned1[k]);
        }
    }
    assert(cleaned2 =~= cleaned1);
    assert(q.spec_move_task_to_column(tid, cid) =~= q);
}

/// After a successful `add_task`, the task is in the project's task
/// list and its identifier is listed by exactly one column; after
/// `delete_task`, it is in neither.
pub proof fn lemma_add_then_delete_membership(p: ProjectView, t: TaskView, ci: int)
    requires
        p.wf(),
        0 <= ci < p.columns.len(),
        !p.has_task(t.id),
    ensures
        p.spec_add_task(t, ci).has_task(t.id),
        cols_holding(p.spec_add_task(t, ci).columns, t.id) == 1,
        !p.spec_delete_task(t.id).has_task(t.id),
        cols_holding(p.spec_delete_task(t.id).columns, t.id) == 0,
{
    let q = p.spec_add_task(t, ci);
    lemma_find_task_from(p.tasks, t.id, 0);
    lemma_find_task_from(q.tasks, t.id, 0);
    if !q.has_task(t.id) {
        assert(q.tasks[q.tasks.len() - 1].id == t.id);
    }
    assert forall|k: int|
        0 <= k < q.columns.len() && k != ci implies !(#[trigger] q.columns[k]).tasks.contains(
        t.id,
    ) by {
        assert(q.columns[k] == p.columns[k]);
        if p.columns[k].tasks.contains(t.id) {
            assert(p.has_task(t.id));
        }
    }
    assert(q.columns[ci].tasks.contains(t.id)) by {
        assert(q.columns[ci].tasks.last() == t.id);
    }
    lemma_cols_holding_single(q.columns, t.id, ci);

    let d = p.spec_delete_task(t.id);
    lemma_remove_tasks_gone(p.tasks, t.id);
    assert forall|k: int| 0 <= k < d.columns.len() implies !(#[trigger] d.columns[k]).tasks.contains(
        t.id,
    ) by {
        lemma_remove_all_gone(p.columns[k].tasks, t.id);
        assert(d.columns[k] == p.columns[k].without(t.id));
    }
    lemma_cols_holding_zero(d.columns, t.id);
}

/// A task identifier unique on the whole board resolves without an
/// explicit project identifier, under any column filter satisfied by
/// its project: resolution yields that project's index.
pub proof fn lemma_resolve_unique_task(
    b: GitProjectView,
    task: Seq<char>,
    column: Option<Seq<char>>,
    u: int,
)
    requires
        0 <= u < b.projects.len(),
        b.projects[u].has_task(task),
        forall|k: int|
            0 <= k < b.projects.len() && k != u ==> !(#[trigger] b.projects[k]).has_task(task),
        column matches Option::Some(c) ==> b.projects[u].has_column(c),
    ensures
        spec_resolve(b, task, column, Option::None) == Result::<int, DirectiveErrorView>::Ok(u),
{
    let n = b.projects.len() as int;
    lemma_candidates_upto(b.projects, task, column, n);
    let cands = candidates(b, task, column);
    assert(is_candidate(b.projects[u], task, column));
    assert(cands.contains(u));
    assert forall|m: int| 0 <= m < cands.len() implies cands[m] == u by {
        assert(is_candidate(b.projects[cands[m]], task, column));
        if cands[m] != u {
            assert(!b.projects[cands[m]].has_task(task));
        }
    }
    if cands.len() >= 2 {
        assert(cands[0] == u && cands[1] == u);
        assert(cands[0] < cands[1]);
    }
    assert(cands.len() == 1);
}

/// Two projects that both hold the task (and the column, where a
/// filter applies) make an implicit reference ambiguous: resolution
/// fails and the carried candidate list names both projects.
pub proof fn lemma_resolve_ambiguous_task(
    b: GitProjectView,
    task: Seq<char>,
    column: Option<Seq<char>>,
    u1: int,
    u2: int,
)
    requires
        0 <= u1 < u2 < b.projects.len(),
        is_candidate(b.projects[u1], task, column),
        is_candidate(b.projects[u2], task, column),
    ensures
        spec_resolve(b, task, column, Option::None) matches Result::Err(e) && e matches DirectiveErrorView::AmbiguousTask {
            task: t2,
            candidates: cs,
        } && t2 == task && cs.contains(b.projects[u1].id) && cs.contains(b.projects[u2].id),
{
    let n = b.projects.len() as int;
    lemma_candidates_upto(b.projects, task, column, n);
    let cands = candidates(b, task, column);
    assert(cands.contains(u1));
    assert(cands.contains(u2));
    let m1 = choose|m: int| 0 <= m < cands.len() && cands[m] == u1;
    let m2 = choose|m: int| 0 <= m < cands.len() && cands[m] == u2;
    assert(m1 != m2);
    assert(cands.len() >= 2);
    let cs = cands.map_values(|i: int| b.projects[i].id);
    assert(cs[m1] == b.projects[u1].id);
    assert(cs[m2] == b.projects[u2].id);
    assert(cs.contains(b.projects[u1].id));
    assert(cs.contains(b.projects[u2].id));
}

/// Whether every project of the board satisfies its structural
/// invariant.
pub open spec fn board_wf(b: GitProjectView) -> bool {
    forall|i: int| 0 <= i < b.projects.len() ==> (#[trigger] b.projects[i]).wf()
}

/// Moving a task it has to a column preserves a project's structural
/// invariant.
pub proof fn lemma_move_task_to_column_preserves_wf(p: ProjectView, tid: Seq<char>, cid: Seq<char>)
    requires
        p.wf(),
        p.has_task(tid),
    ensures
        p.spec_move_task_to_column(tid, cid).wf(),
{
    let q = p.spec_move_task_to_column(tid, cid);
    let cleaned = p.cleaned_columns(tid);
    let j = find_col_from(cleaned, cid, 0);
    lemma_find_col_from(cleaned, cid, 0);
    assert forall|k: int| 0 <= k < cleaned.len() implies {
        &&& (#[trigger] cleaned[k]).id == p.columns[k].id
        &&& distinct_seq(cleaned[k].tasks)
        &&& !cleaned[k].tasks.contains(tid)
    } by {
        lemma_remove_all_distinct(p.columns[k].tasks, tid);
        lemma_remove_all_gone(p.columns[k].tasks, tid);
    }
    assert forall|k: int, x: Seq<char>|
        0 <= k < cleaned.len() && #[trigger] cleaned[k].tasks.contains(
            x,
        ) implies p.columns[k].tasks.contains(x) && x != tid by {
        lemma_remove_all_gone(p.columns[k].tasks, tid);
        if x != tid {
            lemma_remove_all_other(p.columns[k].tasks, tid, x);
        }
    }
    if j < cleaned.len() {
        let target = cleaned[j].with_task(tid);
        assert forall|k: int| 0 <= k < q.columns.len() implies distinct_seq(
            (#[trigger] q.columns[k]).tasks,
        ) by {
            if k == j {
                assert forall|i1: int, j1: int|
                    0 <= i1 < j1 < target.tasks.len() implies target.tasks[i1]
                    != target.tasks[j1] by {
                    if j1 < cleaned[j].tasks.len() {
                        assert(target.tasks[i1] == cleaned[j].tasks[i1]);
                        assert(target.tasks[j1] == cleaned[j].tasks[j1]);
                    } else {
                        assert(target.tasks[j1] == tid);
                        assert(target.tasks[i1] == cleaned[j].tasks[i1]);
                        assert(cleaned[j].tasks.contains(cleaned[j].tasks[i1]));
                    }
                }
            }
        }
        assert forall|k: int, x: Seq<char>|
            0 <= k < q.columns.len() && #[trigger] q.columns[k].tasks.contains(
                x,
            ) implies q.has_task(x) by {
            if k == j {
                lemma_contains_push(cleaned[j].tasks, tid, x);
            }
            if x != tid || k != j {
                assert(p.columns[k].tasks.contains(x));
            }
        }
        assert forall|i1: int, j1: int, x: Seq<char>|
            0 <= i1 < j1 < q.columns.len() implies !((#[trigger] q.columns[i1].tasks.contains(x))
            && (#[trigger] q.columns[j1].tasks.contains(x))) by {
            if q.columns[i1].tasks.contains(x) && q.columns[j1].tasks.contains(x) {
                if i1 == j {
                    lemma_contains_push(cleaned[j].tasks, tid, x);
                }
                if j1 == j {
                    lemma_contains_push(cleaned[j].tasks, tid, x);
                }
                if x == tid {
                    assert(i1 != j || j1 != j);
                    assert(false);
                } else {
                    assert(p.columns[i1].tasks.contains(x));
                    assert(p.columns[j1].tasks.contains(x));
                }
            }
        }
    } else {
        assert forall|k: int, x: Seq<char>|
            0 <= k < q.columns.len() && #[trigger] q.columns[k].tasks.contains(
                x,
            ) implies q.has_task(x) by {
            assert(p.columns[k].tasks.contains(x));
        }
        assert forall|i1: int, j1: int, x: Seq<char>|
            0 <= i1 < j1 < q.columns.len() implies !((#[trigger] q.columns[i1].tasks.contains(x))
            && (#[trigger] q.columns[j1].tasks.contains(x))) by {
            if q.columns[i1].tasks.contains(x) && q.columns[j1].tasks.contains(x) {
                assert(p.columns[i1].tasks.contains(x));
                assert(p.columns[j1].tasks.contains(x));
            }
        }
    }
}

/// A successful `add_task` preserves a project's structural invariant.
pub proof fn lemma_add_task_preserves_wf(p: ProjectView, t: TaskView, ci: int)
    requires
        p.wf(),
        0 <= ci < p.columns.len(),
        !p.has_task(t.id),
    ensures
        p.spec_add_task(t, ci).wf(),
{
    let q = p.spec_add_task(t, ci);
    lemma_has_task_iff(p.tasks, t.id);
    lemma_has_task_iff(q.tasks, t.id);
    assert forall|i1: int, j1: int|
        0 <= i1 < j1 < q.tasks.len() implies (#[trigger] q.tasks[i1]).id
        != (#[trigger] q.tasks[j1]).id by {
        if j1 < p.tasks.len() {
            assert(q.tasks[i1] == p.tasks[i1] && q.tasks[j1] == p.tasks[j1]);
        } else {
            assert(q.tasks[i1] == p.tasks[i1] && q.tasks[j1] == t);
            if p.tasks[i1].id == t.id {
                assert(some_task_has(p.tasks, t.id));
            }
        }
    }
    assert forall|k: int| 0 <= k < q.columns.len() implies distinct_seq(
        (#[trigger] q.columns[k]).tasks,
    ) by {
        if k == ci {
            let target = q.columns[ci];
            if p.columns[ci].tasks.contains(t.id) {
                assert(p.has_task(t.id));
            }
            assert forall|i1: int, j1: int|
                0 <= i1 < j1 < target.tasks.len() implies target.tasks[i1] != target.tasks[j1] by {
                if j1 < p.columns[ci].tasks.len() {
                    assert(target.tasks[i1] == p.columns[ci].tasks[i1]);
                    assert(target.tasks[j1] == p.columns[ci].tasks[j1]);
                } else {
                    assert(target.tasks[j1] == t.id);
                    assert(target.tasks[i1] == p.columns[ci].tasks[i1]);
                    assert(p.columns[ci].tasks.contains(p.columns[ci].tasks[i1]));
                }
            }
        }
    }
    assert forall|k: int, x: Seq<char>|
        0 <= k < q.columns.len() && #[trigger] q.columns[k].tasks.contains(
            x,
        ) implies q.has_task(x) by {
        lemma_has_task_iff(q.tasks, x);
        lemma_some_task_has_push(p.tasks, t, x);
        if k == ci {
            lemma_contains_push(p.columns[ci].tasks, t.id, x);
        }
        if !(k == ci && x == t.id) {
            assert(p.columns[k].tasks.contains(x));
            assert(p.has_task(x));
            lemma_has_task_iff(p.tasks, x);
        }
    }
    assert forall|i1: int, j1: int, x: Seq<char>|
        0 <= i1 < j1 < q.columns.len() implies !((#[trigger] q.columns[i1].tasks.contains(x)) && (
        #[trigger] q.columns[j1].tasks.contains(x))) by {
        if q.columns[i1].tasks.contains(x) && q.columns[j1].tasks.contains(x) {
            if i1 == ci {
                lemma_contains_push(p.columns[ci].tasks, t.id, x);
            }
            if j1 == ci {
                lemma_contains_push(p.columns[ci].tasks, t.id, x);
            }
            if x == t.id {
                if i1 != ci {
                    assert(p.columns[i1].tasks.contains(x));
                    assert(p.has_task(t.id));
                } else {
                    assert(p.columns[j1].tasks.contains(x));
                    assert(p.has_task(t.id));
                }
            } else {
                assert(p.columns[i1].tasks.contains(x));
                assert(p.columns[j1].tasks.contains(x));
            }
        }
    }
}

/// `delete_task` preserves a project's structural invariant.
pub proof fn lemma_delete_task_preserves_wf(p: ProjectView, tid: Seq<char>)
    requires
        p.wf(),
    ensures
        p.spec_delete_task(tid).wf(),
{
    let q = p.spec_delete_task(tid);
    lemma_remove_tasks_distinct(p.tasks, tid);
    assert forall|k: int| 0 <= k < q.columns.len() implies {
        &&& distinct_seq((#[trigger] q.columns[k]).tasks)
        &&& (forall|x: Seq<char>|
            #[trigger] q.columns[k].tasks.contains(x) ==> p.columns[k].tasks.contains(x) && x
                != tid)
    } by {
        lemma_remove_all_distinct(p.columns[k].tasks, tid);
        lemma_remove_all_gone(p.columns[k].tasks, tid);
        assert forall|x: Seq<char>|
            #[trigger] q.columns[k].tasks.contains(x) implies p.columns[k].tasks.contains(x) && x
            != tid by {
            if x != tid {
                lemma_remove_all_other(p.columns[k].tasks, tid, x);
            }
        }
    }
    assert forall|k: int, x: Seq<char>|
        0 <= k < q.columns.len() && #[trigger] q.columns[k].tasks.contains(
            x,
        ) implies q.has_task(x) by {
        assert(p.columns[k].tasks.contains(x) && x != tid);
        lemma_has_task_iff(p.tasks, x);
        lemma_remove_tasks_membership(p.tasks, tid, x);
        lemma_has_task_iff(q.tasks, x);
    }
    assert forall|i1: int, j1: int, x: Seq<char>|
        0 <= i1 < j1 < q.columns.len() implies !((#[trigger] q.columns[i1].tasks.contains(x)) && (
        #[trigger] q.columns[j1].tasks.contains(x))) by {
        if q.columns[i1].tasks.contains(x) && q.columns[j1].tasks.contains(x) {
            assert(p.columns[i1].tasks.contains(x));
            assert(p.columns[j1].tasks.contains(x));
        }
    }
}

/// Replacing a task by one that keeps its identifier, with no column
/// change, preserves a project's structural invariant. This is the
/// shape every tag change takes.
pub proof fn lemma_replace_task_same_id_preserves_wf(p: ProjectView, orig: Seq<char>, t: TaskView)
    requires
        p.wf(),
        t.id == orig,
    ensures
        p.spec_replace_task(orig, t, Option::None).wf(),
{
    let q = p.spec_replace_task(orig, t, Option::None);
    let r = remove_tasks(p.tasks, orig);
    lemma_remove_tasks_distinct(p.tasks, orig);
    lemma_remove_tasks_gone(p.tasks, orig);
    lemma_has_task_iff(r, orig);
    assert forall|i1: int, j1: int|
        0 <= i1 < j1 < q.tasks.len() implies (#[trigger] q.tasks[i1]).id
        != (#[trigger] q.tasks[j1]).id by {
        if j1 < r.len() {
            assert(q.tasks[i1] == r[i1] && q.tasks[j1] == r[j1]);
        } else {
            assert(q.tasks[i1] == r[i1] && q.tasks[j1] == t);
            if r[i1].id == orig {
                assert(some_task_has(r, orig));
            }
        }
    }
    assert forall|k: int, x: Seq<char>|
        0 <= k < q.columns.len() && #[trigger] q.columns[k].tasks.contains(
            x,
        ) implies q.has_task(x) by {
        assert(p.columns[k].tasks.contains(x));
        assert(p.has_task(x));
        lemma_has_task_iff(q.tasks, x);
        lemma_some_task_has_push(r, t, x);
        if x != orig {
            lemma_has_task_iff(p.tasks, x);
            lemma_remove_tasks_membership(p.tasks, orig, x);
        }
    }
}

/// Moving a task by a column offset preserves a project's structural
/// invariant: the move only happens when some column lists the task,
/// and such a task is always backed by the task list.
pub proof fn lemma_move_task_preserves_wf(p: ProjectView, tid: Seq<char>, distance: int)
    requires
        p.wf(),
    ensures
        p.spec_move_task(tid, distance).wf(),
{
    let pci = p.holder_index(tid);
    crate::project::lemma_find_holder_from(p.columns, tid, 0);
    if pci < p.columns.len() && 0 <= pci + distance < p.columns.len() {
        let nci = pci + distance;
        let q = p.spec_move_task(tid, distance);
        let c1 = p.columns.update(pci, p.columns[pci].without(tid));
        assert(p.columns[pci].tasks.contains(tid));
        assert(p.has_task(tid));
        assert forall|k: int|
            0 <= k < p.columns.len() && k != pci implies !(#[trigger] p.columns[k]).tasks.contains(
            tid,
        ) by {
            if p.columns[k].tasks.contains(tid) {
                if k < pci {
                    assert(false);
                } else {
                    assert(p.columns[pci].tasks.contains(tid) && p.columns[k].tasks.contains(tid));
                }
            }
        }
        lemma_remove_all_distinct(p.columns[pci].tasks, tid);
        lemma_remove_all_gone(p.columns[pci].tasks, tid);
        assert(!c1[nci].tasks.contains(tid));
        assert forall|k: int| 0 <= k < q.columns.len() implies distinct_seq(
            (#[trigger] q.columns[k]).tasks,
        ) by {
            if k == nci {
                let target = q.columns[nci];
                assert forall|i1: int, j1: int|
                    0 <= i1 < j1 < target.tasks.len() implies target.tasks[i1]
                    != target.tasks[j1] by {
                    if j1 < c1[nci].tasks.len() {
                        assert(target.tasks[i1] == c1[nci].tasks[i1]);
                        assert(target.tasks[j1] == c1[nci].tasks[j1]);
                    } else {
                        assert(target.tasks[j1] == tid);
                        assert(target.tasks[i1] == c1[nci].tasks[i1]);
                        assert(c1[nci].tasks.contains(c1[nci].tasks[i1]));
                    }
                }
            }
        }
        assert forall|k: int, x: Seq<char>|
            0 <= k < q.columns.len() && #[trigger] q.columns[k].tasks.contains(
                x,
            ) implies q.has_task(x) by {
            if k == nci {
                lemma_contains_push(c1[nci].tasks, tid, x);
            }
            if !(k == nci && x == tid) {
                assert(c1[k].tasks.contains(x));
                if k == pci {
                    lemma_remove_all_gone(p.columns[pci].tasks, tid);
                    if x != tid {
                        lemma_remove_all_other(p.columns[pci].tasks, tid, x);
                    }
                }
                assert(p.columns[k].tasks.contains(x));
            }
        }
        assert forall|i1: int, j1: int, x: Seq<char>|
            0 <= i1 < j1 < q.columns.len() implies !((#[trigger] q.columns[i1].tasks.contains(x))
            && (#[trigger] q.columns[j1].tasks.contains(x))) by {
            if q.columns[i1].tasks.contains(x) && q.columns[j1].tasks.contains(x) {
                if i1 == nci {
                    lemma_contains_push(c1[nci].tasks, tid, x);
                }
                if j1 == nci {
                    lemma_contains_push(c1[nci].tasks, tid, x);
                }
                if i1 == pci || j1 == pci {
                    lemma_remove_all_gone(p.columns[pci].tasks, tid);
                    if x != tid {
                        lemma_remove_all_other(p.columns[pci].tasks, tid, x);
                    }
                }
                if x == tid {
                    assert(i1 == nci || p.columns[i1].tasks.contains(tid));
                    assert(j1 == nci || p.columns[j1].tasks.contains(tid));
                    assert(false);
                } else {
                    assert(p.columns[i1].tasks.contains(x));
                    assert(p.columns[j1].tasks.contains(x));
                }
            }
        }
    }
}

/// Replacing a task and placing the replacement in a column preserves
/// a project's structural invariant, as long as the new identifier is
/// the old one or one the project does not use yet.
pub proof fn lemma_replace_task_with_column_preserves_wf(
    p: ProjectView,
    orig: Seq<char>,
    t: TaskView,
    j: int,
)
    requires
        p.wf(),
        0 <= j < p.columns.len(),
        t.id == orig || !p.has_task(t.id),
    ensures
        p.spec_replace_task(orig, t, Option::Some(j)).wf(),
{
    let q = p.spec_replace_task(orig, t, Option::Some(j));
    let r = remove_tasks(p.tasks, orig);
    let cleaned = p.cleaned_columns(orig);
    lemma_remove_tasks_distinct(p.tasks, orig);
    lemma_remove_tasks_gone(p.tasks, orig);
    lemma_has_task_iff(r, orig);
    lemma_has_task_iff(p.tasks, t.id);
    if t.id != orig {
        lemma_remove_tasks_membership(p.tasks, orig, t.id);
        lemma_has_task_iff(r, t.id);
    }
    assert(!some_task_has(r, t.id));
    assert forall|i1: int, j1: int|
        0 <= i1 < j1 < q.tasks.len() implies (#[trigger] q.tasks[i1]).id
        != (#[trigger] q.tasks[j1]).id by {
        if j1 < r.len() {
            assert(q.tasks[i1] == r[i1] && q.tasks[j1] == r[j1]);
        } else {
            assert(q.tasks[i1] == r[i1] && q.tasks[j1] == t);
            if r[i1].id == t.id {
                assert(some_task_has(r, t.id));
            }
        }
    }
    assert forall|k: int| 0 <= k < cleaned.len() implies {
        &&& (#[trigger] cleaned[k]).id == p.columns[k].id
        &&& distinct_seq(cleaned[k].tasks)
        &&& !cleaned[k].tasks.contains(orig)
    } by {
        lemma_remove_all_distinct(p.columns[k].tasks, orig);
        lemma_remove_all_gone(p.columns[k].tasks, orig);
    }
    assert forall|k: int, x: Seq<char>|
        0 <= k < cleaned.len() && #[trigger] cleaned[k].tasks.contains(
            x,
        ) implies p.columns[k].tasks.contains(x) && x != orig by {
        lemma_remove_all_gone(p.columns[k].tasks, orig);
        if x != orig {
            lemma_remove_all_other(p.columns[k].tasks, orig, x);
        }
    }
    assert(!cleaned[j].tasks.contains(t.id)) by {
        if cleaned[j].tasks.contains(t.id) {
            assert(p.columns[j].tasks.contains(t.id) && t.id != orig);
            assert(p.has_task(t.id));
        }
    }
    assert forall|k: int| 0 <= k < q.columns.len() implies distinct_seq(
        (#[trigger] q.columns[k]).tasks,
    ) by {
        if k == j {
            let target = q.columns[j];
            assert forall|i1: int, j1: int|
                0 <= i1 < j1 < target.tasks.len() implies target.tasks[i1] != target.tasks[j1] by {
                if j1 < cleaned[j].tasks.len() {
                    assert(target.tasks[i1] == cleaned[j].tasks[i1]);
                    assert(target.tasks[j1] == cleaned[j].tasks[j1]);
                } else {
                    assert(target.tasks[j1] == t.id);
                    assert(target.tasks[i1] == cleaned[j].tasks[i1]);
                    assert(cleaned[j].tasks.contains(cleaned[j].tasks[i1]));
                }
            }
        }
    }
    assert forall|k: int, x: Seq<char>|
        0 <= k < q.columns.len() && #[trigger] q.columns[k].tasks.contains(
            x,
        ) implies q.has_task(x) by {
        lemma_has_task_iff(q.tasks, x);
        lemma_some_task_has_push(r, t, x);
        if k == j {
            lemma_contains_push(cleaned[j].tasks, t.id, x);
        }
        if x != t.id {
            assert(cleaned[k].tasks.contains(x));
            assert(p.columns[k].tasks.contains(x) && x != orig);
            assert(p.has_task(x));
            lemma_has_task_iff(p.tasks, x);
            lemma_remove_tasks_membership(p.tasks, orig, x);
        }
    }
    assert forall|i1: int, j1: int, x: Seq<char>|
        0 <= i1 < j1 < q.columns.len() implies !((#[trigger] q.columns[i1].tasks.contains(x)) && (
    #[trigger] q.columns[j1].tasks.contains(x))) by {
        if q.columns[i1].tasks.contains(x) && q.columns[j1].tasks.contains(x) {
            if i1 == j {
                lemma_contains_push(cleaned[j].tasks, t.id, x);
            }
            if j1 == j {
                lemma_contains_push(cleaned[j].tasks, t.id, x);
            }
            if x == t.id {
                if i1 != j {
                    assert(cleaned[i1].tasks.contains(x));
                    assert(p.columns[i1].tasks.contains(x) && x != orig);
                    assert(p.has_task(t.id));
                    assert(false);
                } else {
                    assert(cleaned[j1].tasks.contains(x));
                    assert(p.columns[j1].tasks.contains(x) && x != orig);
                    assert(p.has_task(t.id));
                    assert(false);
                }
            } else {
                assert(cleaned[i1].tasks.contains(x));
                assert(cleaned[j1].tasks.contains(x));
                assert(p.columns[i1].tasks.contains(x));
                assert(p.columns[j1].tasks.contains(x));
            }
        }
    }
}

/// One directive preserves the whole board's structural invariants: a
/// failed directive leaves the board alone, and a carried-out one
/// leaves every project well formed.
pub proof fn lemma_apply_preserves_wf(b: GitProjectView, d: crate::directive::DirectiveView)
    requires
        board_wf(b),
    ensures
        board_wf(crate::apply::spec_apply(b, d).0),
{
    let step = crate::apply::spec_apply(b, d);
    match spec_resolve(b, d.task, crate::apply::column_filter(d), d.project) {
        Result::Err(_) => {},
        Result::Ok(pi) => {
            crate::resolve::lemma_resolve_in_range(
                b,
                d.task,
                crate::apply::column_filter(d),
                d.project,
            );
            let p = b.projects[pi];
            match d.payload {
                crate::directive::DirectivePayloadView::MoveToColumn { column } => {
                    if p.has_column(column) && p.has_task(d.task) {
                        lemma_move_task_to_column_preserves_wf(p, d.task, column);
                        assert forall|i: int|
                            0 <= i < step.0.projects.len() implies (
                        #[trigger] step.0.projects[i]).wf() by {
                            if i != pi {
                                assert(step.0.projects[i] == b.projects[i]);
                            }
                        }
                    }
                },
                crate::directive::DirectivePayloadView::ChangeTags { ops } => {
                    if p.has_task(d.task) {
                        lemma_find_task_from(p.tasks, d.task, 0);
                        let t = p.tasks[p.task_index(d.task)];
                        let t2 = TaskView {
                            tags: crate::apply::spec_apply_ops(t.tags, ops),
                            ..t
                        };
                        lemma_replace_task_same_id_preserves_wf(p, d.task, t2);
                        assert forall|i: int|
                            0 <= i < step.0.projects.len() implies (
                        #[trigger] step.0.projects[i]).wf() by {
                            if i != pi {
                                assert(step.0.projects[i] == b.projects[i]);
                            }
                        }
                    }
                },
            }
        },
    }
}

/// A whole directive run preserves the board's structural invariants.
pub proof fn lemma_run_preserves_wf(b: GitProjectView, ds: Seq<crate::directive::DirectiveView>)
    requires
        board_wf(b),
    ensures
        board_wf(crate::apply::run_directives(b, ds).0),
    decreases ds.len(),
{
    if ds.len() > 0 {
        let step = crate::apply::spec_apply(b, ds[0]);
        if step.1 is None {
            lemma_apply_preserves_wf(b, ds[0]);
            lemma_run_preserves_wf(step.0, ds.drop_first());
        }
    }
}

/// Processing a whole message preserves the board's structural
/// invariants, whether it succeeds or stops at a failed directive.
pub proof fn lemma_process_preserves_wf(b: GitProjectView, s: Seq<char>)
    requires
        board_wf(b),
    ensures
        board_wf(crate::apply::spec_process(b, s).0),
{
    lemma_run_preserves_wf(b, crate::directive::spec_parse(s));
}

/// Adding a tag twice is the same as adding it once.
pub proof fn lemma_add_tag_idempotent(tags: Seq<Seq<char>>, tag: Seq<char>)
    ensures
        spec_add_tag(spec_add_tag(tags, tag), tag) == spec_add_tag(tags, tag),
{
    if !tags.contains(tag) {
        assert(tags.push(tag)[tags.len() as int] == tag);
        assert(tags.push(tag).contains(tag));
    }
}

/// A task whose tags hold `tag` at most once holds it exactly once
/// after the tag is added, however often the addition is repeated.
pub proof fn lemma_add_tag_once(tags: Seq<Seq<char>>, tag: Seq<char>)
    requires
        count_occ(tags, tag) <= 1,
    ensures
        count_occ(spec_add_tag(tags, tag), tag) == 1,
        count_occ(spec_add_tag(spec_add_tag(tags, tag), tag), tag) == 1,
{
    lemma_count_occ_contains(tags, tag);
    if !tags.contains(tag) {
        lemma_count_occ_push(tags, tag, tag);
    }
    lemma_add_tag_idempotent(tags, tag);
}

/// Removing a tag that is not there changes nothing: a no-op, not an
/// error.
pub proof fn lemma_remove_tag_absent(tags: Seq<Seq<char>>, tag: Seq<char>)
    requires
        !tags.contains(tag),
    ensures
        remove_all(tags, tag) == tags,
{
    lemma_remove_all_absent(tags, tag);
}

} // verus!
