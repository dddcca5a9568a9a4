use vstd::prelude::*;
use vstd::pervasive::unreached;
use vstd::string::*;
use crate::column::Column;
use crate::column::ColumnView;
use crate::git_project::GitProject;
use crate::git_project::GitProjectView;
use crate::project::Project;
use crate::project::ProjectView;
use crate::task::Task;
use crate::task::TaskView;

verus! {

/// The view of a fresh board: one project, keyed and named by `name`,
/// with the three starter columns and one welcoming task assigned to
/// `assignee`, sitting in the middle column.
pub open spec fn starter_view(
    name: Seq<char>,
    assignee: Seq<char>,
    welcome: Seq<char>,
) -> GitProjectView {
    GitProjectView {
        projects: seq![
            ProjectView {
                id: name,
                name: name,
                description: "Write a description of your project here."@,
                columns: seq![
                    ColumnView {
                        id: "New"@,
                        name: "New"@,
                        description: "Tasks that have not yet been started"@,
                        tasks: Seq::empty(),
                    },
                    ColumnView {
                        id: "In Progress"@,
                        name: "In Progress"@,
                        description: "Tasks that are currently being worked on"@,
                        tasks: seq!["git-project"@],
                    },
                    ColumnView {
                        id: "Done"@,
                        name: "Done"@,
                        description: "Tasks that have been completed recently"@,
                        tasks: Seq::empty(),
                    },
                ],
                tasks: seq![
                    TaskView {
                        id: "git-project"@,
                        name: "Welcome to Git project"@,
                        description: welcome,
                        assignee: Option::Some(assignee),
                        tags: seq!["meta"@],
                    },
                ],
            },
        ],
    }
}

/// A fresh board satisfies the structural invariant of every project.
pub proof fn lemma_starter_view_wf(name: Seq<char>, assignee: Seq<char>, welcome: Seq<char>)
    ensures
        crate::laws::board_wf(starter_view(name, assignee, welcome)),
{
    reveal_strlit("New");
    reveal_strlit("In Progress");
    reveal_strlit("Done");
    reveal_strlit("git-project");
    let b = starter_view(name, assignee, welcome);
    let p = b.projects[0];
    assert(p.columns[0].id.len() == 3);
    assert(p.columns[1].id.len() == 11);
    assert(p.columns[2].id.len() == 4);
    assert(p.tasks[0].id == "git-project"@);
    assert(p.has_task("git-project"@));
    assert forall|k: int, x: Seq<char>|
        0 <= k < p.columns.len() && #[trigger] p.columns[k].tasks.contains(x) implies p.has_task(
        x,
    ) by {
        assert(k == 1 && x == "git-project"@);
    }
    assert forall|i: int, j: int, x: Seq<char>|
        0 <= i < j < p.columns.len() implies !((#[trigger] p.columns[i].tasks.contains(x)) && (
    #[trigger] p.columns[j].tasks.contains(x))) by {
        if p.columns[i].tasks.contains(x) {
            assert(i == 1);
        }
    }
    assert(p.wf());
    assert forall|i: int| 0 <= i < b.projects.len() implies (#[trigger] b.projects[i]).wf() by {
        assert(i == 0);
    }
}

/// The fresh board a newly initialised repository starts with: exactly
/// [`starter_view`]. The welcome task's description is handed in, since
/// its wording depends on how the surroundings were set up.
pub fn starter_board(name: &str, assignee: &str, welcome: &str) -> (r: GitProject)
    ensures
        r@ == starter_view(name@, assignee@, welcome@),
        crate::laws::board_wf(r@),
{
    let task = match Task::new("git-project").name("Welcome to Git project").tag("meta").assignee(
        assignee,
    ).description(welcome).build() {
        Result::Ok(t) => t,
        Result::Err(_) => unreached(),
    };
    proof {
        assert(task@.tags =~= seq!["meta"@]);
    }
    let column_new = match Column::new("New").name("New").description(
        "Tasks that have not yet been started",
    ).build() {
        Result::Ok(c) => c,
        Result::Err(_) => unreached(),
    };
    let column_doing = match Column::new("In Progress").name("In Progress").description(
        "Tasks that are currently being worked on",
    ).add_task(&task).build() {
        Result::Ok(c) => c,
        Result::Err(_) => unreached(),
    };
    let column_done = match Column::new("Done").name("Done").description(
        "Tasks that have been completed recently",
    ).build() {
        Result::Ok(c) => c,
        Result::Err(_) => unreached(),
    };
    proof {
        assert(column_new@.tasks =~= Seq::<Seq<char>>::empty());
        assert(column_doing@.tasks =~= seq!["git-project"@]);
        assert(column_done@.tasks =~= Seq::<Seq<char>>::empty());
    }
    let project = match Project::new(name).name(name).description(
        "Write a description of your project here.",
    ).column(column_new).column(column_doing).column(column_done).task(task).build() {
        Result::Ok(p) => p,
        Result::Err(_) => unreached(),
    };
    let board = match GitProject::new().project(project).build() {
        Result::Ok(b) => b,
        Result::Err(_) => unreached(),
    };
    proof {
        assert(project@.columns =~= starter_view(name@, assignee@, welcome@).projects[0].columns);
        assert(project@.tasks =~= starter_view(name@, assignee@, welcome@).projects[0].tasks);
        assert(project@ =~= starter_view(name@, assignee@, welcome@).projects[0]);
        assert(board@ =~= starter_view(name@, assignee@, welcome@));
        lemma_starter_view_wf(name@, assignee@, welcome@);
    }
    board
}

/// The line a repository hook script uses to hand control to this
/// system for the hook called `name`.
pub open spec fn hook_invocation(name: Seq<char>) -> Seq<char> {
    "git project hook "@ + name
}

/// Whether `pat` stands in `s` beginning at `k`.
pub open spec fn begins_at(s: Seq<char>, k: int, pat: Seq<char>) -> bool {
    0 <= k && k + pat.len() <= s.len() && s.subrange(k, k + pat.len()) == pat
}

/// Whether no comment sign stands in `s`.
pub open spec fn no_hash(s: Seq<char>) -> bool {
    forall|i: int| 0 <= i < s.len() ==> s[i] != '#'
}

/// Whether a script line already hands the hook `name` over: the
/// invocation stands in the line with no comment sign before it.
pub open spec fn invokes_hook(line: Seq<char>, name: Seq<char>) -> bool {
    exists|k: int| begins_at(line, k, hook_invocation(name)) && no_hash(line.subrange(0, k))
}

/// Whether `pat` stands in `s` beginning at `k`, as exec code.
fn match_at(s: &str, k: usize, pat: &str) -> (r: bool)
    requires
        k + pat@.len() <= s@.len(),
    ensures
        r == begins_at(s@, k as int, pat@),
{
    let n = s.unicode_len();
    let m = pat.unicode_len();
    let mut i: usize = 0;
    while i < m
        invariant
            0 <= i <= m,
            m == pat@.len(),
            n == s@.len(),
            k + m <= n,
            forall|q: int| 0 <= q < i ==> s@[k + q] == pat@[q],
        decreases m - i,
    {
        if s.get_char(k + i) == pat.get_char(i) {
        } else {
            proof {
                if begins_at(s@, k as int, pat@) {
                    assert(s@.subrange(k as int, k as int + m as int)[i as int] == pat@[i as int]);
                }
            }
            return false;
        }
        i = i + 1;
    }
    proof {
        assert(s@.subrange(k as int, k as int + m as int) =~= pat@);
    }
    true
}

/// Whether `line` already hands the hook `name` over, exactly as
/// [`invokes_hook`] describes: used to keep a hook script from being
/// extended twice.
pub fn line_invokes_hook(line: &str, name: &str) -> (r: bool)
    ensures
        r == invokes_hook(line@, name@),
{
    let mut pat = String::new();
    pat.append("git project hook ");
    pat.append(name);
    proof {
        reveal_strlit("git project hook ");
        assert(pat@ =~= hook_invocation(name@));
    }
    let n = line.unicode_len();
    let m = pat.as_str().unicode_len();
    if m > n {
        proof {
            assert forall|k: int| !(begins_at(line@, k, hook_invocation(name@)) && no_hash(
                line@.subrange(0, k),
            )) by {}
        }
        return false;
    }
    let mut k: usize = 0;
    while k <= n - m
        invariant
            0 <= k <= n - m + 1,
            m == hook_invocation(name@).len(),
            1 <= m <= n,
            n == line@.len(),
            pat@ == hook_invocation(name@),
            no_hash(line@.subrange(0, k as int)),
            forall|q: int|
                0 <= q < k ==> !(begins_at(line@, q, hook_invocation(name@)) && no_hash(
                    line@.subrange(0, q),
                )),
        decreases n - k,
    {
        if match_at(line, k, pat.as_str()) {
            proof {
                assert(begins_at(line@, k as int, hook_invocation(name@)) && no_hash(
                    line@.subrange(0, k as int),
                ));
            }
            return true;
        }
        if line.get_char(k) == '#' {
            proof {
                assert forall|q: int|
                    !(begins_at(line@, q, hook_invocation(name@)) && no_hash(
                        line@.subrange(0, q),
                    )) by {
                    if q > k {
                        if 0 <= q <= line@.len() {
                            assert(line@.subrange(0, q)[k as int] == '#');
                        }
                    }
                }
            }
            return false;
        }
        proof {
            assert(line@.subrange(0, k as int + 1) =~= line@.subrange(0, k as int).push(
                line@[k as int],
            ));
        }
        k = k + 1;
    }
    proof {
        assert forall|q: int|
            !(begins_at(line@, q, hook_invocation(name@)) && no_hash(line@.subrange(0, q))) by {
            if q >= k {
                assert(q + hook_invocation(name@).len() > line@.len());
            }
        }
    }
    false
}

} // verus!
