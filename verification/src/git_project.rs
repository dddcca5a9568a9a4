use vstd::prelude::*;
use crate::project::Project;
use crate::project::ProjectView;

verus! {

/// View of a sequence of projects.
pub open spec fn projects_view(v: Seq<Project>) -> Seq<ProjectView> {
    v.map_values(|p: Project| p@)
}

/// First index at or after `i` of a project with identifier `id`
/// (the length if there is none).
pub open spec fn find_project_from(ps: Seq<ProjectView>, id: Seq<char>, i: int) -> int
    decreases ps.len() - i,
{
    if i < 0 {
        i
    } else if i < ps.len() {
        if ps[i].id == id {
            i
        } else {
            find_project_from(ps, id, i + 1)
        }
    } else {
        i
    }
}

pub proof fn lemma_find_project_from(ps: Seq<ProjectView>, id: Seq<char>, i: int)
    requires
        0 <= i <= ps.len(),
    ensures
        i <= find_project_from(ps, id, i) <= ps.len(),
        find_project_from(ps, id, i) < ps.len() ==> ps[find_project_from(ps, id, i)].id == id,
        forall|k: int| i <= k < find_project_from(ps, id, i) ==> (#[trigger] ps[k]).id != id,
        find_project_from(ps, id, i) == ps.len() ==> forall|k: int|
            i <= k < ps.len() ==> (#[trigger] ps[k]).id != id,
    decreases ps.len() - i,
{
    if i < ps.len() && ps[i].id != id {
        lemma_find_project_from(ps, id, i + 1);
    }
}

/// Mathematical model of the whole board: its projects, in order.
#[verifier::ext_equal]
pub ghost struct GitProjectView {
    pub projects: Seq<ProjectView>,
}

impl GitProjectView {
    /// Index of the first project with identifier `id`, or the count.
    pub open spec fn project_index(self, id: Seq<char>) -> int {
        find_project_from(self.projects, id, 0)
    }

    pub open spec fn has_project(self, id: Seq<char>) -> bool {
        self.project_index(id) < self.projects.len()
    }
}

/// The board: every project managed alongside one repository. The
/// board owns its projects; all relationships inside it go by
/// identifier lookup.
#[derive(Debug)]
pub struct GitProject {
    pub(crate) projects: Vec<Project>,
}

impl View for GitProject {
    type V = GitProjectView;

    closed spec fn view(&self) -> GitProjectView {
        GitProjectView { projects: projects_view(self.projects@) }
    }
}

impl GitProject {
    /// Starts building a board.
    pub fn new() -> (b: GitProjectBuilder)
        ensures
            b@ == Seq::<ProjectView>::empty(),
    {
        GitProjectBuilder::new()
    }

    pub fn projects(&self) -> (r: &[Project])
        ensures
            projects_view(r@) == self@.projects,
    {
        self.projects.as_slice()
    }

    /// How many projects the board holds.
    pub fn project_count(&self) -> (r: usize)
        ensures
            r == self@.projects.len(),
    {
        self.projects.len()
    }

    /// The project at `i`, borrowed.
    pub fn project_at(&self, i: usize) -> (r: &Project)
        requires
            i < self@.projects.len(),
        ensures
            r@ == self@.projects[i as int],
    {
        &self.projects[i]
    }

    /// Takes the project at `i` out of the board, to be put back with
    /// [`GitProject::put_project`] once it has been worked on.
    pub fn take_project(&mut self, i: usize) -> (r: Project)
        requires
            i < old(self)@.projects.len(),
        ensures
            r@ == old(self)@.projects[i as int],
            final(self)@.projects == old(self)@.projects.remove(i as int),
    {
        let r = self.projects.remove(i);
        proof {
            assert(self@.projects =~= old(self)@.projects.remove(i as int));
        }
        r
    }

    /// Puts a project back at `i`.
    pub fn put_project(&mut self, i: usize, project: Project)
        requires
            i <= old(self)@.projects.len(),
        ensures
            final(self)@.projects == old(self)@.projects.insert(i as int, project@),
    {
        let ghost pv = project@;
        self.projects.insert(i, project);
        proof {
            assert(self@.projects =~= old(self)@.projects.insert(i as int, pv));
        }
    }

    /// Adds a project. Fails, changing nothing, if a project with the
    /// same identifier already exists.
    pub fn add_project(&mut self, project: Project) -> (r: bool)
        ensures
            r == !old(self)@.has_project(project@.id),
            r ==> final(self)@ == (GitProjectView {
                projects: old(self)@.projects.push(project@),
            }),
            !r ==> final(self)@ == old(self)@,
    {
        let ghost pv = project@;
        let n = self.projects.len();
        let mut i: usize = 0;
        while i < n
            invariant
                0 <= i <= n,
                n == self.projects.len(),
                *self == *old(self),
                pv == project@,
                find_project_from(self@.projects, pv.id, 0) == find_project_from(
                    self@.projects,
                    pv.id,
                    i as int,
                ),
            decreases n - i,
        {
            let p = &self.projects[i];
            proof {
                assert(self@.projects[i as int] == self.projects@[i as int]@);
            }
            if p.id() == project.id() {
                return false;
            }
            i = i + 1;
        }
        self.projects.push(project);
        proof {
            assert(self@.projects =~= old(self)@.projects.push(pv));
            assert(self@ =~= (GitProjectView { projects: old(self)@.projects.push(pv) }));
        }
        true
    }

    /// Puts `project` in the place of the first project whose
    /// identifier is `key`; appends it if no project carries `key`.
    pub fn replace_project(&mut self, key: &str, project: Project)
        ensures
            ({
                let i = old(self)@.project_index(key@);
                if i < old(self)@.projects.len() {
                    final(self)@ == (GitProjectView {
                        projects: old(self)@.projects.update(i, project@),
                    })
                } else {
                    final(self)@ == (GitProjectView {
                        projects: old(self)@.projects.push(project@),
                    })
                }
            }),
    {
        let ghost pv = project@;
        let key_id = crate::id::Id::new(key);
        let n = self.projects.len();
        let mut i: usize = 0;
        while i < n
            invariant
                0 <= i <= n,
                n == self.projects.len(),
                *self == *old(self),
                pv == project@,
                key_id@ == key@,
                find_project_from(self@.projects, key@, 0) == find_project_from(
                    self@.projects,
                    key@,
                    i as int,
                ),
            decreases n - i,
        {
            let p = &self.projects[i];
            proof {
                assert(self@.projects[i as int] == self.projects@[i as int]@);
            }
            if p.id() == &key_id {
                let ghost prev = self.projects@;
                self.projects.remove(i);
                self.projects.insert(i, project);
                proof {
                    assert(self.projects@ =~= prev.update(i as int, self.projects@[i as int]));
                    assert(self@.projects =~= old(self)@.projects.update(i as int, pv));
                    assert(self@ =~= (GitProjectView {
                        projects: old(self)@.projects.update(i as int, pv),
                    }));
                }
                return ;
            }
            i = i + 1;
        }
        self.projects.push(project);
        proof {
            assert(self@.projects =~= old(self)@.projects.push(pv));
            assert(self@ =~= (GitProjectView { projects: old(self)@.projects.push(pv) }));
        }
    }
}

impl Clone for GitProject {
    fn clone(&self) -> (r: GitProject)
        ensures
            r@ == self@,
    {
        let mut projects: Vec<Project> = Vec::new();
        let n = self.projects.len();
        let mut i: usize = 0;
        while i < n
            invariant
                0 <= i <= n,
                n == self.projects.len(),
                projects@.len() == i,
                forall|k: int| 0 <= k < i ==> projects@[k]@ == #[trigger] self.projects@[k]@,
            decreases n - i,
        {
            projects.push(self.projects[i].clone());
            i = i + 1;
        }
        let r = GitProject { projects };
        proof {
            assert(projects_view(r.projects@) =~= projects_view(self.projects@));
            assert(r@ =~= self@);
        }
        r
    }
}

/// Builds a [`GitProject`]; its view is the projects gathered so far.
#[derive(Debug)]
pub struct GitProjectBuilder {
    projects: Vec<Project>,
}

impl View for GitProjectBuilder {
    type V = Seq<ProjectView>;

    closed spec fn view(&self) -> Seq<ProjectView> {
        projects_view(self.projects@)
    }
}

impl GitProjectBuilder {
    fn new() -> (b: GitProjectBuilder)
        ensures
            b@ == Seq::<ProjectView>::empty(),
    {
        let b = GitProjectBuilder { projects: Vec::new() };
        proof {
            assert(b@ =~= Seq::<ProjectView>::empty());
        }
        b
    }

    /// Appends a project to the board being built.
    pub fn project(self, project: Project) -> (b: GitProjectBuilder)
        ensures
            b@ == self@.push(project@),
    {
        let ghost pv = project@;
        let GitProjectBuilder { mut projects } = self;
        let ghost pre = projects@;
        projects.push(project);
        let b = GitProjectBuilder { projects };
        proof {
            assert(b.projects@ =~= pre.push(b.projects@[pre.len() as int]));
            assert(b@ =~= self@.push(pv));
        }
        b
    }

    /// Building a board never fails; the result holds the projects in
    /// the order they were given.
    pub fn build(self) -> (r: Result<GitProject, GitProjectBuilder>)
        ensures
            match r {
                Result::Ok(g) => g@ == (GitProjectView { projects: self@ }),
                Result::Err(_) => false,
            },
    {
        Result::Ok(GitProject { projects: self.projects })
    }
}

} // verus!
