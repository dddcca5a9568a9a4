use vstd::prelude::*;
use crate::id::Id;
use crate::strs::lemma_remove_all_push;
use crate::strs::opt_string_view;
use crate::strs::remove_all;
use crate::task::Task;

verus! {

/// View of a sequence of identifiers as their character sequences.
pub open spec fn ids_view(v: Seq<Id>) -> Seq<Seq<char>> {
    v.map_values(|i: Id| i@)
}

/// Mathematical model of a column: its key, display strings, and the
/// ordered identifiers of the tasks currently in it.
#[verifier::ext_equal]
pub ghost struct ColumnView {
    pub id: Seq<char>,
    pub name: Seq<char>,
    pub description: Seq<char>,
    pub tasks: Seq<Seq<char>>,
}

impl ColumnView {
    /// This column with every occurrence of `task` taken out.
    pub open spec fn without(self, task: Seq<char>) -> ColumnView {
        ColumnView { tasks: remove_all(self.tasks, task), ..self }
    }

    /// This column with `task` appended.
    pub open spec fn with_task(self, task: Seq<char>) -> ColumnView {
        ColumnView { tasks: self.tasks.push(task), ..self }
    }
}

/// A column of the board: an ordered list of task identifiers under a
/// stable key. A task identifier is meant to appear in at most one
/// column of a project; the project-level operations maintain that.
#[derive(Debug)]
pub struct Column {
    id: Id,
    name: String,
    description: String,
    tasks: Vec<Id>,
}

impl View for Column {
    type V = ColumnView;

    closed spec fn view(&self) -> ColumnView {
        ColumnView {
            id: self.id@,
            name: self.name@,
            description: self.description@,
            tasks: ids_view(self.tasks@),
        }
    }
}

impl Column {
    /// Starts building a column; identifier first, the required name
    /// and description follow on the builder.
    pub fn new(id: &str) -> (b: ColumnBuilder)
        ensures
            b@.id == id@,
            b@.name is None,
            b@.description is None,
            b@.tasks == Seq::<Seq<char>>::empty(),
    {
        ColumnBuilder::new(Id::new(id))
    }

    pub fn id(&self) -> (r: &Id)
        ensures
            r@ == self@.id,
    {
        &self.id
    }

    pub fn name(&self) -> (r: &str)
        ensures
            r@ == self@.name,
    {
        self.name.as_str()
    }

    pub fn description(&self) -> (r: &str)
        ensures
            r@ == self@.description,
    {
        self.description.as_str()
    }

    pub fn tasks(&self) -> (r: &[Id])
        ensures
            ids_view(r@) == self@.tasks,
    {
        self.tasks.as_slice()
    }

    /// Whether `task` is listed in this column.
    pub fn contains_task(&self, task: &Id) -> (r: bool)
        ensures
            r == self@.tasks.contains(task@),
    {
        let n = self.tasks.len();
        let mut i: usize = 0;
        while i < n
            invariant
                0 <= i <= n,
                n == self.tasks.len(),
                forall|k: int| 0 <= k < i ==> self.tasks@[k]@ != task@,
            decreases n - i,
        {
            if &self.tasks[i] == task {
                proof {
                    assert(self@.tasks[i as int] == self.tasks@[i as int]@);
                }
                return true;
            }
            i = i + 1;
        }
        proof {
            assert forall|k: int| 0 <= k < self@.tasks.len() implies self@.tasks[k] != task@ by {
                assert(self@.tasks[k] == self.tags_at(k));
            }
        }
        false
    }

    /// Ghost helper naming the view of the task identifier at `k`.
    spec fn tags_at(&self, k: int) -> Seq<char> {
        self.tasks@[k]@
    }

    /// Appends a task identifier.
    pub fn add_task_id(&mut self, task: Id)
        ensures
            final(self)@ == old(self)@.with_task(task@),
    {
        self.tasks.push(task);
        proof {
            assert(self@ =~= old(self)@.with_task(self.tasks@.last()@));
        }
    }

    /// Appends the identifier of `task`.
    pub fn add_task(&mut self, task: &Task)
        ensures
            final(self)@ == old(self)@.with_task(task@.id),
    {
        let id = task.id().clone();
        self.add_task_id(id);
    }

    /// Removes every occurrence of `task` from the column.
    pub fn remove_task(&mut self, task: &Id)
        ensures
            final(self)@ == old(self)@.without(task@),
    {
        let n = self.tasks.len();
        let mut kept: Vec<Id> = Vec::new();
        let mut i: usize = 0;
        while i < n
            invariant
                0 <= i <= n,
                n == self.tasks.len(),
                *self == *old(self),
                ids_view(kept@) == remove_all(ids_view(self.tasks@.subrange(0, i as int)), task@),
            decreases n - i,
        {
            let ghost pre = ids_view(self.tasks@.subrange(0, i as int));
            proof {
                assert(self.tasks@.subrange(0, i as int + 1).drop_last() =~= self.tasks@.subrange(
                    0,
                    i as int,
                ));
                assert(ids_view(self.tasks@.subrange(0, i as int + 1)) =~= pre.push(
                    self.tasks@[i as int]@,
                ));
                lemma_remove_all_push(pre, task@, self.tasks@[i as int]@);
            }
            if &self.tasks[i] == task {
            } else {
                kept.push(self.tasks[i].clone());
                proof {
                    assert(ids_view(kept@) =~= remove_all(pre, task@).push(self.tasks@[i as int]@));
                }
            }
            i = i + 1;
        }
        proof {
            assert(self.tasks@.subrange(0, n as int) =~= self.tasks@);
        }
        self.tasks = kept;
        proof {
            assert(self@ =~= old(self)@.without(task@));
        }
    }

    /// A copy of this column with an empty task list.
    pub fn without_tasks(&self) -> (r: Column)
        ensures
            r@ == (ColumnView { tasks: Seq::<Seq<char>>::empty(), ..self@ }),
    {
        let r = Column {
            id: self.id.clone(),
            name: self.name.clone(),
            description: self.description.clone(),
            tasks: Vec::new(),
        };
        proof {
            assert(r@ =~= (ColumnView { tasks: Seq::<Seq<char>>::empty(), ..self@ }));
        }
        r
    }
}

impl Clone for Column {
    fn clone(&self) -> (r: Column)
        ensures
            r@ == self@,
    {
        let mut tasks: Vec<Id> = Vec::new();
        let n = self.tasks.len();
        let mut i: usize = 0;
        while i < n
            invariant
                0 <= i <= n,
                n == self.tasks.len(),
                tasks@ =~= self.tasks@.subrange(0, i as int),
            decreases n - i,
        {
            tasks.push(self.tasks[i].clone());
            i = i + 1;
        }
        proof {
            assert(tasks@ =~= self.tasks@);
        }
        let r = Column {
            id: self.id.clone(),
            name: self.name.clone(),
            description: self.description.clone(),
            tasks,
        };
        proof {
            assert(r@ =~= self@);
        }
        r
    }
}

/// Mathematical model of a column under construction.
#[verifier::ext_equal]
pub ghost struct ColumnBuilderView {
    pub id: Seq<char>,
    pub name: Option<Seq<char>>,
    pub description: Option<Seq<char>>,
    pub tasks: Seq<Seq<char>>,
}

/// Builds a [`Column`]. Identifier, name and description are required;
/// initial task identifiers are optional.
#[derive(Debug)]
pub struct ColumnBuilder {
    id: Id,
    name: Option<String>,
    description: Option<String>,
    tasks: Vec<Id>,
}

impl View for ColumnBuilder {
    type V = ColumnBuilderView;

    closed spec fn view(&self) -> ColumnBuilderView {
        ColumnBuilderView {
            id: self.id@,
            name: opt_string_view(self.name),
            description: opt_string_view(self.description),
            tasks: ids_view(self.tasks@),
        }
    }
}

impl ColumnBuilder {
    fn new(id: Id) -> (b: ColumnBuilder)
        ensures
            b@ == (ColumnBuilderView {
                id: id@,
                name: Option::None,
                description: Option::None,
                tasks: Seq::<Seq<char>>::empty(),
            }),
    {
        let b = ColumnBuilder { id, name: Option::None, description: Option::None, tasks: Vec::new() };
        proof {
            assert(b@ =~= (ColumnBuilderView {
                id: b.id@,
                name: Option::None,
                description: Option::None,
                tasks: Seq::<Seq<char>>::empty(),
            }));
        }
        b
    }

    pub fn description(self, description: &str) -> (b: ColumnBuilder)
        ensures
            b@ == (ColumnBuilderView { description: Option::Some(description@), ..self@ }),
    {
        ColumnBuilder { description: Option::Some(description.to_owned()), ..self }
    }

    pub fn name(self, name: &str) -> (b: ColumnBuilder)
        ensures
            b@ == (ColumnBuilderView { name: Option::Some(name@), ..self@ }),
    {
        ColumnBuilder { name: Option::Some(name.to_owned()), ..self }
    }

    /// Appends a task identifier to the column being built.
    pub fn add_task_id(self, task: &Id) -> (b: ColumnBuilder)
        ensures
            b@ == (ColumnBuilderView { tasks: self@.tasks.push(task@), ..self@ }),
    {
        let ColumnBuilder { id, name, description, mut tasks } = self;
        let ghost pre = tasks@;
        tasks.push(task.clone());
        let b = ColumnBuilder { id, name, description, tasks };
        proof {
            assert(b.tasks@ =~= pre.push(b.tasks@[pre.len() as int]));
            assert(ids_view(b.tasks@) =~= ids_view(pre).push(task@));
            assert(b@ =~= (ColumnBuilderView { tasks: self@.tasks.push(task@), ..self@ }));
        }
        b
    }

    /// Appends the identifier of `task` to the column being built.
    pub fn add_task(self, task: &Task) -> (b: ColumnBuilder)
        ensures
            b@ == (ColumnBuilderView { tasks: self@.tasks.push(task@.id), ..self@ }),
    {
        self.add_task_id(task.id())
    }

    /// Succeeds exactly when name and description have been given;
    /// otherwise hands the builder back unchanged.
    pub fn build(self) -> (r: Result<Column, ColumnBuilder>)
        ensures
            match r {
                Result::Ok(c) => self@.name is Some && self@.description is Some && c@
                    == (ColumnView {
                    id: self@.id,
                    name: self@.name->0,
                    description: self@.description->0,
                    tasks: self@.tasks,
                }),
                Result::Err(b) => (self@.name is None || self@.description is None) && b@ == self@,
            },
    {
        match self {
            ColumnBuilder { id, name: Option::Some(name), description: Option::Some(description), tasks } => {
                let c = Column { id, name, description, tasks };
                proof {
                    assert(c@ =~= (ColumnView {
                        id: self@.id,
                        name: self@.name->0,
                        description: self@.description->0,
                        tasks: self@.tasks,
                    }));
                }
                Result::Ok(c)
            },
            b => Result::Err(b),
        }
    }
}

} // verus!
