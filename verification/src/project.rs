use vstd::prelude::*;
use crate::column::Column;
use crate::column::ColumnView;
use crate::id::Id;
use crate::strs::strings_view;
use crate::task::Task;
use crate::task::TaskView;

verus! {

/// View of a sequence of columns.
pub open spec fn cols_view(v: Seq<Column>) -> Seq<ColumnView> {
    v.map_values(|c: Column| c@)
}

/// View of a sequence of tasks.
pub open spec fn tasks_view(v: Seq<Task>) -> Seq<TaskView> {
    v.map_values(|t: Task| t@)
}

/// First index at or after `i` of a task with identifier `id`
/// (the length if there is none).
pub open spec fn find_task_from(ts: Seq<TaskView>, id: Seq<char>, i: int) -> int
    decreases ts.len() - i,
{
    if i < 0 {
        i
    } else if i < ts.len() {
        if ts[i].id == id {
            i
        } else {
            find_task_from(ts, id, i + 1)
        }
    } else {
        i
    }
}

pub proof fn lemma_find_task_from(ts: Seq<TaskView>, id: Seq<char>, i: int)
    requires
        0 <= i <= ts.len(),
    ensures
        i <= find_task_from(ts, id, i) <= ts.len(),
        find_task_from(ts, id, i) < ts.len() ==> ts[find_task_from(ts, id, i)].id == id,
        forall|k: int| i <= k < find_task_from(ts, id, i) ==> (#[trigger] ts[k]).id != id,
        find_task_from(ts, id, i) == ts.len() ==> forall|k: int|
            i <= k < ts.len() ==> (#[trigger] ts[k]).id != id,
    decreases ts.len() - i,
{
    if i < ts.len() && ts[i].id != id {
        lemma_find_task_from(ts, id, i + 1);
    }
}

/// First index at or after `i` of a column with identifier `id`
/// (the length if there is none).
pub open spec fn find_col_from(cs: Seq<ColumnView>, id: Seq<char>, i: int) -> int
    decreases cs.len() - i,
{
    if i < 0 {
        i
    } else if i < cs.len() {
        if cs[i].id == id {
            i
        } else {
            find_col_from(cs, id, i + 1)
        }
    } else {
        i
    }
}

pub proof fn lemma_find_col_from(cs: Seq<ColumnView>, id: Seq<char>, i: int)
    requires
        0 <= i <= cs.len(),
    ensures
        i <= find_col_from(cs, id, i) <= cs.len(),
        find_col_from(cs, id, i) < cs.len() ==> cs[find_col_from(cs, id, i)].id == id,
        forall|k: int| i <= k < find_col_from(cs, id, i) ==> (#[trigger] cs[k]).id != id,
        find_col_from(cs, id, i) == cs.len() ==> forall|k: int|
            i <= k < cs.len() ==> (#[trigger] cs[k]).id != id,
    decreases cs.len() - i,
{
    if i < cs.len() && cs[i].id != id {
        lemma_find_col_from(cs, id, i + 1);
    }
}

/// First index at or after `i` of a column whose task list holds `tid`
/// (the length if there is none).
pub open spec fn find_holder_from(cs: Seq<ColumnView>, tid: Seq<char>, i: int) -> int
    decreases cs.len() - i,
{
    if i < 0 {
        i
    } else if i < cs.len() {
        if cs[i].tasks.contains(tid) {
            i
        } else {
            find_holder_from(cs, tid, i + 1)
        }
    } else {
        i
    }
}

pub proof fn lemma_find_holder_from(cs: Seq<ColumnView>, tid: Seq<char>, i: int)
    requires
        0 <= i <= cs.len(),
    ensures
        i <= find_holder_from(cs, tid, i) <= cs.len(),
        find_holder_from(cs, tid, i) < cs.len() ==> cs[find_holder_from(cs, tid, i)].tasks.contains(
            tid,
        ),
        forall|k: int|
            i <= k < find_holder_from(cs, tid, i) ==> !(#[trigger] cs[k]).tasks.contains(tid),
        find_holder_from(cs, tid, i) == cs.len() ==> forall|k: int|
            i <= k < cs.len() ==> !(#[trigger] cs[k]).tasks.contains(tid),
    decreases cs.len() - i,
{
    if i < cs.len() && !cs[i].tasks.contains(tid) {
        lemma_find_holder_from(cs, tid, i + 1);
    }
}

/// All tasks with identifier `id` removed, order of the rest kept.
pub open spec fn remove_tasks(ts: Seq<TaskView>, id: Seq<char>) -> Seq<TaskView>
    decreases ts.len(),
{
    if ts.len() == 0 {
        Seq::empty()
    } else if ts.last().id == id {
        remove_tasks(ts.drop_last(), id)
    } else {
        remove_tasks(ts.drop_last(), id).push(ts.last())
    }
}

pub proof fn lemma_remove_tasks_push(ts: Seq<TaskView>, id: Seq<char>, t: TaskView)
    ensures
        t.id == id ==> remove_tasks(ts.push(t), id) == remove_tasks(ts, id),
        t.id != id ==> remove_tasks(ts.push(t), id) == remove_tasks(ts, id).push(t),
{
    assert(ts.push(t).drop_last() =~= ts);
}

/// No task with identifier `id` survives `remove_tasks`.
pub proof fn lemma_remove_tasks_gone(ts: Seq<TaskView>, id: Seq<char>)
    ensures
        find_task_from(remove_tasks(ts, id), id, 0) == remove_tasks(ts, id).len(),
    decreases ts.len(),
{
    if ts.len() > 0 {
        lemma_remove_tasks_gone(ts.drop_last(), id);
        let r = remove_tasks(ts.drop_last(), id);
        lemma_find_task_from(r, id, 0);
        if ts.last().id != id {
            lemma_find_task_from(r.push(ts.last()), id, 0);
            assert forall|k: int| 0 <= k < r.push(ts.last()).len() implies (#[trigger] r.push(
                ts.last(),
            )[k]).id != id by {
                if k < r.len() {
                    assert(r.push(ts.last())[k] == r[k]);
                }
            }
            lemma_find_none(r.push(ts.last()), id, 0);
        }
    }
}

/// If no task in `ts` carries `id`, the search runs to the end.
pub proof fn lemma_find_none(ts: Seq<TaskView>, id: Seq<char>, i: int)
    requires
        0 <= i <= ts.len(),
        forall|k: int| 0 <= k < ts.len() ==> (#[trigger] ts[k]).id != id,
    ensures
        find_task_from(ts, id, i) == ts.len(),
    decreases ts.len() - i,
{
    if i < ts.len() {
        lemma_find_none(ts, id, i + 1);
    }
}

/// `x` appended unless already present: gathering without duplicates.
pub open spec fn push_new(acc: Seq<Seq<char>>, x: Seq<char>) -> Seq<Seq<char>> {
    if acc.contains(x) {
        acc
    } else {
        acc.push(x)
    }
}

/// The distinct assignees over the tasks, in order of first appearance.
pub open spec fn collect_assignees(ts: Seq<TaskView>) -> Seq<Seq<char>>
    decreases ts.len(),
{
    if ts.len() == 0 {
        Seq::empty()
    } else {
        let prev = collect_assignees(ts.drop_last());
        match ts.last().assignee {
            Option::None => prev,
            Option::Some(a) => push_new(prev, a),
        }
    }
}

/// `acc` extended by whatever of `tags` it does not yet hold, in order.
pub open spec fn add_new_tags(acc: Seq<Seq<char>>, tags: Seq<Seq<char>>) -> Seq<Seq<char>>
    decreases tags.len(),
{
    if tags.len() == 0 {
        acc
    } else {
        push_new(add_new_tags(acc, tags.drop_last()), tags.last())
    }
}

/// The distinct tags over the tasks, in order of first appearance.
pub open spec fn collect_tags(ts: Seq<TaskView>) -> Seq<Seq<char>>
    decreases ts.len(),
{
    if ts.len() == 0 {
        Seq::empty()
    } else {
        add_new_tags(collect_tags(ts.drop_last()), ts.last().tags)
    }
}

/// The indices below `k` of the tasks assigned to `user`.
pub open spec fn assigned_upto(ts: Seq<TaskView>, user: Seq<char>, k: int) -> Seq<int>
    decreases k,
{
    if k <= 0 {
        Seq::empty()
    } else {
        assigned_upto(ts, user, k - 1) + if ts[k - 1].assignee == Option::Some(user) {
            seq![k - 1]
        } else {
            Seq::empty()
        }
    }
}

/// Appends `x` to `acc` unless it is already there, exactly as
/// [`push_new`] describes.
fn push_if_new(acc: &mut Vec<String>, x: &str)
    ensures
        strings_view(final(acc)@) == push_new(strings_view(old(acc)@), x@),
{
    let wanted: String = x.to_owned();
    let n = acc.len();
    let mut i: usize = 0;
    while i < n
        invariant
            0 <= i <= n,
            n == acc.len(),
            *acc == *old(acc),
            wanted@ == x@,
            forall|k: int| 0 <= k < i ==> acc@[k]@ != x@,
        decreases n - i,
    {
        if acc[i] == wanted {
            proof {
                assert(strings_view(acc@)[i as int] == acc@[i as int]@);
                assert(strings_view(acc@).contains(x@));
            }
            return ;
        }
        i = i + 1;
    }
    proof {
        assert forall|k: int|
            0 <= k < strings_view(acc@).len() implies strings_view(acc@)[k] != x@ by {
            assert(strings_view(acc@)[k] == acc@[k]@);
        }
        assert(!strings_view(acc@).contains(x@));
    }
    acc.push(wanted);
    proof {
        assert(strings_view(acc@) =~= strings_view(old(acc)@).push(x@));
    }
}

/// A sequence of identifiers with no repeats.
pub open spec fn distinct_seq(s: Seq<Seq<char>>) -> bool {
    forall|i: int, j: int| 0 <= i < j < s.len() ==> s[i] != s[j]
}

/// Whether some task in `ts` carries `id`.
pub open spec fn some_task_has(ts: Seq<TaskView>, id: Seq<char>) -> bool {
    exists|i: int| 0 <= i < ts.len() && (#[trigger] ts[i]).id == id
}

/// The search-based membership test agrees with the existential one.
pub proof fn lemma_has_task_iff(ts: Seq<TaskView>, id: Seq<char>)
    ensures
        find_task_from(ts, id, 0) < ts.len() <==> some_task_has(ts, id),
{
    lemma_find_task_from(ts, id, 0);
    if find_task_from(ts, id, 0) < ts.len() {
        assert(ts[find_task_from(ts, id, 0)].id == id);
    }
}

/// Removing every task with one identifier keeps every other
/// identifier's presence as it was.
pub proof fn lemma_remove_tasks_membership(ts: Seq<TaskView>, id: Seq<char>, y: Seq<char>)
    requires
        y != id,
    ensures
        some_task_has(remove_tasks(ts, id), y) <==> some_task_has(ts, y),
    decreases ts.len(),
{
    if ts.len() > 0 {
        lemma_remove_tasks_membership(ts.drop_last(), id, y);
        let r = remove_tasks(ts.drop_last(), id);
        assert(ts =~= ts.drop_last().push(ts.last()));
        lemma_some_task_has_push(ts.drop_last(), ts.last(), y);
        if ts.last().id != id {
            lemma_some_task_has_push(r, ts.last(), y);
        }
    }
}

/// Membership of an identifier in a pushed task sequence.
pub proof fn lemma_some_task_has_push(ts: Seq<TaskView>, t: TaskView, y: Seq<char>)
    ensures
        some_task_has(ts.push(t), y) <==> (some_task_has(ts, y) || t.id == y),
{
    if some_task_has(ts, y) {
        let i = choose|i: int| 0 <= i < ts.len() && ts[i].id == y;
        assert(ts.push(t)[i].id == y);
    }
    if t.id == y {
        assert(ts.push(t)[ts.len() as int].id == y);
    }
    if some_task_has(ts.push(t), y) {
        let i = choose|i: int| 0 <= i < ts.push(t).len() && ts.push(t)[i].id == y;
        if i < ts.len() {
            assert(ts[i].id == y);
        }
    }
}

/// Pairwise-distinct task identifiers.
pub open spec fn distinct_task_ids(ts: Seq<TaskView>) -> bool {
    forall|i: int, j: int|
        0 <= i < j < ts.len() ==> (#[trigger] ts[i]).id != (#[trigger] ts[j]).id
}

/// Removing every task with one identifier keeps the rest distinct.
pub proof fn lemma_remove_tasks_distinct(ts: Seq<TaskView>, id: Seq<char>)
    requires
        distinct_task_ids(ts),
    ensures
        distinct_task_ids(remove_tasks(ts, id)),
    decreases ts.len(),
{
    if ts.len() > 0 {
        assert forall|i: int, j: int|
            0 <= i < j < ts.drop_last().len() implies (#[trigger] ts.drop_last()[i]).id
            != (#[trigger] ts.drop_last()[j]).id by {
            assert(ts.drop_last()[i] == ts[i] && ts.drop_last()[j] == ts[j]);
        }
        lemma_remove_tasks_distinct(ts.drop_last(), id);
        let r = remove_tasks(ts.drop_last(), id);
        if ts.last().id != id {
            assert forall|k: int| 0 <= k < r.len() implies (#[trigger] r[k]).id != ts.last().id by {
                if r[k].id == ts.last().id {
                    assert(some_task_has(r, ts.last().id));
                    lemma_remove_tasks_membership(ts.drop_last(), id, ts.last().id);
                    let w = choose|w: int|
                        0 <= w < ts.drop_last().len() && (#[trigger] ts.drop_last()[w]).id
                            == ts.last().id;
                    assert(ts[w].id == ts[ts.len() - 1].id);
                }
            }
            assert forall|i: int, j: int|
                0 <= i < j < r.push(ts.last()).len() implies (#[trigger] r.push(ts.last())[i]).id
                != (#[trigger] r.push(ts.last())[j]).id by {
                if j < r.len() {
                    assert(r.push(ts.last())[i] == r[i] && r.push(ts.last())[j] == r[j]);
                } else {
                    assert(r.push(ts.last())[i] == r[i] && r.push(ts.last())[j] == ts.last());
                }
            }
        }
    }
}

/// Removing every occurrence of one entry keeps a distinct identifier
/// sequence distinct.
pub proof fn lemma_remove_all_distinct(s: Seq<Seq<char>>, x: Seq<char>)
    requires
        distinct_seq(s),
    ensures
        distinct_seq(crate::strs::remove_all(s, x)),
    decreases s.len(),
{
    if s.len() > 0 {
        assert forall|i: int, j: int|
            0 <= i < j < s.drop_last().len() implies s.drop_last()[i] != s.drop_last()[j] by {
            assert(s.drop_last()[i] == s[i] && s.drop_last()[j] == s[j]);
        }
        lemma_remove_all_distinct(s.drop_last(), x);
        let r = crate::strs::remove_all(s.drop_last(), x);
        if s.last() != x {
            assert forall|k: int| 0 <= k < r.len() implies r[k] != s.last() by {
                if r[k] == s.last() {
                    assert(r.contains(s.last()));
                    crate::strs::lemma_remove_all_other(s.drop_last(), x, s.last());
                    let w = choose|w: int|
                        0 <= w < s.drop_last().len() && s.drop_last()[w] == s.last();
                    assert(s[w] == s[s.len() - 1]);
                }
            }
            assert forall|i: int, j: int|
                0 <= i < j < r.push(s.last()).len() implies r.push(s.last())[i] != r.push(
                s.last(),
            )[j] by {
                if j < r.len() {
                    assert(r.push(s.last())[i] == r[i] && r.push(s.last())[j] == r[j]);
                } else {
                    assert(r.push(s.last())[i] == r[i] && r.push(s.last())[j] == s.last());
                }
            }
        }
    }
}

/// Mathematical model of a project.
#[verifier::ext_equal]
pub ghost struct ProjectView {
    pub id: Seq<char>,
    pub name: Seq<char>,
    pub description: Seq<char>,
    pub columns: Seq<ColumnView>,
    pub tasks: Seq<TaskView>,
}

impl ProjectView {
    /// Index of the first task with identifier `id`, or the task count.
    pub open spec fn task_index(self, id: Seq<char>) -> int {
        find_task_from(self.tasks, id, 0)
    }

    pub open spec fn has_task(self, id: Seq<char>) -> bool {
        self.task_index(id) < self.tasks.len()
    }

    /// Index of the first column with identifier `id`, or the column count.
    pub open spec fn column_index(self, id: Seq<char>) -> int {
        find_col_from(self.columns, id, 0)
    }

    pub open spec fn has_column(self, id: Seq<char>) -> bool {
        self.column_index(id) < self.columns.len()
    }

    /// Index of the first column whose list holds `tid`, or the column count.
    pub open spec fn holder_index(self, tid: Seq<char>) -> int {
        find_holder_from(self.columns, tid, 0)
    }

    /// Every column with all occurrences of `tid` removed.
    pub open spec fn cleaned_columns(self, tid: Seq<char>) -> Seq<ColumnView> {
        self.columns.map_values(|c: ColumnView| c.without(tid))
    }

    /// Effect of `move_task_to_column`: the task identifier leaves every
    /// column; if a column with `cid` exists, the identifier is appended
    /// to the first such column, and otherwise the task stays unassigned.
    pub open spec fn spec_move_task_to_column(self, tid: Seq<char>, cid: Seq<char>) -> ProjectView {
        let cleaned = self.cleaned_columns(tid);
        let j = find_col_from(cleaned, cid, 0);
        if j < cleaned.len() {
            ProjectView { columns: cleaned.update(j, cleaned[j].with_task(tid)), ..self }
        } else {
            ProjectView { columns: cleaned, ..self }
        }
    }

    /// Effect of a successful `add_task`.
    pub open spec fn spec_add_task(self, t: TaskView, ci: int) -> ProjectView {
        ProjectView {
            columns: self.columns.update(ci, self.columns[ci].with_task(t.id)),
            tasks: self.tasks.push(t),
            ..self
        }
    }

    /// Effect of `delete_task`.
    pub open spec fn spec_delete_task(self, tid: Seq<char>) -> ProjectView {
        ProjectView {
            columns: self.cleaned_columns(tid),
            tasks: remove_tasks(self.tasks, tid),
            ..self
        }
    }

    /// Effect of `replace_task`: with a target column the original
    /// identifier leaves every column and the new task's identifier is
    /// appended there; without one, column membership is untouched. The
    /// original task leaves the task list and the new task is appended.
    pub open spec fn spec_replace_task(
        self,
        orig: Seq<char>,
        t: TaskView,
        ci: Option<int>,
    ) -> ProjectView {
        let cols = match ci {
            Option::Some(j) => {
                let cleaned = self.cleaned_columns(orig);
                cleaned.update(j, cleaned[j].with_task(t.id))
            },
            Option::None => self.columns,
        };
        ProjectView { columns: cols, tasks: remove_tasks(self.tasks, orig).push(t), ..self }
    }

    /// Effect of `move_task`: the task moves `distance` columns over
    /// from the column now listing it; nothing happens if no column
    /// lists it or the target index falls outside the columns.
    pub open spec fn spec_move_task(self, tid: Seq<char>, distance: int) -> ProjectView {
        let pci = self.holder_index(tid);
        if pci >= self.columns.len() {
            self
        } else {
            let nci = pci + distance;
            if nci < 0 || nci >= self.columns.len() {
                self
            } else {
                let c1 = self.columns.update(pci, self.columns[pci].without(tid));
                ProjectView { columns: c1.update(nci, c1[nci].with_task(tid)), ..self }
            }
        }
    }

    /// Structural invariant: unique task and column identifiers, no
    /// duplicate entries inside a column, no identifier in two columns,
    /// and no column entry without a backing task.
    pub open spec fn wf(self) -> bool {
        &&& forall|i: int, j: int|
            0 <= i < j < self.tasks.len() ==> (#[trigger] self.tasks[i]).id
                != (#[trigger] self.tasks[j]).id
        &&& forall|i: int, j: int|
            0 <= i < j < self.columns.len() ==> (#[trigger] self.columns[i]).id
                != (#[trigger] self.columns[j]).id
        &&& forall|i: int| 0 <= i < self.columns.len() ==> distinct_seq((#[trigger] self.columns[i]).tasks)
        &&& forall|i: int, x: Seq<char>|
            0 <= i < self.columns.len() && (#[trigger] self.columns[i].tasks.contains(x))
                ==> self.has_task(x)
        &&& forall|i: int, j: int, x: Seq<char>|
            0 <= i < j < self.columns.len() ==> !((#[trigger] self.columns[i].tasks.contains(x))
                && (#[trigger] self.columns[j].tasks.contains(x)))
    }
}

/// A project: columns and tasks under a stable key.
#[derive(Debug)]
pub struct Project {
    id: Id,
    name: String,
    description: String,
    columns: Vec<Column>,
    tasks: Vec<Task>,
}

impl View for Project {
    type V = ProjectView;

    closed spec fn view(&self) -> ProjectView {
        ProjectView {
            id: self.id@,
            name: self.name@,
            description: self.description@,
            columns: cols_view(self.columns@),
            tasks: tasks_view(self.tasks@),
        }
    }
}

impl Project {
    /// Starts building a project; identifier first, the required name
    /// and description follow on the builder.
    pub fn new(id: &str) -> (b: ProjectBuilder)
        ensures
            b@.id == id@,
            b@.name is None,
            b@.description is None,
            b@.columns == Seq::<ColumnView>::empty(),
            b@.tasks == Seq::<TaskView>::empty(),
    {
        ProjectBuilder::new(Id::new(id))
    }

    pub fn id(&self) -> (r: &Id)
        ensures
            r@ == self@.id,
    {
        &self.id
    }

    pub fn name(&self) -> (r: &str)
        ensures
            r@ == self@.name,
    {
        self.name.as_str()
    }

    pub fn description(&self) -> (r: &str)
        ensures
            r@ == self@.description,
    {
        self.description.as_str()
    }

    pub fn columns(&self) -> (r: &[Column])
        ensures
            cols_view(r@) == self@.columns,
    {
        self.columns.as_slice()
    }

    pub fn tasks(&self) -> (r: &[Task])
        ensures
            tasks_view(r@) == self@.tasks,
    {
        self.tasks.as_slice()
    }

    /// The first task carrying `task_id`, if any.
    pub fn task_with_id(&self, task_id: &Id) -> (r: Option<&Task>)
        ensures
            match r {
                Option::Some(t) => self@.has_task(task_id@) && t@ == self@.tasks[self@.task_index(
                    task_id@,
                )],
                Option::None => !self@.has_task(task_id@),
            },
    {
        let n = self.tasks.len();
        let mut i: usize = 0;
        while i < n
            invariant
                0 <= i <= n,
                n == self.tasks.len(),
                find_task_from(self@.tasks, task_id@, 0) == find_task_from(
                    self@.tasks,
                    task_id@,
                    i as int,
                ),
            decreases n - i,
        {
            let t = &self.tasks[i];
            proof {
                assert(self@.tasks[i as int] == self.tasks@[i as int]@);
            }
            if t.id() == task_id {
                return Option::Some(t);
            }
            i = i + 1;
        }
        Option::None
    }

    /// Whether any task carries `task_id`.
    pub fn contains_task_id(&self, task_id: &Id) -> (r: bool)
        ensures
            r == self@.has_task(task_id@),
    {
        self.task_with_id(task_id).is_some()
    }

    /// The first column whose identifier is `column_id`, if any.
    pub fn column_with_id(&self, column_id: &Id) -> (r: Option<&Column>)
        ensures
            match r {
                Option::Some(c) => self@.has_column(column_id@) && c@ == self@.columns[self@.column_index(
                    column_id@,
                )],
                Option::None => !self@.has_column(column_id@),
            },
    {
        let n = self.columns.len();
        let mut i: usize = 0;
        while i < n
            invariant
                0 <= i <= n,
                n == self.columns.len(),
                find_col_from(self@.columns, column_id@, 0) == find_col_from(
                    self@.columns,
                    column_id@,
                    i as int,
                ),
            decreases n - i,
        {
            let c = &self.columns[i];
            proof {
                assert(self@.columns[i as int] == self.columns@[i as int]@);
            }
            if c.id() == column_id {
                return Option::Some(c);
            }
            i = i + 1;
        }
        Option::None
    }

    /// Whether any column carries `column_id`.
    pub fn contains_column_id(&self, column_id: &Id) -> (r: bool)
        ensures
            r == self@.has_column(column_id@),
    {
        self.column_with_id(column_id).is_some()
    }

    /// The column currently listing `task`, if any.
    pub fn column_of_task(&self, task: &Task) -> (r: Option<&Column>)
        ensures
            match r {
                Option::Some(c) => self@.holder_index(task@.id) < self@.columns.len() && c@
                    == self@.columns[self@.holder_index(task@.id)],
                Option::None => self@.holder_index(task@.id) == self@.columns.len(),
            },
    {
        let n = self.columns.len();
        let mut i: usize = 0;
        while i < n
            invariant
                0 <= i <= n,
                n == self.columns.len(),
                find_holder_from(self@.columns, task@.id, 0) == find_holder_from(
                    self@.columns,
                    task@.id,
                    i as int,
                ),
            decreases n - i,
        {
            let c = &self.columns[i];
            proof {
                assert(self@.columns[i as int] == self.columns@[i as int]@);
            }
            if c.contains_task(task.id()) {
                return Option::Some(c);
            }
            i = i + 1;
        }
        Option::None
    }

    /// The index of the column currently listing `task`, if any.
    pub fn column_index_of_task(&self, task: &Task) -> (r: Option<usize>)
        ensures
            match r {
                Option::Some(i) => self@.holder_index(task@.id) == i as int && i < self@.columns.len(),
                Option::None => self@.holder_index(task@.id) == self@.columns.len(),
            },
    {
        let n = self.columns.len();
        let mut i: usize = 0;
        while i < n
            invariant
                0 <= i <= n,
                n == self.columns.len(),
                find_holder_from(self@.columns, task@.id, 0) == find_holder_from(
                    self@.columns,
                    task@.id,
                    i as int,
                ),
            decreases n - i,
        {
            let c = &self.columns[i];
            proof {
                assert(self@.columns[i as int] == self.columns@[i as int]@);
            }
            if c.contains_task(task.id()) {
                return Option::Some(i);
            }
            i = i + 1;
        }
        Option::None
    }

    /// The distinct assignees over this project's tasks, in order of
    /// first appearance.
    pub fn all_assignees(&self) -> (r: Vec<String>)
        ensures
            strings_view(r@) == collect_assignees(self@.tasks),
    {
        let mut acc: Vec<String> = Vec::new();
        let n = self.tasks.len();
        let mut i: usize = 0;
        while i < n
            invariant
                0 <= i <= n,
                n == self.tasks.len(),
                strings_view(acc@) == collect_assignees(
                    tasks_view(self.tasks@.subrange(0, i as int)),
                ),
            decreases n - i,
        {
            let ghost pre = tasks_view(self.tasks@.subrange(0, i as int));
            proof {
                assert(self.tasks@.subrange(0, i as int + 1).drop_last() =~= self.tasks@.subrange(
                    0,
                    i as int,
                ));
                assert(tasks_view(self.tasks@.subrange(0, i as int + 1)) =~= pre.push(
                    self.tasks@[i as int]@,
                ));
                assert(pre.push(self.tasks@[i as int]@).drop_last() =~= pre);
            }
            let t = &self.tasks[i];
            match t.assignee() {
                Option::Some(a) => push_if_new(&mut acc, a),
                Option::None => {},
            }
            i = i + 1;
        }
        proof {
            assert(self.tasks@.subrange(0, n as int) =~= self.tasks@);
        }
        acc
    }

    /// The distinct tags over this project's tasks, in order of first
    /// appearance.
    pub fn all_tags(&self) -> (r: Vec<String>)
        ensures
            strings_view(r@) == collect_tags(self@.tasks),
    {
        let mut acc: Vec<String> = Vec::new();
        let n = self.tasks.len();
        let mut i: usize = 0;
        while i < n
            invariant
                0 <= i <= n,
                n == self.tasks.len(),
                strings_view(acc@) == collect_tags(tasks_view(self.tasks@.subrange(0, i as int))),
            decreases n - i,
        {
            let ghost pre = tasks_view(self.tasks@.subrange(0, i as int));
            proof {
                assert(self.tasks@.subrange(0, i as int + 1).drop_last() =~= self.tasks@.subrange(
                    0,
                    i as int,
                ));
                assert(tasks_view(self.tasks@.subrange(0, i as int + 1)) =~= pre.push(
                    self.tasks@[i as int]@,
                ));
                assert(pre.push(self.tasks@[i as int]@).drop_last() =~= pre);
            }
            let t = &self.tasks[i];
            let tags = t.tags();
            let m = tags.len();
            let ghost tagv = self.tasks@[i as int]@.tags;
            let mut k: usize = 0;
            while k < m
                invariant
                    0 <= k <= m,
                    m == tagv.len(),
                    0 <= i < n,
                    n == self.tasks.len(),
                    strings_view(tags@) == tagv,
                    strings_view(acc@) == add_new_tags(
                        collect_tags(tasks_view(self.tasks@.subrange(0, i as int))),
                        tagv.subrange(0, k as int),
                    ),
                decreases m - k,
            {
                proof {
                    assert(tagv.subrange(0, k as int + 1).drop_last() =~= tagv.subrange(
                        0,
                        k as int,
                    ));
                    assert(tags@[k as int]@ == tagv[k as int]);
                }
                push_if_new(&mut acc, tags[k].as_str());
                k = k + 1;
            }
            proof {
                assert(tagv.subrange(0, m as int) =~= tagv);
            }
            i = i + 1;
        }
        proof {
            assert(self.tasks@.subrange(0, n as int) =~= self.tasks@);
        }
        acc
    }

    /// The indices of the tasks assigned to `user`, in order.
    pub fn tasks_assigned_to(&self, user: &str) -> (r: Vec<usize>)
        ensures
            r@.map_values(|u: usize| u as int) == assigned_upto(
                self@.tasks,
                user@,
                self@.tasks.len() as int,
            ),
    {
        let mut found: Vec<usize> = Vec::new();
        let wanted: String = user.to_owned();
        let n = self.tasks.len();
        let mut i: usize = 0;
        while i < n
            invariant
                0 <= i <= n,
                n == self.tasks.len(),
                wanted@ == user@,
                found@.map_values(|u: usize| u as int) == assigned_upto(
                    self@.tasks,
                    user@,
                    i as int,
                ),
            decreases n - i,
        {
            let t = &self.tasks[i];
            proof {
                assert(self@.tasks[i as int] == self.tasks@[i as int]@);
            }
            let assigned = match t.assignee() {
                Option::Some(a) => a.to_owned() == wanted,
                Option::None => false,
            };
            proof {
                assert(assigned == (self@.tasks[i as int].assignee == Option::Some(user@)));
            }
            if assigned {
                found.push(i);
            }
            proof {
                assert(found@.map_values(|u: usize| u as int) =~= assigned_upto(
                    self@.tasks,
                    user@,
                    i as int + 1,
                ));
            }
            i = i + 1;
        }
        found
    }

    /// Removes every occurrence of `task_id` from every column.
    fn clear_task_from_columns(&mut self, task_id: &Id)
        ensures
            final(self)@ == (ProjectView {
                columns: old(self)@.cleaned_columns(task_id@),
                ..old(self)@
            }),
    {
        let n = self.columns.len();
        let mut i: usize = 0;
        while i < n
            invariant
                0 <= i <= n,
                n == self.columns.len(),
                self.id == old(self).id,
                self.name == old(self).name,
                self.description == old(self).description,
                self.tasks == old(self).tasks,
                forall|k: int|
                    0 <= k < i ==> self.columns@[k]@ == (#[trigger] old(self).columns@[k]@).without(
                        task_id@,
                    ),
                forall|k: int| i <= k < n ==> self.columns@[k]@ == (#[trigger] old(self).columns@[k]@),
            decreases n - i,
        {
            let ghost prev = self.columns@;
            let mut c = self.columns.remove(i);
            c.remove_task(task_id);
            self.columns.insert(i, c);
            proof {
                assert(self.columns@ =~= prev.update(i as int, self.columns@[i as int]));
            }
            i = i + 1;
        }
        proof {
            assert(self@.columns =~= old(self)@.cleaned_columns(task_id@));
            assert(self@ =~= (ProjectView {
                columns: old(self)@.cleaned_columns(task_id@),
                ..old(self)@
            }));
        }
    }

    /// Removes every task carrying `task_id` from the task list.
    fn remove_task_from_list(&mut self, task_id: &Id)
        ensures
            final(self)@ == (ProjectView {
                tasks: remove_tasks(old(self)@.tasks, task_id@),
                ..old(self)@
            }),
    {
        let n = self.tasks.len();
        let mut kept: Vec<Task> = Vec::new();
        let mut i: usize = 0;
        while i < n
            invariant
                0 <= i <= n,
                n == self.tasks.len(),
                *self == *old(self),
                tasks_view(kept@) == remove_tasks(
                    tasks_view(self.tasks@.subrange(0, i as int)),
                    task_id@,
                ),
            decreases n - i,
        {
            let ghost pre = tasks_view(self.tasks@.subrange(0, i as int));
            proof {
                assert(self.tasks@.subrange(0, i as int + 1).drop_last() =~= self.tasks@.subrange(
                    0,
                    i as int,
                ));
                assert(tasks_view(self.tasks@.subrange(0, i as int + 1)) =~= pre.push(
                    self.tasks@[i as int]@,
                ));
                lemma_remove_tasks_push(pre, task_id@, self.tasks@[i as int]@);
            }
            let t = &self.tasks[i];
            if t.id() == task_id {
            } else {
                kept.push(t.clone());
                proof {
                    assert(tasks_view(kept@) =~= remove_tasks(pre, task_id@).push(
                        self.tasks@[i as int]@,
                    ));
                }
            }
            i = i + 1;
        }
        proof {
            assert(self.tasks@.subrange(0, n as int) =~= self.tasks@);
        }
        self.tasks = kept;
        proof {
            assert(self@ =~= (ProjectView {
                tasks: remove_tasks(old(self)@.tasks, task_id@),
                ..old(self)@
            }));
        }
    }

    /// Adds a fresh task to the task list and to the column at
    /// `column`. Fails, changing nothing, if a task with the same
    /// identifier already exists.
    pub fn add_task(&mut self, task: Task, column: usize) -> (r: bool)
        requires
            column < old(self)@.columns.len(),
        ensures
            r == !old(self)@.has_task(task@.id),
            r ==> final(self)@ == old(self)@.spec_add_task(task@, column as int),
            !r ==> final(self)@ == old(self)@,
    {
        let ghost tv = task@;
        if self.task_with_id(task.id()).is_some() {
            return false;
        }
        let mut c = self.columns.remove(column);
        c.add_task(&task);
        self.columns.insert(column, c);
        self.tasks.push(task);
        proof {
            assert(self@.columns =~= old(self)@.columns.update(
                column as int,
                old(self)@.columns[column as int].with_task(tv.id),
            ));
            assert(self@.tasks =~= old(self)@.tasks.push(tv));
            assert(self@ =~= old(self)@.spec_add_task(tv, column as int));
        }
        true
    }

    /// Removes the original task everywhere it is listed (when a target
    /// column is given), then swaps it for `task` in the task list.
    pub fn replace_task(&mut self, original_task: &Id, task: Task, column: Option<usize>)
        requires
            match column {
                Option::Some(j) => j < old(self)@.columns.len(),
                Option::None => true,
            },
        ensures
            final(self)@ == old(self)@.spec_replace_task(
                original_task@,
                task@,
                match column {
                    Option::Some(j) => Option::Some(j as int),
                    Option::None => Option::None,
                },
            ),
    {
        let ghost t_view = task@;
        match column {
            Option::Some(j) => {
                self.clear_task_from_columns(original_task);
                proof {
                    assert(self@.columns.len() == old(self)@.columns.len());
                    assert(self.columns@.len() == self@.columns.len());
                }
                let mut c = self.columns.remove(j);
                c.add_task(&task);
                self.columns.insert(j, c);
                proof {
                    let cleaned = old(self)@.cleaned_columns(original_task@);
                    assert(self@.columns =~= cleaned.update(
                        j as int,
                        cleaned[j as int].with_task(t_view.id),
                    ));
                }
            },
            Option::None => {},
        }
        self.remove_task_from_list(original_task);
        self.tasks.push(task);
        proof {
            assert(self@.tasks =~= remove_tasks(old(self)@.tasks, original_task@).push(t_view));
            assert(self@ =~= old(self)@.spec_replace_task(
                original_task@,
                t_view,
                match column {
                    Option::Some(j) => Option::Some(j as int),
                    Option::None => Option::None,
                },
            ));
        }
    }

    /// Removes the task from every column and from the task list;
    /// absence is not an error.
    pub fn delete_task(&mut self, task_id: &Id)
        ensures
            final(self)@ == old(self)@.spec_delete_task(task_id@),
    {
        self.clear_task_from_columns(task_id);
        self.remove_task_from_list(task_id);
        proof {
            assert(self@ =~= old(self)@.spec_delete_task(task_id@));
        }
    }

    /// Moves `task` by `distance` columns, if it sits in a column and
    /// the target index exists; otherwise changes nothing.
    pub fn move_task(&mut self, task: &Task, distance: isize)
        ensures
            final(self)@ == old(self)@.spec_move_task(task@.id, distance as int),
    {
        let previous = match self.column_index_of_task(task) {
            Option::Some(i) => i,
            Option::None => {
                return ;
            },
        };
        let target = previous as i128 + distance as i128;
        if target < 0 || target >= self.columns.len() as i128 {
            return ;
        }
        let new_column = target as usize;
        let mut c = self.columns.remove(previous);
        c.remove_task(task.id());
        self.columns.insert(previous, c);
        let mut c2 = self.columns.remove(new_column);
        c2.add_task(task);
        self.columns.insert(new_column, c2);
        proof {
            let pci = old(self)@.holder_index(task@.id);
            let c1 = old(self)@.columns.update(pci, old(self)@.columns[pci].without(task@.id));
            assert(self@.columns =~= c1.update(
                pci + distance as int,
                c1[pci + distance as int].with_task(task@.id),
            ));
            assert(self@ =~= old(self)@.spec_move_task(task@.id, distance as int));
        }
    }

    /// Removes the task identifier from every column; if a column with
    /// `column_id` exists, appends the identifier to the first such
    /// column, and otherwise leaves the task unassigned.
    pub fn move_task_to_column(&mut self, task_id: Id, column_id: Id)
        ensures
            final(self)@ == old(self)@.spec_move_task_to_column(task_id@, column_id@),
    {
        let ghost tid = task_id@;
        let ghost cid = column_id@;
        self.clear_task_from_columns(&task_id);
        let ghost cleaned = old(self)@.cleaned_columns(tid);
        let n = self.columns.len();
        let mut i: usize = 0;
        while i < n
            invariant
                0 <= i <= n,
                n == self.columns.len(),
                self@ == (ProjectView { columns: cleaned, ..old(self)@ }),
                cleaned == old(self)@.cleaned_columns(tid),
                cid == column_id@,
                tid == task_id@,
                find_col_from(cleaned, cid, 0) == find_col_from(cleaned, cid, i as int),
            decreases n - i,
        {
            let c = &self.columns[i];
            proof {
                assert(self@.columns[i as int] == self.columns@[i as int]@);
            }
            if c.id() == &column_id {
                proof {
                    assert(cleaned[i as int].id == cid);
                    assert(find_col_from(cleaned, cid, i as int) == i as int);
                    assert(find_col_from(cleaned, cid, 0) == i as int);
                    assert((i as int) < cleaned.len());
                    assert(old(self)@.spec_move_task_to_column(tid, cid) == (ProjectView {
                        columns: cleaned.update(i as int, cleaned[i as int].with_task(tid)),
                        ..old(self)@
                    }));
                }
                let mut target = self.columns.remove(i);
                target.add_task_id(task_id);
                self.columns.insert(i, target);
                proof {
                    assert(self@.columns =~= cleaned.update(
                        i as int,
                        cleaned[i as int].with_task(tid),
                    ));
                    assert(self@ =~= old(self)@.spec_move_task_to_column(tid, cid));
                }
                return ;
            }
            i = i + 1;
        }
        proof {
            lemma_find_col_from(cleaned, cid, 0);
            assert(self@ =~= old(self)@.spec_move_task_to_column(tid, cid));
        }
    }
}

impl Clone for Project {
    fn clone(&self) -> (r: Project)
        ensures
            r@ == self@,
    {
        let mut columns: Vec<Column> = Vec::new();
        let cn = self.columns.len();
        let mut i: usize = 0;
        while i < cn
            invariant
                0 <= i <= cn,
                cn == self.columns.len(),
                columns@.len() == i,
                forall|k: int| 0 <= k < i ==> columns@[k]@ == #[trigger] self.columns@[k]@,
            decreases cn - i,
        {
            columns.push(self.columns[i].clone());
            i = i + 1;
        }
        let mut tasks: Vec<Task> = Vec::new();
        let tn = self.tasks.len();
        let mut j: usize = 0;
        while j < tn
            invariant
                0 <= j <= tn,
                tn == self.tasks.len(),
                tasks@.len() == j,
                forall|k: int| 0 <= k < j ==> tasks@[k]@ == #[trigger] self.tasks@[k]@,
            decreases tn - j,
        {
            tasks.push(self.tasks[j].clone());
            j = j + 1;
        }
        let r = Project {
            id: self.id.clone(),
            name: self.name.clone(),
            description: self.description.clone(),
            columns,
            tasks,
        };
        proof {
            assert(cols_view(r.columns@) =~= cols_view(self.columns@));
            assert(tasks_view(r.tasks@) =~= tasks_view(self.tasks@));
            assert(r@ =~= self@);
        }
        r
    }
}

/// Mathematical model of a project under construction.
#[verifier::ext_equal]
pub ghost struct ProjectBuilderView {
    pub id: Seq<char>,
    pub name: Option<Seq<char>>,
    pub description: Option<Seq<char>>,
    pub columns: Seq<ColumnView>,
    pub tasks: Seq<TaskView>,
}

/// Builds a [`Project`]. Identifier, name and description are
/// required; columns and tasks are optional.
#[derive(Debug)]
pub struct ProjectBuilder {
    id: Id,
    name: Option<String>,
    description: Option<String>,
    columns: Vec<Column>,
    tasks: Vec<Task>,
}

impl View for ProjectBuilder {
    type V = ProjectBuilderView;

    closed spec fn view(&self) -> ProjectBuilderView {
        ProjectBuilderView {
            id: self.id@,
            name: crate::strs::opt_string_view(self.name),
            description: crate::strs::opt_string_view(self.description),
            columns: cols_view(self.columns@),
            tasks: tasks_view(self.tasks@),
        }
    }
}

impl ProjectBuilder {
    fn new(id: Id) -> (b: ProjectBuilder)
        ensures
            b@ == (ProjectBuilderView {
                id: id@,
                name: Option::None,
                description: Option::None,
                columns: Seq::<ColumnView>::empty(),
                tasks: Seq::<TaskView>::empty(),
            }),
    {
        let b = ProjectBuilder {
            id,
            name: Option::None,
            description: Option::None,
            columns: Vec::new(),
            tasks: Vec::new(),
        };
        proof {
            assert(b@ =~= (ProjectBuilderView {
                id: b.id@,
                name: Option::None,
                description: Option::None,
                columns: Seq::<ColumnView>::empty(),
                tasks: Seq::<TaskView>::empty(),
            }));
        }
        b
    }

    pub fn description(self, description: &str) -> (b: ProjectBuilder)
        ensures
            b@ == (ProjectBuilderView { description: Option::Some(description@), ..self@ }),
    {
        ProjectBuilder { description: Option::Some(description.to_owned()), ..self }
    }

    pub fn name(self, name: &str) -> (b: ProjectBuilder)
        ensures
            b@ == (ProjectBuilderView { name: Option::Some(name@), ..self@ }),
    {
        ProjectBuilder { name: Option::Some(name.to_owned()), ..self }
    }

    /// Appends a column to the project being built.
    pub fn column(self, column: Column) -> (b: ProjectBuilder)
        ensures
            b@ == (ProjectBuilderView { columns: self@.columns.push(column@), ..self@ }),
    {
        let ghost cv = column@;
        let ProjectBuilder { id, name, description, mut columns, tasks } = self;
        let ghost pre = columns@;
        columns.push(column);
        let b = ProjectBuilder { id, name, description, columns, tasks };
        proof {
            assert(b.columns@ =~= pre.push(b.columns@[pre.len() as int]));
            assert(cols_view(b.columns@) =~= cols_view(pre).push(cv));
            assert(b@ =~= (ProjectBuilderView { columns: self@.columns.push(cv), ..self@ }));
        }
        b
    }

    /// Appends a task to the project being built.
    pub fn task(self, task: Task) -> (b: ProjectBuilder)
        ensures
            b@ == (ProjectBuilderView { tasks: self@.tasks.push(task@), ..self@ }),
    {
        let ghost tv = task@;
        let ProjectBuilder { id, name, description, columns, mut tasks } = self;
        let ghost pre = tasks@;
        tasks.push(task);
        let b = ProjectBuilder { id, name, description, columns, tasks };
        proof {
            assert(b.tasks@ =~= pre.push(b.tasks@[pre.len() as int]));
            assert(tasks_view(b.tasks@) =~= tasks_view(pre).push(tv));
            assert(b@ =~= (ProjectBuilderView { tasks: self@.tasks.push(tv), ..self@ }));
        }
        b
    }

    /// Succeeds exactly when name and description have been given;
    /// otherwise hands the builder back unchanged.
    pub fn build(self) -> (r: Result<Project, ProjectBuilder>)
        ensures
            match r {
                Result::Ok(p) => self@.name is Some && self@.description is Some && p@
                    == (ProjectView {
                    id: self@.id,
                    name: self@.name->0,
                    description: self@.description->0,
                    columns: self@.columns,
                    tasks: self@.tasks,
                }),
                Result::Err(b) => (self@.name is None || self@.description is None) && b@ == self@,
            },
    {
        match self {
            ProjectBuilder { id, name: Option::Some(name), description: Option::Some(description), columns, tasks } => {
                let p = Project { id, name, description, columns, tasks };
                proof {
                    assert(p@ =~= (ProjectView {
                        id: self@.id,
                        name: self@.name->0,
                        description: self@.description->0,
                        columns: self@.columns,
                        tasks: self@.tasks,
                    }));
                }
                Result::Ok(p)
            },
            b => Result::Err(b),
        }
    }
}

} // verus!
