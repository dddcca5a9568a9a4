use vstd::prelude::*;
use vstd::string::*;
use crate::id::Id;
use crate::strs::lemma_remove_all_push;
use crate::strs::opt_string_view;
use crate::strs::remove_all;
use crate::strs::strings_view;
use crate::strs::trim_spaces;
use crate::strs::trimmed;

verus! {

/// Mathematical model of a task: every field as a plain value.
#[verifier::ext_equal]
pub ghost struct TaskView {
    pub id: Seq<char>,
    pub name: Seq<char>,
    pub description: Seq<char>,
    pub assignee: Option<Seq<char>>,
    pub tags: Seq<Seq<char>>,
}

/// A tag added if absent: no duplicate is ever introduced.
pub open spec fn spec_add_tag(tags: Seq<Seq<char>>, tag: Seq<char>) -> Seq<Seq<char>> {
    if tags.contains(tag) {
        tags
    } else {
        tags.push(tag)
    }
}

/// The first line of a description: everything before the first
/// newline, or the whole text if there is none.
pub open spec fn first_line(s: Seq<char>) -> Seq<char> {
    s.subrange(0, line_break(s, 0))
}

/// First position at or after `i` holding a newline (the length if none).
pub open spec fn line_break(s: Seq<char>, i: int) -> int
    decreases s.len() - i,
{
    if i < 0 {
        i
    } else if i < s.len() && s[i] != '\n' {
        line_break(s, i + 1)
    } else {
        i
    }
}

pub proof fn lemma_line_break(s: Seq<char>, i: int)
    requires
        0 <= i <= s.len(),
    ensures
        i <= line_break(s, i) <= s.len(),
        forall|k: int| i <= k < line_break(s, i) ==> #[trigger] s[k] != '\n',
        line_break(s, i) < s.len() ==> s[line_break(s, i)] == '\n',
    decreases s.len() - i,
{
    if i < s.len() && s[i] != '\n' {
        lemma_line_break(s, i + 1);
    }
}

/// A single work item. The task does not know which column it sits in:
/// column membership is recorded on the column.
#[derive(Debug)]
pub struct Task {
    id: Id,
    tags: Vec<String>,
    name: String,
    assignee: Option<String>,
    description: String,
}

impl View for Task {
    type V = TaskView;

    closed spec fn view(&self) -> TaskView {
        TaskView {
            id: self.id@,
            name: self.name@,
            description: self.description@,
            assignee: opt_string_view(self.assignee),
            tags: strings_view(self.tags@),
        }
    }
}

impl Task {
    /// Starts building a task; identifier first, the required name and
    /// description follow on the builder.
    pub fn new(id: &str) -> (b: TaskBuilder)
        ensures
            b@.id == id@,
            b@.tags == Seq::<Seq<char>>::empty(),
            b@.name is None,
            b@.assignee is None,
            b@.description is None,
    {
        TaskBuilder::new(Id::new(id))
    }

    pub fn id(&self) -> (r: &Id)
        ensures
            r@ == self@.id,
    {
        &self.id
    }

    pub fn tags(&self) -> (r: &[String])
        ensures
            strings_view(r@) == self@.tags,
    {
        self.tags.as_slice()
    }

    /// The display name, trimmed of surrounding whitespace.
    pub fn name(&self) -> (r: &str)
        ensures
            r@ == trimmed(self@.name),
    {
        trim_spaces(self.name.as_str())
    }

    pub fn assignee(&self) -> (r: Option<&str>)
        ensures
            match r {
                Option::Some(a) => self@.assignee == Option::Some(a@),
                Option::None => self@.assignee is None,
            },
    {
        match &self.assignee {
            Option::Some(a) => Option::Some(a.as_str()),
            Option::None => Option::None,
        }
    }

    /// The description, trimmed of surrounding whitespace.
    pub fn description(&self) -> (r: &str)
        ensures
            r@ == trimmed(self@.description),
    {
        trim_spaces(self.description.as_str())
    }

    /// The description's first line, trimmed.
    pub fn short_description(&self) -> (r: &str)
        ensures
            r@ == trimmed(first_line(self@.description)),
    {
        let s = self.description.as_str();
        let n = s.unicode_len();
        let mut j: usize = 0;
        proof {
            lemma_line_break(s@, 0);
        }
        while j < n && s.get_char(j) != '\n'
            invariant
                0 <= j <= n,
                n == s@.len(),
                line_break(s@, 0) == line_break(s@, j as int),
            decreases n - j,
        {
            proof {
                lemma_line_break(s@, j as int);
            }
            j = j + 1;
        }
        let head = s.substring_char(0, j);
        trim_spaces(head)
    }

    /// Adds `tag` unless the task already carries it.
    pub fn add_tag(&mut self, tag: &str)
        ensures
            final(self)@ == (TaskView { tags: spec_add_tag(old(self)@.tags, tag@), ..old(self)@ }),
    {
        let wanted: String = tag.to_owned();
        let n = self.tags.len();
        let mut i: usize = 0;
        while i < n
            invariant
                0 <= i <= n,
                n == self.tags.len(),
                *self == *old(self),
                wanted@ == tag@,
                forall|k: int| 0 <= k < i ==> self.tags@[k]@ != wanted@,
            decreases n - i,
        {
            if self.tags[i] == wanted {
                proof {
                    assert(self@.tags[i as int] == self.tags@[i as int]@);
                    assert(self@.tags.contains(tag@));
                    assert(self@ =~= (TaskView {
                        tags: spec_add_tag(old(self)@.tags, tag@),
                        ..old(self)@
                    }));
                }
                return ;
            }
            i = i + 1;
        }
        proof {
            assert forall|k: int| 0 <= k < self@.tags.len() implies self@.tags[k] != tag@ by {
                assert(self@.tags[k] == self.tags@[k]@);
            }
            assert(!self@.tags.contains(tag@));
        }
        self.tags.push(wanted);
        proof {
            assert(strings_view(self.tags@) =~= old(self)@.tags.push(tag@));
            assert(self@ =~= (TaskView {
                tags: spec_add_tag(old(self)@.tags, tag@),
                ..old(self)@
            }));
        }
    }

    /// Removes every occurrence of `tag`; absence is not an error.
    pub fn remove_tag(&mut self, tag: &str)
        ensures
            final(self)@ == (TaskView { tags: remove_all(old(self)@.tags, tag@), ..old(self)@ }),
    {
        let wanted: String = tag.to_owned();
        let n = self.tags.len();
        let mut kept: Vec<String> = Vec::new();
        let mut i: usize = 0;
        while i < n
            invariant
                0 <= i <= n,
                n == self.tags.len(),
                *self == *old(self),
                strings_view(kept@) == remove_all(strings_view(self.tags@.subrange(0, i as int)), wanted@),
                wanted@ == tag@,
            decreases n - i,
        {
            let ghost pre = strings_view(self.tags@.subrange(0, i as int));
            proof {
                assert(self.tags@.subrange(0, i as int + 1).drop_last() =~= self.tags@.subrange(
                    0,
                    i as int,
                ));
                assert(strings_view(self.tags@.subrange(0, i as int + 1)) =~= pre.push(
                    self.tags@[i as int]@,
                ));
                lemma_remove_all_push(pre, wanted@, self.tags@[i as int]@);
            }
            if self.tags[i] == wanted {
            } else {
                kept.push(self.tags[i].clone());
                proof {
                    assert(strings_view(kept@) =~= remove_all(pre, wanted@).push(
                        self.tags@[i as int]@,
                    ));
                }
            }
            i = i + 1;
        }
        proof {
            assert(self.tags@.subrange(0, n as int) =~= self.tags@);
        }
        self.tags = kept;
        proof {
            assert(self@ =~= (TaskView {
                tags: remove_all(old(self)@.tags, tag@),
                ..old(self)@
            }));
        }
    }
}

impl Clone for Task {
    fn clone(&self) -> (r: Task)
        ensures
            r@ == self@,
    {
        let mut tags: Vec<String> = Vec::new();
        let n = self.tags.len();
        let mut i: usize = 0;
        while i < n
            invariant
                0 <= i <= n,
                n == self.tags.len(),
                tags@ =~= self.tags@.subrange(0, i as int),
            decreases n - i,
        {
            tags.push(self.tags[i].clone());
            i = i + 1;
        }
        proof {
            assert(tags@ =~= self.tags@);
        }
        let r = Task {
            id: self.id.clone(),
            tags,
            name: self.name.clone(),
            assignee: match &self.assignee {
                Option::Some(a) => Option::Some(a.clone()),
                Option::None => Option::None,
            },
            description: self.description.clone(),
        };
        proof {
            assert(r@ =~= self@);
        }
        r
    }
}

/// Mathematical model of a task under construction.
#[verifier::ext_equal]
pub ghost struct TaskBuilderView {
    pub id: Seq<char>,
    pub tags: Seq<Seq<char>>,
    pub name: Option<Seq<char>>,
    pub assignee: Option<Seq<char>>,
    pub description: Option<Seq<char>>,
}

/// Builds a [`Task`]. Identifier, name and description are required;
/// tags and assignee are optional.
#[derive(Debug)]
pub struct TaskBuilder {
    id: Id,
    tags: Vec<String>,
    name: Option<String>,
    assignee: Option<String>,
    description: Option<String>,
}

impl View for TaskBuilder {
    type V = TaskBuilderView;

    closed spec fn view(&self) -> TaskBuilderView {
        TaskBuilderView {
            id: self.id@,
            tags: strings_view(self.tags@),
            name: opt_string_view(self.name),
            assignee: opt_string_view(self.assignee),
            description: opt_string_view(self.description),
        }
    }
}

impl TaskBuilder {
    fn new(id: Id) -> (b: TaskBuilder)
        ensures
            b@ == (TaskBuilderView {
                id: id@,
                tags: Seq::<Seq<char>>::empty(),
                name: Option::None,
                assignee: Option::None,
                description: Option::None,
            }),
    {
        let b = TaskBuilder { id, tags: Vec::new(), name: Option::None, assignee: Option::None, description: Option::None };
        proof {
            assert(b@ =~= (TaskBuilderView {
                id: b.id@,
                tags: Seq::<Seq<char>>::empty(),
                name: Option::None,
                assignee: Option::None,
                description: Option::None,
            }));
        }
        b
    }

    pub fn name(self, name: &str) -> (b: TaskBuilder)
        ensures
            b@ == (TaskBuilderView { name: Option::Some(name@), ..self@ }),
    {
        TaskBuilder { name: Option::Some(name.to_owned()), ..self }
    }

    pub fn description(self, description: &str) -> (b: TaskBuilder)
        ensures
            b@ == (TaskBuilderView { description: Option::Some(description@), ..self@ }),
    {
        TaskBuilder { description: Option::Some(description.to_owned()), ..self }
    }

    /// Appends a tag; the builder does not deduplicate.
    pub fn tag(self, tag: &str) -> (b: TaskBuilder)
        ensures
            b@ == (TaskBuilderView { tags: self@.tags.push(tag@), ..self@ }),
    {
        let TaskBuilder { id, mut tags, name, assignee, description } = self;
        let ghost pre = tags@;
        tags.push(tag.to_owned());
        let b = TaskBuilder { id, tags, name, assignee, description };
        proof {
            assert(b.tags@ =~= pre.push(b.tags@[pre.len() as int]));
            assert(strings_view(b.tags@) =~= strings_view(pre).push(tag@));
            assert(b@ =~= (TaskBuilderView { tags: self@.tags.push(tag@), ..self@ }));
        }
        b
    }

    pub fn assignee(self, assignee: &str) -> (b: TaskBuilder)
        ensures
            b@ == (TaskBuilderView { assignee: Option::Some(assignee@), ..self@ }),
    {
        TaskBuilder { assignee: Option::Some(assignee.to_owned()), ..self }
    }

    /// Succeeds exactly when name and description have been given;
    /// otherwise hands the builder back unchanged.
    pub fn build(self) -> (r: Result<Task, TaskBuilder>)
        ensures
            match r {
                Result::Ok(t) => self@.name is Some && self@.description is Some && t@ == (TaskView {
                    id: self@.id,
                    name: self@.name->0,
                    description: self@.description->0,
                    assignee: self@.assignee,
                    tags: self@.tags,
                }),
                Result::Err(b) => (self@.name is None || self@.description is None) && b@ == self@,
            },
    {
        match self {
            TaskBuilder { id, tags, name: Option::Some(name), assignee, description: Option::Some(description) } => {
                let t = Task { id, tags, name, assignee, description };
                proof {
                    assert(t@ =~= (TaskView {
                        id: self@.id,
                        name: self@.name->0,
                        description: self@.description->0,
                        assignee: self@.assignee,
                        tags: self@.tags,
                    }));
                }
                Result::Ok(t)
            },
            b => Result::Err(b),
        }
    }
}

} // verus!
