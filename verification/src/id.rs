use vstd::prelude::*;

verus! {

/// An opaque, case-sensitive identifier: the stable key by which
/// projects, columns and tasks are looked up. An identifier has no
/// internal structure beyond equality; its view is its character
/// sequence.
#[derive(Debug)]
pub struct Id {
    text: String,
}

impl View for Id {
    type V = Seq<char>;

    closed spec fn view(&self) -> Seq<char> {
        self.text@
    }
}

impl Id {
    pub fn new(id: &str) -> (r: Id)
        ensures
            r@ == id@,
    {
        Id { text: id.to_owned() }
    }

    /// The identifier's text, borrowed.
    pub fn as_str(&self) -> (r: &str)
        ensures
            r@ == self@,
    {
        self.text.as_str()
    }

    /// The identifier's text, owned; for callers that display it.
    pub fn to_text(&self) -> (r: String)
        ensures
            r@ == self@,
    {
        self.text.clone()
    }
}

impl Clone for Id {
    fn clone(&self) -> (r: Id)
        ensures
            r == *self,
    {
        Id { text: self.text.clone() }
    }
}

impl PartialEq for Id {
    fn eq(&self, other: &Id) -> (r: bool) {
        self.text == other.text
    }
}

impl Eq for Id {}

impl vstd::std_specs::cmp::PartialEqSpecImpl for Id {
    open spec fn obeys_eq_spec() -> bool {
        true
    }

    open spec fn eq_spec(&self, other: &Id) -> bool {
        self@ == other@
    }
}

/// An identifier reserved for tasks. The board model keys every lookup
/// by [`Id`]; this separate token exists for callers that want the task
/// key distinguished in their own signatures.
#[derive(Debug)]
pub struct TaskID {
    text: String,
}

impl View for TaskID {
    type V = Seq<char>;

    closed spec fn view(&self) -> Seq<char> {
        self.text@
    }
}

impl TaskID {
    pub fn new(id: &str) -> (r: TaskID)
        ensures
            r@ == id@,
    {
        TaskID { text: id.to_owned() }
    }

    pub fn as_str(&self) -> (r: &str)
        ensures
            r@ == self@,
    {
        self.text.as_str()
    }
}

impl Clone for TaskID {
    fn clone(&self) -> (r: TaskID)
        ensures
            r == *self,
    {
        TaskID { text: self.text.clone() }
    }
}

} // verus!
