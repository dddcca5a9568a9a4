use vstd::prelude::*;
use vstd::string::*;
use crate::id::Id;
use crate::strs::find_non_space;
use crate::strs::is_space;
use crate::strs::lemma_scan_space;
use crate::strs::scan_space;
use crate::strs::space_char;

verus! {

// ---------------------------------------------------------------------
// The directive grammar.
//
// A directive is a bracketed group inside free text. Three forms exist:
//
//   [task: column]          [task@project: column]
//   [task is column]        [task@project is column]
//   [task +tag -tag ...]    [task@project +tag ...]
//
// The first two move a task to a column; the third adds and removes
// tags. Identifiers run over any characters except brackets, `@`, `:`
// and whitespace; tags may also hold `@` and `:`. Text that fits no
// form is not a directive and is simply passed over.
// ---------------------------------------------------------------------

/// Characters an identifier may consist of.
pub open spec fn id_char(c: char) -> bool {
    !is_space(c) && c != '[' && c != ']' && c != '@' && c != ':'
}

/// Characters a tag may consist of (after its `+` or `-` sign).
pub open spec fn tag_char(c: char) -> bool {
    !is_space(c) && c != '[' && c != ']'
}

/// First position at or after `i` that does not hold an identifier
/// character (the length if the rest all do).
pub open spec fn scan_id(s: Seq<char>, i: int) -> int
    decreases s.len() - i,
{
    if i < 0 {
        i
    } else if i < s.len() && id_char(s[i]) {
        scan_id(s, i + 1)
    } else {
        i
    }
}

pub proof fn lemma_scan_id(s: Seq<char>, i: int)
    requires
        0 <= i <= s.len(),
    ensures
        i <= scan_id(s, i) <= s.len(),
        forall|k: int| i <= k < scan_id(s, i) ==> id_char(#[trigger] s[k]),
        scan_id(s, i) < s.len() ==> !id_char(s[scan_id(s, i)]),
    decreases s.len() - i,
{
    if i < s.len() && id_char(s[i]) {
        lemma_scan_id(s, i + 1);
    }
}

/// First position at or after `i` that does not hold a tag character.
pub open spec fn scan_tag(s: Seq<char>, i: int) -> int
    decreases s.len() - i,
{
    if i < 0 {
        i
    } else if i < s.len() && tag_char(s[i]) {
        scan_tag(s, i + 1)
    } else {
        i
    }
}

pub proof fn lemma_scan_tag(s: Seq<char>, i: int)
    requires
        0 <= i <= s.len(),
    ensures
        i <= scan_tag(s, i) <= s.len(),
        forall|k: int| i <= k < scan_tag(s, i) ==> tag_char(#[trigger] s[k]),
        scan_tag(s, i) < s.len() ==> !tag_char(s[scan_tag(s, i)]),
    decreases s.len() - i,
{
    if i < s.len() && tag_char(s[i]) {
        lemma_scan_tag(s, i + 1);
    }
}

/// One tag operation: add (`+`) or remove (`-`) one tag.
#[verifier::ext_equal]
pub ghost struct TagOpView {
    pub add: bool,
    pub tag: Seq<char>,
}

/// What a directive asks for.
#[verifier::ext_equal]
pub ghost enum DirectivePayloadView {
    MoveToColumn { column: Seq<char> },
    ChangeTags { ops: Seq<TagOpView> },
}

/// An unresolved directive: the task addressed, the project if one was
/// named, the request, and the raw matched text kept for diagnostics.
#[verifier::ext_equal]
pub ghost struct DirectiveView {
    pub task: Seq<char>,
    pub project: Option<Seq<char>>,
    pub payload: DirectivePayloadView,
    pub raw: Seq<char>,
}

/// Parses the tag operations of a tag-change directive, starting at a
/// sign character, up to and including the closing bracket. Yields the
/// operations in order and the position just past the bracket.
pub open spec fn parse_ops(s: Seq<char>, i: int) -> Option<(Seq<TagOpView>, int)>
    decreases s.len() - i,
    via parse_ops_decreases
{
    if i < 0 || i >= s.len() {
        Option::None
    } else if s[i] == '+' || s[i] == '-' {
        let e = scan_tag(s, i + 1);
        if e == i + 1 {
            Option::None
        } else {
            let op = TagOpView { add: s[i] == '+', tag: s.subrange(i + 1, e) };
            if e < s.len() && s[e] == ']' {
                Option::Some((seq![op], e + 1))
            } else if e < s.len() && is_space(s[e]) {
                let w = scan_space(s, e);
                match parse_ops(s, w) {
                    Option::None => Option::None,
                    Option::Some((rest, j)) => Option::Some((seq![op] + rest, j)),
                }
            } else {
                Option::None
            }
        }
    } else {
        Option::None
    }
}

#[via_fn]
proof fn parse_ops_decreases(s: Seq<char>, i: int) {
    if 0 <= i < s.len() {
        lemma_scan_tag(s, i + 1);
        let e = scan_tag(s, i + 1);
        if i + 1 <= e <= s.len() {
            lemma_scan_space(s.subrange(0, s.len() as int), e);
            lemma_scan_space(s, e);
        }
    }
}

/// A successful tag parse always moves forward and stays in bounds.
pub proof fn lemma_parse_ops_bounds(s: Seq<char>, i: int)
    ensures
        parse_ops(s, i) matches Option::Some((ops, j)) ==> i < j <= s.len() && ops.len() >= 1,
    decreases s.len() - i,
{
    if 0 <= i < s.len() && (s[i] == '+' || s[i] == '-') {
        lemma_scan_tag(s, i + 1);
        let e = scan_tag(s, i + 1);
        if e != i + 1 && e < s.len() && s[e] != ']' && is_space(s[e]) {
            lemma_scan_space(s, e);
            lemma_parse_ops_bounds(s, scan_space(s, e));
        }
    }
}

/// Tries to read one directive whose opening bracket sits at `i`.
/// Yields its view and the position just past its closing bracket.
pub open spec fn try_directive(s: Seq<char>, i: int) -> Option<(DirectiveView, int)> {
    if !(0 <= i < s.len() && s[i] == '[') {
        Option::None
    } else {
        let t1 = scan_id(s, i + 1);
        if t1 == i + 1 {
            Option::None
        } else {
            let task = s.subrange(i + 1, t1);
            let has_proj = t1 < s.len() && s[t1] == '@';
            let p1 = if has_proj {
                scan_id(s, t1 + 1)
            } else {
                t1
            };
            if has_proj && p1 == t1 + 1 {
                Option::None
            } else {
                let proj = if has_proj {
                    Option::Some(s.subrange(t1 + 1, p1))
                } else {
                    Option::None
                };
                if p1 < s.len() && s[p1] == ':' {
                    let c0 = scan_space(s, p1 + 1);
                    let c1 = scan_id(s, c0);
                    if c1 > c0 && c1 < s.len() && s[c1] == ']' {
                        Option::Some(
                            (
                                DirectiveView {
                                    task,
                                    project: proj,
                                    payload: DirectivePayloadView::MoveToColumn {
                                        column: s.subrange(c0, c1),
                                    },
                                    raw: s.subrange(i, c1 + 1),
                                },
                                c1 + 1,
                            ),
                        )
                    } else {
                        Option::None
                    }
                } else if p1 < s.len() && is_space(s[p1]) {
                    let w = scan_space(s, p1);
                    if w + 2 < s.len() && s[w] == 'i' && s[w + 1] == 's' && is_space(s[w + 2]) {
                        let c0 = scan_space(s, w + 2);
                        let c1 = scan_id(s, c0);
                        if c1 > c0 && c1 < s.len() && s[c1] == ']' {
                            Option::Some(
                                (
                                    DirectiveView {
                                        task,
                                        project: proj,
                                        payload: DirectivePayloadView::MoveToColumn {
                                            column: s.subrange(c0, c1),
                                        },
                                        raw: s.subrange(i, c1 + 1),
                                    },
                                    c1 + 1,
                                ),
                            )
                        } else {
                            Option::None
                        }
                    } else {
                        match parse_ops(s, w) {
                            Option::None => Option::None,
                            Option::Some((ops, j)) => Option::Some(
                                (
                                    DirectiveView {
                                        task,
                                        project: proj,
                                        payload: DirectivePayloadView::ChangeTags { ops },
                                        raw: s.subrange(i, j),
                                    },
                                    j,
                                ),
                            ),
                        }
                    }
                } else {
                    Option::None
                }
            }
        }
    }
}

/// A successful directive parse always moves forward and stays in
/// bounds.
pub proof fn lemma_try_directive_bounds(s: Seq<char>, i: int)
    ensures
        try_directive(s, i) matches Option::Some((d, j)) ==> i < j <= s.len(),
{
    if 0 <= i < s.len() && s[i] == '[' {
        lemma_scan_id(s, i + 1);
        let t1 = scan_id(s, i + 1);
        if t1 != i + 1 {
            let has_proj = t1 < s.len() && s[t1] == '@';
            if has_proj {
                lemma_scan_id(s, t1 + 1);
            }
            let p1 = if has_proj {
                scan_id(s, t1 + 1)
            } else {
                t1
            };
            if !(has_proj && p1 == t1 + 1) {
                if p1 < s.len() && s[p1] == ':' {
                    lemma_scan_space(s, p1 + 1);
                    lemma_scan_id(s, scan_space(s, p1 + 1));
                } else if p1 < s.len() && is_space(s[p1]) {
                    lemma_scan_space(s, p1);
                    let w = scan_space(s, p1);
                    if w + 2 < s.len() && s[w] == 'i' && s[w + 1] == 's' && is_space(s[w + 2]) {
                        lemma_scan_space(s, w + 2);
                        lemma_scan_id(s, scan_space(s, w + 2));
                    } else {
                        lemma_parse_ops_bounds(s, w);
                    }
                }
            }
        }
    }
}

/// Every directive of the text, leftmost first: at each opening
/// bracket that heads a well-formed directive the directive is taken
/// and the scan continues past it; everything else is passed over.
pub open spec fn spec_parse_from(s: Seq<char>, i: int) -> Seq<DirectiveView>
    decreases s.len() - i,
    via spec_parse_from_decreases
{
    if i < 0 || i >= s.len() {
        Seq::empty()
    } else {
        match try_directive(s, i) {
            Option::Some((d, j)) => seq![d] + spec_parse_from(s, j),
            Option::None => spec_parse_from(s, i + 1),
        }
    }
}

#[via_fn]
proof fn spec_parse_from_decreases(s: Seq<char>, i: int) {
    lemma_try_directive_bounds(s, i);
}

/// The directives of a whole text, in document order.
pub open spec fn spec_parse(s: Seq<char>) -> Seq<DirectiveView> {
    spec_parse_from(s, 0)
}

// ---------------------------------------------------------------------
// Exec representation and parser.
// ---------------------------------------------------------------------

/// One tag operation: add (`+`) or remove (`-`) one tag.
#[derive(Debug)]
pub struct TagOp {
    pub add: bool,
    pub tag: String,
}

impl View for TagOp {
    type V = TagOpView;

    open spec fn view(&self) -> TagOpView {
        TagOpView { add: self.add, tag: self.tag@ }
    }
}

/// View of a sequence of tag operations.
pub open spec fn ops_view(v: Seq<TagOp>) -> Seq<TagOpView> {
    v.map_values(|o: TagOp| o@)
}

/// What a directive asks for.
#[derive(Debug)]
pub enum DirectivePayload {
    MoveToColumn { column: Id },
    ChangeTags { ops: Vec<TagOp> },
}

impl View for DirectivePayload {
    type V = DirectivePayloadView;

    open spec fn view(&self) -> DirectivePayloadView {
        match self {
            DirectivePayload::MoveToColumn { column } => DirectivePayloadView::MoveToColumn {
                column: column@,
            },
            DirectivePayload::ChangeTags { ops } => DirectivePayloadView::ChangeTags {
                ops: ops_view(ops@),
            },
        }
    }
}

/// An unresolved directive extracted from free text.
#[derive(Debug)]
pub struct Directive {
    pub task: Id,
    pub project: Option<Id>,
    pub payload: DirectivePayload,
    pub raw: String,
}

impl View for Directive {
    type V = DirectiveView;

    open spec fn view(&self) -> DirectiveView {
        DirectiveView {
            task: self.task@,
            project: match self.project {
                Option::Some(p) => Option::Some(p@),
                Option::None => Option::None,
            },
            payload: self.payload@,
            raw: self.raw@,
        }
    }
}

/// View of a sequence of directives.
pub open spec fn directives_view(v: Seq<Directive>) -> Seq<DirectiveView> {
    v.map_values(|d: Directive| d@)
}

/// Exec test for [`id_char`].
fn id_char_exec(c: char) -> (r: bool)
    ensures
        r == id_char(c),
{
    !space_char(c) && c != '[' && c != ']' && c != '@' && c != ':'
}

/// Exec test for [`tag_char`].
fn tag_char_exec(c: char) -> (r: bool)
    ensures
        r == tag_char(c),
{
    !space_char(c) && c != '[' && c != ']'
}

/// Exec counterpart of [`scan_id`].
fn scan_id_exec(s: &str, from: usize) -> (r: usize)
    requires
        from <= s@.len(),
    ensures
        r == scan_id(s@, from as int),
{
    proof {
        lemma_scan_id(s@, from as int);
    }
    let n = s.unicode_len();
    let mut j = from;
    while j < n && id_char_exec(s.get_char(j))
        invariant
            from <= j <= n,
            n == s@.len(),
            scan_id(s@, from as int) == scan_id(s@, j as int),
        decreases n - j,
    {
        proof {
            lemma_scan_id(s@, j as int);
        }
        j = j + 1;
    }
    j
}

/// Exec counterpart of [`scan_tag`].
fn scan_tag_exec(s: &str, from: usize) -> (r: usize)
    requires
        from <= s@.len(),
    ensures
        r == scan_tag(s@, from as int),
{
    proof {
        lemma_scan_tag(s@, from as int);
    }
    let n = s.unicode_len();
    let mut j = from;
    while j < n && tag_char_exec(s.get_char(j))
        invariant
            from <= j <= n,
            n == s@.len(),
            scan_tag(s@, from as int) == scan_tag(s@, j as int),
        decreases n - j,
    {
        proof {
            lemma_scan_tag(s@, j as int);
        }
        j = j + 1;
    }
    j
}

/// Exec counterpart of [`parse_ops`].
fn parse_ops_exec(s: &str, i: usize) -> (r: Option<(Vec<TagOp>, usize)>)
    requires
        i <= s@.len(),
    ensures
        match r {
            Option::Some(p) => parse_ops(s@, i as int) == Option::Some(
                (ops_view(p.0@), p.1 as int),
            ),
            Option::None => parse_ops(s@, i as int) is None,
        },
    decreases s@.len() - i,
{
    let n = s.unicode_len();
    if i >= n {
        return Option::None;
    }
    let c = s.get_char(i);
    if c == '+' || c == '-' {
        let e = scan_tag_exec(s, i + 1);
        proof {
            lemma_scan_tag(s@, i as int + 1);
        }
        if e == i + 1 {
            return Option::None;
        }
        let tag = s.substring_char(i + 1, e).to_owned();
        let op = TagOp { add: c == '+', tag };
        let ghost opv = TagOpView { add: s@[i as int] == '+', tag: s@.subrange(i as int + 1, e as int) };
        proof {
            assert(op@ == opv);
        }
        if e < n {
            let ce = s.get_char(e);
            if ce == ']' {
                let mut ops: Vec<TagOp> = Vec::new();
                ops.push(op);
                proof {
                    assert(ops_view(ops@) =~= seq![opv]);
                }
                return Option::Some((ops, e + 1));
            }
            if space_char(ce) {
                let w = find_non_space(s, e);
                proof {
                    lemma_scan_space(s@, e as int);
                }
                match parse_ops_exec(s, w) {
                    Option::None => {
                        return Option::None;
                    },
                    Option::Some((rest, j)) => {
                        let mut rest = rest;
                        let ghost restseq = rest@;
                        let mut ops: Vec<TagOp> = Vec::new();
                        ops.push(op);
                        ops.append(&mut rest);
                        proof {
                            assert(ops@ =~= seq![op] + restseq);
                            assert(ops_view(ops@) =~= seq![opv] + ops_view(restseq));
                        }
                        return Option::Some((ops, j));
                    },
                }
            }
            return Option::None;
        }
        return Option::None;
    }
    Option::None
}

/// Exec counterpart of [`try_directive`]: reads the directive whose
/// opening bracket sits at `i`, if the text there is one.
fn try_directive_exec(s: &str, i: usize) -> (r: Option<(Directive, usize)>)
    requires
        i < s@.len(),
        s@[i as int] == '[',
    ensures
        match r {
            Option::Some(p) => try_directive(s@, i as int) == Option::Some((p.0@, p.1 as int)),
            Option::None => try_directive(s@, i as int) is None,
        },
{
    let n = s.unicode_len();
    let t1 = scan_id_exec(s, i + 1);
    proof {
        lemma_scan_id(s@, i as int + 1);
    }
    if t1 == i + 1 {
        return Option::None;
    }
    let task = Id::new(s.substring_char(i + 1, t1));
    let mut project: Option<Id> = Option::None;
    let mut p1 = t1;
    if t1 < n && s.get_char(t1) == '@' {
        p1 = scan_id_exec(s, t1 + 1);
        proof {
            lemma_scan_id(s@, t1 as int + 1);
        }
        if p1 == t1 + 1 {
            return Option::None;
        }
        project = Option::Some(Id::new(s.substring_char(t1 + 1, p1)));
    }
    if p1 < n {
        let cp = s.get_char(p1);
        if cp == ':' {
            let c0 = find_non_space(s, p1 + 1);
            proof {
                lemma_scan_space(s@, p1 as int + 1);
            }
            let c1 = scan_id_exec(s, c0);
            proof {
                lemma_scan_id(s@, c0 as int);
            }
            if c1 > c0 && c1 < n && s.get_char(c1) == ']' {
                let column = Id::new(s.substring_char(c0, c1));
                let raw = s.substring_char(i, c1 + 1).to_owned();
                let d = Directive {
                    task,
                    project,
                    payload: DirectivePayload::MoveToColumn { column },
                    raw,
                };
                proof {
                    assert(try_directive(s@, i as int) == Option::Some((d@, c1 as int + 1)));
                }
                return Option::Some((d, c1 + 1));
            }
            return Option::None;
        }
        if space_char(cp) {
            let w = find_non_space(s, p1);
            proof {
                lemma_scan_space(s@, p1 as int);
            }
            if n - w > 2 && s.get_char(w) == 'i' && s.get_char(w + 1) == 's' && space_char(
                s.get_char(w + 2),
            ) {
                let c0 = find_non_space(s, w + 2);
                proof {
                    lemma_scan_space(s@, w as int + 2);
                }
                let c1 = scan_id_exec(s, c0);
                proof {
                    lemma_scan_id(s@, c0 as int);
                }
                if c1 > c0 && c1 < n && s.get_char(c1) == ']' {
                    let column = Id::new(s.substring_char(c0, c1));
                    let raw = s.substring_char(i, c1 + 1).to_owned();
                    let d = Directive {
                        task,
                        project,
                        payload: DirectivePayload::MoveToColumn { column },
                        raw,
                    };
                    proof {
                        assert(try_directive(s@, i as int) == Option::Some((d@, c1 as int + 1)));
                    }
                    return Option::Some((d, c1 + 1));
                }
                return Option::None;
            }
            match parse_ops_exec(s, w) {
                Option::None => {
                    return Option::None;
                },
                Option::Some((ops, j)) => {
                    proof {
                        lemma_parse_ops_bounds(s@, w as int);
                    }
                    let raw = s.substring_char(i, j).to_owned();
                    let d = Directive {
                        task,
                        project,
                        payload: DirectivePayload::ChangeTags { ops },
                        raw,
                    };
                    proof {
                        assert(try_directive(s@, i as int) == Option::Some((d@, j as int)));
                    }
                    return Option::Some((d, j));
                },
            }
        }
    }
    Option::None
}

/// Extracts every directive of `message`, leftmost first, exactly as
/// [`spec_parse`] describes.
pub fn parse_directives(message: &str) -> (r: Vec<Directive>)
    ensures
        directives_view(r@) == spec_parse(message@),
{
    let n = message.unicode_len();
    let mut out: Vec<Directive> = Vec::new();
    let mut i: usize = 0;
    proof {
        assert(directives_view(out@) + spec_parse_from(message@, 0) =~= spec_parse_from(
            message@,
            0,
        ));
    }
    while i < n
        invariant
            0 <= i <= n,
            n == message@.len(),
            spec_parse(message@) == directives_view(out@) + spec_parse_from(message@, i as int),
        decreases n - i,
    {
        let c = message.get_char(i);
        if c == '[' {
            match try_directive_exec(message, i) {
                Option::Some((d, j)) => {
                    proof {
                        lemma_try_directive_bounds(message@, i as int);
                        let ghost dv = d@;
                        assert(spec_parse_from(message@, i as int) == seq![dv] + spec_parse_from(
                            message@,
                            j as int,
                        ));
                        assert(directives_view(out@.push(d)) =~= directives_view(out@).push(dv));
                        assert(directives_view(out@).push(dv) + spec_parse_from(message@, j as int)
                            =~= directives_view(out@) + spec_parse_from(message@, i as int));
                    }
                    out.push(d);
                    i = j;
                },
                Option::None => {
                    i = i + 1;
                },
            }
        } else {
            proof {
                assert(try_directive(message@, i as int) is None);
            }
            i = i + 1;
        }
    }
    proof {
        assert(spec_parse_from(message@, n as int) =~= Seq::<DirectiveView>::empty());
        assert(directives_view(out@) + spec_parse_from(message@, n as int) =~= directives_view(
            out@,
        ));
    }
    out
}

} // verus!
