//! Source spans of fields, rebuilt from the path-addressing scheme of a file's source table.
//!
//! A path starts at the file: `4, i` addresses the `i`-th top-level message, `3, i` the
//! `i`-th nested message of a message, and `2, i` the `i`-th field of a message.
use vstd::prelude::*;

use crate::descriptor::{FileDescriptor, MessageDescriptor, SourceLocation};

verus! {

/// A span of text between two points in a source file.
#[derive(Debug, Clone, Copy, PartialEq, Eq, Structural)]
pub struct Span {
    pub start: Point,
    pub end: Point,
}

/// A point in a source file; `line` and `column` both start from 1.
#[derive(Debug, Clone, Copy, PartialEq, Eq, Structural)]
pub struct Point {
    pub line: u32,
    pub column: u32,
}

pub const MESSAGE_TYPE_NUMBER: i32 = 4;

pub const NESTED_TYPE_NUMBER: i32 = 3;

pub const FIELD_NUMBER: i32 = 2;

/// Messages are listed so that each follows its enclosing message, and every index
/// fits a path element.
pub open spec fn file_wf(file: FileDescriptor) -> bool {
    &&& file.messages@.len() <= i32::MAX
    &&& forall|i: int|
        #![trigger file.messages@[i]]
        0 <= i < file.messages@.len() ==> {
            &&& file.messages@[i].fields@.len() <= i32::MAX
            &&& match file.messages@[i].parent {
                Some(p) => p < i,
                None => true,
            }
        }
}

/// How many messages before `upto` share the enclosing message `parent`.
pub open spec fn count_siblings(ms: Seq<MessageDescriptor>, parent: Option<usize>, upto: int) -> int
    decreases upto,
{
    if upto <= 0 {
        0
    } else {
        count_siblings(ms, parent, upto - 1) + if ms[upto - 1].parent == parent { 1int } else { 0 }
    }
}

/// The source-table path of message `idx` of `file`.
pub open spec fn message_path_of(file: FileDescriptor, idx: int) -> Seq<i32>
    decreases idx,
{
    let ms = file.messages@;
    let sib = count_siblings(ms, ms[idx].parent, idx) as i32;
    match ms[idx].parent {
        None => seq![MESSAGE_TYPE_NUMBER, sib],
        Some(p) => if 0 <= p < idx {
            message_path_of(file, p as int) + seq![NESTED_TYPE_NUMBER, sib]
        } else {
            seq![]
        },
    }
}

/// The source-table path of field `f` of message `m`.
pub open spec fn field_path_of(file: FileDescriptor, m: int, f: int) -> Seq<i32> {
    message_path_of(file, m) + seq![FIELD_NUMBER, f as i32]
}

/// A recorded span: three elements (one line) or four, all 0-based.
pub open spec fn span_from_proto_spec(s: Seq<i32>) -> Option<Span> {
    if s.len() == 3 && s[0] >= 0 && s[1] >= 0 && s[2] >= 0 {
        Some(
            Span {
                start: Point { line: (s[0] + 1) as u32, column: (s[1] + 1) as u32 },
                end: Point { line: (s[0] + 1) as u32, column: (s[2] + 1) as u32 },
            },
        )
    } else if s.len() == 4 && s[0] >= 0 && s[1] >= 0 && s[2] >= 0 && s[3] >= 0 {
        Some(
            Span {
                start: Point { line: (s[0] + 1) as u32, column: (s[1] + 1) as u32 },
                end: Point { line: (s[2] + 1) as u32, column: (s[3] + 1) as u32 },
            },
        )
    } else {
        None
    }
}

/// The span of the first entry of `locs` whose path is `path`.
pub open spec fn lookup_span(locs: Seq<SourceLocation>, path: Seq<i32>) -> Option<Span>
    decreases locs.len(),
{
    if locs.len() == 0 {
        None
    } else if locs[0].path@ == path {
        span_from_proto_spec(locs[0].span@)
    } else {
        lookup_span(locs.drop_first(), path)
    }
}

pub open spec fn field_span_spec(file: FileDescriptor, m: int, f: int) -> Option<Span> {
    lookup_span(file.locations@, field_path_of(file, m, f))
}

impl Span {
    pub fn new(start: Point, end: Point) -> (r: Self)
        ensures
            r.start == start,
            r.end == end,
    {
        Span { start, end }
    }

    /// The span of field `field` of message `message` of `file`, if the file's source
    /// table records one.
    pub fn from_field(file: &FileDescriptor, message: usize, field: usize) -> (r: Option<Self>)
        requires
            file_wf(*file),
            message < file.messages@.len(),
            field < file.messages@[message as int].fields@.len(),
        ensures
            r == field_span_spec(*file, message as int, field as int),
    {
        let mut path = message_path(file, message);
        path.push(FIELD_NUMBER);
        path.push(field as i32);
        let locs = &file.locations;
        let mut i: usize = 0;
        proof {
            assert(locs@.skip(0) =~= locs@);
        }
        while i < locs.len()
            invariant
                i <= locs@.len(),
                locs@ == file.locations@,
                path@ == field_path_of(*file, message as int, field as int),
                lookup_span(locs@, path@) == lookup_span(locs@.skip(i as int), path@),
            decreases locs.len() - i,
        {
            proof {
                assert(locs@.skip(i as int).drop_first() =~= locs@.skip(i + 1));
                assert(locs@.skip(i as int)[0] == locs@[i as int]);
            }
            if same_path(&locs[i].path, &path) {
                proof {
                    let rest = locs@.skip(i as int);
                    assert(rest.len() > 0 && rest[0].path@ == path@);
                    assert(lookup_span(rest, path@) == span_from_proto_spec(rest[0].span@));
                }
                return Self::from_proto(&locs[i].span);
            }
            i = i + 1;
        }
        None
    }

    /// Converts a recorded 0-based span of three or four elements.
    pub fn from_proto(span: &Vec<i32>) -> (r: Option<Self>)
        ensures
            r == span_from_proto_spec(span@),
    {
        if span.len() == 3 && span[0] >= 0 && span[1] >= 0 && span[2] >= 0 {
            let line = span[0] as u32 + 1;
            Some(Span::new(Point::new(line, span[1] as u32 + 1), Point::new(line, span[2] as u32 + 1)))
        } else if span.len() == 4 && span[0] >= 0 && span[1] >= 0 && span[2] >= 0 && span[3] >= 0 {
            Some(
                Span::new(
                    Point::new(span[0] as u32 + 1, span[1] as u32 + 1),
                    Point::new(span[2] as u32 + 1, span[3] as u32 + 1),
                ),
            )
        } else {
            None
        }
    }
}

impl Point {
    pub fn new(line: u32, column: u32) -> (r: Self)
        ensures
            r.line == line,
            r.column == column,
    {
        Point { line, column }
    }
}

fn same_path(a: &Vec<i32>, b: &Vec<i32>) -> (r: bool)
    ensures
        r == (a@ == b@),
{
    if a.len() != b.len() {
        return false;
    }
    let mut i: usize = 0;
    while i < a.len()
        invariant
            a@.len() == b@.len(),
            i <= a@.len(),
            forall|j: int| 0 <= j < i ==> a@[j] == b@[j],
        decreases a.len() - i,
    {
        if a[i] != b[i] {
            return false;
        }
        i = i + 1;
    }
    proof {
        assert(a@ =~= b@);
    }
    true
}

fn sibling_index(file: &FileDescriptor, idx: usize) -> (r: i32)
    requires
        file_wf(*file),
        idx < file.messages@.len(),
    ensures
        r == count_siblings(file.messages@, file.messages@[idx as int].parent, idx as int) as i32,
{
    let parent = file.messages[idx].parent;
    let mut count: usize = 0;
    let mut j: usize = 0;
    while j < idx
        invariant
            j <= idx < file.messages@.len(),
            file.messages@.len() <= i32::MAX,
            parent == file.messages@[idx as int].parent,
            count == count_siblings(file.messages@, parent, j as int),
            count <= j,
        decreases idx - j,
    {
        let same = match (file.messages[j].parent, parent) {
            (Some(a), Some(b)) => a == b,
            (None, None) => true,
            _ => false,
        };
        if same {
            count = count + 1;
        }
        j = j + 1;
    }
    count as i32
}

/// The source-table path of message `idx`, following its enclosing messages up to the file.
pub fn message_path(file: &FileDescriptor, idx: usize) -> (r: Vec<i32>)
    requires
        file_wf(*file),
        idx < file.messages@.len(),
    ensures
        r@ == message_path_of(*file, idx as int),
    decreases idx,
{
    let sib = sibling_index(file, idx);
    match file.messages[idx].parent {
        None => {
            let mut path: Vec<i32> = Vec::new();
            path.push(MESSAGE_TYPE_NUMBER);
            path.push(sib);
            proof {
                assert(path@ =~= message_path_of(*file, idx as int));
            }
            path
        },
        Some(p) => {
            assert(p < idx) by {
                assert(file.messages@[idx as int].parent == Some(p));
            }
            let mut path = message_path(file, p);
            path.push(NESTED_TYPE_NUMBER);
            path.push(sib);
            proof {
                assert(path@ =~= message_path_of(*file, idx as int));
            }
            path
        },
    }
}

} // verus!
