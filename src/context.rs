//! The generation parameter, the request-level error, and the descriptor index.
use vstd::prelude::*;

use crate::descriptor::{opt_str_view, FieldDescriptor, FieldOptions, FileDescriptor};
use crate::options::{field_options_spec, get_field_options, property_name, property_name_spec};
use crate::span::file_wf;

verus! {

/// A request-fatal error.
#[derive(Debug, Clone, PartialEq)]
pub enum Error {
    InvalidRequest(String),
}

/// The generation parameter: comma-separated `key=value` pairs, of which only `target`
/// is known.
#[derive(Debug)]
pub struct Config {
    pub target: Option<String>,
}

/// The pieces of `s` between commas, from left to right.
pub open spec fn segments(s: Seq<char>) -> Seq<Seq<char>>
    decreases s.len(),
{
    if s.len() == 0 {
        seq![Seq::empty()]
    } else {
        let p = segments(s.drop_last());
        if s.last() == ',' {
            p.push(Seq::empty())
        } else {
            p.update(p.len() - 1, p.last().push(s.last()))
        }
    }
}

pub open spec fn target_key() -> Seq<char> {
    "target="@
}

/// The effect of one piece on a parse so far: empty pieces are skipped, `target=v` sets
/// the target to `v`, and anything else fails the parse.
pub open spec fn apply_segment(acc: Option<Option<Seq<char>>>, seg: Seq<char>) -> Option<Option<Seq<char>>> {
    if acc is None {
        None
    } else if seg.len() == 0 {
        acc
    } else if seg.len() >= 7 && seg.take(7) == target_key() {
        Some(Some(seg.skip(7)))
    } else {
        None
    }
}

pub open spec fn config_from(segs: Seq<Seq<char>>) -> Option<Option<Seq<char>>>
    decreases segs.len(),
{
    if segs.len() == 0 {
        Some(None)
    } else {
        apply_segment(config_from(segs.drop_last()), segs.last())
    }
}

/// The target that parameter `s` selects, or `None` when `s` holds an unknown key.
pub open spec fn config_spec(s: Seq<char>) -> Option<Option<Seq<char>>> {
    config_from(segments(s))
}

proof fn lemma_segments_nonempty(s: Seq<char>)
    ensures
        segments(s).len() >= 1,
    decreases s.len(),
{
    if s.len() > 0 {
        lemma_segments_nonempty(s.drop_last());
    }
}

fn is_target_param(seg: &str) -> (r: bool)
    ensures
        r == (seg@.len() >= 7 && seg@.take(7) == target_key()),
{
    let n = seg.unicode_len();
    if n < 7 {
        return false;
    }
    let head = String::from_str(seg.substring_char(0, 7));
    let key = String::from_str("target=");
    head == key
}

/// Applies the piece `s[start..end]` to the target parsed so far.
fn apply_param(s: &str, start: usize, end: usize, target: Option<String>) -> (r: Result<Option<String>, Error>)
    requires
        start <= end <= s@.len(),
    ensures
        match r {
            Ok(t) => apply_segment(Some(opt_str_view(target)), s@.subrange(start as int, end as int))
                == Some(opt_str_view(t)),
            Err(Error::InvalidRequest(_)) => apply_segment(
                Some(opt_str_view(target)),
                s@.subrange(start as int, end as int),
            ) is None,
        },
{
    let seg = s.substring_char(start, end);
    if end == start {
        return Ok(target);
    }
    if is_target_param(seg) {
        let n = seg.unicode_len();
        Ok(Some(String::from_str(seg.substring_char(7, n))))
    } else {
        Err(Error::InvalidRequest(String::from_str("unknown parameter: ").concat(seg)))
    }
}

impl Config {
    /// Parses the generation parameter; an unknown key is an `InvalidRequest`, and the
    /// last `target` wins.
    pub fn try_from(s: &str) -> (r: Result<Config, Error>)
        ensures
            match r {
                Ok(c) => config_spec(s@) == Some(opt_str_view(c.target)),
                Err(Error::InvalidRequest(_)) => config_spec(s@) is None,
            },
    {
        let n = s.unicode_len();
        let mut target: Option<String> = None;
        let mut start: usize = 0;
        let mut i: usize = 0;
        proof {
            assert(s@.take(0) =~= Seq::<char>::empty());
            assert(segments(s@.take(0)).drop_last() =~= Seq::<Seq<char>>::empty());
        }
        while i < n
            invariant
                n == s@.len(),
                start <= i <= n,
                segments(s@.take(i as int)).len() >= 1,
                config_from(segments(s@.take(i as int)).drop_last()) == Some(opt_str_view(target)),
                segments(s@.take(i as int)).last() == s@.subrange(start as int, i as int),
            decreases n - i,
        {
            let c = s.get_char(i);
            let ghost segs = segments(s@.take(i as int));
            proof {
                assert(s@.take(i + 1 as int).drop_last() =~= s@.take(i as int));
                assert(s@.take(i + 1 as int).last() == c);
            }
            if c == ',' {
                proof {
                    assert(segments(s@.take(i + 1 as int)) == segs.push(Seq::empty()));
                    assert(segments(s@.take(i + 1 as int)).drop_last() =~= segs);
                    assert(segs =~= segs.drop_last().push(segs.last()));
                }
                target = match apply_param(s, start, i, target) {
                    Ok(t) => t,
                    Err(e) => {
                        proof {
                            lemma_none_stays(i as int + 1, s@);
                        }
                        return Err(e);
                    },
                };
                start = i + 1;
                proof {
                    assert(s@.subrange(start as int, i + 1 as int) =~= Seq::<char>::empty());
                }
            } else {
                proof {
                    let next = segments(s@.take(i + 1 as int));
                    assert(next == segs.update(segs.len() - 1, segs.last().push(c)));
                    assert(next.drop_last() =~= segs.drop_last());
                    assert(s@.subrange(start as int, i + 1 as int) =~= s@.subrange(start as int, i as int).push(c));
                }
            }
            i = i + 1;
        }
        proof {
            assert(s@.take(i as int) =~= s@);
            let segs = segments(s@);
            assert(segs =~= segs.drop_last().push(segs.last()));
        }
        match apply_param(s, start, n, target) {
            Ok(t) => Ok(Config { target: t }),
            Err(e) => Err(e),
        }
    }
}

/// Once a prefix of the pieces fails to parse, the whole parameter fails.
proof fn lemma_none_stays(k: int, s: Seq<char>)
    requires
        1 <= k <= s.len(),
        config_from(segments(s.take(k)).drop_last()) is None,
    ensures
        config_spec(s) is None,
{
    lemma_prefix_segments(s, k);
    lemma_config_none_extends(segments(s), segments(s.take(k)).len() - 1);
}

/// The pieces of a prefix are the first pieces of the whole, the last of them cut short.
proof fn lemma_prefix_segments(s: Seq<char>, k: int)
    requires
        0 <= k <= s.len(),
    ensures
        segments(s.take(k)).len() <= segments(s).len(),
        segments(s.take(k)).len() >= 1,
        segments(s.take(k)).drop_last() == segments(s).take(segments(s.take(k)).len() - 1),
    decreases s.len() - k,
{
    lemma_segments_nonempty(s.take(k));
    lemma_segments_nonempty(s);
    if k == s.len() {
        assert(s.take(k) =~= s);
        assert(segments(s).drop_last() =~= segments(s).take(segments(s).len() - 1));
    } else {
        lemma_prefix_segments(s, k + 1);
        let a = s.take(k);
        let b = s.take(k + 1);
        assert(b.drop_last() =~= a);
        let sa = segments(a);
        let sb = segments(b);
        if b.last() == ',' {
            assert(sb == sa.push(Seq::empty()));
            assert(sb.drop_last() =~= sa);
            assert(sa.drop_last() =~= sb.drop_last().take(sa.len() - 1));
        } else {
            assert(sb == sa.update(sa.len() - 1, sa.last().push(b.last())));
            assert(sb.drop_last() =~= sa.drop_last());
        }
        assert(segments(s).take(sb.len() - 1).take(sa.len() - 1) =~= segments(s).take(sa.len() - 1));
    }
}

/// A failed parse of the first `k` pieces stays failed.
proof fn lemma_config_none_extends(segs: Seq<Seq<char>>, k: int)
    requires
        0 <= k <= segs.len(),
        config_from(segs.take(k)) is None,
    ensures
        config_from(segs) is None,
    decreases segs.len() - k,
{
    if k < segs.len() {
        assert(segs.take(k + 1).drop_last() =~= segs.take(k));
        lemma_config_none_extends(segs, k + 1);
    } else {
        assert(segs.take(k) =~= segs);
    }
}

/// The full name of the message type that field annotations decode to.
pub open spec fn annotation_message_name() -> Seq<char> {
    "protosearch.Field"@
}

pub open spec fn files_wf(files: Seq<FileDescriptor>) -> bool {
    forall|i: int| #![trigger files[i]] 0 <= i < files.len() ==> file_wf(files[i])
}

/// Whether some file declares the annotation message type.
pub open spec fn has_annotation_message(files: Seq<FileDescriptor>) -> bool {
    exists|i: int, j: int|
        0 <= i < files.len() && 0 <= j < files[i].messages@.len()
            && #[trigger] files[i].messages@[j].full_name@ == annotation_message_name()
}

/// Message `j` of file `i` is named `name`, and no message before it (file by file, in
/// order) is.
pub open spec fn first_message_named(files: Seq<FileDescriptor>, name: Seq<char>, i: int, j: int) -> bool {
    &&& 0 <= i < files.len() && 0 <= j < files[i].messages@.len()
    &&& files[i].messages@[j].full_name@ == name
    &&& forall|a: int, b: int|
        #![trigger files[a].messages@[b]]
        (0 <= a < i && 0 <= b < files[a].messages@.len()) || (a == i && 0 <= b < j) ==> files[a].messages@[b].full_name@ != name
}

/// The file and message indices of the first message named `name`.
pub open spec fn find_message_spec(files: Seq<FileDescriptor>, name: Seq<char>) -> Option<(usize, usize)> {
    if exists|i: int, j: int| first_message_named(files, name, i, j) {
        let (i, j) = choose|i: int, j: int| first_message_named(files, name, i, j);
        Some((i as usize, j as usize))
    } else {
        None
    }
}

/// Every file descriptor of a request, indexed by name, with the requested file names and
/// the active target label.
#[derive(Debug)]
pub struct Context {
    pub files: Vec<FileDescriptor>,
    pub files_to_generate: Vec<String>,
    pub target: Option<String>,
}

impl Context {
    pub open spec fn wf(&self) -> bool {
        files_wf(self.files@)
    }

    /// Indexes a request. Fails with `InvalidRequest` when the parameter holds an unknown
    /// key, when a file's message list does not place each message after its enclosing
    /// one, or when no file declares the annotation message type.
    pub fn new(files: Vec<FileDescriptor>, files_to_generate: Vec<String>, parameter: &str) -> (r: Result<Self, Error>)
        ensures
            r is Ok <==> (config_spec(parameter@) is Some && files_wf(files@) && has_annotation_message(files@)),
            r matches Ok(c) ==> {
                &&& c.files@ == files@
                &&& c.files_to_generate@ == files_to_generate@
                &&& config_spec(parameter@) == Some(opt_str_view(c.target))
                &&& c.wf()
            },
    {
        let config = match Config::try_from(parameter) {
            Ok(c) => c,
            Err(e) => return Err(e),
        };
        let mut i: usize = 0;
        while i < files.len()
            invariant
                i <= files@.len(),
                forall|k: int| #![trigger files@[k]] 0 <= k < i ==> file_wf(files@[k]),
            decreases files.len() - i,
        {
            if !check_file(&files[i]) {
                return Err(Error::InvalidRequest(String::from_str("malformed descriptor set")));
            }
            i = i + 1;
        }
        if !declares_annotation_message(&files) {
            return Err(
                Error::InvalidRequest(String::from_str("annotation message protosearch.Field not found")),
            );
        }
        Ok(Context { files, files_to_generate, target: config.target })
    }

    /// The index of the first file named `name`.
    pub fn file_index(&self, name: &str) -> (r: Option<usize>)
        ensures
            match r {
                Some(i) => i < self.files@.len() && self.files@[i as int].name@ == name@
                    && forall|k: int| 0 <= k < i ==> self.files@[k].name@ != name@,
                None => forall|k: int| 0 <= k < self.files@.len() ==> self.files@[k].name@ != name@,
            },
    {
        let wanted = String::from_str(name);
        let mut i: usize = 0;
        while i < self.files.len()
            invariant
                i <= self.files@.len(),
                wanted@ == name@,
                forall|k: int| 0 <= k < i ==> self.files@[k].name@ != name@,
            decreases self.files.len() - i,
        {
            if self.files[i].name == wanted {
                return Some(i);
            }
            i = i + 1;
        }
        None
    }

    /// The first file named `name`.
    pub fn get_file_descriptor_by_name(&self, name: &str) -> (r: Option<&FileDescriptor>)
        ensures
            match r {
                Some(f) => exists|i: int| 0 <= i < self.files@.len() && self.files@[i] == *f && f.name@ == name@,
                None => forall|k: int| 0 <= k < self.files@.len() ==> self.files@[k].name@ != name@,
            },
    {
        match self.file_index(name) {
            Some(i) => Some(&self.files[i]),
            None => None,
        }
    }

    /// The file and message indices of the first message named `full_name`.
    pub fn find_message(&self, full_name: &String) -> (r: Option<(usize, usize)>)
        ensures
            r == find_message_spec(self.files@, full_name@),
            r matches Some((i, j)) ==> i < self.files@.len() && j < self.files@[i as int].messages@.len()
                && self.files@[i as int].messages@[j as int].full_name@ == full_name@,
    {
        let ghost files = self.files@;
        let ghost name = full_name@;
        let mut i: usize = 0;
        while i < self.files.len()
            invariant
                files == self.files@,
                name == full_name@,
                i <= self.files@.len(),
                forall|a: int, b: int|
                    #![trigger files[a].messages@[b]]
                    0 <= a < i && 0 <= b < files[a].messages@.len() ==> files[a].messages@[b].full_name@ != name,
            decreases self.files.len() - i,
        {
            let ms = &self.files[i].messages;
            let mut j: usize = 0;
            while j < ms.len()
                invariant
                    files == self.files@,
                    name == full_name@,
                    i < self.files@.len(),
                    ms@ == files[i as int].messages@,
                    j <= ms@.len(),
                    forall|a: int, b: int|
                        #![trigger files[a].messages@[b]]
                        0 <= a < i && 0 <= b < files[a].messages@.len() ==> files[a].messages@[b].full_name@ != name,
                    forall|b: int| 0 <= b < j ==> #[trigger] ms@[b].full_name@ != name,
                decreases ms.len() - j,
            {
                if ms[j].full_name == *full_name {
                    proof {
                        assert forall|a: int, b: int|
                            #![trigger files[a].messages@[b]]
                            (0 <= a < i && 0 <= b < files[a].messages@.len()) || (a == i && 0 <= b < j)
                                implies files[a].messages@[b].full_name@ != name by {
                            if a == i {
                                assert(files[a].messages@[b] == ms@[b]);
                            }
                        }
                        assert(first_message_named(files, name, i as int, j as int));
                        let (x, y) = choose|x: int, y: int| first_message_named(files, name, x, y);
                        if x < i || (x == i && y < j) {
                            assert(files[x].messages@[y].full_name@ != name);
                        }
                        if i < x || (x == i && j < y) {
                            assert(files[i as int].messages@[j as int].full_name@ != name);
                        }
                    }
                    return Some((i, j));
                }
                j = j + 1;
            }
            proof {
                assert forall|a: int, b: int|
                    #![trigger files[a].messages@[b]]
                    0 <= a < i + 1 && 0 <= b < files[a].messages@.len() implies files[a].messages@[b].full_name@ != name by {
                    if a == i {
                        assert(files[a].messages@[b] == ms@[b]);
                    }
                }
            }
            i = i + 1;
        }
        proof {
            if exists|x: int, y: int| first_message_named(files, name, x, y) {
                let (x, y) = choose|x: int, y: int| first_message_named(files, name, x, y);
                assert(files[x].messages@[y].full_name@ != name);
            }
        }
        None
    }

    /// The annotation of `field`, its annotation entries spliced in order.
    pub fn get_field_mapping_options(&self, field: &FieldDescriptor) -> (r: Option<FieldOptions>)
        ensures
            match r {
                Some(o) => field_options_spec(*field) == Some(o@),
                None => field_options_spec(*field) is None,
            },
    {
        get_field_options(field)
    }

    /// The output name of an annotated field.
    pub fn get_property_name(&self, field: &FieldDescriptor, options: &FieldOptions) -> (r: String)
        ensures
            r@ == property_name_spec(*field, options@),
    {
        property_name(field, options)
    }

    /// The active target label.
    pub fn target(&self) -> (r: Option<&String>)
        ensures
            match r {
                Some(t) => self.target == Some(*t),
                None => self.target is None,
            },
    {
        match &self.target {
            Some(t) => Some(t),
            None => None,
        }
    }
}

fn check_file(file: &FileDescriptor) -> (r: bool)
    ensures
        r == file_wf(*file),
{
    let ms = &file.messages;
    if ms.len() > 2147483647 {
        return false;
    }
    let mut j: usize = 0;
    while j < ms.len()
        invariant
            ms@ == file.messages@,
            ms@.len() <= i32::MAX,
            j <= ms@.len(),
            forall|k: int| #![trigger ms@[k]] 0 <= k < j ==> {
                &&& ms@[k].fields@.len() <= i32::MAX
                &&& match ms@[k].parent {
                    Some(p) => p < k,
                    None => true,
                }
            },
        decreases ms.len() - j,
    {
        if ms[j].fields.len() > 2147483647 {
            return false;
        }
        match ms[j].parent {
            Some(p) => {
                if p >= j {
                    return false;
                }
            },
            None => {},
        }
        j = j + 1;
    }
    true
}

fn declares_annotation_message(files: &Vec<FileDescriptor>) -> (r: bool)
    ensures
        r == has_annotation_message(files@),
{
    let wanted = String::from_str("protosearch.Field");
    let mut i: usize = 0;
    while i < files.len()
        invariant
            i <= files@.len(),
            wanted@ == annotation_message_name(),
            forall|a: int, b: int|
                0 <= a < i && 0 <= b < files@[a].messages@.len()
                    ==> #[trigger] files@[a].messages@[b].full_name@ != annotation_message_name(),
        decreases files.len() - i,
    {
        let ms = &files[i].messages;
        let mut j: usize = 0;
        while j < ms.len()
            invariant
                i < files@.len(),
                ms@ == files@[i as int].messages@,
                wanted@ == annotation_message_name(),
                j <= ms@.len(),
                forall|b: int| 0 <= b < j ==> #[trigger] ms@[b].full_name@ != annotation_message_name(),
            decreases ms.len() - j,
        {
            if ms[j].full_name == wanted {
                return true;
            }
            j = j + 1;
        }
        i = i + 1;
    }
    false
}

} // verus!
