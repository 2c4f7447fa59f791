//! The compiled document mapping: a tree of named properties.
use vstd::prelude::*;

use crate::descriptor::{FieldMapping, FieldMappingView, IndexOptions, ParamsView, params_view, opt_str_view};

verus! {

/// The parameters of a property: those of the field's annotation with the type it
/// infers, or the members of a target override.
#[derive(Debug)]
pub enum Parameters {
    Typed { field_mapping: FieldMapping, inferred_type: Option<String> },
    Raw(Vec<(String, String)>),
}

pub enum ParametersView {
    Typed { mapping: FieldMappingView, inferred_type: Option<Seq<char>> },
    Raw(ParamsView),
}

impl View for Parameters {
    type V = ParametersView;

    open spec fn view(&self) -> ParametersView {
        match self {
            Parameters::Typed { field_mapping, inferred_type } => ParametersView::Typed {
                mapping: field_mapping@,
                inferred_type: opt_str_view(*inferred_type),
            },
            Parameters::Raw(ps) => ParametersView::Raw(params_view(ps@)),
        }
    }
}

/// A mapping property: a leaf, or an object with a nested mapping.
#[derive(Debug)]
pub enum Property {
    Leaf(Parameters),
    Object { parameters: Parameters, properties: Mapping },
}

/// A document mapping. `descriptor` holds the file and message indices of the message it
/// was compiled from; property names are unique.
#[derive(Debug)]
pub struct Mapping {
    pub descriptor: Option<(usize, usize)>,
    pub index: Option<IndexOptions>,
    pub properties: Vec<(String, Property)>,
}

/// `a` comes before `b` in the order of `String`: by the first differing character, a
/// proper prefix first.
pub open spec fn str_lt(a: Seq<char>, b: Seq<char>) -> bool
    decreases a.len(),
{
    if b.len() == 0 {
        false
    } else if a.len() == 0 {
        true
    } else if a[0] != b[0] {
        a[0] < b[0]
    } else {
        str_lt(a.drop_first(), b.drop_first())
    }
}

pub proof fn lemma_str_lt_irreflexive(a: Seq<char>)
    ensures
        !str_lt(a, a),
    decreases a.len(),
{
    if a.len() > 0 {
        lemma_str_lt_irreflexive(a.drop_first());
    }
}

pub proof fn lemma_str_lt_total(a: Seq<char>, b: Seq<char>)
    ensures
        a == b || str_lt(a, b) || str_lt(b, a),
    decreases a.len(),
{
    if a.len() > 0 && b.len() > 0 && a[0] == b[0] {
        lemma_str_lt_total(a.drop_first(), b.drop_first());
        if a.drop_first() == b.drop_first() {
            assert(a =~= seq![a[0]] + a.drop_first());
            assert(b =~= seq![b[0]] + b.drop_first());
        }
    } else if a.len() == 0 && b.len() == 0 {
        assert(a =~= b);
    }
}

pub proof fn lemma_str_lt_asymmetric(a: Seq<char>, b: Seq<char>)
    ensures
        !(str_lt(a, b) && str_lt(b, a)),
    decreases a.len(),
{
    if a.len() > 0 && b.len() > 0 && a[0] == b[0] {
        lemma_str_lt_asymmetric(a.drop_first(), b.drop_first());
    }
}

pub proof fn lemma_str_lt_transitive(a: Seq<char>, b: Seq<char>, c: Seq<char>)
    requires
        str_lt(a, b),
        str_lt(b, c),
    ensures
        str_lt(a, c),
    decreases a.len(),
{
    if a.len() > 0 && b.len() > 0 && c.len() > 0 && a[0] == b[0] && b[0] == c[0] {
        lemma_str_lt_transitive(a.drop_first(), b.drop_first(), c.drop_first());
    }
}

/// Where `x` goes in the ordered names `s`: after every name before it.
pub open spec fn sorted_pos(s: Seq<Seq<char>>, x: Seq<char>) -> int {
    choose|i: int| #[trigger] splits_at(s, x, i)
}

/// The names of `s` before `i` come before `x`, and the others do not.
pub open spec fn splits_at(s: Seq<Seq<char>>, x: Seq<char>, i: int) -> bool {
    &&& 0 <= i <= s.len()
    &&& forall|k: int| 0 <= k < i ==> str_lt(#[trigger] s[k], x)
    &&& forall|k: int| i <= k < s.len() ==> !str_lt(#[trigger] s[k], x)
}

/// Whether `a` comes before `b` in the order of `String`.
pub fn str_less(a: &String, b: &String) -> (r: bool)
    ensures
        r == str_lt(a@, b@),
{
    let n = a.unicode_len();
    let m = b.unicode_len();
    let mut i: usize = 0;
    proof {
        assert(a@.skip(0) =~= a@);
        assert(b@.skip(0) =~= b@);
    }
    while i < n && i < m
        invariant
            n == a@.len(),
            m == b@.len(),
            i <= n && i <= m,
            a@.take(i as int) == b@.take(i as int),
            str_lt(a@, b@) == str_lt(a@.skip(i as int), b@.skip(i as int)),
        decreases n - i,
    {
        let x = a.get_char(i);
        let y = b.get_char(i);
        proof {
            assert(a@.skip(i as int)[0] == x && b@.skip(i as int)[0] == y);
        }
        if x != y {
            return x < y;
        }
        proof {
            assert(a@.skip(i as int).drop_first() =~= a@.skip(i + 1));
            assert(b@.skip(i as int).drop_first() =~= b@.skip(i + 1));
            assert(a@.take(i + 1) =~= a@.take(i as int).push(x));
            assert(b@.take(i + 1) =~= b@.take(i as int).push(y));
        }
        i = i + 1;
    }
    i < m
}

impl Property {
    pub open spec fn params(&self) -> ParametersView {
        match self {
            Property::Leaf(p) => p@,
            Property::Object { parameters, .. } => parameters@,
        }
    }

    /// The annotation parameters of a property that has them.
    pub fn field_mapping(&self) -> (r: Option<&FieldMapping>)
        ensures
            match r {
                Some(m) => self.params() matches ParametersView::Typed { mapping, .. } && mapping == m@,
                None => self.params() is Raw,
            },
    {
        match self {
            Property::Leaf(Parameters::Typed { field_mapping, .. }) => Some(field_mapping),
            Property::Object { parameters: Parameters::Typed { field_mapping, .. }, .. } => Some(
                field_mapping,
            ),
            _ => None,
        }
    }
}

impl Mapping {
    pub open spec fn names(&self) -> Seq<Seq<char>> {
        self.properties@.map_values(|e: (String, Property)| e.0@)
    }

    /// Properties are ordered by name, each name once.
    pub open spec fn wf(&self) -> bool {
        forall|a: int, b: int|
            0 <= a < b < self.properties@.len() ==> str_lt(#[trigger] self.properties@[a].0@, #[trigger] self.properties@[b].0@)
    }

    /// The index of the property named `name`.
    pub open spec fn name_index(&self, name: Seq<char>) -> Option<int> {
        if self.has_name(name) {
            Some(choose|k: int| 0 <= k < self.properties@.len() && #[trigger] self.properties@[k].0@ == name)
        } else {
            None
        }
    }

    pub open spec fn has_name(&self, name: Seq<char>) -> bool {
        exists|k: int| 0 <= k < self.properties@.len() && #[trigger] self.properties@[k].0@ == name
    }

    /// An empty mapping of message `message` of file `file`.
    pub fn with_descriptor(file: usize, message: usize) -> (r: Self)
        ensures
            r.descriptor == Some((file, message)),
            r.index is None,
            r.properties@.len() == 0,
    {
        Mapping { descriptor: Some((file, message)), index: None, properties: Vec::new() }
    }

    /// Whether the mapping has a property or index options.
    pub fn is_non_empty(&self) -> (r: bool)
        ensures
            r == (self.properties@.len() > 0 || self.index is Some),
    {
        self.properties.len() > 0 || self.index.is_some()
    }

    /// Sets property `name` to `property`: in place of the property of that name, or at
    /// its place in the order of names.
    pub fn insert(&mut self, name: String, property: Property)
        requires
            old(self).wf(),
        ensures
            final(self).wf(),
            final(self).descriptor == old(self).descriptor,
            final(self).index == old(self).index,
            final(self).has_name(name@),
            forall|n: Seq<char>| #[trigger] final(self).has_name(n) <==> (old(self).has_name(n) || n == name@),
            old(self).name_index(name@) is None ==> splits_at(old(self).names(), name@, sorted_pos(old(self).names(), name@)),
            match old(self).name_index(name@) {
                Some(i) => final(self).properties@ == old(self).properties@.update(i, (name, property)),
                None => final(self).properties@ == old(self).properties@.insert(
                    sorted_pos(old(self).names(), name@),
                    (name, property),
                ),
            },
    {
        let ghost before = self.properties@;
        let ghost entry = (name, property);
        let mut i: usize = 0;
        let mut done = false;
        while i < self.properties.len() && !done
            invariant
                *self == *old(self),
                self.wf(),
                before == self.properties@,
                i <= self.properties@.len(),
                forall|k: int| 0 <= k < i ==> str_lt(#[trigger] before[k].0@, name@),
                done ==> i < before.len() && !str_lt(before[i as int].0@, name@),
            decreases self.properties.len() - i + if done { 0int } else { 1int },
        {
            if str_less(&self.properties[i].0, &name) {
                i = i + 1;
            } else {
                done = true;
            }
        }
        proof {
            // every name from `i` on comes after `name`, or is it
            assert forall|k: int| i <= k < before.len() implies !str_lt(#[trigger] before[k].0@, name@) by {
                if k > i {
                    if str_lt(before[k].0@, name@) {
                        lemma_str_lt_transitive(before[i as int].0@, before[k].0@, name@);
                    }
                }
            }
            let names = self.names();
            assert forall|k: int| 0 <= k < i implies str_lt(#[trigger] names[k], name@) by {
                assert(names[k] == before[k].0@);
            }
            assert forall|k: int| i <= k < names.len() implies !str_lt(#[trigger] names[k], name@) by {
                assert(names[k] == before[k].0@);
            }
            assert(splits_at(names, name@, i as int));
            let p = sorted_pos(names, name@);
            if p < i {
                assert(str_lt(names[p], name@));
            }
            if i < p {
                assert(str_lt(names[i as int], name@));
            }
            assert(p == i);
        }
        if i < self.properties.len() && self.properties[i].0 == name {
            proof {
                assert forall|k: int| 0 <= k < before.len() && #[trigger] before[k].0@ == name@ implies k == i by {
                    if k < i {
                        lemma_str_lt_irreflexive(name@);
                    }
                    if k > i {
                        lemma_str_lt_irreflexive(name@);
                    }
                }
                assert(self.has_name(name@));
            }
            let _old = self.properties.remove(i);
            self.properties.insert(i, (name, property));
            proof {
                assert(self.properties@ =~= before.update(i as int, entry));
                assert forall|n: Seq<char>| #[trigger] self.has_name(n) <==> (old(self).has_name(n) || n == name@) by {
                    if old(self).has_name(n) {
                        let k = choose|k: int| 0 <= k < before.len() && #[trigger] before[k].0@ == n;
                        assert(self.properties@[k].0@ == n);
                    }
                    if self.has_name(n) {
                        let k = choose|k: int| 0 <= k < self.properties@.len() && #[trigger] self.properties@[k].0@ == n;
                        assert(before[k].0@ == n);
                    }
                }
            }
        } else {
            proof {
                assert(!old(self).has_name(name@)) by {
                    if old(self).has_name(name@) {
                        let k = choose|k: int| 0 <= k < before.len() && #[trigger] before[k].0@ == name@;
                        lemma_str_lt_irreflexive(name@);
                        if k > i {
                            lemma_str_lt_total(before[i as int].0@, name@);
                            lemma_str_lt_asymmetric(before[i as int].0@, before[k].0@);
                        }
                    }
                }
                if i < before.len() {
                    lemma_str_lt_total(before[i as int].0@, name@);
                }
            }
            self.properties.insert(i, (name, property));
            proof {
                assert(self.properties@ =~= before.insert(i as int, entry));
                assert forall|a: int, b: int|
                    0 <= a < b < self.properties@.len() implies str_lt(#[trigger] self.properties@[a].0@, #[trigger] self.properties@[b].0@) by {
                    if b == i as int {
                        assert(self.properties@[a] == before[a]);
                    } else if a == i as int {
                        assert(self.properties@[b] == before[b - 1]);
                        if b - 1 > i {
                            lemma_str_lt_transitive(name@, before[i as int].0@, before[b - 1].0@);
                        }
                    } else if a < i && b < i {
                    } else if a < i {
                        assert(self.properties@[b] == before[b - 1]);
                        assert(before[b - 1].0@ != name@) by {
                            assert(!(0 <= b - 1 < before.len() && before[b - 1].0@ == name@) || old(self).has_name(name@));
                        }
                        lemma_str_lt_total(name@, before[b - 1].0@);
                        lemma_str_lt_transitive(before[a].0@, name@, before[b - 1].0@);
                    } else {
                        assert(self.properties@[a] == before[a - 1]);
                        assert(self.properties@[b] == before[b - 1]);
                    }
                }
                assert(self.properties@[i as int].0@ == name@);
                assert forall|n: Seq<char>| #[trigger] self.has_name(n) <==> (old(self).has_name(n) || n == name@) by {
                    if old(self).has_name(n) {
                        let k = choose|k: int| 0 <= k < before.len() && #[trigger] before[k].0@ == n;
                        if k < i {
                            assert(self.properties@[k].0@ == n);
                        } else {
                            assert(self.properties@[k + 1].0@ == n);
                        }
                    }
                    if self.has_name(n) && n != name@ {
                        let k = choose|k: int| 0 <= k < self.properties@.len() && #[trigger] self.properties@[k].0@ == n;
                        if k < i {
                            assert(before[k].0@ == n);
                        } else {
                            assert(k != i);
                            assert(before[k - 1].0@ == n);
                        }
                    }
                }
            }
        }
    }
}

} // verus!
