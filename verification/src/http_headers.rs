//! Header fields: an ordered mapping from header name to header value.

use crate::lines::{write_line, CR, LF};
use crate::text::{
    eq_ignore_ascii_case, lemma_position, lemma_position_bounds, position, str_eq,
    str_eq_ignore_ascii_case,
};
use vstd::prelude::*;
use vstd::string::StringExecFns;
use vstd::utf8::encode_utf8;

verus! {

/// One header field.
#[derive(Debug)]
struct Header {
    name: String,
    value: String,
}

/// The header fields of a message. No name occurs twice; the fields keep the
/// order in which their names were first inserted.
#[derive(Debug)]
pub struct Headers {
    entries: Vec<Header>,
}

/// The names of a list of fields, in order.
pub open spec fn names(fields: Seq<(Seq<char>, Seq<char>)>) -> Seq<Seq<char>> {
    fields.map_values(|f: (Seq<char>, Seq<char>)| f.0)
}

/// Tells whether no name occurs twice among `fields`.
pub open spec fn distinct_names(fields: Seq<(Seq<char>, Seq<char>)>) -> bool {
    forall|i: int, j: int| 0 <= i < j < fields.len() ==> (#[trigger] fields[i]).0 != (
    #[trigger] fields[j]).0
}

/// The value of the field named exactly `name`, if there is one.
pub open spec fn lookup(fields: Seq<(Seq<char>, Seq<char>)>, name: Seq<char>) -> Option<
    Seq<char>,
> {
    let i = position(names(fields), name);
    if i < fields.len() {
        Some(fields[i as int].1)
    } else {
        None
    }
}

/// `fields` after `name` has been given `value`: the field of that name takes
/// the new value where it stands, and a new name is added at the end.
pub open spec fn inserted(
    fields: Seq<(Seq<char>, Seq<char>)>,
    name: Seq<char>,
    value: Seq<char>,
) -> Seq<(Seq<char>, Seq<char>)> {
    let i = position(names(fields), name);
    if i < fields.len() {
        fields.update(i as int, (name, value))
    } else {
        fields.push((name, value))
    }
}

/// The value of the last field whose name is `name` up to the case of ASCII
/// letters, if there is one.
pub open spec fn lookup_ignore_case(
    fields: Seq<(Seq<char>, Seq<char>)>,
    name: Seq<char>,
) -> Option<Seq<char>>
    decreases fields.len(),
{
    if fields.len() == 0 {
        None
    } else if eq_ignore_ascii_case(fields.last().0, name) {
        Some(fields.last().1)
    } else {
        lookup_ignore_case(fields.drop_last(), name)
    }
}

/// The text of the line of a header field: name, colon, space and value.
pub open spec fn field_text(field: (Seq<char>, Seq<char>)) -> Seq<char> {
    field.0 + ": "@ + field.1
}

/// The bytes of the lines of header fields, in order: the text of each as
/// UTF-8, ended by CRLF.
pub open spec fn field_lines(fields: Seq<(Seq<char>, Seq<char>)>) -> Seq<u8>
    decreases fields.len(),
{
    if fields.len() == 0 {
        Seq::empty()
    } else {
        field_lines(fields.drop_last()) + encode_utf8(field_text(fields.last())) + seq![CR, LF]
    }
}

/// The bytes of a header block: the lines of the fields, then the empty
/// line.
pub open spec fn field_block(fields: Seq<(Seq<char>, Seq<char>)>) -> Seq<u8> {
    field_lines(fields) + seq![CR, LF]
}

/// Inserting keeps the names distinct.
pub proof fn lemma_inserted_distinct(
    fields: Seq<(Seq<char>, Seq<char>)>,
    name: Seq<char>,
    value: Seq<char>,
)
    requires
        distinct_names(fields),
    ensures
        distinct_names(inserted(fields, name, value)),
{
    let ns = names(fields);
    let k = position(ns, name) as int;
    lemma_position_bounds(ns, name);
    let after = inserted(fields, name, value);
    assert forall|i: int, j: int| 0 <= i < j < after.len() implies (#[trigger] after[i]).0 != (
    #[trigger] after[j]).0 by {
        if k >= fields.len() && j >= fields.len() {
            assert(ns[i] == fields[i].0);
        }
    }
}

/// A field that was inserted is found under its name, with its value.
pub proof fn lemma_lookup_inserted(
    fields: Seq<(Seq<char>, Seq<char>)>,
    name: Seq<char>,
    value: Seq<char>,
)
    ensures
        lookup(inserted(fields, name, value), name) == Some(value),
{
    let ns = names(fields);
    let k = position(ns, name) as int;
    lemma_position_bounds(ns, name);
    let after = inserted(fields, name, value);
    let ns2 = names(after);
    assert forall|j: int| 0 <= j < k implies ns2[j] != name by {
        assert(ns[j] != name);
    }
    lemma_position(ns2, name, k);
}

/// Inserting under one name leaves what is found under another name as it
/// was.
pub proof fn lemma_lookup_inserted_other(
    fields: Seq<(Seq<char>, Seq<char>)>,
    name: Seq<char>,
    value: Seq<char>,
    other: Seq<char>,
)
    requires
        name != other,
    ensures
        lookup(inserted(fields, name, value), other) == lookup(fields, other),
{
    let ns = names(fields);
    let after = inserted(fields, name, value);
    let ns2 = names(after);
    let k = position(ns, other) as int;
    lemma_position_bounds(ns, other);
    lemma_position_bounds(ns, name);
    if k < fields.len() {
        assert forall|j: int| 0 <= j < k implies ns2[j] != other by {
            assert(ns[j] != other);
        }
        lemma_position(ns2, other, k);
    } else {
        assert forall|j: int| 0 <= j < ns2.len() implies ns2[j] != other by {
            if j < fields.len() {
                assert(ns[j] != other);
            }
        }
        lemma_position(ns2, other, ns2.len() as int);
    }
}

/// The fields that a list of entries holds.
spec fn fields_of(entries: Seq<Header>) -> Seq<(Seq<char>, Seq<char>)> {
    Seq::new(entries.len(), |i: int| (entries[i].name@, entries[i].value@))
}

impl View for Headers {
    type V = Seq<(Seq<char>, Seq<char>)>;

    closed spec fn view(&self) -> Seq<(Seq<char>, Seq<char>)> {
        fields_of(self.entries@)
    }
}

impl Headers {
    #[verifier::type_invariant]
    spec fn names_are_distinct(&self) -> bool {
        distinct_names(self@)
    }

    /// A mapping without fields.
    pub fn new() -> (r: Headers)
        ensures
            r@ == Seq::<(Seq<char>, Seq<char>)>::empty(),
    {
        let r = Headers { entries: Vec::new() };
        r
    }

    /// The number of fields. No two of them have the same name.
    pub fn len(&self) -> (n: usize)
        ensures
            n == self@.len(),
            distinct_names(self@),
    {
        proof {
            use_type_invariant(self);
        }
        self.entries.len()
    }

    /// The name of the field at index `i`.
    pub fn name_at(&self, i: usize) -> (r: &String)
        requires
            i < self@.len(),
        ensures
            r@ == self@[i as int].0,
    {
        &self.entries[i].name
    }

    /// The value of the field at index `i`.
    pub fn value_at(&self, i: usize) -> (r: &String)
        requires
            i < self@.len(),
        ensures
            r@ == self@[i as int].1,
    {
        &self.entries[i].value
    }

    /// The index of the field named exactly `name`, or the number of fields
    /// where there is none.
    fn index_of(&self, name: &str) -> (i: usize)
        ensures
            i == position(names(self@), name@),
            i <= self@.len(),
    {
        let mut i: usize = 0;
        while i < self.entries.len() && !str_eq(self.entries[i].name.as_str(), name)
            invariant
                i <= self.entries@.len(),
                forall|j: int| 0 <= j < i ==> names(self@)[j] != name@,
            decreases self.entries@.len() - i,
        {
            i += 1;
        }
        proof {
            lemma_position(names(self@), name@, i as int);
        }
        i
    }

    /// Gives `name` the value `value`. A name that is present keeps its place
    /// and takes the new value; a new name is added after the others.
    pub fn insert(&mut self, name: String, value: String)
        ensures
            final(self)@ == inserted(old(self)@, name@, value@),
    {
        proof {
            use_type_invariant(&*self);
            lemma_inserted_distinct(self@, name@, value@);
        }
        let i = self.index_of(name.as_str());
        let mut entries: Vec<Header> = Vec::new();
        std::mem::swap(&mut entries, &mut self.entries);
        if i < entries.len() {
            entries[i] = Header { name, value };
        } else {
            entries.push(Header { name, value });
        }
        assert(fields_of(entries@) =~= inserted(old(self)@, name@, value@));
        self.entries = entries;
    }

    /// The value of the field named exactly `name`.
    pub fn get(&self, name: &str) -> (r: Option<&String>)
        ensures
            match r {
                Some(v) => lookup(self@, name@) == Some(v@),
                None => lookup(self@, name@) is None,
            },
    {
        let i = self.index_of(name);
        if i < self.entries.len() {
            Some(&self.entries[i].value)
        } else {
            None
        }
    }

    /// The value of the last field whose name is `name` up to the case of
    /// ASCII letters.
    pub fn get_ignore_case(&self, name: &str) -> (r: Option<&String>)
        ensures
            match r {
                Some(v) => lookup_ignore_case(self@, name@) == Some(v@),
                None => lookup_ignore_case(self@, name@) is None,
            },
    {
        let mut i: usize = self.entries.len();
        assert(self@.subrange(0, i as int) =~= self@);
        while i > 0
            invariant
                i <= self.entries@.len(),
                lookup_ignore_case(self@, name@) == lookup_ignore_case(
                    self@.subrange(0, i as int),
                    name@,
                ),
            decreases i,
        {
            let ghost prefix = self@.subrange(0, i as int);
            assert(prefix.drop_last() =~= self@.subrange(0, i - 1));
            if str_eq_ignore_ascii_case(self.entries[i - 1].name.as_str(), name) {
                return Some(&self.entries[i - 1].value);
            }
            i -= 1;
        }
        None
    }
}

/// Appends the line of the header field `name: value` to `out`.
pub fn write_field(out: &mut Vec<u8>, name: &str, value: &str)
    ensures
        final(out)@ == old(out)@ + encode_utf8(field_text((name@, value@))) + seq![CR, LF],
{
    let mut line = String::from_str(name);
    line.append(": ");
    line.append(value);
    write_line(out, line.as_str());
}

} // verus!
