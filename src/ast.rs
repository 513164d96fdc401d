//! The document model: command trees read by the compiler, the errors it
//! reports, and the markup trees it produces.
use vstd::prelude::*;
use crate::text::same_text;

verus! {

broadcast use vstd::std_specs::vec::axiom_vec_decreases_to_view, vstd::seq::axiom_seq_index_decreases,
    vstd::seq::axiom_seq_subrange_decreases;

/// A position in a source file. It travels with nodes for error reports only.
pub struct Location {
    pub path: String,
    pub line: usize,
    pub column: usize,
}

impl Location {
    pub fn copy(&self) -> (r: Location)
        ensures
            r == *self,
    {
        Location { path: self.path.clone(), line: self.line, column: self.column }
    }
}

/// The kind of an attribute value.
#[derive(PartialEq, Eq, Structural, Clone, Copy, Debug)]
pub enum ValueType {
    Str,
    Int,
    Text,
}

/// An attribute value.
pub enum Value {
    Str(String),
    Int(i64),
    Text(Vec<(TextElem, Location)>),
}

impl Value {
    pub open spec fn kind(&self) -> ValueType {
        match self {
            Value::Str(_) => ValueType::Str,
            Value::Int(_) => ValueType::Int,
            Value::Text(_) => ValueType::Text,
        }
    }

    pub fn value_type(&self) -> (r: ValueType)
        ensures
            r == self.kind(),
    {
        match self {
            Value::Str(_) => ValueType::Str,
            Value::Int(_) => ValueType::Int,
            Value::Text(_) => ValueType::Text,
        }
    }
}

/// One element of inline content.
pub enum TextElem {
    /// Plain text.
    Plain(String),
    /// Verbatim inline code.
    Str(String),
    /// A nested command.
    Cmd(Cmd),
}

/// A named attribute of a command.
pub struct Attr {
    pub name: String,
    pub value: Value,
    pub loc: Location,
}

/// One markup construct: its name, attributes and inner content.
pub struct Cmd {
    pub name: String,
    pub attrs: Vec<Attr>,
    pub inner: Vec<(TextElem, Location)>,
}

/// The errors that analysis and compilation report.
pub enum Error {
    MissingAttribute { name: String, loc: Location },
    InvalidAttributeType { name: String, loc: Location, expected: ValueType, found: ValueType },
    ProcessError { loc: Location, desc: String },
    NoSuchCmd { loc: Location, name: String },
}

/// An error, with its texts as character sequences.
pub enum ErrorV {
    MissingAttribute { name: Seq<char>, loc: Location },
    InvalidAttributeType { name: Seq<char>, loc: Location, expected: ValueType, found: ValueType },
    ProcessError { loc: Location, desc: Seq<char> },
    NoSuchCmd { loc: Location, name: Seq<char> },
}

impl View for Error {
    type V = ErrorV;

    open spec fn view(&self) -> ErrorV {
        match self {
            Error::MissingAttribute { name, loc } => ErrorV::MissingAttribute { name: name@, loc: *loc },
            Error::InvalidAttributeType { name, loc, expected, found } => ErrorV::InvalidAttributeType {
                name: name@,
                loc: *loc,
                expected: *expected,
                found: *found,
            },
            Error::ProcessError { loc, desc } => ErrorV::ProcessError { loc: *loc, desc: desc@ },
            Error::NoSuchCmd { loc, name } => ErrorV::NoSuchCmd { loc: *loc, name: name@ },
        }
    }
}

/// A node of the output markup tree.
pub enum XMLElem {
    /// An element with attributes and children.
    WithElem(String, Vec<(String, String)>, Vec<XMLElem>),
    /// A self-closing element.
    Single(String, Vec<(String, String)>),
    /// Text, escaped when written out.
    Text(String),
    /// Markup inserted verbatim.
    Raw(String),
}

/// A node of the output markup tree, with its texts as character sequences.
pub enum Markup {
    Elem(Seq<char>, Seq<(Seq<char>, Seq<char>)>, Seq<Markup>),
    Single(Seq<char>, Seq<(Seq<char>, Seq<char>)>),
    Text(Seq<char>),
    Raw(Seq<char>),
}

pub open spec fn attrs_view(a: Seq<(String, String)>) -> Seq<(Seq<char>, Seq<char>)> {
    a.map_values(|p: (String, String)| (p.0@, p.1@))
}

pub open spec fn node_view(e: XMLElem) -> Markup
    decreases e,
{
    match e {
        XMLElem::WithElem(tag, attrs, children) => Markup::Elem(
            tag@,
            attrs_view(attrs@),
            nodes_view(children@),
        ),
        XMLElem::Single(tag, attrs) => Markup::Single(tag@, attrs_view(attrs@)),
        XMLElem::Text(s) => Markup::Text(s@),
        XMLElem::Raw(s) => Markup::Raw(s@),
    }
}

pub open spec fn nodes_view(s: Seq<XMLElem>) -> Seq<Markup>
    decreases s,
{
    if s.len() == 0 {
        Seq::<Markup>::empty()
    } else {
        nodes_view(s.drop_last()).push(node_view(s.last()))
    }
}

impl View for XMLElem {
    type V = Markup;

    open spec fn view(&self) -> Markup {
        node_view(*self)
    }
}

/// The attribute named `name`: the first one of that name.
pub open spec fn lookup(attrs: Seq<Attr>, name: Seq<char>) -> Option<Attr>
    decreases attrs.len(),
{
    if attrs.len() == 0 {
        None
    } else if attrs[0].name@ == name {
        Some(attrs[0])
    } else {
        lookup(attrs.drop_first(), name)
    }
}

/// Finds the attribute named `name`.
pub fn find_attr<'a>(attrs: &'a Vec<Attr>, name: &str) -> (r: Option<&'a Attr>)
    ensures
        r.is_some() == lookup(attrs@, name@).is_some(),
        r matches Some(a) ==> lookup(attrs@, name@) == Some(*a),
{
    let mut i: usize = 0;
    assert(attrs@.skip(0) =~= attrs@);
    while i < attrs.len()
        invariant
            i <= attrs.len(),
            lookup(attrs@, name@) == lookup(attrs@.skip(i as int), name@),
        decreases attrs.len() - i,
    {
        assert(attrs@.skip(i as int).drop_first() =~= attrs@.skip(i + 1));
        if same_text(attrs[i].name.as_str(), name) {
            return Some(&attrs[i]);
        }
        i = i + 1;
    }
    None
}

/// The inline content held by the attribute `name`, or why there is none.
pub open spec fn text_attr(attrs: Seq<Attr>, name: Seq<char>, loc: Location) -> Result<
    Seq<(TextElem, Location)>,
    ErrorV,
> {
    match lookup(attrs, name) {
        None => Err(ErrorV::MissingAttribute { name, loc }),
        Some(a) => match a.value {
            Value::Text(t) => Ok(t@),
            _ => Err(
                ErrorV::InvalidAttributeType {
                    name,
                    loc: a.loc,
                    expected: ValueType::Text,
                    found: a.value.kind(),
                },
            ),
        },
    }
}

/// The string held by the attribute `name`, or why there is none.
pub open spec fn str_attr(attrs: Seq<Attr>, name: Seq<char>, loc: Location) -> Result<Seq<char>, ErrorV> {
    match lookup(attrs, name) {
        None => Err(ErrorV::MissingAttribute { name, loc }),
        Some(a) => match a.value {
            Value::Str(s) => Ok(s@),
            _ => Err(
                ErrorV::InvalidAttributeType {
                    name,
                    loc: a.loc,
                    expected: ValueType::Str,
                    found: a.value.kind(),
                },
            ),
        },
    }
}

/// The inline content of the required attribute `name`; `loc` is where a
/// missing attribute is reported.
pub fn get_text<'a>(attrs: &'a Vec<Attr>, name: &str, loc: &Location) -> (r: Result<
    &'a Vec<(TextElem, Location)>,
    Error,
>)
    ensures
        match r {
            Ok(t) => text_attr(attrs@, name@, *loc) == Ok::<Seq<(TextElem, Location)>, ErrorV>(t@),
            Err(e) => text_attr(attrs@, name@, *loc) == Err::<Seq<(TextElem, Location)>, ErrorV>(e@),
        },
{
    match find_attr(attrs, name) {
        None => Err(Error::MissingAttribute { name: name.to_owned(), loc: loc.copy() }),
        Some(a) => match &a.value {
            Value::Text(t) => Ok(t),
            _ => Err(
                Error::InvalidAttributeType {
                    name: name.to_owned(),
                    loc: a.loc.copy(),
                    expected: ValueType::Text,
                    found: a.value.value_type(),
                },
            ),
        },
    }
}

/// The string of the required attribute `name`; `loc` is where a missing
/// attribute is reported.
pub fn get_str<'a>(attrs: &'a Vec<Attr>, name: &str, loc: &Location) -> (r: Result<&'a String, Error>)
    ensures
        match r {
            Ok(s) => str_attr(attrs@, name@, *loc) == Ok::<Seq<char>, ErrorV>(s@),
            Err(e) => str_attr(attrs@, name@, *loc) == Err::<Seq<char>, ErrorV>(e@),
        },
{
    match find_attr(attrs, name) {
        None => Err(Error::MissingAttribute { name: name.to_owned(), loc: loc.copy() }),
        Some(a) => match &a.value {
            Value::Str(s) => Ok(s),
            _ => Err(
                Error::InvalidAttributeType {
                    name: name.to_owned(),
                    loc: a.loc.copy(),
                    expected: ValueType::Str,
                    found: a.value.value_type(),
                },
            ),
        },
    }
}

} // verus!
