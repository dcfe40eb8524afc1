use vstd::prelude::*;

verus! {

/// Indentation, in columns, of the lines of a broken chain.
pub const INDENT: usize = 2;

/// A layout document, built from the primitives of a Wadler-style renderer.
pub enum Doc {
    Nil,
    /// Literal text, with no line break in it.
    Text(String),
    Cat(Box<Doc>, Box<Doc>),
    /// A space when its group is flat, a line break otherwise.
    Line,
    /// Nothing when its group is flat, a line break otherwise.
    SoftLine,
    /// The inner document, with lines after each break indented further.
    Nest(usize, Box<Doc>),
    /// Flat if the whole group fits the line, else broken.
    Group(Box<Doc>),
}

/// The mathematical value of a [`Doc`].
pub enum DocV {
    Nil,
    Text(Seq<char>),
    Cat(Box<DocV>, Box<DocV>),
    Line,
    SoftLine,
    Nest(nat, Box<DocV>),
    Group(Box<DocV>),
}

pub open spec fn doc_v(d: Doc) -> DocV
    decreases d,
{
    match d {
        Doc::Nil => DocV::Nil,
        Doc::Text(s) => DocV::Text(s@),
        Doc::Cat(a, b) => DocV::Cat(Box::new(doc_v(*a)), Box::new(doc_v(*b))),
        Doc::Line => DocV::Line,
        Doc::SoftLine => DocV::SoftLine,
        Doc::Nest(n, x) => DocV::Nest(n as nat, Box::new(doc_v(*x))),
        Doc::Group(x) => DocV::Group(Box::new(doc_v(*x))),
    }
}

impl View for Doc {
    type V = DocV;

    open spec fn view(&self) -> DocV {
        doc_v(*self)
    }
}

pub open spec fn cat(a: DocV, b: DocV) -> DocV {
    DocV::Cat(Box::new(a), Box::new(b))
}

pub open spec fn text(s: Seq<char>) -> DocV {
    DocV::Text(s)
}

/// The text of a document with every group flat.
pub open spec fn flat(d: DocV) -> Seq<char>
    decreases d,
{
    match d {
        DocV::Nil => seq![],
        DocV::Text(s) => s,
        DocV::Cat(a, b) => flat(*a) + flat(*b),
        DocV::Line => seq![' '],
        DocV::SoftLine => seq![],
        DocV::Nest(_, x) => flat(*x),
        DocV::Group(x) => flat(*x),
    }
}

pub open spec fn spaces(n: nat) -> Seq<char> {
    Seq::new(n, |i: int| ' ')
}

/// The text of a document with every group broken, at indentation `ind`.
pub open spec fn broken(d: DocV, ind: nat) -> Seq<char>
    decreases d,
{
    match d {
        DocV::Nil => seq![],
        DocV::Text(s) => s,
        DocV::Cat(a, b) => broken(*a, ind) + broken(*b, ind),
        DocV::Line | DocV::SoftLine => seq!['\n'] + spaces(ind),
        DocV::Nest(n, x) => broken(*x, ind + n),
        DocV::Group(x) => broken(*x, ind),
    }
}

/// Whether a document has a point at which a renderer may break the line.
pub open spec fn has_break(d: DocV) -> bool
    decreases d,
{
    match d {
        DocV::Nil | DocV::Text(_) => false,
        DocV::Cat(a, b) => has_break(*a) || has_break(*b),
        DocV::Line | DocV::SoftLine => true,
        DocV::Nest(_, x) => has_break(*x),
        DocV::Group(x) => has_break(*x),
    }
}

/// A document of literal text.
pub fn text_doc(s: &str) -> (d: Doc)
    ensures
        d@ == text(s@),
{
    Doc::Text(s.to_owned())
}

pub fn cat_doc(a: Doc, b: Doc) -> (d: Doc)
    ensures
        d@ == cat(a@, b@),
{
    Doc::Cat(Box::new(a), Box::new(b))
}

} // verus!
