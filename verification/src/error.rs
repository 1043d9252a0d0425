//! Validation failures and the breadcrumb paths that locate them.

use vstd::prelude::*;

use crate::text::{concat2, concat3, decimal, decimal_text};

verus! {

/// One step in the breadcrumb trail from the document root to where a
/// validation failure occurred.
#[derive(Debug, PartialEq)]
pub enum PathSeg {
    /// A named struct field, e.g. `.readings`
    Field(String),
    /// An array index, e.g. `[3]`
    Index(usize),
    /// A map/table entry key, rendered as `{key}`
    Key(String),
    /// An enum (type choice) variant attempt, rendered as `<variant>`
    Variant(String),
}

/// What a [`PathSeg`] stands for.
pub enum SegView {
    Field(Seq<char>),
    Index(nat),
    Key(Seq<char>),
    Variant(Seq<char>),
}

impl View for PathSeg {
    type V = SegView;

    open spec fn view(&self) -> SegView {
        match self {
            PathSeg::Field(name) => SegView::Field(name@),
            PathSeg::Index(i) => SegView::Index(*i as nat),
            PathSeg::Key(key) => SegView::Key(key@),
            PathSeg::Variant(name) => SegView::Variant(name@),
        }
    }
}

impl SegView {
    /// How one step of a path is written.
    pub open spec fn rendered(self) -> Seq<char> {
        match self {
            SegView::Field(name) => "."@ + name,
            SegView::Index(i) => "["@ + decimal(i as int) + "]"@,
            SegView::Key(key) => "{"@ + key + "}"@,
            SegView::Variant(name) => "<"@ + name + ">"@,
        }
    }
}

impl Clone for PathSeg {
    fn clone(&self) -> (copy: Self)
        ensures
            copy@ == self@,
    {
        match self {
            PathSeg::Field(name) => PathSeg::Field(name.clone()),
            PathSeg::Index(i) => PathSeg::Index(*i),
            PathSeg::Key(key) => PathSeg::Key(key.clone()),
            PathSeg::Variant(name) => PathSeg::Variant(name.clone()),
        }
    }
}

impl PathSeg {
    /// Writes one step: `.field`, `[index]`, `{key}` or `<variant>`.
    pub fn render(&self) -> (text: String)
        ensures
            text@ == self@.rendered(),
    {
        match self {
            PathSeg::Field(name) => concat2(".", name.as_str()),
            PathSeg::Index(i) => concat3("[", decimal_text(*i as i128).as_str(), "]"),
            PathSeg::Key(key) => concat3("{", key.as_str(), "}"),
            PathSeg::Variant(name) => concat3("<", name.as_str(), ">"),
        }
    }
}

/// What a path stands for, step by step.
pub open spec fn path_view(path: Seq<PathSeg>) -> Seq<SegView> {
    path.map_values(|seg: PathSeg| seg@)
}

/// The steps of a path, written one after another.
pub open spec fn rendered_steps(path: Seq<SegView>) -> Seq<char>
    decreases path.len(),
{
    if path.len() == 0 {
        seq![]
    } else {
        rendered_steps(path.drop_last()) + path.last().rendered()
    }
}

/// The whole path: `$` for the document root, then the steps.
pub open spec fn rendered_path(path: Seq<SegView>) -> Seq<char> {
    "$"@ + rendered_steps(path)
}

/// Copies a path.
pub fn copy_path(path: &Vec<PathSeg>) -> (copy: Vec<PathSeg>)
    ensures
        path_view(copy@) == path_view(path@),
{
    let mut copy: Vec<PathSeg> = Vec::new();
    let mut i: usize = 0;
    while i < path.len()
        invariant
            i <= path.len(),
            copy.len() == i,
            forall|j: int| 0 <= j < i ==> (#[trigger] copy@[j])@ == path@[j]@,
        decreases path.len() - i,
    {
        copy.push(path[i].clone());
        i += 1;
    }
    assert(path_view(copy@) =~= path_view(path@));
    copy
}

/// `String::from` on a text: a string of its own, with the same characters.
pub assume_specification<'a>[ <String as From<&'a str>>::from ](text: &str) -> (copy: String)
    ensures
        copy@ == text@,
;

/// `From` from a type to itself: the argument comes back unchanged.
pub assume_specification<T>[ <T as From<T>>::from ](value: T) -> (same: T)
    ensures
        same == value,
;

/// A single validation failure, with a breadcrumb path back to the document
/// root (e.g. `readings[3].value`).
#[derive(Debug, PartialEq)]
pub struct ValidationError {
    pub path: Vec<PathSeg>,
    pub message: String,
}

/// What a [`ValidationError`] reports.
pub struct ErrorView {
    pub path: Seq<SegView>,
    pub message: Seq<char>,
}

impl View for ValidationError {
    type V = ErrorView;

    open spec fn view(&self) -> ErrorView {
        ErrorView { path: path_view(self.path@), message: self.message@ }
    }
}

/// What a list of failures reports, in order.
pub open spec fn errors_view(errors: Seq<ValidationError>) -> Seq<ErrorView> {
    errors.map_values(|error: ValidationError| error@)
}

impl Clone for ValidationError {
    fn clone(&self) -> (copy: Self)
        ensures
            copy@ == self@,
    {
        ValidationError { path: copy_path(&self.path), message: self.message.clone() }
    }
}

impl ValidationError {
    /// A failure at a path, with what its message converts into.
    pub fn new<M: Into<String>>(path: Vec<PathSeg>, message: M) -> (error: Self)
        ensures
            error.path == path,
            call_ensures(M::into, (message,), error.message),
    {
        ValidationError { path, message: message.into() }
    }

    /// The path in writing, starting from `$`, e.g. `$.readings[3].value`.
    pub fn path_string(&self) -> (text: String)
        ensures
            text@ == rendered_path(self@.path),
    {
        let mut text = "$".to_owned();
        let ghost steps = path_view(self.path@);
        let mut i: usize = 0;
        assert(rendered_steps(steps.take(0)) =~= seq![]);
        assert(text@ =~= "$"@ + rendered_steps(steps.take(0)));
        while i < self.path.len()
            invariant
                i <= self.path.len(),
                steps == path_view(self.path@),
                text@ == "$"@ + rendered_steps(steps.take(i as int)),
            decreases self.path.len() - i,
        {
            text.append(self.path[i].render().as_str());
            i += 1;
            proof {
                let before = steps.take(i - 1);
                let now = steps.take(i as int);
                assert(now.drop_last() =~= before);
                assert(now.last() == self.path@[i - 1]@);
                assert(text@ =~= "$"@ + rendered_steps(now));
            }
        }
        assert(steps.take(i as int) =~= steps);
        text
    }

    /// The failure in writing: the path, a colon and the message.
    pub fn render(&self) -> (text: String)
        ensures
            text@ == rendered_path(self@.path) + ": "@ + self@.message,
    {
        concat3(self.path_string().as_str(), ": ", self.message.as_str())
    }
}

} // verus!
