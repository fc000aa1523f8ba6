//! Why a generation run fails.

use vstd::prelude::*;

verus! {

/// The ways a generation run can fail. Each is fatal for the whole run.
#[derive(Debug, PartialEq)]
pub enum GenError {
    /// Two types of the universe share this name.
    DuplicateTypeName(String),
    /// A definition names no package.
    MissingPackage,
    /// A reference names a type that the dictionary does not hold.
    UnknownType(String),
    /// A payload of a tagged union names a type that is no object.
    NotAnObject(String),
    /// A writer gave up, with its own message.
    Writer(String),
}

pub enum GenErrorView {
    DuplicateTypeName(Seq<char>),
    MissingPackage,
    UnknownType(Seq<char>),
    NotAnObject(Seq<char>),
    Writer(Seq<char>),
}

impl View for GenError {
    type V = GenErrorView;

    open spec fn view(&self) -> GenErrorView {
        match *self {
            GenError::DuplicateTypeName(n) => GenErrorView::DuplicateTypeName(n@),
            GenError::MissingPackage => GenErrorView::MissingPackage,
            GenError::UnknownType(n) => GenErrorView::UnknownType(n@),
            GenError::NotAnObject(n) => GenErrorView::NotAnObject(n@),
            GenError::Writer(m) => GenErrorView::Writer(m@),
        }
    }
}

impl GenErrorView {
    /// The text shown for the error.
    pub open spec fn message(self) -> Seq<char> {
        match self {
            GenErrorView::DuplicateTypeName(n) => "Duplicate type name: "@ + n,
            GenErrorView::MissingPackage => "cannot find package info from definition"@,
            GenErrorView::UnknownType(n) => "Cannot find custom type: "@ + n,
            GenErrorView::NotAnObject(n) => "Enum cannot be nested within enum object: "@ + n,
            GenErrorView::Writer(m) => m,
        }
    }
}

impl GenError {
    /// The text shown for the error.
    pub fn message(&self) -> (r: String)
        ensures
            r@ == self@.message(),
    {
        match self {
            GenError::DuplicateTypeName(n) => {
                let mut s = String::from_str("Duplicate type name: ");
                s.append(n.as_str());
                s
            },
            GenError::MissingPackage => String::from_str("cannot find package info from definition"),
            GenError::UnknownType(n) => {
                let mut s = String::from_str("Cannot find custom type: ");
                s.append(n.as_str());
                s
            },
            GenError::NotAnObject(n) => {
                let mut s = String::from_str("Enum cannot be nested within enum object: ");
                s.append(n.as_str());
                s
            },
            GenError::Writer(m) => m.clone(),
        }
    }
}

impl Clone for GenError {
    fn clone(&self) -> (r: Self)
        ensures
            r@ == self@,
    {
        match self {
            GenError::DuplicateTypeName(n) => GenError::DuplicateTypeName(n.clone()),
            GenError::MissingPackage => GenError::MissingPackage,
            GenError::UnknownType(n) => GenError::UnknownType(n.clone()),
            GenError::NotAnObject(n) => GenError::NotAnObject(n.clone()),
            GenError::Writer(m) => GenError::Writer(m.clone()),
        }
    }
}

} // verus!
