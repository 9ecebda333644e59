//! The five granularity levels of the document tree.

use vstd::prelude::*;

verus! {

/// The level of a node in the document tree, and of a breadcrumb of the cursor.
#[derive(Clone, Copy, PartialEq, Eq, Debug, Structural)]
pub enum ZipperType {
    Window,
    Document,
    Line,
    Span,
    Character,
}

impl ZipperType {
    /// The level one step below `self`; `Character` is the deepest level and
    /// maps to itself.
    pub open spec fn spec_child_type(&self) -> ZipperType {
        match self {
            ZipperType::Window => ZipperType::Document,
            ZipperType::Document => ZipperType::Line,
            ZipperType::Line => ZipperType::Span,
            ZipperType::Span => ZipperType::Character,
            ZipperType::Character => ZipperType::Character,
        }
    }

    /// The distance from the top of the tree, counting `Window` as 1.
    pub open spec fn depth(&self) -> nat {
        match self {
            ZipperType::Window => 1,
            ZipperType::Document => 2,
            ZipperType::Line => 3,
            ZipperType::Span => 4,
            ZipperType::Character => 5,
        }
    }

    #[verifier::when_used_as_spec(spec_child_type)]
    pub fn child_type(&self) -> (child: Self)
        ensures
            child == self.spec_child_type(),
    {
        match self {
            ZipperType::Window => ZipperType::Document,
            ZipperType::Document => ZipperType::Line,
            ZipperType::Line => ZipperType::Span,
            ZipperType::Span => ZipperType::Character,
            ZipperType::Character => ZipperType::Character,
        }
    }
}

} // verus!
