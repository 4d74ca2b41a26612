//! The commands of which a drawn path is made.

use vstd::prelude::*;

verus! {

/// One command of a path, with the names of the points it goes by.
#[derive(Debug, Clone, PartialEq, Eq)]
pub enum PathCmd {
    /// Start at the point.
    Move(String),
    /// A straight line to the point.
    Line(String),
    /// A quadratic curve by the first point to the second.
    Quadratic(String, String),
    /// A cubic curve by the first two points to the third.
    Cubic(String, String, String),
}

/// A path command as a mathematical value.
pub enum PathCmdView {
    Move(Seq<char>),
    Line(Seq<char>),
    Quadratic(Seq<char>, Seq<char>),
    Cubic(Seq<char>, Seq<char>, Seq<char>),
}

impl View for PathCmd {
    type V = PathCmdView;

    open spec fn view(&self) -> PathCmdView {
        match self {
            PathCmd::Move(p) => PathCmdView::Move(p@),
            PathCmd::Line(p) => PathCmdView::Line(p@),
            PathCmd::Quadratic(p, q) => PathCmdView::Quadratic(p@, q@),
            PathCmd::Cubic(p, q, r) => PathCmdView::Cubic(p@, q@, r@),
        }
    }
}

/// The commands of a path as mathematical values.
pub open spec fn path_view(path: Seq<PathCmd>) -> Seq<PathCmdView> {
    Seq::new(path.len(), |i: int| path[i]@)
}

} // verus!
