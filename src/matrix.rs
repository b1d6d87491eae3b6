//! The shape interface that every matrix type offers, and the error of
//! dimension-dependent operations.
use vstd::prelude::*;

verus! {

/// Returned by a binary operation whose operands have incompatible shapes.
#[derive(Debug, Clone, Copy, PartialEq, Eq, Structural)]
pub enum MatrixError {
    Incompatibility,
}

/// Shape and storage of a matrix.
pub trait Matrix: Sized {
    type Element;

    /// Number of rows.
    spec fn rows(&self) -> nat;

    /// Number of columns.
    spec fn cols(&self) -> nat;

    /// The internal invariant of the representation.
    spec fn well_formed(&self) -> bool;

    /// The stored elements, in reading order.
    spec fn elements(&self) -> Seq<Self::Element>;

    /// Number of stored elements.
    fn len(&self) -> (r: usize)
        requires
            self.well_formed(),
        ensures
            r == self.elements().len(),
    ;

    /// `[rows, columns]`.
    fn size(&self) -> (r: [usize; 2])
        requires
            self.well_formed(),
        ensures
            r@ == seq![self.rows() as usize, self.cols() as usize],
    ;

    /// Whether no element is stored.
    fn is_empty(&self) -> (r: bool)
        requires
            self.well_formed(),
        ensures
            r == (self.elements().len() == 0),
    ;

    /// Gives up the matrix for its stored elements, in reading order.
    fn into_vec(self) -> (r: Vec<Self::Element>)
        requires
            self.well_formed(),
        ensures
            r@ == self.elements(),
    ;
}

} // verus!
