//! The failures that the library reports.

use vstd::prelude::*;

verus! {

/// Why an evaluation or a construction was refused.
///
/// Every failure is handed back to the caller at the point where it is
/// found; nothing is retried or recovered inside the library.
#[derive(Clone, Copy, Debug, PartialEq, Eq, Structural)]
pub enum Error {
    /// A deformation gradient whose determinant is not positive.
    InvalidDeformation,
    /// The inverse of a rank-2 tensor that has none.
    SingularTensor,
    /// A quantity that the chosen model does not define.
    UnsupportedCapability,
    /// An iterative solve that used up its iterations.
    NumericalNonconvergence,
    /// A node index out of range, or a node repeated within one element.
    InvalidConnectivity,
}

impl Error {
    /// The text that `message` returns, as a sequence of characters.
    pub open spec fn message_text(self) -> Seq<char> {
        match self {
            Error::InvalidDeformation => "The deformation gradient has a non-positive determinant."@,
            Error::SingularTensor => "The tensor is singular and cannot be inverted."@,
            Error::UnsupportedCapability => "The Helmholtz free energy density is undefined for elastic constitutive models."@,
            Error::NumericalNonconvergence => "The iterative solve did not converge within its iteration limit."@,
            Error::InvalidConnectivity => "The connectivity holds a node index that is out of range or repeated."@,
        }
    }

    /// A sentence for the caller to show.
    pub fn message(&self) -> (text: &'static str)
        ensures
            text@ == self.message_text(),
    {
        match self {
            Error::InvalidDeformation => "The deformation gradient has a non-positive determinant.",
            Error::SingularTensor => "The tensor is singular and cannot be inverted.",
            Error::UnsupportedCapability => "The Helmholtz free energy density is undefined for elastic constitutive models.",
            Error::NumericalNonconvergence => "The iterative solve did not converge within its iteration limit.",
            Error::InvalidConnectivity => "The connectivity holds a node index that is out of range or repeated.",
        }
    }
}

} // verus!
