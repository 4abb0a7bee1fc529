//! Finite-deformation solid mechanics: the constitutive models as a closed
//! set of kinds, the routes between their stress measures, and the assembly
//! of a block of linear tetrahedra.
//!
//! The library holds everything that decides, orders and places. It never
//! looks at a scalar: where a step needs arithmetic on scalars, the caller
//! hands that step in.

pub mod assembly;
pub mod block;
pub mod connectivity;
pub mod conversion;
pub mod error;
pub mod incidence;
pub mod layout;
pub mod model;
pub mod solve;
pub mod tensor;
