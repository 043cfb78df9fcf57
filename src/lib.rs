//! Frontend compiler for arithmetic circuits evaluated under the BFV
//! homomorphic encryption scheme: an IR builder, lowering to a backend
//! circuit, the backend transforms, and the fractional plaintext codec.

pub mod circuit;
pub mod codec;
pub mod frontend;
pub mod graph;
pub mod params;
pub mod transforms;

pub use circuit::{Circuit, SchemeType};
pub use frontend::{Context, FrontendCompilation, Literal, NodeIndex, OperandInfo, Operation};
pub use params::{Error, Params, SecurityLevel};
pub use transforms::transform_intermediate_represenation;
