//! Integer core of a rotating point-cloud animation: the phase machine that
//! times each shape's reveal, the lattices behind the four shapes, the choice
//! of the next shape, and the back-to-front ordering used when painting.

pub mod phase;
pub mod shapes;
pub mod selector;
pub mod session;
pub mod depth;
pub mod shimmer;
