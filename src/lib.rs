//! Three-body gravitation: the order in which one tick updates the bodies.
//! Every body is first updated from a snapshot of all bodies taken before the
//! tick, and only then are all of them advanced.

pub mod body;
pub mod tick;
