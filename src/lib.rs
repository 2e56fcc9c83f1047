//! Constant folding over exact rationals and the bookkeeping of one
//! equality-saturation session.
pub mod rational;
pub mod fold;
pub mod session;
