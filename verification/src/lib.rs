//! Verified bookkeeping for a real-gas simulator: the bounded error history of
//! its PID controller, the index layout of its 4x4 filter matrices, and the
//! character-grid plotting and table layout of its text reports.

pub mod history;
pub mod matrix;
pub mod plot;
pub mod layout;
