pub mod semantics;
pub mod var;
pub mod vmcore;

pub use vmcore::XurVM;
