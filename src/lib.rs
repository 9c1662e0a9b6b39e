//! An append-only provenance ledger: for each product, the custody steps
//! recorded for it, validated on the way in, stamped by the store, read back
//! in timestamp order, and exported and restored whole.

pub mod laws;
pub mod ledger;
pub mod order;
pub mod step;
pub mod text;

pub use ledger::{Ledger, ProductHistory};
pub use step::{AddStepResult, Step, StepField};
