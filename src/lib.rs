//! A weighted-threshold multisignature governance program.
//!
//! The library holds the program's decisions: the record grammar, the
//! content-addressing of records, the weighted approval state machine and the
//! request processor. What the processor decides is returned as an outcome
//! value that the runtime glue carries out.
pub mod address;
pub mod codec;
pub mod error;
pub mod instruction;
pub mod processor;
pub mod state;
pub mod utils;
