//! The state machine of a peg zone: the hooks that a consensus engine drives, the registry
//! of validators that they keep, and the custody address that the validators control.

pub mod adapter;
pub mod buffer;
pub mod bytemap;
pub mod codec;
pub mod executor;
pub mod order;
pub mod registry;
pub mod script;
pub mod signatory;
pub mod store;
pub mod validators;
pub mod wallet;
