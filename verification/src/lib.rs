//! Verified core of the claw terminal client: context filtering for model
//! requests, message conversion, sub-agent bookkeeping and the line-editor
//! state machine of the interactive prompt.

pub mod text;
pub mod session;
pub mod context;
pub mod matching;
pub mod picker;
pub mod display;
pub mod convert;
pub mod agents;
pub mod laws;
