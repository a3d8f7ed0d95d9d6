//! Session bookkeeping and the decisions of the pipeline's background task.

pub mod pipeline_orchestrator;
pub mod session;
pub mod updates;
