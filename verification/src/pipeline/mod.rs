//! The pipeline: its definition, its checks, and the decisions a run makes.

pub mod definition;
pub mod edit_laws;
pub mod hooks;
pub mod observe;
pub mod plan;
pub mod report_laws;
pub mod run;
pub mod run_laws;
pub mod turn_laws;
pub mod validate;
pub mod validate_laws;
