//! Prewhere optimization for a parquet reader.
//!
//! Prewhere optimization reduces I/O by:
//! 1. Reading only filter columns first (prewhere phase)
//! 2. Applying filters to get a refined row selection
//! 3. Reading remaining columns with the refined selection
pub mod apply;
pub mod context;
pub mod execute;
pub mod laws;
pub mod passed_over;
pub mod step_laws;

pub use apply::{apply_filters_to_batch, FilterStep, PrewhereError};
pub use context::{compute_projection_mask, should_use_prewhere, PrewhereContext};
pub use passed_over::{passed_over_filters, PassedOver};
pub use execute::{execute_prewhere, try_execute_prewhere, PrewhereResult, PrewhereRun};
