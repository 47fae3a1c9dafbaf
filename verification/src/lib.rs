//! A scheduler core that turns an ordered list of work units, each declaring
//! which data stores it borrows and how, into the fewest parallel-safe
//! batches, honoring before/after ordering constraints and recording a
//! structured explanation for every batch boundary.

mod conflict;
mod info;
mod labels;
mod order;
mod planner;

pub use info::BatchInfo;
pub use info::Conflict;
pub use info::Mutability;
pub use info::SystemId;
pub use info::SystemInfo;
pub use info::TypeInfo;
pub use info::WorkloadInfo;
pub use info::WorkloadsInfo;
pub use conflict::check;
pub use planner::plan;
pub use order::build_workload;
pub use order::resolve_order;
pub use order::SchedulingError;
pub use labels::DedupedLabels;
pub use labels::Label;
pub use labels::RequirementsIter;
