//! A resumable, checkpointed analysis pipeline for source packages.
//!
//! The crate holds the decisions of the pipeline: which stages still have
//! to run, how a bounded pool of workers hands out its slots, and how the
//! failure of one package is recorded on the package and rolled up to the
//! repository that owns it. Running the external tool and persisting the
//! documents is left to the caller.

pub mod clock;
pub mod crate_paths;
pub mod engine;
pub mod expand;
pub mod failures;
pub mod outcome;
pub mod pool;
pub mod results;
pub mod state;
pub mod table;

pub use clock::Timestamp;
pub use crate_paths::get_repo_path;
pub use engine::{run_stage, StageRun};
pub use expand::{
    begin_expand, expand_command, expand_crates, expand_outcome, finish_expand,
    has_room_for_failures, CargoToml, ExpandCommand, ExpandPlan, ExpandRun, LibTarget,
    EXPANDED_FILE, MANIFEST_FILE, REPOS_PATH, WORKER_POOL_SIZE,
};
pub use failures::{record_failure, record_outcomes};
pub use outcome::Outcome;
pub use pool::{run_batch, PoolError, PoolStep, WorkerPool};
pub use results::{AnalyzisResults, CrateAnalyzis, RepoAnalyzis};
pub use state::{ScraperState, Stage, StageDecision};
pub use table::Table;
