//! Batches a list of inputs into balanced groups and renders one shell
//! script per group, each invoking a worker script once per input.
mod text;

pub mod convention;
pub mod expand;
pub mod naming;
pub mod order;
pub mod partition;
pub mod plan;
pub mod quote;
pub mod script;

pub use convention::{classify, parse_positional_slot, parse_template_tokens, Convention};
pub use expand::has_glob_meta;
pub use naming::{dry_run_line, is_stale_script_name, job_file_name, job_name, select_stale_scripts};
pub use order::sort_texts;
pub use partition::split_evenly;
pub use plan::{check_batch, jobs_for, plan_jobs, submit_command, BatchError, Cli, JobScript};
pub use quote::{shell_quote, shell_quote_path};
pub use script::{format_invocation, job_script_text, quote_all};
