use vstd::prelude::*;

pub mod text;
pub mod assoc;
pub mod truncate;
pub mod edit_diff;
pub mod edit_laws;
pub mod skills;
pub mod system_prompt;
pub mod system_prompt_laws;
pub mod image;
pub mod path_utils;
pub mod fork_policy;
pub mod values;
pub mod types;
pub mod session_types;
pub mod b64;
pub mod server;
pub mod office;
pub mod tools;
pub mod secretstore;
pub mod validation;
pub mod grep;
pub mod listing;
pub mod session_context;
pub mod output_accumulator;
pub mod bash_output;
pub mod paths;
pub mod memory;
pub mod clock;
pub mod schedulestore;
pub mod inboxstore;
pub mod scheduler;
pub mod scheduled_run;
pub mod mcp;
pub mod diff;
pub mod read;
pub mod messages;
pub mod transform;
pub mod glob;
pub mod skill_loader;
pub mod transform_laws;
pub mod transcript;
pub mod commit;
pub mod storage;
pub mod storage_laws;

verus! {
} // verus!
