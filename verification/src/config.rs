//! The configuration that the pipeline reads: tasks and limits.

use std::collections::HashMap;
use vstd::prelude::*;

verus! {

/// One webhook, with the suffix of the address it announces.
#[derive(Clone, Debug)]
pub struct Task {
    pub id: String,
    pub name: String,
    /// An IPv6 literal; its lower 64 bits are the host part of the task's
    /// address.
    pub suffix: String,
    pub webhook_url: String,
    pub webhook_method: String,
    pub webhook_body: Option<String>,
    pub webhook_headers: HashMap<String, String>,
    pub enabled: bool,
    pub allow_api_trigger: bool,
}

/// The value of a task's `enabled` where the stored configuration does not
/// give one.
pub fn default_true() -> (b: bool)
    ensures
        b,
{
    true
}

/// The whole configuration.
#[derive(Clone, Debug)]
pub struct AppConfig {
    pub log_limit: usize,
    pub run_on_startup: bool,
    pub tasks: Vec<Task>,
}

impl Default for AppConfig {
    /// A hundred log entries, nothing run on startup, no tasks.
    fn default() -> (c: AppConfig)
        ensures
            c.log_limit == 100,
            !c.run_on_startup,
            c.tasks@.len() == 0,
    {
        AppConfig { log_limit: 100, run_on_startup: false, tasks: Vec::new() }
    }
}

} // verus!
