//! What an operator configures for a job.

use vstd::prelude::*;

verus! {

/// One Gmail job.
#[derive(Debug, Clone)]
pub struct GmailJobConfig {
    /// Gmail search query (`is:unread`, `subject:lead`, ...).
    pub query: String,
    /// `newer_than:` suffix appended to the query (`1d`, `2h`). Avoids
    /// back-filling years of historical mail on first deploy.
    pub newer_than: Option<String>,
    /// Hard cap on dispatches per tick.
    pub max_per_tick: usize,
    /// Throttle (ms) between dispatches inside the same tick.
    pub dispatch_delay_ms: u64,
    /// `From:` substring filter. Empty accepts any sender.
    pub sender_allowlist: Vec<String>,
    /// Field names, each with the pattern that finds the field's text. A name
    /// occurs once; the order is of no consequence.
    pub extract: Vec<(String, String)>,
    /// Skip dispatch when any of these fields ended up empty.
    pub require_fields: Vec<String>,
    /// Template with `{field}` placeholders. `{subject}`, `{from}` and
    /// `{snippet}` are always available.
    pub message_template: String,
    /// Mark each dispatched message as read in Gmail.
    pub mark_read_on_dispatch: bool,
    /// Where the texts go.
    pub deliver: DeliverCfg,
}

/// The outbound channel and the recipient on it.
#[derive(Debug, Clone)]
pub struct DeliverCfg {
    pub channel: String,
    pub to: String,
}

/// The Google account that an agent's jobs read.
#[derive(Debug)]
pub struct GoogleAccountCreds {
    pub account_id: String,
    pub client_id_path: String,
    pub client_secret_path: String,
    pub token_path: String,
    pub scopes: Vec<String>,
}

/// The cap on dispatches per tick where none is configured.
pub fn default_max_per_tick() -> (n: usize)
    ensures
        n == 20,
{
    20
}

/// The throttle between dispatches where none is configured.
pub fn default_dispatch_delay() -> (ms: u64)
    ensures
        ms == 1000,
{
    1000
}

/// Whether dispatched messages are marked as read where nothing is configured.
pub fn default_mark_read() -> (mark: bool)
    ensures
        mark,
{
    true
}

} // verus!
