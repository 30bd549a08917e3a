//! Configuration records for the invitation workflow: who sends, who
//! receives, and the optional schedule. Loading them from disk or the
//! environment is the caller's concern.

use vstd::prelude::*;

verus! {

/// The sender of the invitations: display name and the path of the email
/// template to render.
#[derive(Clone, Debug, PartialEq, Eq)]
pub struct SenderConfig {
    pub name: String,
    pub template_path: String,
}

/// A single invitation recipient.
#[derive(Clone, Debug, PartialEq, Eq)]
pub struct Recipient {
    pub name: String,
    pub email: String,
}

/// Optional scheduling of recurring invitation runs.
#[derive(Clone, Debug, PartialEq, Eq)]
pub struct ScheduleConfig {
    pub enabled: bool,
    pub cron_expression: Option<String>,
    pub timezone: Option<String>,
}

} // verus!
