//! How a tick can fail, and what the failure means to the job's schedule.

use vstd::prelude::*;

use crate::text;
use crate::text::contains_text;

verus! {

/// A failed tick. The text of `Permanent` and `Transient` is the line that is
/// reported; the host program puts it on top of the underlying error where
/// there is one.
#[derive(Debug)]
pub enum PollerError {
    /// The job's configuration is wrong.
    Config { job: String, reason: String },
    /// The job will not recover on its own: it is paused.
    Permanent(String),
    /// The job may be tried again later.
    Transient(String),
}

/// The view of a [`PollerError`].
pub enum Failure {
    Config { job: Seq<char>, reason: Seq<char> },
    Permanent(Seq<char>),
    Transient(Seq<char>),
}

impl View for PollerError {
    type V = Failure;

    open spec fn view(&self) -> Failure {
        match self {
            PollerError::Config { job, reason } => Failure::Config { job: job@, reason: reason@ },
            PollerError::Permanent(line) => Failure::Permanent(line@),
            PollerError::Transient(line) => Failure::Transient(line@),
        }
    }
}

/// Whether a Google error says that the access is gone for good.
pub open spec fn access_is_gone(message: Seq<char>) -> bool {
    ||| text::contains(message, "invalid_grant"@)
    ||| text::contains(message, "revoked"@)
    ||| text::contains(message, "401"@)
}

/// What a Google error with `message`, met while doing `ctx`, amounts to.
pub open spec fn classified(message: Seq<char>, ctx: Seq<char>) -> Failure {
    if access_is_gone(message) {
        Failure::Permanent("google: "@ + ctx)
    } else {
        Failure::Transient("google: "@ + ctx)
    }
}

/// What a Google error with `message`, met while doing `ctx`, amounts to:
/// permanent if the access is gone for good, else transient.
pub fn classify_google_err(message: &str, ctx: &str) -> (err: PollerError)
    ensures
        err@ == classified(message@, ctx@),
{
    let mut line = "google: ".to_owned();
    line.append(ctx);
    if contains_text(message, "invalid_grant") || contains_text(message, "revoked")
        || contains_text(message, "401") {
        PollerError::Permanent(line)
    } else {
        PollerError::Transient(line)
    }
}

/// An error that speaks of a rejected grant, a revoked access or the status 401
/// anywhere in its message is permanent.
pub proof fn lemma_lost_access_is_permanent(
    a: Seq<char>,
    word: Seq<char>,
    b: Seq<char>,
    ctx: Seq<char>,
)
    requires
        word == "invalid_grant"@ || word == "revoked"@ || word == "401"@,
    ensures
        classified(a + word + b, ctx) == Failure::Permanent("google: "@ + ctx),
{
    text::lemma_text_stands_in_what_surrounds_it(a, word, b);
}

/// Every other error is transient.
pub proof fn lemma_other_errors_are_transient(message: Seq<char>, ctx: Seq<char>)
    requires
        !text::contains(message, "invalid_grant"@),
        !text::contains(message, "revoked"@),
        !text::contains(message, "401"@),
    ensures
        classified(message, ctx) == Failure::Transient("google: "@ + ctx),
{
}

} // verus!
